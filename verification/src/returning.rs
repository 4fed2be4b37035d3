//! The `RETURNING` clause.
//!
//! The rows that a statement changes are gathered in an ephemeral table, and put out once all
//! changes are made.
use vstd::prelude::*;

use crate::ast::{
    opt_name_view, result_columns_view, Expr, ExprView, ResultColumn, ResultColumnView,
};
use crate::builder::{reg_at, reg_off, Asm, ProgramBuilder};
use crate::columns::{expr_output, outputs_view, push_table, table_outputs, titles_of, Output};
use crate::emit::{emit_columns, gen_columns, group_emit};
use crate::expr::{compile_expr, gen_expr};
use crate::render::{default_col_name, expr_to_text, rendered};
use crate::schema::{ColumnRef, Functions, FunctionsView, Table, TableView};
use crate::scope::{emitted, steady, Ctx, CtxView, NO_CURSOR};
use crate::select::output_names;
use crate::text::{eq_ignore_case, eq_nocase, Error};
use crate::vdbe::{Affinity, Opcode};

verus! {

broadcast use group_emit;

/// The state of a `RETURNING` clause.
#[derive(Debug)]
pub struct Returning {
    /// The output columns with their names.
    pub columns: Vec<Output>,
    /// The cursor of the ephemeral table; [`NO_CURSOR`] until the table is opened.
    pub cursor: i32,
    /// The first register of a row; -1 until the table is opened.
    pub reg_base: i32,
}

/// The mathematical value of a [`Returning`].
pub ghost struct ReturningView {
    pub columns: Seq<(ExprView, Seq<char>)>,
    pub cursor: i32,
    pub reg_base: i32,
}

impl View for Returning {
    type V = ReturningView;

    open spec fn view(&self) -> ReturningView {
        ReturningView {
            columns: outputs_view(self.columns@),
            cursor: self.cursor,
            reg_base: self.reg_base,
        }
    }
}

/// The output columns of the first `n` columns of a `RETURNING` clause.
pub open spec fn returned_columns(raw: Seq<ResultColumnView>, t: TableView, n: int) -> Result<
    Seq<(ExprView, Seq<char>)>,
    Seq<char>,
>
    decreases n,
{
    if n <= 0 || n > raw.len() {
        Ok(Seq::empty())
    } else {
        match returned_columns(raw, t, n - 1) {
            Err(m) => Err(m),
            Ok(before) => match raw[n - 1] {
                ResultColumnView::Star => Ok(before + table_outputs(t)),
                ResultColumnView::TableStar(q) => if eq_nocase(q, t.name) {
                    Ok(before + table_outputs(t))
                } else {
                    Err("RETURNING may not use \"TABLE.*\" wildcards"@)
                },
                ResultColumnView::Expr { expr, alias } => Ok(before.push(expr_output(expr, alias))),
            },
        }
    }
}

/// A `RETURNING` clause before its table is opened.
pub open spec fn returning_of(raw: Seq<ResultColumnView>, t: TableView) -> Result<
    ReturningView,
    Seq<char>,
> {
    match returned_columns(raw, t, raw.len() as int) {
        Err(m) => Err(m),
        Ok(columns) => Ok(ReturningView { columns, cursor: NO_CURSOR, reg_base: NO_CURSOR }),
    }
}

proof fn lemma_refused(raw: Seq<ResultColumnView>, t: TableView, k: int, n: int)
    requires
        0 <= k <= n <= raw.len(),
        returned_columns(raw, t, k) is Err,
    ensures
        returned_columns(raw, t, n) == returned_columns(raw, t, k),
    decreases n - k,
{
    if k < n {
        lemma_refused(raw, t, k, n - 1);
    }
}

impl ReturningView {
    /// The clause once its table is opened on a cursor.
    pub open spec fn opened(self, s: Asm, cursor: i32) -> ReturningView {
        ReturningView { cursor, reg_base: s.next_reg, ..self }
    }

    /// The ephemeral table opened, and registers for a row.
    #[verifier::opaque]
    pub open spec fn gen_open(self, s: Asm, cursor: i32) -> Asm {
        s.emit(Opcode::OpenEphemeral, cursor, self.columns.len() as i32, 0).note_cursor(
            cursor,
        ).take_regs(self.columns.len() as i32)
    }

    /// The output columns from the `k`-th on, each into its register.
    pub open spec fn gen_exprs(
        self,
        s: Asm,
        t: TableView,
        cursor: i32,
        base: i32,
        f: FunctionsView,
        k: int,
    ) -> Asm
        decreases self.columns.len() - k,
    {
        if s.err is Some || k < 0 || k >= self.columns.len() {
            s
        } else {
            self.gen_exprs(
                gen_returned(s, t, cursor, base, self.columns[k].0, reg_at(self.reg_base, k), f),
                t,
                cursor,
                base,
                f,
                k + 1,
            )
        }
    }

    /// One row added to the ephemeral table. The values of the changed row are in the registers
    /// from `base` on; the changed table is open on `cursor`.
    #[verifier::opaque]
    pub open spec fn gen_row(
        self,
        s: Asm,
        t: TableView,
        cursor: i32,
        base: i32,
        f: FunctionsView,
    ) -> Asm {
        let s = self.gen_exprs(s, t, cursor, base, f, 0);
        let rec = s.next_reg;
        let rowid = s.take_regs(1).next_reg;
        s.take_regs(1).take_regs(1).emit(
            Opcode::MakeRecord,
            self.reg_base,
            self.columns.len() as i32,
            rec,
        ).emit(Opcode::NewRowid, self.cursor, rowid, 0).emit(
            Opcode::Insert,
            self.cursor,
            rec,
            rowid,
        )
    }

    /// The rows of the ephemeral table put out.
    #[verifier::opaque]
    pub open spec fn gen_rows(self, s: Asm) -> Asm {
        let n = self.columns.len() as i32;
        let done = s.fresh();
        let s = s.label().jump(Opcode::Rewind, self.cursor, done, 0);
        let top = s.here();
        gen_columns(s, self.cursor, 0, self.reg_base, n as int, 0).emit(
            Opcode::ResultRow,
            self.reg_base,
            n,
            0,
        ).emit(Opcode::Next, self.cursor, top, 0).bind(done)
    }
}

/// What the expressions of a `RETURNING` clause are compiled against: the values of the changed
/// row.
#[verifier::opaque]
pub open spec fn row_ctx(t: TableView, cursor: i32, base: i32, f: FunctionsView) -> CtxView {
    CtxView {
        table: t,
        cursor,
        register_base: Some(base),
        index_read: None,
        join_tables: None,
        outer: None,
        functions: f,
    }
}

/// One value of a `RETURNING` clause.
#[verifier::opaque]
pub open spec fn gen_returned(
    s: Asm,
    t: TableView,
    cursor: i32,
    base: i32,
    e: ExprView,
    target: i32,
    f: FunctionsView,
) -> Asm {
    match e {
        ExprView::Column { schema: None, table: None, name } => match t.resolve(name) {
            Some(ColumnRef::Rowid) => match t.rowid_alias {
                Some(a) => s.emit(Opcode::SCopy, reg_at(base, a as int), target, 0),
                None => s.emit(Opcode::Rowid, cursor, target, 0),
            },
            Some(ColumnRef::Index(i)) => {
                let s = s.emit(Opcode::SCopy, reg_at(base, i as int), target, 0);
                if t.columns[i as int].affinity == Affinity::Real {
                    s.emit(Opcode::RealAffinity, target, 0, 0)
                } else {
                    s
                }
            },
            None => gen_expr(s, e, target, row_ctx(t, cursor, base, f)),
        },
        _ => gen_expr(s, e, target, row_ctx(t, cursor, base, f)),
    }
}

pub broadcast proof fn returned_row_stuck(
    r: ReturningView,
    s: Asm,
    t: TableView,
    cursor: i32,
    base: i32,
    f: FunctionsView,
)
    requires
        s.err is Some,
    ensures
        #![trigger r.gen_row(s, t, cursor, base, f)]
        r.gen_row(s, t, cursor, base, f) == s,
{
    reveal(ReturningView::gen_row);
}

pub broadcast proof fn returned_rows_stuck(r: ReturningView, s: Asm)
    requires
        s.err is Some,
    ensures
        #![trigger r.gen_rows(s)]
        r.gen_rows(s) == s,
{
    reveal(ReturningView::gen_rows);
}

/// What the expressions of a `RETURNING` clause are compiled against.
pub fn over_row<'a>(table: &'a Table, cursor: i32, base: i32, functions: &'a Functions) -> (r: Ctx<
    'a,
>)
    ensures
        r@ == row_ctx(table@, cursor, base, functions@),
{
    reveal(row_ctx);
    Ctx {
        table,
        cursor,
        register_base: Some(base),
        index_read: None,
        join_tables: None,
        outer: None,
        functions,
    }
}

impl Returning {
    /// Expand a `RETURNING` clause: `*` stands for the stored columns of the table.
    pub fn new(raw: &Vec<ResultColumn>, table: &Table) -> (r: Result<Returning, Error>)
        ensures
            match r {
                Ok(x) => returning_of(result_columns_view(raw@), table@) == Ok::<
                    ReturningView,
                    Seq<char>,
                >(x@),
                Err(e) => returning_of(result_columns_view(raw@), table@) == Err::<
                    ReturningView,
                    Seq<char>,
                >(e@),
            },
    {
        let ghost rv = result_columns_view(raw@);
        let mut columns: Vec<Output> = Vec::new();
        assert(outputs_view(columns@) =~= Seq::empty());
        for i in 0..raw.len()
            invariant
                rv == result_columns_view(raw@),
                returned_columns(rv, table@, i as int) == Ok::<
                    Seq<(ExprView, Seq<char>)>,
                    Seq<char>,
                >(outputs_view(columns@)),
        {
            assert(rv[i as int] == raw@[i as int]@);
            match &raw[i] {
                ResultColumn::Star => {
                    push_table(&mut columns, table);
                },
                ResultColumn::TableStar(q) => {
                    if !eq_ignore_case(q.as_str(), table.name.as_str()) {
                        proof {
                            lemma_refused(rv, table@, i + 1, rv.len() as int);
                        }
                        return Err(Error::lit("RETURNING may not use \"TABLE.*\" wildcards"));
                    }
                    push_table(&mut columns, table);
                },
                ResultColumn::Expr { expr, alias } => {
                    assert(rv[i as int] == ResultColumnView::Expr {
                        expr: expr@,
                        alias: opt_name_view(*alias),
                    });
                    let name = match alias {
                        Some(a) => a.clone(),
                        None => default_col_name(expr),
                    };
                    let ghost before = outputs_view(columns@);
                    let e = expr.clone();
                    let ghost now = (e@, name@);
                    columns.push((e, name));
                    assert(outputs_view(columns@) =~= before.push(now));
                },
            }
        }
        Ok(Returning { columns, cursor: NO_CURSOR, reg_base: NO_CURSOR })
    }

    /// The number of output columns.
    pub fn n_col(&self) -> (r: usize)
        ensures
            r == self@.columns.len(),
    {
        self.columns.len()
    }

    /// Open the ephemeral table on a cursor and set aside the registers of a row.
    pub fn emit_open(&mut self, b: &mut ProgramBuilder, proposed_cursor: i32) -> (r: (i32, i32))
        ensures
            final(b)@ == old(self)@.gen_open(old(b)@, proposed_cursor),
            final(self)@ == old(self)@.opened(old(b)@, proposed_cursor),
            r == (proposed_cursor, old(b)@.next_reg),
            steady(old(b)@, final(b)@),
    {
        reveal(ReturningView::gen_open);
        let n: i32 = self.columns.len() as i32;
        b.emit(Opcode::OpenEphemeral, proposed_cursor, n, 0);
        b.note_cursor(proposed_cursor);
        let reg_base: i32 = b.alloc_regs(n);
        self.cursor = proposed_cursor;
        self.reg_base = reg_base;
        (proposed_cursor, reg_base)
    }

    /// Add one row to the ephemeral table.
    pub fn emit_buffer_row(
        &self,
        b: &mut ProgramBuilder,
        table: &Table,
        cursor: i32,
        register_base: i32,
        functions: &Functions,
    ) -> (r: Result<(), Error>)
        ensures
            emitted(
                r,
                final(b)@,
                self@.gen_row(old(b)@, table@, cursor, register_base, functions@),
            ),
            r is Ok ==> steady(old(b)@, final(b)@),
    {
        reveal(ReturningView::gen_row);
        let n: i32 = self.columns.len() as i32;
        let ghost me = self@;
        let ghost want = me.gen_exprs(b@, table@, cursor, register_base, functions@, 0);
        for k in 0..self.columns.len()
            invariant
                me == self@,
                me.gen_exprs(b@, table@, cursor, register_base, functions@, k as int) == want,
                want == me.gen_exprs(old(b)@, table@, cursor, register_base, functions@, 0),
                steady(old(b)@, b@),
        {
            proof {
                reveal_with_fuel(ReturningView::gen_exprs, 2);
                reveal(ReturningView::gen_row);
                assert(me.columns[k as int].0 == self.columns@[k as int].0@);
            }
            if let Err(err) = emit_returning_expr(
                b,
                table,
                cursor,
                register_base,
                &self.columns[k].0,
                reg_off(self.reg_base, k),
                functions,
            ) {
                return Err(err);
            }
        }
        let rec: i32 = b.alloc_reg();
        let rowid: i32 = b.alloc_reg();
        b.emit(Opcode::MakeRecord, self.reg_base, n, rec);
        b.emit(Opcode::NewRowid, self.cursor, rowid, 0);
        b.emit(Opcode::Insert, self.cursor, rec, rowid);
        Ok(())
    }

    /// Put out the rows of the ephemeral table.
    pub fn emit_output_loop(&self, b: &mut ProgramBuilder)
        ensures
            final(b)@ == self@.gen_rows(old(b)@),
            steady(old(b)@, final(b)@),
    {
        reveal(ReturningView::gen_rows);
        let n: i32 = self.columns.len() as i32;
        let done = b.new_label();
        b.emit_jump(Opcode::Rewind, self.cursor, done, 0);
        let top: i32 = b.cur_addr();
        emit_columns(b, self.cursor, 0, self.reg_base, n);
        b.emit(Opcode::ResultRow, self.reg_base, n, 0);
        b.emit(Opcode::Next, self.cursor, top, 0);
        b.resolve(done);
    }

    /// The names of the output columns.
    pub fn column_names(&self) -> (r: Vec<String>)
        ensures
            crate::ast::names_view(r@) == titles_of(self@.columns),
    {
        output_names(&self.columns)
    }
}

fn emit_returning_expr(
    b: &mut ProgramBuilder,
    table: &Table,
    cursor: i32,
    register_base: i32,
    expr: &Expr,
    target: i32,
    functions: &Functions,
) -> (r: Result<(), Error>)
    ensures
        emitted(
            r,
            final(b)@,
            gen_returned(old(b)@, table@, cursor, register_base, expr@, target, functions@),
        ),
        r is Ok ==> steady(old(b)@, final(b)@),
{
    reveal(gen_returned);
    if let Expr::Column { schema, table: qualifier, name } = expr {
        assert(expr@ == ExprView::Column {
            schema: opt_name_view(*schema),
            table: opt_name_view(*qualifier),
            name: name@,
        });
        if schema.is_none() && qualifier.is_none() {
            match table.resolve_column(name.as_str()) {
                Some(ColumnRef::Rowid) => {
                    match table.rowid_alias {
                        Some(a) => {
                            b.emit(Opcode::SCopy, reg_off(register_base, a), target, 0);
                        },
                        None => {
                            b.emit(Opcode::Rowid, cursor, target, 0);
                        },
                    }
                    return Ok(());
                },
                Some(ColumnRef::Index(i)) => {
                    assert(table@.columns[i as int] == table.columns@[i as int]@);
                    b.emit(Opcode::SCopy, reg_off(register_base, i), target, 0);
                    if table.columns[i].affinity == Affinity::Real {
                        b.emit(Opcode::RealAffinity, target, 0, 0);
                    }
                    return Ok(());
                },
                None => {},
            }
        }
    }
    compile_expr(b, expr, target, over_row(table, cursor, register_base, functions))
}

/// The text of an expression of a `RETURNING` clause.
pub fn returning_expr_to_text(e: &Expr) -> (r: String)
    ensures
        r@ == rendered(e@),
{
    expr_to_text(e)
}

} // verus!
