//! Joins of two tables.
//!
//! A join is a loop over the rows of the outer table with a loop over those of the inner table
//! inside. A left join adds, for each outer row without a match, a row of NULLs for the inner
//! table; a full join then goes over the inner table once more and adds a row of NULLs for the
//! outer table for each of its rows without a match. A right join is a left join with the tables
//! swapped.
use vstd::prelude::*;

use crate::ast::{
    from_items_view, opt_constraint_view, opt_expr_view, ordering_terms_view, Expr, ExprView,
    JoinConstraint, JoinConstraintView, JoinOp, OrderingTerm, OrderingTermView, SelectStmt,
    SelectStmtView, TableOrJoin, TableOrJoinView, TableRef, TableRefView,
};
use crate::builder::{Asm, Label, ProgramBuilder};
use crate::columns::{
    eval_limit_offset, expand_columns_with_tables, exprs_of, join_expanded_from, limits,
    named_tables_view, outputs_view, titles_of, Output,
};
use crate::emit::{
    begin, built, compile_order_keys, compile_outputs, emit_copies, emit_limit, emit_offset,
    emit_sort_tail, empty_program, end, gen_copies, gen_epilogue, gen_limit, gen_nothing,
    gen_offset, gen_order_keys, gen_skip, gen_sort_tail, gen_stop, key_info_of, limit_reg,
    offset_reg, order_key_info, prologue, table_operand, table_operand_of,
};
use crate::expr::{compile_jump, gen_expr_list, gen_jump};
use crate::scan::{compile_filter, gen_filter, group_select};
use crate::schema::{Functions, FunctionsView, Table, TableView};
use crate::scope::{emitted, heads_for, join_tables_view, Ctx, CtxView, JoinTable, ScopeTable};
use crate::select::{output_names, query_outcome};
use crate::text::Error;
use crate::vdbe::{Opcode, P4, P4View, Program};

verus! {

broadcast use group_select;

/// The cursor of the sorter.
pub const SORTER: i32 = 2;

/// What is put out of a join, and how.
pub ghost struct JoinOutput {
    pub condition: Option<ExprView>,
    pub outputs: Seq<(ExprView, Seq<char>)>,
    pub order_by: Seq<OrderingTermView>,
    pub limit: Option<i32>,
    pub offset: Option<i32>,
    pub ctx: CtxView,
}

/// Emission that may leave jumps to two labels behind.
pub open spec fn heads_for_two(s0: Asm, s1: Asm, a: int, b: int) -> bool {
    &&& s0.fresh() <= s1.fresh()
    &&& s0.wf() && 0 <= a < s0.fresh() && 0 <= b < s0.fresh() ==> s1.wf()
    &&& forall|l: int| s0.bound(l) ==> #[trigger] s1.bound(l)
    &&& forall|l: int| #[trigger]
        s1.owes(l) && s0.wf() && 0 <= a < s0.fresh() && 0 <= b < s0.fresh() ==> s0.owes(l) || l == a
            || l == b
}

/// One row put out, or into the sorter. The code leaves for `skip` if the row is not wanted, and
/// for `end` when the limit is reached.
#[verifier::opaque]
pub open spec fn gen_join_row(s: Asm, j: JoinOutput, skip: int, end: int) -> Asm {
    let ncol = j.outputs.len() as i32;
    let norder = j.order_by.len() as i32;
    let row = s.next_reg;
    let s = gen_expr_list(s.take_regs(ncol), exprs_of(j.outputs), row, j.ctx, 0);
    if j.order_by.len() > 0 {
        let block = s.next_reg;
        let s = gen_order_keys(
            s.take_regs(norder.wrapping_add(ncol)),
            j.order_by,
            j.outputs,
            block,
            j.ctx,
            0,
        );
        let s = gen_copies(s, row, block.wrapping_add(norder), ncol as int, 0);
        let rec = s.next_reg;
        s.take_regs(1).emit(Opcode::MakeRecord, block, norder.wrapping_add(ncol), rec).emit(
            Opcode::SorterInsert,
            SORTER,
            rec,
            0,
        )
    } else {
        let s = gen_skip(s, j.offset, skip).emit(Opcode::ResultRow, row, ncol, 0);
        gen_stop(s, j.limit, end)
    }
}

pub broadcast proof fn join_row_stuck(s: Asm, j: JoinOutput, skip: int, end: int)
    requires
        s.err is Some,
    ensures
        #![trigger gen_join_row(s, j, skip, end)]
        gen_join_row(s, j, skip, end) == s,
{
    reveal(gen_join_row);
}

/// A row with NULLs for the table on `cursor`, unless the flag says that the other row has
/// found a match.
#[verifier::opaque]
pub open spec fn gen_unmatched(s: Asm, j: JoinOutput, flag: i32, cursor: i32, end: int) -> Asm {
    let skip = s.fresh();
    let s = s.label().jump(Opcode::If, flag, skip, 0).emit(Opcode::NullRow, cursor, 0, 0);
    gen_join_row(gen_filter(s, j.condition, skip, j.ctx), j, skip, end).bind(skip)
}

pub broadcast proof fn unmatched_stuck(
    s: Asm,
    j: JoinOutput,
    flag: i32,
    cursor: i32,
    end: int,
)
    requires
        s.err is Some,
    ensures
        #![trigger gen_unmatched(s, j, flag, cursor, end)]
        gen_unmatched(s, j, flag, cursor, end) == s,
{
    broadcast use join_row_stuck;

    reveal(gen_unmatched);
}

/// The two loops. The code leaves for `none` when the outer table has no rows, and for `end` when
/// the limit is reached.
#[verifier::opaque]
pub open spec fn gen_loops(
    s: Asm,
    j: JoinOutput,
    on: Option<ExprView>,
    left: bool,
    none: int,
    end: int,
) -> Asm {
    let s = s.jump(Opcode::Rewind, 0, none, 0);
    let top_a = s.here();
    let flag = s.next_reg;
    let s = if left {
        s.take_regs(1).emit(Opcode::Integer, 0, flag, 0)
    } else {
        s
    };
    let next_a = s.fresh();
    let no_match = s.label().fresh();
    let s = s.label().label().jump(
        Opcode::Rewind,
        1,
        if left {
            no_match
        } else {
            next_a
        },
        0,
    );
    let top_b = s.here();
    let next_b = s.fresh();
    let s = gen_filter(s.label(), on, next_b, j.ctx);
    let s = if left {
        s.emit(Opcode::Integer, 1, flag, 0)
    } else {
        s
    };
    let s = gen_join_row(gen_filter(s, j.condition, next_b, j.ctx), j, next_b, end);
    let s = s.bind(next_b).emit(Opcode::Next, 1, top_b, 0).bind(no_match);
    let s = if left {
        gen_unmatched(s, j, flag, 1, end)
    } else {
        s
    };
    s.bind(next_a).emit(Opcode::Next, 0, top_a, 0)
}

pub broadcast proof fn loops_stuck(
    s: Asm,
    j: JoinOutput,
    on: Option<ExprView>,
    left: bool,
    none: int,
    end: int,
)
    requires
        s.err is Some,
    ensures
        #![trigger gen_loops(s, j, on, left, none, end)]
        gen_loops(s, j, on, left, none, end) == s,
{
    broadcast use {join_row_stuck, unmatched_stuck};

    reveal(gen_loops);
}

/// The rows of the inner table that no row of the outer table matches.
#[verifier::opaque]
pub open spec fn gen_second_pass(s: Asm, j: JoinOutput, on: Option<ExprView>, end: int) -> Asm {
    let found = s.next_reg;
    let done = s.take_regs(1).fresh();
    let s = s.take_regs(1).label().jump(Opcode::Rewind, 1, done, 0);
    let top = s.here();
    let s = s.emit(Opcode::Integer, 0, found, 0);
    let tested = s.fresh();
    let s = s.label().jump(Opcode::Rewind, 0, tested, 0);
    let inner = s.here();
    let s = match on {
        Some(e) => {
            let hit = s.fresh();
            gen_jump(s.label(), e, hit, true, false, j.ctx).emit(Opcode::Next, 0, inner, 0).jump(
                Opcode::Goto,
                0,
                tested,
                0,
            ).bind(hit).emit(Opcode::Integer, 1, found, 0).jump(Opcode::Goto, 0, tested, 0)
        },
        None => s.emit(Opcode::Integer, 1, found, 0).jump(Opcode::Goto, 0, tested, 0),
    };
    gen_unmatched(s.bind(tested), j, found, 0, end).emit(Opcode::Next, 1, top, 0).bind(done)
}

pub broadcast proof fn second_pass_stuck(s: Asm, j: JoinOutput, on: Option<ExprView>, end: int)
    requires
        s.err is Some,
    ensures
        #![trigger gen_second_pass(s, j, on, end)]
        gen_second_pass(s, j, on, end) == s,
{
    broadcast use unmatched_stuck;

    reveal(gen_second_pass);
}

/// What expressions of a join are compiled against.
pub open spec fn join_ctx(tables: Seq<(TableView, Seq<char>)>, f: FunctionsView) -> CtxView {
    CtxView {
        table: tables[0].0,
        cursor: 0,
        register_base: None,
        index_read: None,
        join_tables: Some(
            seq![
                ScopeTable { table: tables[0].0, cursor: 0, name: tables[0].1 },
                ScopeTable { table: tables[1].0, cursor: 1, name: tables[1].1 },
            ],
        ),
        outer: None,
        functions: f,
    }
}

/// A join whose output columns are known.
#[verifier::opaque]
pub open spec fn gen_join(
    select: SelectStmtView,
    tables: Seq<(TableView, Seq<char>)>,
    outputs: Seq<(ExprView, Seq<char>)>,
    on: Option<ExprView>,
    left: bool,
    full: bool,
    limit: Option<i64>,
    offset: i64,
    f: FunctionsView,
) -> Asm {
    if limit == Some(0i64) {
        gen_nothing()
    } else {
        let ncol = outputs.len() as i32;
        let norder = select.order_by.len() as i32;
        let s = prologue();
        let lreg = limit_reg(s, limit);
        let s = gen_limit(s, limit);
        let oreg = offset_reg(s, offset);
        let s = gen_offset(s, offset);
        let j = JoinOutput {
            condition: select.where_clause,
            outputs,
            order_by: select.order_by,
            limit: lreg,
            offset: oreg,
            ctx: join_ctx(tables, f),
        };
        let s = s.emit_p4(
            Opcode::OpenRead,
            0,
            tables[0].0.rootpage as i32,
            0,
            table_operand(tables[0].0),
        ).note_cursor(0).emit_p4(
            Opcode::OpenRead,
            1,
            tables[1].0.rootpage as i32,
            0,
            table_operand(tables[1].0),
        ).note_cursor(1);
        let s = if select.order_by.len() > 0 {
            s.emit_p4(
                Opcode::SorterOpen,
                SORTER,
                norder.wrapping_add(ncol),
                0,
                P4View::KeyInfo(order_key_info(select.order_by)),
            ).note_cursor(SORTER)
        } else {
            s
        };
        let end = s.fresh();
        let s = if full {
            let none = s.label().fresh();
            let s = gen_loops(s.label().label(), j, on, left, none, end).bind(none);
            gen_second_pass(s, j, on, end)
        } else {
            gen_loops(s.label(), j, on, left, end, end)
        };
        let s = s.bind(end);
        let s = if select.order_by.len() > 0 {
            let done = s.fresh();
            gen_sort_tail(s.label(), SORTER, norder, ncol, lreg, oreg, done).bind(done)
        } else {
            s
        };
        gen_epilogue(s.emit(Opcode::Halt, 0, 0, 0))
    }
}

/// A join of the two `tables`, the outer one first. `from_order` are the same tables in the order
/// in which they are written, which is that of the columns of `*`.
#[verifier::opaque]
pub open spec fn gen_cross_join(
    select: SelectStmtView,
    tables: Seq<(TableView, Seq<char>)>,
    from_order: Seq<(TableView, Seq<char>)>,
    on: Option<ExprView>,
    left: bool,
    full: bool,
    f: FunctionsView,
) -> Asm {
    match limits(select.limit, select.offset) {
        Err(m) => Asm::start().fail(m),
        Ok((limit, offset)) => match join_expanded_from(
            Seq::empty(),
            select.columns,
            from_order,
            0,
        ) {
            Err(m) => Asm::start().fail(m),
            Ok(outputs) => gen_join(
                select,
                tables,
                outputs,
                on,
                left || full,
                full,
                limit,
                offset,
                f,
            ),
        },
    }
}

// ---- The code ----

/// What is put out of a join, and how.
#[derive(Clone, Copy)]
struct Putting<'a> {
    condition: &'a Option<Expr>,
    outputs: &'a Vec<Output>,
    order_by: &'a Vec<OrderingTerm>,
    limit: Option<i32>,
    offset: Option<i32>,
    ctx: Ctx<'a>,
}

impl<'a> View for Putting<'a> {
    type V = JoinOutput;

    closed spec fn view(&self) -> JoinOutput {
        JoinOutput {
            condition: opt_expr_view(*self.condition),
            outputs: outputs_view(self.outputs@),
            order_by: ordering_terms_view(self.order_by@),
            limit: self.limit,
            offset: self.offset,
            ctx: self.ctx@,
        }
    }
}

/// The value of a condition, if there is one.
pub open spec fn condition_view(e: Option<&Expr>) -> Option<ExprView> {
    match e {
        Some(x) => Some(x@),
        None => None,
    }
}

fn compile_on(b: &mut ProgramBuilder, on: Option<&Expr>, label: Label, ctx: Ctx) -> (r: Result<
    (),
    Error,
>)
    requires
        label.id() < old(b)@.fresh(),
    ensures
        emitted(r, final(b)@, gen_filter(old(b)@, condition_view(on), label.id(), ctx@)),
        r is Ok ==> heads_for(old(b)@, final(b)@, label.id()),
{
    reveal(gen_filter);
    match on {
        Some(e) => compile_jump(b, e, label, false, true, ctx),
        None => Ok(()),
    }
}

fn compile_join_row(b: &mut ProgramBuilder, p: &Putting, skip: Label, end: Label) -> (r: Result<
    (),
    Error,
>)
    requires
        skip.id() < old(b)@.fresh(),
        end.id() < old(b)@.fresh(),
    ensures
        emitted(r, final(b)@, gen_join_row(old(b)@, p@, skip.id(), end.id())),
        r is Ok ==> heads_for_two(old(b)@, final(b)@, skip.id(), end.id()),
{
    reveal(gen_join_row);
    let ncol: i32 = p.outputs.len() as i32;
    let norder: i32 = p.order_by.len() as i32;
    let row: i32 = b.alloc_regs(ncol);
    if let Err(err) = compile_outputs(b, p.outputs, row, p.ctx) {
        return Err(err);
    }
    if p.order_by.len() > 0 {
        let block: i32 = b.alloc_regs(norder.wrapping_add(ncol));
        if let Err(err) = compile_order_keys(b, p.order_by, p.outputs, block, p.ctx) {
            return Err(err);
        }
        emit_copies(b, row, block.wrapping_add(norder), ncol);
        let rec: i32 = b.alloc_reg();
        b.emit(Opcode::MakeRecord, block, norder.wrapping_add(ncol), rec);
        b.emit(Opcode::SorterInsert, SORTER, rec, 0);
    } else {
        if let Some(oreg) = p.offset {
            b.emit_jump(Opcode::IfPos, oreg, skip, 1);
        }
        b.emit(Opcode::ResultRow, row, ncol, 0);
        if let Some(lreg) = p.limit {
            b.emit_jump(Opcode::DecrJumpZero, lreg, end, 0);
        }
    }
    Ok(())
}

fn compile_unmatched(b: &mut ProgramBuilder, p: &Putting, flag: i32, cursor: i32, end: Label) -> (r:
    Result<(), Error>)
    requires
        0 <= end.id() < old(b)@.fresh(),
    ensures
        emitted(r, final(b)@, gen_unmatched(old(b)@, p@, flag, cursor, end.id())),
        r is Ok ==> heads_for(old(b)@, final(b)@, end.id()),
{
    broadcast use join_row_stuck;

    reveal(gen_unmatched);
    let skip = b.new_label();
    b.emit_jump(Opcode::If, flag, skip, 0);
    b.emit(Opcode::NullRow, cursor, 0, 0);
    if let Err(err) = compile_filter(b, p.condition, skip, p.ctx) {
        return Err(err);
    }
    if let Err(err) = compile_join_row(b, p, skip, end) {
        return Err(err);
    }
    b.resolve(skip);
    Ok(())
}

fn compile_loops(
    b: &mut ProgramBuilder,
    p: &Putting,
    on: Option<&Expr>,
    left: bool,
    none: Label,
    end: Label,
) -> (r: Result<(), Error>)
    requires
        0 <= none.id() < old(b)@.fresh(),
        0 <= end.id() < old(b)@.fresh(),
    ensures
        emitted(
            r,
            final(b)@,
            gen_loops(old(b)@, p@, condition_view(on), left, none.id(), end.id()),
        ),
        r is Ok ==> heads_for_two(old(b)@, final(b)@, none.id(), end.id()),
{
    broadcast use {join_row_stuck, unmatched_stuck};

    reveal(gen_loops);
    b.emit_jump(Opcode::Rewind, 0, none, 0);
    let top_a: i32 = b.cur_addr();
    let mut flag: i32 = 0;
    if left {
        flag = b.alloc_reg();
        b.emit(Opcode::Integer, 0, flag, 0);
    }
    let next_a = b.new_label();
    let no_match = b.new_label();
    b.emit_jump(
        Opcode::Rewind,
        1,
        if left {
            no_match
        } else {
            next_a
        },
        0,
    );
    let top_b: i32 = b.cur_addr();
    let next_b = b.new_label();
    if let Err(err) = compile_on(b, on, next_b, p.ctx) {
        return Err(err);
    }
    if left {
        b.emit(Opcode::Integer, 1, flag, 0);
    }
    if let Err(err) = compile_filter(b, p.condition, next_b, p.ctx) {
        return Err(err);
    }
    if let Err(err) = compile_join_row(b, p, next_b, end) {
        return Err(err);
    }
    b.resolve(next_b);
    b.emit(Opcode::Next, 1, top_b, 0);
    b.resolve(no_match);
    if left {
        if let Err(err) = compile_unmatched(b, p, flag, 1, end) {
            return Err(err);
        }
    }
    b.resolve(next_a);
    b.emit(Opcode::Next, 0, top_a, 0);
    Ok(())
}

fn compile_second_pass(b: &mut ProgramBuilder, p: &Putting, on: Option<&Expr>, end: Label) -> (r:
    Result<(), Error>)
    requires
        0 <= end.id() < old(b)@.fresh(),
    ensures
        emitted(r, final(b)@, gen_second_pass(old(b)@, p@, condition_view(on), end.id())),
        r is Ok ==> heads_for(old(b)@, final(b)@, end.id()),
{
    broadcast use unmatched_stuck;

    reveal(gen_second_pass);
    let found: i32 = b.alloc_reg();
    let done = b.new_label();
    b.emit_jump(Opcode::Rewind, 1, done, 0);
    let top: i32 = b.cur_addr();
    b.emit(Opcode::Integer, 0, found, 0);
    let tested = b.new_label();
    b.emit_jump(Opcode::Rewind, 0, tested, 0);
    let inner: i32 = b.cur_addr();
    match on {
        Some(e) => {
            let hit = b.new_label();
            if let Err(err) = compile_jump(b, e, hit, true, false, p.ctx) {
                return Err(err);
            }
            b.emit(Opcode::Next, 0, inner, 0);
            b.emit_jump(Opcode::Goto, 0, tested, 0);
            b.resolve(hit);
            b.emit(Opcode::Integer, 1, found, 0);
            b.emit_jump(Opcode::Goto, 0, tested, 0);
        },
        None => {
            b.emit(Opcode::Integer, 1, found, 0);
            b.emit_jump(Opcode::Goto, 0, tested, 0);
        },
    }
    b.resolve(tested);
    if let Err(err) = compile_unmatched(b, p, found, 0, end) {
        return Err(err);
    }
    b.emit(Opcode::Next, 1, top, 0);
    b.resolve(done);
    Ok(())
}

/// Compile a join of two tables.
///
/// `tables` are the tables of the outer and the inner loop, each with the name that qualifies its
/// columns; `from_order` are the same tables in the order in which they are written. `left_join`
/// adds the unmatched rows of the outer table, `full_join` those of both tables.
pub fn compile_cross_join(
    select: &SelectStmt,
    tables: &[(&Table, &str); 2],
    from_order: &[(&Table, &str); 2],
    on_predicate: Option<&Expr>,
    left_join: bool,
    full_join: bool,
    functions: &Functions,
) -> (r: Result<(Program, Vec<String>), Error>)
    ensures
        query_outcome(
            r,
            gen_cross_join(
                select@,
                named_tables_view(tables@),
                named_tables_view(from_order@),
                condition_view(on_predicate),
                left_join,
                full_join,
                functions@,
            ),
            match join_expanded_from(
                Seq::empty(),
                select@.columns,
                named_tables_view(from_order@),
                0,
            ) {
                Ok(outputs) => titles_of(outputs),
                Err(_) => Seq::empty(),
            },
        ),
{
    broadcast use crate::builder::asm_fail;

    reveal(gen_cross_join);
    let (limit, offset) = match eval_limit_offset(select) {
        Ok(v) => v,
        Err(err) => {
            return Err(err);
        },
    };
    let outputs = match expand_columns_with_tables(select, vstd::array::array_as_slice(from_order)) {
        Ok(v) => v,
        Err(err) => {
            return Err(err);
        },
    };
    let names = output_names(&outputs);
    match compile_join(
        select,
        tables,
        &outputs,
        on_predicate,
        left_join || full_join,
        full_join,
        limit,
        offset,
        functions,
    ) {
        Ok(p) => Ok((p, names)),
        Err(err) => Err(err),
    }
}

fn compile_join(
    select: &SelectStmt,
    tables: &[(&Table, &str); 2],
    outputs: &Vec<Output>,
    on: Option<&Expr>,
    left: bool,
    full: bool,
    limit: Option<i64>,
    offset: i64,
    functions: &Functions,
) -> (r: Result<Program, Error>)
    ensures
        built(
            r,
            gen_join(
                select@,
                named_tables_view(tables@),
                outputs_view(outputs@),
                condition_view(on),
                left,
                full,
                limit,
                offset,
                functions@,
            ),
        ),
{
    broadcast use {loops_stuck, second_pass_stuck};

    reveal(gen_join);
    if limit == Some(0i64) {
        return Ok(empty_program());
    }
    let (t0, n0) = tables[0];
    let (t1, n1) = tables[1];
    let ncol: i32 = outputs.len() as i32;
    let norder: i32 = select.order_by.len() as i32;
    assert(select@.order_by == ordering_terms_view(select.order_by@));
    assert(select@.where_clause == opt_expr_view(select.where_clause));
    let mut join_tables: Vec<JoinTable> = Vec::new();
    join_tables.push(JoinTable { table: t0, cursor: 0, name: n0 });
    join_tables.push(JoinTable { table: t1, cursor: 1, name: n1 });
    let ctx = Ctx {
        table: t0,
        cursor: 0,
        register_base: None,
        index_read: None,
        join_tables: Some(join_tables.as_slice()),
        outer: None,
        functions,
    };
    let ghost tv = named_tables_view(tables@);
    assert(ctx@ == join_ctx(tv, functions@)) by {
        assert(join_tables_view(join_tables@) =~= join_ctx(tv, functions@).join_tables->0);
    }
    let (mut b, setup, after_init) = begin();
    let lreg = emit_limit(&mut b, limit);
    let oreg = emit_offset(&mut b, offset);
    let p = Putting {
        condition: &select.where_clause,
        outputs,
        order_by: &select.order_by,
        limit: lreg,
        offset: oreg,
        ctx,
    };
    b.emit_p4(Opcode::OpenRead, 0, t0.rootpage as i32, 0, table_operand_of(t0));
    b.note_cursor(0);
    b.emit_p4(Opcode::OpenRead, 1, t1.rootpage as i32, 0, table_operand_of(t1));
    b.note_cursor(1);
    let sorted = select.order_by.len() > 0;
    if sorted {
        b.emit_p4(
            Opcode::SorterOpen,
            SORTER,
            norder.wrapping_add(ncol),
            0,
            P4::KeyInfo(key_info_of(&select.order_by)),
        );
        b.note_cursor(SORTER);
    }
    let end_label = b.new_label();
    if !full {
        if let Err(err) = compile_loops(&mut b, &p, on, left, end_label, end_label) {
            return Err(err);
        }
    } else {
        let none = b.new_label();
        if let Err(err) = compile_loops(&mut b, &p, on, left, none, end_label) {
            return Err(err);
        }
        b.resolve(none);
        if let Err(err) = compile_second_pass(&mut b, &p, on, end_label) {
            return Err(err);
        }
    }
    b.resolve(end_label);
    if sorted {
        let done = b.new_label();
        emit_sort_tail(&mut b, SORTER, norder, ncol, lreg, oreg, done);
        b.resolve(done);
    }
    b.emit(Opcode::Halt, 0, 0, 0);
    Ok(end(b, setup, after_init))
}

// ---- FROM clauses ----

/// A join that is not a natural one.
pub open spec fn plain_join(op: JoinOp) -> bool {
    !(op == JoinOp::Natural || op == JoinOp::NaturalLeft || op == JoinOp::NaturalRight || op
        == JoinOp::NaturalFull)
}

/// The tables of a `FROM` entry from left to right, each with the constraint that joins it, if
/// the entry holds nothing but tables and joins of tables.
pub open spec fn tables_in(item: TableOrJoinView) -> Option<
    Seq<(TableRefView, Option<JoinConstraintView>)>,
>
    decreases item,
{
    match item {
        TableOrJoinView::Table(t) => Some(seq![(t, None)]),
        TableOrJoinView::Subquery { .. } => None,
        TableOrJoinView::Join(j) => if !plain_join(j.op) {
            None
        } else {
            match tables_in(*j.left) {
                None => None,
                Some(ts) => Some(ts.push((j.right, j.constraint))),
            }
        },
    }
}

/// The tables of the first `n` entries of a `FROM` clause.
pub open spec fn tables_of(items: Seq<TableOrJoinView>, n: int) -> Option<
    Seq<(TableRefView, Option<JoinConstraintView>)>,
>
    decreases n,
{
    if n <= 0 || n > items.len() {
        Some(Seq::empty())
    } else {
        match tables_of(items, n - 1) {
            None => None,
            Some(ts) => match tables_in(items[n - 1]) {
                None => None,
                Some(more) => Some(ts + more),
            },
        }
    }
}

/// Tables with their constraints.
pub open spec fn joined_view(
    ts: Seq<(&TableRef, Option<&JoinConstraint>)>,
) -> Seq<(TableRefView, Option<JoinConstraintView>)> {
    Seq::new(ts.len(), |i: int| (ts[i].0@, constraint_view(ts[i].1)))
}

/// The mathematical value of an optional join constraint.
pub open spec fn constraint_view(c: Option<&JoinConstraint>) -> Option<JoinConstraintView> {
    match c {
        Some(x) => Some(x@),
        None => None,
    }
}

proof fn lemma_no_tables(items: Seq<TableOrJoinView>, k: int, n: int)
    requires
        0 <= k <= n <= items.len(),
        tables_of(items, k) is None,
    ensures
        tables_of(items, n) is None,
    decreases n - k,
{
    if k < n {
        lemma_no_tables(items, k, n - 1);
    }
}

/// The tables of a `FROM` clause from left to right, each with the constraint that joins it;
/// `None` for an empty clause, and for one that holds a subquery or a natural join.
pub fn flatten_cross_join<'a>(from: &'a Vec<TableOrJoin>) -> (r: Option<
    Vec<(&'a TableRef, Option<&'a JoinConstraint>)>,
>)
    ensures
        match r {
            Some(v) => from@.len() > 0 && tables_of(
                from_items_view(from@),
                from@.len() as int,
            ) == Some(joined_view(v@)),
            None => from@.len() == 0 || tables_of(
                from_items_view(from@),
                from@.len() as int,
            ) is None,
        },
{
    let ghost items = from_items_view(from@);
    let mut out: Vec<(&'a TableRef, Option<&'a JoinConstraint>)> = Vec::new();
    assert(joined_view(out@) =~= Seq::empty());
    for i in 0..from.len()
        invariant
            items == from_items_view(from@),
            tables_of(items, i as int) == Some(joined_view(out@)),
    {
        assert(items[i as int] == from@[i as int]@);
        if !flatten_into(&from[i], &mut out) {
            proof {
                lemma_no_tables(items, i + 1, items.len() as int);
            }
            return None;
        }
    }
    if from.len() == 0 {
        return None;
    }
    Some(out)
}

fn flatten_into<'a>(
    item: &'a TableOrJoin,
    out: &mut Vec<(&'a TableRef, Option<&'a JoinConstraint>)>,
) -> (r: bool)
    ensures
        r == tables_in(item@) is Some,
        tables_in(item@) matches Some(ts) ==> joined_view(final(out)@) == joined_view(old(out)@)
            + ts,
    decreases item,
{
    let ghost before = joined_view(out@);
    match item {
        TableOrJoin::Table(t) => {
            assert(item@ == TableOrJoinView::Table(t@));
            out.push((t, None));
            assert(joined_view(out@) =~= before + seq![(t@, None::<JoinConstraintView>)]);
            true
        },
        TableOrJoin::Subquery { query, alias } => false,
        TableOrJoin::Join(j) => {
            assert(item@ == TableOrJoinView::Join(j@));
            assert(j@.left == Box::new((*j.left)@));
            assert(j@.constraint == opt_constraint_view(j.constraint));
            match j.op {
                JoinOp::Natural
                | JoinOp::NaturalLeft
                | JoinOp::NaturalRight
                | JoinOp::NaturalFull => {
                    return false;
                },
                _ => {},
            }
            if !flatten_into(&j.left, out) {
                return false;
            }
            let ghost now = joined_view(out@);
            let c: Option<&'a JoinConstraint> = match &j.constraint {
                Some(c) => Some(c),
                None => None,
            };
            assert(constraint_view(c) == j@.constraint);
            out.push((&j.right, c));
            assert(joined_view(out@) =~= now.push((j@.right, j@.constraint)));
            assert(before + tables_in((*j.left)@)->0.push((j@.right, j@.constraint)) =~= (before
                + tables_in((*j.left)@)->0).push((j@.right, j@.constraint)));
            true
        },
    }
}

/// The condition of an `ON` clause.
pub fn on_predicate<'a>(constraint: Option<&'a JoinConstraint>) -> (r: Option<&'a Expr>)
    ensures
        match r {
            Some(e) => constraint_view(constraint) == Some(JoinConstraintView::On(e@)),
            None => !(constraint_view(constraint) matches Some(c) && c is On),
        },
{
    match constraint {
        Some(JoinConstraint::On(e)) => Some(e),
        _ => None,
    }
}

/// The operator of the join that a `FROM` clause begins with, if it begins with one.
pub open spec fn top_join(from: Seq<TableOrJoinView>) -> Option<JoinOp> {
    if from.len() > 0 && from[0] is Join {
        Some(from[0]->Join_0.op)
    } else {
        None
    }
}

fn top_op(from: &Vec<TableOrJoin>) -> (r: Option<JoinOp>)
    ensures
        r == top_join(from_items_view(from@)),
{
    if from.len() == 0 {
        return None;
    }
    assert(from_items_view(from@)[0] == from@[0]@);
    match &from[0] {
        TableOrJoin::Join(j) => {
            assert(from@[0]@ == TableOrJoinView::Join(j@));
            Some(j.op)
        },
        _ => None,
    }
}

/// The operator is `LEFT [OUTER] JOIN`.
pub open spec fn left_op(op: Option<JoinOp>) -> bool {
    op == Some(JoinOp::Left) || op == Some(JoinOp::LeftOuter)
}

/// The operator is `RIGHT [OUTER] JOIN`.
pub open spec fn right_op(op: Option<JoinOp>) -> bool {
    op == Some(JoinOp::Right) || op == Some(JoinOp::RightOuter)
}

/// The operator is `FULL [OUTER] JOIN`.
pub open spec fn full_op(op: Option<JoinOp>) -> bool {
    op == Some(JoinOp::Full) || op == Some(JoinOp::FullOuter)
}

/// Whether a `FROM` clause begins with a left join.
pub fn is_left_join(from: &Vec<TableOrJoin>) -> (r: bool)
    ensures
        r == left_op(top_join(from_items_view(from@))),
{
    match top_op(from) {
        Some(JoinOp::Left) | Some(JoinOp::LeftOuter) => true,
        _ => false,
    }
}

/// Whether a `FROM` clause begins with a right join.
pub fn is_right_join(from: &Vec<TableOrJoin>) -> (r: bool)
    ensures
        r == right_op(top_join(from_items_view(from@))),
{
    match top_op(from) {
        Some(JoinOp::Right) | Some(JoinOp::RightOuter) => true,
        _ => false,
    }
}

/// Whether a `FROM` clause begins with a full join.
pub fn is_full_join(from: &Vec<TableOrJoin>) -> (r: bool)
    ensures
        r == full_op(top_join(from_items_view(from@))),
{
    match top_op(from) {
        Some(JoinOp::Full) | Some(JoinOp::FullOuter) => true,
        _ => false,
    }
}

/// The tables in the order of the loops: for a right join the other way round.
pub fn swap_for_right_join<'a>(tables: Vec<(&'a Table, &'a str)>, from: &Vec<TableOrJoin>) -> (r: Vec<
    (&'a Table, &'a str),
>)
    ensures
        r@ == if right_op(top_join(from_items_view(from@))) {
            tables@.reverse()
        } else {
            tables@
        },
{
    if !is_right_join(from) {
        return tables;
    }
    let n: usize = tables.len();
    let mut r: Vec<(&'a Table, &'a str)> = Vec::new();
    for i in 0..n
        invariant
            n == tables@.len(),
            r@.len() == i,
            forall|j: int| 0 <= j < i ==> (#[trigger] r@[j]) == tables@[n - 1 - j],
    {
        r.push(tables[n - 1 - i]);
    }
    assert(r@ =~= tables@.reverse());
    r
}

/// Swapping twice gives the tables back.
pub proof fn law_swap_involution(tables: Seq<(&Table, &str)>)
    ensures
        tables.reverse().reverse() == tables,
{
    assert(tables.reverse().reverse() =~= tables);
}

/// What is not supported in a join, if anything.
pub open spec fn unsupported_in(item: TableOrJoinView) -> Option<Seq<char>>
    decreases item,
{
    match item {
        TableOrJoinView::Join(j) => if j.constraint matches Some(c) && c is Using {
            Some("USING clause is not supported yet (M7.10)"@)
        } else if !plain_join(j.op) {
            Some("NATURAL joins are not supported yet (M7.10)"@)
        } else {
            unsupported_in(*j.left)
        },
        _ => None,
    }
}

/// What is not supported in the entries of a `FROM` clause from the `i`-th on.
pub open spec fn unsupported_from(items: Seq<TableOrJoinView>, i: int) -> Option<Seq<char>>
    decreases items.len() - i,
{
    if i < 0 || i >= items.len() {
        None
    } else {
        match unsupported_in(items[i]) {
            Some(m) => Some(m),
            None => unsupported_from(items, i + 1),
        }
    }
}

/// Refuse a `FROM` clause with a `USING` clause or a natural join.
pub fn validate_join(from: &Vec<TableOrJoin>) -> (r: Result<(), Error>)
    ensures
        match r {
            Ok(_) => unsupported_from(from_items_view(from@), 0) is None,
            Err(e) => unsupported_from(from_items_view(from@), 0) == Some(e@),
        },
{
    let ghost items = from_items_view(from@);
    for i in 0..from.len()
        invariant
            items == from_items_view(from@),
            unsupported_from(items, 0) == unsupported_from(items, i as int),
    {
        assert(items[i as int] == from@[i as int]@);
        if let Err(err) = validate_item(&from[i]) {
            return Err(err);
        }
    }
    Ok(())
}

fn validate_item(item: &TableOrJoin) -> (r: Result<(), Error>)
    ensures
        match r {
            Ok(_) => unsupported_in(item@) is None,
            Err(e) => unsupported_in(item@) == Some(e@),
        },
    decreases item,
{
    match item {
        TableOrJoin::Join(j) => {
            assert(item@ == TableOrJoinView::Join(j@));
            assert(j@.left == Box::new((*j.left)@));
            assert(j@.constraint == opt_constraint_view(j.constraint));
            if let Some(JoinConstraint::Using(_)) = &j.constraint {
                return Err(Error::lit("USING clause is not supported yet (M7.10)"));
            }
            if j.op == JoinOp::Natural || j.op == JoinOp::NaturalLeft || j.op
                == JoinOp::NaturalRight || j.op == JoinOp::NaturalFull {
                return Err(Error::lit("NATURAL joins are not supported yet (M7.10)"));
            }
            validate_item(&j.left)
        },
        _ => Ok(()),
    }
}

} // verus!
