//! `DELETE`.
//!
//! A statement without `ORDER BY` and `LIMIT` walks the table once and removes each row that
//! meets its condition. One with a `LIMIT` first gathers the rowids in a sorter, in the order
//! asked for, and then removes the rows that the `OFFSET` and the `LIMIT` leave. Each row is
//! taken out of the indexes before it is taken out of the table.
use vstd::prelude::*;

use crate::ast::{
    opt_expr_view, opt_name_view, ordering_terms_view, Expr, ExprView, OrderingTerm,
    OrderingTermView, ResultColumnView,
};
use crate::builder::{reg_at, reg_off, Asm, ProgramBuilder};
use crate::emit::{
    begin, built, emit_columns, end_bare, gen_bare_epilogue, gen_columns, key_info_of,
    order_key_info, prologue,
};
use crate::expr::{compile_expr, gen_expr, gen_expr_list};
use crate::returning::{
    returned_row_stuck, returned_rows_stuck, returning_of, Returning, ReturningView,
};
use crate::scan::{compile_filter, gen_filter, group_select};
use crate::schema::{
    columns_view, index_columns_view, indexes_view, ColumnView, Functions, FunctionsView,
    IndexObject, IndexView, Table, TableView,
};
use crate::scope::{emitted, over_table, steady, table_ctx, Ctx, CtxView};
use crate::stmt::{opt_columns_view, DeleteStmt, DeleteView};
use crate::text::Error;
use crate::vdbe::{ascending, Affinity, KeyField, Opcode, P4, P4View, Program};

verus! {

broadcast use group_select;

/// The cursor of the table.
pub const TABLE: i32 = 0;

/// Every plain column of the index is a column of the table.
pub open spec fn index_fits(ix: IndexView, t: TableView) -> bool {
    forall|j: int|
        0 <= j < ix.columns.len() ==> (#[trigger] ix.columns[j]).expr is Some || t.column_index(
            ix.columns[j].name,
        ) is Some
}

/// Every index fits the table.
pub open spec fn indexes_fit(ixs: Seq<IndexView>, t: TableView) -> bool {
    forall|i: int| 0 <= i < ixs.len() ==> index_fits(#[trigger] ixs[i], t)
}

// ---- Indexes ----

/// The indexes from the `k`-th on opened for writing, on the cursors after `base`.
pub open spec fn gen_open_indexes(s: Asm, ixs: Seq<IndexView>, base: i32, k: int) -> Asm
    decreases ixs.len() - k,
{
    if s.err is Some || k < 0 || k >= ixs.len() {
        s
    } else {
        gen_open_indexes(
            s.emit_p4(
                Opcode::OpenWrite,
                reg_at(base, k),
                ixs[k].rootpage as i32,
                0,
                P4View::KeyInfo(ixs[k].key_info()),
            ).note_cursor(reg_at(base, k)),
            ixs,
            base,
            k + 1,
        )
    }
}

/// Open all indexes for writing, on the cursors after `base`.
pub fn open_index_cursors(b: &mut ProgramBuilder, indexes: &[IndexObject], base: i32)
    ensures
        final(b)@ == gen_open_indexes(old(b)@, indexes_view(indexes@), base, 0),
        steady(old(b)@, final(b)@),
{
    let ghost ixs = indexes_view(indexes@);
    let ghost want = gen_open_indexes(b@, ixs, base, 0);
    for k in 0..indexes.len()
        invariant
            ixs == indexes_view(indexes@),
            gen_open_indexes(b@, ixs, base, k as int) == want,
            steady(old(b)@, b@),
    {
        assert(ixs[k as int] == indexes@[k as int]@);
        b.emit_p4(
            Opcode::OpenWrite,
            reg_off(base, k),
            indexes[k].rootpage as i32,
            0,
            P4::KeyInfo(indexes[k].key_info()),
        );
        b.note_cursor(reg_off(base, k));
    }
}

/// The key fields of an index from the `k`-th on, read from the current row of the table.
pub open spec fn gen_old_key(
    s: Asm,
    ix: IndexView,
    t: TableView,
    to: i32,
    ctx: CtxView,
    k: int,
) -> Asm
    decreases ix.columns.len() - k,
{
    if s.err is Some || k < 0 || k >= ix.columns.len() {
        s
    } else {
        gen_old_key(
            match ix.columns[k].expr {
                Some(e) => gen_expr(s, e, reg_at(to, k), ctx),
                None => s.emit(
                    Opcode::Column,
                    TABLE,
                    t.column_index(ix.columns[k].name)->0 as i32,
                    reg_at(to, k),
                ),
            },
            ix,
            t,
            to,
            ctx,
            k + 1,
        )
    }
}

/// The current row taken out of an index, if the index holds it.
#[verifier::opaque]
pub open spec fn gen_unindex(
    s: Asm,
    ix: IndexView,
    t: TableView,
    cursor: i32,
    rowid: i32,
    ctx: CtxView,
) -> Asm {
    let n = ix.columns.len() as i32;
    let skip = s.fresh();
    let s = gen_filter(s.label(), ix.where_clause, skip, ctx);
    let key = s.next_reg;
    let s = gen_old_key(s.take_regs(n.wrapping_add(1)), ix, t, key, ctx, 0);
    s.emit(Opcode::SCopy, rowid, key.wrapping_add(n), 0).emit(
        Opcode::IdxDelete,
        cursor,
        key,
        n.wrapping_add(1),
    ).bind(skip)
}

/// The current row taken out of the indexes from the `k`-th on.
pub open spec fn gen_unindex_all(
    s: Asm,
    ixs: Seq<IndexView>,
    t: TableView,
    base: i32,
    rowid: i32,
    ctx: CtxView,
    k: int,
) -> Asm
    decreases ixs.len() - k,
{
    if s.err is Some || k < 0 || k >= ixs.len() {
        s
    } else {
        gen_unindex_all(
            gen_unindex(s, ixs[k], t, reg_at(base, k), rowid, ctx),
            ixs,
            t,
            base,
            rowid,
            ctx,
            k + 1,
        )
    }
}

fn compile_unindex(
    b: &mut ProgramBuilder,
    ix: &IndexObject,
    table: &Table,
    cursor: i32,
    rowid: i32,
    ctx: Ctx,
) -> (r: Result<(), Error>)
    requires
        index_fits(ix@, table@),
    ensures
        emitted(r, final(b)@, gen_unindex(old(b)@, ix@, table@, cursor, rowid, ctx@)),
        r is Ok ==> steady(old(b)@, final(b)@),
{
    reveal(gen_unindex);
    let n: i32 = ix.columns.len() as i32;
    let skip = b.new_label();
    if let Err(err) = compile_filter(b, &ix.where_clause, skip, ctx) {
        return Err(err);
    }
    let key: i32 = b.alloc_regs(n.wrapping_add(1));
    if let Err(err) = compile_old_key(b, ix, table, key, ctx) {
        return Err(err);
    }
    b.emit(Opcode::SCopy, rowid, key.wrapping_add(n), 0);
    b.emit(Opcode::IdxDelete, cursor, key, n.wrapping_add(1));
    b.resolve(skip);
    Ok(())
}

fn compile_old_key(b: &mut ProgramBuilder, ix: &IndexObject, table: &Table, to: i32, ctx: Ctx) -> (r:
    Result<(), Error>)
    requires
        index_fits(ix@, table@),
    ensures
        emitted(r, final(b)@, gen_old_key(old(b)@, ix@, table@, to, ctx@, 0)),
        r is Ok ==> steady(old(b)@, final(b)@),
{
    let ghost want = gen_old_key(b@, ix@, table@, to, ctx@, 0);
    assert(ix@.columns == index_columns_view(ix.columns@));
    for k in 0..ix.columns.len()
        invariant
            ix@.columns == index_columns_view(ix.columns@),
            index_fits(ix@, table@),
            gen_old_key(b@, ix@, table@, to, ctx@, k as int) == want,
            want == gen_old_key(old(b)@, ix@, table@, to, ctx@, 0),
            steady(old(b)@, b@),
    {
        proof {
            reveal_with_fuel(gen_old_key, 2);
            assert(ix@.columns[k as int] == ix.columns@[k as int]@);
        }
        match &ix.columns[k].expr {
            Some(e) => {
                assert(ix@.columns[k as int].expr == Some(e@));
                if let Err(err) = compile_expr(b, e, reg_off(to, k), ctx) {
                    return Err(err);
                }
            },
            None => {
                let c: usize = match table.column_index(ix.columns[k].name.as_str()) {
                    Some(c) => c,
                    None => 0,
                };
                b.emit(Opcode::Column, TABLE, c as i32, reg_off(to, k));
            },
        }
    }
    Ok(())
}

fn compile_unindex_all(
    b: &mut ProgramBuilder,
    indexes: &[IndexObject],
    table: &Table,
    base: i32,
    rowid: i32,
    ctx: Ctx,
) -> (r: Result<(), Error>)
    requires
        indexes_fit(indexes_view(indexes@), table@),
    ensures
        emitted(
            r,
            final(b)@,
            gen_unindex_all(old(b)@, indexes_view(indexes@), table@, base, rowid, ctx@, 0),
        ),
        r is Ok ==> steady(old(b)@, final(b)@),
{
    let ghost ixs = indexes_view(indexes@);
    let ghost want = gen_unindex_all(b@, ixs, table@, base, rowid, ctx@, 0);
    for k in 0..indexes.len()
        invariant
            ixs == indexes_view(indexes@),
            indexes_fit(ixs, table@),
            gen_unindex_all(b@, ixs, table@, base, rowid, ctx@, k as int) == want,
            want == gen_unindex_all(old(b)@, ixs, table@, base, rowid, ctx@, 0),
            steady(old(b)@, b@),
    {
        proof {
            reveal_with_fuel(gen_unindex_all, 2);
            assert(ixs[k as int] == indexes@[k as int]@);
        }
        if let Err(err) = compile_unindex(b, &indexes[k], table, reg_off(base, k), rowid, ctx) {
            return Err(err);
        }
    }
    Ok(())
}

// ---- One row ----

/// The values of the columns from the `k`-th on that have real affinity made real.
pub open spec fn gen_reals(s: Asm, cols: Seq<ColumnView>, base: i32, k: int) -> Asm
    decreases cols.len() - k,
{
    if s.err is Some || k < 0 || k >= cols.len() {
        s
    } else {
        gen_reals(
            if cols[k].affinity == Affinity::Real {
                s.emit(Opcode::RealAffinity, reg_at(base, k), 0, 0)
            } else {
                s
            },
            cols,
            base,
            k + 1,
        )
    }
}

fn emit_reals(b: &mut ProgramBuilder, table: &Table, base: i32)
    ensures
        final(b)@ == gen_reals(old(b)@, table@.columns, base, 0),
        steady(old(b)@, final(b)@),
{
    let ghost cols = table@.columns;
    let ghost want = gen_reals(b@, cols, base, 0);
    assert(cols == columns_view(table.columns@));
    for k in 0..table.columns.len()
        invariant
            cols == columns_view(table.columns@),
            gen_reals(b@, cols, base, k as int) == want,
            steady(old(b)@, b@),
    {
        assert(cols[k as int] == table.columns@[k as int]@);
        if table.columns[k].affinity == Affinity::Real {
            b.emit(Opcode::RealAffinity, reg_off(base, k), 0, 0);
        }
    }
}

/// A row added to the result of a `RETURNING` clause, if there is one.
pub open spec fn gen_return_row(
    s: Asm,
    ret: Option<ReturningView>,
    t: TableView,
    base: i32,
    f: FunctionsView,
) -> Asm {
    match ret {
        Some(r) => r.gen_row(s, t, TABLE, base, f),
        None => s,
    }
}

/// The result of a `RETURNING` clause put out, if there is one.
pub open spec fn gen_return_rows(s: Asm, ret: Option<ReturningView>) -> Asm {
    match ret {
        Some(r) => r.gen_rows(s),
        None => s,
    }
}

/// The mathematical value of an optional `RETURNING` clause.
pub open spec fn opt_returning_view(r: Option<Returning>) -> Option<ReturningView> {
    match r {
        Some(x) => Some(x@),
        None => None,
    }
}

/// The row returned, with the rowid in the place of its alias.
pub open spec fn gen_return_stored(
    s: Asm,
    ret: Option<ReturningView>,
    t: TableView,
    row: i32,
    rowid: i32,
    f: FunctionsView,
) -> Asm {
    match ret {
        None => s,
        Some(r) => r.gen_row(
            match t.rowid_alias {
                Some(a) => s.emit(Opcode::SCopy, rowid, reg_at(row, a as int), 0),
                None => s,
            },
            t,
            TABLE,
            row,
            f,
        ),
    }
}

/// Return a row, with the rowid in the place of its alias.
pub fn compile_return_stored(
    b: &mut ProgramBuilder,
    ret: &Option<Returning>,
    table: &Table,
    row: i32,
    rowid: i32,
    functions: &Functions,
) -> (r: Result<(), Error>)
    ensures
        emitted(
            r,
            final(b)@,
            gen_return_stored(
                old(b)@,
                opt_returning_view(*ret),
                table@,
                row,
                rowid,
                functions@,
            ),
        ),
        r is Ok ==> steady(old(b)@, final(b)@),
{
    match ret {
        None => Ok(()),
        Some(x) => {
            if let Some(a) = table.rowid_alias {
                b.emit(Opcode::SCopy, rowid, reg_off(row, a), 0);
            }
            x.emit_buffer_row(b, table, TABLE, row, functions)
        },
    }
}

/// The current row removed: its old values are read, it is taken out of the indexes and out of
/// the table, and what it was is returned.
#[verifier::opaque]
pub open spec fn gen_remove(
    s: Asm,
    t: TableView,
    ixs: Seq<IndexView>,
    base: i32,
    rowid: i32,
    ret: Option<ReturningView>,
    f: FunctionsView,
) -> Asm {
    let ncol = t.columns.len() as i32;
    let row = s.next_reg;
    let s = gen_columns(s.take_regs(ncol), TABLE, 0, row, ncol as int, 0);
    let s = gen_reals(s, t.columns, row, 0);
    let s = gen_unindex_all(s, ixs, t, base, rowid, table_ctx(t, TABLE, f), 0);
    gen_return_stored(s.emit(Opcode::Delete, TABLE, 0, 0), ret, t, row, rowid, f)
}

pub broadcast proof fn remove_stuck(
    s: Asm,
    t: TableView,
    ixs: Seq<IndexView>,
    base: i32,
    rowid: i32,
    ret: Option<ReturningView>,
    f: FunctionsView,
)
    requires
        s.err is Some,
    ensures
        #![trigger gen_remove(s, t, ixs, base, rowid, ret, f)]
        gen_remove(s, t, ixs, base, rowid, ret, f) == s,
{
    broadcast use returned_row_stuck;

    reveal(gen_remove);
}

fn compile_remove(
    b: &mut ProgramBuilder,
    table: &Table,
    indexes: &[IndexObject],
    base: i32,
    rowid: i32,
    ret: &Option<Returning>,
    functions: &Functions,
) -> (r: Result<(), Error>)
    requires
        indexes_fit(indexes_view(indexes@), table@),
    ensures
        emitted(
            r,
            final(b)@,
            gen_remove(
                old(b)@,
                table@,
                indexes_view(indexes@),
                base,
                rowid,
                opt_returning_view(*ret),
                functions@,
            ),
        ),
        r is Ok ==> steady(old(b)@, final(b)@),
{
    broadcast use returned_row_stuck;

    reveal(gen_remove);
    let ncol: i32 = table.columns.len() as i32;
    let row: i32 = b.alloc_regs(ncol);
    emit_columns(b, TABLE, 0, row, ncol);
    emit_reals(b, table, row);
    let ctx = over_table(table, TABLE, functions);
    if let Err(err) = compile_unindex_all(b, indexes, table, base, rowid, ctx) {
        return Err(err);
    }
    b.emit(Opcode::Delete, TABLE, 0, 0);
    compile_return_stored(b, ret, table, row, rowid, functions)
}

// ---- Walking the table ----

/// The `RETURNING` clause of a statement, if it has one.
pub open spec fn clause_of(raw: Option<Seq<ResultColumnView>>, t: TableView) -> Result<
    Option<ReturningView>,
    Seq<char>,
> {
    match raw {
        None => Ok(None),
        Some(cs) => match returning_of(cs, t) {
            Err(m) => Err(m),
            Ok(r) => Ok(Some(r)),
        },
    }
}

/// The `RETURNING` clause of a statement, if it has one.
pub fn returning_clause(
    raw: &Option<Vec<crate::ast::ResultColumn>>,
    table: &Table,
) -> (r: Result<Option<Returning>, Error>)
    ensures
        match r {
            Ok(x) => clause_of(opt_columns_view(*raw), table@) == Ok::<
                Option<ReturningView>,
                Seq<char>,
            >(opt_returning_view(x)),
            Err(e) => clause_of(opt_columns_view(*raw), table@) == Err::<
                Option<ReturningView>,
                Seq<char>,
            >(e@),
        },
{
    match raw {
        None => Ok(None),
        Some(cs) => match Returning::new(cs, table) {
            Ok(x) => Ok(Some(x)),
            Err(err) => Err(err),
        },
    }
}

/// The clause once its table is opened.
pub open spec fn opened(s: Asm, ret: Option<ReturningView>, cursor: i32) -> Option<ReturningView> {
    match ret {
        Some(r) => Some(r.opened(s, cursor)),
        None => None,
    }
}

/// The buffer of a `RETURNING` clause opened, if there is one.
pub open spec fn gen_open_returning(s: Asm, ret: Option<ReturningView>, cursor: i32) -> Asm {
    match ret {
        Some(r) => r.gen_open(s, cursor),
        None => s,
    }
}

/// Open the table of a `RETURNING` clause, if there is one.
pub fn open_returning(b: &mut ProgramBuilder, ret: Option<Returning>, cursor: i32) -> (r: Option<
    Returning,
>)
    ensures
        final(b)@ == gen_open_returning(old(b)@, opt_returning_view(ret), cursor),
        opt_returning_view(r) == opened(old(b)@, opt_returning_view(ret), cursor),
        steady(old(b)@, final(b)@),
{
    match ret {
        Some(x) => {
            let mut x = x;
            x.emit_open(b, cursor);
            Some(x)
        },
        None => None,
    }
}

/// A `DELETE` that removes every row that meets the condition.
#[verifier::opaque]
pub open spec fn gen_delete_all(
    d: DeleteView,
    t: TableView,
    ixs: Seq<IndexView>,
    ret: Option<ReturningView>,
    f: FunctionsView,
) -> Asm {
    let s = prologue().emit(Opcode::Transaction, 0, 1, 0).emit(
        Opcode::OpenWrite,
        TABLE,
        t.rootpage as i32,
        0,
    ).note_cursor(TABLE);
    let eph = 1i32.wrapping_add(ixs.len() as i32);
    let r = opened(s, ret, eph);
    let s = gen_open_indexes(gen_open_returning(s, ret, eph), ixs, 1, 0);
    let done = s.fresh();
    let s = s.label().jump(Opcode::Rewind, TABLE, done, 0);
    let top = s.here();
    let skip = s.fresh();
    let s = gen_filter(s.label(), d.where_clause, skip, table_ctx(t, TABLE, f));
    let rowid = s.next_reg;
    let s = s.take_regs(1).emit(Opcode::Rowid, TABLE, rowid, 0);
    let s = gen_remove(s, t, ixs, 1, rowid, r, f).bind(skip).emit(Opcode::Next, TABLE, top, 0).bind(
        done,
    );
    gen_bare_epilogue(gen_return_rows(s, r).emit(Opcode::Halt, 0, 0, 0))
}

fn compile_delete_all(
    del: &DeleteStmt,
    table: &Table,
    indexes: &[IndexObject],
    ret: Option<Returning>,
    functions: &Functions,
) -> (r: Result<Program, Error>)
    requires
        indexes_fit(indexes_view(indexes@), table@),
    ensures
        built(
            r,
            gen_delete_all(
                del@,
                table@,
                indexes_view(indexes@),
                opt_returning_view(ret),
                functions@,
            ),
        ),
{
    broadcast use {remove_stuck, returned_rows_stuck};

    reveal(gen_delete_all);
    let (mut b, setup, after_init) = begin();
    b.emit(Opcode::Transaction, 0, 1, 0);
    b.emit(Opcode::OpenWrite, TABLE, table.rootpage as i32, 0);
    b.note_cursor(TABLE);
    let eph: i32 = 1i32.wrapping_add(indexes.len() as i32);
    let ret = open_returning(&mut b, ret, eph);
    open_index_cursors(&mut b, indexes, 1);
    let done = b.new_label();
    b.emit_jump(Opcode::Rewind, TABLE, done, 0);
    let top: i32 = b.cur_addr();
    let skip = b.new_label();
    if let Err(err) = compile_filter(
        &mut b,
        &del.where_clause,
        skip,
        over_table(table, TABLE, functions),
    ) {
        return Err(err);
    }
    let rowid: i32 = b.alloc_reg();
    b.emit(Opcode::Rowid, TABLE, rowid, 0);
    if let Err(err) = compile_remove(&mut b, table, indexes, 1, rowid, &ret, functions) {
        return Err(err);
    }
    b.resolve(skip);
    b.emit(Opcode::Next, TABLE, top, 0);
    b.resolve(done);
    if let Some(x) = &ret {
        x.emit_output_loop(&mut b);
    }
    b.emit(Opcode::Halt, 0, 0, 0);
    Ok(end_bare(b, setup, after_init))
}

// ---- A limited number of rows ----

/// The cursor of the sorter.
pub const SORTER: i32 = 1;

/// The expressions of sort terms.
pub open spec fn term_exprs(terms: Seq<OrderingTermView>) -> Seq<ExprView> {
    Seq::new(terms.len(), |i: int| terms[i].expr)
}

/// How the gathered rows compare: by the sort terms, or else not at all.
pub open spec fn gather_keys(terms: Seq<OrderingTermView>) -> Seq<KeyField> {
    if terms.len() == 0 {
        seq![ascending()]
    } else {
        order_key_info(terms)
    }
}

fn gather_key_info(terms: &Vec<OrderingTerm>) -> (r: Vec<KeyField>)
    ensures
        r@ == gather_keys(ordering_terms_view(terms@)),
        r@.len() == if terms@.len() == 0 {
            1
        } else {
            terms@.len()
        },
{
    if terms.len() == 0 {
        let mut r: Vec<KeyField> = Vec::new();
        r.push(KeyField::asc_binary());
        assert(r@ =~= seq![ascending()]);
        r
    } else {
        key_info_of(terms)
    }
}

fn compile_terms(b: &mut ProgramBuilder, terms: &Vec<OrderingTerm>, base: i32, ctx: Ctx) -> (r:
    Result<(), Error>)
    ensures
        emitted(
            r,
            final(b)@,
            gen_expr_list(
                old(b)@,
                term_exprs(ordering_terms_view(terms@)),
                base,
                ctx@,
                0,
            ),
        ),
        r is Ok ==> steady(old(b)@, final(b)@),
{
    let ghost es = term_exprs(ordering_terms_view(terms@));
    let ghost want = gen_expr_list(b@, es, base, ctx@, 0);
    for k in 0..terms.len()
        invariant
            es == term_exprs(ordering_terms_view(terms@)),
            gen_expr_list(b@, es, base, ctx@, k as int) == want,
            want == gen_expr_list(old(b)@, es, base, ctx@, 0),
            steady(old(b)@, b@),
    {
        proof {
            reveal_with_fuel(gen_expr_list, 2);
            assert(ordering_terms_view(terms@)[k as int] == terms@[k as int]@);
            assert(es[k as int] == terms@[k as int].expr@);
        }
        if let Err(err) = compile_expr(b, &terms[k].expr, reg_off(base, k), ctx) {
            return Err(err);
        }
    }
    Ok(())
}

/// The rowids of the rows that meet the condition gathered in the sorter, behind their keys.
#[verifier::opaque]
pub open spec fn gen_gather(s: Asm, d: DeleteView, ctx: CtxView) -> Asm {
    let nkey = gather_keys(d.order_by).len() as i32;
    let s = s.emit_p4(
        Opcode::SorterOpen,
        SORTER,
        nkey,
        0,
        P4View::KeyInfo(gather_keys(d.order_by)),
    ).note_cursor(SORTER);
    let done = s.fresh();
    let s = s.label().jump(Opcode::Rewind, TABLE, done, 0);
    let top = s.here();
    let skip = s.fresh();
    let s = gen_filter(s.label(), d.where_clause, skip, ctx);
    let rowid = s.next_reg;
    let s = s.take_regs(1).emit(Opcode::Rowid, TABLE, rowid, 0);
    let block = s.next_reg;
    let s = gen_expr_list(
        s.take_regs(nkey.wrapping_add(1)),
        term_exprs(d.order_by),
        block,
        ctx,
        0,
    );
    let s = if d.order_by.len() == 0 {
        s.emit(Opcode::Integer, 0, block, 0)
    } else {
        s
    };
    let s = s.emit(Opcode::SCopy, rowid, block.wrapping_add(nkey), 0);
    let rec = s.next_reg;
    s.take_regs(1).emit(Opcode::MakeRecord, block, nkey.wrapping_add(1), rec).emit(
        Opcode::SorterInsert,
        SORTER,
        rec,
        0,
    ).bind(skip).emit(Opcode::Next, TABLE, top, 0).bind(done)
}

pub broadcast proof fn gather_stuck(s: Asm, d: DeleteView, ctx: CtxView)
    requires
        s.err is Some,
    ensures
        #![trigger gen_gather(s, d, ctx)]
        gen_gather(s, d, ctx) == s,
{
    reveal(gen_gather);
}

fn compile_gather(b: &mut ProgramBuilder, del: &DeleteStmt, ctx: Ctx) -> (r: Result<(), Error>)
    ensures
        emitted(r, final(b)@, gen_gather(old(b)@, del@, ctx@)),
        r is Ok ==> steady(old(b)@, final(b)@),
{
    reveal(gen_gather);
    let keys = gather_key_info(&del.order_by);
    let nkey: i32 = keys.len() as i32;
    b.emit_p4(Opcode::SorterOpen, SORTER, nkey, 0, P4::KeyInfo(keys));
    b.note_cursor(SORTER);
    let done = b.new_label();
    b.emit_jump(Opcode::Rewind, TABLE, done, 0);
    let top: i32 = b.cur_addr();
    let skip = b.new_label();
    if let Err(err) = compile_filter(b, &del.where_clause, skip, ctx) {
        return Err(err);
    }
    let rowid: i32 = b.alloc_reg();
    b.emit(Opcode::Rowid, TABLE, rowid, 0);
    let block: i32 = b.alloc_regs(nkey.wrapping_add(1));
    if let Err(err) = compile_terms(b, &del.order_by, block, ctx) {
        return Err(err);
    }
    if del.order_by.len() == 0 {
        b.emit(Opcode::Integer, 0, block, 0);
    }
    b.emit(Opcode::SCopy, rowid, block.wrapping_add(nkey), 0);
    let rec: i32 = b.alloc_reg();
    b.emit(Opcode::MakeRecord, block, nkey.wrapping_add(1), rec);
    b.emit(Opcode::SorterInsert, SORTER, rec, 0);
    b.resolve(skip);
    b.emit(Opcode::Next, TABLE, top, 0);
    b.resolve(done);
    Ok(())
}

/// A counter loaded from an expression, or with zero where there is none.
pub open spec fn gen_counter(s: Asm, e: Option<ExprView>, ctx: CtxView) -> Asm {
    let reg = s.next_reg;
    match e {
        Some(x) => gen_expr(s.take_regs(1), x, reg, ctx),
        None => s.take_regs(1).emit(Opcode::Integer, 0, reg, 0),
    }
}

fn compile_counter(b: &mut ProgramBuilder, e: &Option<Expr>, ctx: Ctx) -> (r: Result<i32, Error>)
    ensures
        match r {
            Ok(reg) => final(b)@ == gen_counter(old(b)@, opt_expr_view(*e), ctx@) && reg
                == old(b)@.next_reg && steady(old(b)@, final(b)@),
            Err(m) => gen_counter(old(b)@, opt_expr_view(*e), ctx@).err == Some(m@),
        },
{
    let reg: i32 = b.alloc_reg();
    match e {
        Some(x) => {
            if let Err(err) = compile_expr(b, x, reg, ctx) {
                return Err(err);
            }
        },
        None => {
            b.emit(Opcode::Integer, 0, reg, 0);
        },
    }
    Ok(reg)
}

/// The gathered rows removed, as far as the counters let them.
#[verifier::opaque]
pub open spec fn gen_remove_gathered(
    s: Asm,
    d: DeleteView,
    t: TableView,
    ixs: Seq<IndexView>,
    offset: i32,
    limit: i32,
    ret: Option<ReturningView>,
    f: FunctionsView,
) -> Asm {
    let nkey = gather_keys(d.order_by).len() as i32;
    let done = s.fresh();
    let s = s.label().jump(Opcode::SorterSort, SORTER, done, 0);
    let top = s.here();
    let s = s.emit(Opcode::SorterData, SORTER, 0, 0);
    let s = if d.offset is Some {
        let pass = s.fresh();
        let go = s.label().fresh();
        s.label().label().jump(Opcode::IfPos, offset, pass, 1).jump(Opcode::Goto, 0, go, 0).bind(
            pass,
        ).emit(Opcode::SorterNext, SORTER, top, 0).jump(Opcode::Goto, 0, done, 0).bind(go)
    } else {
        s
    };
    let take = s.fresh();
    let s = s.label().jump(Opcode::IfPos, limit, take, 1).jump(Opcode::Goto, 0, done, 0).bind(take);
    let rowid = s.next_reg;
    let s = s.take_regs(1).emit(Opcode::Column, SORTER, nkey, rowid);
    let gone = s.fresh();
    let s = s.label().jump(Opcode::NotExists, TABLE, gone, rowid);
    gen_remove(s, t, ixs, 2, rowid, ret, f).bind(gone).emit(Opcode::SorterNext, SORTER, top, 0).bind(
        done,
    )
}

pub broadcast proof fn remove_gathered_stuck(
    s: Asm,
    d: DeleteView,
    t: TableView,
    ixs: Seq<IndexView>,
    offset: i32,
    limit: i32,
    ret: Option<ReturningView>,
    f: FunctionsView,
)
    requires
        s.err is Some,
    ensures
        #![trigger gen_remove_gathered(s, d, t, ixs, offset, limit, ret, f)]
        gen_remove_gathered(s, d, t, ixs, offset, limit, ret, f) == s,
{
    broadcast use remove_stuck;

    reveal(gen_remove_gathered);
}

fn compile_remove_gathered(
    b: &mut ProgramBuilder,
    del: &DeleteStmt,
    table: &Table,
    indexes: &[IndexObject],
    offset: i32,
    limit: i32,
    ret: &Option<Returning>,
    functions: &Functions,
) -> (r: Result<(), Error>)
    requires
        indexes_fit(indexes_view(indexes@), table@),
    ensures
        emitted(
            r,
            final(b)@,
            gen_remove_gathered(
                old(b)@,
                del@,
                table@,
                indexes_view(indexes@),
                offset,
                limit,
                opt_returning_view(*ret),
                functions@,
            ),
        ),
        r is Ok ==> steady(old(b)@, final(b)@),
{
    broadcast use remove_stuck;

    reveal(gen_remove_gathered);
    let nkey: i32 = gather_key_info(&del.order_by).len() as i32;
    let done = b.new_label();
    b.emit_jump(Opcode::SorterSort, SORTER, done, 0);
    let top: i32 = b.cur_addr();
    b.emit(Opcode::SorterData, SORTER, 0, 0);
    if del.offset.is_some() {
        let pass = b.new_label();
        let go = b.new_label();
        b.emit_jump(Opcode::IfPos, offset, pass, 1);
        b.emit_jump(Opcode::Goto, 0, go, 0);
        b.resolve(pass);
        b.emit(Opcode::SorterNext, SORTER, top, 0);
        b.emit_jump(Opcode::Goto, 0, done, 0);
        b.resolve(go);
    }
    let take = b.new_label();
    b.emit_jump(Opcode::IfPos, limit, take, 1);
    b.emit_jump(Opcode::Goto, 0, done, 0);
    b.resolve(take);
    let rowid: i32 = b.alloc_reg();
    b.emit(Opcode::Column, SORTER, nkey, rowid);
    let gone = b.new_label();
    b.emit_jump(Opcode::NotExists, TABLE, gone, rowid);
    if let Err(err) = compile_remove(b, table, indexes, 2, rowid, ret, functions) {
        return Err(err);
    }
    b.resolve(gone);
    b.emit(Opcode::SorterNext, SORTER, top, 0);
    b.resolve(done);
    Ok(())
}

/// A `DELETE` with a limit. The buffer of its `RETURNING` clause has the cursor behind those of
/// the indexes.
#[verifier::opaque]
pub open spec fn gen_delete_limited(
    d: DeleteView,
    t: TableView,
    ixs: Seq<IndexView>,
    ret: Option<ReturningView>,
    f: FunctionsView,
) -> Asm {
    let ctx = table_ctx(t, TABLE, f);
    let s = prologue().emit(Opcode::Transaction, 0, 1, 0).emit(
        Opcode::OpenWrite,
        TABLE,
        t.rootpage as i32,
        0,
    ).note_cursor(TABLE);
    let s = gen_open_indexes(s, ixs, 2, 0);
    let eph = 2i32.wrapping_add(ixs.len() as i32);
    let r = opened(s, ret, eph);
    let s = gen_gather(gen_open_returning(s, ret, eph), d, ctx);
    let offset = s.next_reg;
    let s = gen_counter(s, d.offset, ctx);
    let limit = s.next_reg;
    let s = gen_expr(s.take_regs(1), d.limit->0, limit, ctx);
    let s = gen_remove_gathered(s, d, t, ixs, offset, limit, r, f);
    gen_bare_epilogue(gen_return_rows(s, r).emit(Opcode::Halt, 0, 0, 0))
}

fn compile_delete_ordered_limited(
    del: &DeleteStmt,
    max: &Expr,
    table: &Table,
    indexes: &[IndexObject],
    ret: Option<Returning>,
    functions: &Functions,
) -> (r: Result<Program, Error>)
    requires
        indexes_fit(indexes_view(indexes@), table@),
        del@.limit == Some(max@),
    ensures
        built(
            r,
            gen_delete_limited(
                del@,
                table@,
                indexes_view(indexes@),
                opt_returning_view(ret),
                functions@,
            ),
        ),
{
    broadcast use {gather_stuck, remove_gathered_stuck, returned_rows_stuck};

    reveal(gen_delete_limited);
    let ctx = over_table(table, TABLE, functions);
    let (mut b, setup, after_init) = begin();
    b.emit(Opcode::Transaction, 0, 1, 0);
    b.emit(Opcode::OpenWrite, TABLE, table.rootpage as i32, 0);
    b.note_cursor(TABLE);
    open_index_cursors(&mut b, indexes, 2);
    let eph: i32 = 2i32.wrapping_add(indexes.len() as i32);
    let ret = open_returning(&mut b, ret, eph);
    if let Err(err) = compile_gather(&mut b, del, ctx) {
        return Err(err);
    }
    let offset: i32 = match compile_counter(&mut b, &del.offset, ctx) {
        Ok(r) => r,
        Err(err) => {
            return Err(err);
        },
    };
    let limit: i32 = b.alloc_reg();
    if let Err(err) = compile_expr(&mut b, max, limit, ctx) {
        return Err(err);
    }
    if let Err(err) = compile_remove_gathered(
        &mut b,
        del,
        table,
        indexes,
        offset,
        limit,
        &ret,
        functions,
    ) {
        return Err(err);
    }
    if let Some(x) = &ret {
        x.emit_output_loop(&mut b);
    }
    b.emit(Opcode::Halt, 0, 0, 0);
    Ok(end_bare(b, setup, after_init))
}

/// Why a `DELETE` statement cannot be compiled at all; `None` if it can.
pub open spec fn delete_refusal(d: DeleteView, t: TableView) -> Option<Seq<char>> {
    if d.schema is Some {
        Some("schema-qualified DELETE is not yet supported"@)
    } else if t.without_rowid {
        Some("DELETE on a WITHOUT ROWID table is not supported yet"@)
    } else if d.order_by.len() > 0 && d.limit is None {
        Some("ORDER BY without LIMIT on DELETE"@)
    } else {
        match clause_of(d.returning, t) {
            Err(m) => Some(m),
            Ok(_) => None,
        }
    }
}

/// A `DELETE` statement.
#[verifier::opaque]
pub open spec fn gen_delete(
    d: DeleteView,
    t: TableView,
    ixs: Seq<IndexView>,
    f: FunctionsView,
) -> Asm {
    match delete_refusal(d, t) {
        Some(m) => Asm::start().fail(m),
        None => {
            let ret = clause_of(d.returning, t)->Ok_0;
            if d.limit is Some {
                gen_delete_limited(d, t, ixs, ret, f)
            } else {
                gen_delete_all(d, t, ixs, ret, f)
            }
        },
    }
}

/// Compile a `DELETE` statement against its table, whose indexes are `indexes`.
pub fn compile_delete(
    del: &DeleteStmt,
    table: &Table,
    indexes: &[IndexObject],
    functions: &Functions,
) -> (r: Result<Program, Error>)
    requires
        delete_refusal(del@, table@) is None ==> indexes_fit(indexes_view(indexes@), table@),
    ensures
        built(r, gen_delete(del@, table@, indexes_view(indexes@), functions@)),
{
    broadcast use crate::builder::asm_fail;

    reveal(gen_delete);
    assert(del@.schema == opt_name_view(del.schema));
    if del.schema.is_some() {
        return Err(Error::lit("schema-qualified DELETE is not yet supported"));
    }
    if table.without_rowid {
        return Err(Error::lit("DELETE on a WITHOUT ROWID table is not supported yet"));
    }
    if del.order_by.len() > 0 && del.limit.is_none() {
        return Err(Error::lit("ORDER BY without LIMIT on DELETE"));
    }
    let ret = match returning_clause(&del.returning, table) {
        Ok(x) => x,
        Err(err) => {
            return Err(err);
        },
    };
    match &del.limit {
        Some(max) => compile_delete_ordered_limited(del, max, table, indexes, ret, functions),
        None => compile_delete_all(del, table, indexes, ret, functions),
    }
}

} // verus!
