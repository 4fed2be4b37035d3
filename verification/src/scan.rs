//! `SELECT` over at most one table.
//!
//! * A table scan: `Init`, `OpenRead`, `Rewind`, then for each row the `WHERE` test, the output
//!   columns and `ResultRow`, then `Next`; with an `ORDER BY` the rows go through a sorter.
//! * A `SELECT` without a `FROM` clause puts out one row.
//! * A `VALUES` body puts out its rows.
use vstd::prelude::*;

use crate::ast::{
    expr_rows_view, exprs_view, opt_expr_view, ordering_terms_view, Expr, ExprView, SelectStmt,
    SelectStmtView,
};
use crate::builder::{Asm, Label, ProgramBuilder};
use crate::columns::{exprs_of, outputs_view, Output};
use crate::emit::{
    begin, built, compile_list, compile_order_keys, compile_outputs, emit_limit, emit_offset,
    emit_sort_tail, end, end_bare, gen_bare_epilogue, gen_epilogue, gen_limit, gen_offset, gen_open,
    gen_order_keys, gen_skip, gen_sort_tail, gen_stop, group_emit, key_info_of, limit_reg,
    offset_reg, open_table, order_key_info, prologue,
};
use crate::expr::{compile_jump, gen_expr_list, gen_jump};
use crate::schema::{Functions, FunctionsView, Table, TableView};
use crate::scope::{emitted, heads_for, over_table, steady, table_ctx, Ctx, CtxView, NO_CURSOR};
use crate::text::{cat4, decimal_u64, int_text, Error};
use crate::vdbe::{KeyField, Opcode, P4, P4View, Program};

verus! {

broadcast use group_emit;

/// A jump to label `d` unless the condition, if there is one, is true.
#[verifier::opaque]
pub open spec fn gen_filter(s: Asm, condition: Option<ExprView>, d: int, ctx: CtxView) -> Asm {
    match condition {
        Some(w) => gen_jump(s, w, d, false, true, ctx),
        None => s,
    }
}

pub broadcast proof fn filter_stuck(s: Asm, condition: Option<ExprView>, d: int, ctx: CtxView)
    requires
        s.err is Some,
    ensures
        #![trigger gen_filter(s, condition, d, ctx)]
        gen_filter(s, condition, d, ctx) == s,
{
    reveal(gen_filter);
}

pub broadcast group group_select {
    group_emit,
    filter_stuck,
}

/// Emit a jump to `label` unless the condition, if there is one, is true.
pub fn compile_filter(
    b: &mut ProgramBuilder,
    condition: &Option<Expr>,
    label: Label,
    ctx: Ctx,
) -> (r: Result<(), Error>)
    requires
        label.id() < old(b)@.fresh(),
    ensures
        emitted(r, final(b)@, gen_filter(old(b)@, opt_expr_view(*condition), label.id(), ctx@)),
        r is Ok ==> heads_for(old(b)@, final(b)@, label.id()),
{
    reveal(gen_filter);
    match condition {
        Some(w) => compile_jump(b, w, label, false, true, ctx),
        None => Ok(()),
    }
}

// ---- DISTINCT ----

/// The index of the rows already put out, if rows are to be distinct.
#[verifier::opaque]
pub open spec fn gen_open_distinct(s: Asm, distinct: bool, cursor: i32, ncol: i32) -> Asm {
    if distinct {
        s.emit_p4(Opcode::OpenEphemeral, cursor, ncol, 0, P4View::KeyInfo(Seq::empty())).note_cursor(
            cursor,
        )
    } else {
        s
    }
}

/// A row that is in the index already leaves for label `d`; any other row is added to it.
#[verifier::opaque]
pub open spec fn gen_distinct(
    s: Asm,
    distinct: bool,
    cursor: i32,
    d: int,
    row: i32,
    ncol: i32,
) -> Asm {
    if distinct {
        let s = s.jump_p45(Opcode::Found, cursor, d, row, P4View::Int(ncol as i64), 0);
        let rec = s.next_reg;
        s.take_regs(1).emit(Opcode::MakeRecord, row, ncol, rec).emit(
            Opcode::IdxInsert,
            cursor,
            rec,
            0,
        )
    } else {
        s
    }
}

/// Open the set of rows already put out, for a query that wants each row once.
pub fn open_distinct(b: &mut ProgramBuilder, distinct: bool, cursor: i32, ncol: i32)
    ensures
        final(b)@ == gen_open_distinct(old(b)@, distinct, cursor, ncol),
        steady(old(b)@, final(b)@),
{
    reveal(gen_open_distinct);
    if distinct {
        let keys: Vec<KeyField> = Vec::new();
        assert(keys@ =~= Seq::empty());
        b.emit_p4(Opcode::OpenEphemeral, cursor, ncol, 0, P4::KeyInfo(keys));
        b.note_cursor(cursor);
    }
}

/// Go to `label` if the row was put out before, else remember it.
pub fn emit_distinct(
    b: &mut ProgramBuilder,
    distinct: bool,
    cursor: i32,
    label: Label,
    row: i32,
    ncol: i32,
)
    requires
        label.id() < old(b)@.fresh(),
    ensures
        final(b)@ == gen_distinct(old(b)@, distinct, cursor, label.id(), row, ncol),
        heads_for(old(b)@, final(b)@, label.id()),
{
    reveal(gen_distinct);
    if distinct {
        b.emit_jump_p45(Opcode::Found, cursor, label, row, P4::Int(ncol as i64), 0);
        let rec: i32 = b.alloc_reg();
        b.emit(Opcode::MakeRecord, row, ncol, rec);
        b.emit(Opcode::IdxInsert, cursor, rec, 0);
    }
}

pub broadcast proof fn distinct_stuck(
    s: Asm,
    distinct: bool,
    cursor: i32,
    d: int,
    row: i32,
    ncol: i32,
)
    requires
        s.err is Some,
    ensures
        #![trigger gen_distinct(s, distinct, cursor, d, row, ncol)]
        gen_distinct(s, distinct, cursor, d, row, ncol) == s,
{
    reveal(gen_distinct);
}

// ---- The table scan ----

/// The rows of the table, each put out as it is met.
#[verifier::opaque]
pub open spec fn gen_scan_unordered(
    s: Asm,
    select: SelectStmtView,
    ctx: CtxView,
    cursor: i32,
    outputs: Seq<(ExprView, Seq<char>)>,
    limit: Option<i32>,
    offset: Option<i32>,
) -> Asm {
    let ncol = outputs.len() as i32;
    let s = gen_open_distinct(s, select.distinct, 2, ncol);
    let end = s.fresh();
    let s = s.label().jump(Opcode::Rewind, cursor, end, 0);
    let top = s.here();
    let next = s.fresh();
    let s = gen_filter(s.label(), select.where_clause, next, ctx);
    let result = s.next_reg;
    let s = gen_expr_list(s.take_regs(ncol), exprs_of(outputs), result, ctx, 0);
    let s = gen_distinct(s, select.distinct, 2, next, result, ncol);
    let s = gen_skip(s, offset, next).emit(Opcode::ResultRow, result, ncol, 0);
    gen_stop(s, limit, end).bind(next).emit(Opcode::Next, cursor, top, 0).bind(end).emit(
        Opcode::Halt,
        0,
        0,
        0,
    )
}

/// The rows of the table, put into a sorter and then put out in order.
#[verifier::opaque]
pub open spec fn gen_scan_ordered(
    s: Asm,
    select: SelectStmtView,
    ctx: CtxView,
    cursor: i32,
    outputs: Seq<(ExprView, Seq<char>)>,
    limit: Option<i32>,
    offset: Option<i32>,
) -> Asm {
    let ncol = outputs.len() as i32;
    let nkey = select.order_by.len() as i32;
    let width = nkey.wrapping_add(ncol);
    let s = s.emit_p4(
        Opcode::SorterOpen,
        1,
        width,
        0,
        P4View::KeyInfo(order_key_info(select.order_by)),
    ).note_cursor(1);
    let end_scan = s.fresh();
    let s = s.label().jump(Opcode::Rewind, cursor, end_scan, 0);
    let top = s.here();
    let next = s.fresh();
    let s = gen_filter(s.label(), select.where_clause, next, ctx);
    let block = s.next_reg;
    let s = gen_order_keys(s.take_regs(width), select.order_by, outputs, block, ctx, 0);
    let s = gen_expr_list(s, exprs_of(outputs), block.wrapping_add(nkey), ctx, 0);
    let rec = s.next_reg;
    let s = s.take_regs(1).emit(Opcode::MakeRecord, block, width, rec).emit(
        Opcode::SorterInsert,
        1,
        rec,
        0,
    ).bind(next).emit(Opcode::Next, cursor, top, 0).bind(end_scan);
    let end = s.fresh();
    gen_sort_tail(s.label(), 1, nkey, ncol, limit, offset, end).bind(end).emit(
        Opcode::Halt,
        0,
        0,
        0,
    )
}

/// The program of a table scan.
#[verifier::opaque]
pub open spec fn gen_scan(
    select: SelectStmtView,
    table: TableView,
    outputs: Seq<(ExprView, Seq<char>)>,
    limit: Option<i64>,
    offset: i64,
    functions: FunctionsView,
) -> Asm {
    if limit == Some(0i64) {
        gen_epilogue(prologue().emit(Opcode::Halt, 0, 0, 0))
    } else {
        let s0 = prologue();
        let s1 = gen_limit(s0, limit);
        let s2 = gen_offset(s1, offset);
        let s = gen_open(s2, Opcode::OpenRead, 0, table);
        let ctx = table_ctx(table, 0, functions);
        gen_epilogue(
            if select.order_by.len() == 0 {
                gen_scan_unordered(
                    s,
                    select,
                    ctx,
                    0,
                    outputs,
                    limit_reg(s0, limit),
                    offset_reg(s1, offset),
                )
            } else {
                gen_scan_ordered(
                    s,
                    select,
                    ctx,
                    0,
                    outputs,
                    limit_reg(s0, limit),
                    offset_reg(s1, offset),
                )
            },
        )
    }
}

fn compile_scan_unordered(
    b: &mut ProgramBuilder,
    select: &SelectStmt,
    ctx: Ctx,
    outputs: &Vec<Output>,
    limit_reg: Option<i32>,
    offset_reg: Option<i32>,
) -> (r: Result<(), Error>)
    ensures
        emitted(
            r,
            final(b)@,
            gen_scan_unordered(
                old(b)@,
                select@,
                ctx@,
                ctx.cursor,
                outputs_view(outputs@),
                limit_reg,
                offset_reg,
            ),
        ),
        r is Ok ==> steady(old(b)@, final(b)@),
{
    broadcast use {filter_stuck, distinct_stuck};

    reveal(gen_scan_unordered);
    let cursor: i32 = ctx.cursor;
    let ncol: i32 = outputs.len() as i32;
    open_distinct(b, select.distinct, 2, ncol);
    let end = b.new_label();
    b.emit_jump(Opcode::Rewind, cursor, end, 0);
    let loop_top: i32 = b.cur_addr();
    let next_label = b.new_label();
    if let Err(err) = compile_filter(b, &select.where_clause, next_label, ctx) {
        return Err(err);
    }
    let result_reg: i32 = b.alloc_regs(ncol);
    if let Err(err) = compile_outputs(b, outputs, result_reg, ctx) {
        return Err(err);
    }
    emit_distinct(b, select.distinct, 2, next_label, result_reg, ncol);
    if let Some(oreg) = offset_reg {
        b.emit_jump(Opcode::IfPos, oreg, next_label, 1);
    }
    b.emit(Opcode::ResultRow, result_reg, ncol, 0);
    if let Some(lreg) = limit_reg {
        b.emit_jump(Opcode::DecrJumpZero, lreg, end, 0);
    }
    b.resolve(next_label);
    b.emit(Opcode::Next, cursor, loop_top, 0);
    b.resolve(end);
    b.emit(Opcode::Halt, 0, 0, 0);
    Ok(())
}

fn compile_scan_ordered(
    b: &mut ProgramBuilder,
    select: &SelectStmt,
    ctx: Ctx,
    outputs: &Vec<Output>,
    limit_reg: Option<i32>,
    offset_reg: Option<i32>,
) -> (r: Result<(), Error>)
    ensures
        emitted(
            r,
            final(b)@,
            gen_scan_ordered(
                old(b)@,
                select@,
                ctx@,
                ctx.cursor,
                outputs_view(outputs@),
                limit_reg,
                offset_reg,
            ),
        ),
        r is Ok ==> steady(old(b)@, final(b)@),
{
    broadcast use filter_stuck;

    reveal(gen_scan_ordered);
    let cursor: i32 = ctx.cursor;
    let ncol: i32 = outputs.len() as i32;
    let nkey: i32 = select.order_by.len() as i32;
    let width: i32 = nkey.wrapping_add(ncol);
    assert(select@.order_by == ordering_terms_view(select.order_by@));
    b.emit_p4(Opcode::SorterOpen, 1, width, 0, P4::KeyInfo(key_info_of(&select.order_by)));
    b.note_cursor(1);
    let end_scan = b.new_label();
    b.emit_jump(Opcode::Rewind, cursor, end_scan, 0);
    let scan_top: i32 = b.cur_addr();
    let scan_next = b.new_label();
    if let Err(err) = compile_filter(b, &select.where_clause, scan_next, ctx) {
        return Err(err);
    }
    let block: i32 = b.alloc_regs(width);
    if let Err(err) = compile_order_keys(b, &select.order_by, outputs, block, ctx) {
        return Err(err);
    }
    if let Err(err) = compile_outputs(b, outputs, block.wrapping_add(nkey), ctx) {
        return Err(err);
    }
    let rec: i32 = b.alloc_reg();
    b.emit(Opcode::MakeRecord, block, width, rec);
    b.emit(Opcode::SorterInsert, 1, rec, 0);
    b.resolve(scan_next);
    b.emit(Opcode::Next, cursor, scan_top, 0);
    b.resolve(end_scan);
    let end_out = b.new_label();
    emit_sort_tail(b, 1, nkey, ncol, limit_reg, offset_reg, end_out);
    b.resolve(end_out);
    b.emit(Opcode::Halt, 0, 0, 0);
    Ok(())
}

/// Compile a table scan, with its `ORDER BY`, `LIMIT` and `OFFSET`.
pub fn compile_scan(
    select: &SelectStmt,
    table: &Table,
    outputs: &Vec<Output>,
    limit: Option<i64>,
    offset: i64,
    functions: &Functions,
) -> (r: Result<Program, Error>)
    ensures
        built(
            r,
            gen_scan(select@, table@, outputs_view(outputs@), limit, offset, functions@),
        ),
{
    reveal(gen_scan);
    let (mut b, setup, after_init) = begin();
    if let Some(n) = limit {
        if n == 0 {
            b.emit(Opcode::Halt, 0, 0, 0);
            return Ok(end(b, setup, after_init));
        }
    }
    let lreg = emit_limit(&mut b, limit);
    let oreg = emit_offset(&mut b, offset);
    open_table(&mut b, Opcode::OpenRead, 0, table);
    let ctx = over_table(table, 0, functions);
    assert(select@.order_by == ordering_terms_view(select.order_by@));
    if select.order_by.len() == 0 {
        if let Err(err) = compile_scan_unordered(&mut b, select, ctx, outputs, lreg, oreg) {
            return Err(err);
        }
    } else {
        if let Err(err) = compile_scan_ordered(&mut b, select, ctx, outputs, lreg, oreg) {
            return Err(err);
        }
    }
    Ok(end(b, setup, after_init))
}

// ---- SELECT without FROM ----

/// The program of a `SELECT` without a `FROM` clause: one row, or none where the limit is zero
/// or rows are skipped.
#[verifier::opaque]
pub open spec fn gen_constant(
    select: SelectStmtView,
    outputs: Seq<(ExprView, Seq<char>)>,
    limit: Option<i64>,
    offset: i64,
    functions: FunctionsView,
) -> Asm {
    let ctx = table_ctx(TableView::nothing(), NO_CURSOR, functions);
    let ncol = outputs.len() as i32;
    let s = prologue();
    gen_bare_epilogue(
        if limit == Some(0i64) || offset > 0 {
            s.emit(Opcode::Halt, 0, 0, 0)
        } else {
            let end = s.fresh();
            let s = gen_filter(s.label(), select.where_clause, end, ctx);
            let result = s.next_reg;
            gen_expr_list(s.take_regs(ncol), exprs_of(outputs), result, ctx, 0).emit(
                Opcode::ResultRow,
                result,
                ncol,
                0,
            ).bind(end).emit(Opcode::Halt, 0, 0, 0)
        },
    )
}

/// Whether a limit is zero.
fn is_zero(limit: Option<i64>) -> (r: bool)
    ensures
        r == (limit == Some(0i64)),
{
    match limit {
        Some(n) => n == 0,
        None => false,
    }
}

/// Compile a `SELECT` without a `FROM` clause.
pub fn compile_constant(
    select: &SelectStmt,
    outputs: &Vec<Output>,
    limit: Option<i64>,
    offset: i64,
    functions: &Functions,
) -> (r: Result<Program, Error>)
    ensures
        built(r, gen_constant(select@, outputs_view(outputs@), limit, offset, functions@)),
{
    broadcast use filter_stuck;

    reveal(gen_constant);
    let empty = Table::nothing();
    let ctx = over_table(&empty, NO_CURSOR, functions);
    let ncol: i32 = outputs.len() as i32;
    let (mut b, setup, after_init) = begin();
    if !(is_zero(limit) || offset > 0) {
        let end = b.new_label();
        if let Err(err) = compile_filter(&mut b, &select.where_clause, end, ctx) {
            return Err(err);
        }
        let result_reg: i32 = b.alloc_regs(ncol);
        if let Err(err) = compile_outputs(&mut b, outputs, result_reg, ctx) {
            return Err(err);
        }
        b.emit(Opcode::ResultRow, result_reg, ncol, 0);
        b.resolve(end);
    }
    b.emit(Opcode::Halt, 0, 0, 0);
    Ok(end_bare(b, setup, after_init))
}

// ---- VALUES ----

/// The first row from `k` on that has not `ncol` values, as a message.
pub open spec fn ragged_from(rows: Seq<Seq<ExprView>>, ncol: int, k: int) -> Option<Seq<char>>
    decreases rows.len() - k,
{
    if k < 0 || k >= rows.len() {
        None
    } else if rows[k].len() != ncol {
        Some(
            "all VALUES must have the same number of terms - "@ + int_text(rows[k].len() as int)
                + " vs "@ + int_text(ncol),
        )
    } else {
        ragged_from(rows, ncol, k + 1)
    }
}

/// The rows from the `k`-th on, each put out as it is computed. A row that fails the condition or
/// that the offset skips leads on to the next one.
pub open spec fn gen_rows(
    s: Asm,
    rows: Seq<Seq<ExprView>>,
    condition: Option<ExprView>,
    ncol: i32,
    limit: Option<i32>,
    offset: Option<i32>,
    end: int,
    ctx: CtxView,
    k: int,
) -> Asm
    decreases rows.len() - k,
{
    if s.err is Some || k < 0 || k >= rows.len() {
        s
    } else {
        let next = s.fresh();
        let s = gen_skip(gen_filter(s.label(), condition, next, ctx), offset, next);
        let result = s.next_reg;
        let s = gen_expr_list(s.take_regs(ncol), rows[k], result, ctx, 0).emit(
            Opcode::ResultRow,
            result,
            ncol,
            0,
        );
        gen_rows(
            gen_stop(s, limit, end).bind(next),
            rows,
            condition,
            ncol,
            limit,
            offset,
            end,
            ctx,
            k + 1,
        )
    }
}

/// The outputs of one row: its values under the titles of the columns.
pub open spec fn row_outputs(row: Seq<ExprView>, outputs: Seq<(ExprView, Seq<char>)>) -> Seq<
    (ExprView, Seq<char>),
> {
    Seq::new(outputs.len(), |j: int| (row[j], outputs[j].1))
}

/// The rows from the `k`-th on, each put into the sorter behind its own sort keys.
pub open spec fn gen_sorted_rows(
    s: Asm,
    rows: Seq<Seq<ExprView>>,
    select: SelectStmtView,
    outputs: Seq<(ExprView, Seq<char>)>,
    ctx: CtxView,
    k: int,
) -> Asm
    decreases rows.len() - k,
{
    if s.err is Some || k < 0 || k >= rows.len() {
        s
    } else {
        let nkey = select.order_by.len() as i32;
        let width = nkey.wrapping_add(outputs.len() as i32);
        let next = s.fresh();
        let s = gen_filter(s.label(), select.where_clause, next, ctx);
        let block = s.next_reg;
        let s = gen_order_keys(
            s.take_regs(width),
            select.order_by,
            row_outputs(rows[k], outputs),
            block,
            ctx,
            0,
        );
        let s = gen_expr_list(s, rows[k], block.wrapping_add(nkey), ctx, 0);
        let rec = s.next_reg;
        gen_sorted_rows(
            s.take_regs(1).emit(Opcode::MakeRecord, block, width, rec).emit(
                Opcode::SorterInsert,
                0,
                rec,
                0,
            ).bind(next),
            rows,
            select,
            outputs,
            ctx,
            k + 1,
        )
    }
}

/// The program of a `VALUES` body.
#[verifier::opaque]
pub open spec fn gen_values(
    select: SelectStmtView,
    outputs: Seq<(ExprView, Seq<char>)>,
    limit: Option<i64>,
    offset: i64,
    functions: FunctionsView,
) -> Asm {
    match ragged_from(select.values, outputs.len() as int, 0) {
        Some(m) => prologue().fail(m),
        None => {
            let ctx = table_ctx(TableView::nothing(), NO_CURSOR, functions);
            let ncol = outputs.len() as i32;
            let nkey = select.order_by.len() as i32;
            let s0 = prologue();
            let s1 = gen_limit(s0, limit);
            let s = gen_offset(s1, offset);
            let lreg = limit_reg(s0, limit);
            let oreg = offset_reg(s1, offset);
            gen_bare_epilogue(
                (if limit == Some(0i64) {
                    s
                } else {
                    let end = s.fresh();
                    let s = s.label();
                    (if select.order_by.len() == 0 {
                        gen_rows(
                            s,
                            select.values,
                            select.where_clause,
                            ncol,
                            lreg,
                            oreg,
                            end,
                            ctx,
                            0,
                        )
                    } else {
                        let s = s.emit_p4(
                            Opcode::SorterOpen,
                            0,
                            nkey.wrapping_add(ncol),
                            0,
                            P4View::KeyInfo(order_key_info(select.order_by)),
                        ).note_cursor(0);
                        let s = gen_sorted_rows(s, select.values, select, outputs, ctx, 0);
                        gen_sort_tail(s, 0, nkey, ncol, lreg, oreg, end)
                    }).bind(end)
                }).emit(Opcode::Halt, 0, 0, 0),
            )
        },
    }
}

fn compile_rows(
    b: &mut ProgramBuilder,
    rows: &Vec<Vec<Expr>>,
    condition: &Option<Expr>,
    ncol: i32,
    limit_reg: Option<i32>,
    offset_reg: Option<i32>,
    end: Label,
    ctx: Ctx,
) -> (r: Result<(), Error>)
    requires
        0 <= end.id() < old(b)@.fresh(),
    ensures
        emitted(
            r,
            final(b)@,
            gen_rows(
                old(b)@,
                expr_rows_view(rows@),
                opt_expr_view(*condition),
                ncol,
                limit_reg,
                offset_reg,
                end.id(),
                ctx@,
                0,
            ),
        ),
        r is Ok ==> heads_for(old(b)@, final(b)@, end.id()),
{
    let ghost rv = expr_rows_view(rows@);
    let ghost cv = opt_expr_view(*condition);
    let ghost want = gen_rows(b@, rv, cv, ncol, limit_reg, offset_reg, end.id(), ctx@, 0);
    for k in 0..rows.len()
        invariant
            rv == expr_rows_view(rows@),
            cv == opt_expr_view(*condition),
            want == gen_rows(old(b)@, rv, cv, ncol, limit_reg, offset_reg, end.id(), ctx@, 0),
            gen_rows(b@, rv, cv, ncol, limit_reg, offset_reg, end.id(), ctx@, k as int) == want,
            0 <= end.id() < old(b)@.fresh(),
            heads_for(old(b)@, b@, end.id()),
    {
        broadcast use filter_stuck;

        reveal_with_fuel(gen_rows, 2);
        assert(rv[k as int] == exprs_view(rows@[k as int]@));
        let next = b.new_label();
        if let Err(err) = compile_filter(b, condition, next, ctx) {
            return Err(err);
        }
        if let Some(oreg) = offset_reg {
            b.emit_jump(Opcode::IfPos, oreg, next, 1);
        }
        let result_reg: i32 = b.alloc_regs(ncol);
        if let Err(err) = compile_list(b, &rows[k], result_reg, ctx) {
            return Err(err);
        }
        b.emit(Opcode::ResultRow, result_reg, ncol, 0);
        if let Some(lreg) = limit_reg {
            b.emit_jump(Opcode::DecrJumpZero, lreg, end, 0);
        }
        b.resolve(next);
    }
    Ok(())
}

fn outputs_of_row(row: &Vec<Expr>, outputs: &Vec<Output>) -> (r: Vec<Output>)
    requires
        row@.len() == outputs@.len(),
    ensures
        outputs_view(r@) == row_outputs(exprs_view(row@), outputs_view(outputs@)),
{
    let ghost want = row_outputs(exprs_view(row@), outputs_view(outputs@));
    let mut r: Vec<Output> = Vec::new();
    for j in 0..row.len()
        invariant
            row@.len() == outputs@.len(),
            want == row_outputs(exprs_view(row@), outputs_view(outputs@)),
            r@.len() == j,
            forall|i: int| 0 <= i < j ==> (#[trigger] r@[i]).0@ == want[i].0 && r@[i].1@ == want[i].1,
    {
        r.push((row[j].clone(), outputs[j].1.clone()));
    }
    assert(outputs_view(r@) =~= want);
    r
}

fn compile_sorted_rows(
    b: &mut ProgramBuilder,
    select: &SelectStmt,
    outputs: &Vec<Output>,
    ctx: Ctx,
) -> (r: Result<(), Error>)
    requires
        forall|k: int|
            0 <= k < select.values@.len() ==> (#[trigger] select.values@[k])@.len()
                == outputs@.len(),
    ensures
        emitted(
            r,
            final(b)@,
            gen_sorted_rows(
                old(b)@,
                select@.values,
                select@,
                outputs_view(outputs@),
                ctx@,
                0,
            ),
        ),
        r is Ok ==> steady(old(b)@, final(b)@),
{
    let nkey: i32 = select.order_by.len() as i32;
    let width: i32 = nkey.wrapping_add(outputs.len() as i32);
    let ghost sv = select@;
    let ghost rv = sv.values;
    let ghost ov = outputs_view(outputs@);
    let ghost want = gen_sorted_rows(b@, rv, sv, ov, ctx@, 0);
    assert(sv.order_by == ordering_terms_view(select.order_by@));
    assert(rv == expr_rows_view(select.values@));
    for k in 0..select.values.len()
        invariant
            sv == select@,
            rv == expr_rows_view(select.values@),
            ov == outputs_view(outputs@),
            sv.order_by == ordering_terms_view(select.order_by@),
            sv.where_clause == opt_expr_view(select.where_clause),
            nkey == sv.order_by.len() as i32,
            width == nkey.wrapping_add(ov.len() as i32),
            want == gen_sorted_rows(old(b)@, rv, sv, ov, ctx@, 0),
            gen_sorted_rows(b@, rv, sv, ov, ctx@, k as int) == want,
            forall|j: int|
                0 <= j < select.values@.len() ==> (#[trigger] select.values@[j])@.len()
                    == outputs@.len(),
            steady(old(b)@, b@),
    {
        broadcast use filter_stuck;

        reveal_with_fuel(gen_sorted_rows, 2);
        assert(rv[k as int] == exprs_view(select.values@[k as int]@));
        let next = b.new_label();
        if let Err(err) = compile_filter(b, &select.where_clause, next, ctx) {
            return Err(err);
        }
        let block: i32 = b.alloc_regs(width);
        let here = outputs_of_row(&select.values[k], outputs);
        if let Err(err) = compile_order_keys(b, &select.order_by, &here, block, ctx) {
            return Err(err);
        }
        if let Err(err) = compile_list(b, &select.values[k], block.wrapping_add(nkey), ctx) {
            return Err(err);
        }
        let rec: i32 = b.alloc_reg();
        b.emit(Opcode::MakeRecord, block, width, rec);
        b.emit(Opcode::SorterInsert, 0, rec, 0);
        b.resolve(next);
    }
    Ok(())
}

fn check_rows(rows: &Vec<Vec<Expr>>, ncol: usize) -> (r: Result<(), Error>)
    ensures
        match r {
            Ok(_) => ragged_from(expr_rows_view(rows@), ncol as int, 0) is None,
            Err(m) => ragged_from(expr_rows_view(rows@), ncol as int, 0) == Some(m@),
        },
        r is Ok ==> forall|k: int| 0 <= k < rows@.len() ==> (#[trigger] rows@[k])@.len() == ncol,
{
    let ghost rv = expr_rows_view(rows@);
    for k in 0..rows.len()
        invariant
            rv == expr_rows_view(rows@),
            ragged_from(rv, ncol as int, 0) == ragged_from(rv, ncol as int, k as int),
            forall|j: int| 0 <= j < k ==> (#[trigger] rows@[j])@.len() == ncol,
    {
        assert(rv[k as int] == exprs_view(rows@[k as int]@));
        if rows[k].len() != ncol {
            return Err(
                Error::msg(
                    cat4(
                        "all VALUES must have the same number of terms - ",
                        decimal_u64(rows[k].len() as u64).as_str(),
                        " vs ",
                        decimal_u64(ncol as u64).as_str(),
                    ),
                ),
            );
        }
    }
    Ok(())
}

/// Compile a `VALUES` body.
pub fn compile_values(
    select: &SelectStmt,
    outputs: &Vec<Output>,
    limit: Option<i64>,
    offset: i64,
    functions: &Functions,
) -> (r: Result<Program, Error>)
    ensures
        built(r, gen_values(select@, outputs_view(outputs@), limit, offset, functions@)),
{
    reveal(gen_values);
    assert(select@.values == expr_rows_view(select.values@));
    assert(select@.order_by == ordering_terms_view(select.order_by@));
    let (mut b, setup, after_init) = begin();
    if let Err(err) = check_rows(&select.values, outputs.len()) {
        return Err(err);
    }
    let empty = Table::nothing();
    let ctx = over_table(&empty, NO_CURSOR, functions);
    let ncol: i32 = outputs.len() as i32;
    let lreg = emit_limit(&mut b, limit);
    let oreg = emit_offset(&mut b, offset);
    if !is_zero(limit) {
        let end = b.new_label();
        if select.order_by.len() == 0 {
            if let Err(err) = compile_rows(
                &mut b,
                &select.values,
                &select.where_clause,
                ncol,
                lreg,
                oreg,
                end,
                ctx,
            ) {
                return Err(err);
            }
        } else {
            let nkey: i32 = select.order_by.len() as i32;
            b.emit_p4(
                Opcode::SorterOpen,
                0,
                nkey.wrapping_add(ncol),
                0,
                P4::KeyInfo(key_info_of(&select.order_by)),
            );
            b.note_cursor(0);
            if let Err(err) = compile_sorted_rows(&mut b, select, outputs, ctx) {
                return Err(err);
            }
            emit_sort_tail(&mut b, 0, nkey, ncol, lreg, oreg, end);
        }
        b.resolve(end);
    }
    b.emit(Opcode::Halt, 0, 0, 0);
    Ok(end_bare(b, setup, after_init))
}

} // verus!
