//! A `SELECT` that reads an index.
use vstd::prelude::*;

use crate::ast::{ordering_terms_view, ExprView, SelectStmt, SelectStmtView};
use crate::builder::{reg_at, reg_off, Asm, ProgramBuilder};
use crate::columns::{exprs_of, outputs_view, Output};
use crate::emit::{
    begin, built, compile_order_keys, compile_outputs, emit_limit, emit_offset, emit_sort_tail, end,
    gen_epilogue, gen_limit, gen_offset, gen_order_keys, gen_skip, gen_sort_tail, gen_stop,
    key_info_of, limit_reg, offset_reg, order_key_info, prologue, sort_tail_stuck,
};
use crate::expr::{gen_expr_list, gen_int};
use crate::index_planner::{
    covers, holds_from, keys_view, pinned_keys, IndexPlan, IndexPlanView, RangeKey, RangeKeyView,
};
use crate::schema::{
    index_columns_view, Functions, FunctionsView, IndexColumnView, IndexObject, IndexView, Table,
    TableView,
};
use crate::scope::{over_table, steady, table_ctx, Ctx, CtxView, IndexRead, IndexReadView};
use crate::scan::{
    compile_filter, distinct_stuck, emit_distinct, filter_stuck, gen_distinct, gen_filter,
    gen_open_distinct, group_select, open_distinct,
};
use crate::text::{clone_bytes, Error};
use crate::vdbe::{Opcode, P4, P4View, Program, Value, ValueView};

verus! {

broadcast use group_select;

/// The positions `acc`, then those of the index columns from `j` on: a column of the table that
/// is at position `j` of the index is read from there.
pub open spec fn positions_from(
    acc: Seq<usize>,
    cols: Seq<IndexColumnView>,
    t: TableView,
    j: int,
) -> Seq<usize>
    decreases cols.len() - j,
{
    if j < 0 || j >= cols.len() {
        acc
    } else {
        positions_from(
            match t.column_index(cols[j].name) {
                Some(c) => acc.update(c as int, j as usize),
                None => acc,
            },
            cols,
            t,
            j + 1,
        )
    }
}

/// Where each column of the table stands in an index entry; the rowid comes last.
#[verifier::opaque]
pub open spec fn positions(t: TableView, ix: IndexView) -> Seq<usize> {
    let plain = positions_from(
        Seq::new(t.columns.len(), |i: int| usize::MAX),
        ix.columns,
        t,
        0,
    );
    match t.rowid_alias {
        Some(a) => plain.update(a as int, ix.columns.len() as usize),
        None => plain,
    }
}

/// A referenced column of a table can be read from an index that covers the references: its
/// position in an index entry is that of an index column of its name, or that of the rowid.
pub proof fn law_covered_columns_have_positions(t: TableView, ix: IndexView, refs: Seq<usize>, k: int)
    requires
        t.wf(),
        ix.columns.len() < usize::MAX,
        covers(ix.columns, t, refs),
        0 <= k < refs.len(),
        refs[k] < t.columns.len(),
    ensures
        positions(t, ix).len() == t.columns.len(),
        ({
            let at = positions(t, ix)[refs[k] as int];
            if t.rowid_alias == Some(refs[k]) {
                at == ix.columns.len()
            } else {
                at < ix.columns.len() && t.column_index(ix.columns[at as int].name) == Some(refs[k])
            }
        }),
{
    reveal(positions);
    reveal(covers);
    let none = Seq::new(t.columns.len(), |i: int| usize::MAX);
    lemma_positions(none, ix.columns, t, refs[k], 0);
}

proof fn lemma_positions(
    acc: Seq<usize>,
    cols: Seq<IndexColumnView>,
    t: TableView,
    c: usize,
    j: int,
)
    requires
        0 <= j,
        acc.len() == t.columns.len() <= usize::MAX,
        cols.len() < usize::MAX,
        c < t.columns.len(),
    ensures
        ({
            let r = positions_from(acc, cols, t, j);
            &&& r.len() == acc.len()
            &&& r[c as int] == acc[c as int] || (r[c as int] < cols.len() && t.column_index(
                cols[r[c as int] as int].name,
            ) == Some(c))
            &&& holds_from(cols, t, c, j) ==> r[c as int] < cols.len() && t.column_index(
                cols[r[c as int] as int].name,
            ) == Some(c)
        }),
    decreases cols.len() - j,
{
    if j < cols.len() {
        let next = match t.column_index(cols[j].name) {
            Some(x) => acc.update(x as int, j as usize),
            None => acc,
        };
        crate::schema::lemma_column_from(t.columns, cols[j].name, 0);
        lemma_positions(next, cols, t, c, j + 1);
    }
}

/// Where each column of the table stands in an index entry.
pub fn build_index_column_positions(table: &Table, index: &IndexObject) -> (r: Vec<usize>)
    requires
        table@.rowid_alias matches Some(a) ==> a < table@.columns.len(),
    ensures
        r@ == positions(table@, index@),
{
    reveal(positions);
    let n: usize = table.columns.len();
    let mut out: Vec<usize> = Vec::new();
    for i in 0..n
        invariant
            out@ == Seq::new(i as nat, |k: int| usize::MAX),
    {
        out.push(usize::MAX);
        assert(out@ =~= Seq::new((i + 1) as nat, |k: int| usize::MAX));
    }
    let ghost cols = index@.columns;
    let ghost want = positions_from(out@, cols, table@, 0);
    assert(out@ =~= Seq::new(table@.columns.len(), |i: int| usize::MAX));
    for j in 0..index.columns.len()
        invariant
            cols == index_columns_view(index.columns@),
            cols == index@.columns,
            out@.len() == table@.columns.len(),
            positions_from(out@, cols, table@, j as int) == want,
    {
        assert(cols[j as int] == index.columns@[j as int]@);
        if let Some(c) = table.column_index(index.columns[j].name.as_str()) {
            out.set(c, j);
        }
    }
    if let Some(a) = table.rowid_alias {
        out.set(a, index.nkey_fields());
    }
    out
}

/// A constant into `target`.
#[verifier::opaque]
pub open spec fn gen_value(s: Asm, v: ValueView, target: i32) -> Asm {
    match v {
        ValueView::Null => s.emit(Opcode::Null, 0, target, 0),
        ValueView::Int(n) => gen_int(s, n, target),
        ValueView::Real(r) => s.emit_p4(Opcode::Real, 0, target, 0, P4View::Real(r)),
        ValueView::Text(t) => s.emit_p4(Opcode::String8, 0, target, 0, P4View::Text(t)),
        ValueView::Blob(b) => s.emit_p4(Opcode::Blob, 0, target, 0, P4View::Blob(b)),
    }
}

/// Load a constant value into `target`.
pub fn emit_value_load(b: &mut ProgramBuilder, v: &Value, target: i32)
    ensures
        final(b)@ == gen_value(old(b)@, v@, target),
        steady(old(b)@, final(b)@),
{
    reveal(gen_value);
    match v {
        Value::Null => {
            b.emit(Opcode::Null, 0, target, 0);
        },
        Value::Int(n) => {
            crate::expr::emit_constant(b, *n, target);
        },
        Value::Real(r) => {
            b.emit_p4(Opcode::Real, 0, target, 0, P4::Real(*r));
        },
        Value::Text(s) => {
            b.emit_p4(Opcode::String8, 0, target, 0, P4::Text(s.clone()));
        },
        Value::Blob(bytes) => {
            b.emit_p4(Opcode::Blob, 0, target, 0, P4::Blob(clone_bytes(bytes)));
        },
    }
}

/// The values of the keys from the `k`-th on, each into its own register after `base`.
pub open spec fn gen_key(s: Asm, keys: Seq<RangeKeyView>, base: i32, k: int) -> Asm
    decreases keys.len() - k,
{
    if s.err is Some || k < 0 || k >= keys.len() {
        s
    } else {
        gen_key(gen_value(s, keys[k].value, reg_at(base, k)), keys, base, k + 1)
    }
}

fn emit_key(b: &mut ProgramBuilder, keys: &Vec<RangeKey>, base: i32)
    ensures
        final(b)@ == gen_key(old(b)@, keys_view(keys@), base, 0),
        steady(old(b)@, final(b)@),
{
    let ghost ks = keys_view(keys@);
    let ghost want = gen_key(b@, ks, base, 0);
    for k in 0..keys.len()
        invariant
            ks == keys_view(keys@),
            gen_key(b@, ks, base, k as int) == want,
            steady(old(b)@, b@),
    {
        assert(ks[k as int] == keys@[k as int]@);
        emit_value_load(b, &keys[k].value, reg_off(base, k));
    }
}

/// The context of expressions whose columns are read from the index on cursor 0.
#[verifier::opaque]
pub open spec fn covering_ctx(t: TableView, ix: IndexView, functions: FunctionsView) -> CtxView {
    CtxView {
        table: t,
        cursor: 0,
        register_base: None,
        index_read: Some(
            IndexReadView {
                cursor: 0,
                positions: positions(t, ix),
                rowid_position: ix.columns.len() as usize,
            },
        ),
        join_tables: None,
        outer: None,
        functions,
    }
}

/// The index scan: seek to the first entry with the pinned values, or start at the first entry;
/// for each entry look the row up in the table unless the index covers the query, test the
/// `WHERE` clause and put the row out. A duplicate counts toward neither counter.
#[verifier::opaque]
pub open spec fn gen_index_scan(
    s: Asm,
    select: SelectStmtView,
    plan: IndexPlanView,
    outputs: Seq<(ExprView, Seq<char>)>,
    limit: Option<i32>,
    offset: Option<i32>,
    ctx: CtxView,
) -> Asm {
    let ncol = outputs.len() as i32;
    let keys = pinned_keys(plan.range, plan.range.len() as int);
    let nkey = keys.len() as i32;
    let key = s.next_reg;
    let s = if keys.len() > 0 {
        gen_key(s.take_regs(nkey), keys, key, 0)
    } else {
        s
    };
    let end = s.fresh();
    let s = s.label();
    let s = if keys.len() > 0 {
        s.jump_p45(Opcode::SeekGE, 0, end, key, P4View::Int(nkey as i64), 0)
    } else {
        s.jump(Opcode::Rewind, 0, end, 0)
    };
    let s = gen_open_distinct(s, select.distinct, 2, ncol);
    let top = s.fresh();
    let s = s.label().bind(top);
    let s = if keys.len() > 0 {
        s.jump_p45(Opcode::IdxGT, 0, end, key, P4View::Int(nkey as i64), 0)
    } else {
        s
    };
    let next = s.fresh();
    let s = s.label();
    let s = if plan.covering {
        s
    } else {
        s.take_regs(1).emit(Opcode::IdxRowid, 0, s.next_reg, 0).jump(
            Opcode::NotExists,
            1,
            next,
            s.next_reg,
        )
    };
    let s = gen_filter(s, select.where_clause, next, ctx);
    let result = s.next_reg;
    let s = gen_expr_list(s.take_regs(ncol), exprs_of(outputs), result, ctx, 0);
    let s = gen_distinct(s, select.distinct, 2, next, result, ncol);
    let s = gen_skip(s, offset, next).emit(Opcode::ResultRow, result, ncol, 0);
    gen_stop(s, limit, end).bind(next).jump(Opcode::Next, 0, top, 0).bind(end).emit(
        Opcode::Halt,
        0,
        0,
        0,
    )
}

/// The cursor of the sorter behind an index scan.
pub const INDEX_SORTER: i32 = 2;

/// The index scan with its rows put into a sorter and then put out in order.
#[verifier::opaque]
pub open spec fn gen_index_sorted(
    s: Asm,
    select: SelectStmtView,
    plan: IndexPlanView,
    outputs: Seq<(ExprView, Seq<char>)>,
    limit: Option<i32>,
    offset: Option<i32>,
    ctx: CtxView,
) -> Asm {
    let ncol = outputs.len() as i32;
    let norder = select.order_by.len() as i32;
    let width = norder.wrapping_add(ncol);
    let keys = pinned_keys(plan.range, plan.range.len() as int);
    let nkey = keys.len() as i32;
    let s = s.emit_p4(
        Opcode::SorterOpen,
        INDEX_SORTER,
        width,
        0,
        P4View::KeyInfo(order_key_info(select.order_by)),
    ).note_cursor(INDEX_SORTER);
    let key = s.next_reg;
    let s = if keys.len() > 0 {
        gen_key(s.take_regs(nkey), keys, key, 0)
    } else {
        s
    };
    let end_scan = s.fresh();
    let s = s.label();
    let s = if keys.len() > 0 {
        s.jump_p45(Opcode::SeekGE, 0, end_scan, key, P4View::Int(nkey as i64), 0)
    } else {
        s.jump(Opcode::Rewind, 0, end_scan, 0)
    };
    let top = s.fresh();
    let s = s.label().bind(top);
    let s = if keys.len() > 0 {
        s.jump_p45(Opcode::IdxGT, 0, end_scan, key, P4View::Int(nkey as i64), 0)
    } else {
        s
    };
    let next = s.fresh();
    let s = s.label();
    let s = if plan.covering {
        s
    } else {
        s.take_regs(1).emit(Opcode::IdxRowid, 0, s.next_reg, 0).jump(
            Opcode::NotExists,
            1,
            next,
            s.next_reg,
        )
    };
    let s = gen_filter(s, select.where_clause, next, ctx);
    let block = s.next_reg;
    let s = gen_order_keys(s.take_regs(width), select.order_by, outputs, block, ctx, 0);
    let s = gen_expr_list(s, exprs_of(outputs), block.wrapping_add(norder), ctx, 0);
    let rec = s.next_reg;
    let s = s.take_regs(1).emit(Opcode::MakeRecord, block, width, rec).emit(
        Opcode::SorterInsert,
        INDEX_SORTER,
        rec,
        0,
    ).bind(next).jump(Opcode::Next, 0, top, 0).bind(end_scan);
    let end = s.fresh();
    gen_sort_tail(s.label(), INDEX_SORTER, norder, ncol, limit, offset, end).bind(end).emit(
        Opcode::Halt,
        0,
        0,
        0,
    )
}

/// The program of a `SELECT` that reads an index. Where the index does not give the order that
/// the query asks for, its rows are sorted.
#[verifier::opaque]
pub open spec fn gen_indexed(
    select: SelectStmtView,
    table: TableView,
    plan: IndexPlanView,
    outputs: Seq<(ExprView, Seq<char>)>,
    limit: Option<i64>,
    offset: i64,
    functions: FunctionsView,
) -> Asm {
    if limit == Some(0i64) {
        gen_epilogue(prologue().emit(Opcode::Halt, 0, 0, 0))
    } else {
        let s0 = prologue();
        let s1 = gen_limit(s0, limit);
        let s = gen_offset(s1, offset);
        let s = if plan.covering {
            s
        } else {
            s.emit_p4(
                Opcode::OpenRead,
                1,
                table.rootpage as i32,
                0,
                P4View::Int(table.columns.len() as i64),
            ).note_cursor(1)
        };
        let s = s.emit_p4(
            Opcode::OpenRead,
            0,
            plan.index.rootpage as i32,
            0,
            P4View::KeyInfo(plan.index.key_info()),
        ).note_cursor(0);
        let ctx = if plan.covering {
            covering_ctx(table, plan.index, functions)
        } else {
            table_ctx(table, 1, functions)
        };
        let lreg = limit_reg(s0, limit);
        let oreg = offset_reg(s1, offset);
        gen_epilogue(
            if select.order_by.len() > 0 && !plan.order_by_satisfied {
                gen_index_sorted(s, select, plan, outputs, lreg, oreg, ctx)
            } else {
                gen_index_scan(s, select, plan, outputs, lreg, oreg, ctx)
            },
        )
    }
}

fn compile_index_scan(
    b: &mut ProgramBuilder,
    select: &SelectStmt,
    plan: &IndexPlan,
    outputs: &Vec<Output>,
    limit_reg: Option<i32>,
    offset_reg: Option<i32>,
    ctx: Ctx,
) -> (r: Result<(), Error>)
    ensures
        crate::scope::emitted(
            r,
            final(b)@,
            gen_index_scan(
                old(b)@,
                select@,
                plan@,
                outputs_view(outputs@),
                limit_reg,
                offset_reg,
                ctx@,
            ),
        ),
        r is Ok ==> steady(old(b)@, final(b)@),
{
    broadcast use distinct_stuck;

    reveal(gen_index_scan);
    let ncol: i32 = outputs.len() as i32;
    let keys = plan.equality_values();
    let nkey: i32 = keys.len() as i32;
    let seeks = keys.len() > 0;
    let mut key_reg: i32 = b.next_reg();
    if seeks {
        key_reg = b.alloc_regs(nkey);
        emit_key(b, &keys, key_reg);
    }
    let end_seek = b.new_label();
    if seeks {
        b.emit_jump_p45(Opcode::SeekGE, 0, end_seek, key_reg, P4::Int(nkey as i64), 0);
    } else {
        b.emit_jump(Opcode::Rewind, 0, end_seek, 0);
    }
    open_distinct(b, select.distinct, 2, ncol);
    let loop_top = b.new_label();
    b.resolve(loop_top);
    if seeks {
        b.emit_jump_p45(Opcode::IdxGT, 0, end_seek, key_reg, P4::Int(nkey as i64), 0);
    }
    let idx_next = b.new_label();
    if !plan.covering {
        let rowid_reg: i32 = b.alloc_reg();
        b.emit(Opcode::IdxRowid, 0, rowid_reg, 0);
        b.emit_jump(Opcode::NotExists, 1, idx_next, rowid_reg);
    }
    if let Err(err) = compile_filter(b, &select.where_clause, idx_next, ctx) {
        return Err(err);
    }
    let result_reg: i32 = b.alloc_regs(ncol);
    if let Err(err) = compile_outputs(b, outputs, result_reg, ctx) {
        return Err(err);
    }
    emit_distinct(b, select.distinct, 2, idx_next, result_reg, ncol);
    if let Some(oreg) = offset_reg {
        b.emit_jump(Opcode::IfPos, oreg, idx_next, 1);
    }
    b.emit(Opcode::ResultRow, result_reg, ncol, 0);
    if let Some(lreg) = limit_reg {
        b.emit_jump(Opcode::DecrJumpZero, lreg, end_seek, 0);
    }
    b.resolve(idx_next);
    b.emit_jump(Opcode::Next, 0, loop_top, 0);
    b.resolve(end_seek);
    b.emit(Opcode::Halt, 0, 0, 0);
    Ok(())
}

fn compile_index_sorted(
    b: &mut ProgramBuilder,
    select: &SelectStmt,
    plan: &IndexPlan,
    outputs: &Vec<Output>,
    limit_reg: Option<i32>,
    offset_reg: Option<i32>,
    ctx: Ctx,
) -> (r: Result<(), Error>)
    ensures
        crate::scope::emitted(
            r,
            final(b)@,
            gen_index_sorted(
                old(b)@,
                select@,
                plan@,
                outputs_view(outputs@),
                limit_reg,
                offset_reg,
                ctx@,
            ),
        ),
        r is Ok ==> steady(old(b)@, final(b)@),
{
    broadcast use {filter_stuck, sort_tail_stuck};

    reveal(gen_index_sorted);
    let ncol: i32 = outputs.len() as i32;
    let norder: i32 = select.order_by.len() as i32;
    let width: i32 = norder.wrapping_add(ncol);
    assert(select@.order_by == ordering_terms_view(select.order_by@));
    let keys = plan.equality_values();
    let nkey: i32 = keys.len() as i32;
    let seeks = keys.len() > 0;
    b.emit_p4(
        Opcode::SorterOpen,
        INDEX_SORTER,
        width,
        0,
        P4::KeyInfo(key_info_of(&select.order_by)),
    );
    b.note_cursor(INDEX_SORTER);
    let mut key_reg: i32 = b.next_reg();
    if seeks {
        key_reg = b.alloc_regs(nkey);
        emit_key(b, &keys, key_reg);
    }
    let end_scan = b.new_label();
    if seeks {
        b.emit_jump_p45(Opcode::SeekGE, 0, end_scan, key_reg, P4::Int(nkey as i64), 0);
    } else {
        b.emit_jump(Opcode::Rewind, 0, end_scan, 0);
    }
    let loop_top = b.new_label();
    b.resolve(loop_top);
    if seeks {
        b.emit_jump_p45(Opcode::IdxGT, 0, end_scan, key_reg, P4::Int(nkey as i64), 0);
    }
    let idx_next = b.new_label();
    if !plan.covering {
        let rowid_reg: i32 = b.alloc_reg();
        b.emit(Opcode::IdxRowid, 0, rowid_reg, 0);
        b.emit_jump(Opcode::NotExists, 1, idx_next, rowid_reg);
    }
    if let Err(err) = compile_filter(b, &select.where_clause, idx_next, ctx) {
        return Err(err);
    }
    let block: i32 = b.alloc_regs(width);
    if let Err(err) = compile_order_keys(b, &select.order_by, outputs, block, ctx) {
        return Err(err);
    }
    if let Err(err) = compile_outputs(b, outputs, block.wrapping_add(norder), ctx) {
        return Err(err);
    }
    let rec: i32 = b.alloc_reg();
    b.emit(Opcode::MakeRecord, block, width, rec);
    b.emit(Opcode::SorterInsert, INDEX_SORTER, rec, 0);
    b.resolve(idx_next);
    b.emit_jump(Opcode::Next, 0, loop_top, 0);
    b.resolve(end_scan);
    let end_out = b.new_label();
    emit_sort_tail(b, INDEX_SORTER, norder, ncol, limit_reg, offset_reg, end_out);
    b.resolve(end_out);
    b.emit(Opcode::Halt, 0, 0, 0);
    Ok(())
}

/// Compile a `SELECT` that reads an index. The rowid alias, if any, is one of the table's
/// columns.
pub fn compile_indexed_select(
    select: &SelectStmt,
    table: &Table,
    plan: &IndexPlan,
    outputs: &Vec<Output>,
    limit: Option<i64>,
    offset: i64,
    functions: &Functions,
) -> (r: Result<Program, Error>)
    requires
        table@.rowid_alias matches Some(a) ==> a < table@.columns.len(),
    ensures
        built(
            r,
            gen_indexed(
                select@,
                table@,
                plan@,
                outputs_view(outputs@),
                limit,
                offset,
                functions@,
            ),
        ),
{
    reveal(gen_indexed);
    let (mut b, setup, after_init) = begin();
    if let Some(n) = limit {
        if n == 0 {
            b.emit(Opcode::Halt, 0, 0, 0);
            return Ok(end(b, setup, after_init));
        }
    }
    let lreg = emit_limit(&mut b, limit);
    let oreg = emit_offset(&mut b, offset);
    if !plan.covering {
        b.emit_p4(
            Opcode::OpenRead,
            1,
            table.rootpage as i32,
            0,
            P4::Int(table.columns.len() as i64),
        );
        b.note_cursor(1);
    }
    b.emit_p4(
        Opcode::OpenRead,
        0,
        plan.index.rootpage as i32,
        0,
        P4::KeyInfo(plan.index.key_info()),
    );
    b.note_cursor(0);
    let column_positions = build_index_column_positions(table, &plan.index);
    let mut ctx = over_table(table, 1, functions);
    if plan.covering {
        reveal(covering_ctx);
        reveal(table_ctx);
        ctx = Ctx {
            table,
            cursor: 0,
            register_base: None,
            index_read: Some(
                IndexRead {
                    cursor: 0,
                    column_positions: column_positions.as_slice(),
                    rowid_position: plan.index.nkey_fields(),
                },
            ),
            join_tables: None,
            outer: None,
            functions,
        };
    }
    assert(select@.order_by == ordering_terms_view(select.order_by@));
    let done = if select.order_by.len() > 0 && !plan.order_by_satisfied {
        compile_index_sorted(&mut b, select, plan, outputs, lreg, oreg, ctx)
    } else {
        compile_index_scan(&mut b, select, plan, outputs, lreg, oreg, ctx)
    };
    if let Err(err) = done {
        return Err(err);
    }
    Ok(end(b, setup, after_init))
}

} // verus!
