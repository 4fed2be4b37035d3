//! In which order a query with an `ORDER BY` clause puts its rows out.
use vstd::prelude::*;

use crate::ast::{ExprView, OrderingTermView, SelectStmtView};
use crate::builder::{group_asm, reg_at, Asm};
use crate::columns::{exprs_of, order_expr};
use crate::emit::{
    gen_columns, gen_epilogue, gen_limit, gen_offset, gen_open, gen_order_keys, gen_skip,
    gen_sort_tail, gen_stop, limit_reg, offset_reg, order_key_info, prologue,
};
use crate::expr::{gen_expr, gen_expr_list};
use crate::machine::{
    block, field, group_grows, group_settled, grows, lemma_grows_neat, lemma_grows_through,
    lemma_reaches_self, lemma_reaches_through, lemma_settles_early, neat, nth, place, reaches,
    row_field, rows_of, run, settles, Row, State, Val, Values,
};
use crate::meaning::{
    kept, law_table_columns, lemma_advance, lemma_fresh_grows, lemma_list_code, lemma_list_follows,
    lemma_serves_like, lemma_take, lemma_values_from, narrow, serves, table_column, table_row,
    tame_from, value, values_from, weight_from,
};
use crate::rows::{
    condition_weight, counter_fits, law_filter_code, lemma_body_reached, lemma_columns_code,
    lemma_columns_follow, lemma_const_code, lemma_const_follows, lemma_filter_follows,
    lemma_limit_reached, lemma_limited_push, lemma_prologue, limit_of, limited, ready_to_run,
    row_env, skipped, tame_condition,
};
use crate::scan::{filter_stuck, gen_filter, gen_scan, gen_scan_ordered};
use crate::schema::{FunctionsView, TableView};
use crate::scope::{table_ctx, CtxView};
use crate::vdbe::{InstView, KeyField, Opcode, P4View};

verus! {

broadcast use group_asm;

// ---- The rows of a sorter ----

/// The last `ncol` of the `norder + ncol` fields of the first `n` rows.
pub open spec fn tails(rows: Seq<Row>, norder: int, ncol: int, n: int) -> Seq<Seq<Val>> {
    Seq::new(
        n as nat,
        |i: int| Seq::new(ncol as nat, |j: int| row_field(rows[i], norder + j)),
    )
}

/// The end of a sorted query, and what it runs on.
pub ghost struct Tail {
    pub s: Asm,
    pub sorter: i32,
    pub norder: i32,
    pub ncol: i32,
    pub limit_reg: Option<i32>,
    pub offset_reg: Option<i32>,
    pub end: int,
    pub big: Asm,
    pub m: Values,
    pub start: State,
    pub rows: Seq<Row>,
    pub limit: Option<int>,
    pub offset: int,
    /// Behind the sort, at a row, behind the rows to skip, before and behind the columns, behind
    /// the row put out, and behind the limit.
    pub t1: Asm,
    pub t2: Asm,
    pub t3: Asm,
    pub t4: Asm,
    pub t5: Asm,
    pub t6: Asm,
    pub t7: Asm,
    pub next: int,
}

/// The code of the end of a sorted query stands in the program.
pub open spec fn tail_stands(x: Tail) -> bool {
    let code = x.big.program().code;
    &&& x.t1 == x.s.jump(Opcode::SorterSort, x.sorter, x.end, 0)
    &&& x.next == x.t1.fresh()
    &&& x.t2 == x.t1.label().emit(Opcode::SorterData, x.sorter, 0, 0)
    &&& x.t3 == gen_skip(x.t2, x.offset_reg, x.next)
    &&& x.t4 == x.t3.take_regs(x.ncol)
    &&& x.t5 == gen_columns(x.t4, x.sorter, x.norder, x.t3.next_reg, x.ncol as int, 0)
    &&& x.t6 == x.t5.emit(Opcode::ResultRow, x.t3.next_reg, x.ncol, 0)
    &&& x.t7 == gen_stop(x.t6, x.limit_reg, x.end)
    &&& neat(x.s) && neat(x.t1) && neat(x.t2) && neat(x.t3) && neat(x.t4) && neat(x.t5) && neat(
        x.t6,
    )
    &&& settles(x.t1, x.big) && settles(x.t2, x.big) && settles(x.t3, x.big)
    &&& settles(x.t5, x.big) && settles(x.t6, x.big) && settles(x.t7, x.big)
    &&& x.t1.code.len() == x.s.code.len() + 1
    &&& x.t2.code.len() == x.t1.code.len() + 1
    &&& x.t4.code.len() == x.t3.code.len()
    &&& x.t1.code.len() <= x.t7.code.len() < code.len() <= i32::MAX
    &&& place(x.big, x.next) == x.t7.code.len()
    &&& code[x.t1.code.len() as int] == (InstView {
        opcode: Opcode::SorterData,
        p1: x.sorter,
        p2: 0,
        p3: 0,
        p4: P4View::Unused,
        p5: 0,
    })
    &&& code[x.t7.code.len() as int] == (InstView {
        opcode: Opcode::SorterNext,
        p1: x.sorter,
        p2: x.t1.code.len() as i32,
        p3: 0,
        p4: P4View::Unused,
        p5: 0,
    })
    &&& 0 <= x.norder && 0 <= x.ncol && x.norder + x.ncol <= i32::MAX
    &&& 0 <= x.s.next_reg == x.t3.next_reg
    &&& x.s.next_reg + x.ncol <= i32::MAX
    &&& counter_fits(x.limit_reg, x.s) && counter_fits(x.offset_reg, x.s)
    &&& x.limit_reg is Some ==> x.limit_reg != x.offset_reg
    &&& x.limit_reg is Some == x.limit is Some
    &&& x.limit matches Some(n) ==> 0 < n <= i64::MAX
    &&& 0 <= x.offset <= i64::MAX
    &&& x.offset_reg is None ==> x.offset == 0
    &&& x.rows.len() > 0
}

/// The first `n` rows of the sorter have been put out.
pub open spec fn tail_met(x: Tail, st: State, n: int) -> bool {
    let w = tails(x.rows, x.norder as int, x.ncol as int, n);
    &&& !st.halted
    &&& st.error == x.start.error
    &&& rows_of(st, x.sorter) == x.rows
    &&& st.out == x.start.out + limited(w, x.limit, x.offset)
    &&& x.offset_reg matches Some(r) ==> st.regs[r] == Val::Int(
        (if w.len() < x.offset {
            x.offset - w.len()
        } else {
            0
        }) as i64,
    )
    &&& x.limit_reg matches Some(r) ==> limited(w, x.limit, x.offset).len() < x.limit->0
        && st.regs[r] == Val::Int((x.limit->0 - limited(w, x.limit, x.offset).len()) as i64)
}

/// The sorter is done with, or the limit is reached.
pub open spec fn tail_done(x: Tail, st: State) -> bool {
    &&& !st.halted
    &&& st.error == x.start.error
    &&& st.out == x.start.out + limited(
        tails(x.rows, x.norder as int, x.ncol as int, x.rows.len() as int),
        x.limit,
        x.offset,
    )
}

#[verifier::rlimit(50)]
proof fn lemma_tail_row(x: Tail, st: State, i: int) -> (st2: State)
    requires
        tail_stands(x),
        tail_met(x, st, i),
        0 <= i < x.rows.len(),
        st.cursors[x.sorter].at == i,
        st.pc == x.t1.code.len(),
    ensures
        reaches(x.m, x.big.program().code, st, st2),
        st2.pc == x.t1.code.len() && i + 1 < x.rows.len() && tail_met(x, st2, i + 1)
            && st2.cursors[x.sorter].at == i + 1 || (st2.pc == place(x.big, x.end) || st2.pc
            == x.t7.code.len() + 1) && tail_done(x, st2),
{
    broadcast use group_settled;

    reveal(run);
    let m = x.m;
    let code = x.big.program().code;
    let norder = x.norder as int;
    let ncol = x.ncol as int;
    let w = tails(x.rows, norder, ncol, i);
    let v = Seq::new(ncol as nat, |j: int| row_field(x.rows[i], norder + j));
    assert(tails(x.rows, norder, ncol, i + 1) =~= w.push(v));
    lemma_limited_push(w, v, x.limit, x.offset);
    let all = tails(x.rows, norder, ncol, x.rows.len() as int);
    lemma_reaches_self(m, code, st);
    lemma_advance(m, code, st, st, code[st.pc]);
    let a = run(m, code[st.pc], st);
    let b = match x.offset_reg {
        Some(r) => {
            lemma_advance(m, code, st, a, code[a.pc]);
            run(m, code[a.pc], a)
        },
        None => a,
    };
    let d = if w.len() < x.offset {
        b
    } else {
        let row = x.t3.next_reg;
        let c = lemma_columns_code(x.t4, x.sorter, x.norder, row, ncol, m, x.big, b, 0);
        lemma_reaches_through(m, code, st, b, c);
        assert(block(c, row, ncol) =~= v) by {
            assert forall|j: int| 0 <= j < ncol implies c.regs[#[trigger] nth(row, j)] == v[j] by {
                assert(c.regs[nth(row, j)] == field(b, x.sorter, x.norder + j));
            }
        }
        lemma_advance(m, code, st, c, code[c.pc]);
        let e = run(m, code[c.pc], c);
        assert(e.out =~= x.start.out + limited(w.push(v), x.limit, x.offset));
        match x.limit_reg {
            Some(r) => {
                lemma_advance(m, code, st, e, code[e.pc]);
                run(m, code[e.pc], e)
            },
            None => e,
        }
    };
    let stopped = w.len() >= x.offset && x.limit is Some && limited(
        w.push(v),
        x.limit,
        x.offset,
    ).len() == x.limit->0;
    if stopped {
        assert(w.push(v) =~= all.take(i + 1));
        lemma_limit_reached(w.push(v), all, x.limit->0, x.offset);
        d
    } else {
        assert(d.pc == x.t7.code.len());
        assert(tail_met(x, d, i + 1));
        lemma_advance(m, code, st, d, code[d.pc]);
        run(m, code[d.pc], d)
    }
}

proof fn lemma_tail_rows(x: Tail, st: State, i: int) -> (st2: State)
    requires
        tail_stands(x),
        tail_met(x, st, i),
        0 <= i < x.rows.len(),
        st.cursors[x.sorter].at == i,
        st.pc == x.t1.code.len(),
    ensures
        reaches(x.m, x.big.program().code, st, st2),
        st2.pc == place(x.big, x.end) || st2.pc == x.t7.code.len() + 1,
        tail_done(x, st2),
    decreases x.rows.len() - i,
{
    let a = lemma_tail_row(x, st, i);
    if a.pc == x.t1.code.len() && i + 1 < x.rows.len() && tail_met(x, a, i + 1)
        && a.cursors[x.sorter].at == i + 1 {
        let b = lemma_tail_rows(x, a, i + 1);
        lemma_reaches_through(x.m, x.big.program().code, st, a, b);
        b
    } else {
        a
    }
}

pub proof fn lemma_tail_grows(
    s: Asm,
    sorter: i32,
    norder: i32,
    ncol: i32,
    limit: Option<i32>,
    offset: Option<i32>,
    end: int,
)
    ensures
        grows(s, gen_sort_tail(s, sorter, norder, ncol, limit, offset, end)),
        gen_sort_tail(s, sorter, norder, ncol, limit, offset, end).err == s.err,
{
    broadcast use group_grows;

    reveal(gen_sort_tail);
    let s1 = s.jump(Opcode::SorterSort, sorter, end, 0);
    let next = s1.fresh();
    let s3 = gen_skip(s1.label().emit(Opcode::SorterData, sorter, 0, 0), offset, next);
    let s4 = s3.take_regs(ncol);
    lemma_columns_follow(s4, sorter, norder, s3.next_reg, ncol as int, 0);
    lemma_grows_through(s, s4, gen_columns(s4, sorter, norder, s3.next_reg, ncol as int, 0));
}

/// The end of a sorted query puts out the rows of the sorter in the order of their keys, without
/// the keys: those behind the first `offset`, up to the limit. It goes to the label when there is
/// nothing to put out and when the limit is reached.
#[verifier::rlimit(50)]
pub proof fn law_sort_tail_code(
    s: Asm,
    sorter: i32,
    norder: i32,
    ncol: i32,
    limit_reg: Option<i32>,
    offset_reg: Option<i32>,
    end: int,
    limit: Option<int>,
    offset: int,
    m: Values,
    big: Asm,
    st: State,
) -> (st2: State)
    requires
        settles(gen_sort_tail(s, sorter, norder, ncol, limit_reg, offset_reg, end), big),
        neat(s),
        0 <= norder,
        0 <= ncol,
        norder + ncol <= i32::MAX,
        0 <= s.next_reg,
        s.next_reg + ncol <= i32::MAX,
        0 <= end < s.fresh(),
        (m.sorted)(rows_of(st, sorter), st.cursors[sorter].keys).len() == rows_of(st, sorter).len(),
        counter_fits(limit_reg, s),
        counter_fits(offset_reg, s),
        limit_reg is Some ==> limit_reg != offset_reg,
        limit_reg is Some == limit is Some,
        limit matches Some(n) ==> 0 < n <= i64::MAX && st.regs[limit_reg->0] == Val::Int(n as i64),
        0 <= offset <= i64::MAX,
        match offset_reg {
            Some(r) => st.regs[r] == Val::Int(offset as i64),
            None => offset == 0,
        },
        st.pc == s.code.len(),
        !st.halted,
    ensures
        reaches(m, big.program().code, st, st2),
        !st2.halted,
        st2.error == st.error,
        st2.pc == place(big, end) || st2.pc == gen_sort_tail(
            s,
            sorter,
            norder,
            ncol,
            limit_reg,
            offset_reg,
            end,
        ).code.len(),
        ({
            let rows = (m.sorted)(rows_of(st, sorter), st.cursors[sorter].keys);
            st2.out == st.out + limited(
                tails(rows, norder as int, ncol as int, rows.len() as int),
                limit,
                offset,
            )
        }),
{
    broadcast use {group_settled, group_grows};

    reveal(gen_sort_tail);
    reveal(run);
    let code = big.program().code;
    let rows = (m.sorted)(rows_of(st, sorter), st.cursors[sorter].keys);
    let u = gen_sort_tail(s, sorter, norder, ncol, limit_reg, offset_reg, end);
    assert(u.err is None) by {
        reveal(settles);
    }
    let t1 = s.jump(Opcode::SorterSort, sorter, end, 0);
    let next = t1.fresh();
    let t2 = t1.label().emit(Opcode::SorterData, sorter, 0, 0);
    let t3 = gen_skip(t2, offset_reg, next);
    let t4 = t3.take_regs(ncol);
    let t5 = gen_columns(t4, sorter, norder, t3.next_reg, ncol as int, 0);
    let t6 = t5.emit(Opcode::ResultRow, t3.next_reg, ncol, 0);
    let t7 = gen_stop(t6, limit_reg, end);
    let x = Tail {
        s,
        sorter,
        norder,
        ncol,
        limit_reg,
        offset_reg,
        end,
        big,
        m,
        start: st,
        rows,
        limit,
        offset,
        t1,
        t2,
        t3,
        t4,
        t5,
        t6,
        t7,
        next,
    };
    lemma_columns_follow(t4, sorter, norder, t3.next_reg, ncol as int, 0);
    assert(t5.err is None && t4.err is None && t1.err is None);
    lemma_fresh_grows(t4, t5);
    assert(!t1.label().bound(next));
    assert(!t7.bound(next));
    assert(settles(u, big));
    assert(settles(t7, big));
    assert(settles(t6, big));
    assert(settles(t5, big));
    lemma_settles_early(t4, t5, big);
    assert(settles(t3, big));
    assert(settles(t2, big));
    assert(settles(t1, big));
    assert(neat(t1) && neat(t2) && neat(t3) && neat(t4));
    lemma_grows_neat(t4, t5);
    assert(neat(t6) && neat(t7));
    assert(big.program().code.len() <= i32::MAX) by {
        reveal(settles);
        reveal(Asm::program);
    }
    lemma_reaches_self(m, code, st);
    lemma_advance(m, code, st, st, code[st.pc]);
    let a = run(m, code[st.pc], st);
    if rows.len() == 0 {
        assert(limited(tails(rows, norder as int, ncol as int, 0), limit, offset) =~= Seq::empty());
        assert(st.out + Seq::<Seq<Val>>::empty() =~= st.out);
        a
    } else {
        assert(tail_stands(x));
        assert(limited(tails(rows, norder as int, ncol as int, 0), limit, offset) =~= Seq::empty());
        assert(a.out =~= st.out + Seq::<Seq<Val>>::empty());
        assert(tail_met(x, a, 0));
        let b = lemma_tail_rows(x, a, 0);
        lemma_reaches_through(m, code, st, a, b);
        b
    }
}

// ---- The sort keys ----

/// What the sort terms sort by.
pub open spec fn order_exprs(
    terms: Seq<OrderingTermView>,
    outputs: Seq<(ExprView, Seq<char>)>,
) -> Seq<ExprView> {
    Seq::new(terms.len(), |i: int| order_expr(terms[i].expr, outputs)->Ok_0)
}

/// The code of the sort keys is that of the list of what they sort by.
pub proof fn lemma_order_keys_are_list(
    s: Asm,
    terms: Seq<OrderingTermView>,
    outputs: Seq<(ExprView, Seq<char>)>,
    base: i32,
    ctx: CtxView,
    k: int,
)
    requires
        0 <= k,
    ensures
        gen_order_keys(s, terms, outputs, base, ctx, k).err is None ==> gen_order_keys(
            s,
            terms,
            outputs,
            base,
            ctx,
            k,
        ) == gen_expr_list(s, order_exprs(terms, outputs), base, ctx, k),
    decreases terms.len() - k,
{
    reveal(gen_expr);
    if s.err is Some || k >= terms.len() {
    } else {
        match order_expr(terms[k].expr, outputs) {
            Err(m) => {
                assert(s.fail(m).err is Some);
                assert(gen_order_keys(s.fail(m), terms, outputs, base, ctx, k + 1) == s.fail(m));
            },
            Ok(e) => {
                let s1 = gen_expr(s, e, reg_at(base, k), ctx);
                lemma_order_keys_are_list(s1, terms, outputs, base, ctx, k + 1);
                assert(order_exprs(terms, outputs)[k] == e);
            },
        }
    }
}

// ---- The sorted scan ----

/// What goes into the sorter for the first `n` rows of the table on a cursor: the sort keys of
/// each row that the condition keeps, and its output columns behind them.
pub open spec fn keyed_rows(
    m: Values,
    t: TableView,
    f: FunctionsView,
    st: State,
    cursor: i32,
    condition: Option<ExprView>,
    keys: Seq<ExprView>,
    columns: Seq<ExprView>,
    n: int,
) -> Seq<Row>
    decreases n,
{
    if n <= 0 {
        Seq::empty()
    } else {
        let before = keyed_rows(m, t, f, st, cursor, condition, keys, columns, n - 1);
        let env = row_env(m, t, f, st, cursor, n - 1);
        if kept(condition, env) {
            before.push(
                Row { rowid: 0, fields: values_from(keys, env, 0) + values_from(columns, env, 0) },
            )
        } else {
            before
        }
    }
}

/// The filling of a sorter, and what it runs on.
pub ghost struct Filling {
    pub table: TableView,
    pub functions: FunctionsView,
    pub cursor: i32,
    pub condition: Option<ExprView>,
    pub keys: Seq<ExprView>,
    pub columns: Seq<ExprView>,
    pub m: Values,
    pub big: Asm,
    pub start: State,
    /// At a row, behind the condition, before the keys, behind them, and behind the columns.
    pub f1: Asm,
    pub f2: Asm,
    pub f3: Asm,
    pub f4: Asm,
    pub f5: Asm,
    pub f6: Asm,
    pub next: int,
}

/// A bound on the registers that the filling of a sorter takes.
pub open spec fn filling_weight(
    condition: Option<ExprView>,
    keys: Seq<ExprView>,
    columns: Seq<ExprView>,
) -> nat {
    condition_weight(condition) + keys.len() + columns.len() + weight_from(keys, 0) + weight_from(
        columns,
        0,
    ) + 1
}

/// The code that fills a sorter stands in the program.
pub open spec fn filling_stands(x: Filling) -> bool {
    let code = x.big.program().code;
    let ctx = table_ctx(x.table, x.cursor, x.functions);
    let width = (x.keys.len() + x.columns.len()) as i32;
    let row = x.f3.next_reg;
    &&& x.f2 == x.f1.label()
    &&& x.next == x.f1.fresh()
    &&& x.f3 == gen_filter(x.f2, x.condition, x.next, ctx)
    &&& x.f4 == x.f3.take_regs(width)
    &&& x.f5 == gen_expr_list(x.f4, x.keys, row, ctx, 0)
    &&& x.f6 == gen_expr_list(x.f5, x.columns, (row + x.keys.len()) as i32, ctx, 0)
    &&& neat(x.f2) && neat(x.f3) && neat(x.f4) && neat(x.f5)
    &&& settles(x.f3, x.big) && settles(x.f5, x.big) && settles(x.f6, x.big)
    &&& x.f2.code.len() == x.f1.code.len()
    &&& x.f4.code.len() == x.f3.code.len()
    &&& x.f1.code.len() <= x.f6.code.len()
    &&& x.f6.code.len() + 3 <= code.len() <= i32::MAX
    &&& place(x.big, x.next) == x.f6.code.len() + 2
    &&& code[x.f6.code.len() as int] == (InstView {
        opcode: Opcode::MakeRecord,
        p1: row,
        p2: width,
        p3: x.f6.next_reg,
        p4: P4View::Unused,
        p5: 0,
    })
    &&& code[x.f6.code.len() as int + 1] == (InstView {
        opcode: Opcode::SorterInsert,
        p1: 1,
        p2: x.f6.next_reg,
        p3: 0,
        p4: P4View::Unused,
        p5: 0,
    })
    &&& code[x.f6.code.len() as int + 2] == (InstView {
        opcode: Opcode::Next,
        p1: x.cursor,
        p2: x.f1.code.len() as i32,
        p3: 0,
        p4: P4View::Unused,
        p5: 0,
    })
    &&& 0 <= x.next < x.f2.fresh()
    &&& 0 <= x.f1.next_reg == x.f2.next_reg
    &&& x.f2.next_reg <= x.f3.next_reg <= x.f2.next_reg + condition_weight(x.condition)
    &&& x.f4.next_reg == x.f3.next_reg + x.keys.len() + x.columns.len()
    &&& x.f4.next_reg <= x.f5.next_reg <= x.f4.next_reg + weight_from(x.keys, 0)
    &&& x.f5.next_reg <= x.f6.next_reg <= x.f5.next_reg + weight_from(x.columns, 0)
    &&& x.f1.next_reg + filling_weight(x.condition, x.keys, x.columns) <= i32::MAX
    &&& narrow(x.table)
    &&& tame_condition(x.condition, 0)
    &&& tame_from(x.keys, 0, 0)
    &&& tame_from(x.columns, 0, 0)
    &&& x.cursor != 1
    &&& x.start.cursors[1].root != x.start.cursors[x.cursor].root
}

/// The first `n` rows have been met: those kept are in the sorter.
pub open spec fn filled(x: Filling, st: State, n: int) -> bool {
    &&& st.cursors == x.start.cursors.insert(x.cursor, st.cursors[x.cursor])
    &&& st.cursors[x.cursor].root == x.start.cursors[x.cursor].root
    &&& st.trees == x.start.trees.insert(
        x.start.cursors[1].root,
        rows_of(x.start, 1) + keyed_rows(
            x.m,
            x.table,
            x.functions,
            x.start,
            x.cursor,
            x.condition,
            x.keys,
            x.columns,
            n,
        ),
    )
    &&& !st.halted
    &&& st.error == x.start.error
    &&& st.out == x.start.out
    &&& forall|r: i32| r < x.f1.next_reg ==> #[trigger] st.regs[r] == x.start.regs[r]
}

proof fn lemma_filling_serves(x: Filling, st: State, n: int, i: int)
    requires
        filling_stands(x),
        filled(x, st, n),
        st.cursors[x.cursor].at == i,
    ensures
        serves(row_env(x.m, x.table, x.functions, x.start, x.cursor, i), x.big, 0, st),
{
    let there = crate::machine::moved(x.start, x.cursor, i);
    let env = row_env(x.m, x.table, x.functions, x.start, x.cursor, i);
    let here = table_row(x.m, x.table, x.functions, st, x.cursor);
    law_table_columns(x.m, x.table, x.functions, x.cursor, x.big, 0, st);
    assert(rows_of(st, x.cursor) == rows_of(there, x.cursor));
    assert forall|q: Option<Seq<char>>, name: Seq<char>| #[trigger]
        (env.column)(q, name) == (here.column)(q, name) by {
        assert(table_column(x.m, x.table, st, x.cursor, name) == table_column(
            x.m,
            x.table,
            there,
            x.cursor,
            name,
        ));
    }
    lemma_serves_like(here, env, x.big, 0, st);
}

#[verifier::rlimit(50)]
proof fn lemma_filling_row(x: Filling, st: State, i: int) -> (st2: State)
    requires
        filling_stands(x),
        filled(x, st, i),
        st.cursors[x.cursor].at == i,
        0 <= i < rows_of(x.start, x.cursor).len(),
        st.pc == x.f1.code.len(),
    ensures
        reaches(x.m, x.big.program().code, st, st2),
        filled(x, st2, i + 1),
        st2.cursors[x.cursor].at == i + 1,
        st2.pc == (if i + 1 < rows_of(x.start, x.cursor).len() {
            x.f1.code.len() as int
        } else {
            x.f6.code.len() as int + 3
        }),
{
    reveal(run);
    let m = x.m;
    let code = x.big.program().code;
    let env = row_env(m, x.table, x.functions, x.start, x.cursor, i);
    let kv = values_from(x.keys, env, 0);
    let cv = values_from(x.columns, env, 0);
    let row = x.f3.next_reg;
    let nk = x.keys.len() as int;
    let nc = x.columns.len() as int;
    lemma_values_from(x.keys, env, 0);
    lemma_values_from(x.columns, env, 0);
    lemma_filling_serves(x, st, i, i);
    let a = law_filter_code(x.f2, x.condition, x.next, env, x.big, 0, st);
    let before = keyed_rows(
        m,
        x.table,
        x.functions,
        x.start,
        x.cursor,
        x.condition,
        x.keys,
        x.columns,
        i,
    );
    let d = if !kept(x.condition, env) {
        a
    } else {
        let b = lemma_list_code(x.f4, x.keys, row, env, x.big, 0, a, 0);
        lemma_reaches_through(m, code, st, a, b);
        crate::meaning::lemma_serves_on(env, x.big, 0, a, b);
        let c = lemma_list_code(x.f5, x.columns, (row + nk) as i32, env, x.big, 0, b, 0);
        lemma_reaches_through(m, code, st, b, c);
        assert(block(c, row, nk + nc) =~= kv + cv) by {
            assert forall|j: int| 0 <= j < nk + nc implies c.regs[#[trigger] nth(row, j)] == (kv
                + cv)[j] by {
                if j < nk {
                    assert(c.regs[nth(row, j)] == b.regs[nth(row, j)]);
                    assert(b.regs[nth(row, j)] == value(x.keys[j], env));
                    assert(kv[j] == value(x.keys[0 + j], env));
                } else {
                    assert(nth(row, j) == nth((row + nk) as i32, j - nk));
                    assert(c.regs[nth((row + nk) as i32, j - nk)] == value(
                        x.columns[j - nk],
                        env,
                    ));
                    assert(cv[j - nk] == value(x.columns[0 + (j - nk)], env));
                }
            }
        }
        lemma_advance(m, code, st, c, code[c.pc]);
        let e = run(m, code[c.pc], c);
        lemma_advance(m, code, st, e, code[e.pc]);
        let g = run(m, code[e.pc], e);
        let sorter = x.start.cursors[1].root;
        assert(g.cursors[1] == x.start.cursors[1]);
        assert(rows_of(x.start, 1) + before.push(Row { rowid: 0, fields: kv + cv }) =~= (rows_of(
            x.start,
            1,
        ) + before).push(Row { rowid: 0, fields: kv + cv }));
        assert(g.trees =~= x.start.trees.insert(
            sorter,
            rows_of(x.start, 1) + before.push(Row { rowid: 0, fields: kv + cv }),
        ));
        g
    };
    assert(filled(x, d, i + 1));
    assert(rows_of(d, x.cursor).len() == rows_of(x.start, x.cursor).len());
    lemma_advance(m, code, st, d, code[d.pc]);
    let z = run(m, code[d.pc], d);
    assert(z.cursors =~= x.start.cursors.insert(x.cursor, z.cursors[x.cursor]));
    z
}

pub proof fn lemma_filling_rows(x: Filling, st: State, i: int) -> (st2: State)
    requires
        filling_stands(x),
        filled(x, st, i),
        st.cursors[x.cursor].at == i,
        0 <= i < rows_of(x.start, x.cursor).len(),
        st.pc == x.f1.code.len(),
    ensures
        reaches(x.m, x.big.program().code, st, st2),
        filled(x, st2, rows_of(x.start, x.cursor).len() as int),
        st2.pc == x.f6.code.len() + 3,
    decreases rows_of(x.start, x.cursor).len() - i,
{
    let a = lemma_filling_row(x, st, i);
    if i + 1 < rows_of(x.start, x.cursor).len() {
        let b = lemma_filling_rows(x, a, i + 1);
        lemma_reaches_through(x.m, x.big.program().code, st, a, b);
        b
    } else {
        a
    }
}

/// What a sorted scan puts out: the output columns of the rows that the condition keeps, in the
/// order of their sort keys, behind the first `offset` of them and up to the limit.
pub open spec fn sorted_scan(
    m: Values,
    t: TableView,
    f: FunctionsView,
    st: State,
    cursor: i32,
    select: SelectStmtView,
    keys: Seq<ExprView>,
    columns: Seq<ExprView>,
    limit: Option<int>,
    offset: int,
) -> Seq<Seq<Val>> {
    let rows = (m.sorted)(
        keyed_rows(
            m,
            t,
            f,
            st,
            cursor,
            select.where_clause,
            keys,
            columns,
            rows_of(st, cursor).len() as int,
        ),
        Seq::new(
            select.order_by.len(),
            |i: int|
                KeyField {
                    desc: select.order_by[i].desc,
                    collation: crate::vdbe::Collation::Binary,
                },
        ),
    );
    limited(
        tails(rows, keys.len() as int, columns.len() as int, rows.len() as int),
        limit,
        offset,
    )
}

/// Sorting keeps the number of rows.
pub open spec fn sorting_keeps(m: Values) -> bool {
    forall|rows: Seq<Row>, keys: Seq<KeyField>|
        (#[trigger] (m.sorted)(rows, keys)).len() == rows.len()
}

/// The code of a scan with a sort, run from its start, puts out the rows of the query in the order
/// of the sort terms, each ascending or descending as it says, and ends.
#[verifier::rlimit(50)]
pub proof fn law_sorted_scan_code(
    s: Asm,
    select: SelectStmtView,
    t: TableView,
    f: FunctionsView,
    cursor: i32,
    outputs: Seq<(ExprView, Seq<char>)>,
    limit_reg: Option<i32>,
    offset_reg: Option<i32>,
    limit: Option<int>,
    offset: int,
    m: Values,
    big: Asm,
    st: State,
) -> (st2: State)
    requires
        settles(
            gen_scan_ordered(
                s,
                select,
                table_ctx(t, cursor, f),
                cursor,
                outputs,
                limit_reg,
                offset_reg,
            ),
            big,
        ),
        neat(s),
        narrow(t),
        tame_condition(select.where_clause, 0),
        tame_from(order_exprs(select.order_by, outputs), 0, 0),
        tame_from(exprs_of(outputs), 0, 0),
        0 <= s.next_reg,
        s.next_reg + filling_weight(
            select.where_clause,
            order_exprs(select.order_by, outputs),
            exprs_of(outputs),
        ) + outputs.len() <= i32::MAX,
        cursor != 1,
        sorting_keeps(m),
        // The counters
        counter_fits(limit_reg, s),
        counter_fits(offset_reg, s),
        limit_reg is Some ==> limit_reg != offset_reg,
        limit_reg is Some == limit is Some,
        limit matches Some(n) ==> 0 < n <= i64::MAX && st.regs[limit_reg->0] == Val::Int(n as i64),
        0 <= offset <= i64::MAX,
        match offset_reg {
            Some(r) => st.regs[r] == Val::Int(offset as i64),
            None => offset == 0,
        },
        // The table is open.
        st.pc == s.code.len(),
        !st.halted,
        st.cursors[cursor].root >= 0,
    ensures
        reaches(m, big.program().code, st, st2),
        st2.halted,
        st2.error == st.error,
        st2.out == st.out + sorted_scan(
            m,
            t,
            f,
            crate::machine::opened_empty(
                st,
                1,
                P4View::KeyInfo(order_key_info(select.order_by)),
            ),
            cursor,
            select,
            order_exprs(select.order_by, outputs),
            exprs_of(outputs),
            limit,
            offset,
        ),
{
    broadcast use {group_settled, group_grows};

    reveal(gen_scan_ordered);
    reveal(run);
    let code = big.program().code;
    let ctx = table_ctx(t, cursor, f);
    let keys = order_exprs(select.order_by, outputs);
    let columns = exprs_of(outputs);
    let ncol = outputs.len() as i32;
    let nkey = select.order_by.len() as i32;
    let width = nkey.wrapping_add(ncol);
    let u = gen_scan_ordered(s, select, ctx, cursor, outputs, limit_reg, offset_reg);
    assert(u.err is None) by {
        reveal(settles);
    }
    let s0 = s.emit_p4(
        Opcode::SorterOpen,
        1,
        width,
        0,
        P4View::KeyInfo(order_key_info(select.order_by)),
    ).note_cursor(1);
    let end_scan = s0.fresh();
    let f1 = s0.label().jump(Opcode::Rewind, cursor, end_scan, 0);
    let next = f1.fresh();
    let f2 = f1.label();
    let f3 = gen_filter(f2, select.where_clause, next, ctx);
    let row = f3.next_reg;
    let f4 = f3.take_regs(width);
    let f5 = gen_order_keys(f4, select.order_by, outputs, row, ctx, 0);
    let f6 = gen_expr_list(f5, columns, row.wrapping_add(nkey), ctx, 0);
    let rec = f6.next_reg;
    let f7 = f6.take_regs(1).emit(Opcode::MakeRecord, row, width, rec);
    let f8 = f7.emit(Opcode::SorterInsert, 1, rec, 0);
    let f9 = f8.bind(next).emit(Opcode::Next, cursor, f1.here(), 0);
    let g0 = f9.bind(end_scan);
    let end = g0.fresh();
    let g1 = g0.label();
    let g2 = gen_sort_tail(g1, 1, nkey, ncol, limit_reg, offset_reg, end);
    assert(u == g2.bind(end).emit(Opcode::Halt, 0, 0, 0));
    lemma_tail_grows(g1, 1, nkey, ncol, limit_reg, offset_reg, end);
    assert(g1.err is None && f6.err is None);
    lemma_list_follows(f5, columns, row.wrapping_add(nkey), ctx, 0);
    lemma_fresh_grows(f5, f6);
    lemma_order_keys_are_list(f4, select.order_by, outputs, row, ctx, 0);
    assert(f5 == gen_expr_list(f4, keys, row, ctx, 0));
    lemma_list_follows(f4, keys, row, ctx, 0);
    lemma_fresh_grows(f4, f5);
    lemma_filter_follows(f2, select.where_clause, next, ctx);
    lemma_fresh_grows(f2, f3);
    lemma_fresh_grows(g1, g2);
    assert(s.err is None);
    assert(!g2.bound(end));
    assert(settles(g2, big));
    lemma_settles_early(g1, g2, big);
    assert(!f8.bound(next) && !f9.bound(end_scan));
    assert(settles(f9, big));
    assert(settles(f8, big));
    assert(settles(f7, big));
    assert(settles(f6, big));
    lemma_settles_early(f5, f6, big);
    lemma_settles_early(f4, f5, big);
    assert(settles(f3, big));
    lemma_settles_early(f2, f3, big);
    assert(settles(f1, big));
    assert(settles(s0, big));
    assert(neat(s0) && neat(f1) && neat(f2));
    lemma_grows_neat(f2, f3);
    assert(neat(f4));
    lemma_grows_neat(f4, f5);
    lemma_grows_neat(f5, f6);
    assert(neat(f7) && neat(f8) && neat(f9) && neat(g1));
    lemma_grows_neat(g1, g2);
    assert(s0.next_reg == s.next_reg) by {
        reveal(Asm::note_cursor);
    }
    lemma_take(f3, width);
    assert(f4.next_reg == f3.next_reg + keys.len() + columns.len());
    assert(big.program().code.len() <= i32::MAX) by {
        reveal(settles);
        reveal(Asm::program);
    }
    lemma_reaches_self(m, code, st);
    lemma_advance(m, code, st, st, code[st.pc]);
    let a = run(m, code[st.pc], st);
    let there = crate::machine::opened_empty(
        st,
        1,
        P4View::KeyInfo(order_key_info(select.order_by)),
    );
    assert(a == State { pc: a.pc, ..there });
    let x = Filling {
        table: t,
        functions: f,
        cursor,
        condition: select.where_clause,
        keys,
        columns,
        m,
        big,
        start: there,
        f1,
        f2,
        f3,
        f4,
        f5,
        f6,
        next,
    };
    assert(filling_stands(x));
    lemma_advance(m, code, st, a, code[a.pc]);
    let b = run(m, code[a.pc], a);
    let n = rows_of(there, cursor).len() as int;
    let c = if n == 0 {
        assert(filled(x, b, 0)) by {
            assert(b.cursors =~= there.cursors.insert(cursor, b.cursors[cursor]));
            assert(b.trees =~= there.trees.insert(there.cursors[1].root, rows_of(there, 1) + Seq::<
                Row,
            >::empty()));
        }
        b
    } else {
        assert(filled(x, b, 0)) by {
            assert(b.cursors =~= there.cursors.insert(cursor, b.cursors[cursor]));
            assert(b.trees =~= there.trees.insert(there.cursors[1].root, rows_of(there, 1) + Seq::<
                Row,
            >::empty()));
        }
        let c = lemma_filling_rows(x, b, 0);
        lemma_reaches_through(m, code, st, b, c);
        c
    };
    assert(c.pc == g1.code.len());
    assert(rows_of(there, 1) =~= Seq::empty());
    let sorted = keyed_rows(m, t, f, there, cursor, select.where_clause, keys, columns, n);
    assert(rows_of(c, 1) =~= sorted);
    assert(c.cursors[1].keys == order_key_info(select.order_by));
    assert(order_key_info(select.order_by) =~= Seq::new(
        select.order_by.len(),
        |i: int|
            KeyField { desc: select.order_by[i].desc, collation: crate::vdbe::Collation::Binary },
    ));
    lemma_take(f6, 1);
    assert(g1.next_reg == f6.next_reg + 1);
    let d = law_sort_tail_code(
        g1,
        1,
        nkey,
        ncol,
        limit_reg,
        offset_reg,
        end,
        limit,
        offset,
        m,
        big,
        c,
    );
    lemma_reaches_through(m, code, st, c, d);
    assert(d.pc == g2.code.len());
    lemma_advance(m, code, st, d, code[d.pc]);
    run(m, code[d.pc], d)
}

proof fn lemma_ordered_grows(
    s: Asm,
    select: SelectStmtView,
    ctx: CtxView,
    cursor: i32,
    outputs: Seq<(ExprView, Seq<char>)>,
    limit: Option<i32>,
    offset: Option<i32>,
)
    ensures
        grows(s, gen_scan_ordered(s, select, ctx, cursor, outputs, limit, offset)),
{
    broadcast use {group_grows, filter_stuck};

    reveal(gen_scan_ordered);
    let u = gen_scan_ordered(s, select, ctx, cursor, outputs, limit, offset);
    if u.err is None {
        let ncol = outputs.len() as i32;
        let nkey = select.order_by.len() as i32;
        let width = nkey.wrapping_add(ncol);
        let s0 = s.emit_p4(
            Opcode::SorterOpen,
            1,
            width,
            0,
            P4View::KeyInfo(order_key_info(select.order_by)),
        ).note_cursor(1);
        let end_scan = s0.fresh();
        let f1 = s0.label().jump(Opcode::Rewind, cursor, end_scan, 0);
        let next = f1.fresh();
        let f2 = f1.label();
        let f3 = gen_filter(f2, select.where_clause, next, ctx);
        lemma_filter_follows(f2, select.where_clause, next, ctx);
        lemma_grows_through(s, f2, f3);
        let f4 = f3.take_regs(width);
        let f5 = gen_order_keys(f4, select.order_by, outputs, f3.next_reg, ctx, 0);
        let f6 = gen_expr_list(f5, exprs_of(outputs), f3.next_reg.wrapping_add(nkey), ctx, 0);
        lemma_list_follows(f5, exprs_of(outputs), f3.next_reg.wrapping_add(nkey), ctx, 0);
        let rec = f6.next_reg;
        let g0 = f6.take_regs(1).emit(Opcode::MakeRecord, f3.next_reg, width, rec).emit(
            Opcode::SorterInsert,
            1,
            rec,
            0,
        ).bind(next).emit(Opcode::Next, cursor, f1.here(), 0).bind(end_scan);
        let end = g0.fresh();
        let g1 = g0.label();
        let g2 = gen_sort_tail(g1, 1, nkey, ncol, limit, offset, end);
        lemma_tail_grows(g1, 1, nkey, ncol, limit, offset, end);
        assert(u == g2.bind(end).emit(Opcode::Halt, 0, 0, 0));
        assert(g1.err is None && f6.err is None);
        lemma_fresh_grows(f5, f6);
        lemma_order_keys_are_list(f4, select.order_by, outputs, f3.next_reg, ctx, 0);
        lemma_list_follows(
            f4,
            order_exprs(select.order_by, outputs),
            f3.next_reg,
            ctx,
            0,
        );
        lemma_grows_through(s, f4, f5);
        lemma_grows_through(s, f5, f6);
        assert(s0.err is None && s.err is None) by {
            lemma_fresh_grows(s, f6);
        }
        lemma_fresh_grows(s, f6);
        assert(grows(s, g1));
        lemma_fresh_grows(s, g1);
        lemma_grows_through(s, g1, g2);
    }
}

/// The program of a query that scans a table and sorts puts out exactly the output columns of the
/// rows for which the condition is true, in the order of the sort terms, behind the first `offset`
/// of them and up to the limit, and ends without an error.
#[verifier::rlimit(50)]
pub proof fn law_sorted_scan_program(
    select: SelectStmtView,
    t: TableView,
    outputs: Seq<(ExprView, Seq<char>)>,
    limit: Option<i64>,
    offset: i64,
    f: FunctionsView,
    m: Values,
    st: State,
) -> (st2: State)
    requires
        gen_scan(select, t, outputs, limit, offset, f).err is None,
        gen_scan(select, t, outputs, limit, offset, f).code.len() <= i32::MAX,
        select.order_by.len() > 0,
        narrow(t),
        t.rootpage <= i32::MAX,
        tame_condition(select.where_clause, 0),
        tame_from(order_exprs(select.order_by, outputs), 0, 0),
        tame_from(exprs_of(outputs), 0, 0),
        3 + filling_weight(
            select.where_clause,
            order_exprs(select.order_by, outputs),
            exprs_of(outputs),
        ) + outputs.len() <= i32::MAX,
        limit matches Some(n) ==> n > 0,
        sorting_keeps(m),
        ready_to_run(st),
    ensures
        reaches(m, gen_scan(select, t, outputs, limit, offset, f).program().code, st, st2),
        st2.halted,
        st2.error is None,
        exists|open: State|
            {
                &&& open.trees[open.cursors[0].root] == st.trees[t.rootpage as int]
                &&& st2.out == #[trigger] sorted_scan(
                    m,
                    t,
                    f,
                    open,
                    0,
                    select,
                    order_exprs(select.order_by, outputs),
                    exprs_of(outputs),
                    limit_of(limit),
                    skipped(offset),
                )
            },
{
    broadcast use {group_settled, group_grows};

    reveal(gen_scan);
    reveal(run);
    let big = gen_scan(select, t, outputs, limit, offset, f);
    let code = big.program().code;
    let lim = limit_of(limit);
    let off = skipped(offset);
    lemma_prologue();
    reveal(gen_limit);
    reveal(gen_offset);
    reveal(limit_reg);
    reveal(offset_reg);
    reveal(gen_open);
    let s0 = prologue();
    let s1 = gen_limit(s0, limit);
    let s2 = gen_offset(s1, offset);
    let s3 = gen_open(s2, Opcode::OpenRead, 0, t);
    let ctx = table_ctx(t, 0, f);
    let lr = limit_reg(s0, limit);
    let or = offset_reg(s1, offset);
    let s = gen_scan_ordered(s3, select, ctx, 0, outputs, lr, or);
    assert(big == gen_epilogue(s));
    assert(s.err is None) by {
        reveal(gen_epilogue);
    }
    if limit is Some {
        lemma_const_follows(s0, limit->0);
    }
    lemma_const_follows(s1, offset);
    lemma_ordered_grows(s3, select, ctx, 0, outputs, lr, or);
    assert(grows(s0, s1));
    lemma_grows_through(s0, s1, s2);
    assert(grows(s0, s3));
    lemma_grows_through(s0, s3, s);
    let a = lemma_body_reached(s, m, st);
    lemma_settles_early(s3, s, big);
    assert(settles(s2, big));
    lemma_settles_early(s1, s2, big);
    let b = if limit is Some {
        let b = lemma_const_code(s0, limit->0, m, big, a);
        lemma_reaches_through(m, code, st, a, b);
        b
    } else {
        a
    };
    let c = if offset > 0 {
        let c = lemma_const_code(s1, offset, m, big, b);
        lemma_reaches_through(m, code, st, b, c);
        c
    } else {
        b
    };
    assert(neat(s2));
    lemma_advance(m, code, st, c, code[c.pc]);
    let d = run(m, code[c.pc], c);
    assert(s3.next_reg == s2.next_reg) by {
        reveal(Asm::note_cursor);
    }
    let z = law_sorted_scan_code(s3, select, t, f, 0, outputs, lr, or, lim, off, m, big, d);
    lemma_reaches_through(m, code, st, d, z);
    let open = crate::machine::opened_empty(
        d,
        1,
        P4View::KeyInfo(order_key_info(select.order_by)),
    );
    let keys = order_exprs(select.order_by, outputs);
    assert(z.out =~= sorted_scan(m, t, f, open, 0, select, keys, exprs_of(outputs), lim, off));
    z
}

} // verus!
