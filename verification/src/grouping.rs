//! What a query with a `GROUP BY` clause puts out, from the table to the rows.
use vstd::prelude::*;

use crate::aggregate::{
    args_before, call_args, gen_all_args, gen_group_scan, gen_group_walk, group_key_info,
    AggPlanView,
};
use crate::ast::ExprView;
use crate::builder::{group_asm, reg_at, Asm};
use crate::expr::{gen_expr, gen_expr_list};
use crate::groups::{
    args_sum, group_rows, law_group_walk, plain_values, plan_fits, runs, walk_weight,
};
use crate::machine::{
    group_grows, group_settled, grows, lemma_grows_neat, lemma_grows_through, lemma_reaches_self,
    lemma_reaches_through, lemma_settles_early, neat, nth, opened_empty, reaches, rows_of, run,
    settles, Row, State, Values,
};
use crate::meaning::{
    lemma_advance, lemma_fresh_grows, lemma_list_follows, lemma_take, narrow, table_row, tame_from,
};
use crate::rewrite::AggCallView;
use crate::rows::{lemma_filter_follows, tame_condition};
use crate::scan::gen_filter;
use crate::schema::{FunctionsView, TableView};
use crate::scope::{table_ctx, CtxView};
use crate::sorting::{
    filled, filling_stands, filling_weight, keyed_rows, lemma_filling_rows, sorting_keeps, Filling,
};
use crate::vdbe::{Opcode, P4View};

verus! {

broadcast use group_asm;

// ---- The arguments of all calls ----

/// The arguments of the first `n` calls, one after the other.
pub open spec fn all_args(calls: Seq<AggCallView>, n: int) -> Seq<ExprView>
    decreases n,
{
    if n <= 0 || n > calls.len() {
        Seq::empty()
    } else {
        all_args(calls, n - 1) + call_args(calls[n - 1])
    }
}

proof fn lemma_all_args(calls: Seq<AggCallView>, k: int, n: int, i: int)
    requires
        0 <= k < n <= calls.len(),
        0 <= i < call_args(calls[k]).len(),
    ensures
        all_args(calls, n).len() == args_sum(calls, n),
        args_sum(calls, k) + i < args_sum(calls, n),
        all_args(calls, n)[args_sum(calls, k) + i] == call_args(calls[k])[i],
    decreases n,
{
    lemma_all_args_len(calls, n);
    lemma_all_args_len(calls, n - 1);
    if k < n - 1 {
        lemma_all_args(calls, k, n - 1, i);
    }
}

proof fn lemma_all_args_len(calls: Seq<AggCallView>, n: int)
    ensures
        0 <= n <= calls.len() ==> all_args(calls, n).len() == args_sum(calls, n),
    decreases n,
{
    if 0 < n <= calls.len() {
        lemma_all_args_len(calls, n - 1);
    }
}

/// The code of one list within a longer one.
proof fn lemma_sublist(
    s: Asm,
    part: Seq<ExprView>,
    all: Seq<ExprView>,
    at: i32,
    from: int,
    ctx: CtxView,
    i: int,
)
    requires
        0 <= i <= part.len(),
        0 <= from,
        from + part.len() <= all.len() <= i32::MAX,
        forall|j: int| 0 <= j < part.len() ==> all[from + j] == #[trigger] part[j],
        0 <= at,
        at + all.len() <= i32::MAX,
    ensures
        gen_expr_list(s, all, at, ctx, from + i) == gen_expr_list(
            gen_expr_list(s, part, (at + from) as i32, ctx, i),
            all,
            at,
            ctx,
            from + part.len(),
        ),
    decreases part.len() - i,
{
    reveal(gen_expr);
    if s.err is Some {
    } else if i < part.len() {
        assert(all[from + i] == part[i]);
        assert(reg_at(at, from + i) == reg_at((at + from) as i32, i));
        let s1 = gen_expr(s, part[i], reg_at(at, from + i), ctx);
        lemma_sublist(s1, part, all, at, from, ctx, i + 1);
    }
}

/// The code of the arguments of all calls is that of one list.
proof fn lemma_all_args_are_list(s: Asm, calls: Seq<AggCallView>, at: i32, ctx: CtxView, k: int)
    requires
        0 <= k <= calls.len(),
        0 <= at,
        at + args_sum(calls, calls.len() as int) <= i32::MAX,
    ensures
        gen_all_args(s, calls, at, ctx, k) == gen_expr_list(
            s,
            all_args(calls, calls.len() as int),
            at,
            ctx,
            args_sum(calls, k) as int,
        ),
    decreases calls.len() - k,
{
    reveal(gen_expr);
    let n = calls.len() as int;
    let all = all_args(calls, n);
    lemma_all_args_len(calls, n);
    if s.err is Some || k >= n {
    } else {
        let part = call_args(calls[k]);
        let from = args_sum(calls, k) as int;
        crate::groups::lemma_args_sum(calls, k, n);
        crate::groups::lemma_args_sum(calls, k + 1, n);
        assert forall|j: int| 0 <= j < part.len() implies all[from + j] == #[trigger] part[j] by {
            lemma_all_args(calls, k, n, j);
        }
        assert(args_sum(calls, k + 1) == from + part.len());
        assert(at.wrapping_add(args_before(calls, k)) == (at + from) as i32);
        lemma_sublist(s, part, all, at, from, ctx, 0);
        let s1 = gen_expr_list(s, part, (at + from) as i32, ctx, 0);
        lemma_all_args_are_list(s1, calls, at, ctx, k + 1);
    }
}

// ---- The scan into the sorter ----

/// What the scan of the table puts into the group sorter.
pub open spec fn group_input(
    m: Values,
    t: TableView,
    f: FunctionsView,
    open: State,
    condition: Option<ExprView>,
    keys: Seq<ExprView>,
    calls: Seq<AggCallView>,
) -> Seq<Row> {
    keyed_rows(
        m,
        t,
        f,
        open,
        0,
        condition,
        keys,
        all_args(calls, calls.len() as int),
        rows_of(open, 0).len() as int,
    )
}

proof fn lemma_group_scan_grows(
    s: Asm,
    p: AggPlanView,
    keys: Seq<ExprView>,
    condition: Option<ExprView>,
    ctx: CtxView,
)
    requires
        keys.len() + args_sum(p.calls, p.calls.len() as int) <= i32::MAX,
    ensures
        grows(s, gen_group_scan(s, p, keys, condition, ctx)),
{
    broadcast use {group_grows, crate::scan::filter_stuck};

    reveal(gen_group_scan);
    let u = gen_group_scan(s, p, keys, condition, ctx);
    if u.err is None {
        let nkey = keys.len() as i32;
        let width = nkey.wrapping_add(args_before(p.calls, p.calls.len() as int));
        let s0 = s.emit_p4(
            Opcode::SorterOpen,
            1,
            width,
            0,
            P4View::KeyInfo(group_key_info(keys.len())),
        ).note_cursor(1);
        let end_scan = s0.fresh();
        let s1 = s0.label().jump(Opcode::Rewind, 0, end_scan, 0);
        let top = s1.fresh();
        let f1 = s1.label().bind(top);
        let next = f1.fresh();
        let f2 = f1.label();
        let f3 = gen_filter(f2, condition, next, ctx);
        let block = f3.next_reg;
        let f4 = f3.take_regs(width);
        let f5 = gen_expr_list(f4, keys, block, ctx, 0);
        let at = block.wrapping_add(nkey);
        let f6 = gen_all_args(f5, p.calls, at, ctx, 0);
        lemma_filter_follows(f2, condition, next, ctx);
        lemma_list_follows(f4, keys, block, ctx, 0);
        lemma_args_grow(f5, p.calls, at, ctx, 0);
        assert(s0.err is None) by {
            reveal(grows);
        }
        assert(s.fresh() <= top && s.fresh() <= next && s.fresh() <= end_scan);
        lemma_grows_through(s, f2, f3);
        lemma_grows_through(s, f4, f5);
        lemma_grows_through(s, f5, f6);
    }
}

proof fn lemma_args_grow(s: Asm, calls: Seq<AggCallView>, at: i32, ctx: CtxView, k: int)
    ensures
        grows(s, gen_all_args(s, calls, at, ctx, k)),
    decreases calls.len() - k,
{
    broadcast use group_grows;

    if s.err is Some || k < 0 || k >= calls.len() {
    } else {
        let base = at.wrapping_add(args_before(calls, k));
        let s1 = gen_expr_list(s, call_args(calls[k]), base, ctx, 0);
        lemma_list_follows(s, call_args(calls[k]), base, ctx, 0);
        lemma_args_grow(s1, calls, at, ctx, k + 1);
        lemma_grows_through(s, s1, gen_all_args(s1, calls, at, ctx, k + 1));
    }
}

/// The scan of the table into the group sorter, run from its start, ends behind its last
/// instruction with the group keys and the arguments of the aggregate functions of exactly those
/// rows in the sorter for which the condition is true.
#[verifier::rlimit(50)]
pub proof fn law_group_scan_code(
    s: Asm,
    p: AggPlanView,
    keys: Seq<ExprView>,
    condition: Option<ExprView>,
    t: TableView,
    f: FunctionsView,
    m: Values,
    big: Asm,
    st: State,
) -> (st2: State)
    requires
        settles(gen_group_scan(s, p, keys, condition, table_ctx(t, 0, f)), big),
        neat(s),
        st.pc == s.code.len(),
        !st.halted,
        st.cursors[0].root >= 0,
        narrow(t),
        tame_condition(condition, 0),
        tame_from(keys, 0, 0),
        tame_from(all_args(p.calls, p.calls.len() as int), 0, 0),
        0 <= s.next_reg,
        s.next_reg + filling_weight(
            condition,
            keys,
            all_args(p.calls, p.calls.len() as int),
        ) <= i32::MAX,
    ensures
        reaches(m, big.program().code, st, st2),
        ({
            let open = opened_empty(st, 1, P4View::KeyInfo(group_key_info(keys.len())));
            &&& st2.pc == gen_group_scan(s, p, keys, condition, table_ctx(t, 0, f)).code.len()
            &&& !st2.halted
            &&& st2.error == st.error
            &&& st2.out == st.out
            &&& st2.cursors[0].root == st.cursors[0].root
            &&& st2.cursors[1] == open.cursors[1]
            &&& rows_of(st2, 1) == group_input(m, t, f, open, condition, keys, p.calls)
            &&& forall|r: i32| r < s.next_reg ==> #[trigger] st2.regs[r] == st.regs[r]
        }),
        neat(gen_group_scan(s, p, keys, condition, table_ctx(t, 0, f))),
        s.next_reg <= gen_group_scan(s, p, keys, condition, table_ctx(t, 0, f)).next_reg
            <= s.next_reg + filling_weight(
            condition,
            keys,
            all_args(p.calls, p.calls.len() as int),
        ),
{
    broadcast use {group_settled, group_grows};

    reveal(gen_group_scan);
    reveal(run);
    let code = big.program().code;
    let ctx = table_ctx(t, 0, f);
    let columns = all_args(p.calls, p.calls.len() as int);
    lemma_all_args_len(p.calls, p.calls.len() as int);
    crate::groups::lemma_args_sum(p.calls, p.calls.len() as int, p.calls.len() as int);
    let u = gen_group_scan(s, p, keys, condition, ctx);
    assert(u.err is None) by {
        reveal(settles);
    }
    let nkey = keys.len() as i32;
    let width = nkey.wrapping_add(args_before(p.calls, p.calls.len() as int));
    assert(width == keys.len() + columns.len());
    let s0 = s.emit_p4(
        Opcode::SorterOpen,
        1,
        width,
        0,
        P4View::KeyInfo(group_key_info(keys.len())),
    ).note_cursor(1);
    let end_scan = s0.fresh();
    let s1 = s0.label().jump(Opcode::Rewind, 0, end_scan, 0);
    let top = s1.fresh();
    let f1 = s1.label().bind(top);
    let next = f1.fresh();
    let f2 = f1.label();
    let f3 = gen_filter(f2, condition, next, ctx);
    let row = f3.next_reg;
    let f4 = f3.take_regs(width);
    let f5 = gen_expr_list(f4, keys, row, ctx, 0);
    let f6 = gen_all_args(f5, p.calls, row.wrapping_add(nkey), ctx, 0);
    let rec = f6.next_reg;
    let f7 = f6.take_regs(1).emit(Opcode::MakeRecord, row, width, rec);
    let f8 = f7.emit(Opcode::SorterInsert, 1, rec, 0);
    let f9 = f8.bind(next).jump(Opcode::Next, 0, top, 0);
    assert(u == f9.bind(end_scan));
    lemma_filter_follows(f2, condition, next, ctx);
    lemma_list_follows(f4, keys, row, ctx, 0);
    lemma_args_grow(f5, p.calls, row.wrapping_add(nkey), ctx, 0);
    assert(f6.err is None);
    lemma_fresh_grows(f5, f6);
    lemma_fresh_grows(f4, f5);
    lemma_fresh_grows(f2, f3);
    assert(s.err is None);
    assert(s0.next_reg == s.next_reg) by {
        reveal(Asm::note_cursor);
    }
    lemma_take(f3, width);
    assert(row.wrapping_add(nkey) == row + nkey);
    lemma_all_args_are_list(f5, p.calls, row.wrapping_add(nkey), ctx, 0);
    assert(args_sum(p.calls, 0) == 0);
    assert(f6 == gen_expr_list(f5, columns, (row + keys.len()) as i32, ctx, 0));
    lemma_list_follows(f5, columns, (row + keys.len()) as i32, ctx, 0);
    assert(!f9.bound(end_scan));
    assert(settles(f9, big));
    assert(!f8.bound(next));
    assert(settles(f8, big));
    assert(settles(f7, big));
    assert(settles(f6, big));
    lemma_settles_early(f5, f6, big);
    lemma_settles_early(f4, f5, big);
    assert(settles(f3, big));
    lemma_settles_early(f2, f3, big);
    assert(settles(f1, big));
    assert(!s1.label().bound(top));
    assert(settles(s1, big));
    assert(settles(s0, big));
    assert(neat(s0) && neat(s1) && neat(f1) && neat(f2));
    lemma_grows_neat(f2, f3);
    assert(neat(f4));
    lemma_grows_neat(f4, f5);
    lemma_grows_neat(f5, f6);
    assert(neat(f7) && neat(f8) && neat(f9));
    lemma_take(f6, 1);
    assert(big.program().code.len() <= i32::MAX) by {
        reveal(settles);
        reveal(Asm::program);
    }
    let open = opened_empty(st, 1, P4View::KeyInfo(group_key_info(keys.len())));
    lemma_reaches_self(m, code, st);
    lemma_advance(m, code, st, st, code[st.pc]);
    let a = run(m, code[st.pc], st);
    assert(a == State { pc: a.pc, ..open });
    let x = Filling {
        table: t,
        functions: f,
        cursor: 0,
        condition,
        keys,
        columns,
        m,
        big,
        start: open,
        f1,
        f2,
        f3,
        f4,
        f5,
        f6,
        next,
    };
    assert(filling_stands(x));
    lemma_advance(m, code, st, a, code[a.pc]);
    let b = run(m, code[a.pc], a);
    let n = rows_of(open, 0).len() as int;
    assert(filled(x, b, 0)) by {
        assert(b.cursors =~= open.cursors.insert(0, b.cursors[0]));
        assert(b.trees =~= open.trees.insert(open.cursors[1].root, rows_of(open, 1) + Seq::<
            Row,
        >::empty()));
    }
    let c = if n == 0 {
        b
    } else {
        let c = lemma_filling_rows(x, b, 0);
        lemma_reaches_through(m, code, st, b, c);
        c
    };
    assert(rows_of(open, 1) =~= Seq::empty());
    assert(rows_of(c, 1) =~= group_input(m, t, f, open, condition, keys, p.calls));
    c
}

/// The code of a query with a `GROUP BY` clause, once its table is open, puts out one row for each
/// group of those rows of the table for which the condition is true, if the `HAVING` clause keeps
/// the group, and ends.
pub proof fn law_grouped_rows(
    s: Asm,
    p: AggPlanView,
    keys: Seq<ExprView>,
    condition: Option<ExprView>,
    t: TableView,
    f: FunctionsView,
    m: Values,
    big: Asm,
    lo: i32,
    st: State,
) -> (r: (State, State))
    requires
        settles(
            gen_group_walk(
                gen_group_scan(s, p, keys, condition, table_ctx(t, 0, f)),
                p,
                keys.len(),
                false,
                false,
                None,
                None,
                table_ctx(t, 0, f),
            ),
            big,
        ),
        neat(s),
        st.pc == s.code.len(),
        !st.halted,
        st.cursors[0].root >= 0,
        narrow(t),
        tame_condition(condition, 0),
        tame_from(keys, 0, 0),
        tame_from(all_args(p.calls, p.calls.len() as int), 0, 0),
        tame_condition(p.having, lo as int),
        tame_from(p.outputs, lo as int, 0),
        plan_fits(p, keys.len() as int, lo),
        lo <= s.next_reg,
        s.next_reg + filling_weight(condition, keys, all_args(p.calls, p.calls.len() as int))
            + walk_weight(p, keys.len() as int) <= i32::MAX,
        plain_values(m),
        sorting_keeps(m),
        forall|j: int| 0 <= j < keys.len() ==> st.regs[#[trigger] nth(p.key_base, j)] is Null,
        forall|k: int| 0 <= k < p.calls.len() ==> !(st.regs[#[trigger] nth(p.base, k)] is Acc),
    ensures
        ({
            let (mid, st2) = r;
            let info = Seq::new(keys.len(), |i: int| crate::vdbe::ascending());
            let open = opened_empty(st, 1, P4View::KeyInfo(info));
            let sorted = (m.sorted)(group_input(m, t, f, open, condition, keys, p.calls), info);
            &&& reaches(m, big.program().code, st, st2)
            &&& st2.halted
            &&& st2.error == st.error
            &&& mid.cursors[0].root == st.cursors[0].root
            &&& st2.out == st.out + group_rows(
                p,
                keys.len() as int,
                table_row(m, t, f, mid, 0),
                runs(m, sorted, keys.len() as int),
            )
        }),
{
    let code = big.program().code;
    let ctx = table_ctx(t, 0, f);
    let info = Seq::new(keys.len(), |i: int| crate::vdbe::ascending());
    assert(group_key_info(keys.len()) =~= info);
    let u = gen_group_scan(s, p, keys, condition, ctx);
    let whole = gen_group_walk(u, p, keys.len(), false, false, None, None, ctx);
    assert(whole.err is None) by {
        reveal(settles);
    }
    crate::groups::lemma_walk_grows(u, p, keys.len(), ctx);
    lemma_settles_early(u, whole, big);
    let mid = law_group_scan_code(s, p, keys, condition, t, f, m, big, st);
    assert forall|j: int| 0 <= j < keys.len() implies mid.regs[#[trigger] nth(
        p.key_base,
        j,
    )] is Null by {
        assert(st.regs[nth(p.key_base, j)] is Null);
    }
    assert forall|k: int| 0 <= k < p.calls.len() implies !(mid.regs[#[trigger] nth(
        p.base,
        k,
    )] is Acc) by {
        assert(!(st.regs[nth(p.base, k)] is Acc));
    }
    let z = law_group_walk(u, p, keys.len(), t, f, m, big, lo, mid);
    lemma_reaches_through(m, code, st, mid, z);
    (mid, z)
}

} // verus!
