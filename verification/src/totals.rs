//! What an aggregate query without a `GROUP BY` clause puts out.
use vstd::prelude::*;

use crate::aggregate::{call_args, gen_finals, gen_one_group, gen_steps, AggPlanView};
use crate::ast::ExprView;
use crate::builder::{group_asm, reg_at, Asm};
use crate::expr::gen_expr_list;
use crate::groups::{lemma_finals_code, lemma_finals_follow, stepped};
use crate::machine::{
    block, group_grows, group_settled, lemma_grows_neat, lemma_grows_through, lemma_reaches_self,
    lemma_reaches_through, lemma_settles_early, neat, nth, place, reaches, rows_of, run, settles,
    State, Val, Values,
};
use crate::meaning::{
    follows, kept, law_table_columns, lemma_advance, lemma_fresh_grows, lemma_list_code,
    lemma_list_follows, lemma_serves_like, lemma_serves_on, lemma_take, lemma_values_from, narrow,
    serves, table_column, table_row, tame_from, values_from, weight_from, Env,
};
use crate::rewrite::AggCallView;
use crate::rows::{condition_weight, law_filter_code, lemma_filter_follows, row_env, tame_condition};
use crate::scan::{filter_stuck, gen_filter};
use crate::schema::{FunctionsView, TableView};
use crate::scope::{table_ctx, CtxView};
use crate::vdbe::{InstView, Opcode, P4View};

verus! {

broadcast use group_asm;

/// A bound on the registers that feeding the accumulators from the `k`-th on takes.
pub open spec fn feeding_weight(calls: Seq<AggCallView>, k: int) -> nat
    decreases calls.len() - k,
{
    if k < 0 || k >= calls.len() {
        0
    } else {
        call_args(calls[k]).len() + weight_from(call_args(calls[k]), 0) + feeding_weight(
            calls,
            k + 1,
        )
    }
}

/// The plan fits the machine, and its accumulators lie below `lo`.
pub open spec fn totals_fit(p: AggPlanView, lo: i32) -> bool {
    &&& p.kinds.len() == p.calls.len()
    &&& 0 <= p.base
    &&& p.base + p.calls.len() <= lo
    &&& forall|k: int|
        0 <= k < p.calls.len() ==> call_args(#[trigger] p.calls[k]).len() <= u8::MAX
            && tame_from(call_args(p.calls[k]), 0, 0)
}

proof fn lemma_feeding_follows(s: Asm, p: AggPlanView, ctx: CtxView, k: int)
    requires
        forall|k: int|
            0 <= k < p.calls.len() ==> call_args(#[trigger] p.calls[k]).len() <= u8::MAX,
    ensures
        follows(s, gen_steps(s, p, ctx, k), feeding_weight(p.calls, k)),
    decreases p.calls.len() - k,
{
    broadcast use group_grows;

    if s.err is Some || k < 0 || k >= p.calls.len() {
    } else {
        let args = call_args(p.calls[k]);
        let star = p.calls[k].args is Star;
        let at = if star {
            0
        } else {
            s.next_reg
        };
        let s0 = s.take_regs(args.len() as i32);
        let s1 = if star {
            s
        } else {
            gen_expr_list(s0, args, at, ctx, 0)
        };
        let s2 = s1.emit_p45(
            Opcode::AggStep,
            0,
            at,
            reg_at(p.base, k),
            P4View::FuncDef(p.kinds[k]),
            args.len() as u8,
        );
        if !star {
            lemma_take(s, args.len() as i32);
            lemma_list_follows(s0, args, at, ctx, 0);
            lemma_grows_through(s, s0, s1);
        }
        lemma_feeding_follows(s2, p, ctx, k + 1);
        let u = gen_steps(s2, p, ctx, k + 1);
        lemma_grows_through(s, s2, u);
        if u.err is None {
            lemma_fresh_grows(s2, u);
        }
    }
}

/// The accumulators from the `k`-th on are fed with their arguments for the row in hand.
proof fn lemma_feeding_code(
    s: Asm,
    p: AggPlanView,
    env: Env,
    big: Asm,
    lo: i32,
    st: State,
    k: int,
) -> (st2: State)
    requires
        settles(gen_steps(s, p, env.ctx, k), big),
        neat(s),
        st.pc == s.code.len(),
        !st.halted,
        serves(env, big, 0, st),
        totals_fit(p, lo),
        lo <= s.next_reg,
        s.next_reg + feeding_weight(p.calls, k) <= i32::MAX,
        0 <= k <= p.calls.len(),
    ensures
        reaches(env.m, big.program().code, st, st2),
        st2.pc == gen_steps(s, p, env.ctx, k).code.len(),
        st2 == (State { pc: st2.pc, regs: st2.regs, ..st }),
        forall|r: i32|
            r < s.next_reg && !(p.base + k <= r < p.base + p.calls.len())
                ==> #[trigger] st2.regs[r] == st.regs[r],
        forall|j: int|
            k <= j < p.calls.len() ==> st2.regs[#[trigger] nth(p.base, j)] == stepped(
                st.regs[nth(p.base, j)],
                p.kinds[j],
                values_from(call_args(p.calls[j]), env, 0),
            ),
    decreases p.calls.len() - k,
{
    broadcast use group_settled;

    reveal(run);
    let m = env.m;
    let code = big.program().code;
    let u = gen_steps(s, p, env.ctx, k);
    assert(u.err is None) by {
        reveal(settles);
    }
    lemma_reaches_self(m, code, st);
    if k >= p.calls.len() {
        st
    } else {
        let args = call_args(p.calls[k]);
        let vs = values_from(args, env, 0);
        let star = p.calls[k].args is Star;
        let at = if star {
            0
        } else {
            s.next_reg
        };
        let s0 = s.take_regs(args.len() as i32);
        let s1 = if star {
            s
        } else {
            gen_expr_list(s0, args, at, env.ctx, 0)
        };
        let s2 = s1.emit_p45(
            Opcode::AggStep,
            0,
            at,
            reg_at(p.base, k),
            P4View::FuncDef(p.kinds[k]),
            args.len() as u8,
        );
        assert(reg_at(p.base, k) == nth(p.base, k));
        lemma_feeding_follows(s2, p, env.ctx, k + 1);
        lemma_settles_early(s2, u, big);
        assert(settles(s1, big));
        lemma_values_from(args, env, 0);
        let a = if star {
            st
        } else {
            assert(s1.err is None) by {
                reveal(settles);
            }
            lemma_list_follows(s0, args, at, env.ctx, 0);
            lemma_settles_early(s0, s1, big);
            assert(settles(s, big));
            assert(s.err is None) by {
                reveal(settles);
            }
            lemma_take(s, args.len() as i32);
            assert(neat(s0));
            lemma_grows_neat(s0, s1);
            lemma_list_code(s0, args, at, env, big, 0, st, 0)
        };
        assert(neat(s1));
        assert(block(a, at, args.len() as int) =~= vs);
        lemma_advance(m, code, st, a, code[a.pc]);
        let b = run(m, code[a.pc], a);
        assert(b.regs[nth(p.base, k)] == stepped(st.regs[nth(p.base, k)], p.kinds[k], vs));
        lemma_serves_on(env, big, 0, st, b);
        let d = lemma_feeding_code(s2, p, env, big, lo, b, k + 1);
        lemma_reaches_through(m, code, st, b, d);
        assert forall|j: int| k <= j < p.calls.len() implies d.regs[#[trigger] nth(p.base, j)]
            == stepped(
            st.regs[nth(p.base, j)],
            p.kinds[j],
            values_from(call_args(p.calls[j]), env, 0),
        ) by {
            if j > k {
                assert(b.regs[nth(p.base, j)] == st.regs[nth(p.base, j)]);
            }
        }
        d
    }
}

/// An aggregate query over a table.
pub ghost struct Totals {
    pub m: Values,
    pub t: TableView,
    pub f: FunctionsView,
    pub start: State,
    pub p: AggPlanView,
    pub condition: Option<ExprView>,
}

/// What the accumulator of call `k` is fed with by the first `n` rows: the arguments of each row
/// for which the condition is true.
pub open spec fn fed_by(x: Totals, k: int, n: int) -> Seq<Seq<Val>>
    decreases n,
{
    if n <= 0 {
        Seq::empty()
    } else {
        let before = fed_by(x, k, n - 1);
        let env = row_env(x.m, x.t, x.f, x.start, 0, n - 1);
        if kept(x.condition, env) {
            before.push(values_from(call_args(x.p.calls[k]), env, 0))
        } else {
            before
        }
    }
}

/// What the output is computed from, where `last` is the state behind the scan: the results of the
/// aggregate functions over all rows for which the condition is true.
pub open spec fn totals_env(x: Totals, last: State) -> Env {
    Env {
        slot: |r: i32|
            if x.p.base <= r < x.p.base + x.p.calls.len() {
                (x.m.result)(
                    x.p.kinds[r - x.p.base],
                    fed_by(x, r - x.p.base, rows_of(x.start, 0).len() as int),
                )
            } else {
                x.start.regs[r]
            },
        ..table_row(x.m, x.t, x.f, last, 0)
    }
}

/// The first `n` rows have been fed to the accumulators.
pub open spec fn fed_so_far(x: Totals, st: State, lo: i32, n: int) -> bool {
    &&& st.cursors[0].root == x.start.cursors[0].root
    &&& st.trees == x.start.trees
    &&& !st.halted
    &&& st.error == x.start.error
    &&& st.out == x.start.out
    &&& forall|r: i32|
        r < lo && !(x.p.base <= r < x.p.base + x.p.calls.len()) ==> #[trigger] st.regs[r]
            == x.start.regs[r]
    &&& forall|k: int|
        0 <= k < x.p.calls.len() ==> if fed_by(x, k, n).len() == 0 {
            !(st.regs[#[trigger] nth(x.p.base, k)] is Acc)
        } else {
            st.regs[nth(x.p.base, k)] == Val::Acc(x.p.kinds[k], fed_by(x, k, n))
        }
}

/// The scan of an aggregate query stands in the program.
pub open spec fn totals_stand(
    x: Totals,
    big: Asm,
    lo: i32,
    next: int,
    g3: Asm,
    g4: Asm,
    g5: Asm,
) -> bool {
    let code = big.program().code;
    let ctx = table_ctx(x.t, 0, x.f);
    &&& g4 == gen_filter(g3, x.condition, next, ctx)
    &&& g5 == gen_steps(g4, x.p, ctx, 0)
    &&& neat(g3) && neat(g4)
    &&& settles(g4, big) && settles(g5, big)
    &&& g3.code.len() <= g5.code.len() < code.len() <= i32::MAX
    &&& 0 <= next < g3.fresh()
    &&& place(big, next) == g5.code.len()
    &&& code[g5.code.len() as int] == (InstView {
        opcode: Opcode::Next,
        p1: 0,
        p2: g3.code.len() as i32,
        p3: 0,
        p4: P4View::Unused,
        p5: 0,
    })
    &&& 0 <= lo <= g3.next_reg <= g4.next_reg <= g3.next_reg + condition_weight(x.condition)
    &&& g3.next_reg + condition_weight(x.condition) + feeding_weight(x.p.calls, 0) <= i32::MAX
    &&& totals_fit(x.p, lo)
    &&& narrow(x.t)
    &&& tame_condition(x.condition, 0)
}

proof fn lemma_totals_rows(
    x: Totals,
    big: Asm,
    lo: i32,
    next: int,
    g3: Asm,
    g4: Asm,
    g5: Asm,
    st: State,
    i: int,
) -> (st2: State)
    requires
        totals_stand(x, big, lo, next, g3, g4, g5),
        fed_so_far(x, st, lo, i),
        st.cursors[0].at == i,
        0 <= i < rows_of(x.start, 0).len(),
        st.pc == g3.code.len(),
    ensures
        reaches(x.m, big.program().code, st, st2),
        fed_so_far(x, st2, lo, rows_of(x.start, 0).len() as int),
        st2.pc == g5.code.len() + 1,
    decreases rows_of(x.start, 0).len() - i,
{
    reveal(run);
    let m = x.m;
    let code = big.program().code;
    let env = row_env(m, x.t, x.f, x.start, 0, i);
    let there = crate::machine::moved(x.start, 0, i);
    let here = table_row(m, x.t, x.f, st, 0);
    law_table_columns(m, x.t, x.f, 0, big, 0, st);
    assert(rows_of(st, 0) == rows_of(there, 0));
    assert forall|q: Option<Seq<char>>, name: Seq<char>| #[trigger]
        (env.column)(q, name) == (here.column)(q, name) by {
        assert(table_column(m, x.t, st, 0, name) == table_column(m, x.t, there, 0, name));
    }
    lemma_serves_like(here, env, big, 0, st);
    let a = law_filter_code(g3, x.condition, next, env, big, 0, st);
    let d = if kept(x.condition, env) {
        let d = lemma_feeding_code(g4, x.p, env, big, lo, a, 0);
        lemma_reaches_through(m, code, st, a, d);
        assert forall|k: int| 0 <= k < x.p.calls.len() implies d.regs[#[trigger] nth(x.p.base, k)]
            == Val::Acc(x.p.kinds[k], fed_by(x, k, i + 1)) by {
            let args = values_from(call_args(x.p.calls[k]), env, 0);
            assert(a.regs[nth(x.p.base, k)] == st.regs[nth(x.p.base, k)]);
            assert(d.regs[nth(x.p.base, k)] == stepped(
                st.regs[nth(x.p.base, k)],
                x.p.kinds[k],
                args,
            ));
            if fed_by(x, k, i).len() == 0 {
                assert(fed_by(x, k, i + 1) =~= seq![args]);
            }
        }
        d
    } else {
        assert forall|k: int| 0 <= k < x.p.calls.len() implies a.regs[#[trigger] nth(x.p.base, k)]
            == st.regs[nth(x.p.base, k)] by {}
        a
    };
    assert(fed_so_far(x, d, lo, i + 1));
    lemma_advance(m, code, st, d, code[d.pc]);
    let e = run(m, code[d.pc], d);
    assert(rows_of(d, 0) == rows_of(x.start, 0));
    assert(fed_so_far(x, e, lo, i + 1)) by {
        assert forall|k: int| 0 <= k < x.p.calls.len() implies e.regs[#[trigger] nth(x.p.base, k)]
            == d.regs[nth(x.p.base, k)] by {}
    }
    if i + 1 < rows_of(x.start, 0).len() {
        let z = lemma_totals_rows(x, big, lo, next, g3, g4, g5, e, i + 1);
        lemma_reaches_through(m, code, st, e, z);
        z
    } else {
        e
    }
}

/// The code of an aggregate query without a `GROUP BY` clause, once its table is open, puts out
/// one row if the `HAVING` clause keeps it, whether the table has rows or not, and ends. The row
/// is computed from the results of the aggregate functions over exactly those rows for which the
/// condition is true.
#[verifier::rlimit(50)]
pub proof fn law_one_group_code(
    s: Asm,
    p: AggPlanView,
    condition: Option<ExprView>,
    t: TableView,
    f: FunctionsView,
    m: Values,
    big: Asm,
    lo: i32,
    st: State,
) -> (r: (State, State))
    requires
        settles(
            gen_one_group(s, p, condition, false, None, None, table_ctx(t, 0, f)),
            big,
        ),
        neat(s),
        st.pc == s.code.len(),
        !st.halted,
        narrow(t),
        totals_fit(p, lo),
        0 <= lo <= s.next_reg,
        tame_condition(condition, 0),
        tame_condition(p.having, lo as int),
        tame_from(p.outputs, lo as int, 0),
        s.next_reg + condition_weight(condition) + feeding_weight(p.calls, 0) + condition_weight(
            p.having,
        ) + p.outputs.len() + weight_from(p.outputs, 0) <= i32::MAX,
        forall|k: int| 0 <= k < p.calls.len() ==> !(st.regs[#[trigger] nth(p.base, k)] is Acc),
    ensures
        ({
            let (last, st2) = r;
            let env = totals_env(Totals { m, t, f, start: st, p, condition }, last);
            &&& reaches(m, big.program().code, st, st2)
            &&& st2.halted
            &&& st2.error == st.error
            &&& st2.out == (if kept(p.having, env) {
                st.out.push(values_from(p.outputs, env, 0))
            } else {
                st.out
            })
        }),
{
    broadcast use {group_settled, group_grows, filter_stuck};

    reveal(gen_one_group);
    reveal(run);
    let code = big.program().code;
    let ctx = table_ctx(t, 0, f);
    let x = Totals { m, t, f, start: st, p, condition };
    let ncol = p.outputs.len() as i32;
    let u = gen_one_group(s, p, condition, false, None, None, ctx);
    assert(u.err is None) by {
        reveal(settles);
    }
    let end_scan = s.fresh();
    let g1 = s.label().jump(Opcode::Rewind, 0, end_scan, 0);
    let top = g1.fresh();
    let g2 = g1.label().bind(top);
    let next = g2.fresh();
    let g3 = g2.label();
    let g4 = gen_filter(g3, condition, next, ctx);
    let g5 = gen_steps(g4, p, ctx, 0);
    let g6 = g5.bind(next).jump(Opcode::Next, 0, top, 0);
    let g7 = g6.bind(end_scan);
    let g8 = gen_finals(g7, p, 0);
    let end = g8.fresh();
    let g9 = g8.label();
    let g10 = gen_filter(g9, p.having, end, ctx);
    let g11 = g10.take_regs(ncol);
    let g12 = gen_expr_list(g11, p.outputs, g10.next_reg, ctx, 0);
    let g13 = g12.emit(Opcode::ResultRow, g10.next_reg, ncol, 0);
    assert(u == g13.bind(end).emit(Opcode::Halt, 0, 0, 0));
    lemma_filter_follows(g3, condition, next, ctx);
    lemma_feeding_follows(g4, p, ctx, 0);
    lemma_finals_follow(g7, p, 0);
    lemma_filter_follows(g9, p.having, end, ctx);
    lemma_list_follows(g11, p.outputs, g10.next_reg, ctx, 0);
    assert(g12.err is None);
    lemma_fresh_grows(g11, g12);
    lemma_fresh_grows(g9, g10);
    lemma_fresh_grows(g7, g8);
    assert(g5.err is None);
    lemma_fresh_grows(g4, g5);
    lemma_fresh_grows(g3, g4);
    assert(s.err is None);
    assert(!g13.bound(end));
    assert(settles(g13, big));
    assert(settles(g12, big));
    lemma_settles_early(g11, g12, big);
    assert(settles(g10, big));
    lemma_settles_early(g9, g10, big);
    assert(settles(g8, big));
    lemma_settles_early(g7, g8, big);
    assert(!g6.bound(end_scan));
    assert(settles(g6, big));
    assert(!g5.bound(next));
    assert(settles(g5, big));
    lemma_settles_early(g4, g5, big);
    lemma_settles_early(g3, g4, big);
    assert(settles(g2, big));
    assert(!g1.label().bound(top));
    assert(settles(g1, big));
    assert(neat(g1) && neat(g2) && neat(g3));
    lemma_grows_neat(g3, g4);
    lemma_grows_neat(g4, g5);
    assert(neat(g6) && neat(g7));
    lemma_grows_neat(g7, g8);
    assert(neat(g9));
    lemma_grows_neat(g9, g10);
    assert(neat(g11));
    lemma_grows_neat(g11, g12);
    assert(neat(g13));
    assert(big.program().code.len() <= i32::MAX) by {
        reveal(settles);
        reveal(Asm::program);
    }
    assert(totals_stand(x, big, lo, next, g3, g4, g5));
    lemma_reaches_self(m, code, st);
    lemma_advance(m, code, st, st, code[st.pc]);
    let a = run(m, code[st.pc], st);
    assert(fed_so_far(x, a, lo, 0)) by {
        assert forall|k: int| 0 <= k < p.calls.len() implies !(a.regs[#[trigger] nth(
            p.base,
            k,
        )] is Acc) by {
            assert(!(st.regs[nth(p.base, k)] is Acc));
        }
    }
    let n = rows_of(st, 0).len() as int;
    let b = if n == 0 {
        a
    } else {
        let b = lemma_totals_rows(x, big, lo, next, g3, g4, g5, a, 0);
        lemma_reaches_through(m, code, st, a, b);
        b
    };
    assert(b.pc == g7.code.len());
    let c = lemma_finals_code(g7, p, m, big, b, 0);
    lemma_reaches_through(m, code, st, b, c);
    let env = totals_env(x, c);
    assert forall|r: i32| r < lo implies #[trigger] c.regs[r] == (env.slot)(r) by {
        if p.base <= r < p.base + p.calls.len() {
            let k = r - p.base;
            assert(r == nth(p.base, k));
            let v = b.regs[nth(p.base, k)];
            if fed_by(x, k, n).len() == 0 {
                assert(!(v is Acc));
                assert(fed_by(x, k, n) =~= Seq::empty());
            }
        } else {
            assert(b.regs[r] == st.regs[r]);
        }
    }
    law_table_columns(m, t, f, 0, big, lo, c);
    lemma_serves_like(table_row(m, t, f, c, 0), env, big, lo, c);
    let d = law_filter_code(g9, p.having, end, env, big, lo, c);
    lemma_reaches_through(m, code, st, c, d);
    let e = if kept(p.having, env) {
        lemma_take(g10, ncol);
        let row = g10.next_reg;
        let e = lemma_list_code(g11, p.outputs, row, env, big, lo, d, 0);
        lemma_reaches_through(m, code, st, d, e);
        lemma_values_from(p.outputs, env, 0);
        assert(block(e, row, ncol as int) =~= values_from(p.outputs, env, 0));
        lemma_advance(m, code, st, e, code[e.pc]);
        run(m, code[e.pc], e)
    } else {
        d
    };
    lemma_advance(m, code, st, e, code[e.pc]);
    (c, run(m, code[e.pc], e))
}

} // verus!
