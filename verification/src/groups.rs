//! Which groups a query with a `GROUP BY` clause puts out.
//!
//! The rows come out of the sorter with the group keys as their first fields and the arguments of
//! the aggregate functions behind them. [`runs`] divides them into groups, and [`law_group_walk`]
//! says that the program puts out one row for each group that the `HAVING` clause keeps.
use vstd::prelude::*;

use crate::aggregate::{
    args_before, call_args, gen_finals, gen_group_walk, gen_sorted_steps, group_key_info,
    AggPlanView,
};
use crate::builder::{group_asm, reg_at, Asm};
use crate::emit::gen_columns;
use crate::expr::gen_expr_list;
use crate::machine::{
    block, copied, field, group_grows, group_settled, grows, key_order, lemma_grows_neat,
    lemma_grows_through, lemma_reaches_self, lemma_reaches_through, lemma_settles_early, neat, nth,
    place, reaches, row_field, rows_of, run, settles, Row, State, Val, Values,
};
use crate::meaning::{
    follows, kept, law_table_columns, lemma_advance, lemma_fresh_grows, lemma_list_code,
    lemma_list_follows, lemma_serves_like, lemma_serves_on, lemma_values_from, narrow, serves,
    table_column, table_row, tame_from, values_from, weight_from, Env,
};
use crate::rewrite::AggCallView;
use crate::rows::{
    condition_weight, law_filter_code, lemma_columns_code, lemma_columns_follow,
    lemma_filter_follows, tame_condition,
};
use crate::scan::{filter_stuck, gen_filter};
use crate::schema::{FunctionsView, TableView};
use crate::scope::{table_ctx, CtxView};
use crate::vdbe::{ascending, InstView, KeyField, Opcode, P4View};

verus! {

broadcast use group_asm;

// ---- Groups ----

/// Two rows agree in every one of their first `n` fields.
pub open spec fn same_group(m: Values, a: Row, b: Row, n: int) -> bool {
    forall|i: int|
        0 <= i < n ==> (#[trigger] (m.field_order)(row_field(a, i), row_field(b, i), ascending()))
            == 0
}

/// The rows divided into groups: a row joins the group before it if it agrees with the first row
/// of that group in every group key, else it starts a group.
pub open spec fn runs(m: Values, rows: Seq<Row>, n: int) -> Seq<Seq<Row>>
    decreases rows.len(),
{
    if rows.len() == 0 {
        Seq::empty()
    } else {
        let before = runs(m, rows.drop_last(), n);
        if before.len() > 0 && same_group(m, before.last()[0], rows.last(), n) {
            before.drop_last().push(before.last().push(rows.last()))
        } else {
            before.push(seq![rows.last()])
        }
    }
}

/// The groups one after the other.
pub open spec fn joined(groups: Seq<Seq<Row>>) -> Seq<Row>
    decreases groups.len(),
{
    if groups.len() == 0 {
        Seq::empty()
    } else {
        joined(groups.drop_last()) + groups.last()
    }
}

/// The groups hold all rows in their order. None is empty, the rows of a group agree with its
/// first row in every group key, and a group differs from the one before it in some group key.
pub proof fn law_groups(m: Values, rows: Seq<Row>, n: int)
    ensures
        joined(runs(m, rows, n)) == rows,
        forall|g: int|
            0 <= g < runs(m, rows, n).len() ==> (#[trigger] runs(m, rows, n)[g]).len() > 0,
        forall|g: int, i: int|
            0 <= g < runs(m, rows, n).len() && 0 < i < runs(m, rows, n)[g].len() ==> same_group(
                m,
                runs(m, rows, n)[g][0],
                #[trigger] runs(m, rows, n)[g][i],
                n,
            ),
        forall|g: int|
            0 < g < runs(m, rows, n).len() ==> !same_group(
                m,
                runs(m, rows, n)[g - 1][0],
                (#[trigger] runs(m, rows, n)[g])[0],
                n,
            ),
    decreases rows.len(),
{
    if rows.len() > 0 {
        let prev = rows.drop_last();
        law_groups(m, prev, n);
        let before = runs(m, prev, n);
        let r = runs(m, rows, n);
        if before.len() > 0 && same_group(m, before.last()[0], rows.last(), n) {
            assert(r.drop_last() =~= before.drop_last());
            assert(joined(r) =~= joined(before).push(rows.last()));
            assert forall|g: int| 0 <= g < r.len() implies (#[trigger] r[g]).len() > 0 by {
                if g < r.len() - 1 {
                    assert(r[g] == before[g]);
                }
            }
            assert forall|g: int, i: int|
                0 <= g < r.len() && 0 < i < r[g].len() implies same_group(
                m,
                r[g][0],
                #[trigger] r[g][i],
                n,
            ) by {
                if g < r.len() - 1 {
                    assert(r[g] == before[g]);
                    assert(same_group(m, before[g][0], before[g][i], n));
                } else {
                    let b = before[g];
                    assert(b.len() > 0);
                    assert(r[g] == b.push(rows.last()));
                    if i < b.len() {
                        assert(same_group(m, before[g][0], before[g][i], n));
                    }
                }
            }
            assert forall|g: int| 0 < g < r.len() implies !same_group(
                m,
                r[g - 1][0],
                (#[trigger] r[g])[0],
                n,
            ) by {
                assert(before[g].len() > 0 && before[g - 1].len() > 0);
                assert(r[g][0] == before[g][0]);
                assert(r[g - 1][0] == before[g - 1][0]);
            }
        } else {
            assert(r.drop_last() =~= before);
            assert(joined(r) =~= joined(before) + seq![rows.last()]);
            assert forall|g: int, i: int|
                0 <= g < r.len() && 0 < i < r[g].len() implies same_group(
                m,
                r[g][0],
                #[trigger] r[g][i],
                n,
            ) by {
                if g < r.len() - 1 {
                    assert(r[g] == before[g]);
                    assert(same_group(m, before[g][0], before[g][i], n));
                }
            }
            assert forall|g: int| 0 < g < r.len() implies !same_group(
                m,
                r[g - 1][0],
                (#[trigger] r[g])[0],
                n,
            ) by {
                if g < r.len() - 1 {
                    assert(r[g] == before[g]);
                    assert(r[g - 1] == before[g - 1]);
                } else {
                    assert(r[g - 1] == before.last());
                    assert(r[g] == seq![rows.last()]);
                }
            }
        }
        assert(joined(r) =~= rows);
    }
}

proof fn lemma_key_order(m: Values, a: Seq<Val>, b: Seq<Val>, info: Seq<KeyField>, k: int)
    requires
        0 <= k <= a.len(),
        a.len() <= b.len(),
        info.len() == a.len(),
        forall|i: int| 0 <= i < info.len() ==> (#[trigger] info[i]) == ascending(),
    ensures
        (key_order(m, a, b, info, k) == 0) == (forall|i: int|
            k <= i < a.len() ==> (#[trigger] (m.field_order)(a[i], b[i], ascending())) == 0),
    decreases a.len() - k,
{
    if k < a.len() {
        lemma_key_order(m, a, b, info, k + 1);
        assert(info[k] == ascending());
        if (m.field_order)(a[k], b[k], ascending()) == 0 {
            assert forall|i: int| k <= i < a.len() && key_order(m, a, b, info, k) == 0 implies (
            #[trigger] (m.field_order)(a[i], b[i], ascending())) == 0 by {}
        }
    }
}

// ---- Accumulators ----

/// The number of arguments of the first `k` calls.
pub open spec fn args_sum(calls: Seq<AggCallView>, k: int) -> nat
    decreases k,
{
    if k <= 0 || k > calls.len() {
        0
    } else {
        args_sum(calls, k - 1) + call_args(calls[k - 1]).len()
    }
}

pub proof fn lemma_args_sum(calls: Seq<AggCallView>, k: int, n: int)
    requires
        0 <= k <= n <= calls.len(),
        args_sum(calls, n) <= i32::MAX,
    ensures
        args_before(calls, k) == args_sum(calls, k),
        args_sum(calls, k) <= args_sum(calls, n),
    decreases n,
{
    if k < n {
        lemma_args_sum(calls, k, n - 1);
    } else if k > 0 {
        lemma_args_sum(calls, k - 1, n - 1);
        assert(call_args(calls[k - 1]).len() <= i32::MAX);
    }
}

/// The arguments of call `k` in a row behind `n` group keys.
pub open spec fn call_fields(calls: Seq<AggCallView>, n: int, k: int, row: Row) -> Seq<Val> {
    Seq::new(
        call_args(calls[k]).len(),
        |j: int| row_field(row, n + args_sum(calls, k) + j),
    )
}

/// What the accumulator of call `k` is fed with by a group.
pub open spec fn fed(calls: Seq<AggCallView>, n: int, k: int, group: Seq<Row>) -> Seq<Seq<Val>> {
    Seq::new(group.len(), |i: int| call_fields(calls, n, k, group[i]))
}

/// The plan fits the machine, and its registers lie below `lo`, the accumulators apart from the
/// group keys.
pub open spec fn plan_fits(p: AggPlanView, n: int, lo: i32) -> bool {
    &&& p.kinds.len() == p.calls.len()
    &&& 0 < n
    &&& 0 <= p.key_base
    &&& p.key_base + n <= lo
    &&& 0 <= p.base
    &&& p.base + p.calls.len() <= lo
    &&& p.base + p.calls.len() <= p.key_base || p.key_base + n <= p.base
    &&& n + args_sum(p.calls, p.calls.len() as int) <= i32::MAX
    &&& forall|k: int| 0 <= k < p.calls.len() ==> call_args(#[trigger] p.calls[k]).len() <= u8::MAX
}

/// A bound on the registers that feeding the accumulators from the `k`-th on takes.
pub open spec fn steps_weight(calls: Seq<AggCallView>, k: int) -> nat
    decreases calls.len() - k,
{
    if k < 0 || k >= calls.len() {
        0
    } else {
        1 + call_args(calls[k]).len() + steps_weight(calls, k + 1)
    }
}

proof fn lemma_steps_follow(s: Asm, p: AggPlanView, nkey: i32, k: int)
    requires
        forall|k: int|
            0 <= k < p.calls.len() ==> call_args(#[trigger] p.calls[k]).len() <= u8::MAX,
    ensures
        follows(s, gen_sorted_steps(s, p, nkey, k), steps_weight(p.calls, k)),
        gen_sorted_steps(s, p, nkey, k).err == s.err,
        gen_sorted_steps(s, p, nkey, k).fresh() == s.fresh(),
    decreases p.calls.len() - k,
{
    broadcast use group_grows;

    if s.err is Some || k < 0 || k >= p.calls.len() {
    } else {
        let n = call_args(p.calls[k]).len() as i32;
        let at = s.next_reg;
        let s1 = s.take_regs(
            if n > 1 {
                n
            } else {
                1
            },
        );
        let from = nkey.wrapping_add(args_before(p.calls, k));
        let s2 = gen_columns(s1, 1, from, at, n as int, 0);
        let s3 = s2.emit_p45(
            Opcode::AggStep,
            0,
            at,
            reg_at(p.base, k),
            P4View::FuncDef(p.kinds[k]),
            call_args(p.calls[k]).len() as u8,
        );
        lemma_columns_follow(s1, 1, from, at, n as int, 0);
        lemma_grows_through(s, s1, s2);
        lemma_steps_follow(s3, p, nkey, k + 1);
        lemma_grows_through(s, s3, gen_sorted_steps(s3, p, nkey, k + 1));
        reveal(Asm::take_regs);
    }
}

/// An accumulator with one more list of arguments fed to it.
pub open spec fn stepped(v: Val, kind: crate::vdbe::AggregateKind, args: Seq<Val>) -> Val {
    match v {
        Val::Acc(_, fed) => Val::Acc(kind, fed.push(args)),
        _ => Val::Acc(kind, seq![args]),
    }
}

/// The accumulators from the `k`-th on are fed with the arguments in the row that the sorter is
/// on.
proof fn lemma_steps_code(
    s: Asm,
    p: AggPlanView,
    n: int,
    m: Values,
    big: Asm,
    lo: i32,
    st: State,
    k: int,
) -> (st2: State)
    requires
        settles(gen_sorted_steps(s, p, n as i32, k), big),
        neat(s),
        st.pc == s.code.len(),
        !st.halted,
        plan_fits(p, n, lo),
        lo <= s.next_reg,
        s.next_reg + steps_weight(p.calls, k) <= i32::MAX,
        0 <= k <= p.calls.len(),
        0 <= st.cursors[1].at < rows_of(st, 1).len(),
    ensures
        reaches(m, big.program().code, st, st2),
        st2.pc == gen_sorted_steps(s, p, n as i32, k).code.len(),
        neat(gen_sorted_steps(s, p, n as i32, k)),
        settles(s, big),
        st2 == (State { pc: st2.pc, regs: st2.regs, ..st }),
        forall|r: i32|
            r < s.next_reg && !(p.base + k <= r < p.base + p.calls.len())
                ==> #[trigger] st2.regs[r] == st.regs[r],
        forall|j: int|
            k <= j < p.calls.len() ==> st2.regs[#[trigger] nth(p.base, j)] == stepped(
                st.regs[nth(p.base, j)],
                p.kinds[j],
                call_fields(p.calls, n, j, rows_of(st, 1)[st.cursors[1].at]),
            ),
    decreases p.calls.len() - k,
{
    broadcast use group_settled;

    reveal(run);
    let code = big.program().code;
    let nkey = n as i32;
    let u = gen_sorted_steps(s, p, nkey, k);
    assert(u.err is None) by {
        reveal(settles);
    }
    lemma_steps_follow(s, p, nkey, k);
    lemma_grows_neat(s, u);
    lemma_settles_early(s, u, big);
    lemma_reaches_self(m, code, st);
    if k >= p.calls.len() {
        st
    } else {
        let row = rows_of(st, 1)[st.cursors[1].at];
        let nargs = call_args(p.calls[k]).len();
        let c = nargs as i32;
        let at = s.next_reg;
        let s1 = s.take_regs(
            if c > 1 {
                c
            } else {
                1
            },
        );
        lemma_args_sum(p.calls, k, p.calls.len() as int);
        lemma_args_sum(p.calls, k + 1, p.calls.len() as int);
        let from = nkey.wrapping_add(args_before(p.calls, k));
        assert(from == n + args_sum(p.calls, k));
        assert(args_sum(p.calls, k + 1) == args_sum(p.calls, k) + nargs);
        let s2 = gen_columns(s1, 1, from, at, c as int, 0);
        let s3 = s2.emit_p45(
            Opcode::AggStep,
            0,
            at,
            reg_at(p.base, k),
            P4View::FuncDef(p.kinds[k]),
            nargs as u8,
        );
        assert(reg_at(p.base, k) == nth(p.base, k));
        lemma_columns_follow(s1, 1, from, at, c as int, 0);
        lemma_steps_follow(s3, p, nkey, k + 1);
        lemma_settles_early(s3, u, big);
        assert(settles(s2, big));
        lemma_settles_early(s1, s2, big);
        assert(s1.next_reg == s.next_reg + (if c > 1 {
            c as int
        } else {
            1
        })) by {
            reveal(Asm::take_regs);
        }
        let a = lemma_columns_code(s1, 1, from, at, c as int, m, big, st, 0);
        lemma_advance(m, code, st, a, code[a.pc]);
        let b = run(m, code[a.pc], a);
        assert(block(a, at, nargs as int) =~= call_fields(p.calls, n, k, row)) by {
            assert forall|j: int| 0 <= j < nargs implies a.regs[#[trigger] nth(at, j)]
                == row_field(row, n + args_sum(p.calls, k) + j) by {
                assert(a.regs[nth(at, j)] == field(st, 1, from + j));
            }
        }
        assert(b.regs[nth(p.base, k)] == stepped(
            st.regs[nth(p.base, k)],
            p.kinds[k],
            call_fields(p.calls, n, k, row),
        ));
        let d = lemma_steps_code(s3, p, n, m, big, lo, b, k + 1);
        lemma_reaches_through(m, code, st, b, d);
        assert forall|j: int| k <= j < p.calls.len() implies d.regs[#[trigger] nth(p.base, j)]
            == stepped(
            st.regs[nth(p.base, j)],
            p.kinds[j],
            call_fields(p.calls, n, j, row),
        ) by {
            if j > k {
                assert(b.regs[nth(p.base, j)] == a.regs[nth(p.base, j)]);
            }
        }
        d
    }
}

pub proof fn lemma_finals_follow(s: Asm, p: AggPlanView, k: int)
    ensures
        follows(s, gen_finals(s, p, k), 0),
        gen_finals(s, p, k).err == s.err,
        gen_finals(s, p, k).fresh() == s.fresh(),
        gen_finals(s, p, k).next_reg == s.next_reg,
    decreases p.kinds.len() - k,
{
    broadcast use group_grows;

    if s.err is Some || k < 0 || k >= p.kinds.len() {
    } else {
        let s1 = s.emit_p4(
            Opcode::AggFinal,
            reg_at(p.base, k),
            0,
            0,
            P4View::FuncDef(p.kinds[k]),
        );
        lemma_finals_follow(s1, p, k + 1);
        lemma_grows_through(s, s1, gen_finals(s1, p, k + 1));
    }
}

/// The accumulators from the `k`-th on become the results of their functions.
pub proof fn lemma_finals_code(
    s: Asm,
    p: AggPlanView,
    m: Values,
    big: Asm,
    st: State,
    k: int,
) -> (st2: State)
    requires
        settles(gen_finals(s, p, k), big),
        neat(s),
        st.pc == s.code.len(),
        !st.halted,
        p.kinds.len() == p.calls.len(),
        0 <= p.base,
        p.base + p.calls.len() <= i32::MAX,
        0 <= k <= p.calls.len(),
    ensures
        reaches(m, big.program().code, st, st2),
        st2.pc == gen_finals(s, p, k).code.len(),
        neat(gen_finals(s, p, k)),
        settles(s, big),
        st2 == (State { pc: st2.pc, regs: st2.regs, ..st }),
        forall|r: i32|
            !(p.base + k <= r < p.base + p.calls.len()) ==> #[trigger] st2.regs[r] == st.regs[r],
        forall|j: int|
            k <= j < p.calls.len() ==> st2.regs[#[trigger] nth(p.base, j)] == (m.result)(
                p.kinds[j],
                match st.regs[nth(p.base, j)] {
                    Val::Acc(_, fed) => fed,
                    _ => Seq::empty(),
                },
            ),
    decreases p.calls.len() - k,
{
    broadcast use group_settled;

    reveal(run);
    let code = big.program().code;
    let u = gen_finals(s, p, k);
    assert(u.err is None) by {
        reveal(settles);
    }
    lemma_finals_follow(s, p, k);
    lemma_grows_neat(s, u);
    lemma_settles_early(s, u, big);
    lemma_reaches_self(m, code, st);
    if k >= p.calls.len() {
        st
    } else {
        let s1 = s.emit_p4(
            Opcode::AggFinal,
            reg_at(p.base, k),
            0,
            0,
            P4View::FuncDef(p.kinds[k]),
        );
        assert(reg_at(p.base, k) == nth(p.base, k));
        lemma_finals_follow(s1, p, k + 1);
        lemma_settles_early(s1, u, big);
        lemma_advance(m, code, st, st, code[st.pc]);
        let a = run(m, code[st.pc], st);
        let b = lemma_finals_code(s1, p, m, big, a, k + 1);
        lemma_reaches_through(m, code, st, a, b);
        assert forall|j: int| k <= j < p.calls.len() implies b.regs[#[trigger] nth(p.base, j)] == (
        m.result)(
            p.kinds[j],
            match st.regs[nth(p.base, j)] {
                Val::Acc(_, fed) => fed,
                _ => Seq::empty(),
            },
        ) by {
            if j > k {
                assert(a.regs[nth(p.base, j)] == st.regs[nth(p.base, j)]);
            }
        }
        b
    }
}

// ---- The walk ----

/// The parts of the code of a walk that puts each group out as it ends.
pub ghost struct Walk {
    /// The registers: whether a group is in hand, the keys of the row in hand, and the return
    /// addresses of the two subroutines.
    pub flag: i32,
    pub bmem: i32,
    pub output_ret: i32,
    pub reset_ret: i32,
    /// Before the key fields of the row in hand are read, and behind that.
    pub load: Asm,
    pub loaded: Asm,
    /// Before the accumulators are fed, and behind that.
    pub feed: Asm,
    pub fed: Asm,
    /// Before the results are made, behind that, and behind the condition.
    pub finish: Asm,
    pub finished: Asm,
    pub chosen: Asm,
    /// Before the output columns, and behind them.
    pub outputs: Asm,
    pub listed: Asm,
    pub skip: int,
    pub whole: Asm,
}

/// The parts of the code of a walk.
#[verifier::opaque]
pub open spec fn walk(s: Asm, p: AggPlanView, nkeys: nat, ctx: CtxView) -> Walk {
    let ncol = p.outputs.len() as i32;
    let nkey = nkeys as i32;
    let amem = p.key_base;
    let flag = s.next_reg;
    let a = s.take_regs(1).emit(Opcode::Integer, 0, flag, 0).emit(
        Opcode::Null,
        amem,
        amem.wrapping_add(nkey).wrapping_sub(1),
        0,
    );
    let bmem = a.next_reg;
    let a = a.take_regs(nkey);
    let end = a.fresh();
    let output = a.label().fresh();
    let b = a.label().label();
    let output_ret = b.next_reg;
    let b = b.take_regs(1);
    let reset = b.fresh();
    let b = b.label();
    let reset_ret = b.next_reg;
    let b = b.take_regs(1).jump(Opcode::Gosub, reset_ret, reset, 0).jump(
        Opcode::SorterSort,
        1,
        end,
        0,
    );
    let top = b.fresh();
    let load = b.label().bind(top).emit(Opcode::SorterData, 1, 0, 0);
    let loaded = gen_columns(load, 1, 0, bmem, nkey as int, 0);
    let same = loaded.fresh();
    let changed = loaded.label().fresh();
    let c = loaded.label().label().emit_p4(
        Opcode::Compare,
        amem,
        bmem,
        nkey,
        P4View::KeyInfo(group_key_info(nkeys)),
    ).jump3(Opcode::Jump, changed, same, changed).bind(changed).jump(
        Opcode::Gosub,
        output_ret,
        output,
        0,
    ).emit(Opcode::Copy, bmem, amem, nkey.wrapping_sub(1)).jump(Opcode::Gosub, reset_ret, reset, 0);
    let feed = c.bind(same);
    let fed = gen_sorted_steps(feed, p, nkey, 0);
    let d = fed.emit(Opcode::Integer, 1, flag, 0).jump(Opcode::SorterNext, 1, top, 0).jump(
        Opcode::Gosub,
        output_ret,
        output,
        0,
    ).jump(Opcode::Goto, 0, end, 0).bind(output);
    let skip = d.fresh();
    let finish = d.label().jump(Opcode::IfNot, flag, skip, 1);
    let finished = gen_finals(finish, p, 0);
    let chosen = gen_filter(finished, p.having, skip, ctx);
    let outputs = chosen.take_regs(ncol);
    let listed = gen_expr_list(outputs, p.outputs, chosen.next_reg, ctx, 0);
    let row_end = listed.fresh();
    let whole = listed.label().emit(Opcode::ResultRow, chosen.next_reg, ncol, 0).bind(row_end).bind(
        skip,
    ).emit(Opcode::Return, output_ret, 0, 0).bind(reset).emit(Opcode::Integer, 0, flag, 0).emit(
        Opcode::Return,
        reset_ret,
        0,
        0,
    ).bind(end).emit(Opcode::Halt, 0, 0, 0);
    Walk {
        flag,
        bmem,
        output_ret,
        reset_ret,
        load,
        loaded,
        feed,
        fed,
        finish,
        finished,
        chosen,
        outputs,
        listed,
        skip,
        whole,
    }
}

/// An instruction with no further operand.
pub open spec fn simple(opcode: Opcode, p1: i32, p2: int, p3: i32) -> InstView {
    InstView { opcode, p1, p2: p2 as i32, p3, p4: P4View::Unused, p5: 0 }
}

/// The instructions of a walk stand in the program.
pub open spec fn walk_stands(w: Walk, s: Asm, p: AggPlanView, n: int, big: Asm) -> bool {
    let code = big.program().code;
    let at = s.code.len() as int;
    let test = w.loaded.code.len() as int;
    let fed = w.fed.code.len() as int;
    let tail = w.listed.code.len() as int;
    &&& settles(w.loaded, big) && neat(w.load) && neat(w.loaded)
    &&& settles(w.fed, big) && neat(w.feed) && neat(w.fed)
    &&& settles(w.finished, big) && neat(w.finish) && neat(w.finished)
    &&& settles(w.chosen, big) && neat(w.chosen)
    &&& settles(w.listed, big) && neat(w.outputs)
    &&& tail + 5 <= code.len() <= i32::MAX
    &&& w.load.code.len() == at + 5
    &&& at + 5 <= test
    &&& test + 5 <= fed
    &&& fed + 5 <= w.finished.code.len() <= w.chosen.code.len() <= tail
    &&& w.feed.code.len() == test + 5
    &&& w.finish.code.len() == fed + 5
    &&& w.outputs.code.len() == w.chosen.code.len()
    &&& code[at] == simple(Opcode::Integer, 0, w.flag as int, 0)
    &&& code[at + 1] == simple(Opcode::Null, p.key_base, p.key_base + n - 1, 0)
    &&& code[at + 2] == simple(Opcode::Gosub, w.reset_ret, tail + 2, 0)
    &&& code[at + 3] == simple(Opcode::SorterSort, 1, tail + 4, 0)
    &&& code[at + 4] == simple(Opcode::SorterData, 1, 0, 0)
    &&& code[test] == (InstView {
        opcode: Opcode::Compare,
        p1: p.key_base,
        p2: w.bmem,
        p3: n as i32,
        p4: P4View::KeyInfo(group_key_info(n as nat)),
        p5: 0,
    })
    &&& code[test + 1] == (InstView {
        opcode: Opcode::Jump,
        p1: (test + 2) as i32,
        p2: (test + 5) as i32,
        p3: (test + 2) as i32,
        p4: P4View::Unused,
        p5: 0,
    })
    &&& code[test + 2] == simple(Opcode::Gosub, w.output_ret, fed + 4, 0)
    &&& code[test + 3] == simple(Opcode::Copy, w.bmem, p.key_base as int, (n - 1) as i32)
    &&& code[test + 4] == simple(Opcode::Gosub, w.reset_ret, tail + 2, 0)
    &&& code[fed] == simple(Opcode::Integer, 1, w.flag as int, 0)
    &&& code[fed + 1] == simple(Opcode::SorterNext, 1, at + 4, 0)
    &&& code[fed + 2] == simple(Opcode::Gosub, w.output_ret, fed + 4, 0)
    &&& code[fed + 3] == simple(Opcode::Goto, 0, tail + 4, 0)
    &&& code[fed + 4] == simple(Opcode::IfNot, w.flag, tail + 1, 1)
    &&& code[tail] == simple(
        Opcode::ResultRow,
        w.chosen.next_reg,
        p.outputs.len() as int,
        0,
    )
    &&& code[tail + 1] == simple(Opcode::Return, w.output_ret, 0, 0)
    &&& code[tail + 2] == simple(Opcode::Integer, 0, w.flag as int, 0)
    &&& code[tail + 3] == simple(Opcode::Return, w.reset_ret, 0, 0)
    &&& code[tail + 4] == simple(Opcode::Halt, 0, 0, 0)
    &&& place(big, w.skip) == tail + 1
    &&& 0 <= w.skip < w.finished.fresh()
}

/// The registers of a walk lie one behind the other, from the first free one on.
pub open spec fn walk_apart(w: Walk, s: Asm, p: AggPlanView, n: int) -> bool {
    &&& w.flag == s.next_reg
    &&& w.bmem == s.next_reg + 1
    &&& w.output_ret == s.next_reg + 1 + n
    &&& w.reset_ret == s.next_reg + 2 + n
    &&& w.load.next_reg == s.next_reg + 3 + n
    &&& w.feed.next_reg == s.next_reg + 3 + n
    &&& w.feed.next_reg <= w.finish.next_reg <= w.feed.next_reg + steps_weight(p.calls, 0)
    &&& w.finished.next_reg == w.finish.next_reg
    &&& w.finished.next_reg <= w.chosen.next_reg <= w.finished.next_reg + condition_weight(p.having)
    &&& w.outputs.next_reg == w.chosen.next_reg + p.outputs.len()
}

/// A bound on the registers that a walk takes.
pub open spec fn walk_weight(p: AggPlanView, n: int) -> int {
    3 + n + steps_weight(p.calls, 0) + condition_weight(p.having) + p.outputs.len() + weight_from(
        p.outputs,
        0,
    )
}

#[verifier::rlimit(50)]
proof fn lemma_walk_stands(
    s: Asm,
    p: AggPlanView,
    nkeys: nat,
    ctx: CtxView,
    lo: i32,
    big: Asm,
)
    requires
        settles(gen_group_walk(s, p, nkeys, false, false, None, None, ctx), big),
        neat(s),
        plan_fits(p, nkeys as int, lo),
        lo <= s.next_reg,
        s.next_reg + walk_weight(p, nkeys as int) <= i32::MAX,
    ensures
        walk_stands(walk(s, p, nkeys, ctx), s, p, nkeys as int, big),
        walk_apart(walk(s, p, nkeys, ctx), s, p, nkeys as int),
{
    broadcast use {group_settled, group_grows};

    reveal(walk);
    reveal(gen_group_walk);
    reveal(crate::scan::gen_distinct);
    let w = walk(s, p, nkeys, ctx);
    assert(w.whole == gen_group_walk(s, p, nkeys, false, false, None, None, ctx));
    assert(w.whole.err is None) by {
        reveal(settles);
    }
    let nkey = nkeys as i32;
    lemma_columns_follow(w.load, 1, 0, w.bmem, nkey as int, 0);
    lemma_steps_follow(w.feed, p, nkey, 0);
    lemma_finals_follow(w.finish, p, 0);
    lemma_filter_follows(w.finished, p.having, w.skip, ctx);
    lemma_list_follows(w.outputs, p.outputs, w.chosen.next_reg, ctx, 0);
    assert(w.listed.err is None);
    lemma_fresh_grows(w.outputs, w.listed);
    assert(w.chosen.err is None);
    lemma_fresh_grows(w.finished, w.chosen);
    lemma_fresh_grows(w.finish, w.finished);
    assert(w.fed.err is None);
    lemma_fresh_grows(w.feed, w.fed);
    assert(w.loaded.err is None);
    lemma_fresh_grows(w.load, w.loaded);
    assert(s.err is None);
    assert(walk_apart(w, s, p, nkeys as int)) by {
        reveal(Asm::take_regs);
    }
    assert(settles(w.whole, big));
    assert(settles(w.listed, big));
    lemma_settles_early(w.outputs, w.listed, big);
    assert(settles(w.chosen, big));
    lemma_settles_early(w.finished, w.chosen, big);
    lemma_settles_early(w.finish, w.finished, big);
    assert(settles(w.fed, big));
    lemma_settles_early(w.feed, w.fed, big);
    assert(settles(w.loaded, big));
    lemma_settles_early(w.load, w.loaded, big);
    assert(neat(w.load));
    lemma_grows_neat(w.load, w.loaded);
    assert(neat(w.feed));
    lemma_grows_neat(w.feed, w.fed);
    assert(neat(w.finish));
    lemma_grows_neat(w.finish, w.finished);
    lemma_grows_neat(w.finished, w.chosen);
    assert(neat(w.outputs));
    lemma_grows_neat(w.outputs, w.listed);
    assert(neat(w.whole));
    assert(big.program().code.len() <= i32::MAX) by {
        reveal(settles);
        reveal(Asm::program);
    }
}

/// What the expressions of the output stand on: the row that the table is on, the keys of a group
/// in their registers, and in those of the accumulators the results for the rows of the group.
pub open spec fn group_env(p: AggPlanView, n: int, row: Env, group: Seq<Row>) -> Env {
    Env {
        slot: |r: i32|
            if p.key_base <= r < p.key_base + n {
                row_field(group[0], r - p.key_base)
            } else if p.base <= r < p.base + p.calls.len() {
                (row.m.result)(p.kinds[r - p.base], fed(p.calls, n, r - p.base, group))
            } else {
                (row.slot)(r)
            },
        ..row
    }
}

/// What is put out for some groups: one row for each that the `HAVING` clause keeps.
pub open spec fn group_rows(p: AggPlanView, n: int, row: Env, groups: Seq<Seq<Row>>) -> Seq<
    Seq<Val>,
>
    decreases groups.len(),
{
    if groups.len() == 0 {
        Seq::empty()
    } else {
        let before = group_rows(p, n, row, groups.drop_last());
        let env = group_env(p, n, row, groups.last());
        if kept(p.having, env) {
            before.push(values_from(p.outputs, env, 0))
        } else {
            before
        }
    }
}

/// The results of aggregate functions are plain values, and as a key field NULL equals nothing
/// but NULL.
pub open spec fn plain_values(m: Values) -> bool {
    &&& forall|kind: crate::vdbe::AggregateKind, fed: Seq<Seq<Val>>|
        !((#[trigger] (m.result)(kind, fed)) is Acc)
    &&& forall|v: Val| (#[trigger] (m.field_order)(Val::Null, v, ascending())) == 0 ==> v is Null
}

/// The walk, and what it runs on.
pub ghost struct Setting {
    pub w: Walk,
    pub s: Asm,
    pub p: AggPlanView,
    pub n: int,
    pub big: Asm,
    pub lo: i32,
    /// The table, which is open on cursor 0.
    pub t: TableView,
    pub f: FunctionsView,
    /// The row that the table is on, before the walk and all through it.
    pub row: Env,
    /// The state before the walk.
    pub start: State,
    /// The rows in the order in which the sorter gives them.
    pub rows: Seq<Row>,
}

/// The setting is in order.
pub open spec fn set_up(x: Setting) -> bool {
    &&& walk_stands(x.w, x.s, x.p, x.n, x.big)
    &&& walk_apart(x.w, x.s, x.p, x.n)
    &&& plan_fits(x.p, x.n, x.lo)
    &&& x.lo <= x.s.next_reg
    &&& x.s.next_reg + walk_weight(x.p, x.n) <= i32::MAX
    &&& tame_condition(x.p.having, x.lo as int)
    &&& tame_from(x.p.outputs, x.lo as int, 0)
    &&& x.w.chosen == gen_filter(x.w.finished, x.p.having, x.w.skip, x.row.ctx)
    &&& x.w.listed == gen_expr_list(x.w.outputs, x.p.outputs, x.w.chosen.next_reg, x.row.ctx, 0)
    &&& x.w.outputs == x.w.chosen.take_regs(x.p.outputs.len() as i32)
    &&& x.w.finished == gen_finals(x.w.finish, x.p, 0)
    &&& x.w.fed == gen_sorted_steps(x.w.feed, x.p, x.n as i32, 0)
    &&& x.w.loaded == gen_columns(x.w.load, 1, 0, x.w.bmem, x.n, 0)
    &&& x.row == table_row(x.row.m, x.t, x.f, x.start, 0)
    &&& narrow(x.t)
    &&& plain_values(x.row.m)
    &&& x.start.cursors[0].root != x.start.cursors[1].root
    &&& x.rows.len() > 0
}

/// Nothing but the walk's own registers and the sorter has changed since the start.
pub open spec fn undisturbed(x: Setting, st: State) -> bool {
    &&& st.cursors == x.start.cursors.insert(1, st.cursors[1])
    &&& st.cursors[1].root == x.start.cursors[1].root
    &&& st.trees == x.start.trees.insert(x.start.cursors[1].root, x.rows)
    &&& !st.halted
    &&& st.error == x.start.error
    &&& forall|r: i32|
        r < x.lo && !(x.p.key_base <= r < x.p.key_base + x.n) && !(x.p.base <= r < x.p.base
            + x.p.calls.len()) ==> #[trigger] st.regs[r] == x.start.regs[r]
}

/// The registers hold a group: its keys, and its rows in the accumulators.
pub open spec fn holding(x: Setting, st: State, group: Seq<Row>) -> bool {
    &&& forall|j: int|
        0 <= j < x.n ==> st.regs[#[trigger] nth(x.p.key_base, j)] == row_field(group[0], j)
    &&& forall|k: int|
        0 <= k < x.p.calls.len() ==> st.regs[#[trigger] nth(x.p.base, k)] == Val::Acc(
            x.p.kinds[k],
            fed(x.p.calls, x.n, k, group),
        )
}

/// The registers hold no group yet.
pub open spec fn empty_handed(x: Setting, st: State) -> bool {
    &&& forall|j: int| 0 <= j < x.n ==> st.regs[#[trigger] nth(x.p.key_base, j)] is Null
    &&& forall|k: int|
        0 <= k < x.p.calls.len() ==> !(st.regs[#[trigger] nth(x.p.base, k)] is Acc)
}

/// The first `i` rows have been walked.
pub open spec fn walked(x: Setting, st: State, i: int) -> bool {
    let groups = runs(x.row.m, x.rows.take(i), x.n);
    &&& undisturbed(x, st)
    &&& st.cursors[1].at == i
    &&& if i == 0 {
        &&& st.regs[x.w.flag] == Val::Int(0)
        &&& empty_handed(x, st)
        &&& st.out == x.start.out
    } else {
        &&& st.regs[x.w.flag] == Val::Int(1)
        &&& groups.len() > 0
        &&& holding(x, st, groups.last())
        &&& st.out == x.start.out + group_rows(x.p, x.n, x.row, groups.drop_last())
    }
}

/// The subroutine that clears the flag.
proof fn lemma_reset_code(x: Setting, st: State) -> (st2: State)
    requires
        set_up(x),
        0 <= st.pc < x.w.listed.code.len(),
        !st.halted,
        x.big.program().code[st.pc] == simple(
            Opcode::Gosub,
            x.w.reset_ret,
            x.w.listed.code.len() as int + 2,
            0,
        ),
    ensures
        reaches(x.row.m, x.big.program().code, st, st2),
        st2 == (State {
            pc: st.pc + 1,
            regs: st.regs.insert(x.w.reset_ret, Val::Int((st.pc + 1) as i64)).insert(
                x.w.flag,
                Val::Int(0),
            ),
            ..st
        }),
{
    reveal(run);
    let m = x.row.m;
    let code = x.big.program().code;
    lemma_reaches_self(m, code, st);
    lemma_advance(m, code, st, st, code[st.pc]);
    let a = run(m, code[st.pc], st);
    lemma_advance(m, code, st, a, code[a.pc]);
    let b = run(m, code[a.pc], a);
    lemma_advance(m, code, st, b, code[b.pc]);
    run(m, code[b.pc], b)
}

/// The expressions of the output see the group in hand.
proof fn lemma_group_serves(x: Setting, st: State, group: Seq<Row>)
    requires
        set_up(x),
        undisturbed(x, st),
        forall|j: int|
            0 <= j < x.n ==> st.regs[#[trigger] nth(x.p.key_base, j)] == row_field(group[0], j),
        forall|k: int|
            0 <= k < x.p.calls.len() ==> st.regs[#[trigger] nth(x.p.base, k)] == (x.row.m.result)(
                x.p.kinds[k],
                fed(x.p.calls, x.n, k, group),
            ),
    ensures
        serves(group_env(x.p, x.n, x.row, group), x.big, x.lo, st),
{
    let env = group_env(x.p, x.n, x.row, group);
    assert forall|r: i32| r < x.lo implies #[trigger] st.regs[r] == (env.slot)(r) by {
        if x.p.key_base <= r < x.p.key_base + x.n {
            assert(r == nth(x.p.key_base, r - x.p.key_base));
        } else if x.p.base <= r < x.p.base + x.p.calls.len() {
            assert(r == nth(x.p.base, r - x.p.base));
        } else {
            assert(st.regs[r] == x.start.regs[r]);
        }
    }
    law_table_columns(x.row.m, x.t, x.f, 0, x.big, x.lo, st);
    let here = table_row(x.row.m, x.t, x.f, st, 0);
    assert(st.cursors[0] == x.start.cursors[0]);
    assert(rows_of(st, 0) == rows_of(x.start, 0));
    assert forall|q: Option<Seq<char>>, name: Seq<char>| #[trigger]
        (env.column)(q, name) == (here.column)(q, name) by {
        assert(table_column(x.row.m, x.t, st, 0, name) == table_column(
            x.row.m,
            x.t,
            x.start,
            0,
            name,
        ));
    }
    lemma_serves_like(here, env, x.big, x.lo, st);
}

/// The subroutine that puts the group in hand out, if there is one.
#[verifier::rlimit(50)]
proof fn lemma_output_code(x: Setting, st: State, group: Seq<Row>) -> (st2: State)
    requires
        set_up(x),
        undisturbed(x, st),
        0 <= st.pc < x.w.listed.code.len(),
        x.big.program().code[st.pc] == simple(
            Opcode::Gosub,
            x.w.output_ret,
            x.w.fed.code.len() as int + 4,
            0,
        ),
        st.regs[x.w.flag] == Val::Int(0) || (st.regs[x.w.flag] == Val::Int(1) && holding(
            x,
            st,
            group,
        )),
    ensures
        reaches(x.row.m, x.big.program().code, st, st2),
        st2 == (State { pc: st.pc + 1, regs: st2.regs, out: st2.out, ..st }),
        st.regs[x.w.flag] == Val::Int(0) ==> st2.out == st.out && forall|r: i32|
            r < x.w.output_ret ==> #[trigger] st2.regs[r] == st.regs[r],
        st.regs[x.w.flag] == Val::Int(1) ==> {
            let env = group_env(x.p, x.n, x.row, group);
            &&& st2.out == (if kept(x.p.having, env) {
                st.out.push(values_from(x.p.outputs, env, 0))
            } else {
                st.out
            })
            &&& forall|r: i32|
                r < x.w.output_ret && !(x.p.base <= r < x.p.base + x.p.calls.len())
                    ==> #[trigger] st2.regs[r] == st.regs[r]
            &&& forall|k: int|
                0 <= k < x.p.calls.len() ==> !(st2.regs[#[trigger] nth(x.p.base, k)] is Acc)
        },
{
    reveal(run);
    let m = x.row.m;
    let code = x.big.program().code;
    let big = x.big;
    let env = group_env(x.p, x.n, x.row, group);
    let ret = st.pc + 1;
    lemma_reaches_self(m, code, st);
    lemma_advance(m, code, st, st, code[st.pc]);
    let a = run(m, code[st.pc], st);
    assert(a.regs[x.w.output_ret] == Val::Int(ret as i64));
    lemma_advance(m, code, st, a, code[a.pc]);
    let b = run(m, code[a.pc], a);
    if st.regs[x.w.flag] == Val::Int(0) {
        lemma_advance(m, code, st, b, code[b.pc]);
        run(m, code[b.pc], b)
    } else {
        let c = lemma_finals_code(x.w.finish, x.p, m, big, b, 0);
        lemma_reaches_through(m, code, st, b, c);
        assert(holding(x, b, group)) by {
            assert forall|j: int| 0 <= j < x.n implies b.regs[#[trigger] nth(x.p.key_base, j)]
                == row_field(group[0], j) by {
                assert(st.regs[nth(x.p.key_base, j)] == row_field(group[0], j));
            }
            assert forall|k: int| 0 <= k < x.p.calls.len() implies b.regs[#[trigger] nth(
                x.p.base,
                k,
            )] == Val::Acc(x.p.kinds[k], fed(x.p.calls, x.n, k, group)) by {
                assert(st.regs[nth(x.p.base, k)] == Val::Acc(
                    x.p.kinds[k],
                    fed(x.p.calls, x.n, k, group),
                ));
            }
        }
        assert forall|j: int| 0 <= j < x.n implies c.regs[#[trigger] nth(x.p.key_base, j)]
            == row_field(group[0], j) by {
            assert(b.regs[nth(x.p.key_base, j)] == row_field(group[0], j));
        }
        assert forall|k: int| 0 <= k < x.p.calls.len() implies c.regs[#[trigger] nth(x.p.base, k)]
            == (m.result)(x.p.kinds[k], fed(x.p.calls, x.n, k, group)) by {
            assert(b.regs[nth(x.p.base, k)] == Val::Acc(
                x.p.kinds[k],
                fed(x.p.calls, x.n, k, group),
            ));
        }
        assert(undisturbed(x, c)) by {
            assert forall|r: i32|
                r < x.lo && !(x.p.key_base <= r < x.p.key_base + x.n) && !(x.p.base <= r < x.p.base
                    + x.p.calls.len()) implies #[trigger] c.regs[r] == x.start.regs[r] by {
                assert(b.regs[r] == st.regs[r]);
            }
        }
        lemma_group_serves(x, c, group);
        let d = law_filter_code(x.w.finished, x.p.having, x.w.skip, env, big, x.lo, c);
        lemma_reaches_through(m, code, st, c, d);
        let base = x.w.chosen.next_reg;
        if kept(x.p.having, env) {
            lemma_serves_on(env, big, x.lo, c, d);
            let e = lemma_list_code(x.w.outputs, x.p.outputs, base, env, big, x.lo, d, 0);
            lemma_reaches_through(m, code, st, d, e);
            lemma_advance(m, code, st, e, code[e.pc]);
            let g = run(m, code[e.pc], e);
            lemma_values_from(x.p.outputs, env, 0);
            assert(block(e, base, x.p.outputs.len() as int) =~= values_from(x.p.outputs, env, 0));
            lemma_advance(m, code, st, g, code[g.pc]);
            run(m, code[g.pc], g)
        } else {
            lemma_advance(m, code, st, d, code[d.pc]);
            run(m, code[d.pc], d)
        }
    }
}

proof fn lemma_copied(regs: Map<i32, Val>, from: i32, to: i32, n: int)
    requires
        0 <= n,
        0 <= from,
        0 <= to,
        from + n <= i32::MAX,
        to + n <= i32::MAX,
    ensures
        forall|j: int|
            0 <= j < n ==> copied(regs, from, to, n)[#[trigger] nth(to, j)] == regs[nth(from, j)],
        forall|r: i32|
            !(to <= r < to + n) ==> #[trigger] copied(regs, from, to, n)[r] == regs[r],
    decreases n,
{
    if n > 0 {
        lemma_copied(regs, from, to, n - 1);
        assert forall|j: int| 0 <= j < n implies copied(regs, from, to, n)[#[trigger] nth(to, j)]
            == regs[nth(from, j)] by {
            if j < n - 1 {
                assert(copied(regs, from, to, n - 1)[nth(to, j)] == regs[nth(from, j)]);
            }
        }
        assert forall|r: i32| !(to <= r < to + n) implies #[trigger] copied(regs, from, to, n)[r]
            == regs[r] by {
            assert(copied(regs, from, to, n - 1)[r] == regs[r]);
        }
    }
}

/// The row in hand is fed to the accumulators, and the sorter moves on.
proof fn lemma_feed_code(x: Setting, st: State, i: int, group: Seq<Row>) -> (st2: State)
    requires
        set_up(x),
        undisturbed(x, st),
        0 <= i < x.rows.len(),
        st.cursors[1].at == i,
        st.pc == x.w.feed.code.len(),
        forall|j: int|
            0 <= j < x.n ==> st.regs[#[trigger] nth(x.p.key_base, j)] == row_field(group[0], j),
        group.len() > 0,
        group.last() == x.rows[i],
        forall|k: int|
            0 <= k < x.p.calls.len() ==> if group.len() == 1 {
                !(st.regs[#[trigger] nth(x.p.base, k)] is Acc)
            } else {
                st.regs[nth(x.p.base, k)] == Val::Acc(
                    x.p.kinds[k],
                    fed(x.p.calls, x.n, k, group.drop_last()),
                )
            },
    ensures
        reaches(x.row.m, x.big.program().code, st, st2),
        st2.pc == (if i + 1 < x.rows.len() {
            x.s.code.len() + 4
        } else {
            x.w.fed.code.len() + 2
        }),
        undisturbed(x, st2),
        st2.cursors[1].at == i + 1,
        st2.regs[x.w.flag] == Val::Int(1),
        holding(x, st2, group),
        st2.out == st.out,
{
    reveal(run);
    let m = x.row.m;
    let code = x.big.program().code;
    assert(st.cursors[1].root == x.start.cursors[1].root);
    assert(rows_of(st, 1) == x.rows);
    let a = lemma_steps_code(x.w.feed, x.p, x.n, m, x.big, x.lo, st, 0);
    lemma_advance(m, code, st, a, code[a.pc]);
    let b = run(m, code[a.pc], a);
    lemma_advance(m, code, st, b, code[b.pc]);
    let c = run(m, code[b.pc], b);
    assert(c.cursors =~= x.start.cursors.insert(1, c.cursors[1]));
    assert forall|k: int| 0 <= k < x.p.calls.len() implies c.regs[#[trigger] nth(x.p.base, k)]
        == Val::Acc(x.p.kinds[k], fed(x.p.calls, x.n, k, group)) by {
        let args = call_fields(x.p.calls, x.n, k, x.rows[i]);
        let before = st.regs[nth(x.p.base, k)];
        assert(a.regs[nth(x.p.base, k)] == stepped(before, x.p.kinds[k], args));
        if group.len() == 1 {
            assert(fed(x.p.calls, x.n, k, group) =~= seq![args]);
        } else {
            assert(fed(x.p.calls, x.n, k, group) =~= fed(
                x.p.calls,
                x.n,
                k,
                group.drop_last(),
            ).push(args));
        }
    }
    assert forall|j: int| 0 <= j < x.n implies c.regs[#[trigger] nth(x.p.key_base, j)] == row_field(
        group[0],
        j,
    ) by {
        assert(a.regs[nth(x.p.key_base, j)] == st.regs[nth(x.p.key_base, j)]);
    }
    assert forall|r: i32|
        r < x.lo && !(x.p.key_base <= r < x.p.key_base + x.n) && !(x.p.base <= r < x.p.base
            + x.p.calls.len()) implies #[trigger] c.regs[r] == x.start.regs[r] by {
        assert(a.regs[r] == st.regs[r]);
    }
    c
}

/// One more row is walked.
#[verifier::rlimit(90)]
proof fn lemma_row_code(x: Setting, st: State, i: int) -> (st2: State)
    requires
        set_up(x),
        walked(x, st, i),
        0 <= i < x.rows.len(),
        st.pc == x.s.code.len() + 4,
    ensures
        reaches(x.row.m, x.big.program().code, st, st2),
        st2.pc == (if i + 1 < x.rows.len() {
            x.s.code.len() + 4
        } else {
            x.w.fed.code.len() + 2
        }),
        walked(x, st2, i + 1),
{
    reveal(run);
    let m = x.row.m;
    let code = x.big.program().code;
    let n = x.n;
    let amem = x.p.key_base;
    let row = x.rows[i];
    let before = runs(m, x.rows.take(i), n);
    let after = runs(m, x.rows.take(i + 1), n);
    assert(x.rows.take(i + 1).drop_last() =~= x.rows.take(i));
    assert(x.rows.take(i + 1).last() == row);
    assert(rows_of(st, 1) == x.rows);
    lemma_reaches_self(m, code, st);
    lemma_advance(m, code, st, st, code[st.pc]);
    let a = run(m, code[st.pc], st);
    let b = lemma_columns_code(x.w.load, 1, 0, x.w.bmem, n, m, x.big, a, 0);
    lemma_reaches_through(m, code, st, a, b);
    assert forall|j: int| 0 <= j < n implies b.regs[#[trigger] nth(x.w.bmem, j)] == row_field(
        row,
        j,
    ) by {
        assert(b.regs[nth(x.w.bmem, j)] == field(a, 1, 0 + j));
    }
    lemma_advance(m, code, st, b, code[b.pc]);
    let c = run(m, code[b.pc], b);
    let ka = block(b, amem, n);
    let kb = block(b, x.w.bmem, n);
    let info = group_key_info(n as nat);
    lemma_key_order(m, ka, kb, info, 0);
    assert(c.sign == key_order(m, ka, kb, info, 0));
    lemma_advance(m, code, st, c, code[c.pc]);
    let d = run(m, code[c.pc], c);
    assert(forall|r: i32| r < x.w.bmem ==> #[trigger] d.regs[r] == st.regs[r]);
    assert(undisturbed(x, d)) by {
        assert forall|r: i32|
            r < x.lo && !(x.p.key_base <= r < x.p.key_base + x.n) && !(x.p.base <= r < x.p.base
                + x.p.calls.len()) implies #[trigger] d.regs[r] == x.start.regs[r] by {
            assert(d.regs[r] == st.regs[r]);
        }
    }
    if i > 0 {
        let g = before.last();
        assert forall|j: int| 0 <= j < n implies (#[trigger] (m.field_order)(
            ka[j],
            kb[j],
            ascending(),
        )) == (m.field_order)(row_field(g[0], j), row_field(row, j), ascending()) by {
            assert(d.regs[nth(amem, j)] == st.regs[nth(amem, j)]);
            assert(ka[j] == row_field(g[0], j));
            assert(kb[j] == row_field(row, j));
        }
        if c.sign == 0 {
            assert forall|j: int| 0 <= j < n implies (#[trigger] (m.field_order)(
                row_field(g[0], j),
                row_field(row, j),
                ascending(),
            )) == 0 by {
                assert((m.field_order)(ka[j], kb[j], ascending()) == 0);
            }
        }
        if same_group(m, g[0], row, n) {
            assert forall|j: int| 0 <= j < ka.len() implies (#[trigger] (m.field_order)(
                ka[j],
                kb[j],
                ascending(),
            )) == 0 by {
                assert((m.field_order)(row_field(g[0], j), row_field(row, j), ascending()) == 0);
            }
        }
        assert((c.sign == 0) == same_group(m, g[0], row, n));
    }
    if c.sign == 0 {
        // The row belongs to the group in hand, or all its keys are NULL and it is the first.
        let group = if i == 0 {
            seq![row]
        } else {
            before.last().push(row)
        };
        if i == 0 {
            assert forall|j: int| 0 <= j < n implies d.regs[#[trigger] nth(amem, j)] == row_field(
                group[0],
                j,
            ) by {
                assert(st.regs[nth(amem, j)] is Null);
                assert(ka[j] is Null && kb[j] == row_field(row, j));
                assert((m.field_order)(ka[j], kb[j], ascending()) == 0);
            }
            assert(before.len() == 0);
            assert(after =~= seq![group]);
        } else {
            law_groups(m, x.rows.take(i), n);
            assert forall|j: int| 0 <= j < n implies d.regs[#[trigger] nth(amem, j)] == row_field(
                group[0],
                j,
            ) by {
                assert(st.regs[nth(amem, j)] == row_field(before.last()[0], j));
            }
            assert(group.drop_last() =~= before.last());
            assert(after == before.drop_last().push(group));
        }
        assert forall|k: int| 0 <= k < x.p.calls.len() implies if group.len() == 1 {
            !(d.regs[#[trigger] nth(x.p.base, k)] is Acc)
        } else {
            d.regs[nth(x.p.base, k)] == Val::Acc(
                x.p.kinds[k],
                fed(x.p.calls, x.n, k, group.drop_last()),
            )
        } by {
            assert(d.regs[nth(x.p.base, k)] == st.regs[nth(x.p.base, k)]);
            if i > 0 {
                law_groups(m, x.rows.take(i), n);
            }
        }
        let e = lemma_feed_code(x, d, i, group);
        lemma_reaches_through(m, code, st, d, e);
        if i > 0 {
            assert(after.drop_last() =~= before.drop_last());
        } else {
            assert(after.drop_last() =~= Seq::empty());
            assert(x.start.out + Seq::<Seq<Val>>::empty() =~= e.out);
        }
        assert(after.last() == group);
        e
    } else {
        // The group in hand, if there is one, is put out, and the row starts another.
        let g = if i == 0 {
            seq![row]
        } else {
            before.last()
        };
        if i > 0 {
            assert(holding(x, d, g)) by {
                assert forall|j: int| 0 <= j < n implies d.regs[#[trigger] nth(amem, j)]
                    == row_field(g[0], j) by {
                    assert(st.regs[nth(amem, j)] == row_field(g[0], j));
                }
                assert forall|k: int| 0 <= k < x.p.calls.len() implies d.regs[#[trigger] nth(
                    x.p.base,
                    k,
                )] == Val::Acc(x.p.kinds[k], fed(x.p.calls, x.n, k, g)) by {
                    assert(st.regs[nth(x.p.base, k)] == Val::Acc(
                        x.p.kinds[k],
                        fed(x.p.calls, x.n, k, g),
                    ));
                }
            }
        }
        assert(d.regs[x.w.flag] == st.regs[x.w.flag]);
        let e = lemma_output_code(x, d, g);
        lemma_reaches_through(m, code, st, d, e);
        lemma_advance(m, code, st, e, code[e.pc]);
        let h = run(m, code[e.pc], e);
        lemma_copied(e.regs, x.w.bmem, amem, n);
        assert(h.regs == copied(e.regs, x.w.bmem, amem, n));
        let q = lemma_reset_code(x, h);
        lemma_reaches_through(m, code, st, h, q);
        let group = seq![row];
        assert forall|j: int| 0 <= j < n implies q.regs[#[trigger] nth(amem, j)] == row_field(
            group[0],
            j,
        ) by {
            assert(h.regs[nth(amem, j)] == e.regs[nth(x.w.bmem, j)]);
            assert(e.regs[nth(x.w.bmem, j)] == d.regs[nth(x.w.bmem, j)]);
            assert(d.regs[nth(x.w.bmem, j)] == b.regs[nth(x.w.bmem, j)]);
        }
        assert forall|k: int| 0 <= k < x.p.calls.len() implies !(q.regs[#[trigger] nth(
            x.p.base,
            k,
        )] is Acc) by {
            assert(h.regs[nth(x.p.base, k)] == e.regs[nth(x.p.base, k)]);
            if i == 0 {
                assert(e.regs[nth(x.p.base, k)] == d.regs[nth(x.p.base, k)]);
                assert(d.regs[nth(x.p.base, k)] == st.regs[nth(x.p.base, k)]);
            }
        }
        assert(undisturbed(x, q)) by {
            assert forall|r: i32|
                r < x.lo && !(x.p.key_base <= r < x.p.key_base + x.n) && !(x.p.base <= r < x.p.base
                    + x.p.calls.len()) implies #[trigger] q.regs[r] == x.start.regs[r] by {
                assert(h.regs[r] == e.regs[r]);
                assert(e.regs[r] == d.regs[r]);
            }
        }
        let z = lemma_feed_code(x, q, i, group);
        lemma_reaches_through(m, code, st, q, z);
        assert(after =~= before.push(group));
        assert(after.drop_last() =~= before);
        if i > 0 {
            assert(x.start.out + group_rows(x.p, x.n, x.row, before) =~= z.out) by {
                assert(st.out == x.start.out + group_rows(x.p, x.n, x.row, before.drop_last()));
            }
        } else {
            assert(before.len() == 0);
            assert(x.start.out + group_rows(x.p, x.n, x.row, before) =~= z.out);
        }
        z
    }
}

/// All rows from the `i`-th on are walked.
proof fn lemma_rows_code(x: Setting, st: State, i: int) -> (st2: State)
    requires
        set_up(x),
        walked(x, st, i),
        0 <= i < x.rows.len(),
        st.pc == x.s.code.len() + 4,
    ensures
        reaches(x.row.m, x.big.program().code, st, st2),
        st2.pc == x.w.fed.code.len() + 2,
        walked(x, st2, x.rows.len() as int),
    decreases x.rows.len() - i,
{
    let a = lemma_row_code(x, st, i);
    if i + 1 < x.rows.len() {
        let b = lemma_rows_code(x, a, i + 1);
        lemma_reaches_through(x.row.m, x.big.program().code, st, a, b);
        b
    } else {
        a
    }
}

/// The walk begins: the sorter is sorted, or the walk ends if it is empty.
#[verifier::rlimit(50)]
proof fn lemma_start_code(x: Setting, st: State) -> (st2: State)
    requires
        walk_stands(x.w, x.s, x.p, x.n, x.big),
        walk_apart(x.w, x.s, x.p, x.n),
        plan_fits(x.p, x.n, x.lo),
        x.lo <= x.s.next_reg,
        x.s.next_reg + walk_weight(x.p, x.n) <= i32::MAX,
        st == x.start,
        st.pc == x.s.code.len(),
        !st.halted,
        x.rows == (x.row.m.sorted)(rows_of(st, 1), st.cursors[1].keys),
        x.rows.len() == rows_of(st, 1).len(),
        forall|j: int| 0 <= j < x.n ==> st.regs[#[trigger] nth(x.p.key_base, j)] is Null,
        forall|k: int|
            0 <= k < x.p.calls.len() ==> !(st.regs[#[trigger] nth(x.p.base, k)] is Acc),
    ensures
        reaches(x.row.m, x.big.program().code, st, st2),
        x.rows.len() == 0 ==> st2.pc == x.w.listed.code.len() + 4 && st2.out == st.out
            && !st2.halted && st2.error == st.error,
        x.rows.len() > 0 ==> st2.pc == x.s.code.len() + 4 && walked(x, st2, 0),
{
    reveal(run);
    let m = x.row.m;
    let code = x.big.program().code;
    lemma_reaches_self(m, code, st);
    lemma_advance(m, code, st, st, code[st.pc]);
    let a = run(m, code[st.pc], st);
    lemma_advance(m, code, st, a, code[a.pc]);
    let b = run(m, code[a.pc], a);
    lemma_advance(m, code, st, b, code[b.pc]);
    let c = run(m, code[b.pc], b);
    lemma_advance(m, code, st, c, code[c.pc]);
    let d = run(m, code[c.pc], c);
    lemma_advance(m, code, st, d, code[d.pc]);
    let e = run(m, code[d.pc], d);
    assert(e.pc == x.s.code.len() + 3);
    lemma_advance(m, code, st, e, code[e.pc]);
    let h = run(m, code[e.pc], e);
    if x.rows.len() > 0 {
        assert(h.cursors =~= st.cursors.insert(1, h.cursors[1]));
        assert forall|j: int| 0 <= j < x.n implies h.regs[#[trigger] nth(
            x.p.key_base,
            j,
        )] is Null by {
            assert(st.regs[nth(x.p.key_base, j)] is Null);
        }
        assert forall|k: int| 0 <= k < x.p.calls.len() implies !(h.regs[#[trigger] nth(
            x.p.base,
            k,
        )] is Acc) by {
            assert(!(st.regs[nth(x.p.base, k)] is Acc));
        }
    }
    h
}

/// The walk of the sorted rows puts out one row for each group that the `HAVING` clause keeps, in
/// the order of the groups: the output columns, computed from the keys of the group and from the
/// results of the aggregate functions over exactly the rows of the group. Rows are in one group
/// only if they agree in every group key (see [`law_groups`]).
#[verifier::rlimit(50)]
pub proof fn law_group_walk(
    s: Asm,
    p: AggPlanView,
    nkeys: nat,
    t: TableView,
    f: FunctionsView,
    m: Values,
    big: Asm,
    lo: i32,
    st: State,
) -> (st2: State)
    requires
        settles(
            gen_group_walk(s, p, nkeys, false, false, None, None, table_ctx(t, 0, f)),
            big,
        ),
        neat(s),
        st.pc == s.code.len(),
        !st.halted,
        narrow(t),
        plain_values(m),
        plan_fits(p, nkeys as int, lo),
        lo <= s.next_reg,
        s.next_reg + walk_weight(p, nkeys as int) <= i32::MAX,
        tame_condition(p.having, lo as int),
        tame_from(p.outputs, lo as int, 0),
        // The table and the sorter are open, and no group is in hand.
        st.cursors[0].root != st.cursors[1].root,
        (m.sorted)(rows_of(st, 1), st.cursors[1].keys).len() == rows_of(st, 1).len(),
        forall|j: int| 0 <= j < nkeys ==> st.regs[#[trigger] nth(p.key_base, j)] is Null,
        forall|k: int|
            0 <= k < p.calls.len() ==> !(st.regs[#[trigger] nth(p.base, k)] is Acc),
    ensures
        reaches(m, big.program().code, st, st2),
        st2.halted,
        st2.error == st.error,
        st2.out == st.out + group_rows(
            p,
            nkeys as int,
            table_row(m, t, f, st, 0),
            runs(m, (m.sorted)(rows_of(st, 1), st.cursors[1].keys), nkeys as int),
        ),
{
    reveal(run);
    let n = nkeys as int;
    let ctx = table_ctx(t, 0, f);
    let w = walk(s, p, nkeys, ctx);
    let code = big.program().code;
    let rows = (m.sorted)(rows_of(st, 1), st.cursors[1].keys);
    let row = table_row(m, t, f, st, 0);
    lemma_walk_stands(s, p, nkeys, ctx, lo, big);
    let x = Setting { w, s, p, n, big, lo, t, f, row, start: st, rows };
    let h = lemma_start_code(x, st);
    if rows.len() == 0 {
        lemma_advance(m, code, st, h, code[h.pc]);
        assert(st.out + Seq::<Seq<Val>>::empty() =~= st.out);
        run(m, code[h.pc], h)
    } else {
        assert(set_up(x)) by {
            reveal(walk);
        }
        let i = lemma_rows_code(x, h, 0);
        lemma_reaches_through(m, code, st, h, i);
        let groups = runs(m, rows.take(rows.len() as int), n);
        assert(rows.take(rows.len() as int) =~= rows);
        let j = lemma_output_code(x, i, groups.last());
        lemma_reaches_through(m, code, st, i, j);
        lemma_advance(m, code, st, j, code[j.pc]);
        let k = run(m, code[j.pc], j);
        lemma_advance(m, code, st, k, code[k.pc]);
        let z = run(m, code[k.pc], k);
        assert(z.out =~= st.out + group_rows(p, n, row, groups));
        z
    }
}

#[verifier::rlimit(50)]
pub proof fn lemma_walk_grows(s: Asm, p: AggPlanView, nkeys: nat, ctx: CtxView)
    requires
        forall|k: int|
            0 <= k < p.calls.len() ==> call_args(#[trigger] p.calls[k]).len() <= u8::MAX,
    ensures
        grows(s, gen_group_walk(s, p, nkeys, false, false, None, None, ctx)),
{
    broadcast use {group_grows, filter_stuck};

    reveal(walk);
    reveal(gen_group_walk);
    reveal(crate::scan::gen_distinct);
    let w = walk(s, p, nkeys, ctx);
    assert(w.whole == gen_group_walk(s, p, nkeys, false, false, None, None, ctx));
    if w.whole.err is None {
        let nkey = nkeys as i32;
        lemma_columns_follow(w.load, 1, 0, w.bmem, nkey as int, 0);
        lemma_steps_follow(w.feed, p, nkey, 0);
        lemma_finals_follow(w.finish, p, 0);
        lemma_filter_follows(w.finished, p.having, w.skip, ctx);
        lemma_list_follows(w.outputs, p.outputs, w.chosen.next_reg, ctx, 0);
        assert(w.listed.err is None);
        lemma_fresh_grows(w.outputs, w.listed);
        lemma_fresh_grows(w.finished, w.chosen);
        lemma_fresh_grows(w.finish, w.finished);
        lemma_fresh_grows(w.feed, w.fed);
        lemma_fresh_grows(w.load, w.loaded);
        assert(grows(s, w.load));
        lemma_grows_through(s, w.load, w.loaded);
        lemma_fresh_grows(s, w.loaded);
        assert(grows(s, w.feed));
        lemma_grows_through(s, w.feed, w.fed);
        lemma_fresh_grows(s, w.fed);
        assert(grows(s, w.finish));
        lemma_grows_through(s, w.finish, w.finished);
        lemma_grows_through(s, w.finished, w.chosen);
        assert(grows(s, w.outputs));
        lemma_grows_through(s, w.outputs, w.listed);
        lemma_fresh_grows(s, w.listed);
    }
}

} // verus!
