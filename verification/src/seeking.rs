//! Which rows a query that reads an index puts out.
use vstd::prelude::*;

use crate::ast::{ExprView, SelectStmtView};
use crate::builder::{group_asm, reg_at, Asm};
use crate::columns::exprs_of;
use crate::expr::gen_expr_list;
use crate::index_planner::{pinned_keys, IndexPlanView, RangeKeyView};
use crate::indexed::{gen_index_scan, gen_key, gen_value};
use crate::machine::{
    block, group_grows, group_settled, last_field, lemma_grows_neat, lemma_grows_through,
    lemma_reaches_self, lemma_reaches_through, lemma_settles_early, moved, neat, nth, place,
    prefix_order, reaches, row_from, rows_of, run, seek_from, settles, Row, State, Val, Values,
};
use crate::meaning::{
    follows, kept, law_table_columns, lemma_advance, lemma_fresh_grows, lemma_list_code,
    lemma_list_follows, lemma_serves_like, lemma_take, lemma_values_from, narrow, table_column,
    table_row, tame_from, values_from, weight_from,
};
use crate::rows::{condition_weight, law_filter_code, lemma_filter_follows, row_env, tame_condition};
use crate::scan::{gen_distinct, gen_filter, gen_open_distinct};
use crate::schema::{FunctionsView, TableView};
use crate::scope::table_ctx;
use crate::vdbe::{InstView, Opcode, P4View, ValueView};

verus! {

broadcast use group_asm;

// ---- Keys ----

/// The machine's value for a constant.
pub open spec fn constant_value(v: ValueView) -> Val {
    match v {
        ValueView::Null => Val::Null,
        ValueView::Int(n) => Val::Int(n),
        ValueView::Real(r) => Val::Real(r),
        ValueView::Text(t) => Val::Text(t),
        ValueView::Blob(b) => Val::Blob(b),
    }
}

/// The values of some keys.
pub open spec fn key_values(keys: Seq<RangeKeyView>) -> Seq<Val> {
    Seq::new(keys.len(), |i: int| constant_value(keys[i].value))
}

proof fn lemma_key_follows(s: Asm, keys: Seq<RangeKeyView>, base: i32, k: int)
    ensures
        follows(s, gen_key(s, keys, base, k), 0),
        gen_key(s, keys, base, k).next_reg == s.next_reg,
        gen_key(s, keys, base, k).err == s.err,
        gen_key(s, keys, base, k).fresh() == s.fresh(),
    decreases keys.len() - k,
{
    broadcast use group_grows;

    if s.err is Some || k < 0 || k >= keys.len() {
    } else {
        reveal(gen_value);
        let s1 = gen_value(s, keys[k].value, reg_at(base, k));
        lemma_key_follows(s1, keys, base, k + 1);
        lemma_grows_through(s, s1, gen_key(s1, keys, base, k + 1));
    }
}

proof fn lemma_key_code(
    s: Asm,
    keys: Seq<RangeKeyView>,
    base: i32,
    m: Values,
    big: Asm,
    st: State,
    k: int,
) -> (st2: State)
    requires
        settles(gen_key(s, keys, base, k), big),
        neat(s),
        st.pc == s.code.len(),
        !st.halted,
        0 <= k <= keys.len(),
        0 <= base,
        base + keys.len() <= i32::MAX,
        forall|j: int|
            0 <= j < k ==> st.regs[#[trigger] nth(base, j)] == constant_value(keys[j].value),
    ensures
        reaches(m, big.program().code, st, st2),
        st2.pc == gen_key(s, keys, base, k).code.len(),
        neat(gen_key(s, keys, base, k)),
        settles(s, big),
        st2 == (State { pc: st2.pc, regs: st2.regs, ..st }),
        forall|r: i32| r < base ==> #[trigger] st2.regs[r] == st.regs[r],
        forall|j: int|
            0 <= j < keys.len() ==> st2.regs[#[trigger] nth(base, j)] == constant_value(
                keys[j].value,
            ),
    decreases keys.len() - k,
{
    broadcast use group_settled;

    reveal(run);
    let code = big.program().code;
    let u = gen_key(s, keys, base, k);
    assert(u.err is None) by {
        reveal(settles);
    }
    lemma_key_follows(s, keys, base, k);
    lemma_grows_neat(s, u);
    lemma_settles_early(s, u, big);
    lemma_reaches_self(m, code, st);
    if k >= keys.len() {
        st
    } else {
        reveal(gen_value);
        let s1 = gen_value(s, keys[k].value, reg_at(base, k));
        assert(reg_at(base, k) == nth(base, k));
        lemma_key_follows(s1, keys, base, k + 1);
        lemma_settles_early(s1, u, big);
        lemma_advance(m, code, st, st, code[st.pc]);
        let a = run(m, code[st.pc], st);
        assert forall|j: int| 0 <= j < k + 1 implies a.regs[#[trigger] nth(base, j)]
            == constant_value(keys[j].value) by {
            if j < k {
                assert(st.regs[nth(base, j)] == constant_value(keys[j].value));
            }
        }
        let b = lemma_key_code(s1, keys, base, m, big, a, k + 1);
        lemma_reaches_through(m, code, st, a, b);
        b
    }
}

// ---- What an index scan puts out ----

/// A query that reads an index on cursor 0, and looks its rows up in the table on cursor 1.
pub ghost struct Seeking {
    pub m: Values,
    pub t: TableView,
    pub f: FunctionsView,
    pub start: State,
    /// The values that the first fields of an entry must have.
    pub key: Seq<Val>,
    pub condition: Option<ExprView>,
    pub columns: Seq<ExprView>,
}

/// The entries of the index.
pub open spec fn entries_of(x: Seeking) -> Seq<Row> {
    rows_of(x.start, 0)
}

/// How entry `i` stands to the key.
pub open spec fn stand(x: Seeking, i: int) -> int {
    prefix_order(x.m, x.start.cursors[0].keys, entries_of(x)[i], x.key)
}

/// The index is in the order of its keys: entries below the key come first, then those that have
/// it, then those above.
pub open spec fn index_in_order(x: Seeking) -> bool {
    forall|i: int, j: int|
        0 <= i < j < entries_of(x).len() ==> (stand(x, i) > 0 ==> #[trigger] stand(x, j) > 0) && (
        stand(x, j) < 0 ==> #[trigger] stand(x, i) < 0)
}

/// What is put out for entry `i`: if it has the key, and the table has a row with its rowid for
/// which the condition is true, the output columns of that row.
pub open spec fn found_row(x: Seeking, i: int) -> Seq<Seq<Val>> {
    if stand(x, i) != 0 {
        Seq::empty()
    } else {
        match row_from(rows_of(x.start, 1), last_field(entries_of(x)[i]), 0) {
            Some(k) => {
                let env = row_env(x.m, x.t, x.f, x.start, 1, k);
                if kept(x.condition, env) {
                    seq![values_from(x.columns, env, 0)]
                } else {
                    Seq::empty()
                }
            },
            None => Seq::empty(),
        }
    }
}

/// What is put out for the first `n` entries.
pub open spec fn found_rows(x: Seeking, n: int) -> Seq<Seq<Val>>
    decreases n,
{
    if n <= 0 {
        Seq::empty()
    } else {
        found_rows(x, n - 1) + found_row(x, n - 1)
    }
}

proof fn lemma_seek(x: Seeking, i: int)
    requires
        0 <= i,
    ensures
        match seek_from(x.m, x.start.cursors[0].keys, entries_of(x), x.key, i) {
            Some(k) => i <= k < entries_of(x).len() && stand(x, k) >= 0 && forall|j: int|
                i <= j < k ==> #[trigger] stand(x, j) < 0,
            None => forall|j: int| i <= j < entries_of(x).len() ==> #[trigger] stand(x, j) < 0,
        },
    decreases entries_of(x).len() - i,
{
    if i < entries_of(x).len() {
        lemma_seek(x, i + 1);
    }
}

/// Entries that do not have the key bring nothing.
proof fn lemma_none_found(x: Seeking, i: int, n: int)
    requires
        0 <= i <= n,
        forall|j: int| i <= j < n ==> #[trigger] stand(x, j) != 0,
    ensures
        found_rows(x, n) == found_rows(x, i),
    decreases n - i,
{
    if i < n {
        lemma_none_found(x, i, n - 1);
        assert(stand(x, n - 1) != 0);
        assert(found_rows(x, n) =~= found_rows(x, i));
    }
}

// ---- The code ----

/// The parts of an index scan.
pub ghost struct SeekParts {
    pub x: Seeking,
    pub big: Asm,
    pub keyed: bool,
    pub key: i32,
    /// At an entry, behind the test of its key, behind the look-up, behind the condition, and
    /// before and behind the output columns.
    pub k4: Asm,
    pub k5: Asm,
    pub k8: Asm,
    pub k9: Asm,
    pub k10: Asm,
    pub k11: Asm,
    pub next: int,
}

/// The code of an index scan stands in the program.
pub open spec fn seek_stands(y: SeekParts) -> bool {
    let x = y.x;
    let code = y.big.program().code;
    let ctx = table_ctx(x.t, 1, x.f);
    let top = y.k4.code.len() as int;
    let after = y.k11.code.len() as int;
    let rr = y.k5.next_reg;
    &&& y.k9 == gen_filter(y.k8, x.condition, y.next, ctx)
    &&& y.k10 == y.k9.take_regs(x.columns.len() as i32)
    &&& y.k11 == gen_expr_list(y.k10, x.columns, y.k9.next_reg, ctx, 0)
    &&& neat(y.k8) && neat(y.k10)
    &&& settles(y.k9, y.big) && settles(y.k11, y.big)
    &&& y.k5.code.len() == top + (if y.keyed {
        1int
    } else {
        0
    })
    &&& y.k8.code.len() == y.k5.code.len() + 2
    &&& y.k8.code.len() <= y.k9.code.len() == y.k10.code.len() <= after
    &&& after + 3 <= code.len() <= i32::MAX
    &&& 0 <= y.next < y.k8.fresh()
    &&& place(y.big, y.next) == after + 1
    &&& y.keyed ==> code[top] == (InstView {
        opcode: Opcode::IdxGT,
        p1: 0,
        p2: (after + 2) as i32,
        p3: y.key,
        p4: P4View::Int(x.key.len() as i64),
        p5: 0,
    })
    &&& !y.keyed ==> x.key.len() == 0
    &&& code[y.k5.code.len() as int] == (InstView {
        opcode: Opcode::IdxRowid,
        p1: 0,
        p2: rr,
        p3: 0,
        p4: P4View::Unused,
        p5: 0,
    })
    &&& code[y.k5.code.len() as int + 1] == (InstView {
        opcode: Opcode::NotExists,
        p1: 1,
        p2: (after + 1) as i32,
        p3: rr,
        p4: P4View::Unused,
        p5: 0,
    })
    &&& code[after] == (InstView {
        opcode: Opcode::ResultRow,
        p1: y.k9.next_reg,
        p2: x.columns.len() as i32,
        p3: 0,
        p4: P4View::Unused,
        p5: 0,
    })
    &&& code[after + 1] == (InstView {
        opcode: Opcode::Next,
        p1: 0,
        p2: top as i32,
        p3: 0,
        p4: P4View::Unused,
        p5: 0,
    })
    &&& code[after + 2].opcode == Opcode::Halt
    &&& 0 <= y.key
    &&& y.key + x.key.len() <= rr
    &&& y.k8.next_reg == rr + 1
    &&& y.k8.next_reg <= y.k9.next_reg <= y.k8.next_reg + condition_weight(x.condition)
    &&& y.k10.next_reg == y.k9.next_reg + x.columns.len()
    &&& rr + 1 + condition_weight(x.condition) + x.columns.len() + weight_from(x.columns, 0)
        <= i32::MAX
    &&& narrow(x.t)
    &&& tame_condition(x.condition, 0)
    &&& tame_from(x.columns, 0, 0)
    &&& index_in_order(x)
}

/// The first `i` entries have been met.
pub open spec fn sought(y: SeekParts, st: State, i: int) -> bool {
    let x = y.x;
    &&& st.trees == x.start.trees
    &&& st.cursors[0].root == x.start.cursors[0].root
    &&& st.cursors[0].keys == x.start.cursors[0].keys
    &&& st.cursors[1].root == x.start.cursors[1].root
    &&& st.cursors[0].at == i
    &&& !st.halted
    &&& st.error == x.start.error
    &&& st.out == x.start.out + found_rows(x, i)
    &&& y.keyed ==> block(st, y.key, x.key.len() as int) == x.key
    &&& forall|r: i32| r < 0 ==> #[trigger] st.regs[r] == x.start.regs[r]
}

/// The search is over: everything wanted has been put out.
pub open spec fn sought_all(y: SeekParts, st: State) -> bool {
    let x = y.x;
    &&& !st.halted
    &&& st.error == x.start.error
    &&& st.out == x.start.out + found_rows(x, entries_of(x).len() as int)
    &&& st.pc == y.k11.code.len() + 2
}

#[verifier::rlimit(50)]
proof fn lemma_entry_met(y: SeekParts, st: State, i: int) -> (st2: State)
    requires
        seek_stands(y),
        sought(y, st, i),
        0 <= i < entries_of(y.x).len(),
        stand(y.x, i) >= 0,
        st.pc == y.k4.code.len(),
    ensures
        reaches(y.x.m, y.big.program().code, st, st2),
        sought_all(y, st2) || i + 1 < entries_of(y.x).len() && sought(y, st2, i + 1) && st2.pc
            == y.k4.code.len(),
{
    reveal(run);
    let x = y.x;
    let m = x.m;
    let code = y.big.program().code;
    let n = entries_of(x).len() as int;
    let after = y.k11.code.len() as int;
    lemma_reaches_self(m, code, st);
    assert(rows_of(st, 0) == entries_of(x));
    assert(rows_of(st, 1) == rows_of(x.start, 1));
    let a = if y.keyed {
        lemma_advance(m, code, st, st, code[st.pc]);
        run(m, code[st.pc], st)
    } else {
        st
    };
    if stand(x, i) > 0 {
        if !y.keyed {
            assert(x.key =~= Seq::empty());
            assert(stand(x, i) == 0);
        }
        assert forall|j: int| i <= j < n implies #[trigger] stand(x, j) != 0 by {
            if j > i {
                assert(stand(x, j) > 0);
            }
        }
        lemma_none_found(x, i, n);
        a
    } else {
        let rr = y.k5.next_reg;
        lemma_advance(m, code, st, a, code[a.pc]);
        let b = run(m, code[a.pc], a);
        assert(b.regs[rr] == last_field(entries_of(x)[i]));
        lemma_advance(m, code, st, b, code[b.pc]);
        let c = run(m, code[b.pc], b);
        let d = match row_from(rows_of(x.start, 1), last_field(entries_of(x)[i]), 0) {
            None => {
                assert(found_rows(x, i) + Seq::<Seq<Val>>::empty() =~= found_rows(x, i));
                c
            },
            Some(k) => {
                let env = row_env(m, x.t, x.f, x.start, 1, k);
                let there = moved(x.start, 1, k);
                let here = table_row(m, x.t, x.f, c, 1);
                law_table_columns(m, x.t, x.f, 1, y.big, 0, c);
                assert(rows_of(c, 1) == rows_of(there, 1));
                assert forall|q: Option<Seq<char>>, name: Seq<char>| #[trigger]
                    (env.column)(q, name) == (here.column)(q, name) by {
                    assert(table_column(m, x.t, c, 1, name) == table_column(
                        m,
                        x.t,
                        there,
                        1,
                        name,
                    ));
                }
                lemma_serves_like(here, env, y.big, 0, c);
                let e = law_filter_code(y.k8, x.condition, y.next, env, y.big, 0, c);
                lemma_reaches_through(m, code, st, c, e);
                if kept(x.condition, env) {
                    let row = y.k9.next_reg;
                    let g = lemma_list_code(y.k10, x.columns, row, env, y.big, 0, e, 0);
                    lemma_reaches_through(m, code, st, e, g);
                    lemma_values_from(x.columns, env, 0);
                    assert(block(g, row, x.columns.len() as int) =~= values_from(
                        x.columns,
                        env,
                        0,
                    ));
                    lemma_advance(m, code, st, g, code[g.pc]);
                    let h = run(m, code[g.pc], g);
                    assert(h.out =~= x.start.out + (found_rows(x, i) + seq![values_from(
                        x.columns,
                        env,
                        0,
                    )]));
                    h
                } else {
                    assert(found_rows(x, i) + Seq::<Seq<Val>>::empty() =~= found_rows(x, i));
                    e
                }
            },
        };
        assert(d.pc == after + 1);
        assert(d.out == x.start.out + found_rows(x, i + 1));
        if y.keyed {
            assert(block(d, y.key, x.key.len() as int) =~= block(st, y.key, x.key.len() as int));
        }
        lemma_advance(m, code, st, d, code[d.pc]);
        let z = run(m, code[d.pc], d);
        assert(rows_of(d, 0) == entries_of(x));
        if y.keyed {
            assert(block(z, y.key, x.key.len() as int) =~= block(d, y.key, x.key.len() as int));
        }
        z
    }
}

proof fn lemma_entries_met(y: SeekParts, st: State, first: int, i: int) -> (st2: State)
    requires
        seek_stands(y),
        sought(y, st, i),
        0 <= first <= i < entries_of(y.x).len(),
        stand(y.x, first) >= 0,
        st.pc == y.k4.code.len(),
    ensures
        reaches(y.x.m, y.big.program().code, st, st2),
        sought_all(y, st2),
    decreases entries_of(y.x).len() - i,
{
    if first < i {
        assert(stand(y.x, i) < 0 ==> stand(y.x, first) < 0);
    }
    let a = lemma_entry_met(y, st, i);
    if sought_all(y, a) {
        a
    } else {
        let b = lemma_entries_met(y, a, first, i + 1);
        lemma_reaches_through(y.x.m, y.big.program().code, st, a, b);
        b
    }
}

/// The code of an index scan, run from its start, puts out the output columns of exactly those
/// rows of the table whose index entry has the pinned values and for which the condition is true,
/// in the order of the index, and ends. Without pinned values it goes by every entry.
#[verifier::rlimit(50)]
pub proof fn law_index_scan_code(
    s: Asm,
    select: SelectStmtView,
    plan: IndexPlanView,
    outputs: Seq<(ExprView, Seq<char>)>,
    t: TableView,
    f: FunctionsView,
    m: Values,
    big: Asm,
    st: State,
) -> (st2: State)
    requires
        settles(
            gen_index_scan(s, select, plan, outputs, None, None, table_ctx(t, 1, f)),
            big,
        ),
        neat(s),
        !plan.covering,
        !select.distinct,
        st.pc == s.code.len(),
        !st.halted,
        narrow(t),
        tame_condition(select.where_clause, 0),
        tame_from(exprs_of(outputs), 0, 0),
        0 <= s.next_reg,
        s.next_reg + plan.range.len() + 1 + condition_weight(select.where_clause) + outputs.len()
            + weight_from(exprs_of(outputs), 0) <= i32::MAX,
        index_in_order(
            Seeking {
                m,
                t,
                f,
                start: st,
                key: key_values(pinned_keys(plan.range, plan.range.len() as int)),
                condition: select.where_clause,
                columns: exprs_of(outputs),
            },
        ),
    ensures
        reaches(m, big.program().code, st, st2),
        st2.halted,
        st2.error == st.error,
        st2.out == st.out + found_rows(
            Seeking {
                m,
                t,
                f,
                start: st,
                key: key_values(pinned_keys(plan.range, plan.range.len() as int)),
                condition: select.where_clause,
                columns: exprs_of(outputs),
            },
            rows_of(st, 0).len() as int,
        ),
{
    broadcast use {group_settled, group_grows};

    reveal(gen_index_scan);
    reveal(gen_open_distinct);
    reveal(gen_distinct);
    reveal(run);
    let code = big.program().code;
    let ctx = table_ctx(t, 1, f);
    let ncol = outputs.len() as i32;
    let keys = pinned_keys(plan.range, plan.range.len() as int);
    lemma_pinned_few(plan.range, plan.range.len() as int);
    let nkey = keys.len() as i32;
    let keyed = keys.len() > 0;
    let x = Seeking {
        m,
        t,
        f,
        start: st,
        key: key_values(keys),
        condition: select.where_clause,
        columns: exprs_of(outputs),
    };
    let u = gen_index_scan(s, select, plan, outputs, None, None, ctx);
    assert(u.err is None) by {
        reveal(settles);
    }
    let key = s.next_reg;
    let k0 = s.take_regs(nkey);
    let k1 = if keyed {
        gen_key(k0, keys, key, 0)
    } else {
        s
    };
    let end = k1.fresh();
    let k2 = k1.label();
    let k3 = if keyed {
        k2.jump_p45(Opcode::SeekGE, 0, end, key, P4View::Int(nkey as i64), 0)
    } else {
        k2.jump(Opcode::Rewind, 0, end, 0)
    };
    let top = k3.fresh();
    let k4 = k3.label().bind(top);
    let k5 = if keyed {
        k4.jump_p45(Opcode::IdxGT, 0, end, key, P4View::Int(nkey as i64), 0)
    } else {
        k4
    };
    let next = k5.fresh();
    let k6 = k5.label();
    let rr = k6.next_reg;
    let k7 = k6.take_regs(1).emit(Opcode::IdxRowid, 0, rr, 0);
    let k8 = k7.jump(Opcode::NotExists, 1, next, rr);
    let k9 = gen_filter(k8, select.where_clause, next, ctx);
    let k10 = k9.take_regs(ncol);
    let k11 = gen_expr_list(k10, x.columns, k9.next_reg, ctx, 0);
    let k12 = k11.emit(Opcode::ResultRow, k9.next_reg, ncol, 0);
    let k14 = k12.bind(next).jump(Opcode::Next, 0, top, 0);
    assert(u == k14.bind(end).emit(Opcode::Halt, 0, 0, 0));
    lemma_key_follows(k0, keys, key, 0);
    lemma_filter_follows(k8, select.where_clause, next, ctx);
    lemma_list_follows(k10, x.columns, k9.next_reg, ctx, 0);
    assert(k11.err is None);
    lemma_fresh_grows(k10, k11);
    lemma_fresh_grows(k8, k9);
    assert(k1.err is None);
    if keyed {
        lemma_fresh_grows(k0, k1);
    }
    assert(s.err is None);
    assert(!k14.bound(end));
    assert(settles(k14, big));
    assert(!k12.bound(next));
    assert(settles(k12, big));
    assert(settles(k11, big));
    lemma_settles_early(k10, k11, big);
    assert(settles(k9, big));
    lemma_settles_early(k8, k9, big);
    assert(settles(k7, big));
    assert(settles(k5, big));
    assert(settles(k4, big));
    assert(!k3.label().bound(top));
    assert(settles(k3, big));
    assert(settles(k1, big));
    if keyed {
        lemma_settles_early(k0, k1, big);
        lemma_take(s, nkey);
        assert(neat(k0));
        lemma_grows_neat(k0, k1);
    }
    assert(neat(k1) && neat(k3) && neat(k4) && neat(k5) && neat(k7) && neat(k8));
    lemma_grows_neat(k8, k9);
    assert(neat(k10));
    lemma_grows_neat(k10, k11);
    assert(neat(k12) && neat(k14));
    lemma_take(k6, 1);
    lemma_take(k9, ncol);
    assert(big.program().code.len() <= i32::MAX) by {
        reveal(settles);
        reveal(Asm::program);
    }
    let y = SeekParts { x, big, keyed, key, k4, k5, k8, k9, k10, k11, next };
    assert(seek_stands(y));
    lemma_reaches_self(m, code, st);
    let n = entries_of(x).len() as int;
    lemma_seek(x, 0);
    let z = if keyed {
        let a = lemma_key_code(k0, keys, key, m, big, st, 0);
        assert(block(a, key, nkey as int) =~= x.key);
        lemma_advance(m, code, st, a, code[a.pc]);
        let b = run(m, code[a.pc], a);
        match seek_from(m, st.cursors[0].keys, entries_of(x), x.key, 0) {
            Some(first) => {
                lemma_none_found(x, 0, first);
                assert(b.out =~= st.out + found_rows(x, first));
                assert(block(b, key, nkey as int) =~= x.key);
                let c = lemma_entries_met(y, b, first, first);
                lemma_reaches_through(m, code, st, b, c);
                c
            },
            None => {
                lemma_none_found(x, 0, n);
                assert(b.out =~= st.out + found_rows(x, n));
                b
            },
        }
    } else {
        lemma_advance(m, code, st, st, code[st.pc]);
        let b = run(m, code[st.pc], st);
        assert(b.out =~= st.out + found_rows(x, 0));
        if n == 0 {
            b
        } else {
            assert(x.key =~= Seq::empty());
            assert(stand(x, 0) == 0);
            let c = lemma_entries_met(y, b, 0, 0);
            lemma_reaches_through(m, code, st, b, c);
            c
        }
    };
    lemma_advance(m, code, st, z, code[z.pc]);
    run(m, code[z.pc], z)
}

proof fn lemma_pinned_few(range: Seq<RangeKeyView>, n: int)
    ensures
        pinned_keys(range, n).len() <= (if 0 <= n {
            n
        } else {
            0
        }),
    decreases n,
{
    if 0 < n <= range.len() {
        lemma_pinned_few(range, n - 1);
    }
}

} // verus!
