//! What deleting rows does to a table and to its indexes.
use vstd::prelude::*;

use crate::ast::ExprView;
use crate::builder::{group_asm, reg_at, Asm};
use crate::delete::{
    gen_delete_all, gen_old_key, gen_open_indexes, gen_reals, gen_remove, gen_unindex,
    gen_unindex_all, TABLE,
};
use crate::emit::{gen_bare_epilogue, gen_columns, prologue};
use crate::expr::gen_expr;
use crate::machine::{
    block, field, group_grows, group_settled, grows, lemma_grows_neat, lemma_grows_through,
    lemma_reaches_self, lemma_reaches_through, lemma_settles_early, neat, nth, place, reaches,
    rows_of, run, settles, Row, State, Val, Values,
};
use crate::meaning::{
    agrees, follows, kept, law_expression_code, law_table_columns, lemma_advance,
    lemma_column_in_table, lemma_expr_follows, lemma_fresh_grows, lemma_serves_on, lemma_take,
    narrow, serves, table_row, value, Env,
};
use crate::rows::{
    condition_weight, law_filter_code, lemma_bare_body_reached, lemma_columns_code,
    lemma_columns_follow, lemma_filter_follows, lemma_prologue, ready_to_run, row_env,
    tame_condition,
};
use crate::scan::{filter_stuck, gen_filter};
use crate::schema::{ColumnView, FunctionsView, IndexView, TableView};
use crate::scope::{table_ctx, CtxView};
use crate::storing::{key_weight, sound_index};
use crate::stmt::DeleteView;
use crate::vdbe::{Affinity, InstView, Opcode, P4View};

verus! {

broadcast use group_asm;

// ---- The entry of a row in an index ----

/// The value of key field `k` of an index for the row that the table is on: that of its
/// expression, or of its column.
pub open spec fn old_field(ix: IndexView, t: TableView, st: State, env: Env, k: int) -> Val {
    match ix.columns[k].expr {
        Some(e) => value(e, env),
        None => field(st, TABLE, t.column_index(ix.columns[k].name)->0 as int),
    }
}

/// The entry of the row that the table is on: its key fields, then its rowid.
pub open spec fn old_entry(ix: IndexView, t: TableView, st: State, rowid: Val, env: Env) -> Seq<
    Val,
> {
    Seq::new(ix.columns.len(), |k: int| old_field(ix, t, st, env, k)).push(rowid)
}

/// A bound on the registers that taking an entry out takes.
pub open spec fn unindex_weight(ix: IndexView) -> nat {
    condition_weight(ix.where_clause) + ix.columns.len() + 1 + key_weight(ix, 0)
}

proof fn lemma_old_key_follows(
    s: Asm,
    ix: IndexView,
    t: TableView,
    to: i32,
    ctx: CtxView,
    k: int,
)
    ensures
        follows(s, gen_old_key(s, ix, t, to, ctx, k), key_weight(ix, k)),
    decreases ix.columns.len() - k,
{
    broadcast use group_grows;

    if s.err is Some || k < 0 || k >= ix.columns.len() {
    } else {
        let s1 = match ix.columns[k].expr {
            Some(e) => gen_expr(s, e, reg_at(to, k), ctx),
            None => s.emit(
                Opcode::Column,
                TABLE,
                t.column_index(ix.columns[k].name)->0 as i32,
                reg_at(to, k),
            ),
        };
        match ix.columns[k].expr {
            Some(e) => lemma_expr_follows(s, e, reg_at(to, k), ctx),
            None => {},
        }
        lemma_old_key_follows(s1, ix, t, to, ctx, k + 1);
        let u = gen_old_key(s1, ix, t, to, ctx, k + 1);
        lemma_grows_through(s, s1, u);
        if u.err is None {
            lemma_fresh_grows(s1, u);
        }
    }
}

proof fn lemma_old_key_code(
    s: Asm,
    ix: IndexView,
    t: TableView,
    to: i32,
    env: Env,
    big: Asm,
    lo: i32,
    st: State,
    k: int,
) -> (st2: State)
    requires
        settles(gen_old_key(s, ix, t, to, env.ctx, k), big),
        neat(s),
        st.pc == s.code.len(),
        !st.halted,
        serves(env, big, lo, st),
        sound_index(ix, t, lo as int),
        t.columns.len() <= i32::MAX,
        0 <= lo <= to,
        to + ix.columns.len() <= s.next_reg,
        s.next_reg + key_weight(ix, k) <= i32::MAX,
        0 <= k <= ix.columns.len(),
        forall|j: int|
            0 <= j < k ==> st.regs[#[trigger] nth(to, j)] == old_field(ix, t, st, env, j),
    ensures
        reaches(env.m, big.program().code, st, st2),
        st2.pc == gen_old_key(s, ix, t, to, env.ctx, k).code.len(),
        agrees(st, st2, to),
        neat(gen_old_key(s, ix, t, to, env.ctx, k)),
        settles(s, big),
        s.next_reg <= gen_old_key(s, ix, t, to, env.ctx, k).next_reg <= s.next_reg + key_weight(
            ix,
            k,
        ),
        forall|j: int|
            0 <= j < ix.columns.len() ==> st2.regs[#[trigger] nth(to, j)] == old_field(
                ix,
                t,
                st,
                env,
                j,
            ),
        forall|r: i32|
            to + ix.columns.len() <= r < s.next_reg ==> #[trigger] st2.regs[r] == st.regs[r],
    decreases ix.columns.len() - k,
{
    broadcast use group_settled;

    let m = env.m;
    let code = big.program().code;
    let u = gen_old_key(s, ix, t, to, env.ctx, k);
    assert(u.err is None) by {
        reveal(settles);
    }
    lemma_old_key_follows(s, ix, t, to, env.ctx, k);
    lemma_grows_neat(s, u);
    lemma_settles_early(s, u, big);
    lemma_reaches_self(m, code, st);
    if k >= ix.columns.len() {
        st
    } else {
        let r = reg_at(to, k);
        assert(r == nth(to, k));
        let ic = ix.columns[k];
        let s1 = match ic.expr {
            Some(e) => gen_expr(s, e, r, env.ctx),
            None => s.emit(Opcode::Column, TABLE, t.column_index(ic.name)->0 as i32, r),
        };
        lemma_old_key_follows(s1, ix, t, to, env.ctx, k + 1);
        lemma_settles_early(s1, u, big);
        let a = match ic.expr {
            Some(e) => {
                lemma_expr_follows(s, e, r, env.ctx);
                lemma_grows_neat(s, s1);
                law_expression_code(s, e, r, env, big, lo, st)
            },
            None => {
                reveal(run);
                lemma_column_in_table(t, ic.name);
                lemma_advance(m, code, st, st, code[st.pc]);
                run(m, code[st.pc], st)
            },
        };
        lemma_serves_on(env, big, lo, st, a);
        assert forall|j: int| 0 <= j < k + 1 implies a.regs[#[trigger] nth(to, j)] == old_field(
            ix,
            t,
            a,
            env,
            j,
        ) by {
            if j < k {
                assert(st.regs[nth(to, j)] == old_field(ix, t, st, env, j));
            }
        }
        let b = lemma_old_key_code(s1, ix, t, to, env, big, lo, a, k + 1);
        lemma_reaches_through(m, code, st, a, b);
        assert forall|j: int| 0 <= j < ix.columns.len() implies b.regs[#[trigger] nth(to, j)]
            == old_field(ix, t, st, env, j) by {
            assert(b.regs[nth(to, j)] == old_field(ix, t, a, env, j));
        }
        b
    }
}

/// What taking the row that the table is on out of an index comes to: nothing if the index is
/// partial and does not hold the row, else its entry is gone.
pub open spec fn entry_removed(
    m: Values,
    ix: IndexView,
    t: TableView,
    cursor: i32,
    rowid: Val,
    env: Env,
    st: State,
    st2: State,
) -> bool {
    if !kept(ix.where_clause, env) {
        st2.trees == st.trees
    } else {
        st2.trees == st.trees.insert(
            st.cursors[cursor].root,
            (m.remove)(rows_of(st, cursor), old_entry(ix, t, st, rowid, env)),
        )
    }
}

proof fn lemma_unindex_follows(
    s: Asm,
    ix: IndexView,
    t: TableView,
    cursor: i32,
    rowid: i32,
    ctx: CtxView,
)
    ensures
        follows(s, gen_unindex(s, ix, t, cursor, rowid, ctx), unindex_weight(ix)),
{
    broadcast use {group_grows, filter_stuck};

    reveal(gen_unindex);
    if s.err is None {
        let n = ix.columns.len() as i32;
        let skip = s.fresh();
        let s0 = s.label();
        let s1 = gen_filter(s0, ix.where_clause, skip, ctx);
        let key = s1.next_reg;
        let s2 = s1.take_regs(n.wrapping_add(1));
        let s3 = gen_old_key(s2, ix, t, key, ctx, 0);
        let u = gen_unindex(s, ix, t, cursor, rowid, ctx);
        lemma_filter_follows(s0, ix.where_clause, skip, ctx);
        lemma_old_key_follows(s2, ix, t, key, ctx, 0);
        lemma_grows_through(s, s0, s1);
        lemma_grows_through(s, s2, s3);
        assert(grows(s, u));
        if u.err is None {
            assert(s3.err is None && s2.err is None && s1.err is None) by {
                reveal(grows);
            }
            if 0 <= s.next_reg && s.next_reg + unindex_weight(ix) <= i32::MAX {
                reveal(Asm::take_regs);
                assert(s.next_reg <= s1.next_reg <= s.next_reg + condition_weight(
                    ix.where_clause,
                ));
                assert(s2.next_reg == s1.next_reg + n + 1);
                assert(u.next_reg == s3.next_reg);
            }
        }
    }
}

/// The code that takes the row that the table is on out of an index, run from its start, removes
/// exactly the entry of the row, if the index holds the row.
pub proof fn law_unindex_code(
    s: Asm,
    ix: IndexView,
    t: TableView,
    cursor: i32,
    rowid: i32,
    env: Env,
    big: Asm,
    lo: i32,
    st: State,
) -> (st2: State)
    requires
        settles(gen_unindex(s, ix, t, cursor, rowid, env.ctx), big),
        neat(s),
        st.pc == s.code.len(),
        !st.halted,
        serves(env, big, lo, st),
        sound_index(ix, t, lo as int),
        t.columns.len() <= i32::MAX,
        0 <= lo <= s.next_reg,
        rowid < s.next_reg,
        s.next_reg + unindex_weight(ix) <= i32::MAX,
    ensures
        reaches(env.m, big.program().code, st, st2),
        entry_removed(env.m, ix, t, cursor, st.regs[rowid], env, st, st2),
        st2 == (State { pc: st2.pc, regs: st2.regs, trees: st2.trees, ..st }),
        st2.pc == gen_unindex(s, ix, t, cursor, rowid, env.ctx).code.len(),
        forall|r: i32| r < s.next_reg ==> #[trigger] st2.regs[r] == st.regs[r],
{
    broadcast use {group_settled, group_grows};

    reveal(gen_unindex);
    let m = env.m;
    let ctx = env.ctx;
    let code = big.program().code;
    let u = gen_unindex(s, ix, t, cursor, rowid, ctx);
    assert(u.err is None) by {
        reveal(settles);
    }
    let n = ix.columns.len() as i32;
    let skip = s.fresh();
    let s0 = s.label();
    let s1 = gen_filter(s0, ix.where_clause, skip, ctx);
    let key = s1.next_reg;
    let s2 = s1.take_regs(n.wrapping_add(1));
    let s3 = gen_old_key(s2, ix, t, key, ctx, 0);
    let s4 = s3.emit(Opcode::SCopy, rowid, key.wrapping_add(n), 0);
    let s5 = s4.emit(Opcode::IdxDelete, cursor, key, n.wrapping_add(1));
    lemma_filter_follows(s0, ix.where_clause, skip, ctx);
    lemma_old_key_follows(s2, ix, t, key, ctx, 0);
    assert(s3.err is None);
    lemma_fresh_grows(s2, s3);
    assert(s1.err is None);
    lemma_fresh_grows(s0, s1);
    assert(!s0.bound(skip) && !s5.bound(skip));
    assert(settles(s5, big));
    assert(settles(s4, big));
    assert(settles(s3, big));
    lemma_settles_early(s2, s3, big);
    assert(settles(s1, big));
    assert(neat(s0)) by {
        lemma_settles_early(s0, s1, big);
    }
    let a = law_filter_code(s0, ix.where_clause, skip, env, big, lo, st);
    if !kept(ix.where_clause, env) {
        a
    } else {
        reveal(run);
        assert(s2.next_reg == key + n + 1) by {
            reveal(Asm::take_regs);
        }
        let b = lemma_old_key_code(s2, ix, t, key, env, big, lo, a, 0);
        lemma_reaches_through(m, code, st, a, b);
        lemma_advance(m, code, st, b, code[b.pc]);
        let c = run(m, code[b.pc], b);
        let fields = old_entry(ix, t, st, st.regs[rowid], env);
        assert(block(c, key, n + 1) =~= fields) by {
            assert forall|j: int| 0 <= j < n + 1 implies c.regs[#[trigger] nth(key, j)]
                == fields[j] by {
                if j < n {
                    assert(b.regs[nth(key, j)] == old_field(ix, t, a, env, j));
                }
            }
        }
        lemma_advance(m, code, st, c, code[c.pc]);
        run(m, code[c.pc], c)
    }
}

// ---- All indexes ----

/// A bound on the registers that taking a row out of the indexes from the `k`-th on takes.
pub open spec fn unindex_all_weight(ixs: Seq<IndexView>, k: int) -> nat
    decreases ixs.len() - k,
{
    if k < 0 || k >= ixs.len() {
        0
    } else {
        unindex_weight(ixs[k]) + unindex_all_weight(ixs, k + 1)
    }
}

/// The cursors after `base` are on b-trees of their own, apart from that of the table.
pub open spec fn apart(st: State, ixs: Seq<IndexView>, base: i32) -> bool {
    forall|k: int|
        0 <= k < ixs.len() ==> st.cursors[#[trigger] nth(base, k)].root != st.cursors[TABLE].root
}

/// The row that the table is on has been taken out of the indexes from the `k`-th on, one after
/// the other.
pub open spec fn all_removed(
    m: Values,
    ixs: Seq<IndexView>,
    t: TableView,
    base: i32,
    rowid: Val,
    env: Env,
    st: State,
    trees: Map<int, Seq<Row>>,
    k: int,
) -> bool
    decreases ixs.len() - k,
{
    if k < 0 || k >= ixs.len() {
        trees == st.trees
    } else {
        exists|mid: State|
            #[trigger] entry_removed(m, ixs[k], t, nth(base, k), rowid, env, st, mid) && mid
                == (State { trees: mid.trees, ..st }) && all_removed(
                m,
                ixs,
                t,
                base,
                rowid,
                env,
                mid,
                trees,
                k + 1,
            )
    }
}

pub proof fn lemma_unindex_all_follows(
    s: Asm,
    ixs: Seq<IndexView>,
    t: TableView,
    base: i32,
    rowid: i32,
    ctx: CtxView,
    k: int,
)
    ensures
        follows(
            s,
            gen_unindex_all(s, ixs, t, base, rowid, ctx, k),
            unindex_all_weight(ixs, k),
        ),
    decreases ixs.len() - k,
{
    broadcast use group_grows;

    if s.err is Some || k < 0 || k >= ixs.len() {
    } else {
        let s1 = gen_unindex(s, ixs[k], t, reg_at(base, k), rowid, ctx);
        let u = gen_unindex_all(s1, ixs, t, base, rowid, ctx, k + 1);
        lemma_unindex_follows(s, ixs[k], t, reg_at(base, k), rowid, ctx);
        lemma_unindex_all_follows(s1, ixs, t, base, rowid, ctx, k + 1);
        lemma_grows_through(s, s1, u);
        if u.err is None {
            lemma_fresh_grows(s1, u);
        }
    }
}

/// The code that takes the row that the table is on out of its indexes, run from its start, takes
/// it out of each of them and leaves the table as it is.
pub proof fn law_unindex_all_code(
    s: Asm,
    ixs: Seq<IndexView>,
    t: TableView,
    base: i32,
    rowid: i32,
    f: FunctionsView,
    env: Env,
    big: Asm,
    st: State,
    k: int,
) -> (st2: State)
    requires
        settles(gen_unindex_all(s, ixs, t, base, rowid, env.ctx, k), big),
        neat(s),
        st.pc == s.code.len(),
        !st.halted,
        env.ctx == table_ctx(t, TABLE, f),
        forall|q: Option<Seq<char>>, name: Seq<char>| #[trigger]
            (env.column)(q, name) == (table_row(env.m, t, f, st, TABLE).column)(q, name),
        forall|r: i32| r < 0 ==> #[trigger] st.regs[r] == (env.slot)(r),
        narrow(t),
        apart(st, ixs, base),
        forall|j: int| 0 <= j < ixs.len() ==> sound_index(#[trigger] ixs[j], t, 0),
        t.columns.len() <= i32::MAX,
        0 <= rowid < s.next_reg,
        s.next_reg + unindex_all_weight(ixs, k) <= i32::MAX,
        0 <= k <= ixs.len(),
        0 <= base,
        base + ixs.len() <= i32::MAX,
    ensures
        reaches(env.m, big.program().code, st, st2),
        all_removed(env.m, ixs, t, base, st.regs[rowid], env, st, st2.trees, k),
        st2 == (State { pc: st2.pc, regs: st2.regs, trees: st2.trees, ..st }),
        rows_of(st2, TABLE) == rows_of(st, TABLE),
        st2.pc == gen_unindex_all(s, ixs, t, base, rowid, env.ctx, k).code.len(),
        forall|r: i32| r < s.next_reg ==> #[trigger] st2.regs[r] == st.regs[r],
    decreases ixs.len() - k,
{
    let m = env.m;
    let code = big.program().code;
    let u = gen_unindex_all(s, ixs, t, base, rowid, env.ctx, k);
    assert(u.err is None) by {
        reveal(settles);
    }
    lemma_reaches_self(m, code, st);
    lemma_unindex_all_follows(s, ixs, t, base, rowid, env.ctx, k);
    lemma_fresh_grows(s, u);
    if k >= ixs.len() {
        st
    } else {
        let c = reg_at(base, k);
        assert(c == nth(base, k));
        let s1 = gen_unindex(s, ixs[k], t, c, rowid, env.ctx);
        lemma_unindex_follows(s, ixs[k], t, c, rowid, env.ctx);
        lemma_unindex_all_follows(s1, ixs, t, base, rowid, env.ctx, k + 1);
        lemma_settles_early(s1, u, big);
        lemma_grows_neat(s, s1);
        law_table_columns(m, t, f, TABLE, big, 0, st);
        crate::meaning::lemma_serves_like(table_row(m, t, f, st, TABLE), env, big, 0, st);
        let a = law_unindex_code(s, ixs[k], t, c, rowid, env, big, 0, st);
        assert(rows_of(a, TABLE) == rows_of(st, TABLE));
        assert forall|q: Option<Seq<char>>, name: Seq<char>| #[trigger]
            (env.column)(q, name) == (table_row(m, t, f, a, TABLE).column)(q, name) by {
            assert(crate::meaning::table_column(m, t, a, TABLE, name)
                == crate::meaning::table_column(m, t, st, TABLE, name));
            assert((env.column)(q, name) == (table_row(m, t, f, st, TABLE).column)(q, name));
        }
        let b = law_unindex_all_code(s1, ixs, t, base, rowid, f, env, big, a, k + 1);
        lemma_reaches_through(m, code, st, a, b);
        let mid = State { trees: a.trees, ..st };
        assert(entry_removed(m, ixs[k], t, nth(base, k), st.regs[rowid], env, st, mid));
        lemma_removed_anywhere(m, ixs, t, base, st.regs[rowid], env, a, mid, b.trees, k + 1);
        b
    }
}

/// What is removed does not depend on registers that the row is not in.
proof fn lemma_removed_anywhere(
    m: Values,
    ixs: Seq<IndexView>,
    t: TableView,
    base: i32,
    rowid: Val,
    env: Env,
    a: State,
    b: State,
    trees: Map<int, Seq<Row>>,
    k: int,
)
    requires
        all_removed(m, ixs, t, base, rowid, env, a, trees, k),
        a == (State { pc: a.pc, regs: a.regs, ..b }),
    ensures
        all_removed(m, ixs, t, base, rowid, env, b, trees, k),
    decreases ixs.len() - k,
{
    if k < 0 || k >= ixs.len() {
    } else {
        let mid = choose|mid: State|
            #[trigger] entry_removed(m, ixs[k], t, nth(base, k), rowid, env, a, mid) && mid
                == (State { trees: mid.trees, ..a }) && all_removed(
                m,
                ixs,
                t,
                base,
                rowid,
                env,
                mid,
                trees,
                k + 1,
            );
        let there = State { trees: mid.trees, ..b };
        assert(old_entry(ixs[k], t, a, rowid, env) =~= old_entry(ixs[k], t, b, rowid, env)) by {
            assert forall|j: int| 0 <= j < ixs[k].columns.len() implies old_field(
                ixs[k],
                t,
                a,
                env,
                j,
            ) == old_field(ixs[k], t, b, env, j) by {}
        }
        assert(entry_removed(m, ixs[k], t, nth(base, k), rowid, env, b, there));
        lemma_removed_anywhere(m, ixs, t, base, rowid, env, mid, there, trees, k + 1);
    }
}

// ---- Rows of the table ----

proof fn lemma_reals_follow(s: Asm, cols: Seq<ColumnView>, base: i32, k: int)
    ensures
        follows(s, gen_reals(s, cols, base, k), 0),
        gen_reals(s, cols, base, k).next_reg == s.next_reg,
    decreases cols.len() - k,
{
    broadcast use group_grows;

    if s.err is Some || k < 0 || k >= cols.len() {
    } else {
        let s1 = if cols[k].affinity == Affinity::Real {
            s.emit(Opcode::RealAffinity, reg_at(base, k), 0, 0)
        } else {
            s
        };
        lemma_reals_follow(s1, cols, base, k + 1);
        lemma_grows_through(s, s1, gen_reals(s1, cols, base, k + 1));
    }
}

/// Values made real are changed in their registers only.
proof fn lemma_reals_code(
    s: Asm,
    cols: Seq<ColumnView>,
    base: i32,
    m: Values,
    big: Asm,
    st: State,
    k: int,
) -> (st2: State)
    requires
        settles(gen_reals(s, cols, base, k), big),
        neat(s),
        st.pc == s.code.len(),
        !st.halted,
        0 <= k <= cols.len(),
        0 <= base,
        base + cols.len() <= i32::MAX,
    ensures
        reaches(m, big.program().code, st, st2),
        st2.pc == gen_reals(s, cols, base, k).code.len(),
        st2 == (State { pc: st2.pc, regs: st2.regs, ..st }),
        neat(gen_reals(s, cols, base, k)),
        settles(s, big),
        forall|r: i32| r < base ==> #[trigger] st2.regs[r] == st.regs[r],
    decreases cols.len() - k,
{
    broadcast use group_settled;

    reveal(run);
    let code = big.program().code;
    let u = gen_reals(s, cols, base, k);
    assert(u.err is None) by {
        reveal(settles);
    }
    lemma_reals_follow(s, cols, base, k);
    lemma_grows_neat(s, u);
    lemma_settles_early(s, u, big);
    lemma_reaches_self(m, code, st);
    if k >= cols.len() {
        st
    } else if cols[k].affinity == Affinity::Real {
        let s1 = s.emit(Opcode::RealAffinity, reg_at(base, k), 0, 0);
        lemma_reals_follow(s1, cols, base, k + 1);
        lemma_settles_early(s1, u, big);
        lemma_advance(m, code, st, st, code[st.pc]);
        let a = run(m, code[st.pc], st);
        let b = lemma_reals_code(s1, cols, base, m, big, a, k + 1);
        lemma_reaches_through(m, code, st, a, b);
        b
    } else {
        lemma_reals_code(s, cols, base, m, big, st, k + 1)
    }
}

/// A bound on the registers that removing a row takes.
pub open spec fn remove_weight(t: TableView, ixs: Seq<IndexView>) -> nat {
    t.columns.len() + unindex_all_weight(ixs, 0)
}

proof fn lemma_remove_follows(
    s: Asm,
    t: TableView,
    ixs: Seq<IndexView>,
    base: i32,
    rowid: i32,
    f: FunctionsView,
)
    requires
        t.columns.len() <= i32::MAX,
    ensures
        follows(s, gen_remove(s, t, ixs, base, rowid, None, f), remove_weight(t, ixs)),
{
    broadcast use group_grows;

    reveal(gen_remove);
    let ncol = t.columns.len() as i32;
    let row = s.next_reg;
    let ctx = table_ctx(t, TABLE, f);
    let s0 = s.take_regs(ncol);
    let s1 = gen_columns(s0, TABLE, 0, row, ncol as int, 0);
    let s2 = gen_reals(s1, t.columns, row, 0);
    let s3 = gen_unindex_all(s2, ixs, t, base, rowid, ctx, 0);
    lemma_columns_follow(s0, TABLE, 0, row, ncol as int, 0);
    lemma_reals_follow(s1, t.columns, row, 0);
    lemma_unindex_all_follows(s2, ixs, t, base, rowid, ctx, 0);
    lemma_grows_through(s, s0, s1);
    lemma_grows_through(s, s1, s2);
    lemma_grows_through(s, s2, s3);
    if s3.err is None {
        lemma_fresh_grows(s2, s3);
        lemma_fresh_grows(s, s2);
        lemma_take(s, ncol);
    }
}

/// The code that removes the row that the table is on, run from its start, takes it out of every
/// index and out of the table. The cursor is left in front of the row that follows.
#[verifier::rlimit(50)]
pub proof fn law_remove_code(
    s: Asm,
    t: TableView,
    ixs: Seq<IndexView>,
    base: i32,
    rowid: i32,
    f: FunctionsView,
    m: Values,
    big: Asm,
    st: State,
) -> (st2: State)
    requires
        settles(gen_remove(s, t, ixs, base, rowid, None, f), big),
        neat(s),
        st.pc == s.code.len(),
        !st.halted,
        narrow(t),
        apart(st, ixs, base),
        forall|j: int| 0 <= j < ixs.len() ==> sound_index(#[trigger] ixs[j], t, 0),
        t.columns.len() <= i32::MAX,
        0 <= rowid < s.next_reg,
        s.next_reg + remove_weight(t, ixs) <= i32::MAX,
        0 <= base,
        base + ixs.len() <= i32::MAX,
        0 <= st.cursors[TABLE].at < rows_of(st, TABLE).len(),
    ensures
        reaches(m, big.program().code, st, st2),
        exists|trees: Map<int, Seq<Row>>|
            #[trigger] all_removed(
                m,
                ixs,
                t,
                base,
                st.regs[rowid],
                table_row(m, t, f, st, TABLE),
                st,
                trees,
                0,
            ) && st2.trees == trees.insert(
                st.cursors[TABLE].root,
                rows_of(st, TABLE).remove(st.cursors[TABLE].at),
            ),
        st2.cursors == st.cursors.insert(
            TABLE,
            crate::machine::CursorState { at: st.cursors[TABLE].at - 1, ..st.cursors[TABLE] },
        ),
        st2 == (State { pc: st2.pc, regs: st2.regs, trees: st2.trees, cursors: st2.cursors, ..st }),
        st2.pc == gen_remove(s, t, ixs, base, rowid, None, f).code.len(),
        forall|r: i32| r < s.next_reg ==> #[trigger] st2.regs[r] == st.regs[r],
{
    broadcast use {group_settled, group_grows};

    reveal(gen_remove);
    reveal(run);
    let code = big.program().code;
    let u = gen_remove(s, t, ixs, base, rowid, None, f);
    assert(u.err is None) by {
        reveal(settles);
    }
    let ncol = t.columns.len() as i32;
    let row = s.next_reg;
    let ctx = table_ctx(t, TABLE, f);
    let s0 = s.take_regs(ncol);
    let s1 = gen_columns(s0, TABLE, 0, row, ncol as int, 0);
    let s2 = gen_reals(s1, t.columns, row, 0);
    let s3 = gen_unindex_all(s2, ixs, t, base, rowid, ctx, 0);
    let env = table_row(m, t, f, st, TABLE);
    lemma_columns_follow(s0, TABLE, 0, row, ncol as int, 0);
    lemma_reals_follow(s1, t.columns, row, 0);
    lemma_unindex_all_follows(s2, ixs, t, base, rowid, ctx, 0);
    assert(settles(s3, big));
    assert(s3.err is None);
    lemma_settles_early(s2, s3, big);
    lemma_settles_early(s1, s2, big);
    lemma_settles_early(s0, s1, big);
    assert(settles(s, big));
    assert(s.err is None) by {
        reveal(settles);
    }
    lemma_take(s, ncol);
    assert(neat(s0));
    let a = lemma_columns_code(s0, TABLE, 0, row, ncol as int, m, big, st, 0);
    let b = lemma_reals_code(s1, t.columns, row, m, big, a, 0);
    lemma_reaches_through(m, code, st, a, b);
    assert forall|q: Option<Seq<char>>, name: Seq<char>| #[trigger]
        (env.column)(q, name) == (table_row(m, t, f, b, TABLE).column)(q, name) by {
        assert(crate::meaning::table_column(m, t, b, TABLE, name) == crate::meaning::table_column(
            m,
            t,
            st,
            TABLE,
            name,
        ));
    }
    let c = law_unindex_all_code(s2, ixs, t, base, rowid, f, env, big, b, 0);
    lemma_reaches_through(m, code, st, b, c);
    lemma_removed_anywhere(m, ixs, t, base, st.regs[rowid], env, b, st, c.trees, 0);
    lemma_grows_neat(s2, s3);
    lemma_advance(m, code, st, c, code[c.pc]);
    let d = run(m, code[c.pc], c);
    assert(d.trees == c.trees.insert(
        st.cursors[TABLE].root,
        rows_of(st, TABLE).remove(st.cursors[TABLE].at),
    ));
    d
}

/// The rows among the first `n` for which the condition is not true.
pub open spec fn spared(
    m: Values,
    t: TableView,
    f: FunctionsView,
    st: State,
    condition: Option<ExprView>,
    n: int,
) -> Seq<Row>
    decreases n,
{
    if n <= 0 {
        Seq::empty()
    } else {
        let before = spared(m, t, f, st, condition, n - 1);
        if kept(condition, row_env(m, t, f, st, TABLE, n - 1)) {
            before
        } else {
            before.push(rows_of(st, TABLE)[n - 1])
        }
    }
}

/// The deletion of rows, and what it runs on.
pub ghost struct Deleting {
    pub t: TableView,
    pub f: FunctionsView,
    pub ixs: Seq<IndexView>,
    pub condition: Option<ExprView>,
    pub m: Values,
    pub big: Asm,
    pub start: State,
    /// At a row, behind the condition, behind the rowid, and behind the removal.
    pub d1: Asm,
    pub d2: Asm,
    pub d3: Asm,
    pub d4: Asm,
    pub d5: Asm,
    pub skip: int,
}

/// The code that deletes rows stands in the program.
pub open spec fn deleting_stands(x: Deleting) -> bool {
    let code = x.big.program().code;
    let ctx = table_ctx(x.t, TABLE, x.f);
    &&& x.d2 == x.d1.label()
    &&& x.skip == x.d1.fresh()
    &&& x.d3 == gen_filter(x.d2, x.condition, x.skip, ctx)
    &&& x.d4 == x.d3.take_regs(1).emit(Opcode::Rowid, TABLE, x.d3.next_reg, 0)
    &&& x.d5 == gen_remove(x.d4, x.t, x.ixs, 1, x.d3.next_reg, None, x.f)
    &&& neat(x.d2) && neat(x.d3) && neat(x.d4)
    &&& settles(x.d3, x.big) && settles(x.d4, x.big) && settles(x.d5, x.big)
    &&& x.d2.code.len() == x.d1.code.len()
    &&& x.d1.code.len() <= x.d5.code.len()
    &&& x.d5.code.len() < code.len() <= i32::MAX
    &&& place(x.big, x.skip) == x.d5.code.len()
    &&& 0 <= x.skip < x.d2.fresh()
    &&& code[x.d5.code.len() as int] == (InstView {
        opcode: Opcode::Next,
        p1: TABLE,
        p2: x.d1.code.len() as i32,
        p3: 0,
        p4: P4View::Unused,
        p5: 0,
    })
    &&& 0 <= x.d1.next_reg == x.d2.next_reg
    &&& x.d2.next_reg <= x.d3.next_reg
    &&& x.d4.next_reg == x.d3.next_reg + 1
    &&& x.d1.next_reg + condition_weight(x.condition) + 1 + remove_weight(x.t, x.ixs) <= i32::MAX
    &&& x.d3.next_reg <= x.d2.next_reg + condition_weight(x.condition)
    &&& narrow(x.t)
    &&& tame_condition(x.condition, 0)
    &&& apart(x.start, x.ixs, 1)
    &&& forall|j: int| 0 <= j < x.ixs.len() ==> sound_index(#[trigger] x.ixs[j], x.t, 0)
    &&& x.t.columns.len() <= i32::MAX
    &&& 1 + x.ixs.len() <= i32::MAX
}

/// The first `n` rows have been met: of them only those spared are left.
pub open spec fn thinned(x: Deleting, st: State, n: int) -> bool {
    let rows = rows_of(x.start, TABLE);
    &&& st.cursors == x.start.cursors.insert(TABLE, st.cursors[TABLE])
    &&& st.cursors[TABLE].root == x.start.cursors[TABLE].root
    &&& rows_of(st, TABLE) == spared(x.m, x.t, x.f, x.start, x.condition, n) + rows.skip(n)
    &&& !st.halted
    &&& st.error == x.start.error
    &&& st.out == x.start.out
    &&& forall|r: i32| r < 0 ==> #[trigger] st.regs[r] == x.start.regs[r]
}

#[verifier::rlimit(50)]
proof fn lemma_thin_row(x: Deleting, st: State, i: int) -> (st2: State)
    requires
        deleting_stands(x),
        thinned(x, st, i),
        st.cursors[TABLE].at == spared(x.m, x.t, x.f, x.start, x.condition, i).len(),
        0 <= i < rows_of(x.start, TABLE).len(),
        st.pc == x.d1.code.len(),
    ensures
        reaches(x.m, x.big.program().code, st, st2),
        thinned(x, st2, i + 1),
        st2.cursors[TABLE].at == spared(x.m, x.t, x.f, x.start, x.condition, i + 1).len(),
        st2.pc == (if i + 1 < rows_of(x.start, TABLE).len() {
            x.d1.code.len() as int
        } else {
            x.d5.code.len() as int + 1
        }),
{
    broadcast use group_settled;

    reveal(run);
    let m = x.m;
    let code = x.big.program().code;
    let rows = rows_of(x.start, TABLE);
    let env = row_env(m, x.t, x.f, x.start, TABLE, i);
    let left = spared(m, x.t, x.f, x.start, x.condition, i);
    let there = crate::machine::moved(x.start, TABLE, i);
    let here = table_row(m, x.t, x.f, st, TABLE);
    let at = left.len() as int;
    assert(rows_of(st, TABLE)[at] == rows[i]);
    law_table_columns(m, x.t, x.f, TABLE, x.big, 0, st);
    assert forall|q: Option<Seq<char>>, name: Seq<char>| #[trigger]
        (env.column)(q, name) == (here.column)(q, name) by {
        assert(crate::meaning::table_column(m, x.t, st, TABLE, name)
            == crate::meaning::table_column(m, x.t, there, TABLE, name));
    }
    crate::meaning::lemma_serves_like(here, env, x.big, 0, st);
    let a = law_filter_code(x.d2, x.condition, x.skip, env, x.big, 0, st);
    let d = if !kept(x.condition, env) {
        assert(left.push(rows[i]) + rows.skip(i + 1) =~= left + rows.skip(i));
        a
    } else {
        lemma_advance(m, code, st, a, code[a.pc]);
        let b = run(m, code[a.pc], a);
        assert(apart(b, x.ixs, 1)) by {
            assert forall|k: int| 0 <= k < x.ixs.len() implies b.cursors[#[trigger] nth(1, k)].root
                != b.cursors[TABLE].root by {
                assert(x.start.cursors[nth(1, k)].root != x.start.cursors[TABLE].root);
            }
        }
        let c = law_remove_code(x.d4, x.t, x.ixs, 1, x.d3.next_reg, x.f, m, x.big, b);
        lemma_reaches_through(m, code, st, b, c);
        assert(rows_of(c, TABLE) == rows_of(st, TABLE).remove(at));
        assert((left + rows.skip(i)).remove(at) =~= left + rows.skip(i + 1));
        assert(c.cursors =~= x.start.cursors.insert(TABLE, c.cursors[TABLE]));
        c
    };
    lemma_advance(m, code, st, d, code[d.pc]);
    let z = run(m, code[d.pc], d);
    assert(z.cursors =~= x.start.cursors.insert(TABLE, z.cursors[TABLE]));
    z
}

proof fn lemma_thin_rows(x: Deleting, st: State, i: int) -> (st2: State)
    requires
        deleting_stands(x),
        thinned(x, st, i),
        st.cursors[TABLE].at == spared(x.m, x.t, x.f, x.start, x.condition, i).len(),
        0 <= i < rows_of(x.start, TABLE).len(),
        st.pc == x.d1.code.len(),
    ensures
        reaches(x.m, x.big.program().code, st, st2),
        thinned(x, st2, rows_of(x.start, TABLE).len() as int),
        st2.pc == x.d5.code.len() + 1,
    decreases rows_of(x.start, TABLE).len() - i,
{
    let a = lemma_thin_row(x, st, i);
    if i + 1 < rows_of(x.start, TABLE).len() {
        let b = lemma_thin_rows(x, a, i + 1);
        lemma_reaches_through(x.m, x.big.program().code, st, a, b);
        b
    } else {
        a
    }
}

proof fn lemma_open_indexes_grow(s: Asm, ixs: Seq<IndexView>, base: i32, k: int)
    ensures
        grows(s, gen_open_indexes(s, ixs, base, k)),
        gen_open_indexes(s, ixs, base, k).err == s.err,
        gen_open_indexes(s, ixs, base, k).next_reg == s.next_reg,
    decreases ixs.len() - k,
{
    broadcast use group_grows;

    if s.err is Some || k < 0 || k >= ixs.len() {
    } else {
        let s1 = s.emit_p4(
            Opcode::OpenWrite,
            reg_at(base, k),
            ixs[k].rootpage as i32,
            0,
            P4View::KeyInfo(ixs[k].key_info()),
        ).note_cursor(reg_at(base, k));
        assert(s1.next_reg == s.next_reg) by {
            reveal(Asm::note_cursor);
        }
        lemma_open_indexes_grow(s1, ixs, base, k + 1);
        lemma_grows_through(s, s1, gen_open_indexes(s1, ixs, base, k + 1));
    }
}

/// The indexes are open, each on a cursor of its own.
pub open spec fn indexes_open(st: State, ixs: Seq<IndexView>, base: i32, n: int) -> bool {
    forall|j: int|
        0 <= j < n ==> st.cursors[#[trigger] nth(base, j)].root == ixs[j].rootpage as int
}

/// Each index is opened on its cursor.
pub proof fn law_open_indexes_code(
    s: Asm,
    ixs: Seq<IndexView>,
    base: i32,
    m: Values,
    big: Asm,
    st: State,
    k: int,
) -> (st2: State)
    requires
        settles(gen_open_indexes(s, ixs, base, k), big),
        neat(s),
        st.pc == s.code.len(),
        !st.halted,
        0 <= k <= ixs.len(),
        0 < base,
        base + ixs.len() <= i32::MAX,
        forall|j: int| 0 <= j < ixs.len() ==> (#[trigger] ixs[j]).rootpage <= i32::MAX,
        indexes_open(st, ixs, base, k),
    ensures
        reaches(m, big.program().code, st, st2),
        st2.pc == gen_open_indexes(s, ixs, base, k).code.len(),
        st2 == (State { pc: st2.pc, cursors: st2.cursors, ..st }),
        neat(gen_open_indexes(s, ixs, base, k)),
        settles(s, big),
        indexes_open(st2, ixs, base, ixs.len() as int),
        forall|c: i32|
            c < base || c >= base + ixs.len() ==> #[trigger] st2.cursors[c] == st.cursors[c],
    decreases ixs.len() - k,
{
    broadcast use group_settled;

    reveal(run);
    let code = big.program().code;
    let u = gen_open_indexes(s, ixs, base, k);
    assert(u.err is None) by {
        reveal(settles);
    }
    lemma_open_indexes_grow(s, ixs, base, k);
    lemma_grows_neat(s, u);
    lemma_settles_early(s, u, big);
    lemma_reaches_self(m, code, st);
    if k >= ixs.len() {
        st
    } else {
        let s1 = s.emit_p4(
            Opcode::OpenWrite,
            reg_at(base, k),
            ixs[k].rootpage as i32,
            0,
            P4View::KeyInfo(ixs[k].key_info()),
        ).note_cursor(reg_at(base, k));
        assert(reg_at(base, k) == nth(base, k));
        lemma_open_indexes_grow(s1, ixs, base, k + 1);
        lemma_settles_early(s1, u, big);
        lemma_advance(m, code, st, st, code[st.pc]);
        let a = run(m, code[st.pc], st);
        assert forall|j: int| 0 <= j < k + 1 implies a.cursors[#[trigger] nth(base, j)].root
            == ixs[j].rootpage as int by {
            if j < k {
                assert(st.cursors[nth(base, j)].root == ixs[j].rootpage as int);
            }
        }
        let b = law_open_indexes_code(s1, ixs, base, m, big, a, k + 1);
        lemma_reaches_through(m, code, st, a, b);
        b
    }
}

/// The program of a `DELETE` without a limit and without a `RETURNING` clause leaves exactly those
/// rows of the table, in their order, for which the condition is not true, and ends without an
/// error.
#[verifier::rlimit(50)]
pub proof fn law_delete_program(
    d: DeleteView,
    t: TableView,
    ixs: Seq<IndexView>,
    f: FunctionsView,
    m: Values,
    st: State,
) -> (st2: State)
    requires
        gen_delete_all(d, t, ixs, None, f).err is None,
        gen_delete_all(d, t, ixs, None, f).code.len() <= i32::MAX,
        narrow(t),
        t.columns.len() <= i32::MAX,
        t.rootpage <= i32::MAX,
        tame_condition(d.where_clause, 0),
        forall|j: int|
            0 <= j < ixs.len() ==> sound_index(#[trigger] ixs[j], t, 0) && ixs[j].rootpage
                <= i32::MAX && ixs[j].rootpage != t.rootpage,
        1 + ixs.len() <= i32::MAX,
        3 + condition_weight(d.where_clause) + remove_weight(t, ixs) <= i32::MAX,
        ready_to_run(st),
    ensures
        reaches(m, gen_delete_all(d, t, ixs, None, f).program().code, st, st2),
        st2.halted,
        st2.error is None,
        exists|open: State|
            {
                &&& open.trees == st.trees
                &&& open.cursors[TABLE].root == t.rootpage
                &&& st2.trees[t.rootpage as int] == #[trigger] spared(
                    m,
                    t,
                    f,
                    open,
                    d.where_clause,
                    st.trees[t.rootpage as int].len() as int,
                )
            },
{
    broadcast use {group_settled, group_grows};

    reveal(gen_delete_all);
    reveal(run);
    let big = gen_delete_all(d, t, ixs, None, f);
    let code = big.program().code;
    let ctx = table_ctx(t, TABLE, f);
    lemma_prologue();
    let s0 = prologue();
    let s1 = s0.emit(Opcode::Transaction, 0, 1, 0);
    let s2 = s1.emit(Opcode::OpenWrite, TABLE, t.rootpage as i32, 0).note_cursor(TABLE);
    let s3 = gen_open_indexes(s2, ixs, 1, 0);
    let done = s3.fresh();
    let d1 = s3.label().jump(Opcode::Rewind, TABLE, done, 0);
    let skip = d1.fresh();
    let d2 = d1.label();
    let d3 = gen_filter(d2, d.where_clause, skip, ctx);
    let rowid = d3.next_reg;
    let d4 = d3.take_regs(1).emit(Opcode::Rowid, TABLE, rowid, 0);
    let d5 = gen_remove(d4, t, ixs, 1, rowid, None, f);
    let d6 = d5.bind(skip).emit(Opcode::Next, TABLE, d1.here(), 0);
    let d7 = d6.bind(done);
    let s = d7.emit(Opcode::Halt, 0, 0, 0);
    assert(big == gen_bare_epilogue(s));
    assert(s.err is None) by {
        reveal(gen_bare_epilogue);
    }
    lemma_open_indexes_grow(s2, ixs, 1, 0);
    lemma_filter_follows(d2, d.where_clause, skip, ctx);
    lemma_remove_follows(d4, t, ixs, 1, rowid, f);
    assert(d5.err is None);
    lemma_fresh_grows(d4, d5);
    lemma_fresh_grows(d2, d3);
    lemma_fresh_grows(s2, s3);
    assert(grows(s0, s2));
    lemma_grows_through(s0, s2, s3);
    lemma_grows_through(s0, d2, d3);
    lemma_grows_through(s0, d4, d5);
    lemma_fresh_grows(s0, s3);
    assert(grows(s0, s));
    let a = lemma_bare_body_reached(s, m, st);
    assert(!d5.bound(skip) && !d6.bound(done));
    assert(settles(d6, big));
    assert(settles(d5, big));
    lemma_settles_early(d4, d5, big);
    assert(settles(d3, big));
    lemma_settles_early(d2, d3, big);
    assert(settles(d1, big));
    assert(settles(s3, big));
    lemma_settles_early(s2, s3, big);
    assert(settles(s1, big));
    assert(s2.next_reg == s0.next_reg) by {
        reveal(Asm::note_cursor);
    }
    lemma_advance(m, code, st, a, code[a.pc]);
    let b = run(m, code[a.pc], a);
    lemma_advance(m, code, st, b, code[b.pc]);
    let c = run(m, code[b.pc], b);
    let e = law_open_indexes_code(s2, ixs, 1, m, big, c, 0);
    lemma_reaches_through(m, code, st, c, e);
    assert(e.cursors[TABLE] == c.cursors[TABLE]);
    assert(neat(d1) && neat(d2));
    lemma_grows_neat(d2, d3);
    assert(neat(d4));
    lemma_grows_neat(d4, d5);
    assert(neat(d6));
    lemma_take(d3, 1);
    assert(big.program().code.len() <= i32::MAX) by {
        reveal(settles);
        reveal(Asm::program);
    }
    let x = Deleting {
        t,
        f,
        ixs,
        condition: d.where_clause,
        m,
        big,
        start: e,
        d1,
        d2,
        d3,
        d4,
        d5,
        skip,
    };
    assert(apart(e, ixs, 1)) by {
        assert forall|k: int| 0 <= k < ixs.len() implies e.cursors[#[trigger] nth(1, k)].root
            != e.cursors[TABLE].root by {
            assert(e.cursors[nth(1, k)].root == ixs[k].rootpage as int);
        }
    }
    assert(deleting_stands(x));
    lemma_advance(m, code, st, e, code[e.pc]);
    let g = run(m, code[e.pc], e);
    let rows = rows_of(e, TABLE);
    let n = rows.len() as int;
    let h = if n == 0 {
        assert(rows_of(g, TABLE) =~= Seq::empty());
        g
    } else {
        assert(g.cursors =~= e.cursors.insert(TABLE, g.cursors[TABLE]));
        assert(Seq::<Row>::empty() + rows.skip(0) =~= rows);
        assert(thinned(x, g, 0));
        let h = lemma_thin_rows(x, g, 0);
        lemma_reaches_through(m, code, st, g, h);
        assert(spared(m, t, f, e, d.where_clause, n) + rows.skip(n) =~= spared(
            m,
            t,
            f,
            e,
            d.where_clause,
            n,
        ));
        h
    };
    lemma_advance(m, code, st, h, code[h.pc]);
    let z = run(m, code[h.pc], h);
    assert(z.trees[t.rootpage as int] == spared(m, t, f, e, d.where_clause, n));
    z
}

} // verus!
