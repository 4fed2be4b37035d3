//! Which rows a join of two tables puts out.
use vstd::prelude::*;

use crate::ast::ExprView;
use crate::builder::{group_asm, Asm};
use crate::columns::exprs_of;
use crate::expr::{gen_expr_list, gen_jump};
use crate::join::{gen_join_row, gen_loops, gen_second_pass, gen_unmatched, join_ctx, JoinOutput};
use crate::machine::{
    block, group_grows, group_settled, grows, lemma_grows_neat, lemma_grows_through,
    lemma_reaches_self, lemma_reaches_through, lemma_settles_early, moved, neat, place, reaches,
    rows_of, run, settles, State, Val, Values,
};
use crate::meaning::{
    agrees, brings_column, kept, lemma_advance, lemma_fresh_grows, lemma_list_code,
    lemma_list_follows, lemma_table_column, lemma_take, lemma_values_from, narrow, serves,
    table_column, tame_from, values_from, weight_from, Env,
};
use crate::rows::{condition_weight, law_filter_code, lemma_filter_follows, tame_condition};
use crate::scan::{filter_stuck, gen_filter};
use crate::schema::{FunctionsView, TableView};
use crate::scope::{gen_column, join_from, join_scope, table_ctx, ScopeTable};
use crate::vdbe::{InstView, Opcode, P4View};

verus! {

broadcast use group_asm;

// ---- Rows of two tables ----

/// The two tables of a join, on cursors 0 and 1.
pub open spec fn join_scopes(tables: Seq<(TableView, Seq<char>)>) -> Seq<ScopeTable> {
    seq![
        ScopeTable { table: tables[0].0, cursor: 0, name: tables[0].1 },
        ScopeTable { table: tables[1].0, cursor: 1, name: tables[1].1 },
    ]
}

/// The value of a column of a pair of rows: that of the table which the reference denotes.
pub open spec fn pair_column(
    m: Values,
    ts: Seq<ScopeTable>,
    st: State,
    q: Option<Seq<char>>,
    name: Seq<char>,
) -> Val {
    match join_from(ts, q, name, 0) {
        Some(k) => table_column(m, ts[k].table, st, ts[k].cursor, name),
        None => Val::Null,
    }
}

/// The pair of rows that the two cursors are on.
pub open spec fn pair_row(
    m: Values,
    tables: Seq<(TableView, Seq<char>)>,
    f: FunctionsView,
    st: State,
) -> Env {
    Env {
        m,
        ctx: join_ctx(tables, f),
        column: |q: Option<Seq<char>>, name: Seq<char>|
            pair_column(m, join_scopes(tables), st, q, name),
        slot: |r: i32| st.regs[r],
    }
}

/// The pair of row `i` of the first table and row `j` of the second; there are NULLs for the
/// columns of a table without such a row.
pub open spec fn pair_env(
    m: Values,
    tables: Seq<(TableView, Seq<char>)>,
    f: FunctionsView,
    st: State,
    i: int,
    j: int,
) -> Env {
    pair_row(m, tables, f, moved(moved(st, 0, i), 1, j))
}

proof fn lemma_join_from(ts: Seq<ScopeTable>, q: Option<Seq<char>>, name: Seq<char>, i: int)
    requires
        0 <= i,
    ensures
        join_from(ts, q, name, i) matches Some(k) ==> i <= k < ts.len(),
    decreases ts.len() - i,
{
    if i < ts.len() {
        lemma_join_from(ts, q, name, i + 1);
    }
}

/// Code over a join reads the columns of the rows that the two cursors are on.
pub proof fn law_join_columns(
    m: Values,
    tables: Seq<(TableView, Seq<char>)>,
    f: FunctionsView,
    big: Asm,
    at: State,
    st: State,
)
    requires
        narrow(tables[0].0),
        narrow(tables[1].0),
        rows_of(at, 0) == rows_of(st, 0),
        rows_of(at, 1) == rows_of(st, 1),
        at.cursors[0].at == st.cursors[0].at,
        at.cursors[1].at == st.cursors[1].at,
        forall|r: i32| r < 0 ==> #[trigger] st.regs[r] == at.regs[r],
    ensures
        serves(pair_row(m, tables, f, at), big, 0, st),
{
    let env = pair_row(m, tables, f, at);
    let ts = join_scopes(tables);
    assert forall|s: Asm, q: Option<Seq<char>>, name: Seq<char>, target: i32, now: State|
        target >= 0 && agrees(st, now, 0) implies #[trigger] brings_column(
        env,
        big,
        s,
        q,
        name,
        target,
        now,
    ) by {
        reveal(gen_column);
        reveal(table_ctx);
        lemma_join_from(ts, q, name, 0);
        assert(env.ctx.join_tables == Some(ts));
        match join_from(ts, q, name, 0) {
            Some(k) => {
                let t = ts[k].table;
                let c = ts[k].cursor;
                assert(join_scope(env.ctx, ts[k]) == table_ctx(t, c, f));
                lemma_table_column(m, t, f, c, big, s, q, name, target, st, now);
                assert(gen_column(s, q, name, target, env.ctx) == gen_column(
                    s,
                    q,
                    name,
                    target,
                    table_ctx(t, c, f),
                ));
                assert(table_column(m, t, at, c, name) == table_column(m, t, st, c, name));
            },
            None => {
                let u = gen_column(s, q, name, target, env.ctx);
                assert(settles(u, big) ==> u.err is None) by {
                    reveal(settles);
                }
            },
        }
    }
}

// ---- What a join puts out ----

/// A join of two tables.
pub ghost struct Pairing {
    pub m: Values,
    pub tables: Seq<(TableView, Seq<char>)>,
    pub f: FunctionsView,
    /// The state before the first row.
    pub start: State,
    pub on: Option<ExprView>,
    pub condition: Option<ExprView>,
    pub columns: Seq<ExprView>,
    /// Rows of the first table without a match are put out too.
    pub left: bool,
}

/// Row `i` of the first table with row `j` of the second.
pub open spec fn pair_at(x: Pairing, i: int, j: int) -> Env {
    pair_env(x.m, x.tables, x.f, x.start, i, j)
}

/// What is put out for row `i` of the first table with the first `n` rows of the second.
pub open spec fn matches_of(x: Pairing, i: int, n: int) -> Seq<Seq<Val>>
    decreases n,
{
    if n <= 0 {
        Seq::empty()
    } else {
        let before = matches_of(x, i, n - 1);
        let env = pair_at(x, i, n - 1);
        if kept(x.on, env) && kept(x.condition, env) {
            before.push(values_from(x.columns, env, 0))
        } else {
            before
        }
    }
}

/// One of the first `n` rows of the second table matches row `i` of the first.
pub open spec fn matched(x: Pairing, i: int, n: int) -> bool {
    exists|j: int| 0 <= j < n && kept(x.on, #[trigger] pair_at(x, i, j))
}

/// What is put out for row `i` of the first table. In a left join a row without a match is put
/// out once, with NULLs for the second table, if the condition of the query is true of that.
pub open spec fn joined_row(x: Pairing, i: int) -> Seq<Seq<Val>> {
    let n = rows_of(x.start, 1).len() as int;
    let env = pair_at(x, i, -1);
    if x.left && !matched(x, i, n) && kept(x.condition, env) {
        matches_of(x, i, n).push(values_from(x.columns, env, 0))
    } else {
        matches_of(x, i, n)
    }
}

/// What is put out for the first `n` rows of the first table.
pub open spec fn joined_rows(x: Pairing, n: int) -> Seq<Seq<Val>>
    decreases n,
{
    if n <= 0 {
        Seq::empty()
    } else {
        joined_rows(x, n - 1) + joined_row(x, n - 1)
    }
}

// ---- The code of a join ----

/// Rows are put out as they are met, all of them.
pub open spec fn plain_output(x: Pairing, j: JoinOutput) -> bool {
    &&& j.condition == x.condition
    &&& exprs_of(j.outputs) == x.columns
    &&& j.order_by.len() == 0
    &&& j.limit is None
    &&& j.offset is None
    &&& j.ctx == join_ctx(x.tables, x.f)
    &&& narrow(x.tables[0].0)
    &&& narrow(x.tables[1].0)
    &&& tame_condition(x.on, 0)
    &&& tame_condition(x.condition, 0)
    &&& tame_from(x.columns, 0, 0)
}

/// A bound on the registers that a row put out takes.
pub open spec fn row_weight(columns: Seq<ExprView>) -> nat {
    columns.len() + weight_from(columns, 0)
}

proof fn lemma_join_row_grows(s: Asm, x: Pairing, j: JoinOutput, skip: int, end: int)
    requires
        plain_output(x, j),
    ensures
        grows(s, gen_join_row(s, j, skip, end)),
        gen_join_row(s, j, skip, end).err is None && 0 <= s.next_reg && s.next_reg + row_weight(
            x.columns,
        ) <= i32::MAX ==> s.next_reg <= gen_join_row(s, j, skip, end).next_reg <= s.next_reg
            + row_weight(x.columns),
{
    broadcast use group_grows;

    reveal(gen_join_row);
    let ncol = j.outputs.len() as i32;
    let s1 = s.take_regs(ncol);
    assert(x.columns.len() == j.outputs.len());
    lemma_list_follows(s1, x.columns, s.next_reg, j.ctx, 0);
    let s2 = gen_expr_list(s1, x.columns, s.next_reg, j.ctx, 0);
    lemma_grows_through(s, s1, s2);
    if s2.err is None {
        lemma_fresh_grows(s1, s2);
        lemma_take(s, ncol);
    }
}

/// The two cursors are on rows `i` and `k`, and nothing else has changed since the start.
pub open spec fn pair_met(x: Pairing, st: State, i: int, k: int) -> bool {
    &&& st.trees == x.start.trees
    &&& st.cursors[0].root == x.start.cursors[0].root
    &&& st.cursors[1].root == x.start.cursors[1].root
    &&& st.cursors[0].at == i
    &&& st.cursors[1].at == k
    &&& !st.halted
    &&& st.error == x.start.error
    &&& forall|r: i32| r < 0 ==> #[trigger] st.regs[r] == x.start.regs[r]
}

proof fn lemma_pair_serves(x: Pairing, j: JoinOutput, big: Asm, st: State, i: int, k: int)
    requires
        plain_output(x, j),
        pair_met(x, st, i, k),
    ensures
        serves(pair_at(x, i, k), big, 0, st),
{
    let at = moved(moved(x.start, 0, i), 1, k);
    law_join_columns(x.m, x.tables, x.f, big, at, st);
}

/// A row is put out.
proof fn lemma_join_row_code(
    s: Asm,
    x: Pairing,
    j: JoinOutput,
    skip: int,
    end: int,
    big: Asm,
    st: State,
    i: int,
    k: int,
) -> (st2: State)
    requires
        plain_output(x, j),
        settles(gen_join_row(s, j, skip, end), big),
        neat(s),
        st.pc == s.code.len(),
        pair_met(x, st, i, k),
        0 <= s.next_reg,
        s.next_reg + row_weight(x.columns) <= i32::MAX,
    ensures
        reaches(x.m, big.program().code, st, st2),
        st2.pc == gen_join_row(s, j, skip, end).code.len(),
        pair_met(x, st2, i, k),
        st2.out == st.out.push(values_from(x.columns, pair_at(x, i, k), 0)),
        forall|r: i32| r < s.next_reg ==> #[trigger] st2.regs[r] == st.regs[r],
{
    broadcast use group_settled;

    reveal(gen_join_row);
    reveal(run);
    let m = x.m;
    let code = big.program().code;
    let ncol = j.outputs.len() as i32;
    let row = s.next_reg;
    let s1 = s.take_regs(ncol);
    let s2 = gen_expr_list(s1, x.columns, row, j.ctx, 0);
    let env = pair_at(x, i, k);
    assert(x.columns.len() == j.outputs.len());
    assert(settles(s2, big));
    assert(s2.err is None) by {
        reveal(settles);
    }
    lemma_list_follows(s1, x.columns, row, j.ctx, 0);
    lemma_settles_early(s1, s2, big);
    assert(s.err is None);
    lemma_take(s, ncol);
    lemma_pair_serves(x, j, big, st, i, k);
    let a = lemma_list_code(s1, x.columns, row, env, big, 0, st, 0);
    lemma_values_from(x.columns, env, 0);
    assert(block(a, row, ncol as int) =~= values_from(x.columns, env, 0));
    lemma_advance(m, code, st, a, code[a.pc]);
    run(m, code[a.pc], a)
}

proof fn lemma_unmatched_grows(s: Asm, x: Pairing, j: JoinOutput, flag: i32, cursor: i32, end: int)
    requires
        plain_output(x, j),
    ensures
        grows(s, gen_unmatched(s, j, flag, cursor, end)),
{
    broadcast use {group_grows, filter_stuck, crate::join::join_row_stuck};

    reveal(gen_unmatched);
    let skip = s.fresh();
    let s2 = s.label().jump(Opcode::If, flag, skip, 0).emit(Opcode::NullRow, cursor, 0, 0);
    let s3 = gen_filter(s2, j.condition, skip, j.ctx);
    lemma_filter_follows(s2, j.condition, skip, j.ctx);
    lemma_join_row_grows(s3, x, j, skip, end);
    lemma_grows_through(s, s2, s3);
    lemma_grows_through(s, s3, gen_join_row(s3, j, skip, end));
}

/// A row of the first table without a match is put out with NULLs for the second.
proof fn lemma_unmatched_code(
    s: Asm,
    x: Pairing,
    j: JoinOutput,
    flag: i32,
    end: int,
    big: Asm,
    st: State,
    i: int,
    k: int,
) -> (st2: State)
    requires
        plain_output(x, j),
        settles(gen_unmatched(s, j, flag, 1, end), big),
        neat(s),
        st.pc == s.code.len(),
        pair_met(x, st, i, k),
        0 <= flag < s.next_reg,
        s.next_reg + condition_weight(x.condition) + row_weight(x.columns) <= i32::MAX,
        st.regs[flag] == Val::Int(0) || st.regs[flag] == Val::Int(1),
    ensures
        reaches(x.m, big.program().code, st, st2),
        st2.pc == gen_unmatched(s, j, flag, 1, end).code.len(),
        pair_met(x, st2, i, st2.cursors[1].at),
        st2.out == (if st.regs[flag] == Val::Int(0) && kept(x.condition, pair_at(x, i, -1)) {
            st.out.push(values_from(x.columns, pair_at(x, i, -1), 0))
        } else {
            st.out
        }),
{
    broadcast use group_settled;

    reveal(gen_unmatched);
    reveal(run);
    let m = x.m;
    let code = big.program().code;
    let u = gen_unmatched(s, j, flag, 1, end);
    assert(u.err is None) by {
        reveal(settles);
    }
    let skip = s.fresh();
    let s1 = s.label().jump(Opcode::If, flag, skip, 0);
    let s2 = s1.emit(Opcode::NullRow, 1, 0, 0);
    let s3 = gen_filter(s2, j.condition, skip, j.ctx);
    let s4 = gen_join_row(s3, j, skip, end);
    lemma_filter_follows(s2, j.condition, skip, j.ctx);
    lemma_join_row_grows(s3, x, j, skip, end);
    lemma_fresh_grows(s3, s4);
    lemma_fresh_grows(s2, s3);
    assert(!s4.bound(skip));
    assert(settles(s4, big));
    lemma_settles_early(s3, s4, big);
    lemma_settles_early(s2, s3, big);
    assert(settles(s1, big));
    assert(neat(s2));
    lemma_grows_neat(s2, s3);
    lemma_reaches_self(m, code, st);
    lemma_advance(m, code, st, st, code[st.pc]);
    let a = run(m, code[st.pc], st);
    if st.regs[flag] == Val::Int(1) {
        a
    } else {
        lemma_advance(m, code, st, a, code[a.pc]);
        let b = run(m, code[a.pc], a);
        assert(pair_met(x, b, i, -1));
        lemma_pair_serves(x, j, big, b, i, -1);
        let c = law_filter_code(s2, j.condition, skip, pair_at(x, i, -1), big, 0, b);
        lemma_reaches_through(m, code, st, b, c);
        if kept(x.condition, pair_at(x, i, -1)) {
            let d = lemma_join_row_code(s3, x, j, skip, end, big, c, i, -1);
            lemma_reaches_through(m, code, st, c, d);
            d
        } else {
            c
        }
    }
}

/// The parts of the two loops.
pub ghost struct Loops {
    pub x: Pairing,
    pub j: JoinOutput,
    pub big: Asm,
    pub end: int,
    pub flag: i32,
    pub s: Asm,
    pub a1: Asm,
    pub a2: Asm,
    pub a3: Asm,
    pub b1: Asm,
    pub b2: Asm,
    pub b3: Asm,
    pub b4: Asm,
    pub b5: Asm,
    pub c3: Asm,
    pub c4: Asm,
    pub next_b: int,
}

/// The code of the two loops stands in the program.
pub open spec fn loops_stand(y: Loops) -> bool {
    let x = y.x;
    let code = y.big.program().code;
    &&& plain_output(x, y.j)
    &&& y.b2 == gen_filter(y.b1, x.on, y.next_b, y.j.ctx)
    &&& y.b3 == (if x.left {
        y.b2.emit(Opcode::Integer, 1, y.flag, 0)
    } else {
        y.b2
    })
    &&& y.b4 == gen_filter(y.b3, x.condition, y.next_b, y.j.ctx)
    &&& y.b5 == gen_join_row(y.b4, y.j, y.next_b, y.end)
    &&& y.c4 == (if x.left {
        gen_unmatched(y.c3, y.j, y.flag, 1, y.end)
    } else {
        y.c3
    })
    &&& neat(y.b1) && neat(y.b2) && neat(y.b3) && neat(y.b4) && neat(y.c3)
    &&& settles(y.b2, y.big) && settles(y.b3, y.big) && settles(y.b4, y.big)
    &&& settles(y.b5, y.big) && settles(y.c4, y.big)
    &&& 0 <= y.next_b < y.b1.fresh() <= y.b3.fresh()
    &&& y.a1.code.len() == y.s.code.len() + 1
    &&& y.a2.code.len() == y.a1.code.len() + (if x.left {
        1int
    } else {
        0
    })
    &&& y.b1.code.len() == y.a2.code.len() + 1
    &&& y.b1.code.len() <= y.b5.code.len()
    &&& y.c3.code.len() == y.b5.code.len() + 1
    &&& y.c3.code.len() <= y.c4.code.len() < code.len() <= i32::MAX
    &&& place(y.big, y.next_b) == y.b5.code.len()
    &&& x.left ==> code[y.a1.code.len() as int] == (InstView {
        opcode: Opcode::Integer,
        p1: 0,
        p2: y.flag,
        p3: 0,
        p4: P4View::Unused,
        p5: 0,
    })
    &&& code[y.a2.code.len() as int] == (InstView {
        opcode: Opcode::Rewind,
        p1: 1,
        p2: (if x.left {
            y.c3.code.len()
        } else {
            y.c4.code.len()
        }) as i32,
        p3: 0,
        p4: P4View::Unused,
        p5: 0,
    })
    &&& code[y.b5.code.len() as int] == (InstView {
        opcode: Opcode::Next,
        p1: 1,
        p2: y.b1.code.len() as i32,
        p3: 0,
        p4: P4View::Unused,
        p5: 0,
    })
    &&& code[y.c4.code.len() as int] == (InstView {
        opcode: Opcode::Next,
        p1: 0,
        p2: y.a1.code.len() as i32,
        p3: 0,
        p4: P4View::Unused,
        p5: 0,
    })
    &&& 0 <= y.s.next_reg
    &&& y.flag == y.s.next_reg
    &&& x.left ==> y.flag < y.b1.next_reg
    &&& 0 <= y.b1.next_reg <= y.b2.next_reg == y.b3.next_reg <= y.b4.next_reg <= y.b5.next_reg
        == y.c3.next_reg
    &&& y.b2.next_reg <= y.b1.next_reg + condition_weight(x.on)
    &&& y.b4.next_reg <= y.b3.next_reg + condition_weight(x.condition)
    &&& y.b5.next_reg <= y.b4.next_reg + row_weight(x.columns)
    &&& y.b1.next_reg + condition_weight(x.on) + 2 * condition_weight(x.condition) + 2
        * row_weight(x.columns) <= i32::MAX
}

/// Row `i` has been met with the first `n` rows of the second table.
pub open spec fn inner_met(y: Loops, st: State, out: Seq<Seq<Val>>, i: int, n: int) -> bool {
    &&& pair_met(y.x, st, i, st.cursors[1].at)
    &&& st.out == out + matches_of(y.x, i, n)
    &&& y.x.left ==> st.regs[y.flag] == Val::Int(
        if matched(y.x, i, n) {
            1
        } else {
            0
        },
    )
}

#[verifier::rlimit(50)]
proof fn lemma_inner_row(y: Loops, st: State, out: Seq<Seq<Val>>, i: int, k: int) -> (st2: State)
    requires
        loops_stand(y),
        inner_met(y, st, out, i, k),
        st.cursors[1].at == k,
        0 <= k < rows_of(y.x.start, 1).len(),
        st.pc == y.b1.code.len(),
    ensures
        reaches(y.x.m, y.big.program().code, st, st2),
        inner_met(y, st2, out, i, k + 1),
        st2.cursors[1].at == k + 1,
        st2.pc == (if k + 1 < rows_of(y.x.start, 1).len() {
            y.b1.code.len()
        } else {
            y.c3.code.len()
        }),
{
    broadcast use group_settled;

    reveal(run);
    let x = y.x;
    let m = x.m;
    let code = y.big.program().code;
    let env = pair_at(x, i, k);
    lemma_pair_serves(x, y.j, y.big, st, i, k);
    let a = law_filter_code(y.b1, x.on, y.next_b, env, y.big, 0, st);
    assert(pair_met(x, a, i, k));
    assert(matched(x, i, k + 1) == (matched(x, i, k) || kept(x.on, env))) by {
        if matched(x, i, k) {
            let j = choose|j: int| 0 <= j < k && kept(x.on, #[trigger] pair_at(x, i, j));
            assert(kept(x.on, pair_at(x, i, j)));
        }
        if kept(x.on, env) {
            assert(kept(x.on, pair_at(x, i, k)));
        }
        if matched(x, i, k + 1) {
            let j = choose|j: int| 0 <= j < k + 1 && kept(x.on, #[trigger] pair_at(x, i, j));
            if j < k {
                assert(kept(x.on, pair_at(x, i, j)));
            }
        }
    }
    let d = if !kept(x.on, env) {
        a
    } else {
        let b = if x.left {
            lemma_advance(m, code, st, a, code[a.pc]);
            run(m, code[a.pc], a)
        } else {
            a
        };
        assert(pair_met(x, b, i, k));
        lemma_pair_serves(x, y.j, y.big, b, i, k);
        let c = law_filter_code(y.b3, x.condition, y.next_b, env, y.big, 0, b);
        lemma_reaches_through(m, code, st, b, c);
        assert(pair_met(x, c, i, k));
        if kept(x.condition, env) {
            let e = lemma_join_row_code(y.b4, x, y.j, y.next_b, y.end, y.big, c, i, k);
            lemma_reaches_through(m, code, st, c, e);
            assert(e.out =~= out + matches_of(x, i, k).push(values_from(x.columns, env, 0)));
            e
        } else {
            c
        }
    };
    assert(d.pc == y.b5.code.len());
    assert(inner_met(y, d, out, i, k + 1));
    lemma_advance(m, code, st, d, code[d.pc]);
    run(m, code[d.pc], d)
}

proof fn lemma_inner_rows(y: Loops, st: State, out: Seq<Seq<Val>>, i: int, k: int) -> (st2: State)
    requires
        loops_stand(y),
        inner_met(y, st, out, i, k),
        st.cursors[1].at == k,
        0 <= k < rows_of(y.x.start, 1).len(),
        st.pc == y.b1.code.len(),
    ensures
        reaches(y.x.m, y.big.program().code, st, st2),
        inner_met(y, st2, out, i, rows_of(y.x.start, 1).len() as int),
        st2.pc == y.c3.code.len(),
    decreases rows_of(y.x.start, 1).len() - k,
{
    let a = lemma_inner_row(y, st, out, i, k);
    if k + 1 < rows_of(y.x.start, 1).len() {
        let b = lemma_inner_rows(y, a, out, i, k + 1);
        lemma_reaches_through(y.x.m, y.big.program().code, st, a, b);
        b
    } else {
        a
    }
}

/// One row of the first table is met.
#[verifier::rlimit(50)]
proof fn lemma_outer_row(y: Loops, st: State, i: int) -> (st2: State)
    requires
        loops_stand(y),
        pair_met(y.x, st, i, st.cursors[1].at),
        st.out == y.x.start.out + joined_rows(y.x, i),
        0 <= i < rows_of(y.x.start, 0).len(),
        st.pc == y.a1.code.len(),
    ensures
        reaches(y.x.m, y.big.program().code, st, st2),
        pair_met(y.x, st2, i + 1, st2.cursors[1].at),
        st2.out == y.x.start.out + joined_rows(y.x, i + 1),
        st2.pc == (if i + 1 < rows_of(y.x.start, 0).len() {
            y.a1.code.len() as int
        } else {
            y.c4.code.len() as int + 1
        }),
{
    reveal(run);
    let x = y.x;
    let m = x.m;
    let code = y.big.program().code;
    let out = st.out;
    let n = rows_of(x.start, 1).len() as int;
    lemma_reaches_self(m, code, st);
    let a = if x.left {
        lemma_advance(m, code, st, st, code[st.pc]);
        run(m, code[st.pc], st)
    } else {
        st
    };
    lemma_advance(m, code, st, a, code[a.pc]);
    let b = run(m, code[a.pc], a);
    assert(rows_of(a, 1) == rows_of(x.start, 1));
    assert(out + matches_of(x, i, 0) =~= out);
    assert(!matched(x, i, 0));
    assert(inner_met(y, b, out, i, 0));
    let c = if n == 0 {
        b
    } else {
        let c = lemma_inner_rows(y, b, out, i, 0);
        lemma_reaches_through(m, code, st, b, c);
        c
    };
    let d = if x.left {
        let d = lemma_unmatched_code(
            y.c3,
            x,
            y.j,
            y.flag,
            y.end,
            y.big,
            c,
            i,
            c.cursors[1].at,
        );
        lemma_reaches_through(m, code, st, c, d);
        d
    } else {
        c
    };
    assert(d.pc == y.c4.code.len());
    assert(d.out =~= x.start.out + (joined_rows(x, i) + joined_row(x, i)));
    lemma_advance(m, code, st, d, code[d.pc]);
    let z = run(m, code[d.pc], d);
    assert(rows_of(d, 0) == rows_of(x.start, 0));
    z
}

proof fn lemma_outer_rows(y: Loops, st: State, i: int) -> (st2: State)
    requires
        loops_stand(y),
        pair_met(y.x, st, i, st.cursors[1].at),
        st.out == y.x.start.out + joined_rows(y.x, i),
        0 <= i < rows_of(y.x.start, 0).len(),
        st.pc == y.a1.code.len(),
    ensures
        reaches(y.x.m, y.big.program().code, st, st2),
        pair_met(y.x, st2, st2.cursors[0].at, st2.cursors[1].at),
        st2.out == y.x.start.out + joined_rows(y.x, rows_of(y.x.start, 0).len() as int),
        st2.pc == y.c4.code.len() + 1,
    decreases rows_of(y.x.start, 0).len() - i,
{
    let a = lemma_outer_row(y, st, i);
    if i + 1 < rows_of(y.x.start, 0).len() {
        let b = lemma_outer_rows(y, a, i + 1);
        lemma_reaches_through(y.x.m, y.big.program().code, st, a, b);
        b
    } else {
        a
    }
}

/// The two loops of a join, run from their start, put out exactly the pairs of rows for which both
/// the join condition and the condition of the query are true, and in a left join each row of the
/// first table that no row of the second matches, once, with NULLs for the second.
#[verifier::rlimit(50)]
pub proof fn law_join_loops(
    s: Asm,
    x: Pairing,
    j: JoinOutput,
    none: int,
    end: int,
    big: Asm,
) -> (st2: State)
    requires
        settles(gen_loops(s, j, x.on, x.left, none, end), big),
        neat(s),
        plain_output(x, j),
        x.start.pc == s.code.len(),
        !x.start.halted,
        0 <= s.next_reg,
        s.next_reg + 1 + condition_weight(x.on) + 2 * condition_weight(x.condition) + 2
            * row_weight(x.columns) <= i32::MAX,
        0 <= none < s.fresh(),
        0 <= end < s.fresh(),
    ensures
        reaches(x.m, big.program().code, x.start, st2),
        !st2.halted,
        st2.error == x.start.error,
        st2.out == x.start.out + joined_rows(x, rows_of(x.start, 0).len() as int),
        st2.pc == (if rows_of(x.start, 0).len() == 0 {
            place(big, none)
        } else {
            gen_loops(s, j, x.on, x.left, none, end).code.len() as int
        }),
{
    broadcast use {
        group_settled,
        group_grows,
        filter_stuck,
        crate::join::join_row_stuck,
        crate::join::unmatched_stuck,
    };

    reveal(gen_loops);
    reveal(run);
    let m = x.m;
    let st = x.start;
    let code = big.program().code;
    let u = gen_loops(s, j, x.on, x.left, none, end);
    assert(u.err is None) by {
        reveal(settles);
    }
    let a1 = s.jump(Opcode::Rewind, 0, none, 0);
    let flag = a1.next_reg;
    let a2 = if x.left {
        a1.take_regs(1).emit(Opcode::Integer, 0, flag, 0)
    } else {
        a1
    };
    let next_a = a2.fresh();
    let no_match = a2.label().fresh();
    let a3 = a2.label().label().jump(
        Opcode::Rewind,
        1,
        if x.left {
            no_match
        } else {
            next_a
        },
        0,
    );
    let next_b = a3.fresh();
    let b1 = a3.label();
    let b2 = gen_filter(b1, x.on, next_b, j.ctx);
    let b3 = if x.left {
        b2.emit(Opcode::Integer, 1, flag, 0)
    } else {
        b2
    };
    let b4 = gen_filter(b3, j.condition, next_b, j.ctx);
    let b5 = gen_join_row(b4, j, next_b, end);
    let c2 = b5.bind(next_b).emit(Opcode::Next, 1, a3.here(), 0);
    let c3 = c2.bind(no_match);
    let c4 = if x.left {
        gen_unmatched(c3, j, flag, 1, end)
    } else {
        c3
    };
    assert(u == c4.bind(next_a).emit(Opcode::Next, 0, a1.here(), 0));
    lemma_unmatched_grows(c3, x, j, flag, 1, end);
    lemma_filter_follows(b1, x.on, next_b, j.ctx);
    lemma_filter_follows(b3, j.condition, next_b, j.ctx);
    lemma_join_row_grows(b4, x, j, next_b, end);
    assert(c4.err is None);
    lemma_fresh_grows(c3, c4);
    assert(b5.err is None);
    lemma_fresh_grows(b4, b5);
    lemma_fresh_grows(b3, b4);
    assert(b2.err is None);
    lemma_fresh_grows(b1, b2);
    assert(a1.err is None);
    assert(!c4.bound(next_a));
    assert(settles(c4, big));
    lemma_settles_early(c3, c4, big);
    assert(!c2.bound(no_match));
    assert(settles(c2, big));
    assert(!b5.bound(next_b));
    assert(settles(b5, big));
    lemma_settles_early(b4, b5, big);
    lemma_settles_early(b3, b4, big);
    assert(settles(b2, big));
    lemma_settles_early(b1, b2, big);
    assert(settles(a3, big));
    assert(settles(a2, big));
    assert(settles(a1, big));
    assert(neat(a1) && neat(a2) && neat(a3) && neat(b1));
    lemma_grows_neat(b1, b2);
    assert(neat(b3));
    lemma_grows_neat(b3, b4);
    lemma_grows_neat(b4, b5);
    assert(neat(c2) && neat(c3));
    lemma_grows_neat(c3, c4);
    if x.left {
        lemma_take(a1, 1);
    }
    assert(big.program().code.len() <= i32::MAX) by {
        reveal(settles);
        reveal(Asm::program);
    }
    let y = Loops {
        x,
        j,
        big,
        end,
        flag,
        s,
        a1,
        a2,
        a3,
        b1,
        b2,
        b3,
        b4,
        b5,
        c3,
        c4,
        next_b,
    };
    assert(loops_stand(y));
    lemma_reaches_self(m, code, st);
    lemma_advance(m, code, st, st, code[st.pc]);
    let a = run(m, code[st.pc], st);
    assert(st.out + joined_rows(x, 0) =~= st.out);
    if rows_of(st, 0).len() == 0 {
        a
    } else {
        let z = lemma_outer_rows(y, a, 0);
        lemma_reaches_through(m, code, st, a, z);
        z
    }
}

// ---- Rows of the second table without a match ----

/// Some row of the first table matches row `k` of the second.
pub open spec fn met_by_some(x: Pairing, k: int, n: int) -> bool {
    exists|i: int| 0 <= i < n && kept(x.on, #[trigger] pair_at(x, i, k))
}

/// What the second pass puts out for the first `n` rows of the second table: each one that no row
/// of the first matches, with NULLs for the first, if the condition of the query is true of that.
pub open spec fn second_rows(x: Pairing, n: int) -> Seq<Seq<Val>>
    decreases n,
{
    if n <= 0 {
        Seq::empty()
    } else {
        let before = second_rows(x, n - 1);
        let env = pair_at(x, -1, n - 1);
        if !met_by_some(x, n - 1, rows_of(x.start, 0).len() as int) && kept(x.condition, env) {
            before.push(values_from(x.columns, env, 0))
        } else {
            before
        }
    }
}

/// A row of the second table without a match is put out with NULLs for the first.
proof fn lemma_lone_code(
    s: Asm,
    x: Pairing,
    j: JoinOutput,
    flag: i32,
    end: int,
    big: Asm,
    st: State,
    k: int,
) -> (st2: State)
    requires
        plain_output(x, j),
        settles(gen_unmatched(s, j, flag, 0, end), big),
        neat(s),
        st.pc == s.code.len(),
        pair_met(x, st, st.cursors[0].at, k),
        0 <= flag < s.next_reg,
        s.next_reg + condition_weight(x.condition) + row_weight(x.columns) <= i32::MAX,
        st.regs[flag] == Val::Int(0) || st.regs[flag] == Val::Int(1),
    ensures
        reaches(x.m, big.program().code, st, st2),
        st2.pc == gen_unmatched(s, j, flag, 0, end).code.len(),
        pair_met(x, st2, st2.cursors[0].at, k),
        st2.out == (if st.regs[flag] == Val::Int(0) && kept(x.condition, pair_at(x, -1, k)) {
            st.out.push(values_from(x.columns, pair_at(x, -1, k), 0))
        } else {
            st.out
        }),
{
    broadcast use group_settled;

    reveal(gen_unmatched);
    reveal(run);
    let m = x.m;
    let code = big.program().code;
    let u = gen_unmatched(s, j, flag, 0, end);
    assert(u.err is None) by {
        reveal(settles);
    }
    let skip = s.fresh();
    let s1 = s.label().jump(Opcode::If, flag, skip, 0);
    let s2 = s1.emit(Opcode::NullRow, 0, 0, 0);
    let s3 = gen_filter(s2, j.condition, skip, j.ctx);
    let s4 = gen_join_row(s3, j, skip, end);
    lemma_filter_follows(s2, j.condition, skip, j.ctx);
    lemma_join_row_grows(s3, x, j, skip, end);
    lemma_fresh_grows(s3, s4);
    lemma_fresh_grows(s2, s3);
    assert(!s4.bound(skip));
    assert(settles(s4, big));
    lemma_settles_early(s3, s4, big);
    lemma_settles_early(s2, s3, big);
    assert(settles(s1, big));
    assert(neat(s2));
    lemma_grows_neat(s2, s3);
    lemma_reaches_self(m, code, st);
    lemma_advance(m, code, st, st, code[st.pc]);
    let a = run(m, code[st.pc], st);
    if st.regs[flag] == Val::Int(1) {
        a
    } else {
        lemma_advance(m, code, st, a, code[a.pc]);
        let b = run(m, code[a.pc], a);
        assert(pair_met(x, b, -1, k));
        lemma_pair_serves(x, j, big, b, -1, k);
        let c = law_filter_code(s2, j.condition, skip, pair_at(x, -1, k), big, 0, b);
        lemma_reaches_through(m, code, st, b, c);
        if kept(x.condition, pair_at(x, -1, k)) {
            let d = lemma_join_row_code(s3, x, j, skip, end, big, c, -1, k);
            lemma_reaches_through(m, code, st, c, d);
            d
        } else {
            c
        }
    }
}

/// The parts of the second pass.
pub ghost struct Second {
    pub x: Pairing,
    pub j: JoinOutput,
    pub big: Asm,
    pub end: int,
    pub found: i32,
    /// At a row of the second table, at a row of the first, behind the test of the pair, and
    /// before and behind what is put out.
    pub d1: Asm,
    pub d4: Asm,
    pub d5: Asm,
    pub d6: Asm,
    pub d7: Asm,
    pub d8: Asm,
    pub hit: int,
}

/// The code of the second pass stands in the program.
pub open spec fn second_stands(y: Second) -> bool {
    let x = y.x;
    let code = y.big.program().code;
    let top = y.d1.code.len() as int;
    let inner = y.d4.code.len() as int;
    let test = y.d6.code.len() as int;
    let tested = y.d7.code.len() as int;
    &&& plain_output(x, y.j)
    &&& y.d8 == gen_unmatched(y.d7, y.j, y.found, 0, y.end)
    &&& neat(y.d5) && neat(y.d7)
    &&& settles(y.d6, y.big) && settles(y.d8, y.big)
    &&& inner == top + 2
    &&& y.d5.code.len() == inner
    &&& inner <= test < tested <= y.d8.code.len() < code.len() <= i32::MAX
    &&& code[top] == (InstView {
        opcode: Opcode::Integer,
        p1: 0,
        p2: y.found,
        p3: 0,
        p4: P4View::Unused,
        p5: 0,
    })
    &&& code[top + 1] == (InstView {
        opcode: Opcode::Rewind,
        p1: 0,
        p2: tested as i32,
        p3: 0,
        p4: P4View::Unused,
        p5: 0,
    })
    &&& match x.on {
        Some(e) => {
            &&& y.d6 == gen_jump(y.d5, e, y.hit, true, false, y.j.ctx)
            &&& 0 <= y.hit < y.d5.fresh()
            &&& tested == test + 4
            &&& place(y.big, y.hit) == test + 2
            &&& code[test] == (InstView {
                opcode: Opcode::Next,
                p1: 0,
                p2: inner as i32,
                p3: 0,
                p4: P4View::Unused,
                p5: 0,
            })
            &&& code[test + 1] == (InstView {
                opcode: Opcode::Goto,
                p1: 0,
                p2: tested as i32,
                p3: 0,
                p4: P4View::Unused,
                p5: 0,
            })
        },
        None => y.d6 == y.d5 && tested == test + 2,
    }
    &&& code[tested - 2] == (InstView {
        opcode: Opcode::Integer,
        p1: 1,
        p2: y.found,
        p3: 0,
        p4: P4View::Unused,
        p5: 0,
    })
    &&& code[tested - 1] == (InstView {
        opcode: Opcode::Goto,
        p1: 0,
        p2: tested as i32,
        p3: 0,
        p4: P4View::Unused,
        p5: 0,
    })
    &&& code[y.d8.code.len() as int] == (InstView {
        opcode: Opcode::Next,
        p1: 1,
        p2: top as i32,
        p3: 0,
        p4: P4View::Unused,
        p5: 0,
    })
    &&& 0 <= y.found < y.d5.next_reg <= y.d7.next_reg
    &&& y.d7.next_reg <= y.d5.next_reg + condition_weight(x.on)
    &&& y.d5.next_reg + condition_weight(x.on) + condition_weight(x.condition) + row_weight(
        x.columns,
    ) <= i32::MAX
}

/// Row `k` is held against the rows of the first table from the `i`-th on.
#[verifier::rlimit(50)]
proof fn lemma_against_code(y: Second, st: State, i: int, k: int) -> (st2: State)
    requires
        second_stands(y),
        pair_met(y.x, st, i, k),
        0 <= i < rows_of(y.x.start, 0).len(),
        st.pc == y.d4.code.len(),
        st.regs[y.found] == Val::Int(0),
        !met_by_some(y.x, k, i),
    ensures
        reaches(y.x.m, y.big.program().code, st, st2),
        st2.pc == y.d7.code.len(),
        pair_met(y.x, st2, st2.cursors[0].at, k),
        st2.out == st.out,
        st2.regs[y.found] == Val::Int(
            if met_by_some(y.x, k, rows_of(y.x.start, 0).len() as int) {
                1
            } else {
                0
            },
        ),
    decreases rows_of(y.x.start, 0).len() - i,
{
    reveal(run);
    let x = y.x;
    let m = x.m;
    let code = y.big.program().code;
    let n = rows_of(x.start, 0).len() as int;
    let env = pair_at(x, i, k);
    let tested = y.d7.code.len() as int;
    assert(rows_of(st, 0) == rows_of(x.start, 0));
    lemma_pair_serves(x, y.j, y.big, st, i, k);
    lemma_reaches_self(m, code, st);
    let a = match x.on {
        Some(e) => crate::meaning::law_jump_code(
            y.d5,
            e,
            y.hit,
            true,
            false,
            env,
            y.big,
            0,
            st,
        ),
        None => st,
    };
    if kept(x.on, env) {
        assert(met_by_some(x, k, n)) by {
            assert(kept(x.on, pair_at(x, i, k)));
        }
        assert(a.pc == tested - 2);
        lemma_advance(m, code, st, a, code[a.pc]);
        let b = run(m, code[a.pc], a);
        lemma_advance(m, code, st, b, code[b.pc]);
        run(m, code[b.pc], b)
    } else {
        assert(!met_by_some(x, k, i + 1)) by {
            if met_by_some(x, k, i + 1) {
                let h = choose|h: int| 0 <= h < i + 1 && kept(x.on, #[trigger] pair_at(x, h, k));
                if h < i {
                    assert(kept(x.on, pair_at(x, h, k)));
                }
            }
        }
        lemma_advance(m, code, st, a, code[a.pc]);
        let b = run(m, code[a.pc], a);
        if i + 1 < n {
            let c = lemma_against_code(y, b, i + 1, k);
            lemma_reaches_through(m, code, st, b, c);
            c
        } else {
            lemma_advance(m, code, st, b, code[b.pc]);
            run(m, code[b.pc], b)
        }
    }
}

/// The rows of the second table from the `k`-th on are met.
proof fn lemma_second_rows(y: Second, st: State, k: int) -> (st2: State)
    requires
        second_stands(y),
        pair_met(y.x, st, st.cursors[0].at, k),
        st.out == y.x.start.out + second_rows(y.x, k),
        0 <= k < rows_of(y.x.start, 1).len(),
        st.pc == y.d1.code.len(),
    ensures
        reaches(y.x.m, y.big.program().code, st, st2),
        !st2.halted,
        st2.error == y.x.start.error,
        st2.out == y.x.start.out + second_rows(y.x, rows_of(y.x.start, 1).len() as int),
        st2.pc == y.d8.code.len() + 1,
    decreases rows_of(y.x.start, 1).len() - k,
{
    reveal(run);
    let x = y.x;
    let m = x.m;
    let code = y.big.program().code;
    let n = rows_of(x.start, 0).len() as int;
    lemma_reaches_self(m, code, st);
    lemma_advance(m, code, st, st, code[st.pc]);
    let a = run(m, code[st.pc], st);
    lemma_advance(m, code, st, a, code[a.pc]);
    let b = run(m, code[a.pc], a);
    assert(rows_of(a, 0) == rows_of(x.start, 0));
    assert(!met_by_some(x, k, 0));
    let c = if n == 0 {
        b
    } else {
        let c = lemma_against_code(y, b, 0, k);
        lemma_reaches_through(m, code, st, b, c);
        c
    };
    let d = lemma_lone_code(y.d7, x, y.j, y.found, y.end, y.big, c, k);
    lemma_reaches_through(m, code, st, c, d);
    assert(d.out =~= x.start.out + second_rows(x, k + 1));
    lemma_advance(m, code, st, d, code[d.pc]);
    let e = run(m, code[d.pc], d);
    assert(rows_of(d, 1) == rows_of(x.start, 1));
    if k + 1 < rows_of(x.start, 1).len() {
        let z = lemma_second_rows(y, e, k + 1);
        lemma_reaches_through(m, code, st, e, z);
        z
    } else {
        e
    }
}

/// The second pass of a full join, run from its start, puts out each row of the second table that
/// no row of the first matches, once, with NULLs for the first.
#[verifier::rlimit(50)]
pub proof fn law_join_second_pass(s: Asm, x: Pairing, j: JoinOutput, end: int, big: Asm) -> (st2:
    State)
    requires
        settles(gen_second_pass(s, j, x.on, end), big),
        neat(s),
        plain_output(x, j),
        x.start.pc == s.code.len(),
        !x.start.halted,
        0 <= s.next_reg,
        s.next_reg + 1 + condition_weight(x.on) + condition_weight(x.condition) + row_weight(
            x.columns,
        ) <= i32::MAX,
        0 <= end < s.fresh(),
    ensures
        reaches(x.m, big.program().code, x.start, st2),
        !st2.halted,
        st2.error == x.start.error,
        st2.out == x.start.out + second_rows(x, rows_of(x.start, 1).len() as int),
        st2.pc == gen_second_pass(s, j, x.on, end).code.len(),
{
    broadcast use {group_settled, group_grows, crate::join::unmatched_stuck};

    reveal(gen_second_pass);
    reveal(run);
    let m = x.m;
    let st = x.start;
    let code = big.program().code;
    let u = gen_second_pass(s, j, x.on, end);
    assert(u.err is None) by {
        reveal(settles);
    }
    let found = s.next_reg;
    let s0 = s.take_regs(1);
    let done = s0.fresh();
    let d1 = s0.label().jump(Opcode::Rewind, 1, done, 0);
    let d2 = d1.emit(Opcode::Integer, 0, found, 0);
    let tested = d2.fresh();
    let d4 = d2.label().jump(Opcode::Rewind, 0, tested, 0);
    let hit = d4.fresh();
    let d5 = match x.on {
        Some(e) => d4.label(),
        None => d4,
    };
    let d6 = match x.on {
        Some(e) => gen_jump(d5, e, hit, true, false, j.ctx),
        None => d5,
    };
    let n1 = d6.emit(Opcode::Next, 0, d4.here(), 0).jump(Opcode::Goto, 0, tested, 0);
    let before = match x.on {
        Some(e) => n1.bind(hit),
        None => d6,
    };
    let q1 = before.emit(Opcode::Integer, 1, found, 0);
    let q2 = q1.jump(Opcode::Goto, 0, tested, 0);
    let d7 = q2.bind(tested);
    let d8 = gen_unmatched(d7, j, found, 0, end);
    let d9 = d8.emit(Opcode::Next, 1, d1.here(), 0);
    assert(u == d9.bind(done));
    if let Some(e) = x.on {
        crate::meaning::lemma_jump_follows(d5, e, hit, true, false, j.ctx);
    }
    lemma_unmatched_grows(d7, x, j, found, 0, end);
    assert(d8.err is None);
    lemma_fresh_grows(d7, d8);
    assert(d6.err is None);
    lemma_fresh_grows(d5, d6);
    assert(s.err is None);
    assert(!d9.bound(done));
    assert(settles(d9, big));
    assert(settles(d8, big));
    lemma_settles_early(d7, d8, big);
    assert(!q2.bound(tested));
    assert(settles(q2, big));
    assert(settles(q1, big));
    assert(settles(before, big));
    if x.on is Some {
        assert(!n1.bound(hit));
        assert(settles(n1, big));
    }
    assert(settles(d6, big));
    lemma_settles_early(d5, d6, big);
    assert(settles(d4, big));
    assert(settles(d2, big));
    assert(settles(d1, big));
    assert(neat(d1) && neat(d2) && neat(d4) && neat(d5));
    lemma_grows_neat(d5, d6);
    assert(neat(before) && neat(q1) && neat(q2) && neat(d7));
    lemma_grows_neat(d7, d8);
    lemma_take(s, 1);
    assert(big.program().code.len() <= i32::MAX) by {
        reveal(settles);
        reveal(Asm::program);
    }
    let y = Second { x, j, big, end, found, d1, d4, d5, d6, d7, d8, hit };
    assert(second_stands(y));
    lemma_reaches_self(m, code, st);
    lemma_advance(m, code, st, st, code[st.pc]);
    let a = run(m, code[st.pc], st);
    assert(st.out + second_rows(x, 0) =~= st.out);
    if rows_of(st, 1).len() == 0 {
        a
    } else {
        let z = lemma_second_rows(y, a, 0);
        lemma_reaches_through(m, code, st, a, z);
        z
    }
}

} // verus!
