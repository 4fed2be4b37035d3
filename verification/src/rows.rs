//! Which rows a query puts out.
use vstd::prelude::*;

use crate::ast::{ExprView, SelectStmtView};
use crate::builder::{address_of, group_asm, reg_at, Asm};
use crate::columns::{constant, expansion, exprs_of, limits};
use crate::compound::{compiled, compiled_by, outcome_of, SourceView};
use crate::emit::{
    gen_bare_epilogue, gen_columns, gen_const, gen_epilogue, gen_limit, gen_offset, gen_open,
    gen_skip, gen_stop, limit_reg, offset_reg, prologue, setup_label, table_operand,
};
use crate::expr::{gen_expr_list, gen_int};
use crate::machine::{
    among, block, field, group_grows, group_neat, group_settled, grows, lemma_grows_neat,
    lemma_grows_through, lemma_neat_start, lemma_reaches_self, lemma_reaches_through,
    lemma_settles_early, moved, neat, nth, opened, place, reaches, rows_of, run, same_fields,
    settles, Row, State, Val, Values,
};
use crate::meaning::{
    agrees, follows, kept, law_jump_code, law_table_columns, lemma_advance, lemma_fresh_grows,
    lemma_jump_follows, lemma_list_code, lemma_list_follows, lemma_serves_like, lemma_serves_on,
    lemma_take, lemma_values_from, narrow, serves, table_column, table_row, tame, tame_from, value,
    values_from, weight, weight_from, Env,
};
use crate::scan::{
    distinct_stuck, filter_stuck, gen_distinct, gen_filter, gen_open_distinct, gen_scan,
    gen_scan_unordered,
};
use crate::schema::{FunctionsView, IndexView, TableView};
use crate::flatten::regular;
use crate::index_planner::chosen_plan;
use crate::scope::{table_ctx, CtxView};
use crate::select::{aggregates, gen_over_table, gen_select};
use crate::vdbe::{InstView, Opcode, P4View};

verus! {

broadcast use group_asm;

// ---- Conditions ----

/// A bound on the registers that a condition takes.
pub open spec fn condition_weight(c: Option<ExprView>) -> nat {
    match c {
        Some(e) => 1 + weight(e),
        None => 0,
    }
}

/// The condition, if there is one, is tame.
pub open spec fn tame_condition(c: Option<ExprView>, lo: int) -> bool {
    match c {
        Some(e) => tame(e, lo),
        None => true,
    }
}

pub proof fn lemma_filter_follows(s: Asm, c: Option<ExprView>, d: int, ctx: CtxView)
    ensures
        follows(s, gen_filter(s, c, d, ctx), condition_weight(c)),
{
    broadcast use group_grows;

    reveal(gen_filter);
    match c {
        Some(e) => lemma_jump_follows(s, e, d, false, true, ctx),
        None => {},
    }
}

/// The code of a condition, run from its start, ends behind its last instruction if the condition
/// is true or there is none, and goes to the label if it is false or unknown.
pub proof fn law_filter_code(
    s: Asm,
    c: Option<ExprView>,
    d: int,
    env: Env,
    big: Asm,
    lo: i32,
    st: State,
) -> (st2: State)
    requires
        settles(gen_filter(s, c, d, env.ctx), big),
        neat(s),
        st.pc == s.code.len(),
        !st.halted,
        serves(env, big, lo, st),
        0 <= lo <= s.next_reg,
        s.next_reg + condition_weight(c) <= i32::MAX,
        tame_condition(c, lo as int),
        0 <= d < s.fresh(),
    ensures
        reaches(env.m, big.program().code, st, st2),
        st2.pc == (if kept(c, env) {
            gen_filter(s, c, d, env.ctx).code.len() as int
        } else {
            place(big, d)
        }),
        agrees(st, st2, s.next_reg),
        serves(env, big, lo, st2),
        s.err is None,
        s.fresh() <= gen_filter(s, c, d, env.ctx).fresh(),
        neat(gen_filter(s, c, d, env.ctx)),
        grows(s, gen_filter(s, c, d, env.ctx)),
        s.next_reg <= gen_filter(s, c, d, env.ctx).next_reg <= s.next_reg + condition_weight(c),
{
    reveal(gen_filter);
    let t = gen_filter(s, c, d, env.ctx);
    lemma_filter_follows(s, c, d, env.ctx);
    assert(t.err is None) by {
        reveal(settles);
    }
    lemma_fresh_grows(s, t);
    lemma_grows_neat(s, t);
    match c {
        Some(e) => {
            let st2 = law_jump_code(s, e, d, false, true, env, big, lo, st);
            lemma_serves_on(env, big, lo, st, st2);
            st2
        },
        None => {
            lemma_reaches_self(env.m, big.program().code, st);
            st
        },
    }
}

// ---- Columns of a cursor ----

pub proof fn lemma_columns_follow(s: Asm, cursor: i32, from: i32, to: i32, n: int, k: int)
    ensures
        follows(s, gen_columns(s, cursor, from, to, n, k), 0),
        gen_columns(s, cursor, from, to, n, k).next_reg == s.next_reg,
        gen_columns(s, cursor, from, to, n, k).err == s.err,
        gen_columns(s, cursor, from, to, n, k).fresh() == s.fresh(),
    decreases n - k,
{
    broadcast use group_grows;

    if s.err is Some || k >= n {
    } else {
        let s1 = s.emit(Opcode::Column, cursor, reg_at(from, k), reg_at(to, k));
        lemma_columns_follow(s1, cursor, from, to, n, k + 1);
        lemma_grows_through(s, s1, gen_columns(s1, cursor, from, to, n, k + 1));
    }
}

/// The code that reads `n` columns of a cursor brings them into the registers from `to` on.
pub proof fn lemma_columns_code(
    s: Asm,
    cursor: i32,
    from: i32,
    to: i32,
    n: int,
    m: Values,
    big: Asm,
    st: State,
    k: int,
) -> (st2: State)
    requires
        settles(gen_columns(s, cursor, from, to, n, k), big),
        neat(s),
        st.pc == s.code.len(),
        !st.halted,
        0 <= k <= n,
        0 <= from,
        from + n <= i32::MAX,
        0 <= to,
        to + n <= i32::MAX,
        forall|j: int|
            0 <= j < k ==> st.regs[#[trigger] nth(to, j)] == field(st, cursor, from + j),
    ensures
        reaches(m, big.program().code, st, st2),
        st2.pc == gen_columns(s, cursor, from, to, n, k).code.len(),
        neat(gen_columns(s, cursor, from, to, n, k)),
        settles(s, big),
        st2 == (State { pc: st2.pc, regs: st2.regs, ..st }),
        forall|r: i32|
            r < to || r >= to + n ==> #[trigger] st2.regs[r] == st.regs[r],
        forall|j: int|
            0 <= j < n ==> st2.regs[#[trigger] nth(to, j)] == field(st, cursor, from + j),
    decreases n - k,
{
    broadcast use group_settled;

    reveal(run);
    let code = big.program().code;
    let u = gen_columns(s, cursor, from, to, n, k);
    assert(u.err is None) by {
        reveal(settles);
    }
    lemma_columns_follow(s, cursor, from, to, n, k);
    lemma_grows_neat(s, u);
    lemma_settles_early(s, u, big);
    lemma_reaches_self(m, code, st);
    if k >= n {
        st
    } else {
        let s1 = s.emit(Opcode::Column, cursor, reg_at(from, k), reg_at(to, k));
        assert(reg_at(to, k) == nth(to, k) && reg_at(from, k) == from + k);
        lemma_columns_follow(s1, cursor, from, to, n, k + 1);
        lemma_settles_early(s1, u, big);
        lemma_advance(m, code, st, st, code[st.pc]);
        let a = run(m, code[st.pc], st);
        assert forall|j: int| 0 <= j < k + 1 implies a.regs[#[trigger] nth(to, j)] == field(
            a,
            cursor,
            from + j,
        ) by {
            if j < k {
                assert(st.regs[nth(to, j)] == field(st, cursor, from + j));
            }
        }
        let b = lemma_columns_code(s1, cursor, from, to, n, m, big, a, k + 1);
        lemma_reaches_through(m, code, st, a, b);
        assert forall|j: int| 0 <= j < n implies b.regs[#[trigger] nth(to, j)] == field(
            st,
            cursor,
            from + j,
        ) by {
            assert(b.regs[nth(to, j)] == field(a, cursor, from + j));
        }
        b
    }
}

// ---- The rows of a scan ----

/// The row at place `i` of the table on a cursor.
pub open spec fn row_env(m: Values, t: TableView, f: FunctionsView, st: State, cursor: i32, i: int)
    -> Env {
    table_row(m, t, f, moved(st, cursor, i), cursor)
}

/// What a query makes of the first `n` rows of the table on a cursor: the output columns of each
/// row that the condition keeps.
pub open spec fn picked(
    m: Values,
    t: TableView,
    f: FunctionsView,
    st: State,
    cursor: i32,
    condition: Option<ExprView>,
    columns: Seq<ExprView>,
    n: int,
) -> Seq<Seq<Val>>
    decreases n,
{
    if n <= 0 {
        Seq::empty()
    } else {
        let before = picked(m, t, f, st, cursor, condition, columns, n - 1);
        let env = row_env(m, t, f, st, cursor, n - 1);
        if kept(condition, env) {
            before.push(values_from(columns, env, 0))
        } else {
            before
        }
    }
}

/// One of the rows is the same as the given one.
pub open spec fn occurs_in(m: Values, rows: Seq<Seq<Val>>, v: Seq<Val>) -> bool {
    exists|i: int| 0 <= i < rows.len() && #[trigger] same_fields(m, rows[i], v)
}

/// The rows without those that occur before.
pub open spec fn distinct_rows(m: Values, rows: Seq<Seq<Val>>) -> Seq<Seq<Val>>
    decreases rows.len(),
{
    if rows.len() == 0 {
        Seq::empty()
    } else {
        let before = distinct_rows(m, rows.drop_last());
        if occurs_in(m, before, rows.last()) {
            before
        } else {
            before.push(rows.last())
        }
    }
}

/// The rows, each one once if they are to be distinct.
pub open spec fn told_apart(m: Values, distinct: bool, rows: Seq<Seq<Val>>) -> Seq<Seq<Val>> {
    if distinct {
        distinct_rows(m, rows)
    } else {
        rows
    }
}

/// A limit as a number.
pub open spec fn limit_of(limit: Option<i64>) -> Option<int> {
    match limit {
        Some(n) => Some(n as int),
        None => None,
    }
}

/// The number of rows to skip; a negative one skips none.
pub open spec fn skipped(offset: i64) -> int {
    if offset > 0 {
        offset as int
    } else {
        0
    }
}

/// The rows behind the first `offset`, at most `limit` of them if there is a limit.
pub open spec fn limited(rows: Seq<Seq<Val>>, limit: Option<int>, offset: int) -> Seq<Seq<Val>> {
    let rest = if offset <= 0 {
        rows
    } else if offset < rows.len() {
        rows.skip(offset)
    } else {
        Seq::empty()
    };
    match limit {
        Some(n) => if n < rest.len() {
            rest.take(n)
        } else {
            rest
        },
        None => rest,
    }
}

/// A row stored is one of the rows from then on.
pub open spec fn storing_adds(m: Values) -> bool {
    forall|rows: Seq<Row>, r: Row, v: Seq<Val>|
        #[trigger] among(m, (m.store)(rows, r), v) == (among(m, rows, v) || same_fields(
            m,
            r.fields,
            v,
        ))
}

// ---- The code of a scan ----

/// The parts of the code of a scan that puts each row out as it is met.
pub ghost struct Scan {
    pub table: TableView,
    pub functions: FunctionsView,
    pub cursor: i32,
    pub distinct: bool,
    pub condition: Option<ExprView>,
    pub columns: Seq<ExprView>,
    pub limit: Option<i32>,
    pub offset: Option<i32>,
    /// Before anything, and at the first instruction for a row.
    pub s0: Asm,
    pub s1: Asm,
    pub s2: Asm,
    /// Behind the condition, the output columns and the test for distinct rows.
    pub s3: Asm,
    pub s4: Asm,
    pub s5: Asm,
    pub s6: Asm,
    /// Behind the rows to skip, the row put out, and the limit.
    pub s7: Asm,
    pub s8: Asm,
    pub s9: Asm,
    pub next: int,
    pub end: int,
    pub whole: Asm,
}

/// The parts of a scan.
#[verifier::opaque]
pub open spec fn scan_parts(
    s: Asm,
    select: SelectStmtView,
    t: TableView,
    f: FunctionsView,
    cursor: i32,
    outputs: Seq<(ExprView, Seq<char>)>,
    limit: Option<i32>,
    offset: Option<i32>,
) -> Scan {
    let ctx = table_ctx(t, cursor, f);
    let ncol = outputs.len() as i32;
    let s0 = gen_open_distinct(s, select.distinct, 2, ncol);
    let end = s0.fresh();
    let s1 = s0.label().jump(Opcode::Rewind, cursor, end, 0);
    let next = s1.fresh();
    let s2 = s1.label();
    let s3 = gen_filter(s2, select.where_clause, next, ctx);
    let s4 = s3.take_regs(ncol);
    let s5 = gen_expr_list(s4, exprs_of(outputs), s3.next_reg, ctx, 0);
    let s6 = gen_distinct(s5, select.distinct, 2, next, s3.next_reg, ncol);
    let s7 = gen_skip(s6, offset, next);
    let s8 = s7.emit(Opcode::ResultRow, s3.next_reg, ncol, 0);
    let s9 = gen_stop(s8, limit, end);
    let whole = s9.bind(next).emit(Opcode::Next, cursor, s1.here(), 0).bind(end).emit(
        Opcode::Halt,
        0,
        0,
        0,
    );
    Scan {
        table: t,
        functions: f,
        cursor,
        distinct: select.distinct,
        condition: select.where_clause,
        columns: exprs_of(outputs),
        limit,
        offset,
        s0,
        s1,
        s2,
        s3,
        s4,
        s5,
        s6,
        s7,
        s8,
        s9,
        next,
        end,
        whole,
    }
}

/// A bound on the registers that a scan takes.
pub open spec fn scan_weight(condition: Option<ExprView>, columns: Seq<ExprView>) -> nat {
    condition_weight(condition) + columns.len() + weight_from(columns, 0) + 1
}

/// A counter is in a register that is in use.
pub open spec fn counter_fits(c: Option<i32>, s: Asm) -> bool {
    c matches Some(r) ==> 0 <= r < s.next_reg
}

pub proof fn lemma_distinct_grows(
    s: Asm,
    distinct: bool,
    cursor: i32,
    d: int,
    row: i32,
    ncol: i32,
)
    ensures
        grows(s, gen_distinct(s, distinct, cursor, d, row, ncol)),
        gen_distinct(s, distinct, cursor, d, row, ncol).err == s.err,
        gen_distinct(s, distinct, cursor, d, row, ncol).fresh() == s.fresh(),
{
    broadcast use group_grows;

    reveal(gen_distinct);
}

/// The parts of a scan stand in the program.
pub open spec fn scan_stands(x: Scan, big: Asm) -> bool {
    let code = big.program().code;
    let ctx = table_ctx(x.table, x.cursor, x.functions);
    let ncol = x.columns.len() as i32;
    let row = x.s3.next_reg;
    &&& x.s1 == x.s0.label().jump(Opcode::Rewind, x.cursor, x.end, 0)
    &&& x.s2 == x.s1.label()
    &&& x.s3 == gen_filter(x.s2, x.condition, x.next, ctx)
    &&& x.s4 == x.s3.take_regs(ncol)
    &&& x.s5 == gen_expr_list(x.s4, x.columns, row, ctx, 0)
    &&& x.s6 == gen_distinct(x.s5, x.distinct, 2, x.next, row, ncol)
    &&& x.s7 == gen_skip(x.s6, x.offset, x.next)
    &&& x.s8 == x.s7.emit(Opcode::ResultRow, row, ncol, 0)
    &&& x.s9 == gen_stop(x.s8, x.limit, x.end)
    &&& neat(x.s0) && neat(x.s2) && neat(x.s3) && neat(x.s4) && neat(x.s5) && neat(x.s6)
    &&& neat(x.s7) && neat(x.s8)
    &&& settles(x.s1, big) && settles(x.s3, big) && settles(x.s5, big) && settles(x.s6, big)
    &&& settles(x.s7, big) && settles(x.s8, big) && settles(x.s9, big)
    &&& x.s1.code.len() == x.s0.code.len() + 1
    &&& x.s1.code.len() <= x.s9.code.len()
    &&& x.s2.code.len() == x.s1.code.len()
    &&& x.s4.code.len() == x.s3.code.len()
    &&& 0 <= x.next < x.s2.fresh()
    &&& x.s9.code.len() + 2 <= code.len() <= i32::MAX
    &&& place(big, x.next) == x.s9.code.len()
    &&& place(big, x.end) == x.s9.code.len() + 1
    &&& code[x.s0.code.len() as int] == (InstView {
        opcode: Opcode::Rewind,
        p1: x.cursor,
        p2: (x.s9.code.len() + 1) as i32,
        p3: 0,
        p4: P4View::Unused,
        p5: 0,
    })
    &&& code[x.s9.code.len() as int] == (InstView {
        opcode: Opcode::Next,
        p1: x.cursor,
        p2: x.s1.code.len() as i32,
        p3: 0,
        p4: P4View::Unused,
        p5: 0,
    })
    &&& code[x.s9.code.len() as int + 1].opcode == Opcode::Halt
    // Registers
    &&& 0 <= x.s0.next_reg == x.s2.next_reg
    &&& x.s2.next_reg <= x.s3.next_reg <= x.s2.next_reg + condition_weight(x.condition)
    &&& x.s4.next_reg == x.s3.next_reg + x.columns.len()
    &&& x.s4.next_reg <= x.s5.next_reg
    &&& x.s2.next_reg + scan_weight(x.condition, x.columns) <= i32::MAX
    &&& x.s5.next_reg < i32::MAX
    &&& counter_fits(x.limit, x.s0) && counter_fits(x.offset, x.s0)
    &&& x.limit is Some ==> x.limit != x.offset
    // The rest
    &&& narrow(x.table)
    &&& tame_condition(x.condition, 0)
    &&& tame_from(x.columns, 0, 0)
    &&& x.columns.len() <= i32::MAX
    &&& x.cursor != 2
}

#[verifier::rlimit(50)]
proof fn lemma_scan_stands(
    s: Asm,
    select: SelectStmtView,
    t: TableView,
    f: FunctionsView,
    cursor: i32,
    outputs: Seq<(ExprView, Seq<char>)>,
    limit: Option<i32>,
    offset: Option<i32>,
    big: Asm,
)
    requires
        settles(
            gen_scan_unordered(
                s,
                select,
                table_ctx(t, cursor, f),
                cursor,
                outputs,
                limit,
                offset,
            ),
            big,
        ),
        neat(s),
        narrow(t),
        tame_condition(select.where_clause, 0),
        tame_from(exprs_of(outputs), 0, 0),
        0 <= s.next_reg,
        s.next_reg + scan_weight(select.where_clause, exprs_of(outputs)) <= i32::MAX,
        counter_fits(limit, s),
        counter_fits(offset, s),
        limit is Some ==> limit != offset,
        cursor != 2,
    ensures
        scan_stands(scan_parts(s, select, t, f, cursor, outputs, limit, offset), big),
        settles(scan_parts(s, select, t, f, cursor, outputs, limit, offset).s0, big),
{
    broadcast use {group_settled, group_grows};

    reveal(scan_parts);
    reveal(gen_scan_unordered);
    let x = scan_parts(s, select, t, f, cursor, outputs, limit, offset);
    let ctx = table_ctx(t, cursor, f);
    assert(x.whole == gen_scan_unordered(s, select, ctx, cursor, outputs, limit, offset));
    assert(x.whole.err is None) by {
        reveal(settles);
    }
    let ncol = outputs.len() as i32;
    assert(x.columns.len() == outputs.len());
    lemma_distinct_grows(x.s5, x.distinct, 2, x.next, x.s3.next_reg, ncol);
    lemma_list_follows(x.s4, x.columns, x.s3.next_reg, ctx, 0);
    lemma_filter_follows(x.s2, x.condition, x.next, ctx);
    assert(x.s9.err is None && x.s8.err is None && x.s7.err is None && x.s6.err is None);
    lemma_fresh_grows(x.s5, x.s6);
    lemma_fresh_grows(x.s4, x.s5);
    lemma_fresh_grows(x.s2, x.s3);
    assert(x.s0.err is None);
    assert(!x.s9.bound(x.next) && !x.s9.bound(x.end));
    assert(settles(x.whole, big));
    assert(settles(x.s9, big));
    assert(settles(x.s8, big));
    assert(settles(x.s7, big));
    assert(settles(x.s6, big));
    lemma_settles_early(x.s5, x.s6, big);
    lemma_settles_early(x.s4, x.s5, big);
    assert(settles(x.s3, big));
    lemma_settles_early(x.s2, x.s3, big);
    assert(settles(x.s1, big));
    assert(settles(x.s0, big));
    assert(neat(x.s0)) by {
        reveal(gen_open_distinct);
    }
    lemma_grows_neat(x.s2, x.s3);
    assert(neat(x.s4));
    lemma_grows_neat(x.s4, x.s5);
    lemma_grows_neat(x.s5, x.s6);
    assert(neat(x.s7));
    assert(neat(x.s8));
    assert(neat(x.s9));
    assert(x.s0.next_reg == s.next_reg) by {
        reveal(gen_open_distinct);
        reveal(Asm::note_cursor);
    }
    lemma_take(x.s3, ncol);
    assert(big.program().code.len() <= i32::MAX) by {
        reveal(settles);
        reveal(Asm::program);
    }
}

// ---- Running a scan ----

/// A scan, and what it runs on.
pub ghost struct Scanning {
    pub x: Scan,
    pub m: Values,
    pub big: Asm,
    /// The state before the first row.
    pub start: State,
    /// The numbers of rows to put out and to skip.
    pub limit: Option<int>,
    pub offset: int,
}

/// The number of rows of the table.
pub open spec fn row_count(y: Scanning) -> int {
    rows_of(y.start, y.x.cursor).len() as int
}

/// What the query makes of the first `n` rows, each row once if they are to be distinct.
pub open spec fn wanted(y: Scanning, n: int) -> Seq<Seq<Val>> {
    told_apart(
        y.m,
        y.x.distinct,
        picked(
            y.m,
            y.x.table,
            y.x.functions,
            y.start,
            y.x.cursor,
            y.x.condition,
            y.x.columns,
            n,
        ),
    )
}

/// The setting of a scan is in order.
pub open spec fn scan_set_up(y: Scanning) -> bool {
    &&& scan_stands(y.x, y.big)
    &&& y.x.distinct ==> storing_adds(y.m)
    &&& y.x.distinct ==> y.start.cursors[2].root != y.start.cursors[y.x.cursor].root
    &&& y.x.limit is Some == y.limit is Some
    &&& y.limit matches Some(n) ==> 0 < n <= i64::MAX
    &&& 0 <= y.offset <= i64::MAX
    &&& y.x.offset is None ==> y.offset == 0
}

/// The rows that the index of distinct rows holds are those wanted so far.
pub open spec fn remembers(y: Scanning, st: State, n: int) -> bool {
    y.x.distinct ==> forall|v: Seq<Val>|
        #[trigger] among(y.m, rows_of(st, 2), v) == occurs_in(y.m, wanted(y, n), v)
}

/// The state differs from that before the first row only in registers, in the place of the cursor
/// and in the index of distinct rows.
pub open spec fn scan_undisturbed(y: Scanning, st: State) -> bool {
    &&& st.cursors == y.start.cursors.insert(y.x.cursor, st.cursors[y.x.cursor])
    &&& st.cursors[y.x.cursor].root == y.start.cursors[y.x.cursor].root
    &&& if y.x.distinct {
        st.trees == y.start.trees.insert(y.start.cursors[2].root, rows_of(st, 2))
    } else {
        st.trees == y.start.trees
    }
    &&& !st.halted
    &&& st.error == y.start.error
    &&& forall|r: i32| r < 0 ==> #[trigger] st.regs[r] == y.start.regs[r]
}

/// The counters stand at what is left after the first `n` rows.
pub open spec fn counters(y: Scanning, st: State, n: int) -> bool {
    let w = wanted(y, n);
    &&& y.x.offset matches Some(r) ==> st.regs[r] == Val::Int(
        (if w.len() < y.offset {
            y.offset - w.len()
        } else {
            0
        }) as i64,
    )
    &&& y.x.limit matches Some(r) ==> limited(w, y.limit, y.offset).len() < y.limit->0
        && st.regs[r] == Val::Int((y.limit->0 - limited(w, y.limit, y.offset).len()) as i64)
}

/// The first `n` rows have been met.
pub open spec fn met(y: Scanning, st: State, n: int) -> bool {
    &&& scan_undisturbed(y, st)
    &&& st.out == y.start.out + limited(wanted(y, n), y.limit, y.offset)
    &&& remembers(y, st, n)
    &&& counters(y, st, n)
}

proof fn lemma_occurs_push(m: Values, rows: Seq<Seq<Val>>, r: Seq<Val>, v: Seq<Val>)
    ensures
        occurs_in(m, rows.push(r), v) == (occurs_in(m, rows, v) || same_fields(m, r, v)),
{
    let p = rows.push(r);
    if occurs_in(m, rows, v) {
        let i = choose|i: int| 0 <= i < rows.len() && #[trigger] same_fields(m, rows[i], v);
        assert(same_fields(m, p[i], v));
    }
    if same_fields(m, r, v) {
        assert(same_fields(m, p[rows.len() as int], v));
    }
    if occurs_in(m, p, v) {
        let i = choose|i: int| 0 <= i < p.len() && #[trigger] same_fields(m, p[i], v);
        if i < rows.len() {
            assert(same_fields(m, rows[i], v));
        }
    }
}

/// One more row: what is wanted stays as it is, or has the row behind it.
proof fn lemma_wanted_step(y: Scanning, i: int)
    requires
        0 <= i,
    ensures
        ({
            let env = row_env(y.m, y.x.table, y.x.functions, y.start, y.x.cursor, i);
            let v = values_from(y.x.columns, env, 0);
            wanted(y, i + 1) == (if kept(y.x.condition, env) && !(y.x.distinct && occurs_in(
                y.m,
                wanted(y, i),
                v,
            )) {
                wanted(y, i).push(v)
            } else {
                wanted(y, i)
            })
        }),
{
    let env = row_env(y.m, y.x.table, y.x.functions, y.start, y.x.cursor, i);
    let v = values_from(y.x.columns, env, 0);
    let before = picked(
        y.m,
        y.x.table,
        y.x.functions,
        y.start,
        y.x.cursor,
        y.x.condition,
        y.x.columns,
        i,
    );
    assert(before.push(v).drop_last() =~= before);
}

/// One row more behind the others: it is skipped, put out, or beyond the limit.
pub proof fn lemma_limited_push(w: Seq<Seq<Val>>, v: Seq<Val>, limit: Option<int>, offset: int)
    requires
        0 <= offset,
        limit matches Some(n) ==> limited(w, limit, offset).len() < n,
    ensures
        w.len() < offset ==> limited(w.push(v), limit, offset) == limited(w, limit, offset)
            && limited(w, limit, offset) =~= Seq::empty(),
        w.len() >= offset ==> limited(w.push(v), limit, offset) == limited(
            w,
            limit,
            offset,
        ).push(v),
{
    if w.len() < offset {
        assert(limited(w.push(v), limit, offset) =~= Seq::empty());
        assert(limited(w, limit, offset) =~= Seq::empty());
    } else {
        if offset > 0 && offset < w.len() {
            assert(w.push(v).skip(offset) =~= w.skip(offset).push(v));
        } else if offset > 0 {
            assert(w.push(v).skip(offset) =~= seq![v]);
        }
        assert(limited(w.push(v), limit, offset) =~= limited(w, limit, offset).push(v));
    }
}

/// What is wanted of the first rows comes first in what is wanted of more rows.
proof fn lemma_wanted_prefix(y: Scanning, i: int, n: int)
    requires
        0 <= i <= n,
    ensures
        wanted(y, i).len() <= wanted(y, n).len(),
        wanted(y, i) == wanted(y, n).take(wanted(y, i).len() as int),
    decreases n - i,
{
    if i < n {
        lemma_wanted_prefix(y, i, n - 1);
        lemma_wanted_step(y, n - 1);
    }
    assert(wanted(y, i) =~= wanted(y, n).take(wanted(y, i).len() as int));
}

/// Once the limit is reached nothing more is put out.
pub proof fn lemma_limit_reached(a: Seq<Seq<Val>>, b: Seq<Seq<Val>>, n: int, offset: int)
    requires
        a.len() <= b.len(),
        a == b.take(a.len() as int),
        0 <= offset,
        0 < n,
        limited(a, Some(n), offset).len() == n,
    ensures
        limited(a, Some(n), offset) == limited(b, Some(n), offset),
{
    assert(limited(a, Some(n), offset) =~= limited(b, Some(n), offset)) by {
        if offset > 0 {
            assert(a.skip(offset).take(n) =~= b.skip(offset).take(n));
        } else {
            assert(a.take(n) =~= b.take(n));
        }
    }
}

/// The expressions of the query see the row that the cursor is on.
proof fn lemma_row_serves(y: Scanning, st: State, i: int)
    requires
        scan_set_up(y),
        scan_undisturbed(y, st),
        st.cursors[y.x.cursor].at == i,
    ensures
        serves(
            row_env(y.m, y.x.table, y.x.functions, y.start, y.x.cursor, i),
            y.big,
            0,
            st,
        ),
{
    let x = y.x;
    let there = moved(y.start, x.cursor, i);
    let env = row_env(y.m, x.table, x.functions, y.start, x.cursor, i);
    let here = table_row(y.m, x.table, x.functions, st, x.cursor);
    law_table_columns(y.m, x.table, x.functions, x.cursor, y.big, 0, st);
    assert(rows_of(st, x.cursor) == rows_of(there, x.cursor));
    assert forall|q: Option<Seq<char>>, name: Seq<char>| #[trigger]
        (env.column)(q, name) == (here.column)(q, name) by {
        assert(table_column(y.m, x.table, st, x.cursor, name) == table_column(
            y.m,
            x.table,
            there,
            x.cursor,
            name,
        ));
    }
    lemma_serves_like(here, env, y.big, 0, st);
}

/// A row that passes the condition is told apart from those before it.
proof fn lemma_distinct_code(y: Scanning, st: State, i: int, v: Seq<Val>) -> (st2: State)
    requires
        scan_set_up(y),
        scan_undisturbed(y, st),
        remembers(y, st, i),
        st.pc == y.x.s5.code.len(),
        v == block(st, y.x.s3.next_reg, y.x.columns.len() as int),
    ensures
        reaches(y.m, y.big.program().code, st, st2),
        scan_undisturbed(y, st2),
        st2.cursors == st.cursors,
        st2.out == st.out,
        forall|r: i32| r < y.x.s5.next_reg ==> #[trigger] st2.regs[r] == st.regs[r],
        y.x.distinct && occurs_in(y.m, wanted(y, i), v) ==> st2.pc == y.x.s9.code.len()
            && remembers(y, st2, i),
        !(y.x.distinct && occurs_in(y.m, wanted(y, i), v)) ==> st2.pc == y.x.s6.code.len(),
        y.x.distinct && !occurs_in(y.m, wanted(y, i), v) ==> forall|u: Seq<Val>|
            #[trigger] among(y.m, rows_of(st2, 2), u) == occurs_in(y.m, wanted(y, i).push(v), u),
{
    broadcast use group_settled;

    reveal(gen_distinct);
    reveal(run);
    let x = y.x;
    let m = y.m;
    let code = y.big.program().code;
    let ncol = x.columns.len() as i32;
    let row = x.s3.next_reg;
    lemma_reaches_self(m, code, st);
    if !x.distinct {
        st
    } else {
        assert(settles(x.s6, y.big));
        let t1 = x.s5.jump_p45(Opcode::Found, 2, x.next, row, P4View::Int(ncol as i64), 0);
        let rec = t1.next_reg;
        let t2 = t1.take_regs(1).emit(Opcode::MakeRecord, row, ncol, rec);
        assert(settles(t2, y.big));
        assert(settles(t1, y.big));
        assert(st.cursors[2] == y.start.cursors[2]);
        lemma_advance(m, code, st, st, code[st.pc]);
        let a = run(m, code[st.pc], st);
        assert(among(m, rows_of(st, 2), v) == occurs_in(m, wanted(y, i), v));
        if occurs_in(m, wanted(y, i), v) {
            a
        } else {
            lemma_advance(m, code, st, a, code[a.pc]);
            let b = run(m, code[a.pc], a);
            lemma_advance(m, code, st, b, code[b.pc]);
            let c = run(m, code[b.pc], b);
            assert(0u8 & 0x02u8 == 0) by (bit_vector);
            assert(b.regs[rec] == Val::Record(v));
            assert(rows_of(c, 2) == (m.store)(rows_of(st, 2), Row { rowid: 0, fields: v }));
            assert forall|u: Seq<Val>| #[trigger] among(m, rows_of(c, 2), u) == occurs_in(
                m,
                wanted(y, i).push(v),
                u,
            ) by {
                lemma_occurs_push(m, wanted(y, i), v, u);
                assert(among(m, rows_of(st, 2), u) == occurs_in(m, wanted(y, i), u));
            }
            assert(c.trees =~= y.start.trees.insert(y.start.cursors[2].root, rows_of(c, 2)));
            c
        }
    }
}

/// A wanted row is skipped or put out.
proof fn lemma_put_code(y: Scanning, st: State, i: int, v: Seq<Val>) -> (st2: State)
    requires
        scan_set_up(y),
        scan_undisturbed(y, st),
        counters(y, st, i),
        st.pc == y.x.s6.code.len(),
        v == block(st, y.x.s3.next_reg, y.x.columns.len() as int),
        st.out == y.start.out + limited(wanted(y, i), y.limit, y.offset),
        wanted(y, i + 1) == wanted(y, i).push(v),
    ensures
        reaches(y.m, y.big.program().code, st, st2),
        scan_undisturbed(y, st2),
        st2.cursors == st.cursors,
        st2.trees == st.trees,
        st2.out == y.start.out + limited(wanted(y, i + 1), y.limit, y.offset),
        st2.pc == y.x.s9.code.len() && counters(y, st2, i + 1) || st2.pc == y.x.s9.code.len() + 1
            && y.limit is Some && limited(wanted(y, i + 1), y.limit, y.offset).len() == y.limit->0,
{
    broadcast use group_settled;

    reveal(run);
    let x = y.x;
    let m = y.m;
    let code = y.big.program().code;
    let w = wanted(y, i);
    lemma_limited_push(w, v, y.limit, y.offset);
    lemma_reaches_self(m, code, st);
    let skips = w.len() < y.offset;
    assert(settles(x.s7, y.big) && settles(x.s8, y.big) && settles(x.s9, y.big));
    let a = match x.offset {
        Some(r) => {
            lemma_advance(m, code, st, st, code[st.pc]);
            run(m, code[st.pc], st)
        },
        None => st,
    };
    if skips {
        a
    } else {
        assert(a.pc == x.s7.code.len());
        assert(block(a, x.s3.next_reg, x.columns.len() as int) =~= v);
        lemma_advance(m, code, st, a, code[a.pc]);
        let b = run(m, code[a.pc], a);
        assert(b.out =~= y.start.out + limited(wanted(y, i + 1), y.limit, y.offset));
        match x.limit {
            Some(r) => {
                lemma_advance(m, code, st, b, code[b.pc]);
                run(m, code[b.pc], b)
            },
            None => b,
        }
    }
}

/// One row is met: the scan goes on with the next one, or is at its end.
#[verifier::rlimit(50)]
proof fn lemma_row_code(y: Scanning, st: State, i: int) -> (st2: State)
    requires
        scan_set_up(y),
        met(y, st, i),
        st.cursors[y.x.cursor].at == i,
        0 <= i < row_count(y),
        st.pc == y.x.s1.code.len(),
    ensures
        reaches(y.m, y.big.program().code, st, st2),
        scan_undisturbed(y, st2),
        st2.pc == y.x.s1.code.len() && i + 1 < row_count(y) && met(y, st2, i + 1)
            && st2.cursors[y.x.cursor].at == i + 1 || st2.pc == y.x.s9.code.len() + 1 && st2.out
            == y.start.out + limited(wanted(y, row_count(y)), y.limit, y.offset),
{
    reveal(run);
    let x = y.x;
    let m = y.m;
    let code = y.big.program().code;
    let env = row_env(m, x.table, x.functions, y.start, x.cursor, i);
    let v = values_from(x.columns, env, 0);
    lemma_wanted_step(y, i);
    lemma_row_serves(y, st, i);
    let a = law_filter_code(x.s2, x.condition, x.next, env, y.big, 0, st);
    let d = if !kept(x.condition, env) {
        a
    } else {
        let b = lemma_list_code(x.s4, x.columns, x.s3.next_reg, env, y.big, 0, a, 0);
        lemma_reaches_through(m, code, st, a, b);
        lemma_values_from(x.columns, env, 0);
        assert(block(b, x.s3.next_reg, x.columns.len() as int) =~= v);
        assert(remembers(y, b, i));
        let c = lemma_distinct_code(y, b, i, v);
        lemma_reaches_through(m, code, st, b, c);
        if x.distinct && occurs_in(m, wanted(y, i), v) {
            c
        } else {
            assert(block(c, x.s3.next_reg, x.columns.len() as int) =~= v) by {
                assert forall|j: int| 0 <= j < x.columns.len() implies c.regs[#[trigger] nth(
                    x.s3.next_reg,
                    j,
                )] == v[j] by {
                    assert(b.regs[nth(x.s3.next_reg, j)] == v[j]);
                }
            }
            let e = lemma_put_code(y, c, i, v);
            lemma_reaches_through(m, code, st, c, e);
            e
        }
    };
    if d.pc == x.s9.code.len() {
        assert(met(y, d, i + 1));
        lemma_advance(m, code, st, d, code[d.pc]);
        let z = run(m, code[d.pc], d);
        assert(z.cursors =~= y.start.cursors.insert(x.cursor, z.cursors[x.cursor]));
        assert(rows_of(d, x.cursor).len() == row_count(y));
        assert(rows_of(z, 2) == rows_of(d, 2));
        z
    } else {
        lemma_wanted_prefix(y, i + 1, row_count(y));
        lemma_limit_reached(
            wanted(y, i + 1),
            wanted(y, row_count(y)),
            y.limit->0,
            y.offset,
        );
        d
    }
}

/// All rows from the `i`-th on are met.
proof fn lemma_scan_rows(y: Scanning, st: State, i: int) -> (st2: State)
    requires
        scan_set_up(y),
        met(y, st, i),
        st.cursors[y.x.cursor].at == i,
        0 <= i < row_count(y),
        st.pc == y.x.s1.code.len(),
    ensures
        reaches(y.m, y.big.program().code, st, st2),
        scan_undisturbed(y, st2),
        st2.pc == y.x.s9.code.len() + 1,
        st2.out == y.start.out + limited(wanted(y, row_count(y)), y.limit, y.offset),
    decreases row_count(y) - i,
{
    let a = lemma_row_code(y, st, i);
    if a.pc == y.x.s1.code.len() && i + 1 < row_count(y) && met(y, a, i + 1)
        && a.cursors[y.x.cursor].at == i + 1 {
        let b = lemma_scan_rows(y, a, i + 1);
        lemma_reaches_through(y.m, y.big.program().code, st, a, b);
        b
    } else {
        a
    }
}

/// The rows that a scan puts out: the output columns of the rows that the condition keeps, each
/// row once if they are to be distinct, behind the first `offset` of them and up to the limit.
pub open spec fn scanned(
    m: Values,
    t: TableView,
    f: FunctionsView,
    st: State,
    cursor: i32,
    select: SelectStmtView,
    columns: Seq<ExprView>,
    limit: Option<int>,
    offset: int,
) -> Seq<Seq<Val>> {
    limited(
        told_apart(
            m,
            select.distinct,
            picked(
                m,
                t,
                f,
                st,
                cursor,
                select.where_clause,
                columns,
                rows_of(st, cursor).len() as int,
            ),
        ),
        limit,
        offset,
    )
}

/// The code of a scan without a sort, run from its start, puts out the rows of the query and
/// ends.
pub proof fn law_scan_code(
    s: Asm,
    select: SelectStmtView,
    t: TableView,
    f: FunctionsView,
    cursor: i32,
    outputs: Seq<(ExprView, Seq<char>)>,
    limit_reg: Option<i32>,
    offset_reg: Option<i32>,
    limit: Option<int>,
    offset: int,
    m: Values,
    big: Asm,
    st: State,
) -> (st2: State)
    requires
        settles(
            gen_scan_unordered(
                s,
                select,
                table_ctx(t, cursor, f),
                cursor,
                outputs,
                limit_reg,
                offset_reg,
            ),
            big,
        ),
        neat(s),
        narrow(t),
        tame_condition(select.where_clause, 0),
        tame_from(exprs_of(outputs), 0, 0),
        0 <= s.next_reg,
        s.next_reg + scan_weight(select.where_clause, exprs_of(outputs)) <= i32::MAX,
        cursor != 2,
        storing_adds(m),
        // The counters
        counter_fits(limit_reg, s),
        counter_fits(offset_reg, s),
        limit_reg is Some ==> limit_reg != offset_reg,
        limit_reg is Some == limit is Some,
        limit matches Some(n) ==> 0 < n <= i64::MAX && st.regs[limit_reg->0] == Val::Int(n as i64),
        0 <= offset <= i64::MAX,
        match offset_reg {
            Some(r) => st.regs[r] == Val::Int(offset as i64),
            None => offset == 0,
        },
        // The table is open.
        st.pc == s.code.len(),
        !st.halted,
        st.cursors[cursor].root >= 0,
    ensures
        reaches(m, big.program().code, st, st2),
        st2.halted,
        st2.error == st.error,
        st2.out == st.out + scanned(
            m,
            t,
            f,
            st,
            cursor,
            select,
            exprs_of(outputs),
            limit,
            offset,
        ),
{
    broadcast use group_settled;

    reveal(run);
    reveal(gen_open_distinct);
    let code = big.program().code;
    lemma_scan_stands(s, select, t, f, cursor, outputs, limit_reg, offset_reg, big);
    let x = scan_parts(s, select, t, f, cursor, outputs, limit_reg, offset_reg);
    assert(x.s0 == gen_open_distinct(s, select.distinct, 2, outputs.len() as i32) && x.distinct
        == select.distinct && x.condition == select.where_clause && x.columns == exprs_of(outputs)
        && x.table == t && x.functions == f && x.cursor == cursor && x.limit == limit_reg
        && x.offset == offset_reg) by {
        reveal(scan_parts);
    }
    lemma_reaches_self(m, code, st);
    let a = if select.distinct {
        lemma_advance(m, code, st, st, code[st.pc]);
        run(m, code[st.pc], st)
    } else {
        st
    };
    assert(a.pc == x.s0.code.len());
    let y = Scanning { x, m, big, start: a, limit, offset };
    assert(scan_set_up(y));
    assert(rows_of(a, cursor) == rows_of(st, cursor));
    lemma_picked_same(y, st, row_count(y));
    assert(wanted(y, 0) =~= Seq::empty());
    assert(limited(wanted(y, 0), limit, offset) =~= Seq::empty());
    lemma_advance(m, code, st, a, code[a.pc]);
    let b = run(m, code[a.pc], a);
    let d = if row_count(y) == 0 {
        assert(st.out + Seq::<Seq<Val>>::empty() =~= st.out);
        b
    } else {
        assert(b.cursors =~= a.cursors.insert(cursor, b.cursors[cursor]));
        assert(b.out =~= a.out + Seq::<Seq<Val>>::empty());
        if select.distinct {
            assert(rows_of(b, 2) =~= Seq::empty());
            assert(b.trees =~= a.trees.insert(a.cursors[2].root, rows_of(b, 2)));
        }
        assert(met(y, b, 0));
        let c = lemma_scan_rows(y, b, 0);
        lemma_reaches_through(m, code, st, b, c);
        c
    };
    lemma_advance(m, code, st, d, code[d.pc]);
    run(m, code[d.pc], d)
}

/// The rows are the same before and after the index of distinct rows is opened.
proof fn lemma_picked_same(y: Scanning, st: State, n: int)
    requires
        y.x.cursor != 2,
        y.start.cursors[y.x.cursor] == st.cursors[y.x.cursor],
        rows_of(y.start, y.x.cursor) == rows_of(st, y.x.cursor),
        y.start.regs == st.regs,
    ensures
        picked(
            y.m,
            y.x.table,
            y.x.functions,
            y.start,
            y.x.cursor,
            y.x.condition,
            y.x.columns,
            n,
        ) == picked(
            y.m,
            y.x.table,
            y.x.functions,
            st,
            y.x.cursor,
            y.x.condition,
            y.x.columns,
            n,
        ),
    decreases n,
{
    if n > 0 {
        lemma_picked_same(y, st, n - 1);
        let x = y.x;
        let e1 = row_env(y.m, x.table, x.functions, y.start, x.cursor, n - 1);
        let e2 = row_env(y.m, x.table, x.functions, st, x.cursor, n - 1);
        let a = moved(y.start, x.cursor, n - 1);
        let b = moved(st, x.cursor, n - 1);
        assert(rows_of(a, x.cursor) == rows_of(b, x.cursor));
        assert(e1.column =~= e2.column) by {
            assert forall|q: Option<Seq<char>>, name: Seq<char>| #[trigger]
                (e1.column)(q, name) == (e2.column)(q, name) by {
                assert(table_column(y.m, x.table, a, x.cursor, name) == table_column(
                    y.m,
                    x.table,
                    b,
                    x.cursor,
                    name,
                ));
            }
        }
        assert(e1.slot =~= e2.slot);
        assert(e1 == e2);
    }
}

// ---- Whole programs ----

/// The machine before the first instruction of a program: nothing is open and nothing put out.
pub open spec fn ready_to_run(st: State) -> bool {
    &&& st.pc == 0
    &&& !st.halted
    &&& st.error is None
    &&& st.out.len() == 0
}

pub proof fn lemma_settles_self(big: Asm)
    requires
        big.err is None,
        big.code.len() <= i32::MAX,
    ensures
        settles(big, big),
{
    reveal(settles);
    assert(big.code.take(big.code.len() as int) =~= big.code);
    assert(big.fixups.take(big.fixups.len() as int) =~= big.fixups);
}

pub proof fn lemma_prologue()
    ensures
        neat(prologue()),
        prologue().err is None,
        prologue().code.len() == 1,
        prologue().next_reg == 1,
        prologue().fresh() == setup_label() + 1,
        !prologue().bound(setup_label()),
        setup_label() >= 0,
{
    broadcast use group_neat;

    reveal(prologue);
    reveal(setup_label);
    lemma_neat_start();
}

/// What comes before the body of a program: it leads to the setup code, and from there to the
/// body.
pub proof fn lemma_body_reached(s: Asm, m: Values, st: State) -> (st2: State)
    requires
        grows(prologue(), s),
        s.err is None,
        gen_epilogue(s).code.len() <= i32::MAX,
        st.pc == 0,
        !st.halted,
    ensures
        settles(s, gen_epilogue(s)),
        reaches(m, gen_epilogue(s).program().code, st, st2),
        st2 == (State { pc: 1, ..st }),
        neat(s),
{
    broadcast use group_settled;

    reveal(gen_epilogue);
    reveal(run);
    let big = gen_epilogue(s);
    let code = big.program().code;
    lemma_prologue();
    lemma_fresh_grows(prologue(), s);
    lemma_settles_self(big);
    assert(settles(s, big));
    lemma_grows_neat(prologue(), s);
    lemma_settles_early(prologue(), s, big);
    assert(code[0] == (InstView {
        opcode: Opcode::Init,
        p1: 0,
        p2: address_of(big.labels, setup_label()),
        p3: 0,
        p4: P4View::Unused,
        p5: 0,
    })) by {
        reveal(prologue);
        reveal(setup_label);
        lemma_neat_start();
        let s0 = Asm::start().label();
        assert(settles(s0.jump(Opcode::Init, 0, Asm::start().fresh(), 0), big));
        assert(neat(s0)) by {
            broadcast use group_neat;

        }
        assert(s0.code.len() == 0);
    }
    lemma_reaches_self(m, code, st);
    lemma_advance(m, code, st, st, code[st.pc]);
    let a = run(m, code[st.pc], st);
    assert(a.pc == s.code.len());
    lemma_advance(m, code, st, a, code[a.pc]);
    let b = run(m, code[a.pc], a);
    lemma_advance(m, code, st, b, code[b.pc]);
    run(m, code[b.pc], b)
}

/// The same, where the setup code does nothing but go to the body.
pub proof fn lemma_bare_body_reached(s: Asm, m: Values, st: State) -> (st2: State)
    requires
        grows(prologue(), s),
        s.err is None,
        gen_bare_epilogue(s).code.len() <= i32::MAX,
        st.pc == 0,
        !st.halted,
    ensures
        settles(s, gen_bare_epilogue(s)),
        reaches(m, gen_bare_epilogue(s).program().code, st, st2),
        st2 == (State { pc: 1, ..st }),
        neat(s),
{
    broadcast use group_settled;

    reveal(gen_bare_epilogue);
    reveal(run);
    let big = gen_bare_epilogue(s);
    let code = big.program().code;
    lemma_prologue();
    lemma_fresh_grows(prologue(), s);
    lemma_settles_self(big);
    assert(settles(s, big));
    lemma_grows_neat(prologue(), s);
    lemma_settles_early(prologue(), s, big);
    assert(code[0] == (InstView {
        opcode: Opcode::Init,
        p1: 0,
        p2: address_of(big.labels, setup_label()),
        p3: 0,
        p4: P4View::Unused,
        p5: 0,
    })) by {
        reveal(prologue);
        reveal(setup_label);
        lemma_neat_start();
        let s0 = Asm::start().label();
        assert(settles(s0.jump(Opcode::Init, 0, Asm::start().fresh(), 0), big));
        assert(neat(s0)) by {
            broadcast use group_neat;

        }
        assert(s0.code.len() == 0);
    }
    lemma_reaches_self(m, code, st);
    lemma_advance(m, code, st, st, code[st.pc]);
    let a = run(m, code[st.pc], st);
    assert(a.pc == s.code.len());
    lemma_advance(m, code, st, a, code[a.pc]);
    run(m, code[a.pc], a)
}

pub proof fn lemma_const_follows(s: Asm, n: i64)
    ensures
        follows(s, gen_const(s, n), 1),
        gen_const(s, n).err == s.err,
        gen_const(s, n).fresh() == s.fresh(),
        s.err is None && s.next_reg < i32::MAX ==> gen_const(s, n).next_reg == s.next_reg + 1,
{
    broadcast use group_grows;

    reveal(gen_const);
    reveal(Asm::take_regs);
}

/// A constant comes to stand in the register that was free.
pub proof fn lemma_const_code(s: Asm, n: i64, m: Values, big: Asm, st: State) -> (st2: State)
    requires
        settles(gen_const(s, n), big),
        neat(s),
        st.pc == s.code.len(),
        !st.halted,
        0 <= s.next_reg < i32::MAX,
    ensures
        reaches(m, big.program().code, st, st2),
        st2 == (State {
            pc: gen_const(s, n).code.len() as int,
            regs: st.regs.insert(s.next_reg, Val::Int(n)),
            ..st
        }),
        settles(s, big),
        neat(gen_const(s, n)),
        gen_const(s, n).next_reg == s.next_reg + 1,
{
    broadcast use group_settled;

    reveal(gen_const);
    reveal(run);
    assert(s.err is None) by {
        reveal(settles);
    }
    lemma_const_follows(s, n);
    let code = big.program().code;
    lemma_reaches_self(m, code, st);
    assert(settles(gen_int(s.take_regs(1), n, s.next_reg), big));
    lemma_advance(m, code, st, st, code[st.pc]);
    run(m, code[st.pc], st)
}

proof fn lemma_scan_grows(
    s: Asm,
    select: SelectStmtView,
    ctx: CtxView,
    cursor: i32,
    outputs: Seq<(ExprView, Seq<char>)>,
    limit: Option<i32>,
    offset: Option<i32>,
)
    ensures
        grows(s, gen_scan_unordered(s, select, ctx, cursor, outputs, limit, offset)),
{
    broadcast use {group_grows, filter_stuck, distinct_stuck};

    reveal(gen_scan_unordered);
    let u = gen_scan_unordered(s, select, ctx, cursor, outputs, limit, offset);
    if u.err is None {
        let ncol = outputs.len() as i32;
        let s0 = gen_open_distinct(s, select.distinct, 2, ncol);
        assert(grows(s, s0)) by {
            reveal(gen_open_distinct);
        }
        let end = s0.fresh();
        let s1 = s0.label().jump(Opcode::Rewind, cursor, end, 0);
        let next = s1.fresh();
        let s2 = s1.label();
        let s3 = gen_filter(s2, select.where_clause, next, ctx);
        lemma_filter_follows(s2, select.where_clause, next, ctx);
        lemma_grows_through(s, s2, s3);
        let s4 = s3.take_regs(ncol);
        let s5 = gen_expr_list(s4, exprs_of(outputs), s3.next_reg, ctx, 0);
        lemma_list_follows(s4, exprs_of(outputs), s3.next_reg, ctx, 0);
        lemma_grows_through(s, s4, s5);
        let s6 = gen_distinct(s5, select.distinct, 2, next, s3.next_reg, ncol);
        lemma_distinct_grows(s5, select.distinct, 2, next, s3.next_reg, ncol);
        lemma_grows_through(s, s5, s6);
        assert(s0.err is None) by {
            reveal(grows);
        }
        assert(s.fresh() <= end && end <= next) by {
            lemma_fresh_grows(s, s0);
        }
    }
}

/// The table before a program runs.
pub open spec fn table_open(st: State, t: TableView, cursor: i32) -> State {
    opened(st, cursor, t.rootpage as i32 as int, table_operand(t))
}

/// The program of a query that scans a table without sorting puts out exactly the output columns
/// of the rows for which the condition is true, each row once if they are to be distinct, behind
/// the first `offset` of them and up to the limit, and ends without an error.
#[verifier::rlimit(50)]
pub proof fn law_scan_program(
    select: SelectStmtView,
    t: TableView,
    outputs: Seq<(ExprView, Seq<char>)>,
    limit: Option<i64>,
    offset: i64,
    f: FunctionsView,
    m: Values,
    st: State,
) -> (st2: State)
    requires
        gen_scan(select, t, outputs, limit, offset, f).err is None,
        gen_scan(select, t, outputs, limit, offset, f).code.len() <= i32::MAX,
        select.order_by.len() == 0,
        narrow(t),
        t.rootpage <= i32::MAX,
        tame_condition(select.where_clause, 0),
        tame_from(exprs_of(outputs), 0, 0),
        3 + scan_weight(select.where_clause, exprs_of(outputs)) <= i32::MAX,
        limit matches Some(n) ==> n >= 0,
        storing_adds(m),
        ready_to_run(st),
    ensures
        reaches(m, gen_scan(select, t, outputs, limit, offset, f).program().code, st, st2),
        st2.halted,
        st2.error is None,
        exists|regs: Map<i32, Val>|
            st2.out == scanned(
                m,
                t,
                f,
                table_open(State { regs, ..st }, t, 0),
                0,
                select,
                exprs_of(outputs),
                limit_of(limit),
                skipped(offset),
            ),
{
    broadcast use {group_settled, group_grows};

    reveal(gen_scan);
    reveal(run);
    let big = gen_scan(select, t, outputs, limit, offset, f);
    let code = big.program().code;
    let lim = limit_of(limit);
    let off = skipped(offset);
    lemma_prologue();
    if limit == Some(0i64) {
        let s = prologue().emit(Opcode::Halt, 0, 0, 0);
        let a = lemma_body_reached(s, m, st);
        lemma_advance(m, code, st, a, code[a.pc]);
        let z = run(m, code[a.pc], a);
        let there = table_open(State { regs: st.regs, ..st }, t, 0);
        assert(scanned(m, t, f, there, 0, select, exprs_of(outputs), lim, off) =~= Seq::empty());
        assert(z.out =~= scanned(m, t, f, there, 0, select, exprs_of(outputs), lim, off));
        z
    } else {
        reveal(gen_limit);
        reveal(gen_offset);
        reveal(limit_reg);
        reveal(offset_reg);
        reveal(gen_open);
        let s0 = prologue();
        let s1 = gen_limit(s0, limit);
        let s2 = gen_offset(s1, offset);
        let s3 = gen_open(s2, Opcode::OpenRead, 0, t);
        let ctx = table_ctx(t, 0, f);
        let lr = limit_reg(s0, limit);
        let or = offset_reg(s1, offset);
        let s = gen_scan_unordered(s3, select, ctx, 0, outputs, lr, or);
        assert(big == gen_epilogue(s));
        assert(s.err is None) by {
            reveal(gen_epilogue);
        }
        if limit is Some {
            lemma_const_follows(s0, limit->0);
        }
        lemma_const_follows(s1, offset);
        lemma_scan_grows(s3, select, ctx, 0, outputs, lr, or);
        assert(grows(s0, s1));
        lemma_grows_through(s0, s1, s2);
        assert(grows(s0, s3));
        lemma_grows_through(s0, s3, s);
        let a = lemma_body_reached(s, m, st);
        lemma_settles_early(s3, s, big);
        assert(settles(s2, big));
        lemma_settles_early(s1, s2, big);
        let b = if limit is Some {
            let b = lemma_const_code(s0, limit->0, m, big, a);
            lemma_reaches_through(m, code, st, a, b);
            b
        } else {
            a
        };
        let c = if offset > 0 {
            let c = lemma_const_code(s1, offset, m, big, b);
            lemma_reaches_through(m, code, st, b, c);
            c
        } else {
            b
        };
        assert(neat(s2));
        lemma_advance(m, code, st, c, code[c.pc]);
        let d = run(m, code[c.pc], c);
        assert(s3.next_reg == s2.next_reg) by {
            reveal(Asm::note_cursor);
        }
        assert(d.regs == c.regs);
        let z = law_scan_code(s3, select, t, f, 0, outputs, lr, or, lim, off, m, big, d);
        lemma_reaches_through(m, code, st, d, z);
        let there = table_open(State { regs: c.regs, ..st }, t, 0);
        assert(d == State { pc: d.pc, ..there });
        lemma_scanned_anywhere(m, t, f, d, there, 0, select, exprs_of(outputs), lim, off);
        assert(z.out =~= scanned(m, t, f, there, 0, select, exprs_of(outputs), lim, off));
        z
    }
}

/// What a scan puts out does not depend on the address of the next instruction.
proof fn lemma_scanned_anywhere(
    m: Values,
    t: TableView,
    f: FunctionsView,
    a: State,
    b: State,
    cursor: i32,
    select: SelectStmtView,
    columns: Seq<ExprView>,
    limit: Option<int>,
    offset: int,
)
    requires
        cursor != 2,
        a == (State { pc: a.pc, ..b }),
    ensures
        scanned(m, t, f, a, cursor, select, columns, limit, offset) == scanned(
            m,
            t,
            f,
            b,
            cursor,
            select,
            columns,
            limit,
            offset,
        ),
{
    let y = Scanning {
        x: Scan {
            table: t,
            functions: f,
            cursor,
            distinct: select.distinct,
            condition: select.where_clause,
            columns,
            limit: None,
            offset: None,
            s0: Asm::start(),
            s1: Asm::start(),
            s2: Asm::start(),
            s3: Asm::start(),
            s4: Asm::start(),
            s5: Asm::start(),
            s6: Asm::start(),
            s7: Asm::start(),
            s8: Asm::start(),
            s9: Asm::start(),
            next: 0,
            end: 0,
            whole: Asm::start(),
        },
        m,
        big: Asm::start(),
        start: a,
        limit,
        offset,
    };
    lemma_picked_same(y, b, rows_of(b, cursor).len() as int);
}

/// A query over a table that scans it without sorting, compiled with all that it says, puts out
/// exactly the rows that it asks for: the output columns of the rows for which its `WHERE` clause
/// is true, each row once if it says `DISTINCT`, behind the rows that its `OFFSET` skips and up to
/// its `LIMIT`.
pub proof fn law_select_rows(
    select: SelectStmtView,
    t: TableView,
    indexes: Seq<IndexView>,
    sources: Seq<Result<SourceView, Seq<char>>>,
    f: FunctionsView,
    m: Values,
    st: State,
) -> (st2: State)
    requires
        select.compound.len() == 0,
        select.values.len() == 0,
        select.order_by.len() == 0,
        compiled(select, Some(t), indexes, sources, f) is Ok,
        compiled(select, Some(t), indexes, sources, f)->Ok_0.code.len() <= i32::MAX,
        expansion(select, Some(t)) is Ok ==> {
            let outputs = expansion(select, Some(t))->Ok_0;
            &&& !aggregates(select.group_by, outputs, f)
            &&& tame_from(exprs_of(outputs), 0, 0)
            &&& 3 + scan_weight(select.where_clause, exprs_of(outputs)) <= i32::MAX
        },
        !(chosen_plan(select, t, indexes, None, false) matches Ok(Some(_))),
        narrow(t),
        t.rootpage <= i32::MAX,
        tame_condition(select.where_clause, 0),
        storing_adds(m),
        ready_to_run(st),
    ensures
        reaches(m, compiled(select, Some(t), indexes, sources, f)->Ok_0.code, st, st2),
        st2.halted,
        st2.error is None,
        expansion(select, Some(t)) is Ok,
        limits(select.limit, select.offset) is Ok,
        ({
            let outputs = expansion(select, Some(t))->Ok_0;
            let (limit, offset) = limits(select.limit, select.offset)->Ok_0;
            exists|regs: Map<i32, Val>|
                st2.out == scanned(
                    m,
                    t,
                    f,
                    table_open(State { regs, ..st }, t, 0),
                    0,
                    select,
                    exprs_of(outputs),
                    limit_of(limit),
                    skipped(offset),
                )
        }),
{
    reveal(gen_select);
    reveal(gen_over_table);
    let s = gen_select(select, Some(t), indexes, f);
    assert(compiled(select, Some(t), indexes, sources, f) == outcome_of(s)) by {
        reveal_with_fuel(compiled_by, 2);
    }
    assert(s.err is None);
    assert forall|msg: Seq<char>| (#[trigger] Asm::start().fail(msg)).err is Some by {}
    let outputs = expansion(select, Some(t))->Ok_0;
    let (limit, offset) = limits(select.limit, select.offset)->Ok_0;
    assert(s == gen_scan(select, t, outputs, limit, offset, f));
    assert(s.program().code.len() == s.code.len()) by {
        reveal(Asm::program);
    }
    assert(limit matches Some(n) ==> n >= 0) by {
        reveal(limits);
    }
    law_scan_program(select, t, outputs, limit, offset, f, m, st)
}

/// A constant that a limit may be is worth what its expression is worth.
proof fn lemma_constant_is_value(e: ExprView, env: Env)
    requires
        regular(env.m),
        constant(e) is Some,
        constant(e) != Some(i64::MIN),
    ensures
        value(e, env) == Val::Int(constant(e)->0),
    decreases e,
{
    match e {
        ExprView::Unary { op, expr } => {
            lemma_constant_is_value(*expr, env);
        },
        _ => {},
    }
}

/// A `LIMIT` that is not negative lets that many rows through, and a negative one all; an `OFFSET`
/// that is not negative skips that many, and a negative one none.
pub proof fn law_limits_are_values(limit: Option<ExprView>, offset: Option<ExprView>, env: Env)
    requires
        regular(env.m),
        limit matches Some(e) ==> constant(e) != Some(i64::MIN),
        offset matches Some(e) ==> constant(e) != Some(i64::MIN),
    ensures
        limits(limit, offset) matches Ok((l, o)) ==> {
            &&& match limit {
                None => l is None,
                Some(e) => value(e, env) matches Val::Int(n) && l == (if n >= 0 {
                    Some(n)
                } else {
                    None
                }),
            }
            &&& match offset {
                None => o == 0,
                Some(e) => value(e, env) matches Val::Int(n) && o == (if n >= 0 {
                    n
                } else {
                    0
                }),
            }
        },
{
    reveal(limits);
    if limits(limit, offset) is Ok {
        if let Some(e) = limit {
            lemma_constant_is_value(e, env);
        }
        if let Some(e) = offset {
            lemma_constant_is_value(e, env);
        }
    }
}

} // verus!
