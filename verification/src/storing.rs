//! What storing a row does to a table and to its indexes.
use vstd::prelude::*;

use crate::ast::ExprView;
use crate::builder::{group_asm, reg_at, Asm};
use crate::delete::TABLE;
use crate::expr::gen_expr;
use crate::insert::{
    affinity_letter, alias_given, full_name, gen_column_value, gen_entries, gen_entry,
    gen_insert_row, gen_keyed_row, gen_keyed_value, gen_keyed_values, gen_new_key, gen_pk_copies,
    gen_pk_tests, gen_rest_copies, gen_row_values, gen_store, gen_value_rows, given_values, mapped,
    pk_message, pk_names, value_map, Origin,
};
use crate::machine::{
    block, group_grows, group_settled, grows, lemma_grows_neat, lemma_grows_through,
    lemma_reaches_self, lemma_reaches_through, lemma_settles_early, neat, nth, reaches, rows_of,
    run, settles, Row, State, Val, Values,
};
use crate::meaning::{
    agrees, follows, kept, law_expression_code, law_register_columns, law_table_columns,
    lemma_advance, lemma_column_in_table, lemma_expr_follows, lemma_fresh_grows, lemma_serves_on,
    narrow, register_row, serves, table_row, tame, value, weight, Env,
};
use crate::returning::row_ctx;
use crate::rows::{condition_weight, law_filter_code, lemma_filter_follows, tame_condition};
use crate::scan::{filter_stuck, gen_filter};
use crate::schema::{pk_from, plain_below, FunctionsView, IndexView, TableView};
use crate::scope::CtxView;
use crate::vdbe::{Affinity, Opcode, P4View, P5_NCHANGE, P5_UNIQUE};

verus! {

broadcast use group_asm;

// ---- The entry of a row in an index ----

/// The value of key field `k` of an index for a row: that of its expression, or of its column.
pub open spec fn key_field(ix: IndexView, t: TableView, row: Seq<Val>, env: Env, k: int) -> Val {
    match ix.columns[k].expr {
        Some(e) => value(e, env),
        None => row[t.column_index(ix.columns[k].name)->0 as int],
    }
}

/// The entry of a row: its key fields, then its rowid or, where there is none, its primary key.
pub open spec fn entry(
    ix: IndexView,
    t: TableView,
    row: Seq<Val>,
    rowid: Option<Val>,
    env: Env,
) -> Seq<Val> {
    Seq::new(ix.columns.len(), |k: int| key_field(ix, t, row, env, k)) + match rowid {
        Some(v) => seq![v],
        None => Seq::new(t.pk_columns.len(), |k: int| row[t.pk_columns[k].0 as int]),
    }
}

/// A bound on the registers that the key fields from the `k`-th on take.
pub open spec fn key_weight(ix: IndexView, k: int) -> nat
    decreases ix.columns.len() - k,
{
    if k < 0 || k >= ix.columns.len() {
        0
    } else {
        (match ix.columns[k].expr {
            Some(e) => weight(e),
            None => 0,
        }) + key_weight(ix, k + 1)
    }
}

/// A bound on the registers that the code of an entry takes.
pub open spec fn entry_weight(ix: IndexView, t: TableView) -> nat {
    condition_weight(ix.where_clause) + ix.columns.len() + t.pk_columns.len() + key_weight(ix, 0)
        + 2
}

/// Every key field of the index is an expression that is tame or a column of the table.
pub open spec fn sound_index(ix: IndexView, t: TableView, lo: int) -> bool {
    &&& tame_condition(ix.where_clause, lo)
    &&& forall|k: int|
        0 <= k < ix.columns.len() ==> match (#[trigger] ix.columns[k]).expr {
            Some(e) => tame(e, lo),
            None => t.column_index(ix.columns[k].name) is Some,
        }
}

/// The row that is stored is in the registers from `from` on, all of them below `lo`.
pub open spec fn row_at(t: TableView, from: i32, lo: i32) -> bool {
    &&& 0 < t.columns.len()
    &&& 0 <= from
    &&& from + t.columns.len() <= lo
    &&& t.rowid_alias matches Some(a) ==> a < t.columns.len()
    &&& forall|k: int|
        0 <= k < t.pk_columns.len() ==> (#[trigger] t.pk_columns[k]).0 < t.columns.len()
}

proof fn lemma_new_key_follows(
    s: Asm,
    ix: IndexView,
    t: TableView,
    from: i32,
    to: i32,
    f: FunctionsView,
    k: int,
)
    ensures
        follows(s, gen_new_key(s, ix, t, from, to, f, k), key_weight(ix, k)),
    decreases ix.columns.len() - k,
{
    broadcast use group_grows;

    if s.err is Some || k < 0 || k >= ix.columns.len() {
    } else {
        let s1 = match ix.columns[k].expr {
            Some(e) => gen_expr(s, e, reg_at(to, k), row_ctx(t, TABLE, from, f)),
            None => s.emit(
                Opcode::SCopy,
                reg_at(from, t.column_index(ix.columns[k].name)->0 as int),
                reg_at(to, k),
                0,
            ),
        };
        match ix.columns[k].expr {
            Some(e) => lemma_expr_follows(s, e, reg_at(to, k), row_ctx(t, TABLE, from, f)),
            None => {},
        }
        lemma_new_key_follows(s1, ix, t, from, to, f, k + 1);
        let u = gen_new_key(s1, ix, t, from, to, f, k + 1);
        lemma_grows_through(s, s1, u);
        if u.err is None {
            lemma_fresh_grows(s1, u);
        }
    }
}

proof fn lemma_pk_copies_follow(
    s: Asm,
    pk: Seq<(usize, bool)>,
    from: i32,
    to: i32,
    k: int,
)
    ensures
        follows(s, gen_pk_copies(s, pk, from, to, k), 0),
    decreases pk.len() - k,
{
    broadcast use group_grows;

    if s.err is Some || k < 0 || k >= pk.len() {
    } else {
        let s1 = s.emit(Opcode::SCopy, reg_at(from, pk[k].0 as int), reg_at(to, k), 0);
        lemma_pk_copies_follow(s1, pk, from, to, k + 1);
        let u = gen_pk_copies(s1, pk, from, to, k + 1);
        lemma_grows_through(s, s1, u);
    }
}

/// The key fields from the `k`-th on, each in its register after `to`.
proof fn lemma_new_key_code(
    s: Asm,
    ix: IndexView,
    t: TableView,
    from: i32,
    to: i32,
    f: FunctionsView,
    env: Env,
    big: Asm,
    lo: i32,
    st: State,
    k: int,
) -> (st2: State)
    requires
        settles(gen_new_key(s, ix, t, from, to, f, k), big),
        env.ctx == row_ctx(t, TABLE, from, f),
        neat(s),
        st.pc == s.code.len(),
        !st.halted,
        serves(env, big, lo, st),
        row_at(t, from, lo),
        sound_index(ix, t, lo as int),
        lo <= to,
        to + ix.columns.len() <= s.next_reg,
        s.next_reg + key_weight(ix, k) <= i32::MAX,
        0 <= k <= ix.columns.len(),
        forall|j: int|
            0 <= j < k ==> st.regs[#[trigger] nth(to, j)] == key_field(
                ix,
                t,
                block(st, from, t.columns.len() as int),
                env,
                j,
            ),
    ensures
        reaches(env.m, big.program().code, st, st2),
        st2.pc == gen_new_key(s, ix, t, from, to, f, k).code.len(),
        agrees(st, st2, to),
        neat(gen_new_key(s, ix, t, from, to, f, k)),
        s.next_reg <= gen_new_key(s, ix, t, from, to, f, k).next_reg <= s.next_reg + key_weight(
            ix,
            k,
        ),
        settles(s, big),
        forall|j: int|
            0 <= j < ix.columns.len() ==> st2.regs[#[trigger] nth(to, j)] == key_field(
                ix,
                t,
                block(st, from, t.columns.len() as int),
                env,
                j,
            ),
    decreases ix.columns.len() - k,
{
    broadcast use group_settled;

    let m = env.m;
    let code = big.program().code;
    let u = gen_new_key(s, ix, t, from, to, f, k);
    assert(u.err is None) by {
        reveal(settles);
    }
    lemma_new_key_follows(s, ix, t, from, to, f, k);
    lemma_grows_neat(s, u);
    lemma_settles_early(s, u, big);
    lemma_reaches_self(m, code, st);
    if k >= ix.columns.len() {
        st
    } else {
        let r = reg_at(to, k);
        let row = block(st, from, t.columns.len() as int);
        assert(r == nth(to, k));
        let ic = ix.columns[k];
        let s1 = match ic.expr {
            Some(e) => gen_expr(s, e, r, env.ctx),
            None => s.emit(Opcode::SCopy, reg_at(from, t.column_index(ic.name)->0 as int), r, 0),
        };
        let rest = gen_new_key(s1, ix, t, from, to, f, k + 1);
        lemma_new_key_follows(s1, ix, t, from, to, f, k + 1);
        lemma_settles_early(s1, rest, big);
        let a = match ic.expr {
            Some(e) => {
                lemma_expr_follows(s, e, r, env.ctx);
                lemma_grows_neat(s, s1);
                law_expression_code(s, e, r, env, big, lo, st)
            },
            None => {
                reveal(run);
                lemma_column_in_table(t, ic.name);
                let c = t.column_index(ic.name)->0;
                assert(reg_at(from, c as int) == nth(from, c as int));
                assert(row[c as int] == st.regs[nth(from, c as int)]);
                lemma_advance(m, code, st, st, code[st.pc]);
                run(m, code[st.pc], st)
            },
        };
        lemma_serves_on(env, big, lo, st, a);
        assert(block(a, from, t.columns.len() as int) =~= row);
        assert forall|j: int| 0 <= j < k + 1 implies a.regs[#[trigger] nth(to, j)] == key_field(
            ix,
            t,
            row,
            env,
            j,
        ) by {
            if j < k {
                assert(st.regs[nth(to, j)] == key_field(ix, t, row, env, j));
            }
        }
        let b = lemma_new_key_code(s1, ix, t, from, to, f, env, big, lo, a, k + 1);
        lemma_reaches_through(m, code, st, a, b);
        b
    }
}

/// The primary-key columns from the `k`-th on, each in its register after `to`.
proof fn lemma_pk_copies_code(
    s: Asm,
    t: TableView,
    from: i32,
    to: i32,
    m: Values,
    big: Asm,
    lo: i32,
    st: State,
    k: int,
) -> (st2: State)
    requires
        settles(gen_pk_copies(s, t.pk_columns, from, to, k), big),
        neat(s),
        st.pc == s.code.len(),
        !st.halted,
        row_at(t, from, lo),
        lo <= to,
        to + t.pk_columns.len() <= i32::MAX,
        0 <= k <= t.pk_columns.len(),
        forall|j: int|
            0 <= j < k ==> st.regs[#[trigger] nth(to, j)] == st.regs[nth(
                from,
                t.pk_columns[j].0 as int,
            )],
    ensures
        reaches(m, big.program().code, st, st2),
        st2.pc == gen_pk_copies(s, t.pk_columns, from, to, k).code.len(),
        agrees(st, st2, to),
        neat(gen_pk_copies(s, t.pk_columns, from, to, k)),
        settles(s, big),
        gen_pk_copies(s, t.pk_columns, from, to, k).next_reg == s.next_reg,
        forall|j: int|
            0 <= j < t.pk_columns.len() ==> st2.regs[#[trigger] nth(to, j)] == st.regs[nth(
                from,
                t.pk_columns[j].0 as int,
            )],
    decreases t.pk_columns.len() - k,
{
    broadcast use group_settled;

    reveal(run);
    let code = big.program().code;
    let u = gen_pk_copies(s, t.pk_columns, from, to, k);
    assert(u.err is None) by {
        reveal(settles);
    }
    lemma_pk_copies_follow(s, t.pk_columns, from, to, k);
    lemma_grows_neat(s, u);
    lemma_settles_early(s, u, big);
    lemma_reaches_self(m, code, st);
    if k >= t.pk_columns.len() {
        st
    } else {
        let c = t.pk_columns[k].0 as int;
        let s1 = s.emit(Opcode::SCopy, reg_at(from, c), reg_at(to, k), 0);
        assert(reg_at(to, k) == nth(to, k) && reg_at(from, c) == nth(from, c));
        lemma_pk_copies_follow(s1, t.pk_columns, from, to, k + 1);
        lemma_settles_early(s1, gen_pk_copies(s1, t.pk_columns, from, to, k + 1), big);
        lemma_advance(m, code, st, st, code[st.pc]);
        let a = run(m, code[st.pc], st);
        assert forall|j: int| 0 <= j < k + 1 implies a.regs[#[trigger] nth(to, j)] == a.regs[nth(
            from,
            t.pk_columns[j].0 as int,
        )] by {
            assert(t.pk_columns[j].0 < t.columns.len());
            if j < k {
                assert(st.regs[nth(to, j)] == st.regs[nth(from, t.pk_columns[j].0 as int)]);
            }
        }
        let b = lemma_pk_copies_code(s1, t, from, to, m, big, lo, a, k + 1);
        assert forall|j: int| 0 <= j < t.pk_columns.len() implies b.regs[#[trigger] nth(to, j)]
            == st.regs[nth(from, t.pk_columns[j].0 as int)] by {
            assert(t.pk_columns[j].0 < t.columns.len());
            assert(b.regs[nth(to, j)] == a.regs[nth(from, t.pk_columns[j].0 as int)]);
        }
        lemma_reaches_through(m, code, st, a, b);
        b
    }
}

/// The message about a duplicate key that the machine gives.
pub open spec fn duplicate_message(ix: IndexView, t: TableView) -> Seq<char> {
    match ix.unique_message(t) {
        Some(msg) => msg,
        None => Seq::empty(),
    }
}

/// What adding the entry of a row to an index comes to. Nothing changes if the index is partial
/// and does not hold the row. A unique index that has the key already ends the program with an
/// error; an index that is not unique never does. Else the index has the entry.
pub open spec fn entry_added(
    m: Values,
    ix: IndexView,
    t: TableView,
    cursor: i32,
    row: Seq<Val>,
    rowid: Option<Val>,
    env: Env,
    st: State,
    st2: State,
) -> bool {
    let key = entry(ix, t, row, rowid, env);
    if !kept(ix.where_clause, env) {
        st2.trees == st.trees && !st2.halted && st2.error == st.error
    } else if ix.unique && (m.clashes)(rows_of(st, cursor), key) {
        st2.trees == st.trees && st2.halted && st2.error == Some(duplicate_message(ix, t))
    } else {
        st2.trees == st.trees.insert(
            st.cursors[cursor].root,
            (m.store)(rows_of(st, cursor), Row { rowid: 0, fields: key }),
        ) && !st2.halted && st2.error == st.error
    }
}

/// The code that adds the entry of a row to an index, run from its start, adds exactly the entry
/// of the row, if the index holds the row. It refuses the entry if and only if the index is unique
/// and has the key already.
#[verifier::rlimit(50)]
pub proof fn law_entry_code(
    s: Asm,
    ix: IndexView,
    t: TableView,
    cursor: i32,
    from: i32,
    rowid: Option<i32>,
    f: FunctionsView,
    m: Values,
    big: Asm,
    lo: i32,
    st: State,
) -> (st2: State)
    requires
        settles(gen_entry(s, ix, t, cursor, from, rowid, f), big),
        neat(s),
        st.pc == s.code.len(),
        !st.halted,
        row_at(t, from, lo),
        sound_index(ix, t, lo as int),
        rowid matches Some(r) ==> r < lo,
        lo <= s.next_reg,
        s.next_reg + entry_weight(ix, t) <= i32::MAX,
    ensures
        reaches(m, big.program().code, st, st2),
        entry_added(
            m,
            ix,
            t,
            cursor,
            block(st, from, t.columns.len() as int),
            match rowid {
                Some(r) => Some(st.regs[r]),
                None => None,
            },
            register_row(m, t, f, st, TABLE, from),
            st,
            st2,
        ),
        !st2.halted ==> st2.pc == gen_entry(s, ix, t, cursor, from, rowid, f).code.len(),
        st2.cursors == st.cursors,
        st2.out == st.out,
        forall|r: i32| r < s.next_reg ==> #[trigger] st2.regs[r] == st.regs[r],
{
    broadcast use {group_settled, group_grows};

    reveal(gen_entry);
    let code = big.program().code;
    let env = register_row(m, t, f, st, TABLE, from);
    let ctx = env.ctx;
    let row = block(st, from, t.columns.len() as int);
    let u = gen_entry(s, ix, t, cursor, from, rowid, f);
    assert(u.err is None) by {
        reveal(settles);
    }
    let n = ix.columns.len() as i32;
    let nkey = match rowid {
        Some(_) => n.wrapping_add(1),
        None => n.wrapping_add(t.pk_columns.len() as i32),
    };
    let skip = s.fresh();
    let s0 = s.label();
    let s1 = gen_filter(s0, ix.where_clause, skip, ctx);
    let key = s1.next_reg;
    let s2 = s1.take_regs(nkey);
    let s3 = gen_new_key(s2, ix, t, from, key, f, 0);
    let s4 = match rowid {
        Some(r) => s3.emit(Opcode::SCopy, r, key.wrapping_add(n), 0),
        None => gen_pk_copies(s3, t.pk_columns, from, key.wrapping_add(n), 0),
    };
    let rec = s4.next_reg;
    let s5 = s4.take_regs(1).emit(Opcode::MakeRecord, key, nkey, rec);
    let s6 = s5.emit_p45(
        Opcode::IdxInsert,
        cursor,
        rec,
        0,
        crate::insert::entry_operand(ix, t),
        crate::insert::entry_flags(ix.unique),
    );
    // What is laid out where.
    lemma_filter_follows(s0, ix.where_clause, skip, ctx);
    lemma_new_key_follows(s2, ix, t, from, key, f, 0);
    lemma_pk_copies_follow(s3, t.pk_columns, from, key.wrapping_add(n), 0);
    assert(grows(s2, s3));
    assert(grows(s3, s4));
    lemma_grows_through(s2, s3, s4);
    assert(s6.err is None && s4.err is None && s3.err is None && s1.err is None);
    lemma_fresh_grows(s2, s4);
    lemma_fresh_grows(s0, s1);
    assert(!s0.bound(skip) && !s2.bound(skip) && !s6.bound(skip));
    assert(settles(s6, big));
    assert(settles(s5, big));
    assert(settles(s4, big));
    lemma_settles_early(s3, s4, big);
    lemma_settles_early(s2, s3, big);
    assert(settles(s1, big));
    law_register_columns(m, t, f, TABLE, from, big, lo, st);
    assert(s0.next_reg == s.next_reg);
    assert(neat(s0)) by {
        lemma_settles_early(s0, s1, big);
    }
    let a = law_filter_code(s0, ix.where_clause, skip, env, big, lo, st);
    if !kept(ix.where_clause, env) {
        a
    } else {
        reveal(run);
        assert(s2.next_reg == key + nkey) by {
            reveal(Asm::take_regs);
        }
        let b = lemma_new_key_code(s2, ix, t, from, key, f, env, big, lo, a, 0);
        lemma_reaches_through(m, code, st, a, b);
        assert(block(a, from, t.columns.len() as int) =~= row);
        let c = match rowid {
            Some(r) => {
                lemma_advance(m, code, st, b, code[b.pc]);
                run(m, code[b.pc], b)
            },
            None => {
                let c = lemma_pk_copies_code(
                    s3,
                    t,
                    from,
                    (key + n) as i32,
                    m,
                    big,
                    lo,
                    b,
                    0,
                );
                lemma_reaches_through(m, code, st, b, c);
                c
            },
        };
        let rowid_value = match rowid {
            Some(r) => Some(st.regs[r]),
            None => None,
        };
        let fields = entry(ix, t, row, rowid_value, env);
        assert(block(c, key, nkey as int) =~= fields) by {
            assert forall|j: int| 0 <= j < nkey implies c.regs[#[trigger] nth(key, j)]
                == fields[j] by {
                if j < n {
                    assert(b.regs[nth(key, j)] == key_field(ix, t, row, env, j));
                } else {
                    match rowid {
                        Some(r) => {},
                        None => {
                            let i = j - n;
                            assert(nth(key, j) == nth((key + n) as i32, i));
                            assert(t.pk_columns[i].0 < t.columns.len());
                            assert(b.regs[nth(from, t.pk_columns[i].0 as int)] == st.regs[nth(
                                from,
                                t.pk_columns[i].0 as int,
                            )]);
                        },
                    }
                }
            }
        }
        lemma_advance(m, code, st, c, code[c.pc]);
        let d = run(m, code[c.pc], c);
        lemma_advance(m, code, st, d, code[d.pc]);
        assert((P5_NCHANGE | P5_UNIQUE) & P5_UNIQUE != 0 && P5_NCHANGE & P5_UNIQUE == 0) by {
            assert((0x01u8 | 0x02u8) & 0x02u8 != 0 && 0x01u8 & 0x02u8 == 0) by (bit_vector);
        }
        run(m, code[d.pc], d)
    }
}

// ---- The entries of a row in all indexes ----

/// A bound on the registers that the code of the entries from the `k`-th index on takes.
pub open spec fn entries_weight(ixs: Seq<IndexView>, t: TableView, k: int) -> nat
    decreases ixs.len() - k,
{
    if k < 0 || k >= ixs.len() {
        0
    } else {
        entry_weight(ixs[k], t) + entries_weight(ixs, t, k + 1)
    }
}

/// What adding the entry of the row in the registers from `from` on to one index comes to.
pub open spec fn index_served(
    m: Values,
    ix: IndexView,
    t: TableView,
    cursor: i32,
    from: i32,
    rowid: Option<i32>,
    f: FunctionsView,
    lo: i32,
    st: State,
    st2: State,
) -> bool {
    &&& entry_added(
        m,
        ix,
        t,
        cursor,
        block(st, from, t.columns.len() as int),
        match rowid {
            Some(r) => Some(st.regs[r]),
            None => None,
        },
        register_row(m, t, f, st, TABLE, from),
        st,
        st2,
    )
    &&& st2.cursors == st.cursors
    &&& st2.out == st.out
    &&& forall|r: i32| r < lo ==> #[trigger] st2.regs[r] == st.regs[r]
}

/// The indexes from the `k`-th on, the first of them on cursor 1, are served one after the other,
/// until one of them refuses the row.
pub open spec fn indexes_served(
    m: Values,
    ixs: Seq<IndexView>,
    t: TableView,
    from: i32,
    rowid: Option<i32>,
    f: FunctionsView,
    lo: i32,
    st: State,
    st2: State,
    k: int,
) -> bool
    decreases ixs.len() - k,
{
    if st.halted || k < 0 || k >= ixs.len() {
        &&& st2.trees == st.trees
        &&& st2.halted == st.halted
        &&& st2.error == st.error
        &&& st2.cursors == st.cursors
        &&& st2.out == st.out
        &&& forall|r: i32| r < lo ==> #[trigger] st2.regs[r] == st.regs[r]
    } else {
        exists|mid: State|
            #[trigger] index_served(m, ixs[k], t, nth(1, k), from, rowid, f, lo, st, mid)
                && indexes_served(m, ixs, t, from, rowid, f, lo, mid, st2, k + 1)
    }
}

pub proof fn lemma_entry_follows(
    s: Asm,
    ix: IndexView,
    t: TableView,
    cursor: i32,
    from: i32,
    rowid: Option<i32>,
    f: FunctionsView,
)
    ensures
        follows(s, gen_entry(s, ix, t, cursor, from, rowid, f), entry_weight(ix, t)),
{
    broadcast use {group_grows, filter_stuck};

    reveal(gen_entry);
    if s.err is None {
        let ctx = row_ctx(t, TABLE, from, f);
        let n = ix.columns.len() as i32;
        let nkey = match rowid {
            Some(_) => n.wrapping_add(1),
            None => n.wrapping_add(t.pk_columns.len() as i32),
        };
        let skip = s.fresh();
        let s0 = s.label();
        let s1 = gen_filter(s0, ix.where_clause, skip, ctx);
        let key = s1.next_reg;
        let s2 = s1.take_regs(nkey);
        let s3 = gen_new_key(s2, ix, t, from, key, f, 0);
        let s4 = match rowid {
            Some(r) => s3.emit(Opcode::SCopy, r, key.wrapping_add(n), 0),
            None => gen_pk_copies(s3, t.pk_columns, from, key.wrapping_add(n), 0),
        };
        let u = gen_entry(s, ix, t, cursor, from, rowid, f);
        lemma_filter_follows(s0, ix.where_clause, skip, ctx);
        lemma_new_key_follows(s2, ix, t, from, key, f, 0);
        lemma_pk_copies_follow(s3, t.pk_columns, from, key.wrapping_add(n), 0);
        lemma_grows_through(s, s0, s1);
        lemma_grows_through(s, s2, s3);
        lemma_grows_through(s, s3, s4);
        assert(grows(s, u));
        if u.err is None {
            assert(s4.err is None && s3.err is None && s2.err is None && s1.err is None) by {
                reveal(grows);
            }
            lemma_fresh_grows(s2, s3);
            if 0 <= s.next_reg && s.next_reg + entry_weight(ix, t) <= i32::MAX {
                reveal(Asm::take_regs);
                assert(s0.next_reg == s.next_reg);
                assert(s.next_reg <= s1.next_reg <= s.next_reg + condition_weight(
                    ix.where_clause,
                ));
                assert(s2.next_reg == s1.next_reg + nkey);
                assert(s2.next_reg <= s3.next_reg <= s2.next_reg + key_weight(ix, 0));
                assert(s4.next_reg == s3.next_reg);
                assert(u.next_reg == s4.next_reg + 1);
            }
        }
    }
}

pub proof fn lemma_entries_follow(
    s: Asm,
    ixs: Seq<IndexView>,
    t: TableView,
    from: i32,
    rowid: Option<i32>,
    f: FunctionsView,
    k: int,
)
    ensures
        follows(s, gen_entries(s, ixs, t, from, rowid, f, k), entries_weight(ixs, t, k)),
    decreases ixs.len() - k,
{
    broadcast use group_grows;

    if s.err is Some || k < 0 || k >= ixs.len() {
    } else {
        let s1 = gen_entry(s, ixs[k], t, reg_at(1, k), from, rowid, f);
        let u = gen_entries(s1, ixs, t, from, rowid, f, k + 1);
        lemma_entry_follows(s, ixs[k], t, reg_at(1, k), from, rowid, f);
        lemma_entries_follow(s1, ixs, t, from, rowid, f, k + 1);
        lemma_grows_through(s, s1, u);
        if u.err is None {
            lemma_fresh_grows(s1, u);
        }
    }
}

/// The code that adds the entries of a row to the indexes, run from its start, serves each of
/// them in turn.
pub proof fn law_entries_code(
    s: Asm,
    ixs: Seq<IndexView>,
    t: TableView,
    from: i32,
    rowid: Option<i32>,
    f: FunctionsView,
    m: Values,
    big: Asm,
    lo: i32,
    st: State,
    k: int,
) -> (st2: State)
    requires
        settles(gen_entries(s, ixs, t, from, rowid, f, k), big),
        neat(s),
        st.pc == s.code.len(),
        !st.halted,
        row_at(t, from, lo),
        forall|j: int| 0 <= j < ixs.len() ==> sound_index(#[trigger] ixs[j], t, lo as int),
        rowid matches Some(r) ==> r < lo,
        lo <= s.next_reg,
        s.next_reg + entries_weight(ixs, t, k) <= i32::MAX,
        0 <= k <= ixs.len() < i32::MAX,
    ensures
        reaches(m, big.program().code, st, st2),
        indexes_served(m, ixs, t, from, rowid, f, lo, st, st2, k),
        !st2.halted ==> st2.pc == gen_entries(s, ixs, t, from, rowid, f, k).code.len(),
    decreases ixs.len() - k,
{
    let code = big.program().code;
    let u = gen_entries(s, ixs, t, from, rowid, f, k);
    assert(u.err is None) by {
        reveal(settles);
    }
    lemma_reaches_self(m, code, st);
    lemma_entries_follow(s, ixs, t, from, rowid, f, k);
    lemma_fresh_grows(s, u);
    if k >= ixs.len() {
        st
    } else {
        let s1 = gen_entry(s, ixs[k], t, reg_at(1, k), from, rowid, f);
        assert(reg_at(1, k) == nth(1, k));
        lemma_entry_follows(s, ixs[k], t, reg_at(1, k), from, rowid, f);
        lemma_entries_follow(s1, ixs, t, from, rowid, f, k + 1);
        lemma_settles_early(s1, u, big);
        lemma_grows_neat(s, s1);
        let a = law_entry_code(s, ixs[k], t, reg_at(1, k), from, rowid, f, m, big, lo, st);
        assert(index_served(m, ixs[k], t, nth(1, k), from, rowid, f, lo, st, a));
        if a.halted {
            assert(indexes_served(m, ixs, t, from, rowid, f, lo, a, a, k + 1));
            a
        } else {
            let b = law_entries_code(s1, ixs, t, from, rowid, f, m, big, lo, a, k + 1);
            lemma_reaches_through(m, code, st, a, b);
            b
        }
    }
}

/// The code that stores a row, run from its start, adds the row to the table under its rowid and
/// then serves the indexes with it.
pub proof fn law_store_code(
    s: Asm,
    t: TableView,
    ixs: Seq<IndexView>,
    row: i32,
    rowid: i32,
    f: FunctionsView,
    m: Values,
    big: Asm,
    lo: i32,
    st: State,
) -> (st2: State)
    requires
        settles(gen_store(s, t, ixs, row, rowid, f), big),
        neat(s),
        st.pc == s.code.len(),
        !st.halted,
        row_at(t, row, lo),
        forall|j: int| 0 <= j < ixs.len() ==> sound_index(#[trigger] ixs[j], t, lo as int),
        rowid < lo <= s.next_reg,
        s.next_reg + 1 + entries_weight(ixs, t, 0) <= i32::MAX,
        ixs.len() < i32::MAX,
        st.regs[rowid] is Int,
    ensures
        reaches(m, big.program().code, st, st2),
        ({
            let stored = Row {
                rowid: st.regs[rowid]->Int_0,
                fields: block(st, row, t.columns.len() as int),
            };
            exists|mid: State|
                {
                    &&& mid.trees == st.trees.insert(
                        st.cursors[TABLE].root,
                        (m.store)(rows_of(st, TABLE), stored),
                    )
                    &&& mid.cursors == st.cursors
                    &&& mid.out == st.out
                    &&& !mid.halted
                    &&& mid.error == st.error
                    &&& forall|r: i32| r < lo ==> #[trigger] mid.regs[r] == st.regs[r]
                    &&& #[trigger] indexes_served(m, ixs, t, row, Some(rowid), f, lo, mid, st2, 0)
                }
        }),
        !st2.halted ==> st2.pc == gen_store(s, t, ixs, row, rowid, f).code.len(),
{
    broadcast use {group_settled, group_grows};

    reveal(gen_store);
    reveal(run);
    let code = big.program().code;
    let u = gen_store(s, t, ixs, row, rowid, f);
    assert(u.err is None) by {
        reveal(settles);
    }
    let n = t.columns.len() as i32;
    let rec = s.next_reg;
    let s1 = s.take_regs(1).emit(Opcode::MakeRecord, row, n, rec);
    let s2 = s1.emit(Opcode::Insert, TABLE, rec, rowid);
    lemma_entries_follow(s2, ixs, t, row, Some(rowid), f, 0);
    lemma_settles_early(s2, u, big);
    assert(settles(s1, big));
    assert(s2.next_reg == s.next_reg + 1) by {
        reveal(Asm::take_regs);
    }
    lemma_reaches_self(m, code, st);
    lemma_advance(m, code, st, st, code[st.pc]);
    let a = run(m, code[st.pc], st);
    lemma_advance(m, code, st, a, code[a.pc]);
    let mid = run(m, code[a.pc], a);
    let c = law_entries_code(s2, ixs, t, row, Some(rowid), f, m, big, lo, mid, 0);
    lemma_reaches_through(m, code, st, mid, c);
    assert(indexes_served(m, ixs, t, row, Some(rowid), f, lo, mid, c, 0));
    c
}

// ---- The values of a row ----

/// Which value goes where: a column that is listed gets the value in the place of its last
/// listing, and a column that is not listed gets none. Without a list each column gets the value
/// in its own place.
pub proof fn law_values_go_to_their_columns(columns: Seq<Seq<char>>, t: TableView, i: int)
    requires
        0 <= i < t.columns.len() <= usize::MAX,
        columns.len() <= usize::MAX,
    ensures
        value_map(columns, t) matches Ok(map) ==> {
            &&& map.len() == t.columns.len()
            &&& columns.len() == 0 ==> map[i] == Some(i as usize)
            &&& columns.len() > 0 ==> match map[i] {
                Some(v) => v < columns.len() && t.column_index(columns[v as int]) == Some(
                    i as usize,
                ) && forall|w: int|
                    v < w < columns.len() ==> t.column_index(#[trigger] columns[w]) != Some(
                        i as usize,
                    ),
                None => forall|w: int|
                    0 <= w < columns.len() ==> t.column_index(#[trigger] columns[w]) != Some(
                        i as usize,
                    ),
            }
        },
{
    if columns.len() > 0 {
        lemma_mapped(columns, t, i, columns.len() as int);
    }
}

proof fn lemma_mapped(columns: Seq<Seq<char>>, t: TableView, i: int, n: int)
    requires
        0 <= i < t.columns.len(),
        0 <= n <= columns.len() <= usize::MAX,
        t.columns.len() <= usize::MAX,
    ensures
        mapped(columns, t, n) matches Ok(map) ==> {
            &&& map.len() == t.columns.len()
            &&& match map[i] {
                Some(v) => v < n && t.column_index(columns[v as int]) == Some(i as usize)
                    && forall|w: int|
                    v < w < n ==> t.column_index(#[trigger] columns[w]) != Some(i as usize),
                None => forall|w: int|
                    0 <= w < n ==> t.column_index(#[trigger] columns[w]) != Some(i as usize),
            }
        },
    decreases n,
{
    if n > 0 {
        lemma_mapped(columns, t, i, n - 1);
        lemma_column_in_table(t, columns[n - 1]);
    }
}

/// A value with an affinity applied; that of a blob changes nothing.
pub open spec fn typed(m: Values, v: Val, a: Affinity) -> Val {
    if a == Affinity::Blob {
        v
    } else {
        (m.cast)(v, affinity_letter(a))
    }
}

/// What is stored for column `k` of a new row: its value with the affinity of the column, NULL if
/// there is none. The rowid takes the value of the column that is its alias, and NULL is stored.
pub open spec fn stored_field(
    m: Values,
    t: TableView,
    origins: Seq<Origin>,
    env: Env,
    st: State,
    k: int,
) -> Val {
    if t.rowid_alias == Some(k as usize) {
        Val::Null
    } else {
        match origins[k] {
            Origin::Given(e) => typed(m, value(e, env), t.columns[k].affinity),
            Origin::Copied(r) => typed(m, st.regs[r], t.columns[k].affinity),
            _ => Val::Null,
        }
    }
}

/// The rowid that a new row gives, if it gives one.
pub open spec fn given_rowid(
    m: Values,
    t: TableView,
    origins: Seq<Origin>,
    env: Env,
    st: State,
) -> Option<Val> {
    match t.rowid_alias {
        Some(a) => if a < origins.len() {
            match origins[a as int] {
                Origin::Given(e) => Some(typed(m, value(e, env), Affinity::Integer)),
                Origin::Copied(r) => Some(typed(m, st.regs[r], Affinity::Integer)),
                Origin::Unset => Some(Val::Null),
                Origin::Absent => None,
            }
        } else {
            None
        },
        None => None,
    }
}

/// A bound on the registers that the values from the `k`-th on take.
pub open spec fn origins_weight(origins: Seq<Origin>, k: int) -> nat
    decreases origins.len() - k,
{
    if k < 0 || k >= origins.len() {
        0
    } else {
        (match origins[k] {
            Origin::Given(e) => weight(e),
            _ => 0,
        }) + origins_weight(origins, k + 1)
    }
}

/// The values of a new row are tame, and those that come from registers come from below `lo`.
pub open spec fn sound_origins(origins: Seq<Origin>, lo: i32) -> bool {
    forall|k: int|
        0 <= k < origins.len() ==> match #[trigger] origins[k] {
            Origin::Given(e) => tame(e, 0),
            Origin::Copied(r) => r < lo,
            _ => true,
        }
}

proof fn lemma_value_follows(
    s: Asm,
    t: TableView,
    k: int,
    origin: Origin,
    row: i32,
    rowid: i32,
    ctx: CtxView,
)
    ensures
        follows(
            s,
            gen_column_value(s, t, k, origin, row, rowid, ctx),
            match origin {
                Origin::Given(e) => weight(e),
                _ => 0,
            },
        ),
{
    broadcast use group_grows;

    reveal(gen_column_value);
    let to = if t.rowid_alias == Some(k as usize) {
        rowid
    } else {
        reg_at(row, k)
    };
    match origin {
        Origin::Given(e) => lemma_expr_follows(s, e, to, ctx),
        _ => {},
    }
}

proof fn lemma_values_follow(
    s: Asm,
    t: TableView,
    origins: Seq<Origin>,
    row: i32,
    rowid: i32,
    ctx: CtxView,
    k: int,
)
    ensures
        follows(
            s,
            gen_row_values(s, t, origins, row, rowid, ctx, k),
            origins_weight(origins, k),
        ),
    decreases origins.len() - k,
{
    broadcast use group_grows;

    if s.err is Some || k < 0 || k >= origins.len() {
    } else {
        let s1 = gen_column_value(s, t, k, origins[k], row, rowid, ctx);
        let u = gen_row_values(s1, t, origins, row, rowid, ctx, k + 1);
        lemma_value_follows(s, t, k, origins[k], row, rowid, ctx);
        lemma_values_follow(s1, t, origins, row, rowid, ctx, k + 1);
        lemma_grows_through(s, s1, u);
        if u.err is None {
            lemma_fresh_grows(s1, u);
        }
    }
}

/// The code of the value of one column brings it into its register.
#[verifier::rlimit(50)]
proof fn lemma_value_code(
    s: Asm,
    t: TableView,
    origins: Seq<Origin>,
    k: int,
    row: i32,
    rowid: i32,
    env: Env,
    big: Asm,
    start: State,
    st: State,
) -> (st2: State)
    requires
        settles(gen_column_value(s, t, k, origins[k], row, rowid, env.ctx), big),
        neat(s),
        st.pc == s.code.len(),
        !st.halted,
        serves(env, big, 0, st),
        sound_origins(origins, row),
        0 <= k < origins.len(),
        origins.len() == t.columns.len(),
        0 <= row,
        rowid == row + t.columns.len(),
        rowid < s.next_reg,
        s.next_reg + origins_weight(origins, k) <= i32::MAX,
        t.columns.len() <= usize::MAX,
        forall|r: i32| r < row ==> #[trigger] st.regs[r] == start.regs[r],
    ensures
        reaches(env.m, big.program().code, st, st2),
        st2.pc == gen_column_value(s, t, k, origins[k], row, rowid, env.ctx).code.len(),
        st2 == (State { pc: st2.pc, regs: st2.regs, ..st }),
        neat(gen_column_value(s, t, k, origins[k], row, rowid, env.ctx)),
        st2.regs[nth(row, k)] == stored_field(env.m, t, origins, env, start, k),
        t.rowid_alias == Some(k as usize) && !(origins[k] is Absent) ==> Some(st2.regs[rowid])
            == given_rowid(env.m, t, origins, env, start),
        t.rowid_alias != Some(k as usize) ==> st2.regs[rowid] == st.regs[rowid],
        forall|r: i32|
            r < rowid && r != nth(row, k) ==> #[trigger] st2.regs[r] == st.regs[r],
{
    broadcast use group_settled;

    reveal(gen_column_value);
    reveal(run);
    let m = env.m;
    let code = big.program().code;
    let target = reg_at(row, k);
    assert(target == nth(row, k));
    let alias = t.rowid_alias == Some(k as usize);
    let to = if alias {
        rowid
    } else {
        target
    };
    let a = if alias {
        Affinity::Integer
    } else {
        t.columns[k].affinity
    };
    lemma_value_follows(s, t, k, origins[k], row, rowid, env.ctx);
    let u = gen_column_value(s, t, k, origins[k], row, rowid, env.ctx);
    assert(u.err is None) by {
        reveal(settles);
    }
    lemma_grows_neat(s, u);
    lemma_reaches_self(m, code, st);
    let s1 = match origins[k] {
        Origin::Given(e) => gen_expr(s, e, to, env.ctx),
        Origin::Copied(r) => s.emit(Opcode::SCopy, r, to, 0),
        _ => s,
    };
    let s2 = crate::insert::gen_affinity(s1, to, a);
    match origins[k] {
        Origin::Given(e) => {
            lemma_expr_follows(s, e, to, env.ctx);
            assert(settles(s2, big));
            assert(settles(s1, big));
            assert(s1.err is None) by {
                reveal(settles);
            }
            lemma_grows_neat(s, s1);
            let b = law_expression_code(s, e, to, env, big, 0, st);
            let c = if a == Affinity::Blob {
                b
            } else {
                lemma_advance(m, code, st, b, code[b.pc]);
                run(m, code[b.pc], b)
            };
            if alias {
                lemma_advance(m, code, st, c, code[c.pc]);
                run(m, code[c.pc], c)
            } else {
                c
            }
        },
        Origin::Copied(r) => {
            assert(st.regs[r] == start.regs[r]);
            assert(settles(s2, big));
            assert(settles(s1, big));
            lemma_advance(m, code, st, st, code[st.pc]);
            let b = run(m, code[st.pc], st);
            let c = if a == Affinity::Blob {
                b
            } else {
                lemma_advance(m, code, st, b, code[b.pc]);
                run(m, code[b.pc], b)
            };
            if alias {
                lemma_advance(m, code, st, c, code[c.pc]);
                run(m, code[c.pc], c)
            } else {
                c
            }
        },
        Origin::Absent => {
            lemma_advance(m, code, st, st, code[st.pc]);
            run(m, code[st.pc], st)
        },
        Origin::Unset => {
            if alias {
                assert(settles(s.emit(Opcode::Null, 0, rowid, 0), big));
            }
            lemma_advance(m, code, st, st, code[st.pc]);
            let b = run(m, code[st.pc], st);
            if alias {
                lemma_advance(m, code, st, b, code[b.pc]);
                run(m, code[b.pc], b)
            } else {
                b
            }
        },
    }
}

/// The values of the columns from the `k`-th on come into their registers.
proof fn lemma_values_code(
    s: Asm,
    t: TableView,
    origins: Seq<Origin>,
    row: i32,
    rowid: i32,
    env: Env,
    big: Asm,
    start: State,
    st: State,
    k: int,
) -> (st2: State)
    requires
        settles(gen_row_values(s, t, origins, row, rowid, env.ctx, k), big),
        neat(s),
        st.pc == s.code.len(),
        !st.halted,
        serves(env, big, 0, st),
        sound_origins(origins, row),
        0 <= k <= origins.len(),
        origins.len() == t.columns.len(),
        0 <= row,
        rowid == row + t.columns.len(),
        rowid < s.next_reg,
        s.next_reg + origins_weight(origins, k) <= i32::MAX,
        t.columns.len() <= usize::MAX,
        forall|r: i32| r < row ==> #[trigger] st.regs[r] == start.regs[r],
        forall|j: int|
            0 <= j < k ==> st.regs[#[trigger] nth(row, j)] == stored_field(
                env.m,
                t,
                origins,
                env,
                start,
                j,
            ),
        alias_given(t, origins) && t.rowid_alias->0 < k ==> Some(st.regs[rowid]) == given_rowid(
            env.m,
            t,
            origins,
            env,
            start,
        ),
    ensures
        reaches(env.m, big.program().code, st, st2),
        st2.pc == gen_row_values(s, t, origins, row, rowid, env.ctx, k).code.len(),
        st2 == (State { pc: st2.pc, regs: st2.regs, ..st }),
        neat(gen_row_values(s, t, origins, row, rowid, env.ctx, k)),
        forall|r: i32| r < row ==> #[trigger] st2.regs[r] == start.regs[r],
        forall|j: int|
            0 <= j < origins.len() ==> st2.regs[#[trigger] nth(row, j)] == stored_field(
                env.m,
                t,
                origins,
                env,
                start,
                j,
            ),
        alias_given(t, origins) ==> Some(st2.regs[rowid]) == given_rowid(
            env.m,
            t,
            origins,
            env,
            start,
        ),
    decreases origins.len() - k,
{
    let m = env.m;
    let code = big.program().code;
    let u = gen_row_values(s, t, origins, row, rowid, env.ctx, k);
    assert(u.err is None) by {
        reveal(settles);
    }
    lemma_values_follow(s, t, origins, row, rowid, env.ctx, k);
    lemma_grows_neat(s, u);
    lemma_reaches_self(m, code, st);
    if k >= origins.len() {
        st
    } else {
        let s1 = gen_column_value(s, t, k, origins[k], row, rowid, env.ctx);
        lemma_value_follows(s, t, k, origins[k], row, rowid, env.ctx);
        lemma_values_follow(s1, t, origins, row, rowid, env.ctx, k + 1);
        lemma_settles_early(s1, u, big);
        let a = lemma_value_code(s, t, origins, k, row, rowid, env, big, start, st);
        lemma_serves_on(env, big, 0, st, a);
        assert forall|j: int| 0 <= j < k + 1 implies a.regs[#[trigger] nth(row, j)]
            == stored_field(m, t, origins, env, start, j) by {
            if j < k {
                assert(st.regs[nth(row, j)] == stored_field(m, t, origins, env, start, j));
            }
        }
        let b = lemma_values_code(s1, t, origins, row, rowid, env, big, start, a, k + 1);
        lemma_reaches_through(m, code, st, a, b);
        b
    }
}

/// What is stored of a new row.
pub open spec fn new_fields(
    m: Values,
    t: TableView,
    origins: Seq<Origin>,
    env: Env,
    st: State,
) -> Seq<Val> {
    Seq::new(t.columns.len(), |k: int| stored_field(m, t, origins, env, st, k))
}

/// The rowid of a new row: the one given unless it is NULL, else one that no row has.
pub open spec fn new_key(
    m: Values,
    t: TableView,
    origins: Seq<Origin>,
    env: Env,
    st: State,
) -> Val {
    match given_rowid(m, t, origins, env, st) {
        Some(v) => if v is Null {
            Val::Int((m.new_rowid)(rows_of(st, TABLE)))
        } else {
            v
        },
        None => Val::Int((m.new_rowid)(rows_of(st, TABLE))),
    }
}

/// The code that inserts a row, run from its start, adds to the table the row that its values make
/// up, under the rowid given or a new one, and then serves the indexes with it.
#[verifier::rlimit(50)]
pub proof fn law_insert_row_code(
    s: Asm,
    t: TableView,
    ixs: Seq<IndexView>,
    origins: Seq<Origin>,
    f: FunctionsView,
    m: Values,
    big: Asm,
    st: State,
) -> (r: (State, State))
    requires
        settles(gen_insert_row(s, t, ixs, origins, None, f), big),
        neat(s),
        st.pc == s.code.len(),
        !st.halted,
        narrow(t),
        t.rowid_alias matches Some(a) ==> a < t.columns.len(),
        forall|k: int|
            0 <= k < t.pk_columns.len() ==> (#[trigger] t.pk_columns[k]).0 < t.columns.len(),
        0 <= s.next_reg,
        sound_origins(origins, s.next_reg),
        origins.len() == t.columns.len(),
        forall|j: int|
            0 <= j < ixs.len() ==> sound_index(
                #[trigger] ixs[j],
                t,
                s.next_reg + t.columns.len() + 1,
            ),
        ixs.len() < i32::MAX,
        s.next_reg + t.columns.len() + 2 + origins_weight(origins, 0) + entries_weight(ixs, t, 0)
            <= i32::MAX,
        new_key(m, t, origins, table_row(m, t, f, st, TABLE), st) is Int,
    ensures
        ({
            let env = table_row(m, t, f, st, TABLE);
            let row = s.next_reg;
            let rowid = (row + t.columns.len()) as i32;
            let (mid, st2) = r;
            &&& reaches(m, big.program().code, st, st2)
            &&& mid.trees == st.trees.insert(
                st.cursors[TABLE].root,
                (m.store)(
                    rows_of(st, TABLE),
                    Row {
                        rowid: new_key(m, t, origins, env, st)->Int_0,
                        fields: new_fields(m, t, origins, env, st),
                    },
                ),
            )
            &&& mid.cursors == st.cursors
            &&& !mid.halted
            &&& block(mid, row, t.columns.len() as int) == new_fields(m, t, origins, env, st)
            &&& mid.regs[rowid] == new_key(m, t, origins, env, st)
            &&& indexes_served(
                m,
                ixs,
                t,
                row,
                Some(rowid),
                f,
                (rowid + 1) as i32,
                mid,
                st2,
                0,
            )
            &&& !st2.halted ==> st2.pc == gen_insert_row(s, t, ixs, origins, None, f).code.len()
        }),
{
    broadcast use {group_settled, group_grows};

    reveal(gen_insert_row);
    reveal(run);
    let code = big.program().code;
    let env = table_row(m, t, f, st, TABLE);
    let u = gen_insert_row(s, t, ixs, origins, None, f);
    assert(u.err is None) by {
        reveal(settles);
    }
    let n = t.columns.len() as i32;
    let row = s.next_reg;
    let s0 = s.take_regs(n);
    let rowid = s0.next_reg;
    let s1 = s0.take_regs(1);
    let s2 = gen_row_values(s1, t, origins, row, rowid, env.ctx, 0);
    let given = alias_given(t, origins);
    let s3 = crate::insert::gen_rowid(s2, given, rowid);
    lemma_values_follow(s1, t, origins, row, rowid, env.ctx, 0);
    lemma_store_grows(s3, t, ixs, row, rowid, f);
    assert(s3.err is None && s2.err is None) by {
        lemma_fresh_grows(s3, u);
    }
    lemma_fresh_grows(s1, s2);
    lemma_settles_early(s3, u, big);
    assert(!s2.bound(s2.fresh()));
    assert(settles(s2, big));
    lemma_settles_early(s1, s2, big);
    assert(settles(s0, big));
    assert(settles(s, big));
    assert(s.err is None);
    assert(rowid == row + n && s1.next_reg == rowid + 1) by {
        reveal(Asm::take_regs);
    }
    assert(neat(s1));
    law_table_columns(m, t, f, TABLE, big, 0, st);
    let a = lemma_values_code(s1, t, origins, row, rowid, env, big, st, st, 0);
    lemma_grows_neat(s1, s2);
    let c = if given {
        let have = s2.fresh();
        let v1 = s2.label().jump(Opcode::NotNull, rowid, have, 0);
        let v2 = v1.emit(Opcode::NewRowid, TABLE, rowid, 0);
        assert(!v2.bound(have));
        assert(settles(v2, big));
        assert(settles(v1, big));
        assert(neat(s3));
        lemma_advance(m, code, st, a, code[a.pc]);
        let b = run(m, code[a.pc], a);
        if a.regs[rowid] is Null {
            lemma_advance(m, code, st, b, code[b.pc]);
            run(m, code[b.pc], b)
        } else {
            b
        }
    } else {
        lemma_advance(m, code, st, a, code[a.pc]);
        run(m, code[a.pc], a)
    };
    assert(c.pc == s3.code.len());
    assert(c.regs[rowid] == new_key(m, t, origins, env, st));
    assert(block(c, row, n as int) =~= new_fields(m, t, origins, env, st)) by {
        assert forall|j: int| 0 <= j < n implies c.regs[#[trigger] nth(row, j)] == stored_field(
            m,
            t,
            origins,
            env,
            st,
            j,
        ) by {
            assert(a.regs[nth(row, j)] == stored_field(m, t, origins, env, st, j));
        }
    }
    let lo = (rowid + 1) as i32;
    assert(s3.next_reg == s2.next_reg);
    let z = law_store_code(s3, t, ixs, row, rowid, f, m, big, lo, c);
    lemma_reaches_through(m, code, st, c, z);
    let stored = Row {
        rowid: c.regs[rowid]->Int_0,
        fields: block(c, row, t.columns.len() as int),
    };
    let mid = choose|mid: State|
        {
            &&& mid.trees == c.trees.insert(
                c.cursors[TABLE].root,
                (m.store)(rows_of(c, TABLE), stored),
            )
            &&& mid.cursors == c.cursors
            &&& mid.out == c.out
            &&& !mid.halted
            &&& mid.error == c.error
            &&& forall|r: i32| r < lo ==> #[trigger] mid.regs[r] == c.regs[r]
            &&& #[trigger] indexes_served(m, ixs, t, row, Some(rowid), f, lo, mid, z, 0)
        };
    assert(block(mid, row, n as int) =~= block(c, row, n as int));
    (mid, z)
}

proof fn lemma_store_grows(
    s: Asm,
    t: TableView,
    ixs: Seq<IndexView>,
    row: i32,
    rowid: i32,
    f: FunctionsView,
)
    ensures
        grows(s, gen_store(s, t, ixs, row, rowid, f)),
{
    broadcast use group_grows;

    reveal(gen_store);
    let rec = s.next_reg;
    let s2 = s.take_regs(1).emit(Opcode::MakeRecord, row, t.columns.len() as i32, rec).emit(
        Opcode::Insert,
        TABLE,
        rec,
        rowid,
    );
    lemma_entries_follow(s2, ixs, t, row, Some(rowid), f, 0);
    lemma_grows_through(s, s2, gen_entries(s2, ixs, t, row, Some(rowid), f, 0));
}

// ---- Rows of values ----

/// The values `origins` have been stored as a row: `mid` is the state once the table has it, and
/// `st2` that once the indexes have been served, or one of them has refused it.
pub open spec fn row_inserted(
    m: Values,
    t: TableView,
    ixs: Seq<IndexView>,
    origins: Seq<Origin>,
    f: FunctionsView,
    row: i32,
    st: State,
    mid: State,
    st2: State,
) -> bool {
    let env = table_row(m, t, f, st, TABLE);
    let rowid = (row + t.columns.len()) as i32;
    &&& mid.trees == st.trees.insert(
        st.cursors[TABLE].root,
        (m.store)(
            rows_of(st, TABLE),
            Row {
                rowid: new_key(m, t, origins, env, st)->Int_0,
                fields: new_fields(m, t, origins, env, st),
            },
        ),
    )
    &&& mid.cursors == st.cursors
    &&& !mid.halted
    &&& block(mid, row, t.columns.len() as int) == new_fields(m, t, origins, env, st)
    &&& mid.regs[rowid] == new_key(m, t, origins, env, st)
    &&& indexes_served(m, ixs, t, row, Some(rowid), f, (rowid + 1) as i32, mid, st2, 0)
}

/// The rows of values from the `k`-th on have been stored, one after the other, until an index
/// refused one.
pub open spec fn rows_inserted(
    m: Values,
    t: TableView,
    ixs: Seq<IndexView>,
    map: Seq<Option<usize>>,
    rows: Seq<Seq<ExprView>>,
    f: FunctionsView,
    st: State,
    st2: State,
    k: int,
) -> bool
    decreases rows.len() - k,
{
    if st.halted || k < 0 || k >= rows.len() {
        st2 == st
    } else {
        exists|row: i32, mid: State, after: State|
            #[trigger] row_inserted(m, t, ixs, given_values(map, rows[k]), f, row, st, mid, after)
                && rows_inserted(m, t, ixs, map, rows, f, after, st2, k + 1)
    }
}

/// A bound on the registers that storing a row takes.
pub open spec fn insert_weight(t: TableView, ixs: Seq<IndexView>, origins: Seq<Origin>) -> nat {
    t.columns.len() + 2 + origins_weight(origins, 0) + entries_weight(ixs, t, 0)
}

/// The same, for the rows of values from the `k`-th on.
pub open spec fn rows_weight(
    t: TableView,
    ixs: Seq<IndexView>,
    map: Seq<Option<usize>>,
    rows: Seq<Seq<ExprView>>,
    k: int,
) -> nat
    decreases rows.len() - k,
{
    if k < 0 || k >= rows.len() {
        0
    } else {
        insert_weight(t, ixs, given_values(map, rows[k])) + rows_weight(t, ixs, map, rows, k + 1)
    }
}

proof fn lemma_insert_row_follows(
    s: Asm,
    t: TableView,
    ixs: Seq<IndexView>,
    origins: Seq<Origin>,
    f: FunctionsView,
)
    requires
        t.columns.len() <= i32::MAX,
    ensures
        follows(
            s,
            gen_insert_row(s, t, ixs, origins, None, f),
            insert_weight(t, ixs, origins),
        ),
{
    broadcast use group_grows;

    reveal(gen_insert_row);
    reveal(gen_store);
    let n = t.columns.len() as i32;
    let row = s.next_reg;
    let s0 = s.take_regs(n);
    let rowid = s0.next_reg;
    let s1 = s0.take_regs(1);
    let ctx = crate::scope::table_ctx(t, TABLE, f);
    let s2 = gen_row_values(s1, t, origins, row, rowid, ctx, 0);
    let given = alias_given(t, origins);
    let s3 = crate::insert::gen_rowid(s2, given, rowid);
    let s4 = s3.take_regs(1).emit(Opcode::MakeRecord, row, n, s3.next_reg).emit(
        Opcode::Insert,
        TABLE,
        s3.next_reg,
        rowid,
    );
    let u = gen_insert_row(s, t, ixs, origins, None, f);
    assert(u == gen_entries(s4, ixs, t, row, Some(rowid), f, 0));
    lemma_values_follow(s1, t, origins, row, rowid, ctx, 0);
    lemma_entries_follow(s4, ixs, t, row, Some(rowid), f, 0);
    lemma_grows_through(s, s1, s2);
    if u.err is None {
        lemma_fresh_grows(s4, u);
        assert(s2.err is None);
        lemma_fresh_grows(s1, s2);
        lemma_fresh_grows(s, s2);
        assert(grows(s, s4));
        lemma_grows_through(s, s4, u);
        reveal(Asm::take_regs);
    }
}

proof fn lemma_value_rows_follow(
    s: Asm,
    t: TableView,
    ixs: Seq<IndexView>,
    map: Seq<Option<usize>>,
    width: nat,
    rows: Seq<Seq<ExprView>>,
    f: FunctionsView,
    k: int,
)
    requires
        t.columns.len() <= i32::MAX,
    ensures
        follows(
            s,
            gen_value_rows(s, t, ixs, map, width, rows, None, f, k),
            rows_weight(t, ixs, map, rows, k),
        ),
    decreases rows.len() - k,
{
    broadcast use group_grows;

    if s.err is Some || k < 0 || k >= rows.len() {
    } else if rows[k].len() != width {
        let s1 = s.fail(crate::insert::wrong_width(t, width, rows[k].len()));
        lemma_value_rows_follow(s1, t, ixs, map, width, rows, f, k + 1);
    } else {
        let origins = given_values(map, rows[k]);
        let s1 = gen_insert_row(s, t, ixs, origins, None, f);
        lemma_insert_row_follows(s, t, ixs, origins, f);
        lemma_value_rows_follow(s1, t, ixs, map, width, rows, f, k + 1);
        let u = gen_value_rows(s1, t, ixs, map, width, rows, None, f, k + 1);
        lemma_grows_through(s, s1, u);
        if u.err is None {
            lemma_fresh_grows(s1, u);
        }
    }
}

/// No row of values gives a rowid that is neither NULL nor an integer.
pub open spec fn rowids_fit(
    m: Values,
    t: TableView,
    f: FunctionsView,
    map: Seq<Option<usize>>,
    rows: Seq<Seq<ExprView>>,
) -> bool {
    forall|k: int, st: State|
        0 <= k < rows.len() ==> (#[trigger] new_key(
            m,
            t,
            given_values(map, rows[k]),
            table_row(m, t, f, st, TABLE),
            st,
        )) is Int
}

/// The code of the rows of an `INSERT ... VALUES`, run from its start, stores every row of values
/// in turn, in the table and in its indexes, and stops at the first row that a unique index
/// refuses.
pub proof fn law_value_rows_code(
    s: Asm,
    t: TableView,
    ixs: Seq<IndexView>,
    map: Seq<Option<usize>>,
    width: nat,
    rows: Seq<Seq<ExprView>>,
    f: FunctionsView,
    m: Values,
    big: Asm,
    st: State,
    k: int,
) -> (st2: State)
    requires
        settles(gen_value_rows(s, t, ixs, map, width, rows, None, f, k), big),
        neat(s),
        st.pc == s.code.len(),
        !st.halted,
        narrow(t),
        t.columns.len() <= i32::MAX,
        t.rowid_alias matches Some(a) ==> a < t.columns.len(),
        forall|j: int|
            0 <= j < t.pk_columns.len() ==> (#[trigger] t.pk_columns[j]).0 < t.columns.len(),
        0 <= s.next_reg,
        map.len() == t.columns.len(),
        forall|j: int|
            0 <= j < rows.len() ==> sound_origins(given_values(map, #[trigger] rows[j]), 0),
        forall|j: int| 0 <= j < ixs.len() ==> sound_index(#[trigger] ixs[j], t, 0),
        ixs.len() < i32::MAX,
        s.next_reg + rows_weight(t, ixs, map, rows, k) <= i32::MAX,
        rowids_fit(m, t, f, map, rows),
        0 <= k <= rows.len(),
    ensures
        reaches(m, big.program().code, st, st2),
        rows_inserted(m, t, ixs, map, rows, f, st, st2, k),
        !st2.halted ==> st2.pc == gen_value_rows(
            s,
            t,
            ixs,
            map,
            width,
            rows,
            None,
            f,
            k,
        ).code.len(),
    decreases rows.len() - k,
{
    let code = big.program().code;
    let u = gen_value_rows(s, t, ixs, map, width, rows, None, f, k);
    assert(u.err is None) by {
        reveal(settles);
    }
    lemma_value_rows_follow(s, t, ixs, map, width, rows, f, k);
    lemma_fresh_grows(s, u);
    lemma_reaches_self(m, code, st);
    if k >= rows.len() {
        st
    } else {
        assert(rows[k].len() == width) by {
            if rows[k].len() != width {
                let s1 = s.fail(crate::insert::wrong_width(t, width, rows[k].len()));
                lemma_value_rows_follow(s1, t, ixs, map, width, rows, f, k + 1);
                lemma_fresh_grows(s1, u);
            }
        }
        let origins = given_values(map, rows[k]);
        let s1 = gen_insert_row(s, t, ixs, origins, None, f);
        lemma_insert_row_follows(s, t, ixs, origins, f);
        lemma_value_rows_follow(s1, t, ixs, map, width, rows, f, k + 1);
        lemma_settles_early(s1, u, big);
        lemma_fresh_grows(s1, u);
        lemma_grows_neat(s, s1);
        assert(sound_origins(origins, s.next_reg)) by {
            assert(sound_origins(given_values(map, rows[k]), 0));
        }
        let lo = s.next_reg + t.columns.len() + 1;
        assert forall|j: int| 0 <= j < ixs.len() implies sound_index(#[trigger] ixs[j], t, lo) by {
            assert(sound_index(ixs[j], t, 0));
            lemma_sound_higher(ixs[j], t, lo);
        }
        let (mid, a) = law_insert_row_code(s, t, ixs, origins, f, m, big, st);
        assert(row_inserted(m, t, ixs, origins, f, s.next_reg, st, mid, a));
        if a.halted {
            assert(rows_inserted(m, t, ixs, map, rows, f, a, a, k + 1));
            a
        } else {
            let b = law_value_rows_code(
                s1,
                t,
                ixs,
                map,
                width,
                rows,
                f,
                m,
                big,
                a,
                k + 1,
            );
            lemma_reaches_through(m, code, st, a, b);
            b
        }
    }
}

proof fn lemma_sound_higher(ix: IndexView, t: TableView, lo: int)
    requires
        sound_index(ix, t, 0),
        0 <= lo,
    ensures
        sound_index(ix, t, lo),
{
    if let Some(e) = ix.where_clause {
        crate::meaning::lemma_tame_higher(e, 0, lo);
    }
    assert forall|k: int| 0 <= k < ix.columns.len() implies match (#[trigger] ix.columns[k]).expr {
        Some(e) => tame(e, lo),
        None => t.column_index(ix.columns[k].name) is Some,
    } by {
        if let Some(e) = ix.columns[k].expr {
            crate::meaning::lemma_tame_higher(e, 0, lo);
        }
    }
}

// ---- Rows of a table without a rowid ----

/// The value of column `k` of a new row: the one given, else the default of the column, with the
/// affinity of the column, else NULL.
pub open spec fn keyed_field(
    m: Values,
    t: TableView,
    given: Seq<Option<ExprView>>,
    env: Env,
    k: int,
) -> Val {
    match given[k] {
        Some(e) => typed(m, value(e, env), t.columns[k].affinity),
        None => match t.columns[k].default {
            Some(e) => typed(m, value(e, env), t.columns[k].affinity),
            None => Val::Null,
        },
    }
}

/// The expression that the value of column `k` comes from, if there is one.
pub open spec fn keyed_source(t: TableView, given: Seq<Option<ExprView>>, k: int) -> Option<
    ExprView,
> {
    match given[k] {
        Some(e) => Some(e),
        None => t.columns[k].default,
    }
}

/// A bound on the registers that the values from the `k`-th on take.
pub open spec fn keyed_weight(t: TableView, given: Seq<Option<ExprView>>, k: int) -> nat
    decreases given.len() - k,
{
    if k < 0 || k >= given.len() {
        0
    } else {
        (match keyed_source(t, given, k) {
            Some(e) => weight(e),
            None => 0,
        }) + keyed_weight(t, given, k + 1)
    }
}

/// The values of a new row are tame.
pub open spec fn sound_given(t: TableView, given: Seq<Option<ExprView>>) -> bool {
    forall|k: int|
        0 <= k < given.len() ==> match #[trigger] keyed_source(t, given, k) {
            Some(e) => tame(e, 0),
            None => true,
        }
}

proof fn lemma_keyed_value_follows(
    s: Asm,
    t: TableView,
    k: int,
    given: Seq<Option<ExprView>>,
    row: i32,
    ctx: CtxView,
)
    ensures
        follows(
            s,
            gen_keyed_value(s, t, k, given[k], row, ctx),
            match keyed_source(t, given, k) {
                Some(e) => weight(e),
                None => 0,
            },
        ),
{
    broadcast use group_grows;

    reveal(gen_keyed_value);
    match keyed_source(t, given, k) {
        Some(e) => lemma_expr_follows(s, e, reg_at(row, k), ctx),
        None => {},
    }
}

proof fn lemma_keyed_values_follow(
    s: Asm,
    t: TableView,
    given: Seq<Option<ExprView>>,
    row: i32,
    ctx: CtxView,
    k: int,
)
    ensures
        follows(s, gen_keyed_values(s, t, given, row, ctx, k), keyed_weight(t, given, k)),
    decreases given.len() - k,
{
    broadcast use group_grows;

    if s.err is Some || k < 0 || k >= given.len() {
    } else {
        let s1 = gen_keyed_value(s, t, k, given[k], row, ctx);
        let u = gen_keyed_values(s1, t, given, row, ctx, k + 1);
        lemma_keyed_value_follows(s, t, k, given, row, ctx);
        lemma_keyed_values_follow(s1, t, given, row, ctx, k + 1);
        lemma_grows_through(s, s1, u);
        if u.err is None {
            lemma_fresh_grows(s1, u);
        }
    }
}

/// The values of the columns from the `k`-th on come into their registers.
proof fn lemma_keyed_values_code(
    s: Asm,
    t: TableView,
    given: Seq<Option<ExprView>>,
    row: i32,
    env: Env,
    big: Asm,
    st: State,
    k: int,
) -> (st2: State)
    requires
        settles(gen_keyed_values(s, t, given, row, env.ctx, k), big),
        neat(s),
        st.pc == s.code.len(),
        !st.halted,
        serves(env, big, 0, st),
        sound_given(t, given),
        0 <= k <= given.len(),
        given.len() == t.columns.len(),
        0 <= row,
        row + t.columns.len() <= s.next_reg,
        s.next_reg + keyed_weight(t, given, k) <= i32::MAX,
        forall|j: int|
            0 <= j < k ==> st.regs[#[trigger] nth(row, j)] == keyed_field(
                env.m,
                t,
                given,
                env,
                j,
            ),
    ensures
        reaches(env.m, big.program().code, st, st2),
        st2.pc == gen_keyed_values(s, t, given, row, env.ctx, k).code.len(),
        st2 == (State { pc: st2.pc, regs: st2.regs, ..st }),
        neat(gen_keyed_values(s, t, given, row, env.ctx, k)),
        settles(s, big),
        forall|r: i32| r < row ==> #[trigger] st2.regs[r] == st.regs[r],
        forall|j: int|
            0 <= j < given.len() ==> st2.regs[#[trigger] nth(row, j)] == keyed_field(
                env.m,
                t,
                given,
                env,
                j,
            ),
    decreases given.len() - k,
{
    broadcast use group_settled;

    let m = env.m;
    let code = big.program().code;
    let u = gen_keyed_values(s, t, given, row, env.ctx, k);
    assert(u.err is None) by {
        reveal(settles);
    }
    lemma_keyed_values_follow(s, t, given, row, env.ctx, k);
    lemma_grows_neat(s, u);
    lemma_settles_early(s, u, big);
    lemma_reaches_self(m, code, st);
    if k >= given.len() {
        st
    } else {
        reveal(gen_keyed_value);
        reveal(run);
        let to = reg_at(row, k);
        assert(to == nth(row, k));
        let s1 = gen_keyed_value(s, t, k, given[k], row, env.ctx);
        lemma_keyed_value_follows(s, t, k, given, row, env.ctx);
        lemma_keyed_values_follow(s1, t, given, row, env.ctx, k + 1);
        lemma_settles_early(s1, u, big);
        lemma_grows_neat(s, s1);
        let a = match keyed_source(t, given, k) {
            Some(e) => {
                let v = gen_expr(s, e, to, env.ctx);
                lemma_expr_follows(s, e, to, env.ctx);
                assert(settles(v, big));
                assert(v.err is None) by {
                    reveal(settles);
                }
                lemma_grows_neat(s, v);
                let b = law_expression_code(s, e, to, env, big, 0, st);
                if t.columns[k].affinity == Affinity::Blob {
                    b
                } else {
                    lemma_advance(m, code, st, b, code[b.pc]);
                    run(m, code[b.pc], b)
                }
            },
            None => {
                lemma_advance(m, code, st, st, code[st.pc]);
                run(m, code[st.pc], st)
            },
        };
        lemma_serves_on(env, big, 0, st, a);
        assert forall|j: int| 0 <= j < k + 1 implies a.regs[#[trigger] nth(row, j)] == keyed_field(
            m,
            t,
            given,
            env,
            j,
        ) by {
            if j < k {
                assert(st.regs[nth(row, j)] == keyed_field(m, t, given, env, j));
            }
        }
        let b = lemma_keyed_values_code(s1, t, given, row, env, big, a, k + 1);
        lemma_reaches_through(m, code, st, a, b);
        b
    }
}

/// The first primary-key column from the `k`-th on that is NULL in a row.
pub open spec fn null_key_from(t: TableView, row: Seq<Val>, k: int) -> Option<usize>
    decreases t.pk_columns.len() - k,
{
    if k < 0 || k >= t.pk_columns.len() {
        None
    } else if row[t.pk_columns[k].0 as int] is Null {
        Some(t.pk_columns[k].0)
    } else {
        null_key_from(t, row, k + 1)
    }
}

proof fn lemma_pk_tests_grow(s: Asm, t: TableView, row: i32, k: int)
    ensures
        follows(s, gen_pk_tests(s, t, row, k), 0),
        gen_pk_tests(s, t, row, k).next_reg == s.next_reg,
        gen_pk_tests(s, t, row, k).err == s.err,
    decreases t.pk_columns.len() - k,
{
    broadcast use group_grows;

    if s.err is Some || k < 0 || k >= t.pk_columns.len() {
    } else {
        let c = t.pk_columns[k].0;
        let s1 = s.emit_p4(
            Opcode::HaltIfNull,
            0,
            0,
            reg_at(row, c as int),
            P4View::Text("NOT NULL constraint failed: "@ + full_name(t, c)),
        );
        lemma_pk_tests_grow(s1, t, row, k + 1);
        lemma_grows_through(s, s1, gen_pk_tests(s1, t, row, k + 1));
    }
}

/// A row with a NULL in its primary key ends the program with an error that names the column.
pub proof fn law_pk_tests_code(
    s: Asm,
    t: TableView,
    row: i32,
    m: Values,
    big: Asm,
    lo: i32,
    st: State,
    k: int,
) -> (st2: State)
    requires
        settles(gen_pk_tests(s, t, row, k), big),
        neat(s),
        st.pc == s.code.len(),
        !st.halted,
        row_at(t, row, lo),
        0 <= k <= t.pk_columns.len(),
    ensures
        reaches(m, big.program().code, st, st2),
        match null_key_from(t, block(st, row, t.columns.len() as int), k) {
            Some(c) => st2 == (State {
                pc: st2.pc,
                halted: true,
                error: Some("NOT NULL constraint failed: "@ + (t.name + "."@
                    + t.columns[c as int].name)),
                ..st
            }),
            None => st2 == (State { pc: gen_pk_tests(s, t, row, k).code.len() as int, ..st }),
        },
        neat(gen_pk_tests(s, t, row, k)),
        settles(s, big),
    decreases t.pk_columns.len() - k,
{
    broadcast use group_settled;

    reveal(run);
    let code = big.program().code;
    let u = gen_pk_tests(s, t, row, k);
    assert(u.err is None) by {
        reveal(settles);
    }
    lemma_pk_tests_grow(s, t, row, k);
    lemma_grows_neat(s, u);
    lemma_settles_early(s, u, big);
    lemma_reaches_self(m, code, st);
    if k >= t.pk_columns.len() {
        st
    } else {
        let c = t.pk_columns[k].0;
        let s1 = s.emit_p4(
            Opcode::HaltIfNull,
            0,
            0,
            reg_at(row, c as int),
            P4View::Text("NOT NULL constraint failed: "@ + full_name(t, c)),
        );
        assert(reg_at(row, c as int) == nth(row, c as int));
        lemma_pk_tests_grow(s1, t, row, k + 1);
        lemma_settles_early(s1, u, big);
        lemma_advance(m, code, st, st, code[st.pc]);
        let a = run(m, code[st.pc], st);
        assert(block(st, row, t.columns.len() as int)[c as int] == st.regs[nth(row, c as int)]);
        if a.halted {
            a
        } else {
            assert(block(a, row, t.columns.len() as int) =~= block(
                st,
                row,
                t.columns.len() as int,
            ));
            let b = law_pk_tests_code(s1, t, row, m, big, lo, a, k + 1);
            lemma_reaches_through(m, code, st, a, b);
            b
        }
    }
}

proof fn lemma_rest_copies_follow(s: Asm, t: TableView, row: i32, key: i32, k: int)
    ensures
        follows(s, gen_rest_copies(s, t, row, key, k), 0),
        gen_rest_copies(s, t, row, key, k).next_reg == s.next_reg,
        gen_rest_copies(s, t, row, key, k).err == s.err,
    decreases t.columns.len() - k,
{
    broadcast use group_grows;

    if s.err is Some || k < 0 || k >= t.columns.len() {
    } else {
        let s1 = if pk_from(t.pk_columns, k as usize, 0) is Some {
            s
        } else {
            s.emit(
                Opcode::SCopy,
                reg_at(row, k),
                reg_at(key, t.storage_index(k as usize)),
                0,
            )
        };
        lemma_rest_copies_follow(s1, t, row, key, k + 1);
        lemma_grows_through(s, s1, gen_rest_copies(s1, t, row, key, k + 1));
    }
}

proof fn lemma_plain_below(pk: Seq<(usize, bool)>, i: int, n: int)
    requires
        0 <= i <= n,
    ensures
        plain_below(pk, i) <= plain_below(pk, n),
    decreases n - i,
{
    if i < n {
        lemma_plain_below(pk, i, n - 1);
    }
}

/// Column `k` is not part of the primary key.
pub open spec fn outside_key(t: TableView, k: int) -> bool {
    pk_from(t.pk_columns, k as usize, 0) is None
}

/// The columns outside the primary key from the `k`-th on are copied to where they are stored.
proof fn lemma_rest_copies_code(
    s: Asm,
    t: TableView,
    row: i32,
    key: i32,
    m: Values,
    big: Asm,
    lo: i32,
    st: State,
    k: int,
) -> (st2: State)
    requires
        settles(gen_rest_copies(s, t, row, key, k), big),
        neat(s),
        st.pc == s.code.len(),
        !st.halted,
        row_at(t, row, lo),
        lo <= key,
        key + t.storage_width() <= i32::MAX,
        t.columns.len() <= i32::MAX,
        0 <= k <= t.columns.len(),
        forall|j: int|
            0 <= j < k && #[trigger] outside_key(t, j) ==> st.regs[nth(
                key,
                t.storage_index(j as usize),
            )] == st.regs[nth(row, j)],
    ensures
        reaches(m, big.program().code, st, st2),
        st2.pc == gen_rest_copies(s, t, row, key, k).code.len(),
        st2 == (State { pc: st2.pc, regs: st2.regs, ..st }),
        neat(gen_rest_copies(s, t, row, key, k)),
        settles(s, big),
        forall|r: i32| r < key + t.pk_columns.len() ==> #[trigger] st2.regs[r] == st.regs[r],
        forall|j: int|
            0 <= j < t.columns.len() && #[trigger] outside_key(t, j) ==> st2.regs[nth(
                key,
                t.storage_index(j as usize),
            )] == st.regs[nth(row, j)],
    decreases t.columns.len() - k,
{
    broadcast use group_settled;

    reveal(run);
    let code = big.program().code;
    let u = gen_rest_copies(s, t, row, key, k);
    assert(u.err is None) by {
        reveal(settles);
    }
    lemma_rest_copies_follow(s, t, row, key, k);
    lemma_grows_neat(s, u);
    lemma_settles_early(s, u, big);
    lemma_reaches_self(m, code, st);
    if k >= t.columns.len() {
        st
    } else if !outside_key(t, k) {
        lemma_rest_copies_code(s, t, row, key, m, big, lo, st, k + 1)
    } else {
        let at = t.storage_index(k as usize);
        lemma_plain_below(t.pk_columns, k + 1, t.columns.len() as int);
        assert(t.pk_columns.len() <= at < t.storage_width());
        let s1 = s.emit(Opcode::SCopy, reg_at(row, k), reg_at(key, at), 0);
        assert(reg_at(row, k) == nth(row, k) && reg_at(key, at) == nth(key, at));
        lemma_rest_copies_follow(s1, t, row, key, k + 1);
        lemma_settles_early(s1, u, big);
        lemma_advance(m, code, st, st, code[st.pc]);
        let a = run(m, code[st.pc], st);
        assert forall|j: int| 0 <= j < k + 1 && #[trigger] outside_key(t, j) implies a.regs[nth(
            key,
            t.storage_index(j as usize),
        )] == a.regs[nth(row, j)] by {
            if j < k {
                assert(st.regs[nth(key, t.storage_index(j as usize))] == st.regs[nth(row, j)]);
                lemma_plain_below(t.pk_columns, j + 1, k);
            }
        }
        let b = lemma_rest_copies_code(s1, t, row, key, m, big, lo, a, k + 1);
        lemma_reaches_through(m, code, st, a, b);
        assert forall|j: int| 0 <= j < t.columns.len() && #[trigger] outside_key(
            t,
            j,
        ) implies b.regs[nth(key, t.storage_index(j as usize))] == st.regs[nth(row, j)] by {
            assert(b.regs[nth(key, t.storage_index(j as usize))] == a.regs[nth(row, j)]);
        }
        b
    }
}

/// The fields are those of a row in the order in which it is stored: the primary key first, then
/// each of the other columns in its place.
pub open spec fn in_storage(t: TableView, row: Seq<Val>, fields: Seq<Val>) -> bool {
    &&& fields.len() == t.storage_width()
    &&& forall|j: int|
        0 <= j < t.pk_columns.len() ==> #[trigger] fields[j] == row[t.pk_columns[j].0 as int]
    &&& forall|k: int|
        0 <= k < t.columns.len() && #[trigger] outside_key(t, k) ==> fields[t.storage_index(
            k as usize,
        )] == row[k]
}

/// The code that inserts a row into a table without a rowid, run from its start, refuses a row with
/// a NULL in its primary key and one whose primary key the table has already; any other row it adds
/// to the table, and then it serves the indexes with it.
#[verifier::rlimit(60)]
pub proof fn law_keyed_row_code(
    s: Asm,
    t: TableView,
    ixs: Seq<IndexView>,
    given: Seq<Option<ExprView>>,
    f: FunctionsView,
    m: Values,
    big: Asm,
    st: State,
) -> (r: (Seq<Val>, State, State))
    requires
        settles(gen_keyed_row(s, t, ixs, given, None, f), big),
        neat(s),
        st.pc == s.code.len(),
        !st.halted,
        narrow(t),
        row_at(t, s.next_reg, (s.next_reg + t.columns.len()) as i32),
        t.columns.len() <= i32::MAX,
        sound_given(t, given),
        given.len() == t.columns.len(),
        forall|j: int| 0 <= j < ixs.len() ==> sound_index(#[trigger] ixs[j], t, 0),
        ixs.len() < i32::MAX,
        s.next_reg + t.columns.len() + keyed_weight(t, given, 0) + t.storage_width() + 1
            + entries_weight(ixs, t, 0) <= i32::MAX,
    ensures
        ({
            let (fields, mid, st2) = r;
            let env = table_row(m, t, f, st, TABLE);
            let values = Seq::new(
                t.columns.len(),
                |k: int| keyed_field(m, t, given, env, k),
            );
            &&& reaches(m, big.program().code, st, st2)
            &&& match null_key_from(t, values, 0) {
                Some(c) => st2.halted && st2.trees == st.trees && st2.error == Some(
                    "NOT NULL constraint failed: "@ + (t.name + "."@ + t.columns[c as int].name),
                ),
                None => {
                    &&& in_storage(t, values, fields)
                    &&& if (m.clashes)(rows_of(st, TABLE), fields) {
                        st2.halted && st2.trees == st.trees && st2.error == Some(
                            "UNIQUE constraint failed: "@ + pk_names(
                                t,
                                t.pk_columns.len() as int,
                            ),
                        )
                    } else {
                        &&& mid.trees == st.trees.insert(
                            st.cursors[TABLE].root,
                            (m.store)(rows_of(st, TABLE), Row { rowid: 0, fields }),
                        )
                        &&& mid.cursors == st.cursors
                        &&& !mid.halted
                        &&& block(mid, s.next_reg, t.columns.len() as int) == values
                        &&& indexes_served(
                            m,
                            ixs,
                            t,
                            s.next_reg,
                            None,
                            f,
                            (s.next_reg + t.columns.len()) as i32,
                            mid,
                            st2,
                            0,
                        )
                        &&& !st2.halted ==> st2.pc == gen_keyed_row(
                            s,
                            t,
                            ixs,
                            given,
                            None,
                            f,
                        ).code.len()
                    }
                },
            }
        }),
{
    broadcast use {group_settled, group_grows};

    reveal(gen_keyed_row);
    reveal(run);
    let code = big.program().code;
    let env = table_row(m, t, f, st, TABLE);
    let values = Seq::new(t.columns.len(), |k: int| keyed_field(m, t, given, env, k));
    let u = gen_keyed_row(s, t, ixs, given, None, f);
    assert(u.err is None) by {
        reveal(settles);
    }
    let n = t.columns.len() as i32;
    let width = t.storage_width() as i32;
    let row = s.next_reg;
    let lo = (row + n) as i32;
    let npk = t.pk_columns.len() as int;
    let s0 = s.take_regs(n);
    let s1 = gen_keyed_values(s0, t, given, row, env.ctx, 0);
    let s2 = gen_pk_tests(s1, t, row, 0);
    let key = s2.next_reg;
    let s3 = s2.take_regs(width);
    let s4 = gen_pk_copies(s3, t.pk_columns, row, key, 0);
    let s5 = gen_rest_copies(s4, t, row, key, 0);
    let rec = s5.next_reg;
    let s6 = s5.take_regs(1).emit(Opcode::MakeRecord, key, width, rec);
    let s7 = s6.emit_p45(
        Opcode::IdxInsert,
        TABLE,
        rec,
        0,
        P4View::Text(pk_message(t)),
        crate::insert::entry_flags(true),
    );
    assert(u == gen_entries(s7, ixs, t, row, None, f, 0));
    lemma_keyed_values_follow(s0, t, given, row, env.ctx, 0);
    lemma_pk_tests_grow(s1, t, row, 0);
    lemma_pk_copies_follow(s3, t.pk_columns, row, key, 0);
    lemma_rest_copies_follow(s4, t, row, key, 0);
    lemma_entries_follow(s7, ixs, t, row, None, f, 0);
    lemma_settles_early(s7, u, big);
    assert(settles(s6, big));
    assert(settles(s5, big));
    assert(s5.err is None);
    lemma_settles_early(s4, s5, big);
    lemma_settles_early(s3, s4, big);
    assert(settles(s2, big));
    lemma_settles_early(s1, s2, big);
    lemma_settles_early(s0, s1, big);
    assert(settles(s, big));
    assert(s.err is None);
    assert(neat(s0));
    lemma_grows_neat(s0, s1);
    lemma_grows_neat(s1, s2);
    assert(neat(s3));
    lemma_grows_neat(s3, s4);
    lemma_grows_neat(s4, s5);
    assert(neat(s6) && neat(s7));
    assert(s0.next_reg == row + n && s3.next_reg == key + width && s7.next_reg == rec + 1) by {
        reveal(Asm::take_regs);
    }
    law_table_columns(m, t, f, TABLE, big, 0, st);
    let a = lemma_keyed_values_code(s0, t, given, row, env, big, st, 0);
    assert(block(a, row, n as int) =~= values);
    let b = law_pk_tests_code(s1, t, row, m, big, lo, a, 0);
    lemma_reaches_through(m, code, st, a, b);
    if null_key_from(t, values, 0) is Some {
        (Seq::empty(), b, b)
    } else {
        let c = lemma_pk_copies_code(s3, t, row, key, m, big, lo, b, 0);
        lemma_reaches_through(m, code, st, b, c);
        let d = lemma_rest_copies_code(s4, t, row, key, m, big, lo, c, 0);
        lemma_reaches_through(m, code, st, c, d);
        let fields = block(d, key, width as int);
        assert(in_storage(t, values, fields)) by {
            assert forall|j: int| 0 <= j < npk implies #[trigger] fields[j]
                == values[t.pk_columns[j].0 as int] by {
                assert(t.pk_columns[j].0 < t.columns.len());
                assert(c.regs[nth(key, j)] == b.regs[nth(row, t.pk_columns[j].0 as int)]);
                assert(d.regs[nth(key, j)] == c.regs[nth(key, j)]);
                assert(block(a, row, n as int)[t.pk_columns[j].0 as int]
                    == values[t.pk_columns[j].0 as int]);
            }
            assert forall|k: int| 0 <= k < t.columns.len() && #[trigger] outside_key(
                t,
                k,
            ) implies fields[t.storage_index(k as usize)] == values[k] by {
                lemma_plain_below(t.pk_columns, k + 1, t.columns.len() as int);
                assert(d.regs[nth(key, t.storage_index(k as usize))] == c.regs[nth(row, k)]);
                assert(block(a, row, n as int)[k] == values[k]);
            }
        }
        lemma_advance(m, code, st, d, code[d.pc]);
        let e = run(m, code[d.pc], d);
        assert((P5_NCHANGE | P5_UNIQUE) & P5_UNIQUE != 0) by {
            assert((0x01u8 | 0x02u8) & 0x02u8 != 0) by (bit_vector);
        }
        lemma_advance(m, code, st, e, code[e.pc]);
        let mid = run(m, code[e.pc], e);
        if (m.clashes)(rows_of(st, TABLE), fields) {
            (fields, mid, mid)
        } else {
            assert(block(mid, row, n as int) =~= values) by {
                assert forall|j: int| 0 <= j < n implies mid.regs[#[trigger] nth(row, j)]
                    == values[j] by {
                    assert(block(a, row, n as int)[j] == values[j]);
                    assert(d.regs[nth(row, j)] == c.regs[nth(row, j)]);
                }
            }
            assert forall|j: int| 0 <= j < ixs.len() implies sound_index(
                #[trigger] ixs[j],
                t,
                lo as int,
            ) by {
                lemma_sound_higher(ixs[j], t, lo as int);
            }
            let z = law_entries_code(s7, ixs, t, row, None, f, m, big, lo, mid, 0);
            lemma_reaches_through(m, code, st, mid, z);
            (fields, mid, z)
        }
    }
}

} // verus!
