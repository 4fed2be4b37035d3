//! What the set operators make of two sorted sequences of rows.
//!
//! [`merged`] is the sequence of rows that a merge hands to its output, and [`law_union`],
//! [`law_union_all`], [`law_intersect`] and [`law_except`] say what it holds. [`law_merge_code`]
//! says that the control code of a merge puts it out.
use vstd::prelude::*;

use crate::ast::CompoundOperator;
use crate::builder::{group_asm, reg_at, Asm};
use crate::emit::gen_copies;
use crate::machine::{
    block, group_grows, group_settled, grows, key_order, lemma_grows_neat, lemma_grows_through,
    lemma_reaches_self, lemma_reaches_through, lemma_settles_early, neat, nth, place, reaches, run,
    settles, spread, State, Stream, Val, Values,
};
use crate::meaning::{lemma_advance, lemma_fresh_grows};
use crate::merge::{
    dedups, gen_advance, gen_eofs, gen_merge, gen_merge_labels, gen_out, gen_outcomes, gen_outs,
    in_place, merge_labels, merge_regs, plain_keys, puts_right, MergeRegs,
};
use crate::vdbe::{ascending, InstView, KeyField, Opcode, P4View};

verus! {

broadcast use group_asm;

// ---- The order of rows ----

/// How two rows stand to each other, by as many of their first columns as there are keys.
pub open spec fn row_order(m: Values, keys: Seq<KeyField>, a: Seq<Val>, b: Seq<Val>) -> int {
    key_order(m, a.take(keys.len() as int), b.take(keys.len() as int), keys, 0)
}

/// The order of rows is one: opposite for opposite sides, and transitive.
pub open spec fn ordered(m: Values, keys: Seq<KeyField>) -> bool {
    &&& forall|a: Seq<Val>, b: Seq<Val>|
        (#[trigger] row_order(m, keys, a, b) < 0) == (row_order(m, keys, b, a) > 0)
    &&& forall|a: Seq<Val>, b: Seq<Val>, c: Seq<Val>|
        #![trigger row_order(m, keys, a, b), row_order(m, keys, b, c)]
        row_order(m, keys, a, b) <= 0 && row_order(m, keys, b, c) <= 0 ==> row_order(m, keys, a, c)
            <= 0 && (row_order(m, keys, a, b) < 0 || row_order(m, keys, b, c) < 0 ==> row_order(
            m,
            keys,
            a,
            c,
        ) < 0)
}

/// The rows are in order.
pub open spec fn in_order(m: Values, keys: Seq<KeyField>, rows: Seq<Seq<Val>>) -> bool {
    forall|i: int, j: int|
        0 <= i < j < rows.len() ==> #[trigger] row_order(m, keys, rows[i], rows[j]) <= 0
}

/// One of the rows equals the given one.
pub open spec fn has_equal(
    m: Values,
    keys: Seq<KeyField>,
    rows: Seq<Seq<Val>>,
    x: Seq<Val>,
) -> bool {
    exists|i: int| 0 <= i < rows.len() && #[trigger] row_order(m, keys, x, rows[i]) == 0
}

/// What a merge hands to its output. The first rows of both sides are compared, and what stands
/// behind depends on the operator.
pub open spec fn merged(
    m: Values,
    op: CompoundOperator,
    keys: Seq<KeyField>,
    a: Seq<Seq<Val>>,
    b: Seq<Seq<Val>>,
) -> Seq<Seq<Val>>
    decreases a.len() + b.len(),
{
    let both = op == CompoundOperator::Union || op == CompoundOperator::UnionAll;
    if a.len() == 0 {
        if both {
            b
        } else {
            Seq::empty()
        }
    } else if b.len() == 0 {
        if op == CompoundOperator::Intersect {
            Seq::empty()
        } else {
            a
        }
    } else {
        let sign = row_order(m, keys, a[0], b[0]);
        if sign < 0 {
            let rest = merged(m, op, keys, a.skip(1), b);
            if op == CompoundOperator::Intersect {
                rest
            } else {
                seq![a[0]] + rest
            }
        } else if sign == 0 {
            let rest = merged(m, op, keys, a.skip(1), b);
            if op == CompoundOperator::Intersect || op == CompoundOperator::UnionAll {
                seq![a[0]] + rest
            } else {
                rest
            }
        } else {
            let rest = merged(m, op, keys, a, b.skip(1));
            if both {
                seq![b[0]] + rest
            } else {
                rest
            }
        }
    }
}

proof fn lemma_skip_in_order(m: Values, keys: Seq<KeyField>, rows: Seq<Seq<Val>>)
    requires
        in_order(m, keys, rows),
        rows.len() > 0,
    ensures
        in_order(m, keys, rows.skip(1)),
{
    let s = rows.skip(1);
    assert forall|i: int, j: int| 0 <= i < j < s.len() implies #[trigger] row_order(
        m,
        keys,
        s[i],
        s[j],
    ) <= 0 by {
        assert(row_order(m, keys, rows[i + 1], rows[j + 1]) <= 0);
    }
}

proof fn lemma_contains_skip(rows: Seq<Seq<Val>>, x: Seq<Val>)
    requires
        rows.len() > 0,
    ensures
        rows.contains(x) == (x == rows[0] || rows.skip(1).contains(x)),
{
    if rows.contains(x) {
        let i = choose|i: int| 0 <= i < rows.len() && rows[i] == x;
        if i > 0 {
            assert(rows.skip(1)[i - 1] == x);
        }
    }
    if rows.skip(1).contains(x) {
        let i = choose|i: int| 0 <= i < rows.skip(1).len() && rows.skip(1)[i] == x;
        assert(rows[i + 1] == x);
    }
    assert(rows.contains(rows[0]));
}

proof fn lemma_contains_front(r: Seq<Val>, rest: Seq<Seq<Val>>, x: Seq<Val>)
    ensures
        (seq![r] + rest).contains(x) == (x == r || rest.contains(x)),
{
    let s = seq![r] + rest;
    lemma_contains_skip(s, x);
    assert(s.skip(1) =~= rest);
}

proof fn lemma_equal_skip(m: Values, keys: Seq<KeyField>, rows: Seq<Seq<Val>>, x: Seq<Val>)
    requires
        rows.len() > 0,
    ensures
        has_equal(m, keys, rows, x) == (row_order(m, keys, x, rows[0]) == 0 || has_equal(
            m,
            keys,
            rows.skip(1),
            x,
        )),
{
    let s = rows.skip(1);
    if has_equal(m, keys, rows, x) {
        let i = choose|i: int|
            0 <= i < rows.len() && #[trigger] row_order(m, keys, x, rows[i]) == 0;
        if i > 0 {
            assert(row_order(m, keys, x, s[i - 1]) == 0);
        }
    }
    if has_equal(m, keys, s, x) {
        let i = choose|i: int| 0 <= i < s.len() && #[trigger] row_order(m, keys, x, s[i]) == 0;
        assert(row_order(m, keys, x, rows[i + 1]) == 0);
    }
    if row_order(m, keys, x, rows[0]) == 0 {
        assert(has_equal(m, keys, rows, x));
    }
}

/// A row below the first of some rows in order equals none of them.
proof fn lemma_below_all(m: Values, keys: Seq<KeyField>, rows: Seq<Seq<Val>>, x: Seq<Val>)
    requires
        ordered(m, keys),
        in_order(m, keys, rows),
        rows.len() > 0,
        row_order(m, keys, x, rows[0]) < 0,
    ensures
        !has_equal(m, keys, rows, x),
{
    if has_equal(m, keys, rows, x) {
        let i = choose|i: int|
            0 <= i < rows.len() && #[trigger] row_order(m, keys, x, rows[i]) == 0;
        if i > 0 {
            assert(row_order(m, keys, rows[0], rows[i]) <= 0);
        }
    }
}

/// The first of some rows in order is not above any of them.
proof fn lemma_first_least(m: Values, keys: Seq<KeyField>, rows: Seq<Seq<Val>>, x: Seq<Val>)
    requires
        in_order(m, keys, rows),
        rows.len() > 0,
        rows.contains(x),
    ensures
        x == rows[0] || row_order(m, keys, rows[0], x) <= 0,
{
    let i = choose|i: int| 0 <= i < rows.len() && rows[i] == x;
    if i > 0 {
        assert(row_order(m, keys, rows[0], rows[i]) <= 0);
    }
}

/// `INTERSECT` hands out exactly the rows of the first side that equal a row of the second.
pub proof fn law_intersect(
    m: Values,
    keys: Seq<KeyField>,
    a: Seq<Seq<Val>>,
    b: Seq<Seq<Val>>,
    x: Seq<Val>,
)
    requires
        ordered(m, keys),
        in_order(m, keys, a),
        in_order(m, keys, b),
    ensures
        merged(m, CompoundOperator::Intersect, keys, a, b).contains(x) == (a.contains(x)
            && has_equal(m, keys, b, x)),
    decreases a.len() + b.len(),
{
    let op = CompoundOperator::Intersect;
    if a.len() > 0 && b.len() > 0 {
        let sign = row_order(m, keys, a[0], b[0]);
        lemma_contains_skip(a, x);
        lemma_equal_skip(m, keys, b, x);
        if sign <= 0 {
            lemma_skip_in_order(m, keys, a);
            law_intersect(m, keys, a.skip(1), b, x);
            if sign < 0 {
                lemma_below_all(m, keys, b, a[0]);
            } else {
                lemma_contains_front(a[0], merged(m, op, keys, a.skip(1), b), x);
                if x == a[0] {
                    assert(has_equal(m, keys, b, x));
                }
            }
        } else {
            lemma_skip_in_order(m, keys, b);
            law_intersect(m, keys, a, b.skip(1), x);
            if a.contains(x) {
                lemma_first_least(m, keys, a, x);
                assert(row_order(m, keys, b[0], a[0]) < 0);
                assert(row_order(m, keys, b[0], x) < 0);
                assert(row_order(m, keys, x, b[0]) > 0);
            }
        }
    }
}

/// `EXCEPT` hands out exactly the rows of the first side that equal no row of the second.
pub proof fn law_except(
    m: Values,
    keys: Seq<KeyField>,
    a: Seq<Seq<Val>>,
    b: Seq<Seq<Val>>,
    x: Seq<Val>,
)
    requires
        ordered(m, keys),
        in_order(m, keys, a),
        in_order(m, keys, b),
    ensures
        merged(m, CompoundOperator::Except, keys, a, b).contains(x) == (a.contains(x)
            && !has_equal(m, keys, b, x)),
    decreases a.len() + b.len(),
{
    let op = CompoundOperator::Except;
    if a.len() > 0 && b.len() > 0 {
        let sign = row_order(m, keys, a[0], b[0]);
        lemma_contains_skip(a, x);
        lemma_equal_skip(m, keys, b, x);
        if sign <= 0 {
            lemma_skip_in_order(m, keys, a);
            law_except(m, keys, a.skip(1), b, x);
            if sign < 0 {
                lemma_below_all(m, keys, b, a[0]);
                lemma_contains_front(a[0], merged(m, op, keys, a.skip(1), b), x);
            } else if x == a[0] {
                assert(has_equal(m, keys, b, x));
            }
        } else {
            lemma_skip_in_order(m, keys, b);
            law_except(m, keys, a, b.skip(1), x);
            if a.contains(x) {
                lemma_first_least(m, keys, a, x);
                assert(row_order(m, keys, b[0], a[0]) < 0);
                assert(row_order(m, keys, b[0], x) < 0);
                assert(row_order(m, keys, x, b[0]) > 0);
            }
        }
    }
}

/// `UNION` hands out rows of the two sides only, and for each of their rows one that equals it.
pub proof fn law_union(
    m: Values,
    keys: Seq<KeyField>,
    a: Seq<Seq<Val>>,
    b: Seq<Seq<Val>>,
    x: Seq<Val>,
)
    requires
        ordered(m, keys),
        forall|r: Seq<Val>| #[trigger] row_order(m, keys, r, r) == 0,
    ensures
        merged(m, CompoundOperator::Union, keys, a, b).contains(x) ==> a.contains(x) || b.contains(
            x,
        ),
        a.contains(x) || b.contains(x) ==> has_equal(
            m,
            keys,
            merged(m, CompoundOperator::Union, keys, a, b),
            x,
        ),
    decreases a.len() + b.len(),
{
    let op = CompoundOperator::Union;
    let all = merged(m, op, keys, a, b);
    if a.len() > 0 && b.len() > 0 {
        let sign = row_order(m, keys, a[0], b[0]);
        lemma_contains_skip(a, x);
        lemma_contains_skip(b, x);
        if sign < 0 {
            law_union(m, keys, a.skip(1), b, x);
            let rest = merged(m, op, keys, a.skip(1), b);
            lemma_contains_front(a[0], rest, x);
            assert(all.skip(1) =~= rest);
            lemma_equal_skip(m, keys, all, x);
        } else if sign == 0 {
            law_union(m, keys, a.skip(1), b, x);
            if x == a[0] {
                // The row of the other side that equals it comes later.
                law_union(m, keys, a.skip(1), b, b[0]);
                assert(b.contains(b[0]));
                assert(has_equal(m, keys, all, b[0]));
                let i = choose|i: int|
                    0 <= i < all.len() && #[trigger] row_order(m, keys, b[0], all[i]) == 0;
                assert(row_order(m, keys, all[i], b[0]) <= 0);
                assert(row_order(m, keys, b[0], x) <= 0);
                assert(row_order(m, keys, x, all[i]) <= 0);
                assert(row_order(m, keys, all[i], x) <= 0);
                assert(row_order(m, keys, x, all[i]) == 0);
            }
        } else {
            law_union(m, keys, a, b.skip(1), x);
            let rest = merged(m, op, keys, a, b.skip(1));
            lemma_contains_front(b[0], rest, x);
            assert(all.skip(1) =~= rest);
            lemma_equal_skip(m, keys, all, x);
        }
    } else {
        if a.contains(x) || b.contains(x) {
            assert(all.contains(x));
            let i = choose|i: int| 0 <= i < all.len() && all[i] == x;
            assert(row_order(m, keys, x, all[i]) == 0);
        }
    }
}

/// `UNION ALL` hands out every row of the two sides, as often as it is there.
pub proof fn law_union_all(
    m: Values,
    keys: Seq<KeyField>,
    a: Seq<Seq<Val>>,
    b: Seq<Seq<Val>>,
)
    ensures
        merged(m, CompoundOperator::UnionAll, keys, a, b).to_multiset() == a.to_multiset().add(
            b.to_multiset(),
        ),
    decreases a.len() + b.len(),
{
    broadcast use vstd::seq_lib::group_to_multiset_ensures;

    let op = CompoundOperator::UnionAll;
    let all = merged(m, op, keys, a, b);
    if a.len() > 0 && b.len() > 0 {
        let sign = row_order(m, keys, a[0], b[0]);
        if sign <= 0 {
            law_union_all(m, keys, a.skip(1), b);
            let rest = merged(m, op, keys, a.skip(1), b);
            vstd::seq_lib::lemma_multiset_commutative(seq![a[0]], rest);
            vstd::seq_lib::lemma_multiset_commutative(seq![a[0]], a.skip(1));
            assert(seq![a[0]] + a.skip(1) =~= a);
        } else {
            law_union_all(m, keys, a, b.skip(1));
            let rest = merged(m, op, keys, a, b.skip(1));
            vstd::seq_lib::lemma_multiset_commutative(seq![b[0]], rest);
            vstd::seq_lib::lemma_multiset_commutative(seq![b[0]], b.skip(1));
            assert(seq![b[0]] + b.skip(1) =~= b);
        }
    }
    assert(all.to_multiset() =~= a.to_multiset().add(b.to_multiset()));
}

// ---- The output of a merge ----

/// The rows, without each row that is the same in its first `keep` columns as the one put out
/// before it, where that is asked for. `last` is the one put out before.
pub open spec fn put_rows(
    m: Values,
    apart: bool,
    keep: int,
    rows: Seq<Seq<Val>>,
    last: Option<Seq<Val>>,
) -> Seq<Seq<Val>>
    decreases rows.len(),
{
    if rows.len() == 0 {
        Seq::empty()
    } else if apart && (last matches Some(l) && repeats(m, keep, rows[0], l)) {
        put_rows(m, apart, keep, rows.skip(1), last)
    } else {
        seq![rows[0]] + put_rows(m, apart, keep, rows.skip(1), Some(rows[0]))
    }
}

/// Two rows are the same in their first `keep` columns.
pub open spec fn repeats(m: Values, keep: int, a: Seq<Val>, b: Seq<Val>) -> bool {
    row_order(m, Seq::new(keep as nat, |i: int| ascending()), a, b) == 0
}

/// The registers of a merge lie one behind the other.
pub open spec fn spaced(r: MergeRegs, op: CompoundOperator, ncol: int) -> bool {
    &&& 0 <= r.addr_a
    &&& r.addr_b == r.addr_a + 1
    &&& r.out_a == r.addr_a + 2
    &&& r.out_b == r.addr_a + 3
    &&& r.block_a == r.addr_a + 4
    &&& r.block_b == r.block_a + ncol
    &&& r.key_a == r.block_a
    &&& r.key_b == r.block_b
    &&& 0 <= ncol
    &&& r.block_b + ncol <= i32::MAX
    &&& 0 <= r.keep <= ncol
    &&& dedups(op) ==> r.flag == r.block_b + ncol && r.prev == r.flag + 1 && r.prev + ncol
        <= i32::MAX
}

/// The registers that a merge takes, where the keys are columns from left to right, lie one behind
/// the other.
pub proof fn law_merge_registers(
    s: Asm,
    op: CompoundOperator,
    ncol: i32,
    keep: i32,
    places: Seq<i32>,
)
    requires
        s.err is None,
        in_place(places),
        0 <= s.next_reg,
        0 <= keep <= ncol,
        s.next_reg + 6 + 3 * ncol <= i32::MAX,
    ensures
        spaced(merge_regs(s, op, ncol, keep, places), op, ncol as int),
{
    reveal(merge_regs);
    reveal(Asm::take_regs);
}

/// The control code of a merge, and what it runs on.
pub ghost struct Merge {
    pub m: Values,
    pub op: CompoundOperator,
    pub ncol: int,
    pub keys: Seq<KeyField>,
    pub r: MergeRegs,
    pub big: Asm,
    /// Before and behind the bodies of the two output subroutines.
    pub a1: Asm,
    pub a2: Asm,
    pub b1: Asm,
    pub b2: Asm,
    /// The addresses of the handlers.
    pub eof_a: int,
    pub eof_a_first: int,
    pub eof_b: int,
    pub below: int,
    pub equal: int,
    pub above: int,
    pub compare: int,
    pub end: int,
}

/// An instruction with no further operand.
pub open spec fn one(opcode: Opcode, p1: i32, p2: int, p3: i32) -> InstView {
    InstView { opcode, p1, p2: p2 as i32, p3, p4: P4View::Unused, p5: 0 }
}

/// The code at `at` calls a subroutine, if there is one to call, and goes on with the next row of
/// a coroutine.
pub open spec fn advances(
    x: Merge,
    at: int,
    out: Option<(i32, int)>,
    reg: i32,
    done: int,
    next: int,
) -> bool {
    let code = x.big.program().code;
    let y = match out {
        Some(_) => at + 1,
        None => at,
    };
    &&& 0 <= at
    &&& y + 2 <= code.len()
    &&& out matches Some(o) ==> code[at] == one(Opcode::Gosub, o.0, o.1, 0)
    &&& code[y] == one(Opcode::Yield, reg, done, 0)
    &&& code[y + 1] == one(Opcode::Goto, 0, next, 0)
}

/// The control code of a merge stands in the program.
pub open spec fn merge_stands(x: Merge) -> bool {
    let code = x.big.program().code;
    let right = puts_right(x.op);
    let out_a = x.a1.code.len() as int;
    let out_b = x.b1.code.len() as int;
    let nk = x.keys.len() as i32;
    let left = |o: bool|
        if o {
            Some((x.r.out_a, out_a))
        } else {
            None
        };
    &&& spaced(x.r, x.op, x.ncol)
    &&& x.keys.len() <= x.ncol
    &&& 0 <= x.end < code.len() <= i32::MAX
    &&& neat(x.a1) && settles(x.a2, x.big)
    &&& x.a2 == gen_out(x.a1, x.op, x.r.block_a, x.ncol as i32, x.r, None, None, 0)
    &&& x.a2.code.len() < code.len() && code[x.a2.code.len() as int] == one(
        Opcode::Return,
        x.r.out_a,
        0,
        1,
    )
    &&& right ==> neat(x.b1) && settles(x.b2, x.big) && x.b2 == gen_out(
        x.b1,
        x.op,
        x.r.block_b,
        x.ncol as i32,
        x.r,
        None,
        None,
        0,
    ) && x.b2.code.len() < code.len() && code[x.b2.code.len() as int] == one(
        Opcode::Return,
        x.r.out_b,
        0,
        1,
    )
    &&& if right {
        advances(x, x.eof_a, Some((x.r.out_b, out_b)), x.r.addr_b, x.end, x.eof_a) && advances(
            x,
            x.eof_a_first,
            None,
            x.r.addr_b,
            x.end,
            x.eof_a,
        )
    } else {
        0 <= x.eof_a < code.len() && 0 <= x.eof_a_first < code.len() && code[x.eof_a] == one(
            Opcode::Goto,
            0,
            x.end,
            0,
        ) && code[x.eof_a_first] == one(Opcode::Goto, 0, x.end, 0)
    }
    &&& if x.op == CompoundOperator::Intersect {
        0 <= x.eof_b < code.len() && code[x.eof_b] == one(Opcode::Goto, 0, x.end, 0)
    } else {
        advances(x, x.eof_b, Some((x.r.out_a, out_a)), x.r.addr_a, x.end, x.eof_b)
    }
    &&& advances(
        x,
        x.below,
        left(x.op != CompoundOperator::Intersect),
        x.r.addr_a,
        x.eof_a,
        x.compare,
    )
    &&& advances(
        x,
        x.equal,
        left(x.op == CompoundOperator::Intersect || x.op == CompoundOperator::UnionAll),
        x.r.addr_a,
        x.eof_a,
        x.compare,
    )
    &&& advances(
        x,
        x.above,
        if right {
            Some((x.r.out_b, out_b))
        } else {
            None
        },
        x.r.addr_b,
        x.eof_b,
        x.compare,
    )
    &&& 2 <= x.compare
    &&& x.end == x.compare + 2
    &&& code[x.compare - 2] == one(Opcode::Yield, x.r.addr_a, x.eof_a_first, 0)
    &&& code[x.compare - 1] == one(Opcode::Yield, x.r.addr_b, x.eof_b, 0)
    &&& code[x.compare] == (InstView {
        opcode: Opcode::Compare,
        p1: x.r.block_a,
        p2: x.r.block_b,
        p3: nk,
        p4: P4View::KeyInfo(x.keys),
        p5: 0,
    })
    &&& code[x.compare + 1] == (InstView {
        opcode: Opcode::Jump,
        p1: x.below as i32,
        p2: x.equal as i32,
        p3: x.above as i32,
        p4: P4View::Unused,
        p5: 0,
    })
    &&& code[x.end].opcode == Opcode::Halt
    &&& x.below < code.len() && x.equal < code.len() && x.above < code.len()
}

/// Every row that a coroutine has yet to yield has as many columns as the result.
pub open spec fn even(rows: Seq<Seq<Val>>, ncol: int) -> bool {
    forall|i: int| 0 <= i < rows.len() ==> (#[trigger] rows[i]).len() == ncol
}

/// The coroutines have yet to yield these rows, and the last row put out is remembered.
pub open spec fn midway(
    x: Merge,
    st: State,
    a: Seq<Seq<Val>>,
    b: Seq<Seq<Val>>,
    last: Option<Seq<Val>>,
) -> bool {
    &&& !st.halted
    &&& st.streams[x.r.addr_a] == (Stream { rows: a, block: x.r.block_a })
    &&& st.streams[x.r.addr_b] == (Stream { rows: b, block: x.r.block_b })
    &&& even(a, x.ncol) && even(b, x.ncol)
    &&& dedups(x.op) ==> st.regs[x.r.flag] == Val::Int(
        if last is Some {
            1
        } else {
            0
        },
    )
    &&& dedups(x.op) ==> (last matches Some(l) ==> l.len() == x.ncol && forall|j: int|
        0 <= j < x.r.keep ==> st.regs[#[trigger] nth(x.r.prev, j)] == l[j])
}

proof fn lemma_spread(regs: Map<i32, Val>, to: i32, vs: Seq<Val>, n: int)
    requires
        0 <= n <= vs.len(),
        0 <= to,
        to + n <= i32::MAX,
    ensures
        forall|j: int| 0 <= j < n ==> spread(regs, to, vs, n)[#[trigger] nth(to, j)] == vs[j],
        forall|r: i32| !(to <= r < to + n) ==> #[trigger] spread(regs, to, vs, n)[r] == regs[r],
    decreases n,
{
    if n > 0 {
        lemma_spread(regs, to, vs, n - 1);
        assert forall|j: int| 0 <= j < n implies spread(regs, to, vs, n)[#[trigger] nth(to, j)]
            == vs[j] by {
            if j < n - 1 {
                assert(spread(regs, to, vs, n - 1)[nth(to, j)] == vs[j]);
            }
        }
        assert forall|r: i32| !(to <= r < to + n) implies #[trigger] spread(regs, to, vs, n)[r]
            == regs[r] by {
            assert(spread(regs, to, vs, n - 1)[r] == regs[r]);
        }
    }
}

proof fn lemma_copies_follow(s: Asm, from: i32, to: i32, n: int, k: int)
    ensures
        grows(s, gen_copies(s, from, to, n, k)),
        gen_copies(s, from, to, n, k).err == s.err,
        gen_copies(s, from, to, n, k).fresh() == s.fresh(),
    decreases n - k,
{
    broadcast use group_grows;

    if s.err is Some || k >= n {
    } else {
        let s1 = s.emit(Opcode::SCopy, reg_at(from, k), reg_at(to, k), 0);
        lemma_copies_follow(s1, from, to, n, k + 1);
        lemma_grows_through(s, s1, gen_copies(s1, from, to, n, k + 1));
    }
}

/// Registers are copied one by one.
proof fn lemma_copies_code(
    s: Asm,
    from: i32,
    to: i32,
    n: int,
    m: Values,
    big: Asm,
    st: State,
    k: int,
) -> (st2: State)
    requires
        settles(gen_copies(s, from, to, n, k), big),
        neat(s),
        st.pc == s.code.len(),
        !st.halted,
        0 <= k <= n,
        0 <= from,
        from + n <= to,
        to + n <= i32::MAX,
        forall|j: int| 0 <= j < k ==> st.regs[#[trigger] nth(to, j)] == st.regs[nth(from, j)],
    ensures
        reaches(m, big.program().code, st, st2),
        st2.pc == gen_copies(s, from, to, n, k).code.len(),
        neat(gen_copies(s, from, to, n, k)),
        settles(s, big),
        st2 == (State { pc: st2.pc, regs: st2.regs, ..st }),
        forall|r: i32| r < to || r >= to + n ==> #[trigger] st2.regs[r] == st.regs[r],
        forall|j: int| 0 <= j < n ==> st2.regs[#[trigger] nth(to, j)] == st.regs[nth(from, j)],
    decreases n - k,
{
    broadcast use group_settled;

    reveal(run);
    let code = big.program().code;
    let u = gen_copies(s, from, to, n, k);
    assert(u.err is None) by {
        reveal(settles);
    }
    lemma_copies_follow(s, from, to, n, k);
    lemma_grows_neat(s, u);
    lemma_settles_early(s, u, big);
    lemma_reaches_self(m, code, st);
    if k >= n {
        st
    } else {
        let s1 = s.emit(Opcode::SCopy, reg_at(from, k), reg_at(to, k), 0);
        assert(reg_at(to, k) == nth(to, k) && reg_at(from, k) == nth(from, k));
        lemma_copies_follow(s1, from, to, n, k + 1);
        lemma_settles_early(s1, u, big);
        lemma_advance(m, code, st, st, code[st.pc]);
        let a = run(m, code[st.pc], st);
        assert forall|j: int| 0 <= j < k + 1 implies a.regs[#[trigger] nth(to, j)] == a.regs[nth(
            from,
            j,
        )] by {
            if j < k {
                assert(st.regs[nth(to, j)] == st.regs[nth(from, j)]);
            }
        }
        let b = lemma_copies_code(s1, from, to, n, m, big, a, k + 1);
        lemma_reaches_through(m, code, st, a, b);
        assert forall|j: int| 0 <= j < n implies b.regs[#[trigger] nth(to, j)] == st.regs[nth(
            from,
            j,
        )] by {
            assert(b.regs[nth(to, j)] == a.regs[nth(from, j)]);
        }
        b
    }
}

/// The last row put out, once a row has been handed to the output.
pub open spec fn last_after(x: Merge, row: Seq<Val>, last: Option<Seq<Val>>) -> Option<Seq<Val>> {
    if dedups(x.op) && (last matches Some(l) && repeats(x.m, x.r.keep as int, row, l)) {
        last
    } else {
        Some(row)
    }
}

proof fn lemma_out_grows(
    s: Asm,
    op: CompoundOperator,
    block: i32,
    ncol: i32,
    regs: MergeRegs,
    end: int,
)
    ensures
        grows(s, gen_out(s, op, block, ncol, regs, None, None, end)),
        gen_out(s, op, block, ncol, regs, None, None, end).err == s.err,
{
    broadcast use group_grows;

    reveal(gen_out);
    let s0 = s.label();
    let fresh_row = s0.fresh();
    let s1 = s0.label().jump(Opcode::IfNot, regs.flag, fresh_row, 0).emit_p4(
        Opcode::Compare,
        block,
        regs.prev,
        regs.keep,
        P4View::KeyInfo(plain_keys(regs.keep)),
    ).jump3(Opcode::Jump, fresh_row, s.fresh(), fresh_row).bind(fresh_row);
    lemma_copies_follow(s1, block, regs.prev, regs.keep as int, 0);
    lemma_grows_through(s, s1, gen_copies(s1, block, regs.prev, regs.keep as int, 0));
}

/// The body of an output subroutine puts the row out, unless it repeats the one before.
#[verifier::rlimit(50)]
proof fn lemma_out_code(
    x: Merge,
    s: Asm,
    block_at: i32,
    st: State,
    row: Seq<Val>,
    a: Seq<Seq<Val>>,
    b: Seq<Seq<Val>>,
    last: Option<Seq<Val>>,
) -> (st2: State)
    requires
        merge_stands(x),
        block_at == x.r.block_a || block_at == x.r.block_b,
        settles(gen_out(s, x.op, block_at, x.ncol as i32, x.r, None, None, 0), x.big),
        neat(s),
        st.pc == s.code.len(),
        midway(x, st, a, b, last),
        row == block(st, block_at, x.ncol),
    ensures
        reaches(x.m, x.big.program().code, st, st2),
        st2.pc == gen_out(s, x.op, block_at, x.ncol as i32, x.r, None, None, 0).code.len(),
        midway(x, st2, a, b, last_after(x, row, last)),
        st2 == (State { pc: st2.pc, regs: st2.regs, out: st2.out, sign: st2.sign, ..st }),
        st2.out == st.out + put_rows(x.m, dedups(x.op), x.r.keep as int, seq![row], last),
        forall|r: i32| r < x.r.block_b + x.ncol ==> #[trigger] st2.regs[r] == st.regs[r],
{
    broadcast use {group_settled, group_grows};

    reveal(gen_out);
    reveal(run);
    reveal_with_fuel(put_rows, 2);
    let m = x.m;
    let big = x.big;
    let code = big.program().code;
    let r = x.r;
    let ncol = x.ncol as i32;
    let u = gen_out(s, x.op, block_at, ncol, r, None, None, 0);
    assert(u.err is None) by {
        reveal(settles);
    }
    let skip = s.fresh();
    let s0 = s.label();
    lemma_reaches_self(m, code, st);
    let rest = put_rows(m, dedups(x.op), r.keep as int, seq![row].skip(1), Some(row));
    assert(seq![row].skip(1) =~= Seq::empty());
    if !dedups(x.op) {
        let s1 = s0.emit(Opcode::ResultRow, block_at, ncol, 0);
        assert(!s1.bound(skip));
        assert(settles(s1, big));
        lemma_advance(m, code, st, st, code[st.pc]);
        let z = run(m, code[st.pc], st);
        assert(z.out =~= st.out + seq![row]);
        assert(seq![row] + Seq::<Seq<Val>>::empty() =~= seq![row]);
        z
    } else {
        let fresh_row = s0.fresh();
        let s1 = s0.label().jump(Opcode::IfNot, r.flag, fresh_row, 0);
        let s2 = s1.emit_p4(
            Opcode::Compare,
            block_at,
            r.prev,
            r.keep,
            P4View::KeyInfo(plain_keys(r.keep)),
        );
        let s3 = s2.jump3(Opcode::Jump, fresh_row, skip, fresh_row);
        let s4 = s3.bind(fresh_row);
        let s5 = gen_copies(s4, block_at, r.prev, r.keep as int, 0);
        let s6 = s5.emit(Opcode::Integer, 1, r.flag, 0);
        let s7 = s6.emit(Opcode::ResultRow, block_at, ncol, 0);
        lemma_copies_follow(s4, block_at, r.prev, r.keep as int, 0);
        assert(s4.err is None);
        lemma_fresh_grows(s4, s5);
        assert(!s7.bound(skip));
        assert(settles(s7, big));
        assert(settles(s6, big));
        assert(settles(s5, big));
        lemma_settles_early(s4, s5, big);
        assert(!s3.bound(fresh_row));
        assert(settles(s3, big));
        assert(settles(s2, big));
        assert(settles(s1, big));
        assert(neat(s4));
        lemma_grows_neat(s4, s5);
        lemma_advance(m, code, st, st, code[st.pc]);
        let c0 = run(m, code[st.pc], st);
        let c2 = if last is Some {
            let l = last->0;
            lemma_advance(m, code, st, c0, code[c0.pc]);
            let c1 = run(m, code[c0.pc], c0);
            let info = Seq::new(r.keep as nat, |i: int| ascending());
            assert(plain_keys(r.keep) =~= info);
            assert(block(c0, block_at, r.keep as int) =~= row.take(r.keep as int));
            assert(block(c0, r.prev, r.keep as int) =~= l.take(r.keep as int)) by {
                assert forall|j: int| 0 <= j < r.keep implies c0.regs[#[trigger] nth(r.prev, j)]
                    == l[j] by {
                    assert(st.regs[nth(r.prev, j)] == l[j]);
                }
            }
            assert((c1.sign == 0) == repeats(m, r.keep as int, row, l));
            lemma_advance(m, code, st, c1, code[c1.pc]);
            run(m, code[c1.pc], c1)
        } else {
            c0
        };
        if last matches Some(l) && repeats(m, r.keep as int, row, l) {
            assert(st.out + Seq::<Seq<Val>>::empty() =~= st.out);
            c2
        } else {
            assert(c2.pc == s4.code.len());
            let d = lemma_copies_code(s4, block_at, r.prev, r.keep as int, m, big, c2, 0);
            lemma_reaches_through(m, code, st, c2, d);
            lemma_advance(m, code, st, d, code[d.pc]);
            let e = run(m, code[d.pc], d);
            assert(block(e, block_at, x.ncol) =~= row);
            lemma_advance(m, code, st, e, code[e.pc]);
            let z = run(m, code[e.pc], e);
            assert(z.out =~= st.out + seq![row]);
            assert(seq![row] + Seq::<Seq<Val>>::empty() =~= seq![row]);
            assert forall|j: int| 0 <= j < r.keep implies z.regs[#[trigger] nth(r.prev, j)]
                == row[j] by {
                assert(d.regs[nth(r.prev, j)] == c2.regs[nth(block_at, j)]);
                assert(row[j] == st.regs[nth(block_at, j)]);
            }
            z
        }
    }
}

proof fn lemma_put_rows_front(
    x: Merge,
    row: Seq<Val>,
    rest: Seq<Seq<Val>>,
    last: Option<Seq<Val>>,
)
    ensures
        put_rows(x.m, dedups(x.op), x.r.keep as int, seq![row] + rest, last) == put_rows(
            x.m,
            dedups(x.op),
            x.r.keep as int,
            seq![row],
            last,
        ) + put_rows(x.m, dedups(x.op), x.r.keep as int, rest, last_after(x, row, last)),
{
    reveal_with_fuel(put_rows, 2);
    let all = seq![row] + rest;
    let keep = x.r.keep as int;
    let apart = dedups(x.op);
    assert(all.skip(1) =~= rest);
    assert(seq![row].skip(1) =~= Seq::empty());
    let more = put_rows(x.m, apart, keep, rest, last_after(x, row, last));
    assert(Seq::<Seq<Val>>::empty() + more =~= more);
    assert(seq![row] + Seq::<Seq<Val>>::empty() =~= seq![row]);
}

/// The current rows of the two sides are in their registers; a side may have none.
pub open spec fn current(x: Merge, st: State, a: Option<Seq<Val>>, b: Option<Seq<Val>>) -> bool {
    &&& a matches Some(r) ==> r.len() == x.ncol && block(st, x.r.block_a, x.ncol) == r
    &&& b matches Some(r) ==> r.len() == x.ncol && block(st, x.r.block_b, x.ncol) == r
}

/// The first of some rows, if there is one.
pub open spec fn head(rows: Seq<Seq<Val>>) -> Option<Seq<Val>> {
    if rows.len() > 0 {
        Some(rows[0])
    } else {
        None
    }
}

/// The current rows are the first of `a` and of `b`, and the coroutines have yet to yield the
/// others.
pub open spec fn facing(
    x: Merge,
    st: State,
    a: Seq<Seq<Val>>,
    b: Seq<Seq<Val>>,
    last: Option<Seq<Val>>,
) -> bool {
    &&& midway(
        x,
        st,
        if a.len() > 0 {
            a.skip(1)
        } else {
            a
        },
        if b.len() > 0 {
            b.skip(1)
        } else {
            b
        },
        last,
    )
    &&& current(x, st, head(a), head(b))
}

/// A row is handed to the output.
#[verifier::rlimit(50)]
proof fn lemma_call_code(
    x: Merge,
    st: State,
    right: bool,
    a: Seq<Seq<Val>>,
    b: Seq<Seq<Val>>,
    last: Option<Seq<Val>>,
) -> (st2: State)
    requires
        merge_stands(x),
        facing(x, st, a, b, last),
        0 <= st.pc < x.big.program().code.len(),
        right ==> puts_right(x.op) && b.len() > 0,
        !right ==> a.len() > 0,
        x.big.program().code[st.pc] == (if right {
            one(Opcode::Gosub, x.r.out_b, x.b1.code.len() as int, 0)
        } else {
            one(Opcode::Gosub, x.r.out_a, x.a1.code.len() as int, 0)
        }),
    ensures
        ({
            let row = if right {
                b[0]
            } else {
                a[0]
            };
            &&& reaches(x.m, x.big.program().code, st, st2)
            &&& st2.pc == st.pc + 1
            &&& facing(x, st2, a, b, last_after(x, row, last))
            &&& st2.out == st.out + put_rows(
                x.m,
                dedups(x.op),
                x.r.keep as int,
                seq![row],
                last,
            )
            &&& st2.error == st.error
        }),
{
    reveal(run);
    let m = x.m;
    let code = x.big.program().code;
    let row = if right {
        b[0]
    } else {
        a[0]
    };
    let (s, at, ret) = if right {
        (x.b1, x.r.block_b, x.r.out_b)
    } else {
        (x.a1, x.r.block_a, x.r.out_a)
    };
    let ra = if a.len() > 0 {
        a.skip(1)
    } else {
        a
    };
    let rb = if b.len() > 0 {
        b.skip(1)
    } else {
        b
    };
    let u = gen_out(s, x.op, at, x.ncol as i32, x.r, None, None, 0);
    lemma_reaches_self(m, code, st);
    lemma_advance(m, code, st, st, code[st.pc]);
    let c = run(m, code[st.pc], st);
    lemma_out_grows(s, x.op, at, x.ncol as i32, x.r, 0);
    assert(u.err is None) by {
        reveal(settles);
    }
    lemma_fresh_grows(s, u);
    assert(midway(x, c, ra, rb, last)) by {
        if dedups(x.op) && last is Some {
            assert forall|j: int| 0 <= j < x.r.keep implies c.regs[#[trigger] nth(x.r.prev, j)]
                == last->0[j] by {
                assert(st.regs[nth(x.r.prev, j)] == last->0[j]);
            }
        }
    }
    assert(block(c, at, x.ncol) =~= block(st, at, x.ncol));
    let d = lemma_out_code(x, s, at, c, row, ra, rb, last);
    lemma_reaches_through(m, code, st, c, d);
    assert(d.regs[ret] == c.regs[ret]);
    lemma_advance(m, code, st, d, code[d.pc]);
    let z = run(m, code[d.pc], d);
    assert(block(z, x.r.block_a, x.ncol) =~= block(st, x.r.block_a, x.ncol));
    assert(block(z, x.r.block_b, x.ncol) =~= block(st, x.r.block_b, x.ncol));
    z
}

/// One side goes on: its next row becomes the current one, or the code leaves.
proof fn lemma_yield_code(
    x: Merge,
    st: State,
    right: bool,
    done: int,
    next: int,
    a: Seq<Seq<Val>>,
    b: Seq<Seq<Val>>,
    last: Option<Seq<Val>>,
) -> (st2: State)
    requires
        merge_stands(x),
        midway(x, st, a, b, last),
        0 <= st.pc,
        st.pc + 2 <= x.big.program().code.len(),
        0 <= done <= i32::MAX,
        0 <= next <= i32::MAX,
        x.big.program().code[st.pc] == one(
            Opcode::Yield,
            if right {
                x.r.addr_b
            } else {
                x.r.addr_a
            },
            done,
            0,
        ),
        x.big.program().code[st.pc + 1] == one(Opcode::Goto, 0, next, 0) || next == st.pc + 1,
    ensures
        reaches(x.m, x.big.program().code, st, st2),
        st2.out == st.out,
        st2.error == st.error,
        ({
            let rows = if right {
                b
            } else {
                a
            };
            if rows.len() == 0 {
                st2 == (State { pc: done, ..st })
            } else {
                &&& st2.pc == next
                &&& right ==> midway(x, st2, a, b.skip(1), last) && block(
                    st2,
                    x.r.block_b,
                    x.ncol,
                ) == b[0] && block(st2, x.r.block_a, x.ncol) == block(st, x.r.block_a, x.ncol)
                &&& !right ==> midway(x, st2, a.skip(1), b, last) && block(
                    st2,
                    x.r.block_a,
                    x.ncol,
                ) == a[0] && block(st2, x.r.block_b, x.ncol) == block(st, x.r.block_b, x.ncol)
            }
        }),
{
    reveal(run);
    let m = x.m;
    let code = x.big.program().code;
    let rows = if right {
        b
    } else {
        a
    };
    let at = if right {
        x.r.block_b
    } else {
        x.r.block_a
    };
    lemma_reaches_self(m, code, st);
    lemma_advance(m, code, st, st, code[st.pc]);
    let c = run(m, code[st.pc], st);
    if rows.len() == 0 {
        c
    } else {
        lemma_spread(st.regs, at, rows[0], x.ncol);
        let d = if next == st.pc + 1 {
            c
        } else {
            lemma_advance(m, code, st, c, code[c.pc]);
            run(m, code[c.pc], c)
        };
        assert(even(rows.skip(1), x.ncol)) by {
            assert forall|i: int| 0 <= i < rows.skip(1).len() implies (#[trigger] rows.skip(
                1,
            )[i]).len() == x.ncol by {
                assert(rows[i + 1].len() == x.ncol);
            }
        }
        assert(block(d, at, x.ncol) =~= rows[0]) by {
            assert forall|j: int| 0 <= j < x.ncol implies d.regs[#[trigger] nth(at, j)]
                == rows[0][j] by {
                assert(c.regs[nth(at, j)] == rows[0][j]);
            }
        }
        let other = if right {
            x.r.block_a
        } else {
            x.r.block_b
        };
        assert(block(d, other, x.ncol) =~= block(st, other, x.ncol)) by {
            assert forall|j: int| 0 <= j < x.ncol implies d.regs[#[trigger] nth(other, j)]
                == st.regs[nth(other, j)] by {
                assert(c.regs[nth(other, j)] == st.regs[nth(other, j)]);
            }
        }
        if dedups(x.op) {
            assert(c.regs[x.r.flag] == st.regs[x.r.flag]);
            if last is Some {
                assert forall|j: int| 0 <= j < x.r.keep implies d.regs[#[trigger] nth(
                    x.r.prev,
                    j,
                )] == last->0[j] by {
                    assert(st.regs[nth(x.r.prev, j)] == last->0[j]);
                }
            }
        }
        d
    }
}

/// What is put out of some rows.
pub open spec fn putting(x: Merge, rows: Seq<Seq<Val>>, last: Option<Seq<Val>>) -> Seq<Seq<Val>> {
    put_rows(x.m, dedups(x.op), x.r.keep as int, rows, last)
}

/// With one side exhausted the rest of the other is put out, if the operator wants it.
proof fn lemma_rest_code(
    x: Merge,
    st: State,
    right: bool,
    a: Seq<Seq<Val>>,
    b: Seq<Seq<Val>>,
    last: Option<Seq<Val>>,
) -> (st2: State)
    requires
        merge_stands(x),
        facing(x, st, a, b, last),
        right ==> a.len() == 0 && b.len() > 0 && st.pc == x.eof_a && puts_right(x.op),
        !right ==> b.len() == 0 && a.len() > 0 && st.pc == x.eof_b && x.op
            != CompoundOperator::Intersect,
    ensures
        reaches(x.m, x.big.program().code, st, st2),
        !st2.halted,
        st2.pc == x.end,
        st2.error == st.error,
        st2.out == st.out + putting(
            x,
            if right {
                b
            } else {
                a
            },
            last,
        ),
    decreases a.len() + b.len(),
{
    let m = x.m;
    let code = x.big.program().code;
    let rows = if right {
        b
    } else {
        a
    };
    let out_b = x.b1.code.len() as int;
    let out_a = x.a1.code.len() as int;
    if right {
        assert(advances(x, x.eof_a, Some((x.r.out_b, out_b)), x.r.addr_b, x.end, x.eof_a));
    } else {
        assert(advances(x, x.eof_b, Some((x.r.out_a, out_a)), x.r.addr_a, x.end, x.eof_b));
    }
    let c = lemma_call_code(x, st, right, a, b, last);
    let l = last_after(x, rows[0], last);
    let ra = if a.len() > 0 {
        a.skip(1)
    } else {
        a
    };
    let rb = if b.len() > 0 {
        b.skip(1)
    } else {
        b
    };
    let d = lemma_yield_code(
        x,
        c,
        right,
        x.end,
        if right {
            x.eof_a
        } else {
            x.eof_b
        },
        ra,
        rb,
        l,
    );
    lemma_reaches_through(m, code, st, c, d);
    lemma_put_rows_front(x, rows[0], rows.skip(1), last);
    assert(seq![rows[0]] + rows.skip(1) =~= rows);
    if rows.len() == 1 {
        assert(putting(x, rows.skip(1), l) =~= Seq::empty());
        assert(d.out =~= st.out + putting(x, rows, last));
        d
    } else {
        let z = lemma_rest_code(x, d, right, ra, rb, l);
        lemma_reaches_through(m, code, st, d, z);
        assert(z.out =~= st.out + putting(x, rows, last));
        z
    }
}

/// One side is exhausted.
proof fn lemma_exhausted_code(
    x: Merge,
    st: State,
    a: Seq<Seq<Val>>,
    b: Seq<Seq<Val>>,
    last: Option<Seq<Val>>,
) -> (st2: State)
    requires
        merge_stands(x),
        facing(x, st, a, b, last),
        a.len() == 0 && b.len() > 0 && st.pc == x.eof_a || b.len() == 0 && a.len() > 0 && st.pc
            == x.eof_b,
    ensures
        reaches(x.m, x.big.program().code, st, st2),
        !st2.halted,
        st2.pc == x.end,
        st2.error == st.error,
        st2.out == st.out + putting(x, merged(x.m, x.op, x.keys, a, b), last),
{
    reveal(run);
    let m = x.m;
    let code = x.big.program().code;
    let right = a.len() == 0;
    if right && puts_right(x.op) || !right && x.op != CompoundOperator::Intersect {
        lemma_rest_code(x, st, right, a, b, last)
    } else {
        lemma_reaches_self(m, code, st);
        lemma_advance(m, code, st, st, code[st.pc]);
        let z = run(m, code[st.pc], st);
        assert(putting(x, Seq::empty(), last) =~= Seq::empty());
        assert(st.out + Seq::<Seq<Val>>::empty() =~= st.out);
        z
    }
}

/// The current rows of both sides are compared, and the merge goes on to its end.
#[verifier::rlimit(50)]
proof fn lemma_compare_code(
    x: Merge,
    st: State,
    a: Seq<Seq<Val>>,
    b: Seq<Seq<Val>>,
    last: Option<Seq<Val>>,
) -> (st2: State)
    requires
        merge_stands(x),
        facing(x, st, a, b, last),
        a.len() > 0,
        b.len() > 0,
        st.pc == x.compare,
    ensures
        reaches(x.m, x.big.program().code, st, st2),
        !st2.halted,
        st2.pc == x.end,
        st2.error == st.error,
        st2.out == st.out + putting(x, merged(x.m, x.op, x.keys, a, b), last),
    decreases a.len() + b.len(),
{
    reveal(run);
    let m = x.m;
    let code = x.big.program().code;
    let nk = x.keys.len() as int;
    lemma_reaches_self(m, code, st);
    lemma_advance(m, code, st, st, code[st.pc]);
    let c = run(m, code[st.pc], st);
    assert(block(st, x.r.block_a, nk) =~= a[0].take(nk)) by {
        assert forall|j: int| 0 <= j < nk implies st.regs[#[trigger] nth(x.r.block_a, j)]
            == a[0][j] by {
            assert(block(st, x.r.block_a, x.ncol)[j] == a[0][j]);
        }
    }
    assert(block(st, x.r.block_b, nk) =~= b[0].take(nk)) by {
        assert forall|j: int| 0 <= j < nk implies st.regs[#[trigger] nth(x.r.block_b, j)]
            == b[0][j] by {
            assert(block(st, x.r.block_b, x.ncol)[j] == b[0][j]);
        }
    }
    let sign = row_order(m, x.keys, a[0], b[0]);
    assert(c.sign == sign);
    lemma_advance(m, code, st, c, code[c.pc]);
    let d = run(m, code[c.pc], c);
    assert(facing(x, d, a, b, last)) by {
        assert(block(d, x.r.block_a, x.ncol) =~= block(st, x.r.block_a, x.ncol));
        assert(block(d, x.r.block_b, x.ncol) =~= block(st, x.r.block_b, x.ncol));
        if dedups(x.op) && last is Some {
            assert forall|j: int| 0 <= j < x.r.keep implies d.regs[#[trigger] nth(x.r.prev, j)]
                == last->0[j] by {
                assert(st.regs[nth(x.r.prev, j)] == last->0[j]);
            }
        }
    }
    let right = sign > 0;
    let puts = if sign < 0 {
        x.op != CompoundOperator::Intersect
    } else if sign == 0 {
        x.op == CompoundOperator::Intersect || x.op == CompoundOperator::UnionAll
    } else {
        puts_right(x.op)
    };
    let out_b = x.b1.code.len() as int;
    let out_a = x.a1.code.len() as int;
    let out = if !puts {
        None
    } else if right {
        Some((x.r.out_b, out_b))
    } else {
        Some((x.r.out_a, out_a))
    };
    let (reg, done) = if right {
        (x.r.addr_b, x.eof_b)
    } else {
        (x.r.addr_a, x.eof_a)
    };
    assert(advances(x, d.pc, out, reg, done, x.compare));
    let row = if right {
        b[0]
    } else {
        a[0]
    };
    let e = if puts {
        let e = lemma_call_code(x, d, right, a, b, last);
        lemma_reaches_through(m, code, st, d, e);
        e
    } else {
        d
    };
    let l = if puts {
        last_after(x, row, last)
    } else {
        last
    };
    let g = lemma_yield_code(x, e, right, done, x.compare, a.skip(1), b.skip(1), l);
    lemma_reaches_through(m, code, st, e, g);
    let (na, nb) = if right {
        (a, b.skip(1))
    } else {
        (a.skip(1), b)
    };
    let rest = merged(m, x.op, x.keys, na, nb);
    assert(merged(m, x.op, x.keys, a, b) == (if puts {
        seq![row] + rest
    } else {
        rest
    }));
    lemma_put_rows_front(x, row, rest, last);
    assert(facing(x, g, na, nb, l));
    let z = if na.len() > 0 && nb.len() > 0 {
        lemma_compare_code(x, g, na, nb, l)
    } else {
        lemma_exhausted_code(x, g, na, nb, l)
    };
    lemma_reaches_through(m, code, st, g, z);
    assert(z.out =~= st.out + putting(x, merged(m, x.op, x.keys, a, b), last));
    z
}

/// The merge from its entry on.
proof fn lemma_entry_code(x: Merge, st: State, a: Seq<Seq<Val>>, b: Seq<Seq<Val>>) -> (st2: State)
    requires
        merge_stands(x),
        midway(x, st, a, b, None),
        st.pc == x.compare - 2,
    ensures
        reaches(x.m, x.big.program().code, st, st2),
        st2.halted,
        st2.error == st.error,
        st2.out == st.out + putting(x, merged(x.m, x.op, x.keys, a, b), None),
{
    reveal(run);
    let m = x.m;
    let code = x.big.program().code;
    let c = lemma_yield_code(x, st, false, x.eof_a_first, x.compare - 1, a, b, None);
    let z = if a.len() == 0 {
        if puts_right(x.op) {
            assert(advances(x, x.eof_a_first, None, x.r.addr_b, x.end, x.eof_a));
            let d = lemma_yield_code(x, c, true, x.end, x.eof_a, a, b, None);
            lemma_reaches_through(m, code, st, c, d);
            if b.len() == 0 {
                assert(putting(x, Seq::empty(), None) =~= Seq::empty());
                assert(st.out + Seq::<Seq<Val>>::empty() =~= st.out);
                assert(b =~= Seq::empty());
                d
            } else {
                let e = lemma_exhausted_code(x, d, a, b, None);
                lemma_reaches_through(m, code, st, d, e);
                e
            }
        } else {
            lemma_advance(m, code, st, c, code[c.pc]);
            let d = run(m, code[c.pc], c);
            assert(putting(x, Seq::empty(), None) =~= Seq::empty());
            assert(st.out + Seq::<Seq<Val>>::empty() =~= st.out);
            d
        }
    } else {
        let d = lemma_yield_code(x, c, true, x.eof_b, x.compare, a.skip(1), b, None);
        lemma_reaches_through(m, code, st, c, d);
        if b.len() == 0 {
            let e = lemma_exhausted_code(x, d, a, b, None);
            lemma_reaches_through(m, code, st, d, e);
            e
        } else {
            let e = lemma_compare_code(x, d, a, b, None);
            lemma_reaches_through(m, code, st, d, e);
            e
        }
    };
    lemma_advance(m, code, st, z, code[z.pc]);
    run(m, code[z.pc], z)
}

/// The parts of the control code of a merge.
#[verifier::opaque]
pub open spec fn merge_parts(
    s: Asm,
    m: Values,
    op: CompoundOperator,
    ncol: i32,
    keys: Seq<KeyField>,
    r: MergeRegs,
    big: Asm,
) -> Merge {
    let ls = merge_labels(s.fresh());
    let a1 = gen_merge_labels(s).bind(ls.out_a);
    let a2 = gen_out(a1, op, r.block_a, ncol, r, None, None, ls.end);
    let b1 = a2.emit(Opcode::Return, r.out_a, 0, 1).bind(ls.out_b);
    let b2 = gen_out(b1, op, r.block_b, ncol, r, None, None, ls.end);
    Merge {
        m,
        op,
        ncol: ncol as int,
        keys,
        r,
        big,
        a1,
        a2,
        b1,
        b2,
        eof_a: place(big, ls.eof_a),
        eof_a_first: place(big, ls.eof_a_first),
        eof_b: place(big, ls.eof_b),
        below: place(big, ls.below),
        equal: place(big, ls.equal),
        above: place(big, ls.above),
        compare: place(big, ls.compare),
        end: place(big, ls.end),
    }
}

#[verifier::rlimit(60)]
proof fn lemma_merge_stands(
    s: Asm,
    m: Values,
    op: CompoundOperator,
    ncol: i32,
    places: Seq<i32>,
    keys: Seq<KeyField>,
    r: MergeRegs,
    entry: int,
    big: Asm,
)
    requires
        settles(gen_merge(s, op, ncol, places, keys, r, None, None, entry), big),
        neat(s),
        s.err is None,
        spaced(r, op, ncol as int),
        in_place(places),
        keys.len() == places.len(),
        keys.len() <= ncol,
        0 <= entry < s.fresh(),
        !s.bound(entry),
    ensures
        merge_stands(merge_parts(s, m, op, ncol, keys, r, big)),
        place(big, entry) == merge_parts(s, m, op, ncol, keys, r, big).compare - 2,
{
    broadcast use {group_settled, group_grows};

    reveal(merge_parts);
    reveal(gen_merge);
    reveal(gen_outs);
    reveal(gen_eofs);
    reveal(gen_outcomes);
    reveal(gen_advance);
    reveal(gen_merge_labels);
    let x = merge_parts(s, m, op, ncol, keys, r, big);
    let ls = merge_labels(s.fresh());
    let g0 = gen_merge_labels(s);
    lemma_out_grows(x.a1, op, r.block_a, ncol, r, ls.end);
    lemma_out_grows(x.b1, op, r.block_b, ncol, r, ls.end);
    lemma_fresh_grows(x.a1, x.a2);
    lemma_fresh_grows(x.b1, x.b2);
    let o = gen_outs(g0, op, ncol, r, None, None, ls);
    let e = gen_eofs(o, op, r, ls);
    let c = gen_outcomes(e, op, r, ls);
    let y0 = c.bind(entry);
    let y1 = y0.jump(Opcode::Yield, r.addr_a, ls.eof_a_first, 0);
    let y2 = y1.jump(Opcode::Yield, r.addr_b, ls.eof_b, 0);
    let y3 = y2.bind(ls.compare);
    let y4 = y3.emit_p4(
        Opcode::Compare,
        r.key_a,
        r.key_b,
        places.len() as i32,
        P4View::KeyInfo(keys),
    );
    let y5 = y4.jump3(Opcode::Jump, ls.below, ls.equal, ls.above);
    let whole = y5.bind(ls.end).emit(Opcode::Halt, 0, 0, 0);
    assert(whole == gen_merge(s, op, ncol, places, keys, r, None, None, entry));
    assert(!y5.bound(ls.end));
    assert(settles(y5, big));
    assert(!y2.bound(ls.compare));
    assert(settles(y2, big));
    assert(!c.bound(entry));
    assert(settles(c, big));
    assert(settles(e, big));
    assert(settles(o, big));
    assert(settles(x.b1, big)) by {
        if puts_right(op) {
            assert(settles(x.b2, big));
            lemma_settles_early(x.b1, x.b2, big);
        }
    }
    assert(settles(x.a2, big));
    lemma_settles_early(x.a1, x.a2, big);
    assert(neat(x.a1));
    lemma_grows_neat(x.a1, x.a2);
    assert(neat(x.b1));
    lemma_grows_neat(x.b1, x.b2);
    assert(neat(o));
    assert(neat(e));
    assert(neat(c));
    assert(neat(whole));
    assert(big.program().code.len() <= i32::MAX) by {
        reveal(settles);
        reveal(Asm::program);
    }
    assert(x.a2 == gen_out(x.a1, op, r.block_a, ncol, r, None, None, 0)) by {
        reveal(gen_out);
    }
    assert(x.b2 == gen_out(x.b1, op, r.block_b, ncol, r, None, None, 0)) by {
        reveal(gen_out);
    }
}

/// The control code of a merge, entered with the rows of both sides still to come and nothing put
/// out, puts out what the set operator makes of them, each row once unless duplicates stay, and
/// ends.
pub proof fn law_merge_code(
    s: Asm,
    m: Values,
    op: CompoundOperator,
    ncol: i32,
    places: Seq<i32>,
    keys: Seq<KeyField>,
    r: MergeRegs,
    entry: int,
    big: Asm,
    st: State,
    a: Seq<Seq<Val>>,
    b: Seq<Seq<Val>>,
) -> (st2: State)
    requires
        settles(gen_merge(s, op, ncol, places, keys, r, None, None, entry), big),
        neat(s),
        s.err is None,
        spaced(r, op, ncol as int),
        in_place(places),
        keys.len() == places.len(),
        keys.len() <= ncol,
        0 <= entry < s.fresh(),
        !s.bound(entry),
        // The coroutines have their rows, and no row has been put out.
        st.pc == place(big, entry),
        !st.halted,
        st.streams[r.addr_a] == (Stream { rows: a, block: r.block_a }),
        st.streams[r.addr_b] == (Stream { rows: b, block: r.block_b }),
        even(a, ncol as int),
        even(b, ncol as int),
        dedups(op) ==> st.regs[r.flag] == Val::Int(0),
    ensures
        reaches(m, big.program().code, st, st2),
        st2.halted,
        st2.error == st.error,
        st2.out == st.out + put_rows(
            m,
            op != CompoundOperator::UnionAll,
            r.keep as int,
            merged(m, op, keys, a, b),
            None,
        ),
{
    let x = merge_parts(s, m, op, ncol, keys, r, big);
    lemma_merge_stands(s, m, op, ncol, places, keys, r, entry, big);
    assert(x.m == m && x.op == op && x.ncol == ncol && x.keys == keys && x.r == r && x.big == big)
        by {
        reveal(merge_parts);
    }
    lemma_entry_code(x, st, a, b)
}

} // verus!
