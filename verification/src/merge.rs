//! Merging the sorted rows of two coroutines under a compound operator.
//!
//! Coroutine A yields the rows of the left side, coroutine B those of the right side, both in the
//! order of the merge keys. The control code compares their current rows and goes to one of
//! five handlers: A is below B, equal to it or above it, A is exhausted, B is exhausted.
use vstd::prelude::*;

use crate::ast::CompoundOperator;
use crate::builder::{Asm, Label, ProgramBuilder};
use crate::emit::{emit_copies, gen_copies, gen_skip, gen_stop, group_emit};
use crate::inline::{
    emit_chosen, gen_chosen, gen_inline, gen_redirect, gen_room, halt_from, halt_of, inline_code,
    make_room, redirect, Place, PlaceView, Sink, SinkView,
};
use crate::scope::{emitted, heads_for, steady};
use crate::text::Error;
use crate::vdbe::{ascending, KeyField, Opcode, P4, P4View, Program, ProgramView};

verus! {

broadcast use group_emit;

/// The registers of a merge.
#[derive(Clone, Copy)]
pub struct MergeRegs {
    /// The coroutines.
    pub addr_a: i32,
    pub addr_b: i32,
    /// The return addresses of the output subroutines.
    pub out_a: i32,
    pub out_b: i32,
    /// The current rows.
    pub block_a: i32,
    pub block_b: i32,
    /// The keys of the current rows.
    pub key_a: i32,
    pub key_b: i32,
    /// Whether a row has been put out, and the last one; 0 where duplicates stay.
    pub flag: i32,
    pub prev: i32,
    /// How many columns tell rows apart.
    pub keep: i32,
}

/// The operator removes duplicates.
pub open spec fn dedups(op: CompoundOperator) -> bool {
    op != CompoundOperator::UnionAll
}

/// The operator puts out rows of the right side.
pub open spec fn puts_right(op: CompoundOperator) -> bool {
    op == CompoundOperator::UnionAll || op == CompoundOperator::Union
}

/// The keys of a row are its columns from left to right.
pub open spec fn in_place(places: Seq<i32>) -> bool {
    forall|i: int| 0 <= i < places.len() ==> #[trigger] places[i] == i
}

/// Whether the keys of a row are its columns from left to right.
fn keys_in_place(places: &Vec<i32>) -> (r: bool)
    ensures
        r == in_place(places@),
{
    for i in 0..places.len()
        invariant
            forall|j: int| 0 <= j < i ==> #[trigger] places@[j] == j,
    {
        if places[i] < 0 || places[i] as usize != i {
            assert(places@[i as int] != i);
            return false;
        }
    }
    true
}

/// The registers that a merge takes next. The keys of a row have registers of their own unless
/// they are its columns from left to right.
#[verifier::opaque]
pub open spec fn merge_regs(
    s: Asm,
    op: CompoundOperator,
    ncol: i32,
    keep: i32,
    places: Seq<i32>,
) -> MergeRegs {
    let s1 = s.take_regs(1);
    let s2 = s1.take_regs(1);
    let s3 = s2.take_regs(1);
    let s4 = s3.take_regs(1);
    let s5 = s4.take_regs(ncol);
    let s6 = s5.take_regs(ncol);
    let s7 = s6.take_regs(1).emit(Opcode::Integer, 0, s6.next_reg, 0);
    let s8 = if dedups(op) {
        s7.take_regs(ncol)
    } else {
        s6
    };
    let s9 = s8.take_regs(places.len() as i32);
    MergeRegs {
        addr_a: s.next_reg,
        addr_b: s1.next_reg,
        out_a: s2.next_reg,
        out_b: s3.next_reg,
        block_a: s4.next_reg,
        block_b: s5.next_reg,
        key_a: if in_place(places) { s4.next_reg } else { s8.next_reg },
        key_b: if in_place(places) { s5.next_reg } else { s9.next_reg },
        flag: if dedups(op) { s6.next_reg } else { 0 },
        prev: if dedups(op) { s7.next_reg } else { 0 },
        keep,
    }
}

/// The registers of a merge set aside, and the flag cleared.
#[verifier::opaque]
pub open spec fn gen_merge_regs(s: Asm, op: CompoundOperator, ncol: i32, places: Seq<i32>) -> Asm {
    let s = s.take_regs(1).take_regs(1).take_regs(1).take_regs(1).take_regs(ncol).take_regs(ncol);
    let s = if dedups(op) {
        s.take_regs(1).emit(Opcode::Integer, 0, s.next_reg, 0).take_regs(ncol)
    } else {
        s
    };
    if in_place(places) {
        s
    } else {
        s.take_regs(places.len() as i32).take_regs(places.len() as i32)
    }
}

/// Allocate the registers of a merge.
pub fn take_merge_regs(
    b: &mut ProgramBuilder,
    op: CompoundOperator,
    ncol: i32,
    keep: i32,
    places: &Vec<i32>,
) -> (r: MergeRegs)
    ensures
        r == merge_regs(old(b)@, op, ncol, keep, places@),
        final(b)@ == gen_merge_regs(old(b)@, op, ncol, places@),
        steady(old(b)@, final(b)@),
{
    reveal(merge_regs);
    reveal(gen_merge_regs);
    let addr_a: i32 = b.alloc_reg();
    let addr_b: i32 = b.alloc_reg();
    let out_a: i32 = b.alloc_reg();
    let out_b: i32 = b.alloc_reg();
    let block_a: i32 = b.alloc_regs(ncol);
    let block_b: i32 = b.alloc_regs(ncol);
    let mut flag: i32 = 0;
    let mut prev: i32 = 0;
    if op != CompoundOperator::UnionAll {
        flag = b.alloc_reg();
        b.emit(Opcode::Integer, 0, flag, 0);
        prev = b.alloc_regs(ncol);
    }
    let mut key_a: i32 = block_a;
    let mut key_b: i32 = block_b;
    if !keys_in_place(places) {
        key_a = b.alloc_regs(places.len() as i32);
        key_b = b.alloc_regs(places.len() as i32);
    }
    MergeRegs { addr_a, addr_b, out_a, out_b, block_a, block_b, key_a, key_b, flag, prev, keep }
}

// ---- Coroutines ----

/// A program as a coroutine: it yields its rows in the registers from `block` on. Setting the
/// coroutine up goes on at label `after`.
#[verifier::opaque]
pub open spec fn gen_coroutine(
    s: Asm,
    p: ProgramView,
    reg: i32,
    block: i32,
    ncol: i32,
    after: int,
    missing: Seq<char>,
) -> Asm {
    let s = s.jump(Opcode::InitCoroutine, reg, after, s.here().wrapping_add(1));
    match halt_from(p.code, 0) {
        None => s.fail(missing),
        Some(halt) => {
            let place = PlaceView {
                regs: s.next_reg.wrapping_sub(1),
                cursors: s.next_cursor,
                stand_in: None,
                sink: SinkView::Coroutine { block, ncol, reg },
            };
            let s = gen_room(s, p);
            let (t, map) = gen_inline(s, seq![0i32], p.code, halt, halt + 1, place, 1);
            gen_redirect(t, s.code.len() as int, map, halt, t.here().wrapping_sub(1))
        },
    }
}

/// Inline a program as a coroutine.
pub fn emit_coroutine(
    b: &mut ProgramBuilder,
    p: &Program,
    reg: i32,
    block: i32,
    ncol: i32,
    after: Label,
    missing: &str,
) -> (r: Result<(), Error>)
    requires
        after.id() < old(b)@.fresh(),
    ensures
        emitted(
            r,
            final(b)@,
            gen_coroutine(old(b)@, p@, reg, block, ncol, after.id(), missing@),
        ),
        r is Ok ==> heads_for(old(b)@, final(b)@, after.id()),
{
    reveal(gen_coroutine);
    let entry: i32 = b.cur_addr().wrapping_add(1);
    b.emit_jump(Opcode::InitCoroutine, reg, after, entry);
    let halt: usize = match halt_of(p) {
        Some(h) => h,
        None => {
            return Err(Error::lit(missing));
        },
    };
    let place = Place {
        regs: b.next_reg().wrapping_sub(1),
        cursors: b.next_cursor(),
        stand_in: None,
        sink: Sink::Coroutine { block, ncol, reg },
    };
    make_room(b, p);
    let from: usize = b.insts_len();
    let map = inline_code(b, p, halt, halt + 1, &place);
    let end: i32 = b.cur_addr().wrapping_sub(1);
    redirect(b, from, &map, halt, end);
    Ok(())
}

// ---- The control code ----

/// Keys that compare in ascending order.
pub open spec fn plain_keys(n: i32) -> Seq<KeyField> {
    Seq::new(if n > 0 { n as nat } else { 0 }, |i: int| ascending())
}

fn plain_key_info(n: i32) -> (r: Vec<KeyField>)
    ensures
        r@ == plain_keys(n),
{
    let mut r: Vec<KeyField> = Vec::new();
    let mut k: i32 = 0;
    while k < n
        invariant
            0 <= k,
            k <= n || k == 0,
            r@.len() == k,
            forall|i: int| 0 <= i < k ==> r@[i] == ascending(),
        decreases n - k,
    {
        r.push(KeyField::asc_binary());
        k = k + 1;
    }
    assert(r@ =~= plain_keys(n));
    r
}

/// The body of an output subroutine: the row in the registers from `block` on is put out, unless
/// it is a duplicate of the row before, in the columns that tell rows apart, or is skipped. The
/// code leaves for `end` when the limit is reached.
#[verifier::opaque]
pub open spec fn gen_out(
    s: Asm,
    op: CompoundOperator,
    block: i32,
    ncol: i32,
    regs: MergeRegs,
    limit: Option<i32>,
    offset: Option<i32>,
    end: int,
) -> Asm {
    let skip = s.fresh();
    let s = s.label();
    let s = if dedups(op) {
        let fresh_row = s.fresh();
        let s = s.label().jump(Opcode::IfNot, regs.flag, fresh_row, 0).emit_p4(
            Opcode::Compare,
            block,
            regs.prev,
            regs.keep,
            P4View::KeyInfo(plain_keys(regs.keep)),
        ).jump3(Opcode::Jump, fresh_row, skip, fresh_row).bind(fresh_row);
        gen_copies(s, block, regs.prev, regs.keep as int, 0).emit(Opcode::Integer, 1, regs.flag, 0)
    } else {
        s
    };
    let s = gen_skip(s, offset, skip).emit(Opcode::ResultRow, block, ncol, 0);
    gen_stop(s, limit, end).bind(skip)
}

/// Emit the body of an output subroutine.
fn emit_out_subroutine(
    b: &mut ProgramBuilder,
    op: CompoundOperator,
    block: i32,
    ncol: i32,
    regs: &MergeRegs,
    limit_reg: Option<i32>,
    offset_reg: Option<i32>,
    end: Label,
)
    requires
        end.id() < old(b)@.fresh(),
    ensures
        final(b)@ == gen_out(old(b)@, op, block, ncol, *regs, limit_reg, offset_reg, end.id()),
        heads_for(old(b)@, final(b)@, end.id()),
{
    reveal(gen_out);
    let skip = b.new_label();
    if op != CompoundOperator::UnionAll {
        let fresh_row = b.new_label();
        b.emit_jump(Opcode::IfNot, regs.flag, fresh_row, 0);
        b.emit_p4(
            Opcode::Compare,
            block,
            regs.prev,
            regs.keep,
            P4::KeyInfo(plain_key_info(regs.keep)),
        );
        b.emit_jump3(Opcode::Jump, fresh_row, skip, fresh_row);
        b.resolve(fresh_row);
        emit_copies(b, block, regs.prev, regs.keep);
        b.emit(Opcode::Integer, 1, regs.flag, 0);
    }
    if let Some(oreg) = offset_reg {
        b.emit_jump(Opcode::IfPos, oreg, skip, 1);
    }
    b.emit(Opcode::ResultRow, block, ncol, 0);
    if let Some(lreg) = limit_reg {
        b.emit_jump(Opcode::DecrJumpZero, lreg, end, 0);
    }
    b.resolve(skip);
}

/// Call the subroutine at label `out`, if it is given, then fetch the next row of a coroutine,
/// going to `done` when there is none, and go on at `next`.
#[verifier::opaque]
pub open spec fn gen_advance(
    s: Asm,
    out: Option<(i32, int)>,
    reg: i32,
    done: int,
    next: int,
) -> Asm {
    let s = match out {
        Some((r, l)) => s.jump(Opcode::Gosub, r, l, 0),
        None => s,
    };
    s.jump(Opcode::Yield, reg, done, 0).jump(Opcode::Goto, 0, next, 0)
}

/// The labels of the control code.
pub ghost struct MergeLabels {
    pub out_a: int,
    pub out_b: int,
    pub end: int,
    pub compare: int,
    pub eof_a: int,
    pub eof_a_first: int,
    pub eof_b: int,
    pub below: int,
    pub equal: int,
    pub above: int,
}

/// Labels numbered from `n` on.
pub open spec fn merge_labels(n: int) -> MergeLabels {
    MergeLabels {
        out_a: n,
        out_b: n + 1,
        end: n + 2,
        compare: n + 3,
        eof_a: n + 4,
        eof_a_first: n + 5,
        eof_b: n + 6,
        below: n + 7,
        equal: n + 8,
        above: n + 9,
    }
}

/// The labels of the control code, in the order in which they are made.
#[derive(Clone, Copy)]
struct Marks {
    out_a: Label,
    out_b: Label,
    end: Label,
    compare: Label,
    eof_a: Label,
    eof_a_first: Label,
    eof_b: Label,
    below: Label,
    equal: Label,
    above: Label,
}

/// The labels are numbered from `n` on.
spec fn numbered(m: Marks, n: int) -> bool {
    &&& m.out_a.id() == n
    &&& m.out_b.id() == n + 1
    &&& m.end.id() == n + 2
    &&& m.compare.id() == n + 3
    &&& m.eof_a.id() == n + 4
    &&& m.eof_a_first.id() == n + 5
    &&& m.eof_b.id() == n + 6
    &&& m.below.id() == n + 7
    &&& m.equal.id() == n + 8
    &&& m.above.id() == n + 9
}

/// Emission that may leave jumps to the ten labels from `n` on behind.
pub open spec fn stays_within(s0: Asm, s1: Asm, n: int) -> bool {
    &&& s0.fresh() <= s1.fresh()
    &&& s0.wf() && 0 <= n && n + 10 <= s0.fresh() ==> s1.wf()
    &&& forall|l: int| s0.bound(l) ==> #[trigger] s1.bound(l)
    &&& forall|l: int| #[trigger]
        s1.owes(l) && s0.wf() && 0 <= n && n + 10 <= s0.fresh() ==> s0.owes(l) || n <= l < n + 10
}

/// The output subroutines.
#[verifier::opaque]
pub open spec fn gen_outs(
    s: Asm,
    op: CompoundOperator,
    ncol: i32,
    regs: MergeRegs,
    limit: Option<i32>,
    offset: Option<i32>,
    ls: MergeLabels,
) -> Asm {
    let s = gen_out(s.bind(ls.out_a), op, regs.block_a, ncol, regs, limit, offset, ls.end).emit(
        Opcode::Return,
        regs.out_a,
        0,
        1,
    );
    let s = s.bind(ls.out_b);
    if puts_right(op) {
        gen_out(s, op, regs.block_b, ncol, regs, limit, offset, ls.end).emit(
            Opcode::Return,
            regs.out_b,
            0,
            1,
        )
    } else {
        s
    }
}

/// What happens when one side is exhausted.
///
/// With A exhausted, the rest of B is put out if the operator takes rows of B; the first entry is
/// for a current row of B, the second for the start, where B has none yet. With B exhausted, the
/// rest of A is put out unless the operator asks for rows of both.
#[verifier::opaque]
pub open spec fn gen_eofs(s: Asm, op: CompoundOperator, regs: MergeRegs, ls: MergeLabels) -> Asm {
    let s = s.bind(ls.eof_a);
    let s = if puts_right(op) {
        let s = gen_advance(s, Some((regs.out_b, ls.out_b)), regs.addr_b, ls.end, ls.eof_a);
        gen_advance(s.bind(ls.eof_a_first), None, regs.addr_b, ls.end, ls.eof_a)
    } else {
        s.jump(Opcode::Goto, 0, ls.end, 0).bind(ls.eof_a_first).jump(Opcode::Goto, 0, ls.end, 0)
    };
    let s = s.bind(ls.eof_b);
    if op == CompoundOperator::Intersect {
        s.jump(Opcode::Goto, 0, ls.end, 0)
    } else {
        gen_advance(s, Some((regs.out_a, ls.out_a)), regs.addr_a, ls.end, ls.eof_b)
    }
}

/// What happens for each outcome of the comparison.
#[verifier::opaque]
pub open spec fn gen_outcomes(s: Asm, op: CompoundOperator, regs: MergeRegs, ls: MergeLabels) -> Asm {
    let s = gen_advance(
        s.bind(ls.below),
        if op == CompoundOperator::Intersect {
            None
        } else {
            Some((regs.out_a, ls.out_a))
        },
        regs.addr_a,
        ls.eof_a,
        ls.compare,
    );
    let s = gen_advance(
        s.bind(ls.equal),
        if op == CompoundOperator::Intersect || op == CompoundOperator::UnionAll {
            Some((regs.out_a, ls.out_a))
        } else {
            None
        },
        regs.addr_a,
        ls.eof_a,
        ls.compare,
    );
    gen_advance(
        s.bind(ls.above),
        if puts_right(op) {
            Some((regs.out_b, ls.out_b))
        } else {
            None
        },
        regs.addr_b,
        ls.eof_b,
        ls.compare,
    )
}

/// The labels of the control code added.
#[verifier::opaque]
pub open spec fn gen_merge_labels(s: Asm) -> Asm {
    s.label().label().label().label().label().label().label().label().label().label()
}

/// The control code of a merge: the output subroutines, the handlers, the start, which `entry`
/// leads to, the comparison of the rows by the columns at `places`, and the end.
#[verifier::opaque]
pub open spec fn gen_merge(
    s: Asm,
    op: CompoundOperator,
    ncol: i32,
    places: Seq<i32>,
    keys: Seq<KeyField>,
    regs: MergeRegs,
    limit: Option<i32>,
    offset: Option<i32>,
    entry: int,
) -> Asm {
    let ls = merge_labels(s.fresh());
    let s = gen_outs(gen_merge_labels(s), op, ncol, regs, limit, offset, ls);
    let s = gen_outcomes(gen_eofs(s, op, regs, ls), op, regs, ls);
    let s = s.bind(entry).jump(Opcode::Yield, regs.addr_a, ls.eof_a_first, 0).jump(
        Opcode::Yield,
        regs.addr_b,
        ls.eof_b,
        0,
    ).bind(ls.compare);
    let s = if in_place(places) {
        s
    } else {
        gen_chosen(
            gen_chosen(s, places, regs.block_a, regs.key_a, 0),
            places,
            regs.block_b,
            regs.key_b,
            0,
        )
    };
    s.emit_p4(
        Opcode::Compare,
        regs.key_a,
        regs.key_b,
        places.len() as i32,
        P4View::KeyInfo(keys),
    ).jump3(Opcode::Jump, ls.below, ls.equal, ls.above).bind(ls.end).emit(Opcode::Halt, 0, 0, 0)
}

fn emit_advance(
    b: &mut ProgramBuilder,
    out: Option<(i32, Label)>,
    reg: i32,
    done: Label,
    next: Label,
    Ghost(n): Ghost<int>,
)
    requires
        n <= done.id() < n + 10,
        n <= next.id() < n + 10,
        out matches Some(o) ==> n <= o.1.id() < n + 10,
    ensures
        final(b)@ == gen_advance(
            old(b)@,
            match out {
                Some(o) => Some((o.0, o.1.id())),
                None => None,
            },
            reg,
            done.id(),
            next.id(),
        ),
        stays_within(old(b)@, final(b)@, n),
{
    reveal(gen_advance);
    if let Some(o) = out {
        b.emit_jump(Opcode::Gosub, o.0, o.1, 0);
    }
    b.emit_jump(Opcode::Yield, reg, done, 0);
    b.emit_jump(Opcode::Goto, 0, next, 0);
}

fn make_marks(b: &mut ProgramBuilder) -> (m: Marks)
    ensures
        final(b)@ == gen_merge_labels(old(b)@),
        numbered(m, old(b)@.fresh()),
        final(b)@.fresh() == old(b)@.fresh() + 10,
        0 <= old(b)@.fresh(),
        steady(old(b)@, final(b)@),
{
    reveal(gen_merge_labels);
    let out_a = b.new_label();
    let out_b = b.new_label();
    let end = b.new_label();
    let compare = b.new_label();
    let eof_a = b.new_label();
    let eof_a_first = b.new_label();
    let eof_b = b.new_label();
    let below = b.new_label();
    let equal = b.new_label();
    let above = b.new_label();
    Marks { out_a, out_b, end, compare, eof_a, eof_a_first, eof_b, below, equal, above }
}

fn emit_outs(
    b: &mut ProgramBuilder,
    op: CompoundOperator,
    ncol: i32,
    regs: &MergeRegs,
    limit_reg: Option<i32>,
    offset_reg: Option<i32>,
    m: &Marks,
    Ghost(n): Ghost<int>,
)
    requires
        numbered(*m, n),
        n + 10 <= old(b)@.fresh(),
    ensures
        final(b)@ == gen_outs(
            old(b)@,
            op,
            ncol,
            *regs,
            limit_reg,
            offset_reg,
            merge_labels(n),
        ),
        stays_within(old(b)@, final(b)@, n),
        0 <= n ==> final(b)@.bound(n) && final(b)@.bound(n + 1),
{
    reveal(gen_outs);
    b.resolve(m.out_a);
    emit_out_subroutine(b, op, regs.block_a, ncol, regs, limit_reg, offset_reg, m.end);
    b.emit(Opcode::Return, regs.out_a, 0, 1);
    b.resolve(m.out_b);
    if op == CompoundOperator::UnionAll || op == CompoundOperator::Union {
        emit_out_subroutine(b, op, regs.block_b, ncol, regs, limit_reg, offset_reg, m.end);
        b.emit(Opcode::Return, regs.out_b, 0, 1);
    }
}

fn emit_eofs(
    b: &mut ProgramBuilder,
    op: CompoundOperator,
    regs: &MergeRegs,
    m: &Marks,
    Ghost(n): Ghost<int>,
)
    requires
        numbered(*m, n),
        n + 10 <= old(b)@.fresh(),
    ensures
        final(b)@ == gen_eofs(old(b)@, op, *regs, merge_labels(n)),
        stays_within(old(b)@, final(b)@, n),
        0 <= n ==> final(b)@.bound(n + 4) && final(b)@.bound(n + 5) && final(b)@.bound(n + 6),
{
    reveal(gen_eofs);
    b.resolve(m.eof_a);
    if op == CompoundOperator::UnionAll || op == CompoundOperator::Union {
        emit_advance(b, Some((regs.out_b, m.out_b)), regs.addr_b, m.end, m.eof_a, Ghost(n));
        b.resolve(m.eof_a_first);
        emit_advance(b, None, regs.addr_b, m.end, m.eof_a, Ghost(n));
    } else {
        b.emit_jump(Opcode::Goto, 0, m.end, 0);
        b.resolve(m.eof_a_first);
        b.emit_jump(Opcode::Goto, 0, m.end, 0);
    }
    b.resolve(m.eof_b);
    if op == CompoundOperator::Intersect {
        b.emit_jump(Opcode::Goto, 0, m.end, 0);
    } else {
        emit_advance(b, Some((regs.out_a, m.out_a)), regs.addr_a, m.end, m.eof_b, Ghost(n));
    }
}

fn emit_outcomes(
    b: &mut ProgramBuilder,
    op: CompoundOperator,
    regs: &MergeRegs,
    m: &Marks,
    Ghost(n): Ghost<int>,
)
    requires
        numbered(*m, n),
        n + 10 <= old(b)@.fresh(),
    ensures
        final(b)@ == gen_outcomes(old(b)@, op, *regs, merge_labels(n)),
        stays_within(old(b)@, final(b)@, n),
        0 <= n ==> final(b)@.bound(n + 7) && final(b)@.bound(n + 8) && final(b)@.bound(n + 9),
{
    reveal(gen_outcomes);
    let put_a: Option<(i32, Label)> = Some((regs.out_a, m.out_a));
    let put_b: Option<(i32, Label)> = Some((regs.out_b, m.out_b));
    b.resolve(m.below);
    let out = if op == CompoundOperator::Intersect { None } else { put_a };
    emit_advance(b, out, regs.addr_a, m.eof_a, m.compare, Ghost(n));
    b.resolve(m.equal);
    let out = if op == CompoundOperator::Intersect || op == CompoundOperator::UnionAll {
        put_a
    } else {
        None
    };
    emit_advance(b, out, regs.addr_a, m.eof_a, m.compare, Ghost(n));
    b.resolve(m.above);
    let out = if op == CompoundOperator::UnionAll || op == CompoundOperator::Union {
        put_b
    } else {
        None
    };
    emit_advance(b, out, regs.addr_b, m.eof_b, m.compare, Ghost(n));
}

/// Emit the control code of a merge. `entry` is bound to its start.
pub fn emit_merge_control(
    b: &mut ProgramBuilder,
    op: CompoundOperator,
    ncol: i32,
    places: &Vec<i32>,
    merge_keyinfo: Vec<KeyField>,
    regs: &MergeRegs,
    limit_reg: Option<i32>,
    offset_reg: Option<i32>,
    entry: Label,
)
    requires
        entry.id() < old(b)@.fresh(),
    ensures
        final(b)@ == gen_merge(
            old(b)@,
            op,
            ncol,
            places@,
            merge_keyinfo@,
            *regs,
            limit_reg,
            offset_reg,
            entry.id(),
        ),
        steady(old(b)@, final(b)@),
        0 <= entry.id() ==> !final(b)@.owes(entry.id()),
{
    reveal(gen_merge);
    let ghost n = b@.fresh();
    let m = make_marks(b);
    emit_outs(b, op, ncol, regs, limit_reg, offset_reg, &m, Ghost(n));
    emit_eofs(b, op, regs, &m, Ghost(n));
    emit_outcomes(b, op, regs, &m, Ghost(n));
    b.resolve(entry);
    b.emit_jump(Opcode::Yield, regs.addr_a, m.eof_a_first, 0);
    b.emit_jump(Opcode::Yield, regs.addr_b, m.eof_b, 0);
    b.resolve(m.compare);
    if !keys_in_place(places) {
        emit_chosen(b, places, regs.block_a, regs.key_a);
        emit_chosen(b, places, regs.block_b, regs.key_b);
    }
    b.emit_p4(
        Opcode::Compare,
        regs.key_a,
        regs.key_b,
        places.len() as i32,
        P4::KeyInfo(merge_keyinfo),
    );
    b.emit_jump3(Opcode::Jump, m.below, m.equal, m.above);
    b.resolve(m.end);
    b.emit(Opcode::Halt, 0, 0, 0);
    assert forall|l: int| n <= l < n + 10 implies !(#[trigger] b@.owes(l)) by {
        assert(b@.bound(n) && b@.bound(n + 1) && b@.bound(n + 2) && b@.bound(n + 3));
        assert(b@.bound(n + 4) && b@.bound(n + 5) && b@.bound(n + 6));
        assert(b@.bound(n + 7) && b@.bound(n + 8) && b@.bound(n + 9));
        assert(b@.bound(l));
        reveal(Asm::bound);
        reveal(Asm::owes);
    }
    assert(0 <= entry.id() ==> b@.bound(entry.id()));
    proof {
        reveal(Asm::bound);
        reveal(Asm::owes);
    }
}

} // verus!
