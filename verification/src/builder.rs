//! The program builder: register allocation, instruction emission and forward-jump labels.
//!
//! Registers are 1-based; register 0 is reserved. A forward jump targets a [`Label`] whose
//! address is filled in once it is known, and [`ProgramBuilder::finish`] patches every labelled
//! jump.
//!
//! The mathematical counterpart of a builder is an [`Asm`]: the program laid out so far, or the
//! error that stopped code generation. Its operations mirror those of the builder one for one,
//! so the contract of a code generator is the assembly script of what it emits.
use vstd::prelude::*;

use crate::vdbe::{code_view, InstView, Instruction, Opcode, P4, P4View, Program, ProgramView};

verus! {

/// A state of code generation: what has been laid out so far.
///
/// Once `err` is set nothing changes any more: the first error is the outcome.
#[verifier::ext_equal]
pub ghost struct Asm {
    /// The instructions emitted so far, with placeholders for labelled jump operands.
    pub code: Seq<InstView>,
    /// The next register to hand out.
    pub next_reg: i32,
    /// The next cursor number that no instruction uses yet.
    pub next_cursor: i32,
    /// The address of each label, once bound.
    pub labels: Seq<Option<i32>>,
    /// `(instruction, label)` pairs, in the order of registration.
    pub fixups: Seq<(int, int)>,
    /// The error that stopped code generation.
    pub err: Option<Seq<char>>,
}

/// The labels registered for instruction `i`, in the order of registration.
pub open spec fn targets_of(fixups: Seq<(int, int)>, i: int) -> Seq<int>
    decreases fixups.len(),
{
    if fixups.len() == 0 {
        Seq::empty()
    } else if fixups.last().0 == i {
        targets_of(fixups.drop_last(), i).push(fixups.last().1)
    } else {
        targets_of(fixups.drop_last(), i)
    }
}

/// The address that label `l` is bound to.
pub open spec fn address_of(labels: Seq<Option<i32>>, l: int) -> i32 {
    match labels[l] {
        Some(a) => a,
        None => 0,
    }
}

/// An instruction with its labelled operands filled in: the first label registered for it goes
/// to `p2`, the second to `p1`, the third to `p3`.
pub open spec fn patched(inst: InstView, targets: Seq<int>, labels: Seq<Option<i32>>) -> InstView {
    InstView {
        p2: if targets.len() > 0 { address_of(labels, targets[0]) } else { inst.p2 },
        p1: if targets.len() > 1 { address_of(labels, targets[1]) } else { inst.p1 },
        p3: if targets.len() > 2 { address_of(labels, targets[2]) } else { inst.p3 },
        ..inst
    }
}

/// Some labelled operand stands for label `l`.
pub open spec fn targeted(fixups: Seq<(int, int)>, l: int) -> bool {
    exists|k: int| 0 <= k < fixups.len() && (#[trigger] fixups[k]).1 == l
}

/// The operand is the address of one of `n` instructions, or of what follows them.
pub open spec fn is_place(a: i32, n: nat) -> bool {
    exists|k: nat| k <= n && #[trigger] (k as i32) == a
}

/// The register `k` places after `base`.
pub open spec fn reg_at(base: i32, k: int) -> i32 {
    base.wrapping_add(k as i32)
}

impl Asm {
    /// The state before anything is emitted.
    pub open spec fn start() -> Asm {
        Asm {
            code: Seq::empty(),
            next_reg: 1,
            next_cursor: 0,
            labels: Seq::empty(),
            fixups: Seq::empty(),
            err: None,
        }
    }

    /// The address of the next instruction.
    pub open spec fn here(self) -> i32 {
        self.code.len() as i32
    }

    /// Code generation stops with an error.
    #[verifier::opaque]
    pub open spec fn fail(self, msg: Seq<char>) -> Asm {
        if self.err is Some {
            self
        } else {
            Asm { err: Some(msg), ..self }
        }
    }

    /// One more instruction.
    #[verifier::opaque]
    pub open spec fn append(self, inst: InstView) -> Asm {
        if self.err is Some {
            self
        } else {
            Asm { code: self.code.push(inst), ..self }
        }
    }

    /// One more instruction, with all its operands.
    #[verifier::inline]
    pub open spec fn emit_p45(
        self,
        opcode: Opcode,
        p1: i32,
        p2: i32,
        p3: i32,
        p4: P4View,
        p5: u8,
    ) -> Asm {
        self.append(InstView { opcode, p1, p2, p3, p4, p5 })
    }

    /// One more instruction, with a `p4` operand.
    #[verifier::inline]
    pub open spec fn emit_p4(self, opcode: Opcode, p1: i32, p2: i32, p3: i32, p4: P4View) -> Asm {
        self.append(InstView { opcode, p1, p2, p3, p4, p5: 0 })
    }

    /// One more instruction.
    #[verifier::inline]
    pub open spec fn emit(self, opcode: Opcode, p1: i32, p2: i32, p3: i32) -> Asm {
        self.append(InstView { opcode, p1, p2, p3, p4: P4View::Unused, p5: 0 })
    }

    /// Instruction `idx` has its next labelled operand filled in from label `l` at the end.
    #[verifier::opaque]
    pub open spec fn fix(self, idx: int, l: int) -> Asm {
        if self.err is Some {
            self
        } else {
            Asm { fixups: self.fixups.push((idx, l)), ..self }
        }
    }

    /// A jump to label `l`, with all its operands.
    #[verifier::opaque]
    pub open spec fn jump_p45(
        self,
        opcode: Opcode,
        p1: i32,
        l: int,
        p3: i32,
        p4: P4View,
        p5: u8,
    ) -> Asm {
        self.emit_p45(opcode, p1, 0, p3, p4, p5).fix(self.code.len() as int, l)
    }

    /// A jump to label `l`.
    #[verifier::inline]
    pub open spec fn jump(self, opcode: Opcode, p1: i32, l: int, p3: i32) -> Asm {
        self.jump_p45(opcode, p1, l, p3, P4View::Unused, 0)
    }

    /// A three-way jump: `p1`, `p2` and `p3` are the addresses of the three labels.
    #[verifier::opaque]
    pub open spec fn jump3(self, opcode: Opcode, l1: int, l2: int, l3: int) -> Asm {
        let i = self.code.len() as int;
        self.emit(opcode, 0, 0, 0).fix(i, l2).fix(i, l1).fix(i, l3)
    }

    /// `n` more registers, the first of which is `self.next_reg`.
    #[verifier::opaque]
    pub open spec fn take_regs(self, n: i32) -> Asm {
        if self.err is Some {
            self
        } else {
            Asm { next_reg: self.next_reg.wrapping_add(if n > 0 { n } else { 0 }), ..self }
        }
    }

    /// The registers below `n` are in use.
    #[verifier::opaque]
    pub open spec fn advance_regs(self, n: i32) -> Asm {
        if self.err is Some {
            self
        } else {
            Asm { next_reg: if n > self.next_reg { n } else { self.next_reg }, ..self }
        }
    }

    /// Cursor `c` is in use.
    #[verifier::opaque]
    pub open spec fn note_cursor(self, c: i32) -> Asm {
        if self.err is Some {
            self
        } else {
            Asm {
                next_cursor: if c >= self.next_cursor { c.wrapping_add(1) } else { self.next_cursor },
                ..self
            }
        }
    }

    /// A new label, whose number is `self.fresh()`.
    #[verifier::opaque]
    pub open spec fn label(self) -> Asm {
        if self.err is Some {
            self
        } else {
            Asm { labels: self.labels.push(None), ..self }
        }
    }

    /// The number of the label that [`Asm::label`] adds.
    #[verifier::opaque]
    pub open spec fn fresh(self) -> int {
        self.labels.len() as int
    }

    /// Label `l` stands for the next instruction.
    #[verifier::opaque]
    pub open spec fn bind(self, l: int) -> Asm {
        if self.err is Some || !(0 <= l < self.labels.len()) {
            self
        } else {
            Asm { labels: self.labels.update(l, Some(self.here())), ..self }
        }
    }

    /// The code is replaced, instruction by instruction, by `code`.
    #[verifier::opaque]
    pub open spec fn with_code(self, code: Seq<InstView>) -> Asm {
        if self.err is Some {
            self
        } else {
            Asm { code, ..self }
        }
    }

    /// Label `l` has an address.
    #[verifier::opaque]
    pub open spec fn bound(self, l: int) -> bool {
        0 <= l < self.labels.len() && self.labels[l] is Some
    }

    /// Some jump targets label `l`, which has no address yet.
    #[verifier::opaque]
    pub open spec fn owes(self, l: int) -> bool {
        !(0 <= l < self.labels.len() && self.labels[l] is Some) && targeted(self.fixups, l)
    }

    /// Every labelled operand belongs to an instruction and to a label, no instruction has more
    /// than three of them, and a bound label stands for an instruction or for the end of the code.
    #[verifier::opaque]
    pub open spec fn wf(self) -> bool {
        &&& forall|k: int|
            0 <= k < self.fixups.len() ==> 0 <= (#[trigger] self.fixups[k]).0 < self.code.len()
                && 0 <= self.fixups[k].1 < self.labels.len()
        &&& forall|i: int| (#[trigger] targets_of(self.fixups, i)).len() <= 3
        &&& forall|l: int|
            0 <= l < self.labels.len() && (#[trigger] self.labels[l]) is Some ==> is_place(
                self.labels[l]->0,
                self.code.len(),
            )
    }

    /// Nothing is left to be bound: the program can be finished.
    pub open spec fn complete(self) -> bool {
        self.wf() && forall|l: int| !(#[trigger] self.owes(l))
    }

    /// The finished program.
    #[verifier::opaque]
    pub open spec fn program(self) -> ProgramView {
        ProgramView {
            code: Seq::new(
                self.code.len(),
                |i: int| patched(self.code[i], targets_of(self.fixups, i), self.labels),
            ),
            num_registers: #[verifier::truncate] (self.next_reg as usize),
            num_cursors: self.next_cursor as usize,
        }
    }
}

/// No label is registered for an instruction beyond those that `fixups` names.
proof fn lemma_no_targets(fixups: Seq<(int, int)>, i: int)
    requires
        forall|k: int| 0 <= k < fixups.len() ==> (#[trigger] fixups[k]).0 != i,
    ensures
        targets_of(fixups, i).len() == 0,
    decreases fixups.len(),
{
    if fixups.len() > 0 {
        assert forall|k: int| 0 <= k < fixups.drop_last().len() implies (
        #[trigger] fixups.drop_last()[k]).0 != i by {
            assert(fixups[k].0 != i);
        }
        lemma_no_targets(fixups.drop_last(), i);
    }
}

/// Each label registered for an instruction comes from one of the fixups.
proof fn lemma_targets_from_fixups(fixups: Seq<(int, int)>, i: int, n: int)
    requires
        0 <= n < targets_of(fixups, i).len(),
    ensures
        exists|k: int|
            0 <= k < fixups.len() && (#[trigger] fixups[k]).0 == i && fixups[k].1 == targets_of(
                fixups,
                i,
            )[n],
    decreases fixups.len(),
{
    let rest = fixups.drop_last();
    if fixups.last().0 == i && n == targets_of(rest, i).len() {
        assert(fixups[fixups.len() - 1].0 == i);
    } else {
        lemma_targets_from_fixups(rest, i, n);
        let k = choose|k: int|
            0 <= k < rest.len() && (#[trigger] rest[k]).0 == i && rest[k].1 == targets_of(rest, i)[n];
        assert(fixups[k] == rest[k]);
    }
}

pub broadcast proof fn asm_fail(s: Asm, msg: Seq<char>)
    ensures
        #![trigger s.fail(msg)]
        s.err is Some ==> s.fail(msg) == s,
        s.err is None ==> s.fail(msg).err == Some(msg),
{
    reveal(Asm::fail);
}

pub broadcast proof fn asm_append(s: Asm, inst: InstView)
    ensures
        #![trigger s.append(inst)]
        s.err is Some ==> s.append(inst) == s,
        s.append(inst).err == s.err,
        s.append(inst).fresh() == s.fresh(),
        s.append(inst).next_reg == s.next_reg,
        s.err is None ==> s.append(inst).code == s.code.push(inst),
        s.wf() ==> s.append(inst).wf(),
{
    reveal(Asm::append);
    reveal(Asm::fresh);
    reveal(Asm::wf);
}

pub broadcast proof fn asm_append_labels(s: Asm, inst: InstView, l: int)
    ensures
        #![trigger s.append(inst).owes(l)]
        #![trigger s.append(inst).bound(l)]
        s.append(inst).owes(l) == s.owes(l),
        s.append(inst).bound(l) == s.bound(l),
{
    reveal(Asm::append);
    reveal(Asm::owes);
    reveal(Asm::bound);
}

pub broadcast proof fn asm_take_regs(s: Asm, n: i32)
    ensures
        #![trigger s.take_regs(n)]
        s.err is Some ==> s.take_regs(n) == s,
        s.take_regs(n).err == s.err,
        s.take_regs(n).fresh() == s.fresh(),
        s.take_regs(n).code == s.code,
        s.wf() ==> s.take_regs(n).wf(),
{
    reveal(Asm::take_regs);
    reveal(Asm::fresh);
    reveal(Asm::wf);
}

pub broadcast proof fn asm_take_regs_labels(s: Asm, n: i32, l: int)
    ensures
        #![trigger s.take_regs(n).owes(l)]
        #![trigger s.take_regs(n).bound(l)]
        s.take_regs(n).owes(l) == s.owes(l),
        s.take_regs(n).bound(l) == s.bound(l),
{
    reveal(Asm::take_regs);
    reveal(Asm::owes);
    reveal(Asm::bound);
}

pub broadcast proof fn asm_advance_regs(s: Asm, n: i32)
    ensures
        #![trigger s.advance_regs(n)]
        s.err is Some ==> s.advance_regs(n) == s,
        s.advance_regs(n).err == s.err,
        s.advance_regs(n).fresh() == s.fresh(),
        s.advance_regs(n).code == s.code,
        s.wf() ==> s.advance_regs(n).wf(),
{
    reveal(Asm::advance_regs);
    reveal(Asm::fresh);
    reveal(Asm::wf);
}

pub broadcast proof fn asm_advance_regs_labels(s: Asm, n: i32, l: int)
    ensures
        #![trigger s.advance_regs(n).owes(l)]
        #![trigger s.advance_regs(n).bound(l)]
        s.advance_regs(n).owes(l) == s.owes(l),
        s.advance_regs(n).bound(l) == s.bound(l),
{
    reveal(Asm::advance_regs);
    reveal(Asm::owes);
    reveal(Asm::bound);
}

pub broadcast proof fn asm_note_cursor(s: Asm, c: i32)
    ensures
        #![trigger s.note_cursor(c)]
        s.err is Some ==> s.note_cursor(c) == s,
        s.note_cursor(c).err == s.err,
        s.note_cursor(c).fresh() == s.fresh(),
        s.note_cursor(c).next_reg == s.next_reg,
        s.note_cursor(c).code == s.code,
        s.wf() ==> s.note_cursor(c).wf(),
{
    reveal(Asm::note_cursor);
    reveal(Asm::fresh);
    reveal(Asm::wf);
}

pub broadcast proof fn asm_note_cursor_labels(s: Asm, c: i32, l: int)
    ensures
        #![trigger s.note_cursor(c).owes(l)]
        #![trigger s.note_cursor(c).bound(l)]
        s.note_cursor(c).owes(l) == s.owes(l),
        s.note_cursor(c).bound(l) == s.bound(l),
{
    reveal(Asm::note_cursor);
    reveal(Asm::owes);
    reveal(Asm::bound);
}

pub broadcast proof fn asm_with_code(s: Asm, code: Seq<InstView>)
    ensures
        #![trigger s.with_code(code)]
        s.err is Some ==> s.with_code(code) == s,
        s.with_code(code).err == s.err,
        s.with_code(code).fresh() == s.fresh(),
        s.with_code(code).next_reg == s.next_reg,
        s.err is None ==> s.with_code(code).code == code,
        s.wf() && code.len() == s.code.len() ==> s.with_code(code).wf(),
{
    reveal(Asm::with_code);
    reveal(Asm::fresh);
    reveal(Asm::wf);
}

pub broadcast proof fn asm_with_code_labels(s: Asm, code: Seq<InstView>, l: int)
    ensures
        #![trigger s.with_code(code).owes(l)]
        #![trigger s.with_code(code).bound(l)]
        s.with_code(code).owes(l) == s.owes(l),
        s.with_code(code).bound(l) == s.bound(l),
{
    reveal(Asm::with_code);
    reveal(Asm::owes);
    reveal(Asm::bound);
}

pub broadcast proof fn asm_label(s: Asm)
    ensures
        #![trigger s.label()]
        s.err is Some ==> s.label() == s,
        s.label().err == s.err,
        s.fresh() >= 0,
        s.label().fresh() == s.fresh() + (if s.err is None { 1int } else { 0 }),
        s.label().next_reg == s.next_reg,
        s.label().code == s.code,
        s.wf() ==> s.label().wf(),
{
    reveal(Asm::label);
    reveal(Asm::fresh);
    reveal(Asm::wf);
}

pub broadcast proof fn asm_label_labels(s: Asm, l: int)
    ensures
        #![trigger s.label().owes(l)]
        #![trigger s.label().bound(l)]
        s.label().owes(l) ==> s.owes(l),
        s.label().bound(l) == s.bound(l),
{
    reveal(Asm::label);
    reveal(Asm::owes);
    reveal(Asm::bound);
}

pub broadcast proof fn asm_bind(s: Asm, l: int)
    ensures
        #![trigger s.bind(l)]
        s.err is Some ==> s.bind(l) == s,
        s.bind(l).err == s.err,
        s.bind(l).fresh() == s.fresh(),
        s.bind(l).next_reg == s.next_reg,
        s.bind(l).code == s.code,
        s.wf() ==> s.bind(l).wf(),
{
    reveal(Asm::bind);
    reveal(Asm::fresh);
    reveal(Asm::wf);
}

pub broadcast proof fn asm_bind_labels(s: Asm, l0: int, l: int)
    ensures
        #![trigger s.bind(l0).owes(l)]
        #![trigger s.bind(l0).bound(l)]
        s.err is None && 0 <= l0 < s.fresh() ==> s.bind(l0).bound(l) == (s.bound(l) || l == l0),
        s.err is None && 0 <= l0 < s.fresh() ==> s.bind(l0).owes(l) == (s.owes(l) && l != l0),
        s.bound(l) ==> s.bind(l0).bound(l),
        s.bind(l0).owes(l) ==> s.owes(l),
{
    reveal(Asm::bind);
    reveal(Asm::fresh);
    reveal(Asm::owes);
    reveal(Asm::bound);
}

/// A jump leads to a label that exists.
pub broadcast proof fn asm_owed(s: Asm, l: int)
    ensures
        s.wf() && #[trigger] s.owes(l) ==> 0 <= l < s.fresh(),
{
    reveal(Asm::wf);
    reveal(Asm::owes);
    reveal(Asm::fresh);
}

/// A bound label exists.
pub broadcast proof fn asm_bound(s: Asm, l: int)
    ensures
        #[trigger] s.bound(l) ==> 0 <= l < s.fresh(),
{
    reveal(Asm::bound);
    reveal(Asm::fresh);
}

pub broadcast proof fn asm_fix(s: Asm, idx: int, l: int)
    ensures
        #![trigger s.fix(idx, l)]
        s.err is Some ==> s.fix(idx, l) == s,
        s.fix(idx, l).err == s.err,
        s.fix(idx, l).fresh() == s.fresh(),
        s.fix(idx, l).next_reg == s.next_reg,
        s.fix(idx, l).code == s.code,
{
    reveal(Asm::fix);
    reveal(Asm::fresh);
}

pub broadcast proof fn asm_fix_labels(s: Asm, idx: int, l0: int, l: int)
    ensures
        #![trigger s.fix(idx, l0).owes(l)]
        #![trigger s.fix(idx, l0).bound(l)]
        s.fix(idx, l0).owes(l) ==> s.owes(l) || (l == l0 && !s.bound(l0)),
        s.fix(idx, l0).bound(l) == s.bound(l),
{
    reveal(Asm::fix);
    reveal(Asm::owes);
    reveal(Asm::bound);
    if s.err is None && s.fix(idx, l0).owes(l) {
        let t = s.fix(idx, l0);
        let k = choose|k: int| 0 <= k < t.fixups.len() && (#[trigger] t.fixups[k]).1 == l;
        if k < s.fixups.len() {
            assert(s.fixups[k].1 == l);
        }
    }
}

/// A label may be registered for an instruction that has fewer than three.
pub proof fn lemma_fix_wf(s: Asm, idx: int, l: int)
    requires
        s.wf(),
        s.err is None,
        0 <= idx < s.code.len(),
        0 <= l < s.fresh(),
        targets_of(s.fixups, idx).len() <= 2,
    ensures
        s.fix(idx, l).wf(),
        targets_of(s.fix(idx, l).fixups, idx).len() == targets_of(s.fixups, idx).len() + 1,
        forall|i: int|
            i != idx ==> #[trigger] targets_of(s.fix(idx, l).fixups, i) == targets_of(s.fixups, i),
{
    reveal(Asm::fix);
    reveal(Asm::wf);
    reveal(Asm::fresh);
    let t = s.fix(idx, l);
    assert(t.fixups.drop_last() =~= s.fixups);
    assert forall|k: int| 0 <= k < t.fixups.len() implies 0 <= (#[trigger] t.fixups[k]).0
        < t.code.len() && 0 <= t.fixups[k].1 < t.labels.len() by {
        if k < s.fixups.len() {
            assert(t.fixups[k] == s.fixups[k]);
        }
    }
    assert forall|i: int| (#[trigger] targets_of(t.fixups, i)).len() <= 3 by {
        assert(targets_of(s.fixups, i).len() <= 3);
    }
}

/// No label is registered for an instruction that has not been emitted yet.
pub proof fn lemma_fresh_instruction(s: Asm, i: int)
    requires
        s.wf(),
        i >= s.code.len(),
    ensures
        targets_of(s.fixups, i).len() == 0,
{
    reveal(Asm::wf);
    lemma_no_targets(s.fixups, i);
}

pub broadcast proof fn asm_jump(
    s: Asm,
    opcode: Opcode,
    p1: i32,
    l: int,
    p3: i32,
    p4: P4View,
    p5: u8,
)
    ensures
        #![trigger s.jump_p45(opcode, p1, l, p3, p4, p5)]
        s.err is Some ==> s.jump_p45(opcode, p1, l, p3, p4, p5) == s,
        s.jump_p45(opcode, p1, l, p3, p4, p5).err == s.err,
        s.jump_p45(opcode, p1, l, p3, p4, p5).fresh() == s.fresh(),
        s.jump_p45(opcode, p1, l, p3, p4, p5).next_reg == s.next_reg,
        s.err is None ==> s.jump_p45(opcode, p1, l, p3, p4, p5).code == s.code.push(
            (InstView { opcode, p1, p2: 0, p3, p4, p5 }),
        ),
        s.wf() && 0 <= l < s.fresh() ==> s.jump_p45(opcode, p1, l, p3, p4, p5).wf(),
{
    broadcast use {asm_append, asm_fix};

    reveal(Asm::jump_p45);
    if s.wf() && 0 <= l < s.fresh() && s.err is None {
        let t = s.emit_p45(opcode, p1, 0, p3, p4, p5);
        lemma_fresh_instruction(s, s.code.len() as int);
        assert(t.fixups == s.fixups) by {
            reveal(Asm::append);
        }
        lemma_fix_wf(t, s.code.len() as int, l);
    }
}

pub broadcast proof fn asm_jump_labels(
    s: Asm,
    opcode: Opcode,
    p1: i32,
    l0: int,
    p3: i32,
    p4: P4View,
    p5: u8,
    l: int,
)
    ensures
        #![trigger s.jump_p45(opcode, p1, l0, p3, p4, p5).owes(l)]
        #![trigger s.jump_p45(opcode, p1, l0, p3, p4, p5).bound(l)]
        s.jump_p45(opcode, p1, l0, p3, p4, p5).owes(l) ==> s.owes(l) || (l == l0 && !s.bound(l0)),
        s.jump_p45(opcode, p1, l0, p3, p4, p5).bound(l) == s.bound(l),
{
    broadcast use {asm_append_labels, asm_fix_labels};

    reveal(Asm::jump_p45);
}

pub broadcast proof fn asm_jump3(s: Asm, opcode: Opcode, l1: int, l2: int, l3: int)
    ensures
        #![trigger s.jump3(opcode, l1, l2, l3)]
        s.err is Some ==> s.jump3(opcode, l1, l2, l3) == s,
        s.jump3(opcode, l1, l2, l3).err == s.err,
        s.jump3(opcode, l1, l2, l3).fresh() == s.fresh(),
        s.jump3(opcode, l1, l2, l3).next_reg == s.next_reg,
        s.err is None ==> s.jump3(opcode, l1, l2, l3).code.len() == s.code.len() + 1,
        s.wf() && 0 <= l1 < s.fresh() && 0 <= l2 < s.fresh() && 0 <= l3 < s.fresh() ==> s.jump3(
            opcode,
            l1,
            l2,
            l3,
        ).wf(),
{
    broadcast use {asm_append, asm_fix};

    reveal(Asm::jump3);
    if s.wf() && 0 <= l1 < s.fresh() && 0 <= l2 < s.fresh() && 0 <= l3 < s.fresh()
        && s.err is None {
        let i = s.code.len() as int;
        let t = s.emit(opcode, 0, 0, 0);
        lemma_fresh_instruction(s, i);
        assert(t.fixups == s.fixups) by {
            reveal(Asm::append);
        }
        lemma_fix_wf(t, i, l2);
        lemma_fix_wf(t.fix(i, l2), i, l1);
        lemma_fix_wf(t.fix(i, l2).fix(i, l1), i, l3);
    }
}

pub broadcast proof fn asm_jump3_labels(
    s: Asm,
    opcode: Opcode,
    l1: int,
    l2: int,
    l3: int,
    l: int,
)
    ensures
        #![trigger s.jump3(opcode, l1, l2, l3).owes(l)]
        #![trigger s.jump3(opcode, l1, l2, l3).bound(l)]
        s.jump3(opcode, l1, l2, l3).owes(l) ==> s.owes(l) || (!s.bound(l) && (l == l1 || l == l2
            || l == l3)),
        s.jump3(opcode, l1, l2, l3).bound(l) == s.bound(l),
{
    broadcast use {asm_append_labels, asm_fix_labels};

    reveal(Asm::jump3);
}

pub broadcast proof fn asm_start(l: int)
    ensures
        #![trigger Asm::start().owes(l)]
        !Asm::start().owes(l),
{
    reveal(Asm::owes);
}

pub broadcast proof fn asm_start_wf()
    ensures
        #[trigger] Asm::start().wf(),
{
    reveal(Asm::wf);
}

/// Every labelled operand of a finished program leads to an instruction of the program, or to its
/// end: the first label of an instruction is in `p2`, the second in `p1` and the third in `p3`.
pub proof fn law_jumps_land(s: Asm, i: int)
    requires
        s.complete(),
        0 <= i < s.code.len(),
    ensures
        ({
            let inst = s.program().code[i];
            let n = targets_of(s.fixups, i).len();
            &&& n > 0 ==> is_place(inst.p2, s.program().code.len())
            &&& n > 1 ==> is_place(inst.p1, s.program().code.len())
            &&& n > 2 ==> is_place(inst.p3, s.program().code.len())
            &&& n <= 3
        }),
{
    reveal(Asm::program);
    reveal(Asm::wf);
    let ts = targets_of(s.fixups, i);
    assert forall|n: int| 0 <= n < ts.len() implies is_place(
        address_of(s.labels, #[trigger] ts[n]),
        s.code.len(),
    ) by {
        lemma_targets_from_fixups(s.fixups, i, n);
        let k = choose|k: int|
            0 <= k < s.fixups.len() && (#[trigger] s.fixups[k]).0 == i && s.fixups[k].1 == ts[n];
        let l = s.fixups[k].1;
        assert(targeted(s.fixups, l));
        assert(!s.owes(l));
        reveal(Asm::owes);
    }
    assert(ts.len() <= 3);
}

/// The operands of an instruction without labels are the ones that it was emitted with.
pub proof fn law_other_operands_stay(s: Asm, i: int)
    requires
        0 <= i < s.code.len(),
    ensures
        ({
            let inst = s.program().code[i];
            &&& inst.opcode == s.code[i].opcode
            &&& inst.p4 == s.code[i].p4
            &&& inst.p5 == s.code[i].p5
            &&& targets_of(s.fixups, i).len() == 0 ==> inst == s.code[i]
        }),
{
    reveal(Asm::program);
}

/// A call that changes a builder.
pub ghost enum Call {
    /// A request for registers.
    Registers(i32),
    /// The registers below a number put to use.
    Advance(i32),
    /// A cursor put to use.
    Cursor(i32),
    /// An instruction.
    Append(InstView),
    /// A jump, with all its operands.
    Jump(Opcode, i32, int, i32, P4View, u8),
    /// A three-way jump.
    Jump3(Opcode, int, int, int),
    /// A labelled operand of an instruction.
    Fix(int, int),
    /// A new label.
    Label,
    /// A label given its address.
    Bind(int),
    /// The code replaced.
    Code(Seq<InstView>),
}

/// The state after a call.
pub open spec fn called(s: Asm, c: Call) -> Asm {
    match c {
        Call::Registers(n) => s.take_regs(n),
        Call::Advance(n) => s.advance_regs(n),
        Call::Cursor(c) => s.note_cursor(c),
        Call::Append(inst) => s.append(inst),
        Call::Jump(opcode, p1, l, p3, p4, p5) => s.jump_p45(opcode, p1, l, p3, p4, p5),
        Call::Jump3(opcode, l1, l2, l3) => s.jump3(opcode, l1, l2, l3),
        Call::Fix(idx, l) => s.fix(idx, l),
        Call::Label => s.label(),
        Call::Bind(l) => s.bind(l),
        Call::Code(code) => s.with_code(code),
    }
}

/// The state of a new builder after the first `k` calls.
pub open spec fn ran(calls: Seq<Call>, k: int) -> Asm
    decreases k,
{
    if k <= 0 || k > calls.len() {
        Asm::start()
    } else {
        called(ran(calls, k - 1), calls[k - 1])
    }
}

/// How many registers a call is handed.
pub open spec fn handed(c: Call) -> int {
    match c {
        Call::Registers(n) => if n > 0 {
            n as int
        } else {
            0
        },
        _ => 0,
    }
}

/// No request goes past the last register number.
pub open spec fn within_numbers(calls: Seq<Call>) -> bool {
    forall|k: int|
        0 <= k < calls.len() ==> (#[trigger] ran(calls, k)).next_reg + handed(calls[k]) <= i32::MAX
}

proof fn lemma_registers_grow(calls: Seq<Call>, i: int, k: int)
    requires
        within_numbers(calls),
        0 <= i < k <= calls.len(),
    ensures
        1 <= ran(calls, i).next_reg,
        ran(calls, i).err is None,
        ran(calls, i).next_reg + handed(calls[i]) <= ran(calls, k).next_reg,
    decreases k,
{
    reveal(Asm::take_regs);
    reveal(Asm::advance_regs);
    reveal(Asm::note_cursor);
    reveal(Asm::append);
    reveal(Asm::fix);
    reveal(Asm::jump_p45);
    reveal(Asm::jump3);
    reveal(Asm::label);
    reveal(Asm::bind);
    reveal(Asm::with_code);
    if k > 1 {
        if i < k - 1 {
            lemma_registers_grow(calls, i, k - 1);
        }
        lemma_registers_grow(calls, k - 2, k - 1);
    }
    let before = ran(calls, k - 1);
    assert(before.next_reg + handed(calls[k - 1]) <= i32::MAX);
    assert(ran(calls, k) == called(before, calls[k - 1]));
}

/// Whatever a new builder is called for, in whatever order, the registers that it hands out are
/// numbered from 1 on, and no two requests are handed the same register, up to the last number
/// there is.
pub proof fn law_registers_apart(calls: Seq<Call>, i: int, j: int)
    requires
        within_numbers(calls),
        0 <= i < j < calls.len(),
    ensures
        ran(calls, 0).next_reg == 1,
        1 <= ran(calls, i).next_reg,
        ran(calls, i).next_reg + handed(calls[i]) <= ran(calls, j).next_reg,
{
    lemma_registers_grow(calls, i, j);
}

/// A request for registers changes nothing else.
pub proof fn law_requests_take_registers_only(s: Asm, n: i32)
    ensures
        s.take_regs(n) == (Asm { next_reg: s.take_regs(n).next_reg, ..s }),
{
    reveal(Asm::take_regs);
}

pub broadcast group group_asm {
    asm_fail,
    asm_append,
    asm_append_labels,
    asm_take_regs,
    asm_take_regs_labels,
    asm_advance_regs,
    asm_advance_regs_labels,
    asm_note_cursor,
    asm_note_cursor_labels,
    asm_with_code,
    asm_with_code_labels,
    asm_label,
    asm_label_labels,
    asm_bind,
    asm_bind_labels,
    asm_owed,
    asm_bound,
    asm_fix,
    asm_fix_labels,
    asm_jump,
    asm_jump_labels,
    asm_jump3,
    asm_jump3_labels,
    asm_start,
    asm_start_wf,
    builder_live,
}

/// A forward-jump target, bound later with [`ProgramBuilder::resolve`].
#[derive(Clone, Copy, PartialEq, Eq, Structural, Debug)]
pub struct Label(usize);

impl Label {
    /// The number of the label.
    pub closed spec fn id(self) -> int {
        self.0 as int
    }
}

/// Builds a [`Program`] instruction by instruction.
pub struct ProgramBuilder {
    insts: Vec<Instruction>,
    next_reg: i32,
    next_cursor: i32,
    /// Address of each label, once resolved.
    label_addr: Vec<Option<i32>>,
    /// `(instruction, label)` pairs whose operand must be patched to the label's address.
    fixups: Vec<(usize, Label)>,
}

spec fn fixups_view(s: Seq<(usize, Label)>) -> Seq<(int, int)> {
    Seq::new(s.len(), |i: int| (s[i].0 as int, s[i].1.id()))
}

impl View for ProgramBuilder {
    type V = Asm;

    closed spec fn view(&self) -> Asm {
        Asm {
            code: code_view(self.insts@),
            next_reg: self.next_reg,
            next_cursor: self.next_cursor,
            labels: self.label_addr@,
            fixups: fixups_view(self.fixups@),
            err: None,
        }
    }
}

/// A builder is never in a failed state: a code generator that fails hands its builder back
/// unused.
pub broadcast proof fn builder_live(b: ProgramBuilder)
    ensures
        (#[trigger] b@).err is None,
{
}

/// The register `k` places after `base`.
pub fn reg_off(base: i32, k: usize) -> (r: i32)
    ensures
        r == reg_at(base, k as int),
{
    base.wrapping_add(k as i32)
}

impl ProgramBuilder {
    /// An empty program.
    pub fn new() -> (b: ProgramBuilder)
        ensures
            b@ == Asm::start(),
    {
        let b = ProgramBuilder {
            insts: Vec::new(),
            next_reg: 1,
            next_cursor: 0,
            label_addr: Vec::new(),
            fixups: Vec::new(),
        };
        assert(b@ =~= Asm::start());
        b
    }

    /// Allocate one register.
    pub fn alloc_reg(&mut self) -> (r: i32)
        ensures
            r == old(self)@.next_reg,
            final(self)@ == old(self)@.take_regs(1),
    {
        reveal(Asm::take_regs);
        let r: i32 = self.next_reg;
        self.next_reg = self.next_reg.wrapping_add(1);
        r
    }

    /// Allocate `n` contiguous registers, returning the first; a negative `n` allocates none.
    pub fn alloc_regs(&mut self, n: i32) -> (r: i32)
        ensures
            r == old(self)@.next_reg,
            final(self)@ == old(self)@.take_regs(n),
    {
        reveal(Asm::take_regs);
        let r: i32 = self.next_reg;
        let count: i32 = if n > 0 {
            n
        } else {
            0
        };
        self.next_reg = self.next_reg.wrapping_add(count);
        r
    }

    /// The next register that would be handed out.
    pub fn next_reg(&self) -> (r: i32)
        ensures
            r == self@.next_reg,
    {
        self.next_reg
    }

    /// Mark the registers below `n` as used.
    pub fn advance_regs(&mut self, n: i32)
        ensures
            final(self)@ == old(self)@.advance_regs(n),
    {
        reveal(Asm::advance_regs);
        if n > self.next_reg {
            self.next_reg = n;
        }
    }

    /// The next cursor number that is not in use.
    pub fn next_cursor(&self) -> (r: i32)
        ensures
            r == self@.next_cursor,
    {
        self.next_cursor
    }

    /// Mark cursor `c` as used.
    pub fn note_cursor(&mut self, c: i32)
        ensures
            final(self)@ == old(self)@.note_cursor(c),
    {
        reveal(Asm::note_cursor);
        if c >= self.next_cursor {
            self.next_cursor = c.wrapping_add(1);
        }
    }

    /// The address the next emitted instruction will have.
    pub fn cur_addr(&self) -> (r: i32)
        ensures
            r == self@.here(),
    {
        self.insts.len() as i32
    }

    /// The number of instructions emitted so far.
    pub fn insts_len(&self) -> (r: usize)
        ensures
            r == self@.code.len(),
    {
        self.insts.len()
    }

    /// Register `label` for the instruction at index `idx`, whose next labelled operand is
    /// patched to the label's address by [`ProgramBuilder::finish`].
    pub fn add_fixup(&mut self, idx: usize, label: Label)
        ensures
            final(self)@ == old(self)@.fix(idx as int, label.id()),
    {
        reveal(Asm::fix);
        self.fixups.push((idx, label));
        assert(fixups_view(self.fixups@) =~= old(self)@.fixups.push((idx as int, label.id())));
    }

    /// The address of `label`, or `None` while it has none.
    pub fn label_addr_of(&self, label: Label) -> (r: Option<i32>)
        requires
            label.id() < self@.fresh(),
        ensures
            r == self@.labels[label.id()],
    {
        reveal(Asm::fresh);
        self.label_addr[label.0]
    }

    /// Emit `opcode p1 p2 p3` and return its index.
    pub fn emit(&mut self, opcode: Opcode, p1: i32, p2: i32, p3: i32) -> (idx: usize)
        ensures
            final(self)@ == old(self)@.emit(opcode, p1, p2, p3),
            idx == old(self)@.code.len(),
    {
        self.append(Instruction::new(opcode, p1, p2, p3));
        broadcast use asm_append;

        self.insts.len() - 1
    }

    /// Set the `p4` operand of an instruction.
    pub fn set_p4(&mut self, idx: usize, p4: P4)
        requires
            idx < old(self)@.code.len(),
        ensures
            final(self)@ == old(self)@.with_code(
                old(self)@.code.update(
                    idx as int,
                    (InstView { p4: p4@, ..old(self)@.code[idx as int] }),
                ),
            ),
    {
        reveal(Asm::with_code);
        self.insts[idx].p4 = p4;
        assert(self@.code =~= old(self)@.code.update(
            idx as int,
            InstView { p4: p4@, ..old(self)@.code[idx as int] },
        ));
    }

    /// Set the `p5` flag byte of an instruction.
    pub fn set_p5(&mut self, idx: usize, p5: u8)
        requires
            idx < old(self)@.code.len(),
        ensures
            final(self)@ == old(self)@.with_code(
                old(self)@.code.update(
                    idx as int,
                    (InstView { p5, ..old(self)@.code[idx as int] }),
                ),
            ),
    {
        reveal(Asm::with_code);
        self.insts[idx].p5 = p5;
        assert(self@.code =~= old(self)@.code.update(
            idx as int,
            InstView { p5, ..old(self)@.code[idx as int] },
        ));
    }

    /// Emit an instruction with a `p4` operand and return its index.
    pub fn emit_p4(&mut self, opcode: Opcode, p1: i32, p2: i32, p3: i32, p4: P4) -> (idx: usize)
        ensures
            final(self)@ == old(self)@.emit_p4(opcode, p1, p2, p3, p4@),
            idx == old(self)@.code.len(),
    {
        self.emit_p45(opcode, p1, p2, p3, p4, 0)
    }

    /// Emit an instruction with a `p4` operand and a flag byte and return its index.
    pub fn emit_p45(
        &mut self,
        opcode: Opcode,
        p1: i32,
        p2: i32,
        p3: i32,
        p4: P4,
        p5: u8,
    ) -> (idx: usize)
        ensures
            final(self)@ == old(self)@.emit_p45(opcode, p1, p2, p3, p4@, p5),
            idx == old(self)@.code.len(),
    {
        self.append(Instruction { opcode, p1, p2, p3, p4, p5 });
        broadcast use asm_append;

        self.insts.len() - 1
    }

    /// Create a label that has no address yet.
    pub fn new_label(&mut self) -> (l: Label)
        ensures
            l.id() == old(self)@.fresh(),
            final(self)@ == old(self)@.label(),
    {
        reveal(Asm::label);
        reveal(Asm::fresh);
        self.label_addr.push(None);
        Label(self.label_addr.len() - 1)
    }

    /// Bind `label` to the next instruction emitted.
    pub fn resolve(&mut self, label: Label)
        requires
            label.id() < old(self)@.fresh(),
        ensures
            final(self)@ == old(self)@.bind(label.id()),
    {
        reveal(Asm::bind);
        reveal(Asm::fresh);
        let a: i32 = self.cur_addr();
        self.label_addr[label.0] = Some(a);
    }

    /// Emit a jump whose `p2` is the address of `label` and return its index.
    pub fn emit_jump(&mut self, opcode: Opcode, p1: i32, label: Label, p3: i32) -> (idx: usize)
        ensures
            final(self)@ == old(self)@.jump(opcode, p1, label.id(), p3),
            idx == old(self)@.code.len(),
    {
        reveal(Asm::jump_p45);
        let idx: usize = self.emit(opcode, p1, 0, p3);
        self.add_fixup(idx, label);
        idx
    }

    /// Emit a jump with a `p4` operand and a flag byte and return its index.
    pub fn emit_jump_p45(
        &mut self,
        opcode: Opcode,
        p1: i32,
        label: Label,
        p3: i32,
        p4: P4,
        p5: u8,
    ) -> (idx: usize)
        ensures
            final(self)@ == old(self)@.jump_p45(opcode, p1, label.id(), p3, p4@, p5),
            idx == old(self)@.code.len(),
    {
        reveal(Asm::jump_p45);
        let idx: usize = self.emit_p45(opcode, p1, 0, p3, p4, p5);
        self.add_fixup(idx, label);
        idx
    }

    /// Emit a three-way jump whose `p1`, `p2` and `p3` are the addresses of the three labels.
    pub fn emit_jump3(&mut self, opcode: Opcode, l1: Label, l2: Label, l3: Label) -> (idx: usize)
        ensures
            final(self)@ == old(self)@.jump3(opcode, l1.id(), l2.id(), l3.id()),
            idx == old(self)@.code.len(),
    {
        reveal(Asm::jump3);
        let idx: usize = self.emit(opcode, 0, 0, 0);
        self.add_fixup(idx, l2);
        self.add_fixup(idx, l1);
        self.add_fixup(idx, l3);
        idx
    }

    /// All emitted instructions, so that a caller can rework them (for one, move the jump targets
    /// of an inlined program).
    pub fn iter_insts_mut(&mut self) -> (r: &mut Vec<Instruction>)
        ensures
            code_view(r@) == old(self)@.code,
            final(self)@ == old(self)@.with_code(code_view(final(r)@)),
    {
        reveal(Asm::with_code);
        &mut self.insts
    }

    /// Append an instruction.
    pub fn append(&mut self, inst: Instruction)
        ensures
            final(self)@ == old(self)@.append(inst@),
            final(self)@.code.len() == old(self)@.code.len() + 1,
    {
        reveal(Asm::append);
        self.insts.push(inst);
        assert(code_view(self.insts@) =~= old(self)@.code.push(inst@));
    }

    /// A copy of the instruction at index `i`.
    pub fn inst_at(&self, i: usize) -> (r: Instruction)
        requires
            i < self@.code.len(),
        ensures
            r@ == self@.code[i as int],
    {
        self.insts[i].clone()
    }

    /// Overwrite the three operands of the instruction at index `i`.
    pub fn set_operands(&mut self, i: usize, p1: i32, p2: i32, p3: i32)
        requires
            i < old(self)@.code.len(),
        ensures
            final(self)@ == old(self)@.with_code(
                old(self)@.code.update(
                    i as int,
                    (InstView { p1, p2, p3, ..old(self)@.code[i as int] }),
                ),
            ),
    {
        reveal(Asm::with_code);
        self.insts[i].p1 = p1;
        self.insts[i].p2 = p2;
        self.insts[i].p3 = p3;
        assert(self@.code =~= old(self)@.code.update(
            i as int,
            InstView { p1, p2, p3, ..old(self)@.code[i as int] },
        ));
    }

    /// Finish the program: every labelled operand becomes the address of its label.
    pub fn finish(self) -> (p: Program)
        requires
            self@.complete(),
        ensures
            p@ == self@.program(),
    {
        reveal(Asm::program);
        let ghost start = self@;
        let n: usize = self.insts.len();
        let ProgramBuilder { mut insts, next_reg, next_cursor, label_addr, fixups } = self;
        let mut counts: Vec<u8> = Vec::new();
        for i in 0..n
            invariant
                counts@.len() == i,
                forall|j: int| 0 <= j < i ==> counts@[j] == 0,
        {
            counts.push(0);
        }
        assert(fixups_view(fixups@).take(0) =~= Seq::empty());
        assert(code_view(insts@) == start.code);
        for k in 0..fixups.len()
            invariant
                n == insts@.len() == counts@.len() == start.code.len(),
                start.fixups == fixups_view(fixups@),
                start.labels == label_addr@,
                start.wf(),
                forall|l: int| !(#[trigger] start.owes(l)),
                forall|i: int|
                    0 <= i < n ==> (#[trigger] counts@[i]) == targets_of(
                        start.fixups.take(k as int),
                        i,
                    ).len(),
                forall|i: int|
                    0 <= i < n ==> (#[trigger] insts@[i])@ == patched(
                        start.code[i],
                        targets_of(start.fixups.take(k as int), i),
                        start.labels,
                    ),
        {
            let idx: usize = fixups[k].0;
            let label: Label = fixups[k].1;
            proof {
                reveal(Asm::owes);
                reveal(Asm::bound);
                reveal(Asm::wf);
                assert(start.fixups[k as int] == (idx as int, label.id()));
                assert(start.bound(label.id())) by {
                    assert(!start.owes(label.id()));
                }
                let before = start.fixups.take(k as int);
                let after = start.fixups.take(k + 1);
                assert(after.drop_last() =~= before);
                assert(after.last() == (idx as int, label.id()));
                lemma_prefix_targets(start.fixups, k + 1, idx as int);
                assert(targets_of(start.fixups, idx as int).len() <= 3);
                assert(targets_of(after, idx as int) == targets_of(before, idx as int).push(
                    label.id(),
                ));
                assert forall|i: int| 0 <= i < n && i != idx implies targets_of(after, i)
                    == targets_of(before, i) by {}
            }
            let target: i32 = match label_addr[label.0] {
                Some(a) => a,
                None => 0,
            };
            let c: u8 = counts[idx];
            if c == 0 {
                insts[idx].p2 = target;
            } else if c == 1 {
                insts[idx].p1 = target;
            } else {
                insts[idx].p3 = target;
            }
            counts[idx] = c + 1;
        }
        assert(start.fixups.take(fixups@.len() as int) =~= start.fixups);
        let p = Program {
            instructions: insts,
            num_registers: #[verifier::truncate]
            (next_reg as usize),
            num_cursors: #[verifier::truncate]
            (next_cursor as usize),
        };
        assert(p@.code =~= start.program().code);
        p
    }
}

/// A prefix of the fixups registers no more labels for an instruction than all of them do.
proof fn lemma_prefix_targets(fixups: Seq<(int, int)>, k: int, i: int)
    requires
        0 <= k <= fixups.len(),
    ensures
        targets_of(fixups.take(k), i).len() <= targets_of(fixups, i).len(),
    decreases fixups.len(),
{
    if k == fixups.len() {
        assert(fixups.take(k) =~= fixups);
    } else {
        lemma_prefix_targets(fixups.drop_last(), k, i);
        assert(fixups.drop_last().take(k) =~= fixups.take(k));
    }
}

impl Default for ProgramBuilder {
    fn default() -> (b: ProgramBuilder)
        ensures
            b@ == Asm::start(),
    {
        ProgramBuilder::new()
    }
}

} // verus!
