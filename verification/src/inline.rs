//! Placing one program inside another.
//!
//! The instructions of the inner program are appended with their registers and cursors moved out
//! of the way, and its jumps are led to where its instructions have gone. What it does with its
//! rows, and how it ends, depends on the place it is put in: see [`Sink`].
use vstd::prelude::*;

use crate::builder::{reg_at, reg_off, Asm, Label, ProgramBuilder};
use crate::emit::{emit_copies, gen_copies, gen_skip, gen_stop, group_emit};
use crate::scope::{emitted, steady};
use crate::text::Error;
use crate::vdbe::{code_view, InstView, Instruction, Opcode, Program, ProgramView, P5_STOREP2};

verus! {

broadcast use group_emit;

// ---- Operands ----

/// What an operand of an instruction stands for.
#[derive(Clone, Copy, PartialEq, Eq, Structural, Debug)]
pub enum Operand {
    /// A number, a count, a page or an address.
    Plain,
    Register,
    Cursor,
}

/// A comparison, which jumps to `p2` or stores its outcome there.
pub open spec fn compares(op: Opcode) -> bool {
    op == Opcode::Eq || op == Opcode::Ne || op == Opcode::Lt || op == Opcode::Le || op == Opcode::Gt
        || op == Opcode::Ge
}

/// What the three operands of an opcode stand for.
#[verifier::opaque]
pub open spec fn operand_kinds(op: Opcode) -> (Operand, Operand, Operand) {
    match op {
        Opcode::Gosub
        | Opcode::Return
        | Opcode::If
        | Opcode::IfNot
        | Opcode::IsNull
        | Opcode::NotNull
        | Opcode::IfPos
        | Opcode::DecrJumpZero
        | Opcode::Affinity
        | Opcode::RealAffinity
        | Opcode::AggFinal
        | Opcode::AddImm
        | Opcode::ResultRow
        | Opcode::InitCoroutine
        | Opcode::EndCoroutine
        | Opcode::Yield => (Operand::Register, Operand::Plain, Operand::Plain),
        Opcode::Eq
        | Opcode::Ne
        | Opcode::Lt
        | Opcode::Le
        | Opcode::Gt
        | Opcode::Ge
        | Opcode::MakeRecord => (Operand::Register, Operand::Plain, Operand::Register),
        Opcode::Rewind
        | Opcode::Next
        | Opcode::SorterSort
        | Opcode::SorterNext
        | Opcode::OpenRead
        | Opcode::OpenWrite
        | Opcode::OpenWriteReg
        | Opcode::OpenEphemeral
        | Opcode::Close
        | Opcode::NullRow
        | Opcode::Clear
        | Opcode::Destroy
        | Opcode::SorterOpen
        | Opcode::ResetSorter
        | Opcode::Last
        | Opcode::Prev => (Operand::Cursor, Operand::Plain, Operand::Plain),
        Opcode::NotExists
        | Opcode::SeekGE
        | Opcode::SeekGT
        | Opcode::SeekLE
        | Opcode::SeekLT
        | Opcode::IdxGE
        | Opcode::IdxGT
        | Opcode::IdxLE
        | Opcode::IdxLT
        | Opcode::Found
        | Opcode::NotFound
        | Opcode::NoConflict
        | Opcode::Column
        | Opcode::SeekRowid => (Operand::Cursor, Operand::Plain, Operand::Register),
        Opcode::OpenPseudo
        | Opcode::RowData
        | Opcode::Rowid
        | Opcode::IdxInsert
        | Opcode::IdxDelete
        | Opcode::IdxRowid
        | Opcode::SorterInsert
        | Opcode::SorterData
        | Opcode::NewRowid
        | Opcode::Delete => (Operand::Cursor, Operand::Register, Operand::Plain),
        Opcode::Insert => (Operand::Cursor, Operand::Register, Operand::Register),
        Opcode::OpenDup => (Operand::Cursor, Operand::Cursor, Operand::Plain),
        Opcode::Integer
        | Opcode::Int64
        | Opcode::Real
        | Opcode::String8
        | Opcode::Null
        | Opcode::Blob
        | Opcode::Param => (Operand::Plain, Operand::Register, Operand::Plain),
        Opcode::Add
        | Opcode::Subtract
        | Opcode::Multiply
        | Opcode::Divide
        | Opcode::Remainder
        | Opcode::Concat
        | Opcode::BitAnd
        | Opcode::BitOr
        | Opcode::ShiftLeft
        | Opcode::ShiftRight
        | Opcode::And
        | Opcode::Or => (Operand::Register, Operand::Register, Operand::Register),
        Opcode::BitNot
        | Opcode::Not
        | Opcode::SCopy
        | Opcode::Move
        | Opcode::Copy
        | Opcode::Compare => (Operand::Register, Operand::Register, Operand::Plain),
        Opcode::Function | Opcode::AggStep | Opcode::AggInverse => (
            Operand::Plain,
            Operand::Register,
            Operand::Register,
        ),
        Opcode::AggValue | Opcode::HaltIfNull => (
            Operand::Plain,
            Operand::Plain,
            Operand::Register,
        ),
        Opcode::Goto
        | Opcode::Init
        | Opcode::Once
        | Opcode::Jump
        | Opcode::Transaction
        | Opcode::SetCookie
        | Opcode::ParseSchema
        | Opcode::CreateBtree
        | Opcode::Halt
        | Opcode::Program => (Operand::Plain, Operand::Plain, Operand::Plain),
    }
}

/// An operand moved by the offset of its kind.
pub open spec fn moved(x: i32, kind: Operand, regs: i32, cursors: i32) -> i32 {
    match kind {
        Operand::Plain => x,
        Operand::Register => x.wrapping_add(regs),
        Operand::Cursor => x.wrapping_add(cursors),
    }
}

/// A comparison that stores its outcome in register `p2`.
pub open spec fn stores(inst: InstView) -> bool {
    compares(inst.opcode) && inst.p5 & P5_STOREP2 != 0
}

/// An instruction with every register and cursor that it names moved.
#[verifier::opaque]
pub open spec fn rebased(inst: InstView, regs: i32, cursors: i32) -> InstView {
    let (k1, k2, k3) = operand_kinds(inst.opcode);
    InstView {
        p1: moved(inst.p1, k1, regs, cursors),
        p2: if stores(inst) {
            inst.p2.wrapping_add(regs)
        } else {
            moved(inst.p2, k2, regs, cursors)
        },
        p3: if inst.opcode == Opcode::Null && inst.p3 > 0 {
            inst.p3.wrapping_add(regs)
        } else {
            moved(inst.p3, k3, regs, cursors)
        },
        ..inst
    }
}

/// The instruction has a jump target in `p2`.
#[verifier::opaque]
pub open spec fn jumps(inst: InstView) -> bool {
    match inst.opcode {
        Opcode::Goto
        | Opcode::Init
        | Opcode::Gosub
        | Opcode::If
        | Opcode::IfNot
        | Opcode::IsNull
        | Opcode::NotNull
        | Opcode::IfPos
        | Opcode::DecrJumpZero
        | Opcode::Rewind
        | Opcode::Next
        | Opcode::NotExists
        | Opcode::SeekGE
        | Opcode::SeekGT
        | Opcode::SeekLE
        | Opcode::SeekLT
        | Opcode::IdxGE
        | Opcode::IdxGT
        | Opcode::IdxLE
        | Opcode::IdxLT
        | Opcode::Found
        | Opcode::NotFound
        | Opcode::NoConflict
        | Opcode::SorterSort
        | Opcode::SorterNext
        | Opcode::Yield
        | Opcode::Jump
        | Opcode::InitCoroutine
        | Opcode::SeekRowid
        | Opcode::Last
        | Opcode::Prev => true,
        Opcode::Eq | Opcode::Ne | Opcode::Lt | Opcode::Le | Opcode::Gt | Opcode::Ge => !stores(inst),
        _ => false,
    }
}

/// What the three operands of an opcode stand for.
pub fn kinds_of(op: Opcode) -> (r: (Operand, Operand, Operand))
    ensures
        r == operand_kinds(op),
{
    reveal(operand_kinds);
    match op {
        Opcode::Gosub
        | Opcode::Return
        | Opcode::If
        | Opcode::IfNot
        | Opcode::IsNull
        | Opcode::NotNull
        | Opcode::IfPos
        | Opcode::DecrJumpZero
        | Opcode::Affinity
        | Opcode::RealAffinity
        | Opcode::AggFinal
        | Opcode::AddImm
        | Opcode::ResultRow
        | Opcode::InitCoroutine
        | Opcode::EndCoroutine
        | Opcode::Yield => (Operand::Register, Operand::Plain, Operand::Plain),
        Opcode::Eq
        | Opcode::Ne
        | Opcode::Lt
        | Opcode::Le
        | Opcode::Gt
        | Opcode::Ge
        | Opcode::MakeRecord => (Operand::Register, Operand::Plain, Operand::Register),
        Opcode::Rewind
        | Opcode::Next
        | Opcode::SorterSort
        | Opcode::SorterNext
        | Opcode::OpenRead
        | Opcode::OpenWrite
        | Opcode::OpenWriteReg
        | Opcode::OpenEphemeral
        | Opcode::Close
        | Opcode::NullRow
        | Opcode::Clear
        | Opcode::Destroy
        | Opcode::SorterOpen
        | Opcode::ResetSorter
        | Opcode::Last
        | Opcode::Prev => (Operand::Cursor, Operand::Plain, Operand::Plain),
        Opcode::NotExists
        | Opcode::SeekGE
        | Opcode::SeekGT
        | Opcode::SeekLE
        | Opcode::SeekLT
        | Opcode::IdxGE
        | Opcode::IdxGT
        | Opcode::IdxLE
        | Opcode::IdxLT
        | Opcode::Found
        | Opcode::NotFound
        | Opcode::NoConflict
        | Opcode::Column
        | Opcode::SeekRowid => (Operand::Cursor, Operand::Plain, Operand::Register),
        Opcode::OpenPseudo
        | Opcode::RowData
        | Opcode::Rowid
        | Opcode::IdxInsert
        | Opcode::IdxDelete
        | Opcode::IdxRowid
        | Opcode::SorterInsert
        | Opcode::SorterData
        | Opcode::NewRowid
        | Opcode::Delete => (Operand::Cursor, Operand::Register, Operand::Plain),
        Opcode::Insert => (Operand::Cursor, Operand::Register, Operand::Register),
        Opcode::OpenDup => (Operand::Cursor, Operand::Cursor, Operand::Plain),
        Opcode::Integer
        | Opcode::Int64
        | Opcode::Real
        | Opcode::String8
        | Opcode::Null
        | Opcode::Blob
        | Opcode::Param => (Operand::Plain, Operand::Register, Operand::Plain),
        Opcode::Add
        | Opcode::Subtract
        | Opcode::Multiply
        | Opcode::Divide
        | Opcode::Remainder
        | Opcode::Concat
        | Opcode::BitAnd
        | Opcode::BitOr
        | Opcode::ShiftLeft
        | Opcode::ShiftRight
        | Opcode::And
        | Opcode::Or => (Operand::Register, Operand::Register, Operand::Register),
        Opcode::BitNot
        | Opcode::Not
        | Opcode::SCopy
        | Opcode::Move
        | Opcode::Copy
        | Opcode::Compare => (Operand::Register, Operand::Register, Operand::Plain),
        Opcode::Function | Opcode::AggStep | Opcode::AggInverse => (
            Operand::Plain,
            Operand::Register,
            Operand::Register,
        ),
        Opcode::AggValue | Opcode::HaltIfNull => (
            Operand::Plain,
            Operand::Plain,
            Operand::Register,
        ),
        Opcode::Goto
        | Opcode::Init
        | Opcode::Once
        | Opcode::Jump
        | Opcode::Transaction
        | Opcode::SetCookie
        | Opcode::ParseSchema
        | Opcode::CreateBtree
        | Opcode::Halt
        | Opcode::Program => (Operand::Plain, Operand::Plain, Operand::Plain),
    }
}

fn move_operand(x: i32, kind: Operand, regs: i32, cursors: i32) -> (r: i32)
    ensures
        r == moved(x, kind, regs, cursors),
{
    match kind {
        Operand::Plain => x,
        Operand::Register => x.wrapping_add(regs),
        Operand::Cursor => x.wrapping_add(cursors),
    }
}

fn stores_outcome(inst: &Instruction) -> (r: bool)
    ensures
        r == stores(inst@),
{
    let op = inst.opcode;
    (op == Opcode::Eq || op == Opcode::Ne || op == Opcode::Lt || op == Opcode::Le || op
        == Opcode::Gt || op == Opcode::Ge) && inst.p5 & P5_STOREP2 != 0
}

/// Move every register and every cursor that an instruction names. Jump targets stay.
pub fn rebase_operands(inst: &mut Instruction, reg_offset: i32, cursor_offset: i32)
    ensures
        final(inst)@ == rebased(old(inst)@, reg_offset, cursor_offset),
{
    reveal(rebased);
    let (k1, k2, k3) = kinds_of(inst.opcode);
    let stored = stores_outcome(inst);
    inst.p1 = move_operand(inst.p1, k1, reg_offset, cursor_offset);
    if stored {
        inst.p2 = inst.p2.wrapping_add(reg_offset);
    } else {
        inst.p2 = move_operand(inst.p2, k2, reg_offset, cursor_offset);
    }
    if inst.opcode == Opcode::Null && inst.p3 > 0 {
        inst.p3 = inst.p3.wrapping_add(reg_offset);
    } else {
        inst.p3 = move_operand(inst.p3, k3, reg_offset, cursor_offset);
    }
}

/// Whether `p2` of an instruction is a jump target.
pub fn is_absolute_jump(inst: &Instruction) -> (r: bool)
    ensures
        r == jumps(inst@),
{
    reveal(jumps);
    match inst.opcode {
        Opcode::Goto
        | Opcode::Init
        | Opcode::Gosub
        | Opcode::If
        | Opcode::IfNot
        | Opcode::IsNull
        | Opcode::NotNull
        | Opcode::IfPos
        | Opcode::DecrJumpZero
        | Opcode::Rewind
        | Opcode::Next
        | Opcode::NotExists
        | Opcode::SeekGE
        | Opcode::SeekGT
        | Opcode::SeekLE
        | Opcode::SeekLT
        | Opcode::IdxGE
        | Opcode::IdxGT
        | Opcode::IdxLE
        | Opcode::IdxLT
        | Opcode::Found
        | Opcode::NotFound
        | Opcode::NoConflict
        | Opcode::SorterSort
        | Opcode::SorterNext
        | Opcode::Yield
        | Opcode::Jump
        | Opcode::InitCoroutine
        | Opcode::SeekRowid
        | Opcode::Last
        | Opcode::Prev => true,
        Opcode::Eq | Opcode::Ne | Opcode::Lt | Opcode::Le | Opcode::Gt | Opcode::Ge => !stores_outcome(
            inst,
        ),
        _ => false,
    }
}

/// Moving by nothing changes nothing.
pub proof fn law_rebase_by_zero(inst: InstView)
    ensures
        rebased(inst, 0, 0) == inst,
{
    reveal(rebased);
}

/// Moving twice is moving by the sum, for an instruction that keeps the sign of the one operand
/// whose kind depends on it.
pub proof fn law_rebase_twice(inst: InstView, r1: i32, c1: i32, r2: i32, c2: i32)
    requires
        inst.opcode != Opcode::Null || inst.p3 <= 0 || inst.p3.wrapping_add(r1) > 0,
    ensures
        rebased(rebased(inst, r1, c1), r2, c2) == rebased(
            inst,
            r1.wrapping_add(r2),
            c1.wrapping_add(c2),
        ),
{
    reveal(rebased);
    assert(operand_kinds(Opcode::Null).2 == Operand::Plain) by {
        reveal(operand_kinds);
    }
    assert forall|x: i32, a: i32, b: i32|
        #[trigger] x.wrapping_add(a).wrapping_add(b) == x.wrapping_add(a.wrapping_add(b)) by {}
}

/// Moving leaves the jump target of an instruction alone.
pub proof fn law_rebase_keeps_target(inst: InstView, regs: i32, cursors: i32)
    requires
        jumps(inst),
    ensures
        rebased(inst, regs, cursors).p2 == inst.p2,
        jumps(rebased(inst, regs, cursors)),
{
    reveal(rebased);
    reveal(jumps);
    reveal(operand_kinds);
}

// ---- Where a program is put ----

/// What becomes of the rows of an inlined program, and of its end.
#[derive(Clone, Copy)]
pub enum Sink<'a> {
    /// Each row is copied to the registers from `block` on and yielded; the end ends the
    /// coroutine of register `reg`.
    Coroutine { block: i32, ncol: i32, reg: i32 },
    /// Rows are put out under shared counters. The code leaves for `stop` when the limit is
    /// reached, and for `next` at the end, or halts there.
    Rows { limit: Option<i32>, offset: Option<i32>, stop: Label, next: Option<Label> },
    /// Each row goes into a sorter behind its sort keys, which are the columns at `places`.
    Sorter { sorter: i32, block: i32, ncol: i32, places: &'a Vec<i32> },
    /// Each row goes into a sorter as a record of `width` values behind a NULL.
    Stage { sorter: i32, width: i32 },
    /// Each row becomes a row of the ephemeral table on `cursor`.
    Queue { cursor: i32, ncol: i32 },
    /// Rows are put out as they are.
    Output,
}

/// The mathematical counterpart of a [`Sink`].
pub ghost enum SinkView {
    Coroutine { block: i32, ncol: i32, reg: i32 },
    Rows { limit: Option<i32>, offset: Option<i32>, stop: int, next: Option<int> },
    Sorter { sorter: i32, block: i32, ncol: i32, places: Seq<i32> },
    Stage { sorter: i32, width: i32 },
    Queue { cursor: i32, ncol: i32 },
    Output,
}

impl<'a> View for Sink<'a> {
    type V = SinkView;

    open spec fn view(&self) -> SinkView {
        match *self {
            Sink::Coroutine { block, ncol, reg } => SinkView::Coroutine { block, ncol, reg },
            Sink::Rows { limit, offset, stop, next } => SinkView::Rows {
                limit,
                offset,
                stop: stop.id(),
                next: match next {
                    Some(l) => Some(l.id()),
                    None => None,
                },
            },
            Sink::Sorter { sorter, block, ncol, places } => SinkView::Sorter {
                sorter,
                block,
                ncol,
                places: places@,
            },
            Sink::Stage { sorter, width } => SinkView::Stage { sorter, width },
            Sink::Queue { cursor, ncol } => SinkView::Queue { cursor, ncol },
            Sink::Output => SinkView::Output,
        }
    }
}

impl SinkView {
    /// The code may leave for label `l`.
    pub open spec fn leaves_for(self, l: int) -> bool {
        self matches SinkView::Rows { stop, next, .. } && (l == stop || next == Some(l))
    }

    /// The labels that the code may leave for are among the first `n`.
    pub open spec fn fits(self, n: int) -> bool {
        self matches SinkView::Rows { stop, next, .. } ==> 0 <= stop < n && (next matches Some(l)
            ==> 0 <= l < n)
    }
}

/// A place for an inlined program: what its registers and cursors are moved by, the open cursor
/// that stands for its first one if there is such a cursor, and where its rows go.
#[derive(Clone, Copy)]
pub struct Place<'a> {
    pub regs: i32,
    pub cursors: i32,
    pub stand_in: Option<i32>,
    pub sink: Sink<'a>,
}

/// The mathematical counterpart of a [`Place`].
pub ghost struct PlaceView {
    pub regs: i32,
    pub cursors: i32,
    pub stand_in: Option<i32>,
    pub sink: SinkView,
}

impl<'a> View for Place<'a> {
    type V = PlaceView;

    open spec fn view(&self) -> PlaceView {
        PlaceView {
            regs: self.regs,
            cursors: self.cursors,
            stand_in: self.stand_in,
            sink: self.sink@,
        }
    }
}

/// Emission that may leave jumps to the labels of a sink behind.
pub open spec fn drains(s0: Asm, s1: Asm, sink: SinkView) -> bool {
    &&& s0.fresh() <= s1.fresh()
    &&& s0.wf() && sink.fits(s0.fresh()) ==> s1.wf()
    &&& forall|l: int| s0.bound(l) ==> #[trigger] s1.bound(l)
    &&& forall|l: int| #[trigger]
        s1.owes(l) && s0.wf() && sink.fits(s0.fresh()) ==> s0.owes(l) || sink.leaves_for(l)
}

/// The instruction opens a table.
pub open spec fn opens(op: Opcode) -> bool {
    op == Opcode::OpenRead || op == Opcode::OpenWrite || op == Opcode::OpenWriteReg
}

/// An instruction as it stands in its place.
#[verifier::opaque]
pub open spec fn settled(inst: InstView, place: PlaceView) -> InstView {
    let r = rebased(inst, place.regs, place.cursors);
    match place.stand_in {
        Some(c) => if operand_kinds(inst.opcode).0 == Operand::Cursor && r.p1 == place.cursors {
            InstView { p1: c, ..r }
        } else {
            r
        },
        None => r,
    }
}

/// Copies of chosen columns of the row in the registers from `from` on, from the `k`-th choice on,
/// each into its own register after `to`.
pub open spec fn gen_chosen(s: Asm, places: Seq<i32>, from: i32, to: i32, k: int) -> Asm
    decreases places.len() - k,
{
    if s.err is Some || k < 0 || k >= places.len() {
        s
    } else {
        gen_chosen(
            s.emit(Opcode::SCopy, from.wrapping_add(places[k]), reg_at(to, k), 0),
            places,
            from,
            to,
            k + 1,
        )
    }
}

/// Nulls in the registers from the `k`-th after `to` on, up to the `n`-th.
pub open spec fn gen_nulls(s: Asm, to: i32, n: int, k: int) -> Asm
    decreases n - k,
{
    if s.err is Some || k >= n {
        s
    } else {
        gen_nulls(s.emit(Opcode::Null, 0, reg_at(to, k), 0), to, n, k + 1)
    }
}

/// The smaller of two numbers.
pub open spec fn least(a: i32, b: i32) -> i32 {
    if a < b {
        a
    } else {
        b
    }
}

/// The code that a row of the inlined program becomes.
#[verifier::opaque]
pub open spec fn gen_row(s: Asm, inst: InstView, place: PlaceView) -> Asm {
    let from = inst.p1.wrapping_add(place.regs);
    match place.sink {
        SinkView::Coroutine { block, ncol, reg } => {
            gen_copies(s, from, block, ncol as int, 0).emit(Opcode::Yield, reg, 0, 0)
        },
        SinkView::Rows { limit, offset, stop, next } => {
            let skip = s.fresh();
            let s = gen_skip(s.label(), offset, skip).append(settled(inst, place));
            gen_stop(s, limit, stop).bind(skip)
        },
        SinkView::Sorter { sorter, block, ncol, places } => {
            let nkey = places.len() as i32;
            let s = gen_chosen(s, places, from, block, 0);
            let s = gen_copies(s, from, block.wrapping_add(nkey), ncol as int, 0);
            let rec = s.next_reg;
            s.take_regs(1).emit(Opcode::MakeRecord, block, nkey.wrapping_add(ncol), rec).emit(
                Opcode::SorterInsert,
                sorter,
                rec,
                0,
            )
        },
        SinkView::Stage { sorter, width } => {
            let block = s.next_reg;
            let first = block.wrapping_add(1);
            let s = s.take_regs(width.wrapping_add(1)).emit(Opcode::Null, 0, block, 0);
            let s = gen_copies(s, from, first, least(inst.p2, width) as int, 0);
            let s = gen_nulls(s, first, width as int, inst.p2 as int);
            let rec = s.next_reg;
            s.take_regs(1).emit(Opcode::MakeRecord, block, width.wrapping_add(1), rec).emit(
                Opcode::SorterInsert,
                sorter,
                rec,
                0,
            )
        },
        SinkView::Queue { cursor, ncol } => {
            let block = s.next_reg;
            let s = gen_copies(s.take_regs(ncol), from, block, least(inst.p2, ncol) as int, 0);
            let s = gen_nulls(s, block, ncol as int, inst.p2 as int);
            let rec = s.next_reg;
            let s = s.take_regs(1).emit(Opcode::MakeRecord, block, ncol, rec);
            let rowid = s.next_reg;
            s.take_regs(1).emit(Opcode::NewRowid, cursor, rowid, 0).emit(
                Opcode::Insert,
                cursor,
                rec,
                rowid,
            )
        },
        SinkView::Output => s.append(settled(inst, place)),
    }
}

/// The code that one instruction becomes. `halt` is the address of the end of the inlined
/// program.
#[verifier::opaque]
pub open spec fn gen_step(s: Asm, inst: InstView, halt: int, place: PlaceView) -> Asm {
    let r = settled(inst, place);
    if place.stand_in is Some && opens(inst.opcode) {
        s
    } else if inst.opcode == Opcode::ResultRow {
        gen_row(s, inst, place)
    } else {
        match place.sink {
            SinkView::Coroutine { reg, .. } => if inst.opcode == Opcode::Halt {
                s.emit(Opcode::EndCoroutine, reg, 0, 0)
            } else {
                s.append(r)
            },
            SinkView::Rows { next: Some(l), .. } => if inst.opcode == Opcode::Halt {
                s.jump(Opcode::Goto, 0, l, 0)
            } else if jumps(inst) && inst.p2 == halt as i32 {
                s.jump_p45(r.opcode, r.p1, l, r.p3, r.p4, r.p5)
            } else {
                s.append(r)
            },
            _ => s.append(r),
        }
    }
}

/// The instructions of a program from address `k` up to `last`, with the address that each of
/// them comes to stand at.
pub open spec fn gen_inline(
    s: Asm,
    map: Seq<i32>,
    code: Seq<InstView>,
    halt: int,
    last: int,
    place: PlaceView,
    k: int,
) -> (Asm, Seq<i32>)
    decreases last - k,
{
    if k < 0 || k >= last {
        (s, map)
    } else {
        gen_inline(
            gen_step(s, code[k], halt, place),
            map.push(s.here()),
            code,
            halt,
            last,
            place,
            k + 1,
        )
    }
}

// ---- Redirecting jumps ----

/// Where a jump to address `t` of the inlined program leads: `end` for its end, and the place
/// that the instruction has come to stand at for any other.
pub open spec fn led(t: i32, map: Seq<i32>, halt: int, end: i32) -> i32 {
    if t == halt as i32 {
        end
    } else if 0 <= t < map.len() {
        map[t as int]
    } else {
        t
    }
}

/// An instruction with its jump targets led on: all three of a three-way jump, and the entry
/// point of a coroutine too.
pub open spec fn redirected(inst: InstView, map: Seq<i32>, halt: int, end: i32) -> InstView {
    if inst.opcode == Opcode::Jump {
        InstView {
            p1: led(inst.p1, map, halt, end),
            p2: led(inst.p2, map, halt, end),
            p3: led(inst.p3, map, halt, end),
            ..inst
        }
    } else if inst.opcode == Opcode::InitCoroutine {
        InstView {
            p2: led(inst.p2, map, halt, end),
            p3: led(inst.p3, map, halt, end),
            ..inst
        }
    } else if jumps(inst) {
        InstView { p2: led(inst.p2, map, halt, end), ..inst }
    } else {
        inst
    }
}

/// The code from `from` on with its jumps redirected.
#[verifier::opaque]
pub open spec fn gen_redirect(s: Asm, from: int, map: Seq<i32>, halt: int, end: i32) -> Asm {
    s.with_code(
        Seq::new(
            s.code.len(),
            |i: int|
                if from <= i {
                    redirected(s.code[i], map, halt, end)
                } else {
                    s.code[i]
                },
        ),
    )
}

/// The first end of a program from address `i` on.
pub open spec fn halt_from(code: Seq<InstView>, i: int) -> Option<int>
    decreases code.len() - i,
{
    if i < 0 || i >= code.len() {
        None
    } else if code[i].opcode == Opcode::Halt {
        Some(i)
    } else {
        halt_from(code, i + 1)
    }
}

/// Room for the registers and cursors of an inlined program.
#[verifier::opaque]
pub open spec fn gen_room(s: Asm, p: ProgramView) -> Asm {
    s.take_regs(#[verifier::truncate] (p.num_registers as i32)).note_cursor(
        s.next_cursor.wrapping_add(#[verifier::truncate] (p.num_cursors as i32)).wrapping_sub(1),
    )
}

/// The registers and cursors of an inlined program, moved to where the room for them begins, lie
/// behind all that are in use before and in front of all that are handed out later.
pub proof fn law_room_is_apart(s: Asm, p: ProgramView, reg: i32, cursor: i32)
    requires
        s.err is None,
        1 <= s.next_reg,
        0 <= s.next_cursor,
        s.next_reg + p.num_registers <= i32::MAX,
        s.next_cursor + p.num_cursors <= i32::MAX,
    ensures
        1 <= reg < p.num_registers ==> s.next_reg <= reg.wrapping_add(s.next_reg.wrapping_sub(1))
            < gen_room(s, p).next_reg,
        0 <= cursor < p.num_cursors ==> s.next_cursor <= cursor.wrapping_add(s.next_cursor)
            < gen_room(s, p).next_cursor,
{
    reveal(gen_room);
    reveal(Asm::take_regs);
    reveal(Asm::note_cursor);
}

// ---- The code ----

/// The address of the first `Halt` of a program.
pub fn halt_of(p: &Program) -> (r: Option<usize>)
    ensures
        match r {
            Some(h) => halt_from(p@.code, 0) == Some(h as int) && h < p@.code.len() && h
                < usize::MAX,
            None => halt_from(p@.code, 0) is None,
        },
{
    assert(p@.code == code_view(p.instructions@));
    for i in 0..p.instructions.len()
        invariant
            p@.code == code_view(p.instructions@),
            halt_from(p@.code, 0) == halt_from(p@.code, i as int),
    {
        assert(p@.code[i as int] == p.instructions@[i as int]@);
        if p.instructions[i].opcode == Opcode::Halt {
            return Some(i);
        }
    }
    None
}

/// An instruction as it stands in its place.
pub fn settle(inst: &Instruction, place: &Place) -> (r: Instruction)
    ensures
        r@ == settled(inst@, place@),
{
    reveal(settled);
    let mut r = inst.clone();
    rebase_operands(&mut r, place.regs, place.cursors);
    if let Some(c) = place.stand_in {
        let (k1, _, _) = kinds_of(inst.opcode);
        if k1 == Operand::Cursor && r.p1 == place.cursors {
            r.p1 = c;
        }
    }
    r
}

/// Copy chosen columns of a row.
pub fn emit_chosen(b: &mut ProgramBuilder, places: &Vec<i32>, from: i32, to: i32)
    ensures
        final(b)@ == gen_chosen(old(b)@, places@, from, to, 0),
        steady(old(b)@, final(b)@),
{
    let ghost want = gen_chosen(b@, places@, from, to, 0);
    for k in 0..places.len()
        invariant
            gen_chosen(b@, places@, from, to, k as int) == want,
            steady(old(b)@, b@),
    {
        b.emit(Opcode::SCopy, from.wrapping_add(places[k]), reg_off(to, k), 0);
    }
}

/// Put NULL into the registers from the `from`-th after `to` on, up to the `n`-th.
pub fn emit_nulls(b: &mut ProgramBuilder, to: i32, n: i32, from: i32)
    ensures
        final(b)@ == gen_nulls(old(b)@, to, n as int, from as int),
        steady(old(b)@, final(b)@),
{
    let ghost want = gen_nulls(b@, to, n as int, from as int);
    let mut k: i32 = from;
    while k < n
        invariant
            gen_nulls(b@, to, n as int, k as int) == want,
            steady(old(b)@, b@),
        decreases n - k,
    {
        b.emit(Opcode::Null, 0, to.wrapping_add(k), 0);
        k = k + 1;
    }
}

fn emit_row(b: &mut ProgramBuilder, inst: &Instruction, place: &Place)
    requires
        place@.sink.fits(old(b)@.fresh()),
    ensures
        final(b)@ == gen_row(old(b)@, inst@, place@),
        drains(old(b)@, final(b)@, place@.sink),
{
    reveal(gen_row);
    let from: i32 = inst.p1.wrapping_add(place.regs);
    match place.sink {
        Sink::Coroutine { block, ncol, reg } => {
            emit_copies(b, from, block, ncol);
            b.emit(Opcode::Yield, reg, 0, 0);
        },
        Sink::Rows { limit, offset, stop, next } => {
            let skip = b.new_label();
            if let Some(oreg) = offset {
                b.emit_jump(Opcode::IfPos, oreg, skip, 1);
            }
            b.append(settle(inst, place));
            if let Some(lreg) = limit {
                b.emit_jump(Opcode::DecrJumpZero, lreg, stop, 0);
            }
            b.resolve(skip);
        },
        Sink::Sorter { sorter, block, ncol, places } => {
            let nkey: i32 = places.len() as i32;
            emit_chosen(b, places, from, block);
            emit_copies(b, from, block.wrapping_add(nkey), ncol);
            let rec: i32 = b.alloc_reg();
            b.emit(Opcode::MakeRecord, block, nkey.wrapping_add(ncol), rec);
            b.emit(Opcode::SorterInsert, sorter, rec, 0);
        },
        Sink::Stage { sorter, width } => {
            let block: i32 = b.alloc_regs(width.wrapping_add(1));
            let first: i32 = block.wrapping_add(1);
            let nres: i32 = inst.p2;
            b.emit(Opcode::Null, 0, block, 0);
            emit_copies(b, from, first, if nres < width { nres } else { width });
            emit_nulls(b, first, width, nres);
            let rec: i32 = b.alloc_reg();
            b.emit(Opcode::MakeRecord, block, width.wrapping_add(1), rec);
            b.emit(Opcode::SorterInsert, sorter, rec, 0);
        },
        Sink::Queue { cursor, ncol } => {
            let block: i32 = b.alloc_regs(ncol);
            let nres: i32 = inst.p2;
            emit_copies(b, from, block, if nres < ncol { nres } else { ncol });
            emit_nulls(b, block, ncol, nres);
            let rec: i32 = b.alloc_reg();
            b.emit(Opcode::MakeRecord, block, ncol, rec);
            let rowid: i32 = b.alloc_reg();
            b.emit(Opcode::NewRowid, cursor, rowid, 0);
            b.emit(Opcode::Insert, cursor, rec, rowid);
        },
        Sink::Output => {
            b.append(settle(inst, place));
        },
    }
}

fn emit_step(b: &mut ProgramBuilder, inst: &Instruction, halt: usize, place: &Place)
    requires
        place@.sink.fits(old(b)@.fresh()),
    ensures
        final(b)@ == gen_step(old(b)@, inst@, halt as int, place@),
        drains(old(b)@, final(b)@, place@.sink),
{
    reveal(gen_step);
    let op = inst.opcode;
    if place.stand_in.is_some() && (op == Opcode::OpenRead || op == Opcode::OpenWrite || op
        == Opcode::OpenWriteReg) {
        return;
    }
    if op == Opcode::ResultRow {
        emit_row(b, inst, place);
        return;
    }
    let r = settle(inst, place);
    match place.sink {
        Sink::Coroutine { reg, .. } => {
            if op == Opcode::Halt {
                b.emit(Opcode::EndCoroutine, reg, 0, 0);
            } else {
                b.append(r);
            }
        },
        Sink::Rows { next: Some(l), .. } => {
            if op == Opcode::Halt {
                b.emit_jump(Opcode::Goto, 0, l, 0);
            } else if is_absolute_jump(inst) && inst.p2 == halt as i32 {
                b.emit_jump_p45(r.opcode, r.p1, l, r.p3, r.p4, r.p5);
            } else {
                b.append(r);
            }
        },
        _ => {
            b.append(r);
        },
    }
}

/// Append the instructions of a program, from address 1 up to `last`, and return the address
/// that each of them comes to stand at.
pub fn inline_code(
    b: &mut ProgramBuilder,
    p: &Program,
    halt: usize,
    last: usize,
    place: &Place,
) -> (r: Vec<i32>)
    requires
        last <= p@.code.len(),
        place@.sink.fits(old(b)@.fresh()),
    ensures
        (final(b)@, r@) == gen_inline(
            old(b)@,
            seq![0i32],
            p@.code,
            halt as int,
            last as int,
            place@,
            1,
        ),
        drains(old(b)@, final(b)@, place@.sink),
{
    let mut map: Vec<i32> = Vec::new();
    map.push(0);
    let ghost want = gen_inline(b@, seq![0i32], p@.code, halt as int, last as int, place@, 1);
    assert(map@ =~= seq![0i32]);
    assert(p@.code == code_view(p.instructions@));
    let mut k: usize = 1;
    while k < last
        invariant
            1 <= k,
            last <= p@.code.len(),
            p@.code == code_view(p.instructions@),
            place@.sink.fits(b@.fresh()),
            place@.sink.fits(old(b)@.fresh()),
            gen_inline(b@, map@, p@.code, halt as int, last as int, place@, k as int) == want,
            drains(old(b)@, b@, place@.sink),
        decreases last - k,
    {
        assert(p@.code[k as int] == p.instructions@[k as int]@);
        map.push(b.cur_addr());
        emit_step(b, &p.instructions[k], halt, place);
        k = k + 1;
    }
    map
}

fn lead(t: i32, map: &Vec<i32>, halt: usize, end: i32) -> (r: i32)
    ensures
        r == led(t, map@, halt as int, end),
{
    if t == halt as i32 {
        end
    } else if 0 <= t && (t as usize) < map.len() {
        map[t as usize]
    } else {
        t
    }
}

/// Lead the jumps of the instructions from `from` on to where their targets have gone.
pub fn redirect(b: &mut ProgramBuilder, from: usize, map: &Vec<i32>, halt: usize, end: i32)
    ensures
        final(b)@ == gen_redirect(old(b)@, from as int, map@, halt as int, end),
        steady(old(b)@, final(b)@),
{
    reveal(gen_redirect);
    let n: usize = b.insts_len();
    let ghost s0 = b@;
    let ghost target = gen_redirect(s0, from as int, map@, halt as int, end).code;
    proof {
        reveal(Asm::with_code);
    }
    let mut i: usize = from;
    while i < n
        invariant
            n == s0.code.len(),
            from <= i,
            b@ == s0.with_code(b@.code),
            b@.code.len() == n,
            target.len() == n,
            forall|j: int|
                0 <= j < n ==> (#[trigger] target[j]) == if from <= j {
                    redirected(s0.code[j], map@, halt as int, end)
                } else {
                    s0.code[j]
                },
            forall|j: int| 0 <= j < i && j < n ==> (#[trigger] b@.code[j]) == target[j],
            forall|j: int| i <= j < n ==> (#[trigger] b@.code[j]) == s0.code[j],
        decreases n - i,
    {
        proof {
            reveal(Asm::with_code);
        }
        let inst = b.inst_at(i);
        let mut p1: i32 = inst.p1;
        let mut p2: i32 = inst.p2;
        let mut p3: i32 = inst.p3;
        if inst.opcode == Opcode::Jump {
            p1 = lead(p1, map, halt, end);
            p2 = lead(p2, map, halt, end);
            p3 = lead(p3, map, halt, end);
        } else if inst.opcode == Opcode::InitCoroutine {
            p2 = lead(p2, map, halt, end);
            p3 = lead(p3, map, halt, end);
        } else if is_absolute_jump(&inst) {
            p2 = lead(p2, map, halt, end);
        }
        b.set_operands(i, p1, p2, p3);
        assert(b@.code[i as int] == target[i as int]);
        i = i + 1;
    }
    assert(b@.code =~= target);
    assert(steady(s0, s0.with_code(target)));
}

/// Set aside the registers and cursors of a program.
pub fn make_room(b: &mut ProgramBuilder, p: &Program)
    ensures
        final(b)@ == gen_room(old(b)@, p@),
        steady(old(b)@, final(b)@),
{
    reveal(gen_room);
    let cursors: i32 = b.next_cursor();
    b.alloc_regs(#[verifier::truncate] (p.num_registers as i32));
    b.note_cursor(
        cursors.wrapping_add(#[verifier::truncate] (p.num_cursors as i32)).wrapping_sub(1),
    );
}

/// A query put inline: everything before its end, with its rows going to the sink. The registers
/// and cursors of the query are set aside first, so that what the sink takes lies behind them.
#[verifier::opaque]
pub open spec fn gen_query(
    s: Asm,
    p: ProgramView,
    sink: SinkView,
    stand_in: Option<i32>,
    missing: Seq<char>,
) -> Asm {
    match halt_from(p.code, 0) {
        None => s.fail(missing),
        Some(halt) => {
            let regs = s.next_reg.wrapping_sub(1);
            let place = PlaceView { regs, cursors: s.next_cursor, stand_in, sink };
            let s = gen_room(s, p);
            let (t, map) = gen_inline(s, seq![0i32], p.code, halt, halt, place, 1);
            gen_redirect(t, s.code.len() as int, map, halt, t.here())
        },
    }
}

/// Put a query inline.
pub fn inline_query(
    b: &mut ProgramBuilder,
    p: &Program,
    sink: Sink,
    stand_in: Option<i32>,
    missing: &str,
) -> (r: Result<(), Error>)
    requires
        !(sink is Rows),
    ensures
        emitted(r, final(b)@, gen_query(old(b)@, p@, sink@, stand_in, missing@)),
        r is Ok ==> steady(old(b)@, final(b)@),
{
    reveal(gen_query);
    let halt: usize = match halt_of(p) {
        Some(h) => h,
        None => {
            return Err(Error::lit(missing));
        },
    };
    let regs: i32 = b.next_reg().wrapping_sub(1);
    let place = Place { regs, cursors: b.next_cursor(), stand_in, sink };
    make_room(b, p);
    let from: usize = b.insts_len();
    let map = inline_code(b, p, halt, halt, &place);
    let last: i32 = b.cur_addr();
    redirect(b, from, &map, halt, last);
    Ok(())
}

} // verus!
