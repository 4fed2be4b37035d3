//! The virtual machine's side of the interface: values, opcodes, instructions and programs.
//!
//! The code generator never runs a program; it only lays instructions out. What an opcode does
//! with its operands is the business of the machine. Here an instruction is an opcode, three
//! 32-bit operands, one structured operand `p4` and a flag byte `p5`.
use vstd::prelude::*;

use crate::text::clone_bytes;

verus! {

/// The type affinity of a column.
#[derive(Clone, Copy, PartialEq, Eq, Structural, Debug)]
pub enum Affinity {
    Blob,
    Text,
    Numeric,
    Integer,
    Real,
}

/// A collating sequence.
#[derive(Clone, Copy, PartialEq, Eq, Structural, Debug)]
pub enum Collation {
    Binary,
    NoCase,
    RTrim,
}

/// A constant value. A floating-point number is held as its IEEE 754 bits.
#[derive(Debug)]
pub enum Value {
    Null,
    Int(i64),
    Real(u64),
    Text(String),
    Blob(Vec<u8>),
}

/// The mathematical value of a [`Value`].
pub ghost enum ValueView {
    Null,
    Int(i64),
    Real(u64),
    Text(Seq<char>),
    Blob(Seq<u8>),
}

impl View for Value {
    type V = ValueView;

    open spec fn view(&self) -> ValueView {
        match self {
            Value::Null => ValueView::Null,
            Value::Int(n) => ValueView::Int(*n),
            Value::Real(r) => ValueView::Real(*r),
            Value::Text(s) => ValueView::Text(s@),
            Value::Blob(b) => ValueView::Blob(b@),
        }
    }
}

impl Clone for Value {
    /// A copy with the same value.
    fn clone(&self) -> (r: Self)
        ensures
            r@ == self@,
    {
        match self {
            Value::Null => Value::Null,
            Value::Int(n) => Value::Int(*n),
            Value::Real(r) => Value::Real(*r),
            Value::Text(s) => Value::Text(s.clone()),
            Value::Blob(b) => Value::Blob(clone_bytes(b)),
        }
    }
}

/// The number that an aggregate function is registered under.
#[derive(Clone, Copy, PartialEq, Eq, Structural, Debug)]
pub struct AggregateKind(pub u32);

/// How one field of a key record compares.
#[derive(Clone, Copy, PartialEq, Eq, Structural, Debug)]
pub struct KeyField {
    pub desc: bool,
    pub collation: Collation,
}

impl KeyField {
    /// Ascending order under the binary collation.
    pub fn asc_binary() -> (r: KeyField)
        ensures
            r == ascending(),
    {
        KeyField { desc: false, collation: Collation::Binary }
    }
}

/// The key field that [`KeyField::asc_binary`] makes.
pub open spec fn ascending() -> KeyField {
    KeyField { desc: false, collation: Collation::Binary }
}

/// An operation of the virtual machine.
#[derive(Clone, Copy, PartialEq, Eq, Structural, Debug)]
pub enum Opcode {
    Goto,
    Init,
    Once,
    Gosub,
    Return,
    If,
    IfNot,
    IsNull,
    NotNull,
    IfPos,
    DecrJumpZero,
    Eq,
    Ne,
    Lt,
    Le,
    Gt,
    Ge,
    Rewind,
    Next,
    Last,
    Prev,
    NotExists,
    SeekRowid,
    SeekGE,
    SeekGT,
    SeekLE,
    SeekLT,
    IdxGE,
    IdxGT,
    IdxLE,
    IdxLT,
    Found,
    NotFound,
    NoConflict,
    SorterOpen,
    SorterInsert,
    SorterSort,
    SorterData,
    SorterNext,
    ResetSorter,
    OpenRead,
    OpenWrite,
    OpenWriteReg,
    OpenEphemeral,
    OpenPseudo,
    OpenDup,
    Close,
    RowData,
    Column,
    Rowid,
    NullRow,
    Clear,
    Destroy,
    IdxInsert,
    IdxDelete,
    IdxRowid,
    MakeRecord,
    NewRowid,
    Insert,
    Delete,
    Integer,
    Int64,
    Real,
    String8,
    Null,
    Blob,
    Add,
    Subtract,
    Multiply,
    Divide,
    Remainder,
    Concat,
    BitAnd,
    BitOr,
    ShiftLeft,
    ShiftRight,
    BitNot,
    Not,
    And,
    Or,
    SCopy,
    Move,
    Copy,
    Affinity,
    RealAffinity,
    Function,
    AggStep,
    AggInverse,
    AggFinal,
    AggValue,
    HaltIfNull,
    AddImm,
    Compare,
    Jump,
    Transaction,
    SetCookie,
    ParseSchema,
    CreateBtree,
    Halt,
    ResultRow,
    InitCoroutine,
    EndCoroutine,
    Yield,
    Program,
    Param,
}

/// The structured operand of an instruction.
#[derive(Debug)]
pub enum P4 {
    Unused,
    Int(i64),
    Real(u64),
    Text(String),
    Blob(Vec<u8>),
    KeyInfo(Vec<KeyField>),
    Symbol(String),
    FuncDef(AggregateKind),
}

/// The mathematical value of a [`P4`].
pub ghost enum P4View {
    Unused,
    Int(i64),
    Real(u64),
    Text(Seq<char>),
    Blob(Seq<u8>),
    KeyInfo(Seq<KeyField>),
    Symbol(Seq<char>),
    FuncDef(AggregateKind),
}

impl View for P4 {
    type V = P4View;

    open spec fn view(&self) -> P4View {
        match self {
            P4::Unused => P4View::Unused,
            P4::Int(n) => P4View::Int(*n),
            P4::Real(r) => P4View::Real(*r),
            P4::Text(s) => P4View::Text(s@),
            P4::Blob(b) => P4View::Blob(b@),
            P4::KeyInfo(k) => P4View::KeyInfo(k@),
            P4::Symbol(s) => P4View::Symbol(s@),
            P4::FuncDef(k) => P4View::FuncDef(*k),
        }
    }
}

/// A copy of a key description.
pub fn clone_key_info(v: &Vec<KeyField>) -> (r: Vec<KeyField>)
    ensures
        r@ == v@,
{
    let mut r: Vec<KeyField> = Vec::new();
    for i in 0..v.len()
        invariant
            r@ == v@.take(i as int),
    {
        r.push(v[i]);
        assert(v@.take(i + 1) =~= v@.take(i as int).push(v@[i as int]));
    }
    assert(v@.take(v@.len() as int) =~= v@);
    r
}

impl Clone for P4 {
    /// A copy with the same value.
    fn clone(&self) -> (r: Self)
        ensures
            r@ == self@,
    {
        match self {
            P4::Unused => P4::Unused,
            P4::Int(n) => P4::Int(*n),
            P4::Real(r) => P4::Real(*r),
            P4::Text(s) => P4::Text(s.clone()),
            P4::Blob(b) => P4::Blob(clone_bytes(b)),
            P4::KeyInfo(k) => P4::KeyInfo(clone_key_info(k)),
            P4::Symbol(s) => P4::Symbol(s.clone()),
            P4::FuncDef(k) => P4::FuncDef(*k),
        }
    }
}

/// One instruction.
#[derive(Debug)]
pub struct Instruction {
    pub opcode: Opcode,
    pub p1: i32,
    pub p2: i32,
    pub p3: i32,
    pub p4: P4,
    pub p5: u8,
}

/// The mathematical value of an [`Instruction`].
pub ghost struct InstView {
    pub opcode: Opcode,
    pub p1: i32,
    pub p2: i32,
    pub p3: i32,
    pub p4: P4View,
    pub p5: u8,
}

impl View for Instruction {
    type V = InstView;

    open spec fn view(&self) -> InstView {
        InstView {
            opcode: self.opcode,
            p1: self.p1,
            p2: self.p2,
            p3: self.p3,
            p4: self.p4@,
            p5: self.p5,
        }
    }
}

impl Instruction {
    /// An instruction with no `p4` and no flags.
    pub fn new(opcode: Opcode, p1: i32, p2: i32, p3: i32) -> (r: Instruction)
        ensures
            r@ == (InstView { opcode, p1, p2, p3, p4: P4View::Unused, p5: 0 }),
    {
        Instruction { opcode, p1, p2, p3, p4: P4::Unused, p5: 0 }
    }
}

impl Clone for Instruction {
    /// A copy with the same value.
    fn clone(&self) -> (r: Self)
        ensures
            r@ == self@,
    {
        Instruction {
            opcode: self.opcode,
            p1: self.p1,
            p2: self.p2,
            p3: self.p3,
            p4: self.p4.clone(),
            p5: self.p5,
        }
    }
}

/// The instructions of a vector, by value.
pub open spec fn code_view(s: Seq<Instruction>) -> Seq<InstView> {
    Seq::new(s.len(), |i: int| s[i]@)
}

/// A finished program.
#[derive(Debug)]
pub struct Program {
    pub instructions: Vec<Instruction>,
    /// One more than the highest register number; register 0 is never used.
    pub num_registers: usize,
    /// One more than the highest cursor number.
    pub num_cursors: usize,
}

/// The mathematical value of a [`Program`].
pub ghost struct ProgramView {
    pub code: Seq<InstView>,
    pub num_registers: usize,
    pub num_cursors: usize,
}

impl View for Program {
    type V = ProgramView;

    open spec fn view(&self) -> ProgramView {
        ProgramView {
            code: code_view(self.instructions@),
            num_registers: self.num_registers,
            num_cursors: self.num_cursors,
        }
    }
}

/// A comparison takes its jump when an operand is NULL.
pub const P5_JUMPIFNULL: u8 = 0x10;

/// A comparison stores its outcome in `p2` in place of jumping.
pub const P5_STOREP2: u8 = 0x20;

/// A comparison treats NULL as an ordinary value.
pub const P5_NULLEQ: u8 = 0x80;

/// A write does not count as a change of its own.
pub const P5_ISUPDATE: u8 = 0x04;

/// An index write counts as a change.
pub const P5_NCHANGE: u8 = 0x01;

/// An index write fails on a duplicate key.
pub const P5_UNIQUE: u8 = 0x02;

/// The affinity code in the low bits of a comparison's flags; 0 for none.
pub open spec fn affinity_bits(aff: Option<Affinity>) -> u8 {
    match aff {
        None => 0,
        Some(Affinity::Blob) => 1,
        Some(Affinity::Text) => 2,
        Some(Affinity::Numeric) => 3,
        Some(Affinity::Integer) => 4,
        Some(Affinity::Real) => 5,
    }
}

/// The affinity code in the low bits of a comparison's flags.
pub fn aff_to_p5(aff: Option<Affinity>) -> (r: u8)
    ensures
        r == affinity_bits(aff),
{
    match aff {
        None => 0,
        Some(Affinity::Blob) => 1,
        Some(Affinity::Text) => 2,
        Some(Affinity::Numeric) => 3,
        Some(Affinity::Integer) => 4,
        Some(Affinity::Real) => 5,
    }
}

} // verus!
