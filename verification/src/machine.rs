//! What the instructions of a program do.
//!
//! A [`State`] is a state of the virtual machine, [`step`] runs one instruction, and [`reaches`]
//! says that one state leads to another. The operations on single values (arithmetic, the order
//! of two values, a scalar function) are those of a [`Values`]: what is proved of programs here
//! holds whatever they are.
//!
//! Code generation lays out one part of a program at a time. [`grows`] says how the part laid out
//! so far may grow, and [`settles`] that what is laid out is part of a finished program, so that
//! what a part does can be told before the rest is known.
use vstd::prelude::*;

use crate::ast::BinaryOp;
use crate::builder::{address_of, patched, targets_of, Asm};
use crate::vdbe::{
    ascending, AggregateKind, InstView, KeyField, Opcode, P4View, P5_JUMPIFNULL, P5_NULLEQ,
    P5_STOREP2, P5_UNIQUE,
};

verus! {

// ---- Values and truth ----

/// A value of the machine.
pub ghost enum Val {
    Null,
    Int(i64),
    Real(u64),
    Text(Seq<char>),
    Blob(Seq<u8>),
    Record(Seq<Val>),
    /// An accumulator: an aggregate function, and the arguments that it was fed with.
    Acc(AggregateKind, Seq<Seq<Val>>),
}

/// The operations on single values.
pub ghost struct Values {
    /// What an arithmetic operator gives for its left and its right operand.
    pub arith: spec_fn(BinaryOp, Val, Val) -> Val,
    /// The bitwise complement.
    pub bit_not: spec_fn(Val) -> Val,
    /// How the first value stands to the second, neither of them NULL: negative if it is less,
    /// zero if they are equal, positive if it is greater. The operand names the collation, and
    /// the number is the affinity that is applied to both.
    pub order: spec_fn(Val, Val, P4View, u8) -> int,
    /// A value that is neither NULL nor an integer counts as true.
    pub holds: spec_fn(Val) -> bool,
    /// The value of a scalar function.
    pub call: spec_fn(Seq<char>, Seq<Val>) -> Val,
    /// A value read from a column with REAL affinity.
    pub real: spec_fn(Val) -> Val,
    /// A value with the affinity of a column applied.
    pub cast: spec_fn(Val, Seq<char>) -> Val,
    /// How the first value stands to the second as a field of a key; NULL is a value like any
    /// other there.
    pub field_order: spec_fn(Val, Val, KeyField) -> int,
    /// The result of an aggregate function that was fed with these arguments.
    pub result: spec_fn(AggregateKind, Seq<Seq<Val>>) -> Val,
    /// The rows of a b-tree with one more.
    pub store: spec_fn(Seq<Row>, Row) -> Seq<Row>,
    /// The rows of an index without the entry that has these fields.
    pub remove: spec_fn(Seq<Row>, Seq<Val>) -> Seq<Row>,
    /// An entry of the index has the key that the fields of an entry hold.
    pub clashes: spec_fn(Seq<Row>, Seq<Val>) -> bool,
    /// A rowid that no row of the table has.
    pub new_rowid: spec_fn(Seq<Row>) -> i64,
    /// The rows in the order of their keys.
    pub sorted: spec_fn(Seq<Row>, Seq<KeyField>) -> Seq<Row>,
}

/// The truth of a value: unknown for NULL.
pub open spec fn truth(m: Values, v: Val) -> Option<bool> {
    match v {
        Val::Null => None,
        Val::Int(n) => Some(n != 0),
        _ => Some((m.holds)(v)),
    }
}

/// The value that stands for a truth value: 1, 0 or NULL.
pub open spec fn truth_value(t: Option<bool>) -> Val {
    match t {
        Some(true) => Val::Int(1),
        Some(false) => Val::Int(0),
        None => Val::Null,
    }
}

/// `AND`: false if either side is, true if both are, else unknown.
pub open spec fn and3(a: Option<bool>, b: Option<bool>) -> Option<bool> {
    if a == Some(false) || b == Some(false) {
        Some(false)
    } else if a == Some(true) && b == Some(true) {
        Some(true)
    } else {
        None
    }
}

/// `OR`: true if either side is, false if both are, else unknown.
pub open spec fn or3(a: Option<bool>, b: Option<bool>) -> Option<bool> {
    if a == Some(true) || b == Some(true) {
        Some(true)
    } else if a == Some(false) && b == Some(false) {
        Some(false)
    } else {
        None
    }
}

/// `NOT`: the other truth value; unknown stays unknown.
pub open spec fn not3(a: Option<bool>) -> Option<bool> {
    match a {
        Some(b) => Some(!b),
        None => None,
    }
}

/// The relation that a comparison instruction tests, on how its operands stand to each other.
pub open spec fn relation(op: Opcode, sign: int) -> bool {
    match op {
        Opcode::Eq => sign == 0,
        Opcode::Ne => sign != 0,
        Opcode::Lt => sign < 0,
        Opcode::Le => sign <= 0,
        Opcode::Gt => sign > 0,
        _ => sign >= 0,
    }
}

/// The outcome of a comparison of two values: unknown if either is NULL.
pub open spec fn compared(m: Values, op: Opcode, l: Val, r: Val, p4: P4View, aff: u8) -> Option<
    bool,
> {
    if l is Null || r is Null {
        None
    } else {
        Some(relation(op, (m.order)(l, r, p4, aff)))
    }
}

/// The two values are the same, NULL being the same as NULL only.
pub open spec fn same_value(m: Values, l: Val, r: Val, p4: P4View, aff: u8) -> bool {
    if l is Null || r is Null {
        l is Null && r is Null
    } else {
        (m.order)(l, r, p4, aff) == 0
    }
}

// ---- The machine ----

/// A row of a table or of an index.
pub ghost struct Row {
    pub rowid: i64,
    pub fields: Seq<Val>,
}

/// An open cursor: the b-tree that it walks, and the row that it is on.
pub ghost struct CursorState {
    pub root: int,
    pub at: int,
    /// How the rows of a sorter compare.
    pub keys: Seq<KeyField>,
}

/// A coroutine: the rows that it has yet to yield, and the registers that it yields them in.
pub ghost struct Stream {
    pub rows: Seq<Seq<Val>>,
    pub block: i32,
}

/// A state of the machine.
pub ghost struct State {
    /// The address of the next instruction.
    pub pc: int,
    pub regs: Map<i32, Val>,
    pub cursors: Map<i32, CursorState>,
    /// The rows of each b-tree, by the page of its root; those of temporary ones are negative.
    pub trees: Map<int, Seq<Row>>,
    /// The coroutines, by the register that holds their address.
    pub streams: Map<i32, Stream>,
    /// How the two keys that were compared last stand to each other.
    pub sign: int,
    /// The rows put out so far.
    pub out: Seq<Seq<Val>>,
    /// The program has ended.
    pub halted: bool,
    /// It has ended with this error.
    pub error: Option<Seq<char>>,
}

/// Go on with the next instruction.
pub open spec fn onward(st: State) -> State {
    State { pc: st.pc + 1, ..st }
}

/// Go on at an address.
pub open spec fn go(st: State, a: i32) -> State {
    State { pc: a as int, ..st }
}

/// Go on at an address if the condition holds, else with the next instruction.
pub open spec fn branch(st: State, cond: bool, a: i32) -> State {
    if cond {
        go(st, a)
    } else {
        onward(st)
    }
}

/// Store a value and go on.
pub open spec fn put(st: State, r: i32, v: Val) -> State {
    State { pc: st.pc + 1, regs: st.regs.insert(r, v), ..st }
}

/// The end of the program.
pub open spec fn halt(st: State) -> State {
    State { halted: true, ..st }
}

/// The end of the program, with an error.
pub open spec fn abort(st: State, message: P4View) -> State {
    State {
        halted: true,
        error: Some(
            match message {
                P4View::Text(m) => m,
                _ => Seq::empty(),
            },
        ),
        ..st
    }
}

/// The register `k` places after `base`.
pub open spec fn nth(base: i32, k: int) -> i32 {
    (base + k) as i32
}

/// The values of the `n` registers from `base` on.
pub open spec fn block(st: State, base: i32, n: int) -> Seq<Val> {
    Seq::new(n as nat, |k: int| st.regs[nth(base, k)])
}

/// The registers from `to` on hold what those from `from` on held, `n` of them.
pub open spec fn copied(regs: Map<i32, Val>, from: i32, to: i32, n: int) -> Map<i32, Val>
    decreases n,
{
    if n <= 0 {
        regs
    } else {
        copied(regs, from, to, n - 1).insert(nth(to, n - 1), regs[nth(from, n - 1)])
    }
}

/// The registers from `to` on hold the values.
pub open spec fn spread(regs: Map<i32, Val>, to: i32, vs: Seq<Val>, n: int) -> Map<i32, Val>
    decreases n,
{
    if n <= 0 {
        regs
    } else {
        spread(regs, to, vs, n - 1).insert(nth(to, n - 1), vs[n - 1])
    }
}

/// The rows that a cursor walks.
pub open spec fn rows_of(st: State, cursor: i32) -> Seq<Row> {
    st.trees[st.cursors[cursor].root]
}

/// The rows that a cursor walks replaced by others.
pub open spec fn with_rows(st: State, cursor: i32, rows: Seq<Row>) -> State {
    State { trees: st.trees.insert(st.cursors[cursor].root, rows), ..st }
}

/// A cursor moved to a row.
pub open spec fn moved(st: State, cursor: i32, at: int) -> State {
    State {
        cursors: st.cursors.insert(cursor, CursorState { at, ..st.cursors[cursor] }),
        ..st
    }
}

/// A cursor opened on a b-tree.
pub open spec fn opened(st: State, cursor: i32, root: int, p4: P4View) -> State {
    let keys = match p4 {
        P4View::KeyInfo(k) => k,
        _ => Seq::empty(),
    };
    State { cursors: st.cursors.insert(cursor, CursorState { root, at: 0, keys }), ..st }
}

/// The root of the temporary b-tree of a cursor.
pub open spec fn temporary(cursor: i32) -> int {
    -1 - cursor
}

/// A cursor opened on an empty temporary b-tree.
pub open spec fn opened_empty(st: State, cursor: i32, p4: P4View) -> State {
    let st = opened(st, cursor, temporary(cursor), p4);
    State { trees: st.trees.insert(temporary(cursor), Seq::empty()), ..st }
}

/// The fields of a record.
pub open spec fn fields_of(v: Val) -> Seq<Val> {
    match v {
        Val::Record(f) => f,
        _ => Seq::empty(),
    }
}

/// A field of a row, NULL if the row is too short.
pub open spec fn row_field(r: Row, i: int) -> Val {
    if 0 <= i < r.fields.len() {
        r.fields[i]
    } else {
        Val::Null
    }
}

/// The field of the row that a cursor is on.
pub open spec fn field(st: State, cursor: i32, i: int) -> Val {
    let rows = rows_of(st, cursor);
    let at = st.cursors[cursor].at;
    if 0 <= at < rows.len() && 0 <= i < rows[at].fields.len() {
        rows[at].fields[i]
    } else {
        Val::Null
    }
}

/// The rowid of the row that a cursor is on.
pub open spec fn rowid_of(st: State, cursor: i32) -> Val {
    let rows = rows_of(st, cursor);
    let at = st.cursors[cursor].at;
    if 0 <= at < rows.len() {
        Val::Int(rows[at].rowid)
    } else {
        Val::Null
    }
}

/// Two rows of values are the same, field by field.
pub open spec fn same_fields(m: Values, a: Seq<Val>, b: Seq<Val>) -> bool {
    a.len() == b.len() && forall|k: int|
        0 <= k < a.len() ==> (#[trigger] (m.field_order)(a[k], b[k], ascending())) == 0
}

/// The values are those of one of the rows.
pub open spec fn among(m: Values, rows: Seq<Row>, fields: Seq<Val>) -> bool {
    exists|i: int| 0 <= i < rows.len() && #[trigger] same_fields(m, rows[i].fields, fields)
}

/// How two keys stand to each other: as their first fields that differ.
pub open spec fn key_order(m: Values, a: Seq<Val>, b: Seq<Val>, info: Seq<KeyField>, k: int) -> int
    decreases a.len() - k,
{
    if k < 0 || k >= a.len() {
        0
    } else if (m.field_order)(a[k], b[k], info[k]) != 0 {
        (m.field_order)(a[k], b[k], info[k])
    } else {
        key_order(m, a, b, info, k + 1)
    }
}

/// How the first fields of a row stand to a key.
pub open spec fn prefix_order(m: Values, keys: Seq<KeyField>, r: Row, key: Seq<Val>) -> int {
    key_order(m, Seq::new(key.len(), |i: int| row_field(r, i)), key, keys, 0)
}

/// The first row from the `i`-th on that is not below a key.
pub open spec fn seek_from(
    m: Values,
    keys: Seq<KeyField>,
    rows: Seq<Row>,
    key: Seq<Val>,
    i: int,
) -> Option<int>
    decreases rows.len() - i,
{
    if i < 0 || i >= rows.len() {
        None
    } else if prefix_order(m, keys, rows[i], key) >= 0 {
        Some(i)
    } else {
        seek_from(m, keys, rows, key, i + 1)
    }
}

/// The first row from the `i`-th on that has the rowid.
pub open spec fn row_from(rows: Seq<Row>, rowid: Val, i: int) -> Option<int>
    decreases rows.len() - i,
{
    if i < 0 || i >= rows.len() {
        None
    } else if rowid == Val::Int(rows[i].rowid) {
        Some(i)
    } else {
        row_from(rows, rowid, i + 1)
    }
}

/// The last field of a row.
pub open spec fn last_field(r: Row) -> Val {
    row_field(r, r.fields.len() - 1)
}

/// A comparison: of register `p3` with register `p1`.
pub open spec fn run_comparison(m: Values, i: InstView, st: State) -> State {
    let l = st.regs[i.p3];
    let r = st.regs[i.p1];
    let aff = i.p5 & 0x0f;
    let outcome = if i.p5 & P5_NULLEQ != 0 {
        Some(
            if i.opcode == Opcode::Eq {
                same_value(m, l, r, i.p4, aff)
            } else {
                !same_value(m, l, r, i.p4, aff)
            },
        )
    } else {
        compared(m, i.opcode, l, r, i.p4, aff)
    };
    if i.p5 & P5_STOREP2 != 0 {
        put(st, i.p2, truth_value(outcome))
    } else {
        branch(
            st,
            match outcome {
                Some(b) => b,
                None => i.p5 & P5_JUMPIFNULL != 0,
            },
            i.p2,
        )
    }
}

/// An arithmetic operator: on registers `p2` and `p1`.
pub open spec fn run_arith(m: Values, op: BinaryOp, i: InstView, st: State) -> State {
    put(st, i.p3, (m.arith)(op, st.regs[i.p2], st.regs[i.p1]))
}

/// One instruction.
#[verifier::opaque]
pub open spec fn run(m: Values, i: InstView, st: State) -> State {
    match i.opcode {
        Opcode::Integer => put(st, i.p2, Val::Int(i.p1 as i64)),
        Opcode::Int64 => put(
            st,
            i.p2,
            match i.p4 {
                P4View::Int(n) => Val::Int(n),
                _ => Val::Null,
            },
        ),
        Opcode::Real => put(
            st,
            i.p2,
            match i.p4 {
                P4View::Real(r) => Val::Real(r),
                _ => Val::Null,
            },
        ),
        Opcode::String8 => put(
            st,
            i.p2,
            match i.p4 {
                P4View::Text(t) => Val::Text(t),
                _ => Val::Null,
            },
        ),
        Opcode::Blob => put(
            st,
            i.p2,
            match i.p4 {
                P4View::Blob(b) => Val::Blob(b),
                _ => Val::Null,
            },
        ),
        Opcode::Null => put(st, i.p2, Val::Null),
        Opcode::SCopy => put(st, i.p2, st.regs[i.p1]),
        Opcode::Copy => State {
            pc: st.pc + 1,
            regs: copied(st.regs, i.p1, i.p2, i.p3 + 1),
            ..st
        },
        Opcode::Column => put(st, i.p3, field(st, i.p1, i.p2 as int)),
        Opcode::Rowid => put(st, i.p2, rowid_of(st, i.p1)),
        Opcode::RealAffinity => put(st, i.p1, (m.real)(st.regs[i.p1])),
        Opcode::Add => run_arith(m, BinaryOp::Add, i, st),
        Opcode::Subtract => run_arith(m, BinaryOp::Sub, i, st),
        Opcode::Multiply => run_arith(m, BinaryOp::Mul, i, st),
        Opcode::Divide => run_arith(m, BinaryOp::Div, i, st),
        Opcode::Remainder => run_arith(m, BinaryOp::Mod, i, st),
        Opcode::Concat => run_arith(m, BinaryOp::Concat, i, st),
        Opcode::BitAnd => run_arith(m, BinaryOp::BitAnd, i, st),
        Opcode::BitOr => run_arith(m, BinaryOp::BitOr, i, st),
        Opcode::ShiftLeft => run_arith(m, BinaryOp::ShiftLeft, i, st),
        Opcode::ShiftRight => run_arith(m, BinaryOp::ShiftRight, i, st),
        Opcode::BitNot => put(st, i.p2, (m.bit_not)(st.regs[i.p1])),
        Opcode::Not => put(st, i.p2, truth_value(not3(truth(m, st.regs[i.p1])))),
        Opcode::And => put(
            st,
            i.p3,
            truth_value(and3(truth(m, st.regs[i.p1]), truth(m, st.regs[i.p2]))),
        ),
        Opcode::Or => put(
            st,
            i.p3,
            truth_value(or3(truth(m, st.regs[i.p1]), truth(m, st.regs[i.p2]))),
        ),
        Opcode::Eq | Opcode::Ne | Opcode::Lt | Opcode::Le | Opcode::Gt | Opcode::Ge => {
            run_comparison(m, i, st)
        },
        Opcode::Function => put(
            st,
            i.p3,
            match i.p4 {
                P4View::Symbol(name) => (m.call)(name, block(st, i.p2, i.p5 as int)),
                _ => Val::Null,
            },
        ),
        Opcode::Goto => go(st, i.p2),
        Opcode::If => branch(
            st,
            match truth(m, st.regs[i.p1]) {
                Some(b) => b,
                None => i.p3 != 0,
            },
            i.p2,
        ),
        Opcode::IfNot => branch(
            st,
            match truth(m, st.regs[i.p1]) {
                Some(b) => !b,
                None => i.p3 != 0,
            },
            i.p2,
        ),
        Opcode::IsNull => branch(st, st.regs[i.p1] is Null, i.p2),
        Opcode::NotNull => branch(st, !(st.regs[i.p1] is Null), i.p2),
        Opcode::Gosub => State {
            pc: i.p2 as int,
            regs: st.regs.insert(i.p1, Val::Int((st.pc + 1) as i64)),
            ..st
        },
        Opcode::Return => match st.regs[i.p1] {
            Val::Int(a) => State { pc: a as int, ..st },
            _ => halt(st),
        },
        Opcode::Yield => {
            let c = st.streams[i.p1];
            if c.rows.len() == 0 {
                go(st, i.p2)
            } else {
                let row = c.rows[0];
                State {
                    pc: st.pc + 1,
                    regs: spread(st.regs, c.block, row, row.len() as int),
                    streams: st.streams.insert(i.p1, Stream { rows: c.rows.skip(1), ..c }),
                    ..st
                }
            }
        },
        Opcode::Compare => match i.p4 {
            P4View::KeyInfo(info) => State {
                pc: st.pc + 1,
                sign: key_order(
                    m,
                    block(st, i.p1, i.p3 as int),
                    block(st, i.p2, i.p3 as int),
                    info,
                    0,
                ),
                ..st
            },
            _ => halt(st),
        },
        Opcode::Jump => if st.sign < 0 {
            go(st, i.p1)
        } else if st.sign == 0 {
            go(st, i.p2)
        } else {
            go(st, i.p3)
        },
        Opcode::Init => go(st, i.p2),
        Opcode::Transaction => onward(st),
        Opcode::OpenRead | Opcode::OpenWrite => onward(opened(st, i.p1, i.p2 as int, i.p4)),
        Opcode::OpenEphemeral | Opcode::SorterOpen => onward(opened_empty(st, i.p1, i.p4)),
        Opcode::Rewind => branch(moved(st, i.p1, 0), rows_of(st, i.p1).len() == 0, i.p2),
        Opcode::Next | Opcode::SorterNext => {
            let at = st.cursors[i.p1].at + 1;
            branch(moved(st, i.p1, at), at < rows_of(st, i.p1).len(), i.p2)
        },
        Opcode::SorterInsert => onward(
            with_rows(
                st,
                i.p1,
                rows_of(st, i.p1).push(Row { rowid: 0, fields: fields_of(st.regs[i.p2]) }),
            ),
        ),
        Opcode::SorterSort => {
            let rows = (m.sorted)(rows_of(st, i.p1), st.cursors[i.p1].keys);
            branch(
                moved(with_rows(st, i.p1, rows), i.p1, 0),
                rows_of(st, i.p1).len() == 0,
                i.p2,
            )
        },
        Opcode::SorterData => onward(st),
        Opcode::SeekGE => match i.p4 {
            P4View::Int(n) => match seek_from(
                m,
                st.cursors[i.p1].keys,
                rows_of(st, i.p1),
                block(st, i.p3, n as int),
                0,
            ) {
                Some(at) => onward(moved(st, i.p1, at)),
                None => go(st, i.p2),
            },
            _ => halt(st),
        },
        Opcode::IdxGT => match i.p4 {
            P4View::Int(n) => branch(
                st,
                prefix_order(
                    m,
                    st.cursors[i.p1].keys,
                    rows_of(st, i.p1)[st.cursors[i.p1].at],
                    block(st, i.p3, n as int),
                ) > 0,
                i.p2,
            ),
            _ => halt(st),
        },
        Opcode::IdxRowid => put(
            st,
            i.p2,
            last_field(rows_of(st, i.p1)[st.cursors[i.p1].at]),
        ),
        Opcode::NotExists => match row_from(rows_of(st, i.p1), st.regs[i.p3], 0) {
            Some(at) => onward(moved(st, i.p1, at)),
            None => go(st, i.p2),
        },
        Opcode::NullRow => onward(moved(st, i.p1, -1)),
        Opcode::Found => branch(
            st,
            match i.p4 {
                P4View::Int(n) => among(m, rows_of(st, i.p1), block(st, i.p3, n as int)),
                _ => false,
            },
            i.p2,
        ),
        Opcode::MakeRecord => put(st, i.p3, Val::Record(block(st, i.p1, i.p2 as int))),
        Opcode::NewRowid => put(st, i.p2, Val::Int((m.new_rowid)(rows_of(st, i.p1)))),
        Opcode::Insert => onward(
            with_rows(
                st,
                i.p1,
                (m.store)(
                    rows_of(st, i.p1),
                    Row {
                        rowid: match st.regs[i.p3] {
                            Val::Int(n) => n,
                            _ => 0,
                        },
                        fields: fields_of(st.regs[i.p2]),
                    },
                ),
            ),
        ),
        Opcode::IdxInsert => {
            let fields = fields_of(st.regs[i.p2]);
            if i.p5 & P5_UNIQUE != 0 && (m.clashes)(rows_of(st, i.p1), fields) {
                abort(st, i.p4)
            } else {
                onward(
                    with_rows(st, i.p1, (m.store)(rows_of(st, i.p1), Row { rowid: 0, fields })),
                )
            }
        },
        Opcode::IdxDelete => onward(
            with_rows(
                st,
                i.p1,
                (m.remove)(rows_of(st, i.p1), block(st, i.p2, i.p3 as int)),
            ),
        ),
        Opcode::Delete => {
            let at = st.cursors[i.p1].at;
            let rows = rows_of(st, i.p1);
            if 0 <= at < rows.len() {
                // The cursor is left in front of the row that follows.
                onward(moved(with_rows(st, i.p1, rows.remove(at)), i.p1, at - 1))
            } else {
                onward(st)
            }
        },
        Opcode::Affinity => put(
            st,
            i.p1,
            match i.p4 {
                P4View::Symbol(letter) => (m.cast)(st.regs[i.p1], letter),
                _ => st.regs[i.p1],
            },
        ),
        Opcode::HaltIfNull => if st.regs[i.p3] is Null {
            abort(st, i.p4)
        } else {
            onward(st)
        },
        Opcode::AggStep => put(
            st,
            i.p3,
            match i.p4 {
                P4View::FuncDef(kind) => {
                    let args = block(st, i.p2, i.p5 as int);
                    match st.regs[i.p3] {
                        Val::Acc(_, fed) => Val::Acc(kind, fed.push(args)),
                        _ => Val::Acc(kind, seq![args]),
                    }
                },
                _ => Val::Null,
            },
        ),
        Opcode::AggFinal => put(
            st,
            i.p1,
            match i.p4 {
                P4View::FuncDef(kind) => match st.regs[i.p1] {
                    Val::Acc(_, fed) => (m.result)(kind, fed),
                    _ => (m.result)(kind, Seq::empty()),
                },
                _ => Val::Null,
            },
        ),
        Opcode::IfPos => match st.regs[i.p1] {
            Val::Int(n) => if n > 0 {
                State {
                    pc: i.p2 as int,
                    regs: st.regs.insert(i.p1, Val::Int((n - i.p3) as i64)),
                    ..st
                }
            } else {
                onward(st)
            },
            _ => onward(st),
        },
        Opcode::DecrJumpZero => match st.regs[i.p1] {
            Val::Int(n) => branch(
                State { regs: st.regs.insert(i.p1, Val::Int((n - 1) as i64)), ..st },
                n - 1 == 0,
                i.p2,
            ),
            _ => onward(st),
        },
        Opcode::ResultRow => State {
            pc: st.pc + 1,
            out: st.out.push(block(st, i.p1, i.p2 as int)),
            ..st
        },
        _ => halt(st),
    }
}

/// The next state of the machine.
pub open spec fn step(m: Values, code: Seq<InstView>, st: State) -> State {
    if st.halted || st.pc < 0 || st.pc >= code.len() {
        halt(st)
    } else {
        run(m, code[st.pc], st)
    }
}

/// The state after `n` instructions.
pub open spec fn after(m: Values, code: Seq<InstView>, st: State, n: nat) -> State
    decreases n,
{
    if n == 0 {
        st
    } else {
        after(m, code, step(m, code, st), (n - 1) as nat)
    }
}

/// One state leads to another.
#[verifier::opaque]
pub open spec fn reaches(m: Values, code: Seq<InstView>, a: State, b: State) -> bool {
    exists|n: nat| #[trigger] after(m, code, a, n) == b
}

pub proof fn lemma_reaches_self(m: Values, code: Seq<InstView>, a: State)
    ensures
        reaches(m, code, a, a),
{
    reveal(reaches);
    assert(after(m, code, a, 0) == a);
}

proof fn lemma_after_sum(m: Values, code: Seq<InstView>, a: State, n: nat, k: nat)
    ensures
        after(m, code, a, n + k) == after(m, code, after(m, code, a, n), k),
    decreases n,
{
    if n > 0 {
        lemma_after_sum(m, code, step(m, code, a), (n - 1) as nat, k);
        assert((n + k - 1) as nat == (n - 1) as nat + k);
    }
}

pub proof fn lemma_reaches_through(m: Values, code: Seq<InstView>, a: State, b: State, c: State)
    requires
        reaches(m, code, a, b),
        reaches(m, code, b, c),
    ensures
        reaches(m, code, a, c),
{
    reveal(reaches);
    let n = choose|n: nat| #[trigger] after(m, code, a, n) == b;
    let k = choose|k: nat| #[trigger] after(m, code, b, k) == c;
    lemma_after_sum(m, code, a, n, k);
    assert(after(m, code, a, n + k) == c);
}

/// One instruction further.
pub proof fn lemma_reaches_step(m: Values, code: Seq<InstView>, a: State, b: State)
    requires
        reaches(m, code, a, b),
    ensures
        reaches(m, code, a, step(m, code, b)),
{
    reveal(reaches);
    let c = step(m, code, b);
    assert(after(m, code, c, 0) == c);
    assert(after(m, code, b, 1) == after(m, code, c, 0));
    lemma_reaches_through(m, code, a, b, c);
}

// ---- Parts of a program ----

/// Every labelled operand belongs to an instruction that is there.
#[verifier::opaque]
pub open spec fn neat(s: Asm) -> bool {
    forall|k: int| 0 <= k < s.fixups.len() ==> (#[trigger] s.fixups[k]).0 < s.code.len()
}

/// `t` is `s` with more laid out behind it, unless code generation has failed: nothing that was
/// there is changed, and no label that was there is bound.
#[verifier::opaque]
pub open spec fn grows(s: Asm, t: Asm) -> bool {
    t.err is None ==> {
        &&& s.err is None
        &&& s.code.len() <= t.code.len()
        &&& t.code.take(s.code.len() as int) == s.code
        &&& s.fixups.len() <= t.fixups.len()
        &&& t.fixups.take(s.fixups.len() as int) == s.fixups
        &&& forall|k: int|
            s.fixups.len() <= k < t.fixups.len() ==> s.code.len() <= (#[trigger] t.fixups[k]).0
                < t.code.len()
        &&& s.labels.len() <= t.labels.len()
        &&& t.labels.take(s.labels.len() as int) == s.labels
    }
}

/// What is laid out in `t` stands in the finished program of `big`, where the labels that are
/// bound keep their addresses.
#[verifier::opaque]
pub open spec fn settles(t: Asm, big: Asm) -> bool {
    &&& t.err is None
    &&& t.code.len() <= big.code.len() <= i32::MAX
    &&& big.code.take(t.code.len() as int) == t.code
    &&& t.fixups.len() <= big.fixups.len()
    &&& big.fixups.take(t.fixups.len() as int) == t.fixups
    &&& forall|k: int|
        t.fixups.len() <= k < big.fixups.len() ==> t.code.len() <= (#[trigger] big.fixups[k]).0
    &&& t.labels.len() <= big.labels.len()
    &&& forall|l: int|
        0 <= l < t.labels.len() && (#[trigger] t.labels[l]) is Some ==> big.labels[l] == t.labels[l]
}

/// The address of a label in the finished program.
pub open spec fn place(big: Asm, l: int) -> int {
    address_of(big.labels, l) as int
}

pub broadcast proof fn grows_self(s: Asm)
    ensures
        #[trigger] grows(s, s),
{
    reveal(grows);
    assert(s.code.take(s.code.len() as int) =~= s.code);
    assert(s.fixups.take(s.fixups.len() as int) =~= s.fixups);
    assert(s.labels.take(s.labels.len() as int) =~= s.labels);
}

pub proof fn lemma_grows_through(s: Asm, t: Asm, u: Asm)
    requires
        grows(s, t),
        grows(t, u),
    ensures
        grows(s, u),
{
    reveal(grows);
    if u.err is None {
        assert(u.code.take(s.code.len() as int) =~= t.code.take(s.code.len() as int));
        assert(u.fixups.take(s.fixups.len() as int) =~= t.fixups.take(s.fixups.len() as int));
        assert(u.labels.take(s.labels.len() as int) =~= t.labels.take(s.labels.len() as int));
        assert forall|k: int| s.fixups.len() <= k < u.fixups.len() implies s.code.len() <= (
        #[trigger] u.fixups[k]).0 < u.code.len() by {
            if k < t.fixups.len() {
                assert(u.fixups[k] == u.fixups.take(t.fixups.len() as int)[k]);
                assert(u.fixups[k] == t.fixups[k]);
            }
        }
    }
}

pub broadcast proof fn grows_stopped(s: Asm, t: Asm)
    requires
        t.err is Some,
    ensures
        #[trigger] grows(s, t),
{
    reveal(grows);
}

pub broadcast proof fn grows_fail(s: Asm, t: Asm, msg: Seq<char>)
    ensures
        #[trigger] grows(s, t.fail(msg)),
{
    reveal(grows);
    reveal(Asm::fail);
}

/// The shape of what one more instruction, label or labelled operand adds.
proof fn lemma_grows_by(s: Asm, t: Asm, u: Asm)
    requires
        grows(s, t),
        t.err is None,
        t.code.len() <= u.code.len(),
        forall|k: int| 0 <= k < t.code.len() ==> u.code[k] == t.code[k],
        t.fixups.len() <= u.fixups.len(),
        forall|k: int| 0 <= k < t.fixups.len() ==> u.fixups[k] == t.fixups[k],
        forall|k: int|
            t.fixups.len() <= k < u.fixups.len() ==> t.code.len() <= (#[trigger] u.fixups[k]).0
                < u.code.len(),
        t.labels.len() <= u.labels.len(),
        forall|l: int| 0 <= l < s.labels.len() ==> u.labels[l] == t.labels[l],
    ensures
        grows(s, u),
{
    reveal(grows);
    assert(u.code.take(s.code.len() as int) =~= t.code.take(s.code.len() as int));
    assert(u.fixups.take(s.fixups.len() as int) =~= t.fixups.take(s.fixups.len() as int));
    assert(u.labels.take(s.labels.len() as int) =~= t.labels.take(s.labels.len() as int));
    assert forall|k: int| s.fixups.len() <= k < u.fixups.len() implies s.code.len() <= (
    #[trigger] u.fixups[k]).0 < u.code.len() by {
        if k < t.fixups.len() {
            assert(u.fixups[k] == t.fixups[k]);
        }
    }
}

pub broadcast proof fn grows_append(s: Asm, t: Asm, inst: InstView)
    requires
        grows(s, t),
    ensures
        #[trigger] grows(s, t.append(inst)),
{
    reveal(Asm::append);
    if t.err is None {
        lemma_grows_by(s, t, t.append(inst));
    }
}

pub broadcast proof fn grows_take_regs(s: Asm, t: Asm, n: i32)
    requires
        grows(s, t),
    ensures
        #[trigger] grows(s, t.take_regs(n)),
{
    reveal(Asm::take_regs);
    if t.err is None {
        lemma_grows_by(s, t, t.take_regs(n));
    }
}

pub broadcast proof fn grows_advance_regs(s: Asm, t: Asm, n: i32)
    requires
        grows(s, t),
    ensures
        #[trigger] grows(s, t.advance_regs(n)),
{
    reveal(Asm::advance_regs);
    if t.err is None {
        lemma_grows_by(s, t, t.advance_regs(n));
    }
}

pub broadcast proof fn grows_note_cursor(s: Asm, t: Asm, c: i32)
    requires
        grows(s, t),
    ensures
        #[trigger] grows(s, t.note_cursor(c)),
{
    reveal(Asm::note_cursor);
    if t.err is None {
        lemma_grows_by(s, t, t.note_cursor(c));
    }
}

pub broadcast proof fn grows_label(s: Asm, t: Asm)
    requires
        grows(s, t),
    ensures
        #[trigger] grows(s, t.label()),
{
    reveal(Asm::label);
    reveal(grows);
    if t.err is None {
        lemma_grows_by(s, t, t.label());
    }
}

pub broadcast proof fn grows_bind(s: Asm, t: Asm, l: int)
    requires
        grows(s, t),
        s.fresh() <= l,
    ensures
        #[trigger] grows(s, t.bind(l)),
{
    reveal(Asm::bind);
    reveal(Asm::fresh);
    if t.err is None {
        lemma_grows_by(s, t, t.bind(l));
    }
}

pub broadcast proof fn grows_jump(
    s: Asm,
    t: Asm,
    opcode: Opcode,
    p1: i32,
    l: int,
    p3: i32,
    p4: P4View,
    p5: u8,
)
    requires
        grows(s, t),
    ensures
        #[trigger] grows(s, t.jump_p45(opcode, p1, l, p3, p4, p5)),
{
    reveal(Asm::jump_p45);
    reveal(Asm::append);
    reveal(Asm::fix);
    if t.err is None {
        lemma_grows_by(s, t, t.jump_p45(opcode, p1, l, p3, p4, p5));
    }
}

pub broadcast proof fn grows_jump3(s: Asm, t: Asm, opcode: Opcode, l1: int, l2: int, l3: int)
    requires
        grows(s, t),
    ensures
        #[trigger] grows(s, t.jump3(opcode, l1, l2, l3)),
{
    reveal(Asm::jump3);
    reveal(Asm::append);
    reveal(Asm::fix);
    if t.err is None {
        lemma_grows_by(s, t, t.jump3(opcode, l1, l2, l3));
    }
}

pub broadcast group group_grows {
    grows_self,
    grows_stopped,
    grows_fail,
    grows_append,
    grows_take_regs,
    grows_advance_regs,
    grows_note_cursor,
    grows_label,
    grows_bind,
    grows_jump,
    grows_jump3,
}

/// What grows out of a neat state is neat.
pub proof fn lemma_grows_neat(s: Asm, t: Asm)
    requires
        grows(s, t),
        neat(s),
        t.err is None,
    ensures
        neat(t),
        s.err is None,
        s.code.len() <= t.code.len(),
        s.fresh() <= t.fresh(),
{
    reveal(grows);
    reveal(neat);
    reveal(Asm::fresh);
    assert forall|k: int| 0 <= k < t.fixups.len() implies (#[trigger] t.fixups[k]).0
        < t.code.len() by {
        if k < s.fixups.len() {
            assert(t.fixups.take(s.fixups.len() as int)[k] == s.fixups[k]);
        }
    }
}

/// What is laid out early is part of the finished program too.
pub proof fn lemma_settles_early(s: Asm, t: Asm, big: Asm)
    requires
        grows(s, t),
        t.err is None,
        settles(t, big),
    ensures
        settles(s, big),
        s.err is None,
{
    reveal(grows);
    reveal(settles);
    assert(big.code.take(s.code.len() as int) =~= t.code.take(s.code.len() as int));
    assert(big.fixups.take(s.fixups.len() as int) =~= t.fixups.take(s.fixups.len() as int));
    assert forall|k: int| s.fixups.len() <= k < big.fixups.len() implies s.code.len() <= (
    #[trigger] big.fixups[k]).0 by {
        if k < t.fixups.len() {
            assert(big.fixups.take(t.fixups.len() as int)[k] == t.fixups[k]);
        }
    }
    assert forall|l: int| 0 <= l < s.labels.len() && (#[trigger] s.labels[l]) is Some implies
        big.labels[l] == s.labels[l] by {
        assert(t.labels.take(s.labels.len() as int)[l] == s.labels[l]);
        assert(t.labels[l] is Some);
    }
}

/// A label bound at the end of what is laid out stands for what comes next.
pub proof fn lemma_bound_here(t: Asm, l: int, big: Asm)
    requires
        settles(t.bind(l), big),
        0 <= l < t.fresh(),
    ensures
        place(big, l) == t.code.len(),
{
    reveal(Asm::bind);
    reveal(Asm::fresh);
    reveal(settles);
    assert(t.bind(l).labels[l] == Some(t.here()));
}

proof fn lemma_targets_split(a: Seq<(int, int)>, b: Seq<(int, int)>, i: int)
    requires
        forall|k: int| 0 <= k < b.len() ==> (#[trigger] b[k]).0 != i,
    ensures
        targets_of(a + b, i) == targets_of(a, i),
    decreases b.len(),
{
    if b.len() == 0 {
        assert(a + b =~= a);
    } else {
        assert((a + b).drop_last() =~= a + b.drop_last());
        assert((a + b).last() == b[b.len() - 1]);
        assert forall|k: int| 0 <= k < b.drop_last().len() implies (#[trigger] b.drop_last()[k]).0
            != i by {
            assert(b[k].0 != i);
        }
        lemma_targets_split(a, b.drop_last(), i);
    }
}

proof fn lemma_targets_none(a: Seq<(int, int)>, i: int)
    requires
        forall|k: int| 0 <= k < a.len() ==> (#[trigger] a[k]).0 != i,
    ensures
        targets_of(a, i) == Seq::<int>::empty(),
{
    lemma_targets_split(Seq::empty(), a, i);
    assert(Seq::<(int, int)>::empty() + a =~= a);
}

/// An instruction of a settled part, in the finished program.
proof fn lemma_settled_inst(t: Asm, big: Asm, i: int)
    requires
        settles(t, big),
        0 <= i < t.code.len(),
    ensures
        i < big.program().code.len(),
        big.program().code.len() == big.code.len(),
        big.program().code[i] == patched(t.code[i], targets_of(t.fixups, i), big.labels),
{
    reveal(settles);
    reveal(Asm::program);
    let n = t.fixups.len() as int;
    assert(big.fixups =~= t.fixups + big.fixups.skip(n));
    assert forall|k: int| 0 <= k < big.fixups.skip(n).len() implies (
    #[trigger] big.fixups.skip(n)[k]).0 != i by {
        assert(big.fixups[n + k].0 >= t.code.len());
    }
    lemma_targets_split(t.fixups, big.fixups.skip(n), i);
    assert(big.code[i] == big.code.take(t.code.len() as int)[i]);
}

/// The instruction that [`Asm::append`] adds.
pub proof fn lemma_inst_here(s: Asm, inst: InstView, big: Asm)
    requires
        neat(s),
        s.err is None,
        settles(s.append(inst), big),
    ensures
        s.code.len() < big.program().code.len(),
        big.program().code[s.code.len() as int] == inst,
{
    reveal(Asm::append);
    reveal(neat);
    let i = s.code.len() as int;
    lemma_settled_inst(s.append(inst), big, i);
    lemma_targets_none(s.fixups, i);
}

/// The instruction that [`Asm::jump_p45`] adds.
pub proof fn lemma_jump_here(
    s: Asm,
    opcode: Opcode,
    p1: i32,
    l: int,
    p3: i32,
    p4: P4View,
    p5: u8,
    big: Asm,
)
    requires
        neat(s),
        s.err is None,
        settles(s.jump_p45(opcode, p1, l, p3, p4, p5), big),
    ensures
        s.code.len() < big.program().code.len(),
        big.program().code[s.code.len() as int] == (InstView {
            opcode,
            p1,
            p2: address_of(big.labels, l),
            p3,
            p4,
            p5,
        }),
{
    reveal(Asm::append);
    reveal(Asm::fix);
    reveal(Asm::jump_p45);
    reveal(neat);
    let i = s.code.len() as int;
    let t = s.jump_p45(opcode, p1, l, p3, p4, p5);
    lemma_settled_inst(t, big, i);
    lemma_targets_none(s.fixups, i);
    assert(t.fixups.drop_last() =~= s.fixups);
    assert(targets_of(t.fixups, i) =~= seq![l]);
}

/// The instruction that [`Asm::jump3`] adds.
pub proof fn lemma_jump3_here(s: Asm, opcode: Opcode, l1: int, l2: int, l3: int, big: Asm)
    requires
        neat(s),
        s.err is None,
        settles(s.jump3(opcode, l1, l2, l3), big),
    ensures
        s.code.len() < big.program().code.len(),
        big.program().code[s.code.len() as int] == (InstView {
            opcode,
            p1: address_of(big.labels, l1),
            p2: address_of(big.labels, l2),
            p3: address_of(big.labels, l3),
            p4: P4View::Unused,
            p5: 0,
        }),
{
    reveal(Asm::append);
    reveal(Asm::fix);
    reveal(Asm::jump3);
    reveal(neat);
    let i = s.code.len() as int;
    let t = s.jump3(opcode, l1, l2, l3);
    let f = s.fixups;
    lemma_settled_inst(t, big, i);
    lemma_targets_none(f, i);
    assert(t.fixups.drop_last().drop_last().drop_last() =~= f);
    reveal_with_fuel(targets_of, 4);
    assert(targets_of(t.fixups, i) =~= seq![l2, l1, l3]);
}

// What is settled, taken apart from its end on.

pub broadcast proof fn settled_append(t: Asm, inst: InstView, big: Asm)
    requires
        #[trigger] settles(t.append(inst), big),
    ensures
        settles(t, big),
        neat(t) ==> neat(t.append(inst)),
        t.append(inst).code.len() == t.code.len() + 1,
        neat(t) ==> t.code.len() < big.program().code.len()
            && big.program().code[t.code.len() as int] == inst,
{
    reveal(Asm::append);
    reveal(settles);
    reveal(neat);
    grows_self(t);
    grows_append(t, t, inst);
    lemma_settles_early(t, t.append(inst), big);
    if neat(t) {
        lemma_inst_here(t, inst, big);
    }
}

pub broadcast proof fn settled_jump(
    t: Asm,
    opcode: Opcode,
    p1: i32,
    l: int,
    p3: i32,
    p4: P4View,
    p5: u8,
    big: Asm,
)
    requires
        #[trigger] settles(t.jump_p45(opcode, p1, l, p3, p4, p5), big),
    ensures
        settles(t, big),
        neat(t) ==> neat(t.jump_p45(opcode, p1, l, p3, p4, p5)),
        t.jump_p45(opcode, p1, l, p3, p4, p5).code.len() == t.code.len() + 1,
        neat(t) ==> t.code.len() < big.program().code.len(),
        neat(t) ==> big.program().code[t.code.len() as int] == (InstView {
            opcode,
            p1,
            p2: address_of(big.labels, l),
            p3,
            p4,
            p5,
        }),
{
    reveal(Asm::append);
    reveal(Asm::fix);
    reveal(Asm::jump_p45);
    reveal(settles);
    reveal(neat);
    grows_self(t);
    grows_jump(t, t, opcode, p1, l, p3, p4, p5);
    lemma_settles_early(t, t.jump_p45(opcode, p1, l, p3, p4, p5), big);
    if neat(t) {
        lemma_jump_here(t, opcode, p1, l, p3, p4, p5, big);
    }
}

pub broadcast proof fn settled_jump3(
    t: Asm,
    opcode: Opcode,
    l1: int,
    l2: int,
    l3: int,
    big: Asm,
)
    requires
        #[trigger] settles(t.jump3(opcode, l1, l2, l3), big),
    ensures
        settles(t, big),
        neat(t) ==> neat(t.jump3(opcode, l1, l2, l3)),
        t.jump3(opcode, l1, l2, l3).code.len() == t.code.len() + 1,
        neat(t) ==> t.code.len() < big.program().code.len(),
        neat(t) ==> big.program().code[t.code.len() as int] == (InstView {
            opcode,
            p1: address_of(big.labels, l1),
            p2: address_of(big.labels, l2),
            p3: address_of(big.labels, l3),
            p4: P4View::Unused,
            p5: 0,
        }),
{
    reveal(Asm::append);
    reveal(Asm::fix);
    reveal(Asm::jump3);
    reveal(settles);
    reveal(neat);
    grows_self(t);
    grows_jump3(t, t, opcode, l1, l2, l3);
    lemma_settles_early(t, t.jump3(opcode, l1, l2, l3), big);
    if neat(t) {
        lemma_jump3_here(t, opcode, l1, l2, l3, big);
    }
}

pub broadcast proof fn settled_take_regs(t: Asm, n: i32, big: Asm)
    requires
        #[trigger] settles(t.take_regs(n), big),
    ensures
        settles(t, big),
        neat(t) ==> neat(t.take_regs(n)),
        t.take_regs(n).code == t.code,
{
    reveal(Asm::take_regs);
    reveal(settles);
    reveal(neat);
}

pub broadcast proof fn settled_note_cursor(t: Asm, c: i32, big: Asm)
    requires
        #[trigger] settles(t.note_cursor(c), big),
    ensures
        settles(t, big),
        neat(t) ==> neat(t.note_cursor(c)),
        t.note_cursor(c).code == t.code,
{
    reveal(Asm::note_cursor);
    reveal(settles);
    reveal(neat);
}

pub broadcast proof fn settled_label(t: Asm, big: Asm)
    requires
        #[trigger] settles(t.label(), big),
    ensures
        settles(t, big),
        neat(t) ==> neat(t.label()),
        t.label().code == t.code,
{
    reveal(Asm::label);
    reveal(settles);
    reveal(neat);
    assert forall|l: int| 0 <= l < t.labels.len() && (#[trigger] t.labels[l]) is Some implies
        big.labels[l] == t.labels[l] by {
        assert(t.label().labels[l] == t.labels[l]);
    }
}

pub broadcast proof fn settled_bind(t: Asm, l: int, big: Asm)
    requires
        #[trigger] settles(t.bind(l), big),
        !t.bound(l),
        0 <= l < t.fresh(),
    ensures
        settles(t, big),
        neat(t) ==> neat(t.bind(l)),
        t.bind(l).code == t.code,
        place(big, l) == t.code.len(),
{
    reveal(Asm::bind);
    reveal(Asm::bound);
    reveal(Asm::fresh);
    reveal(settles);
    reveal(neat);
    lemma_bound_here(t, l, big);
    assert forall|k: int| 0 <= k < t.labels.len() && (#[trigger] t.labels[k]) is Some implies
        big.labels[k] == t.labels[k] by {
        assert(t.bind(l).labels[k] == t.labels[k]);
    }
}

pub broadcast group group_settled {
    settled_append,
    settled_jump,
    settled_jump3,
    settled_take_regs,
    settled_note_cursor,
    settled_label,
    settled_bind,
}

// What stays neat.

pub broadcast proof fn neat_append(s: Asm, inst: InstView)
    requires
        neat(s),
    ensures
        #[trigger] neat(s.append(inst)),
{
    reveal(neat);
    reveal(Asm::append);
}

pub broadcast proof fn neat_jump(
    s: Asm,
    opcode: Opcode,
    p1: i32,
    l: int,
    p3: i32,
    p4: P4View,
    p5: u8,
)
    requires
        neat(s),
    ensures
        #[trigger] neat(s.jump_p45(opcode, p1, l, p3, p4, p5)),
{
    reveal(neat);
    reveal(Asm::append);
    reveal(Asm::fix);
    reveal(Asm::jump_p45);
}

pub broadcast proof fn neat_label(s: Asm)
    requires
        neat(s),
    ensures
        #[trigger] neat(s.label()),
{
    reveal(neat);
    reveal(Asm::label);
}

pub broadcast proof fn neat_bind(s: Asm, l: int)
    requires
        neat(s),
    ensures
        #[trigger] neat(s.bind(l)),
{
    reveal(neat);
    reveal(Asm::bind);
}

pub broadcast proof fn neat_take_regs(s: Asm, n: i32)
    requires
        neat(s),
    ensures
        #[trigger] neat(s.take_regs(n)),
{
    reveal(neat);
    reveal(Asm::take_regs);
}

pub broadcast proof fn neat_note_cursor(s: Asm, c: i32)
    requires
        neat(s),
    ensures
        #[trigger] neat(s.note_cursor(c)),
{
    reveal(neat);
    reveal(Asm::note_cursor);
}

pub proof fn lemma_neat_start()
    ensures
        neat(Asm::start()),
{
    reveal(neat);
}

pub broadcast group group_neat {
    neat_append,
    neat_jump,
    neat_label,
    neat_bind,
    neat_take_regs,
    neat_note_cursor,
}

/// An instruction without labelled operands stands in the finished program as it is.
pub proof fn lemma_unpatched(s: Asm, i: int)
    requires
        0 <= i < s.code.len(),
        forall|k: int| 0 <= k < s.fixups.len() ==> (#[trigger] s.fixups[k]).0 != i,
    ensures
        s.program().code[i] == s.code[i],
        s.program().code.len() == s.code.len(),
{
    reveal(Asm::program);
    lemma_targets_none(s.fixups, i);
}

} // verus!
