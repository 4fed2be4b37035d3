//! The program builder, and pieces that other modules share.
#[allow(unused_imports)]
use sqlgen::ast::{
    BinaryOp, CompoundOperator, Cte, Expr, FunctionArgs, Join, JoinConstraint, JoinOp, Literal,
    OrderingTerm, ResultColumn, SelectStmt, TableOrJoin, TableRef, UnaryOp, WithClause,
};
#[allow(unused_imports)]
use sqlgen::schema::{AggSig, Column, FuncSig, Functions, IndexColumn, IndexObject, Table};
#[allow(unused_imports)]
use sqlgen::vdbe::{
    Affinity, AggregateKind, Collation, Instruction, KeyField, Opcode, Program, Value, P4,
};
use sqlgen::builder::ProgramBuilder;
use sqlgen::inline::{is_absolute_jump, rebase_operands};
use sqlgen::render::{default_col_name, expr_to_text};
use sqlgen::returning::returning_expr_to_text;
use sqlgen::rewrite::{find_call, AggCall};
use sqlgen::text::{decimal_i64, decimal_u64, eq_ignore_case};

#[allow(dead_code)]
fn name(s: &str) -> String {
    String::from(s)
}

#[allow(dead_code)]
fn col(n: &str) -> Expr {
    Expr::Column { schema: None, table: None, name: name(n) }
}

#[allow(dead_code)]
fn qcol(t: &str, n: &str) -> Expr {
    Expr::Column { schema: None, table: Some(name(t)), name: name(n) }
}

#[allow(dead_code)]
fn num(n: i64) -> Expr {
    Expr::Literal(Literal::Integer(n))
}

#[allow(dead_code)]
fn text(s: &str) -> Expr {
    Expr::Literal(Literal::Text(name(s)))
}

#[allow(dead_code)]
fn bin(op: BinaryOp, l: Expr, r: Expr) -> Expr {
    Expr::Binary { op, left: Box::new(l), right: Box::new(r) }
}

#[allow(dead_code)]
fn item(expr: Expr) -> ResultColumn {
    ResultColumn::Expr { expr, alias: None }
}

#[allow(dead_code)]
fn named(expr: Expr, alias: &str) -> ResultColumn {
    ResultColumn::Expr { expr, alias: Some(name(alias)) }
}

#[allow(dead_code)]
fn query(columns: Vec<ResultColumn>, from: Vec<TableOrJoin>) -> SelectStmt {
    SelectStmt {
        distinct: false,
        columns,
        from,
        where_clause: None,
        group_by: vec![],
        having: None,
        compound: vec![],
        order_by: vec![],
        limit: None,
        offset: None,
        with_clause: None,
        window_clause: vec![],
        values: vec![],
    }
}

#[allow(dead_code)]
fn reads(n: &str) -> Vec<TableOrJoin> {
    vec![TableOrJoin::Table(TableRef { schema: None, name: name(n), alias: None })]
}

#[allow(dead_code)]
fn column(n: &str) -> Column {
    Column {
        name: name(n),
        affinity: Affinity::Blob,
        collation: Collation::Binary,
        notnull: false,
        pk: false,
        default: None,
    }
}

#[allow(dead_code)]
fn table(n: &str, rootpage: u32, columns: Vec<Column>) -> Table {
    Table {
        name: name(n),
        rootpage,
        columns,
        rowid_alias: None,
        without_rowid: false,
        pk_columns: vec![],
    }
}

#[allow(dead_code)]
fn index(n: &str, rootpage: u32, columns: &[&str]) -> IndexObject {
    IndexObject {
        name: name(n),
        rootpage,
        columns: columns
            .iter()
            .map(|c| IndexColumn {
                name: name(c),
                desc: false,
                collation: Collation::Binary,
                expr: None,
            })
            .collect(),
        unique: false,
        where_clause: None,
    }
}

#[allow(dead_code)]
fn listing(p: &Program) -> Vec<String> {
    p.instructions
        .iter()
        .enumerate()
        .map(|(at, i)| {
            let p4 = match &i.p4 {
                P4::Unused => String::from("None"),
                other => format!("{:?}", other),
            };
            format!("{} {:?} {} {} {} {} {}", at, i.opcode, i.p1, i.p2, i.p3, p4, i.p5)
        })
        .collect()
}

#[allow(dead_code)]
fn opcodes(p: &Program) -> Vec<String> {
    p.instructions.iter().map(|i| format!("{:?}", i.opcode)).collect()
}

#[test]
fn labels_become_addresses() {
    let mut b = ProgramBuilder::new();
    let end = b.new_label();
    assert_eq!(b.label_addr_of(end), None);
    let i = b.emit_jump(Opcode::Goto, 0, end, 7);
    assert_eq!(i, 0);
    b.emit(Opcode::Halt, 0, 0, 0);
    b.resolve(end);
    assert_eq!(b.label_addr_of(end), Some(2));
    b.emit(Opcode::Halt, 1, 0, 0);
    let p = b.finish();
    assert_eq!(
        listing(&p),
        vec!["0 Goto 0 2 7 None 0", "1 Halt 0 0 0 None 0", "2 Halt 1 0 0 None 0"]
    );
}

#[test]
fn three_way_jumps_fill_all_operands() {
    let mut b = ProgramBuilder::new();
    let (less, same, more) = (b.new_label(), b.new_label(), b.new_label());
    b.emit_jump3(Opcode::Jump, less, same, more);
    b.resolve(less);
    b.emit(Opcode::Halt, 0, 0, 0);
    b.resolve(same);
    b.emit(Opcode::Halt, 0, 0, 0);
    b.resolve(more);
    b.emit(Opcode::Halt, 0, 0, 0);
    assert_eq!(listing(&b.finish())[0], "0 Jump 1 2 3 None 0");
}

#[test]
fn registers_and_cursors_are_counted() {
    let mut b = ProgramBuilder::new();
    assert_eq!(b.alloc_reg(), 1);
    assert_eq!(b.alloc_regs(3), 2);
    assert_eq!(b.alloc_regs(0), 5);
    assert_eq!(b.next_reg(), 5);
    b.advance_regs(9);
    assert_eq!(b.next_reg(), 9);
    b.advance_regs(4);
    assert_eq!(b.next_reg(), 9);
    b.note_cursor(2);
    b.note_cursor(0);
    assert_eq!(b.next_cursor(), 3);
    let p = b.finish();
    assert_eq!(p.num_registers, 9);
    assert_eq!(p.num_cursors, 3);
}

#[test]
fn requests_for_registers_do_not_overlap() {
    let mut b = ProgramBuilder::new();
    let mut free = 1;
    let start = b.new_label();
    b.resolve(start);
    for n in [2, 0, 1, 5, -3, 4] {
        let i = b.emit(Opcode::Goto, 0, 0, 0);
        b.add_fixup(i, start);
        b.note_cursor(n);
        let first = b.alloc_regs(n);
        assert_eq!(first, free);
        free = first + n.max(0);
    }
    assert_eq!(b.next_reg(), 13);
}

#[test]
fn operands_can_be_set_later() {
    let mut b = ProgramBuilder::default();
    let i = b.emit(Opcode::String8, 0, 1, 0);
    b.set_p4(i, P4::Text(name("x")));
    b.set_p5(i, 3);
    assert_eq!(listing(&b.finish())[0], "0 String8 0 1 0 Text(\"x\") 3");
}

fn moved(i: &Instruction, regs: i32, cursors: i32) -> Instruction {
    let mut x = i.clone();
    rebase_operands(&mut x, regs, cursors);
    x
}

#[test]
fn moving_adds_up_and_leaves_targets() {
    let le = Instruction::new(Opcode::Le, 2, 9, 1);
    let same = moved(&le, 0, 0);
    assert_eq!((same.p1, same.p2, same.p3), (2, 9, 1));
    let once = moved(&le, 10, 4);
    assert_eq!((once.p1, once.p2, once.p3), (12, 9, 11));
    assert!(is_absolute_jump(&once));
    let twice = moved(&moved(&le, 3, 1), 7, 3);
    assert_eq!((twice.p1, twice.p2, twice.p3), (12, 9, 11));
    let column = moved(&Instruction::new(Opcode::Column, 0, 1, 4), 10, 4);
    assert_eq!((column.p1, column.p2, column.p3), (4, 1, 14));
    let mut stored = Instruction::new(Opcode::Eq, 1, 2, 3);
    stored.p5 = 0x20;
    assert!(!is_absolute_jump(&stored));
    let stored = moved(&stored, 10, 4);
    assert_eq!((stored.p1, stored.p2, stored.p3), (11, 12, 13));
}

#[test]
fn texts_compare_without_case() {
    assert!(eq_ignore_case("RowId", "rOWID"));
    assert!(!eq_ignore_case("\u{c9}", "\u{e9}"));
    assert!(!eq_ignore_case("a", "ab"));
    assert_eq!(decimal_i64(-120), "-120");
    assert_eq!(decimal_i64(0), "0");
    assert_eq!(decimal_u64(u64::MAX), "18446744073709551615");
}

#[test]
fn shared_aggregate_calls_are_found() {
    let sum = |n: &str| AggCall { name: name(n), args: FunctionArgs::List(vec![col("a")]) };
    let calls = vec![sum("count"), sum("sum")];
    assert_eq!(find_call(&calls, &sum("SUM")), Some(1));
    assert_eq!(find_call(&calls, &sum("total")), None);
}

#[test]
fn expressions_are_written_out() {
    assert_eq!(expr_to_text(&bin(BinaryOp::Add, col("a"), num(1))), "a + 1");
    assert_eq!(default_col_name(&qcol("t", "a")), "a");
}

#[test]
fn returning_expressions_have_a_text() {
    assert_eq!(returning_expr_to_text(&bin(BinaryOp::Eq, qcol("t", "a"), num(1))), "t.a = 1");
}
