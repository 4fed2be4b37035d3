//! Queries and their programs.
#[allow(unused_imports)]
use sqlgen::ast::{
    BinaryOp, CompoundOperator, Cte, Expr, FunctionArgs, Join, JoinConstraint, JoinOp, Literal,
    OrderingTerm, ResultColumn, SelectStmt, TableOrJoin, TableRef, UnaryOp, WithClause,
};
#[allow(unused_imports)]
use sqlgen::schema::{AggSig, Column, FuncSig, Functions, IndexColumn, IndexObject, Table};
#[allow(unused_imports)]
use sqlgen::vdbe::{
    Affinity, AggregateKind, Collation, Instruction, KeyField, Opcode, Program, Value, P4,
};
use sqlgen::compile_select;
use sqlgen::compound::{compile, compile_compound, Source};
use sqlgen::inline::is_absolute_jump;
use sqlgen::plan::explain_compound_rows;

#[allow(dead_code)]
fn name(s: &str) -> String {
    String::from(s)
}

#[allow(dead_code)]
fn col(n: &str) -> Expr {
    Expr::Column { schema: None, table: None, name: name(n) }
}

#[allow(dead_code)]
fn qcol(t: &str, n: &str) -> Expr {
    Expr::Column { schema: None, table: Some(name(t)), name: name(n) }
}

#[allow(dead_code)]
fn num(n: i64) -> Expr {
    Expr::Literal(Literal::Integer(n))
}

#[allow(dead_code)]
fn text(s: &str) -> Expr {
    Expr::Literal(Literal::Text(name(s)))
}

#[allow(dead_code)]
fn bin(op: BinaryOp, l: Expr, r: Expr) -> Expr {
    Expr::Binary { op, left: Box::new(l), right: Box::new(r) }
}

#[allow(dead_code)]
fn item(expr: Expr) -> ResultColumn {
    ResultColumn::Expr { expr, alias: None }
}

#[allow(dead_code)]
fn named(expr: Expr, alias: &str) -> ResultColumn {
    ResultColumn::Expr { expr, alias: Some(name(alias)) }
}

#[allow(dead_code)]
fn query(columns: Vec<ResultColumn>, from: Vec<TableOrJoin>) -> SelectStmt {
    SelectStmt {
        distinct: false,
        columns,
        from,
        where_clause: None,
        group_by: vec![],
        having: None,
        compound: vec![],
        order_by: vec![],
        limit: None,
        offset: None,
        with_clause: None,
        window_clause: vec![],
        values: vec![],
    }
}

#[allow(dead_code)]
fn reads(n: &str) -> Vec<TableOrJoin> {
    vec![TableOrJoin::Table(TableRef { schema: None, name: name(n), alias: None })]
}

#[allow(dead_code)]
fn column(n: &str) -> Column {
    Column {
        name: name(n),
        affinity: Affinity::Blob,
        collation: Collation::Binary,
        notnull: false,
        pk: false,
        default: None,
    }
}

#[allow(dead_code)]
fn table(n: &str, rootpage: u32, columns: Vec<Column>) -> Table {
    Table {
        name: name(n),
        rootpage,
        columns,
        rowid_alias: None,
        without_rowid: false,
        pk_columns: vec![],
    }
}

#[allow(dead_code)]
fn index(n: &str, rootpage: u32, columns: &[&str]) -> IndexObject {
    IndexObject {
        name: name(n),
        rootpage,
        columns: columns
            .iter()
            .map(|c| IndexColumn {
                name: name(c),
                desc: false,
                collation: Collation::Binary,
                expr: None,
            })
            .collect(),
        unique: false,
        where_clause: None,
    }
}

#[allow(dead_code)]
fn listing(p: &Program) -> Vec<String> {
    p.instructions
        .iter()
        .enumerate()
        .map(|(at, i)| {
            let p4 = match &i.p4 {
                P4::Unused => String::from("None"),
                other => format!("{:?}", other),
            };
            format!("{} {:?} {} {} {} {} {}", at, i.opcode, i.p1, i.p2, i.p3, p4, i.p5)
        })
        .collect()
}

#[allow(dead_code)]
fn opcodes(p: &Program) -> Vec<String> {
    p.instructions.iter().map(|i| format!("{:?}", i.opcode)).collect()
}

fn compile_sql(table: &Table, s: &SelectStmt) -> (Program, Vec<String>) {
    compile(s, Some(table), &[], &[], &Functions::none()).unwrap()
}

#[test]
fn golden_select_a_b_where_a_gt_1() {
    let t = table("t", 2, vec![column("a"), column("b")]);
    let mut s = query(vec![item(col("a")), item(col("b"))], reads("t"));
    s.where_clause = Some(bin(BinaryOp::Gt, col("a"), num(1)));
    let (prog, names) = compile_sql(&t, &s);
    assert_eq!(names, vec!["a".to_string(), "b".to_string()]);
    let expected = vec![
        "0 Init 0 11 0 None 0",
        "1 OpenRead 0 2 0 Int(2) 0",
        "2 Rewind 0 10 0 None 0",
        "3 Column 0 0 1 None 0",
        "4 Integer 1 2 0 None 0",
        "5 Le 2 9 1 None 17",
        "6 Column 0 0 3 None 0",
        "7 Column 0 1 4 None 0",
        "8 ResultRow 3 2 0 None 0",
        "9 Next 0 3 0 None 0",
        "10 Halt 0 0 0 None 0",
        "11 Transaction 0 0 0 None 0",
        "12 Goto 0 1 0 None 0",
    ];
    assert_eq!(listing(&prog), expected);
}

fn term(expr: Expr, desc: bool) -> OrderingTerm {
    OrderingTerm { expr, desc, nulls: None }
}

fn functions() -> Functions {
    Functions {
        scalars: vec![FuncSig { name: name("abs"), n_args: Some(1) }],
        aggregates: vec![
            AggSig { name: name("count"), n_args: 0, window_only: false, kind: AggregateKind(1) },
            AggSig { name: name("sum"), n_args: 1, window_only: false, kind: AggregateKind(2) },
        ],
    }
}

fn call(n: &str, args: Vec<Expr>) -> Expr {
    Expr::Function {
        name: name(n),
        distinct: false,
        args: FunctionArgs::List(args),
        filter: None,
        over: None,
    }
}

fn ab() -> Table {
    table("t", 2, vec![column("a"), column("b")])
}

fn refusal(s: &SelectStmt) -> String {
    compile(s, Some(&ab()), &[], &[], &functions()).unwrap_err().message()
}

#[test]
fn constant_row_needs_no_transaction() {
    let s = query(vec![item(num(1)), item(text("x"))], vec![]);
    let (p, names) = compile_select(&s, None, &[], &[], &Functions::none()).unwrap();
    assert_eq!(names, vec!["1", "'x'"]);
    assert_eq!(
        listing(&p),
        vec![
            "0 Init 0 5 0 None 0",
            "1 Integer 1 1 0 None 0",
            "2 String8 0 2 0 Text(\"x\") 0",
            "3 ResultRow 1 2 0 None 0",
            "4 Halt 0 0 0 None 0",
            "5 Goto 0 1 0 None 0",
        ]
    );
    assert_eq!(p.num_registers, 3);
}

#[test]
fn values_rows_come_one_by_one() {
    let mut s = query(vec![], vec![]);
    s.values = vec![vec![num(1), num(2)], vec![num(3), num(4)]];
    let (p, names) = compile_select(&s, None, &[], &[], &Functions::none()).unwrap();
    assert_eq!(names, vec!["column1", "column2"]);
    assert_eq!(
        listing(&p),
        vec![
            "0 Init 0 8 0 None 0",
            "1 Integer 1 1 0 None 0",
            "2 Integer 2 2 0 None 0",
            "3 ResultRow 1 2 0 None 0",
            "4 Integer 3 3 0 None 0",
            "5 Integer 4 4 0 None 0",
            "6 ResultRow 3 2 0 None 0",
            "7 Halt 0 0 0 None 0",
            "8 Goto 0 1 0 None 0",
        ]
    );
}

#[test]
fn order_limit_and_offset_use_a_sorter() {
    let mut s = query(vec![ResultColumn::Star], reads("t"));
    s.order_by = vec![term(col("b"), true)];
    s.limit = Some(num(3));
    s.offset = Some(num(1));
    let (p, _) = compile_sql(&ab(), &s);
    assert_eq!(
        listing(&p),
        vec![
            "0 Init 0 21 0 None 0",
            "1 Integer 3 1 0 None 0",
            "2 Integer 1 2 0 None 0",
            "3 OpenRead 0 2 0 Int(2) 0",
            "4 SorterOpen 1 3 0 KeyInfo([KeyField { desc: true, collation: Binary }]) 0",
            "5 Rewind 0 12 0 None 0",
            "6 Column 0 1 3 None 0",
            "7 Column 0 0 4 None 0",
            "8 Column 0 1 5 None 0",
            "9 MakeRecord 3 3 6 None 0",
            "10 SorterInsert 1 6 0 None 0",
            "11 Next 0 6 0 None 0",
            "12 SorterSort 1 20 0 None 0",
            "13 SorterData 1 0 0 None 0",
            "14 IfPos 2 19 1 None 0",
            "15 Column 1 1 7 None 0",
            "16 Column 1 2 8 None 0",
            "17 ResultRow 7 2 0 None 0",
            "18 DecrJumpZero 1 20 0 None 0",
            "19 SorterNext 1 13 0 None 0",
            "20 Halt 0 0 0 None 0",
            "21 Transaction 0 0 0 None 0",
            "22 Goto 0 1 0 None 0",
        ]
    );
}

#[test]
fn limit_zero_puts_out_nothing() {
    let mut s = query(vec![item(col("a"))], reads("t"));
    s.limit = Some(num(0));
    let (p, _) = compile_sql(&ab(), &s);
    assert_eq!(opcodes(&p), vec!["Init", "Halt", "Transaction", "Goto"]);
}

#[test]
fn distinct_rows_are_remembered() {
    let mut s = query(vec![item(col("a"))], reads("t"));
    s.distinct = true;
    let (p, _) = compile_sql(&ab(), &s);
    let l = listing(&p);
    assert_eq!(l[2], "2 OpenEphemeral 2 1 0 KeyInfo([]) 0");
    assert_eq!(l[5], "5 Found 2 9 1 Int(1) 0");
    assert_eq!(p.num_cursors, 3);
}

#[test]
fn equality_on_an_indexed_column_seeks() {
    let mut s = query(vec![item(col("b"))], reads("t"));
    s.where_clause = Some(bin(BinaryOp::Eq, col("a"), num(7)));
    let ix = [index("i", 5, &["a"])];
    let (p, _) = compile(&s, Some(&ab()), &ix, &[], &Functions::none()).unwrap();
    assert_eq!(
        listing(&p),
        vec![
            "0 Init 0 15 0 None 0",
            "1 OpenRead 1 2 0 Int(2) 0",
            "2 OpenRead 0 5 0 KeyInfo([KeyField { desc: false, collation: Binary }]) 0",
            "3 Integer 7 1 0 None 0",
            "4 SeekGE 0 14 1 Int(1) 0",
            "5 IdxGT 0 14 1 Int(1) 0",
            "6 IdxRowid 0 2 0 None 0",
            "7 NotExists 1 13 2 None 0",
            "8 Column 1 0 3 None 0",
            "9 Integer 7 4 0 None 0",
            "10 Ne 4 13 3 None 17",
            "11 Column 1 1 5 None 0",
            "12 ResultRow 5 1 0 None 0",
            "13 Next 0 5 0 None 0",
            "14 Halt 0 0 0 None 0",
            "15 Transaction 0 0 0 None 0",
            "16 Goto 0 1 0 None 0",
        ]
    );
}

#[test]
fn covering_index_leaves_the_table_closed() {
    let mut s = query(vec![item(col("b"))], reads("t"));
    s.where_clause = Some(bin(BinaryOp::Eq, col("a"), num(7)));
    let ix = [index("i", 5, &["a", "b"])];
    let (p, _) = compile(&s, Some(&ab()), &ix, &[], &Functions::none()).unwrap();
    let names = opcodes(&p);
    assert_eq!(names.iter().filter(|n| n.as_str() == "OpenRead").count(), 1);
    assert!(!names.contains(&name("IdxRowid")));
    assert_eq!(listing(&p)[8], "8 Column 0 1 4 None 0");
}

#[test]
fn aggregates_step_and_finish() {
    let s = query(vec![item(call("sum", vec![col("a")])), item(call("count", vec![]))], reads("t"));
    let (p, _) = compile(&s, Some(&ab()), &[], &[], &functions()).unwrap();
    let names = opcodes(&p);
    assert_eq!(names.iter().filter(|n| n.as_str() == "AggStep").count(), 2);
    assert_eq!(names.iter().filter(|n| n.as_str() == "AggFinal").count(), 2);
    assert_eq!(names.iter().filter(|n| n.as_str() == "ResultRow").count(), 1);
}

#[test]
fn groups_are_sorted_first() {
    let mut s = query(vec![item(col("a")), item(call("sum", vec![col("b")]))], reads("t"));
    s.group_by = vec![col("a")];
    let (p, names) = compile(&s, Some(&ab()), &[], &[], &functions()).unwrap();
    assert_eq!(names, vec!["a", "sum(b)"]);
    let l = listing(&p);
    assert_eq!(l[2], "2 SorterOpen 1 2 0 KeyInfo([KeyField { desc: false, collation: Binary }]) 0");
    assert_eq!(l[16], "16 Jump 17 20 17 None 0");
    assert_eq!(l[21], "21 AggStep 0 10 1 FuncDef(AggregateKind(2)) 1");
}

#[test]
fn every_jump_lands_inside_the_program() {
    let mut s = query(vec![item(col("a")), item(call("sum", vec![col("b")]))], reads("t"));
    s.group_by = vec![col("a")];
    let (p, _) = compile(&s, Some(&ab()), &[], &[], &functions()).unwrap();
    let n = p.instructions.len() as i32;
    for i in &p.instructions {
        if is_absolute_jump(i) {
            assert!(0 <= i.p2 && i.p2 < n);
        }
    }
    let last = &p.instructions[p.instructions.len() - 1];
    assert_eq!(last.opcode, Opcode::Goto);
    assert_eq!(last.p2, 1);
}

#[test]
fn unsupported_expressions_are_refused() {
    let case = |e: Expr| refusal(&query(vec![item(e)], reads("t")));
    assert_eq!(
        case(Expr::BindParam(name("?"))),
        "bind parameters are not supported in M3a"
    );
    assert_eq!(
        case(Expr::In { expr: Box::new(col("a")), values: vec![num(1)], negated: false }),
        "IN is not supported by the executor yet"
    );
    assert_eq!(
        case(Expr::Exists(Box::new(query(vec![item(num(1))], vec![])))),
        "subqueries are not supported by the executor yet"
    );
    assert_eq!(
        case(Expr::Cast { expr: Box::new(col("a")), ty: name("INT") }),
        "CAST is not supported by the executor yet"
    );
    assert_eq!(
        case(Expr::Case { base: None, when_then: vec![], else_expr: None }),
        "CASE is not supported by the executor yet"
    );
    assert_eq!(
        case(Expr::Row(vec![num(1)])),
        "row-value expressions are not supported by the executor yet"
    );
    assert_eq!(
        case(bin(BinaryOp::Regexp, col("a"), text("x"))),
        "REGEXP / MATCH operators are not supported by the executor yet"
    );
    assert_eq!(case(col("zz")), "no such column: zz");
    assert_eq!(case(call("nosuch", vec![])), "no such function: nosuch");
    assert_eq!(case(call("abs", vec![])), "wrong number of arguments to function abs()");
}

#[test]
fn unsupported_clauses_are_refused() {
    let mut s = query(vec![item(col("a"))], reads("t"));
    s.distinct = true;
    s.order_by = vec![term(col("a"), false)];
    assert_eq!(refusal(&s), "DISTINCT with ORDER BY is not supported yet (M6.8)");
    let mut s = query(vec![item(col("a"))], reads("t"));
    s.having = Some(num(1));
    assert_eq!(refusal(&s), "HAVING clause on a non-aggregate query");
    let mut s = query(vec![item(col("a"))], reads("t"));
    s.limit = Some(col("a"));
    assert_eq!(refusal(&s), "only integer-literal LIMIT is supported in M3a");
    let mut s = query(vec![item(col("a"))], reads("t"));
    s.limit = Some(num(1));
    s.offset = Some(text("x"));
    assert_eq!(refusal(&s), "only integer-literal OFFSET is supported in M3a");
    let mut s = query(vec![item(col("a"))], reads("t"));
    s.order_by = vec![term(num(2), false)];
    assert_eq!(
        refusal(&s),
        "ORDER BY term out of range - should be between 1 and 1"
    );
    assert_eq!(refusal(&query(vec![], reads("t"))), "no result columns");
}

fn constant_source() -> Result<Source, sqlgen::text::Error> {
    Ok(Source { table: None, indexes: vec![], arms: vec![] })
}

#[test]
fn union_all_runs_one_arm_after_the_other() {
    let mut s = query(vec![item(num(1))], vec![]);
    s.compound = vec![(CompoundOperator::UnionAll, query(vec![item(num(2))], vec![]))];
    let (p, _) = compile(&s, None, &[], &[constant_source()], &Functions::none()).unwrap();
    assert_eq!(
        listing(&p),
        vec![
            "0 Init 0 7 0 None 0",
            "1 Integer 1 1 0 None 0",
            "2 ResultRow 1 1 0 None 0",
            "3 Goto 0 4 0 None 0",
            "4 Integer 2 3 0 None 0",
            "5 ResultRow 3 1 0 None 0",
            "6 Halt 0 0 0 None 0",
            "7 Transaction 0 0 0 None 0",
            "8 Goto 0 1 0 None 0",
        ]
    );
}

#[test]
fn union_merges_two_coroutines() {
    let mut s = query(vec![item(num(1))], vec![]);
    s.compound = vec![(CompoundOperator::Union, query(vec![item(num(2))], vec![]))];
    let (p, _) = compile(&s, None, &[], &[constant_source()], &Functions::none()).unwrap();
    let l = listing(&p);
    assert_eq!(l[6], "6 EndCoroutine 1 0 0 None 0");
    assert_eq!(l[7], "7 InitCoroutine 2 42 8 None 0");
    assert_eq!(l[45], "45 Jump 34 37 39 None 0");
    assert_eq!(l[48], "48 Goto 0 1 0 None 0");
}

#[test]
fn arms_must_have_as_many_columns() {
    let mut s = query(vec![item(num(1))], vec![]);
    let other = query(vec![item(num(2)), item(num(3))], vec![]);
    s.compound = vec![(CompoundOperator::Except, other)];
    let e = compile(&s, None, &[], &[constant_source()], &Functions::none()).unwrap_err();
    assert_eq!(
        e.message(),
        "SELECTs to the left and right of EXCEPT do not have the same number of result columns"
    );
    let e = compile_compound(
        &query(vec![item(num(1))], vec![]),
        None,
        &[],
        &[],
        &Functions::none(),
    )
    .unwrap_err();
    assert_eq!(e.message(), "compile_compound called on a non-compound SELECT");
}

#[test]
fn plan_rows_of_a_compound() {
    let mut s = query(vec![item(num(1))], vec![]);
    s.compound = vec![(CompoundOperator::UnionAll, query(vec![item(num(2))], reads("u")))];
    let rows = explain_compound_rows(&s, Some("t"));
    let details: Vec<String> = rows
        .iter()
        .map(|r| match &r[3] {
            Value::Text(s) => s.clone(),
            other => format!("{:?}", other),
        })
        .collect();
    assert_eq!(details[0], "COMPOUND QUERY");
    assert!(details.contains(&name("SCAN t")));
    assert!(details.contains(&name("UNION ALL")));
    assert!(details.contains(&name("SCAN u")));
}

#[test]
fn collate_clause_goes_before_the_column() {
    let mut a = column("a");
    a.collation = Collation::NoCase;
    let t = table("t", 2, vec![a, column("b")]);
    let collate = |e: Expr, c: &str| Expr::Collate { expr: Box::new(e), collation: name(c) };
    let p4 = |l: Expr, r: Expr| {
        let mut s = query(vec![item(col("b"))], reads("t"));
        s.where_clause = Some(bin(BinaryOp::Eq, l, r));
        let (p, _) = compile_sql(&t, &s);
        let at = opcodes(&p).iter().position(|n| n == "Ne").unwrap();
        format!("{:?}", p.instructions[at].p4)
    };
    assert_eq!(p4(col("a"), text("x")), "Symbol(\"NOCASE\")");
    assert_eq!(p4(text("x"), col("a")), "Symbol(\"NOCASE\")");
    assert_eq!(p4(col("a"), collate(text("x"), "rtrim")), "Symbol(\"RTRIM\")");
    assert_eq!(p4(collate(col("a"), "binary"), text("x")), "Unused");
    assert_eq!(p4(col("b"), text("x")), "Unused");
}

#[test]
fn aggregates_are_found_below_other_operators() {
    let t = ab();
    let between = Expr::Between {
        expr: Box::new(call("sum", vec![col("a")])),
        low: Box::new(num(1)),
        high: Box::new(num(2)),
        negated: false,
    };
    let s = query(vec![item(between)], reads("t"));
    let (p, _) = compile(&s, Some(&t), &[], &[], &functions()).unwrap();
    let names = opcodes(&p);
    assert_eq!(names.iter().filter(|n| n.as_str() == "AggFinal").count(), 1);
    assert!(!names.iter().any(|n| n == "Function"));
}

#[test]
fn range_test_of_null_is_null() {
    let between = Expr::Between {
        expr: Box::new(col("a")),
        low: Box::new(num(1)),
        high: Box::new(num(2)),
        negated: true,
    };
    let s = query(vec![item(between)], reads("t"));
    let (p, _) = compile_sql(&ab(), &s);
    assert_eq!(
        listing(&p)[3..16],
        [
            "3 Column 0 0 2 None 0",
            "4 Integer 1 3 0 None 0",
            "5 Integer 2 4 0 None 0",
            "6 IsNull 2 15 0 None 0",
            "7 Lt 3 13 2 None 1",
            "8 Gt 4 13 2 None 1",
            "9 IsNull 3 15 0 None 0",
            "10 IsNull 4 15 0 None 0",
            "11 Integer 0 1 0 None 0",
            "12 Goto 0 16 0 None 0",
            "13 Integer 1 1 0 None 0",
            "14 Goto 0 16 0 None 0",
            "15 Null 0 1 0 None 0",
        ]
    );
}
