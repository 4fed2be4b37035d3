//! Common table expressions and subqueries.
#[allow(unused_imports)]
use sqlgen::ast::{
    BinaryOp, CompoundOperator, Cte, Expr, FunctionArgs, Join, JoinConstraint, JoinOp, Literal,
    OrderingTerm, ResultColumn, SelectStmt, TableOrJoin, TableRef, UnaryOp, WithClause,
};
#[allow(unused_imports)]
use sqlgen::schema::{AggSig, Column, FuncSig, Functions, IndexColumn, IndexObject, Table};
#[allow(unused_imports)]
use sqlgen::vdbe::{
    Affinity, AggregateKind, Collation, Instruction, KeyField, Opcode, Program, Value, P4,
};
use sqlgen::cte::{has_ctes, is_recursive, is_recursive_cte_body, rewrite_with_ctes};
use sqlgen::flatten::try_flatten_subquery;
use sqlgen::recursive::{compile_recursive, setup_source};

#[allow(dead_code)]
fn name(s: &str) -> String {
    String::from(s)
}

#[allow(dead_code)]
fn col(n: &str) -> Expr {
    Expr::Column { schema: None, table: None, name: name(n) }
}

#[allow(dead_code)]
fn qcol(t: &str, n: &str) -> Expr {
    Expr::Column { schema: None, table: Some(name(t)), name: name(n) }
}

#[allow(dead_code)]
fn num(n: i64) -> Expr {
    Expr::Literal(Literal::Integer(n))
}

#[allow(dead_code)]
fn text(s: &str) -> Expr {
    Expr::Literal(Literal::Text(name(s)))
}

#[allow(dead_code)]
fn bin(op: BinaryOp, l: Expr, r: Expr) -> Expr {
    Expr::Binary { op, left: Box::new(l), right: Box::new(r) }
}

#[allow(dead_code)]
fn item(expr: Expr) -> ResultColumn {
    ResultColumn::Expr { expr, alias: None }
}

#[allow(dead_code)]
fn named(expr: Expr, alias: &str) -> ResultColumn {
    ResultColumn::Expr { expr, alias: Some(name(alias)) }
}

#[allow(dead_code)]
fn query(columns: Vec<ResultColumn>, from: Vec<TableOrJoin>) -> SelectStmt {
    SelectStmt {
        distinct: false,
        columns,
        from,
        where_clause: None,
        group_by: vec![],
        having: None,
        compound: vec![],
        order_by: vec![],
        limit: None,
        offset: None,
        with_clause: None,
        window_clause: vec![],
        values: vec![],
    }
}

#[allow(dead_code)]
fn reads(n: &str) -> Vec<TableOrJoin> {
    vec![TableOrJoin::Table(TableRef { schema: None, name: name(n), alias: None })]
}

#[allow(dead_code)]
fn column(n: &str) -> Column {
    Column {
        name: name(n),
        affinity: Affinity::Blob,
        collation: Collation::Binary,
        notnull: false,
        pk: false,
        default: None,
    }
}

#[allow(dead_code)]
fn table(n: &str, rootpage: u32, columns: Vec<Column>) -> Table {
    Table {
        name: name(n),
        rootpage,
        columns,
        rowid_alias: None,
        without_rowid: false,
        pk_columns: vec![],
    }
}

#[allow(dead_code)]
fn index(n: &str, rootpage: u32, columns: &[&str]) -> IndexObject {
    IndexObject {
        name: name(n),
        rootpage,
        columns: columns
            .iter()
            .map(|c| IndexColumn {
                name: name(c),
                desc: false,
                collation: Collation::Binary,
                expr: None,
            })
            .collect(),
        unique: false,
        where_clause: None,
    }
}

#[allow(dead_code)]
fn listing(p: &Program) -> Vec<String> {
    p.instructions
        .iter()
        .enumerate()
        .map(|(at, i)| {
            let p4 = match &i.p4 {
                P4::Unused => String::from("None"),
                other => format!("{:?}", other),
            };
            format!("{} {:?} {} {} {} {} {}", at, i.opcode, i.p1, i.p2, i.p3, p4, i.p5)
        })
        .collect()
}

#[allow(dead_code)]
fn opcodes(p: &Program) -> Vec<String> {
    p.instructions.iter().map(|i| format!("{:?}", i.opcode)).collect()
}

fn with(recursive: bool, ctes: Vec<Cte>, mut s: SelectStmt) -> SelectStmt {
    s.with_clause = Some(WithClause { recursive, ctes });
    s
}

fn cte(n: &str, columns: &[&str], query: SelectStmt) -> Cte {
    Cte { name: name(n), columns: columns.iter().map(|c| name(c)).collect(), query }
}

#[test]
fn non_recursive_cte_rewrites_from_table_to_subquery() {
    let s = with(
        false,
        vec![cte("x", &[], query(vec![named(num(1), "a")], vec![]))],
        query(vec![ResultColumn::Star], reads("x")),
    );
    let r = rewrite_with_ctes(&s).expect("rewrite");
    assert!(r.with_clause.is_none());
    assert_eq!(r.from.len(), 1);
    match &r.from[0] {
        TableOrJoin::Subquery { alias, .. } => assert_eq!(alias, "x"),
        other => panic!("expected Subquery, got {other:?}"),
    }
}

#[test]
fn cte_reference_keeps_user_alias() {
    let from = vec![TableOrJoin::Table(TableRef {
        schema: None,
        name: name("x"),
        alias: Some(name("y")),
    })];
    let s = with(
        false,
        vec![cte("x", &[], query(vec![named(num(1), "a")], vec![]))],
        query(vec![ResultColumn::Star], from),
    );
    let r = rewrite_with_ctes(&s).expect("rewrite");
    match &r.from[0] {
        TableOrJoin::Subquery { alias, .. } => assert_eq!(alias, "y"),
        other => panic!("expected Subquery, got {other:?}"),
    }
}

#[test]
fn schema_qualified_name_is_not_a_cte() {
    let from = vec![TableOrJoin::Table(TableRef {
        schema: Some(name("main")),
        name: name("x"),
        alias: None,
    })];
    let s = with(
        false,
        vec![cte("x", &[], query(vec![named(num(1), "a")], vec![]))],
        query(vec![ResultColumn::Star], from),
    );
    let r = rewrite_with_ctes(&s).expect("rewrite");
    assert!(matches!(r.from[0], TableOrJoin::Table(_)));
}

#[test]
fn multiple_ctes_later_references_earlier() {
    let s = with(
        false,
        vec![
            cte("a", &[], query(vec![named(num(1), "x")], vec![])),
            cte("b", &[], query(vec![item(col("x"))], reads("a"))),
        ],
        query(vec![ResultColumn::Star], reads("b")),
    );
    let r = rewrite_with_ctes(&s).expect("rewrite");
    let b_body = match &r.from[0] {
        TableOrJoin::Subquery { query, .. } => query.as_ref().clone(),
        other => panic!("expected Subquery, got {other:?}"),
    };
    match &b_body.from[0] {
        TableOrJoin::Subquery { alias, .. } => assert_eq!(alias, "a"),
        other => panic!("expected nested Subquery, got {other:?}"),
    }
}

#[test]
fn explicit_column_list_wraps_projection() {
    let s = with(
        false,
        vec![cte("x", &["p", "q"], query(vec![item(num(1)), item(num(2))], vec![]))],
        query(vec![item(col("p")), item(col("q"))], reads("x")),
    );
    let r = rewrite_with_ctes(&s).expect("rewrite");
    let body = match &r.from[0] {
        TableOrJoin::Subquery { query, .. } => query.as_ref().clone(),
        other => panic!("expected Subquery, got {other:?}"),
    };
    assert_eq!(body.columns.len(), 2);
    match &body.columns[0] {
        ResultColumn::Expr { alias, .. } => assert_eq!(alias.as_deref(), Some("p")),
        other => panic!("expected Expr, got {other:?}"),
    }
    match &body.columns[1] {
        ResultColumn::Expr { alias, .. } => assert_eq!(alias.as_deref(), Some("q")),
        other => panic!("expected Expr, got {other:?}"),
    }
}

/// `WITH RECURSIVE x(n) AS (SELECT 1 UNION ALL SELECT n+1 FROM x WHERE n<5) SELECT n FROM x`
fn counting() -> SelectStmt {
    let mut step = query(vec![item(bin(BinaryOp::Add, col("n"), num(1)))], reads("x"));
    step.where_clause = Some(bin(BinaryOp::Lt, col("n"), num(5)));
    let mut body = query(vec![item(num(1))], vec![]);
    body.compound = vec![(CompoundOperator::UnionAll, step)];
    with(true, vec![cte("x", &["n"], body)], query(vec![item(col("n"))], reads("x")))
}

#[test]
fn recursive_cte_errors() {
    let s = counting();
    let r = rewrite_with_ctes(&s);
    assert!(r.is_err());
}

#[test]
fn rewriting_leaves_no_clause_and_is_stable() {
    let s = with(
        false,
        vec![cte("x", &[], query(vec![named(num(1), "a")], vec![]))],
        query(vec![ResultColumn::Star], reads("x")),
    );
    assert!(has_ctes(&s));
    let once = rewrite_with_ctes(&s).unwrap();
    assert!(!has_ctes(&once));
    let twice = rewrite_with_ctes(&once).unwrap();
    assert_eq!(format!("{:?}", once), format!("{:?}", twice));
}

#[test]
fn recursion_is_noticed() {
    let s = counting();
    match &s.with_clause {
        Some(w) => {
            assert!(is_recursive(w));
            assert!(is_recursive_cte_body(&w.ctes[0].query, "X"));
            assert!(!is_recursive_cte_body(&w.ctes[0].query, "y"));
        }
        None => panic!("no WITH clause"),
    }
    assert_eq!(
        rewrite_with_ctes(&s).unwrap_err().message(),
        "recursive CTEs are not supported by this codegen path (M10.3 pending)"
    );
}

#[test]
fn recursive_program_drains_a_queue() {
    let c = compile_recursive(&counting(), None, &Functions::none()).unwrap();
    assert_eq!(c.column_names, vec!["n"]);
    let l = listing(&c.program);
    assert_eq!(l[1], "1 OpenEphemeral 10 1 0 None 0");
    assert_eq!(l[2], "2 OpenEphemeral 11 1 0 None 0");
    assert_eq!(l[3], "3 OpenPseudo 12 1 1 None 0");
    assert_eq!(l[9], "9 Rewind 11 28 0 None 0");
    assert_eq!(l[27], "27 Goto 0 9 0 None 0");
    assert_eq!(l[30], "30 ResultRow 17 1 0 None 0");
    assert_eq!(l[34], "34 Goto 0 1 0 None 0");
}

#[test]
fn malformed_recursion_is_refused() {
    let plain = query(vec![item(num(1))], vec![]);
    let e = compile_recursive(&plain, None, &Functions::none()).unwrap_err();
    assert_eq!(e.message(), "compile_recursive called without a WITH clause");
    let s = with(false, vec![], query(vec![item(num(1))], vec![]));
    let e = compile_recursive(&s, None, &Functions::none()).unwrap_err();
    assert_eq!(e.message(), "compile_recursive called without a recursive CTE");
    let mut s = counting();
    if let Some(w) = &mut s.with_clause {
        w.ctes[0].query.compound[0].0 = CompoundOperator::Except;
    }
    let e = compile_recursive(&s, None, &Functions::none()).unwrap_err();
    assert_eq!(
        e.message(),
        "recursive CTE body must use UNION or UNION ALL (INTERSECT/EXCEPT not supported)"
    );
}

#[test]
fn simple_subquery_is_merged() {
    let mut inner = query(vec![named(col("a"), "x"), item(col("b"))], reads("t"));
    inner.where_clause = Some(bin(BinaryOp::Gt, col("a"), num(1)));
    let from = vec![TableOrJoin::Subquery { query: Box::new(inner), alias: name("s") }];
    let mut outer = query(vec![item(col("x"))], from);
    outer.where_clause = Some(bin(BinaryOp::Lt, qcol("s", "b"), num(9)));
    let flat = try_flatten_subquery(&outer).unwrap().unwrap();
    assert!(matches!(&flat.from[0], TableOrJoin::Table(t) if t.name == "t"));
    match &flat.columns[0] {
        ResultColumn::Expr { expr, .. } => assert!(expr.same(&col("a"))),
        other => panic!("expected Expr, got {other:?}"),
    }
    let mut limited = query(vec![item(col("a"))], reads("t"));
    limited.limit = Some(num(1));
    let from = vec![TableOrJoin::Subquery { query: Box::new(limited), alias: name("s") }];
    let mut outer = query(vec![item(col("a"))], from);
    assert!(try_flatten_subquery(&outer).unwrap().is_some());
    outer.limit = Some(num(1));
    assert!(try_flatten_subquery(&outer).unwrap().is_none());
    assert!(try_flatten_subquery(&query(vec![item(num(1))], reads("t"))).unwrap().is_none());
}

#[test]
fn setup_query_names_its_table() {
    assert!(setup_source(&counting()).unwrap().is_none());
    let mut s = counting();
    if let Some(w) = &mut s.with_clause {
        w.ctes[0].query.from = reads("t");
    }
    assert_eq!(setup_source(&s).unwrap(), Some(name("t")));
    let plain = query(vec![item(num(1))], vec![]);
    assert_eq!(
        setup_source(&plain).unwrap_err().message(),
        "compile_recursive called without a WITH clause"
    );
}

#[test]
fn aggregating_subquery_is_not_merged() {
    let sum = Expr::Function {
        name: name("SUM"),
        distinct: false,
        args: FunctionArgs::List(vec![col("a")]),
        filter: None,
        over: None,
    };
    let inside = Expr::Function {
        name: name("abs"),
        distinct: false,
        args: FunctionArgs::List(vec![sum]),
        filter: None,
        over: None,
    };
    let sub = query(vec![named(inside, "x")], reads("t"));
    let from = vec![TableOrJoin::Subquery { query: Box::new(sub), alias: name("s") }];
    assert!(try_flatten_subquery(&query(vec![item(col("x"))], from)).unwrap().is_none());
}
