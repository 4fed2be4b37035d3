//! Name resolution.
#[allow(unused_imports)]
use sqlgen::ast::{
    BinaryOp, CompoundOperator, Cte, Expr, FunctionArgs, Join, JoinConstraint, JoinOp, Literal,
    OrderingTerm, ResultColumn, SelectStmt, TableOrJoin, TableRef, UnaryOp, WithClause,
};
#[allow(unused_imports)]
use sqlgen::schema::{AggSig, Column, FuncSig, Functions, IndexColumn, IndexObject, Table};
#[allow(unused_imports)]
use sqlgen::vdbe::{
    Affinity, AggregateKind, Collation, Instruction, KeyField, Opcode, Program, Value, P4,
};
use sqlgen::resolve::{resolve_select, LookupOutcome, NameContext, ResolveTable};
use sqlgen::scope::{lookup_outer, OuterScope, OuterTable};

#[allow(dead_code)]
fn name(s: &str) -> String {
    String::from(s)
}

#[allow(dead_code)]
fn col(n: &str) -> Expr {
    Expr::Column { schema: None, table: None, name: name(n) }
}

#[allow(dead_code)]
fn qcol(t: &str, n: &str) -> Expr {
    Expr::Column { schema: None, table: Some(name(t)), name: name(n) }
}

#[allow(dead_code)]
fn num(n: i64) -> Expr {
    Expr::Literal(Literal::Integer(n))
}

#[allow(dead_code)]
fn text(s: &str) -> Expr {
    Expr::Literal(Literal::Text(name(s)))
}

#[allow(dead_code)]
fn bin(op: BinaryOp, l: Expr, r: Expr) -> Expr {
    Expr::Binary { op, left: Box::new(l), right: Box::new(r) }
}

#[allow(dead_code)]
fn item(expr: Expr) -> ResultColumn {
    ResultColumn::Expr { expr, alias: None }
}

#[allow(dead_code)]
fn named(expr: Expr, alias: &str) -> ResultColumn {
    ResultColumn::Expr { expr, alias: Some(name(alias)) }
}

#[allow(dead_code)]
fn query(columns: Vec<ResultColumn>, from: Vec<TableOrJoin>) -> SelectStmt {
    SelectStmt {
        distinct: false,
        columns,
        from,
        where_clause: None,
        group_by: vec![],
        having: None,
        compound: vec![],
        order_by: vec![],
        limit: None,
        offset: None,
        with_clause: None,
        window_clause: vec![],
        values: vec![],
    }
}

#[allow(dead_code)]
fn reads(n: &str) -> Vec<TableOrJoin> {
    vec![TableOrJoin::Table(TableRef { schema: None, name: name(n), alias: None })]
}

#[allow(dead_code)]
fn column(n: &str) -> Column {
    Column {
        name: name(n),
        affinity: Affinity::Blob,
        collation: Collation::Binary,
        notnull: false,
        pk: false,
        default: None,
    }
}

#[allow(dead_code)]
fn table(n: &str, rootpage: u32, columns: Vec<Column>) -> Table {
    Table {
        name: name(n),
        rootpage,
        columns,
        rowid_alias: None,
        without_rowid: false,
        pk_columns: vec![],
    }
}

#[allow(dead_code)]
fn index(n: &str, rootpage: u32, columns: &[&str]) -> IndexObject {
    IndexObject {
        name: name(n),
        rootpage,
        columns: columns
            .iter()
            .map(|c| IndexColumn {
                name: name(c),
                desc: false,
                collation: Collation::Binary,
                expr: None,
            })
            .collect(),
        unique: false,
        where_clause: None,
    }
}

#[allow(dead_code)]
fn listing(p: &Program) -> Vec<String> {
    p.instructions
        .iter()
        .enumerate()
        .map(|(at, i)| {
            let p4 = match &i.p4 {
                P4::Unused => String::from("None"),
                other => format!("{:?}", other),
            };
            format!("{} {:?} {} {} {} {} {}", at, i.opcode, i.p1, i.p2, i.p3, p4, i.p5)
        })
        .collect()
}

#[allow(dead_code)]
fn opcodes(p: &Program) -> Vec<String> {
    p.instructions.iter().map(|i| format!("{:?}", i.opcode)).collect()
}

fn known<'a>(table: &'a Table, name: &'a str) -> ResolveTable<'a> {
    ResolveTable { table, name }
}

fn error(r: Result<(), sqlgen::text::Error>) -> String {
    r.unwrap_err().message()
}

#[test]
fn one_table_has_the_column() {
    let t = table("t", 2, vec![column("a"), column("b")]);
    let ts = [known(&t, "t")];
    let s = query(vec![item(col("A")), item(qcol("T", "b")), item(col("rowid"))], reads("t"));
    assert!(resolve_select(&s, &ts, None).is_ok());
}

#[test]
fn two_tables_make_a_bare_column_ambiguous() {
    let t = table("t", 2, vec![column("a")]);
    let u = table("u", 3, vec![column("a")]);
    let ts = [known(&t, "t"), known(&u, "u")];
    let s = query(vec![item(col("a"))], reads("t"));
    assert_eq!(error(resolve_select(&s, &ts, None)), "ambiguous column name: a");
    let s = query(vec![item(qcol("u", "a"))], reads("t"));
    assert!(resolve_select(&s, &ts, None).is_ok());
    let twice = [known(&t, "x"), known(&u, "x")];
    let s = query(vec![item(qcol("x", "a"))], reads("t"));
    assert_eq!(error(resolve_select(&s, &twice, None)), "ambiguous column name: x.a");
}

#[test]
fn unknown_columns_are_named_as_written() {
    let t = table("t", 2, vec![column("a")]);
    let ts = [known(&t, "t")];
    let s = query(vec![item(col("z"))], reads("t"));
    assert_eq!(error(resolve_select(&s, &ts, None)), "no such column: z");
    let s = query(vec![item(qcol("u", "a"))], reads("t"));
    assert_eq!(error(resolve_select(&s, &ts, None)), "no such column: u.a");
    let full = Expr::Column {
        schema: Some(name("main")),
        table: Some(name("t")),
        name: name("a"),
    };
    let s = query(vec![item(full)], reads("t"));
    assert_eq!(error(resolve_select(&s, &ts, None)), "no such column: main.t.a");
}

#[test]
fn outer_tables_are_tried_for_bare_columns_only() {
    let t = table("t", 2, vec![column("a")]);
    let u = table("u", 3, vec![column("a"), column("c")]);
    let v = table("v", 4, vec![column("c")]);
    let outer = [known(&u, "u")];
    let parent = NameContext { tables: &outer, parent: None };
    let own = [known(&t, "t")];
    let s = query(vec![item(col("a")), item(col("c"))], reads("t"));
    assert!(resolve_select(&s, &own, Some(&parent)).is_ok());
    let s = query(vec![item(qcol("u", "c"))], reads("t"));
    assert_eq!(error(resolve_select(&s, &own, Some(&parent))), "no such column: u.c");
    let both = [known(&u, "u"), known(&v, "v")];
    let parent = NameContext { tables: &both, parent: None };
    let s = query(vec![item(col("c"))], reads("t"));
    assert_eq!(error(resolve_select(&s, &own, Some(&parent))), "ambiguous column name: c");
}

#[test]
fn every_clause_is_looked_at_in_order() {
    let t = table("t", 2, vec![column("a")]);
    let ts = [known(&t, "t")];
    let mut s = query(vec![item(col("a"))], reads("t"));
    s.offset = Some(col("o"));
    assert_eq!(error(resolve_select(&s, &ts, None)), "no such column: o");
    s.order_by = vec![OrderingTerm { expr: col("n"), desc: false, nulls: None }];
    assert_eq!(error(resolve_select(&s, &ts, None)), "no such column: n");
    s.group_by = vec![col("g")];
    assert_eq!(error(resolve_select(&s, &ts, None)), "no such column: g");
    s.where_clause = Some(bin(BinaryOp::And, col("a"), col("w")));
    assert_eq!(error(resolve_select(&s, &ts, None)), "no such column: w");
}

#[test]
fn only_subqueries_without_tables_are_looked_into() {
    let t = table("t", 2, vec![column("a")]);
    let ts = [known(&t, "t")];
    let inner = query(vec![item(col("z"))], vec![]);
    let s = query(vec![item(Expr::Subquery(Box::new(inner)))], reads("t"));
    assert_eq!(error(resolve_select(&s, &ts, None)), "no such column: z");
    let inner = query(vec![item(col("z"))], reads("u"));
    let s = query(vec![item(Expr::Exists(Box::new(inner)))], reads("t"));
    assert!(resolve_select(&s, &ts, None).is_ok());
}

#[test]
fn lookup_tells_inner_from_outer() {
    let t = table("t", 2, vec![column("a")]);
    let u = table("u", 3, vec![column("c")]);
    let outer = [known(&u, "u")];
    let parent = NameContext { tables: &outer, parent: None };
    let own = [known(&t, "t")];
    let nc = NameContext { tables: &own, parent: Some(&parent) };
    assert_eq!(nc.lookup(None, None, "a"), LookupOutcome::Found);
    assert_eq!(nc.lookup(None, None, "c"), LookupOutcome::FoundOuter);
    assert_eq!(nc.lookup(None, None, "z"), LookupOutcome::NoSuchColumn);
    assert_eq!(nc.lookup(Some("main"), Some("t"), "a"), LookupOutcome::NoSuchColumn);
}

#[test]
fn first_of_the_outer_tables_has_the_column() {
    let t = table("t", 2, vec![column("a"), column("c")]);
    let u = table("u", 3, vec![column("b"), column("c")]);
    let far = [OuterTable { table: &u, cursor: 3, name: "far" }];
    let parent = OuterScope { tables: &far, parent: None };
    let tables = [
        OuterTable { table: &t, cursor: 1, name: "t" },
        OuterTable { table: &u, cursor: 2, name: "u" },
    ];
    let scope = OuterScope { tables: &tables, parent: Some(&parent) };
    let cursor = |q: Option<&str>, n: &str| lookup_outer(&scope, q, n).map(|(t, _)| t.cursor);
    assert_eq!(cursor(None, "c"), Some(1));
    assert_eq!(cursor(None, "b"), Some(2));
    assert_eq!(cursor(Some("U"), "c"), Some(2));
    assert_eq!(cursor(Some("far"), "b"), None);
    assert_eq!(cursor(None, "z"), None);
}
