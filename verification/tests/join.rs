//! Joins.
#[allow(unused_imports)]
use sqlgen::ast::{
    BinaryOp, CompoundOperator, Cte, Expr, FunctionArgs, Join, JoinConstraint, JoinOp, Literal,
    OrderingTerm, ResultColumn, SelectStmt, TableOrJoin, TableRef, UnaryOp, WithClause,
};
#[allow(unused_imports)]
use sqlgen::schema::{AggSig, Column, FuncSig, Functions, IndexColumn, IndexObject, Table};
#[allow(unused_imports)]
use sqlgen::vdbe::{
    Affinity, AggregateKind, Collation, Instruction, KeyField, Opcode, Program, Value, P4,
};
use sqlgen::join::{
    compile_cross_join, flatten_cross_join, is_full_join, is_left_join, is_right_join,
    swap_for_right_join, validate_join,
};
use sqlgen::join_using::{
    resolve_using_cols, rewrite_projection, rewrite_select_clauses, synthetic_on, using_cols_for,
};
use sqlgen::render::expr_to_text;

#[allow(dead_code)]
fn name(s: &str) -> String {
    String::from(s)
}

#[allow(dead_code)]
fn col(n: &str) -> Expr {
    Expr::Column { schema: None, table: None, name: name(n) }
}

#[allow(dead_code)]
fn qcol(t: &str, n: &str) -> Expr {
    Expr::Column { schema: None, table: Some(name(t)), name: name(n) }
}

#[allow(dead_code)]
fn num(n: i64) -> Expr {
    Expr::Literal(Literal::Integer(n))
}

#[allow(dead_code)]
fn text(s: &str) -> Expr {
    Expr::Literal(Literal::Text(name(s)))
}

#[allow(dead_code)]
fn bin(op: BinaryOp, l: Expr, r: Expr) -> Expr {
    Expr::Binary { op, left: Box::new(l), right: Box::new(r) }
}

#[allow(dead_code)]
fn item(expr: Expr) -> ResultColumn {
    ResultColumn::Expr { expr, alias: None }
}

#[allow(dead_code)]
fn named(expr: Expr, alias: &str) -> ResultColumn {
    ResultColumn::Expr { expr, alias: Some(name(alias)) }
}

#[allow(dead_code)]
fn query(columns: Vec<ResultColumn>, from: Vec<TableOrJoin>) -> SelectStmt {
    SelectStmt {
        distinct: false,
        columns,
        from,
        where_clause: None,
        group_by: vec![],
        having: None,
        compound: vec![],
        order_by: vec![],
        limit: None,
        offset: None,
        with_clause: None,
        window_clause: vec![],
        values: vec![],
    }
}

#[allow(dead_code)]
fn reads(n: &str) -> Vec<TableOrJoin> {
    vec![TableOrJoin::Table(TableRef { schema: None, name: name(n), alias: None })]
}

#[allow(dead_code)]
fn column(n: &str) -> Column {
    Column {
        name: name(n),
        affinity: Affinity::Blob,
        collation: Collation::Binary,
        notnull: false,
        pk: false,
        default: None,
    }
}

#[allow(dead_code)]
fn table(n: &str, rootpage: u32, columns: Vec<Column>) -> Table {
    Table {
        name: name(n),
        rootpage,
        columns,
        rowid_alias: None,
        without_rowid: false,
        pk_columns: vec![],
    }
}

#[allow(dead_code)]
fn index(n: &str, rootpage: u32, columns: &[&str]) -> IndexObject {
    IndexObject {
        name: name(n),
        rootpage,
        columns: columns
            .iter()
            .map(|c| IndexColumn {
                name: name(c),
                desc: false,
                collation: Collation::Binary,
                expr: None,
            })
            .collect(),
        unique: false,
        where_clause: None,
    }
}

#[allow(dead_code)]
fn listing(p: &Program) -> Vec<String> {
    p.instructions
        .iter()
        .enumerate()
        .map(|(at, i)| {
            let p4 = match &i.p4 {
                P4::Unused => String::from("None"),
                other => format!("{:?}", other),
            };
            format!("{} {:?} {} {} {} {} {}", at, i.opcode, i.p1, i.p2, i.p3, p4, i.p5)
        })
        .collect()
}

#[allow(dead_code)]
fn opcodes(p: &Program) -> Vec<String> {
    p.instructions.iter().map(|i| format!("{:?}", i.opcode)).collect()
}

fn tref(n: &str) -> TableRef {
    TableRef { schema: None, name: name(n), alias: None }
}

fn joined(op: JoinOp, constraint: Option<JoinConstraint>) -> Vec<TableOrJoin> {
    vec![TableOrJoin::Join(Join {
        op,
        left: Box::new(TableOrJoin::Table(tref("t"))),
        right: tref("u"),
        constraint,
    })]
}

fn tables() -> (Table, Table) {
    (
        table("t", 2, vec![column("a"), column("b")]),
        table("u", 3, vec![column("A"), column("c")]),
    )
}

#[test]
fn cross_join_nests_two_scans() {
    let (t, u) = tables();
    let tabs = [(&t, "t"), (&u, "u")];
    let s = query(vec![ResultColumn::Star], reads("t"));
    let (p, names) =
        compile_cross_join(&s, &tabs, &tabs, None, false, false, &Functions::none()).unwrap();
    assert_eq!(names, vec!["a", "b", "A", "c"]);
    assert_eq!(
        listing(&p),
        vec![
            "0 Init 0 13 0 None 0",
            "1 OpenRead 0 2 0 Int(2) 0",
            "2 OpenRead 1 3 0 Int(2) 0",
            "3 Rewind 0 12 0 None 0",
            "4 Rewind 1 11 0 None 0",
            "5 Column 0 0 1 None 0",
            "6 Column 0 1 2 None 0",
            "7 Column 1 0 3 None 0",
            "8 Column 1 1 4 None 0",
            "9 ResultRow 1 4 0 None 0",
            "10 Next 1 5 0 None 0",
            "11 Next 0 4 0 None 0",
            "12 Halt 0 0 0 None 0",
            "13 Transaction 0 0 0 None 0",
            "14 Goto 0 1 0 None 0",
        ]
    );
}

#[test]
fn left_join_puts_out_unmatched_rows() {
    let (t, u) = tables();
    let tabs = [(&t, "t"), (&u, "u")];
    let s = query(vec![ResultColumn::Star], reads("t"));
    let on = bin(BinaryOp::Eq, qcol("t", "a"), qcol("u", "a"));
    let (p, _) =
        compile_cross_join(&s, &tabs, &tabs, Some(&on), true, false, &Functions::none()).unwrap();
    let names = opcodes(&p);
    assert_eq!(names.iter().filter(|n| n.as_str() == "ResultRow").count(), 2);
    assert_eq!(names.iter().filter(|n| n.as_str() == "NullRow").count(), 1);
}

#[test]
fn full_join_reads_the_inner_table_again() {
    let (t, u) = tables();
    let tabs = [(&t, "t"), (&u, "u")];
    let s = query(vec![item(qcol("t", "b")), item(qcol("u", "c"))], reads("t"));
    let on = bin(BinaryOp::Eq, qcol("t", "a"), qcol("u", "a"));
    let f = Functions::none();
    let (p, _) = compile_cross_join(&s, &tabs, &tabs, Some(&on), false, true, &f).unwrap();
    let (q, _) = compile_cross_join(&s, &tabs, &tabs, Some(&on), true, true, &f).unwrap();
    assert_eq!(listing(&p), listing(&q));
    let rewinds: Vec<usize> = (0..p.instructions.len())
        .filter(|at| matches!(p.instructions[*at].opcode, Opcode::Rewind))
        .collect();
    assert_eq!(rewinds.len(), 4);
    assert_eq!(p.instructions[rewinds[0]].p2, rewinds[2] as i32);
    assert_eq!(opcodes(&p).iter().filter(|n| n.as_str() == "ResultRow").count(), 3);
}

#[test]
fn right_join_swaps_and_swaps_back() {
    let (t, u) = tables();
    let from = joined(JoinOp::Right, None);
    assert!(is_right_join(&from));
    assert!(!is_left_join(&from));
    assert!(!is_full_join(&from));
    let once = swap_for_right_join(vec![(&t, "t"), (&u, "u")], &from);
    assert_eq!(once[0].1, "u");
    assert_eq!(once[1].1, "t");
    let twice = swap_for_right_join(once, &from);
    assert_eq!(twice[0].1, "t");
    let kept = swap_for_right_join(vec![(&t, "t"), (&u, "u")], &joined(JoinOp::Left, None));
    assert_eq!(kept[0].1, "t");
}

#[test]
fn join_kinds_are_told_apart() {
    assert!(is_left_join(&joined(JoinOp::LeftOuter, None)));
    assert!(is_full_join(&joined(JoinOp::FullOuter, None)));
    assert!(is_right_join(&joined(JoinOp::RightOuter, None)));
    assert!(!is_left_join(&reads("t")));
}

#[test]
fn flattening_lists_tables_in_order() {
    let from = joined(JoinOp::Inner, None);
    let flat = flatten_cross_join(&from).unwrap();
    assert_eq!(flat.len(), 2);
    assert_eq!(flat[0].0.name, "t");
    assert_eq!(flat[1].0.name, "u");
    let sub = vec![TableOrJoin::Subquery {
        query: Box::new(query(vec![item(num(1))], vec![])),
        alias: name("s"),
    }];
    assert!(flatten_cross_join(&sub).is_none());
    assert!(flatten_cross_join(&vec![]).is_none());
}

#[test]
fn using_and_natural_are_refused_by_validation() {
    let using = joined(JoinOp::Inner, Some(JoinConstraint::Using(vec![name("a")])));
    assert_eq!(
        validate_join(&using).unwrap_err().message(),
        "USING clause is not supported yet (M7.10)"
    );
    assert_eq!(
        validate_join(&joined(JoinOp::Natural, None)).unwrap_err().message(),
        "NATURAL joins are not supported yet (M7.10)"
    );
    assert!(validate_join(&joined(JoinOp::NaturalLeft, None)).is_err());
    assert!(validate_join(&joined(JoinOp::Left, None)).is_ok());
}

#[test]
fn shared_columns_are_in_both_tables() {
    let (t, u) = tables();
    let cols = resolve_using_cols(&t, &u, None, JoinOp::Natural).unwrap().unwrap();
    assert_eq!(cols, vec!["a"]);
    let using = JoinConstraint::Using(vec![name("a")]);
    let cols = resolve_using_cols(&t, &u, Some(&using), JoinOp::Inner).unwrap().unwrap();
    assert_eq!(cols, vec!["a"]);
    assert!(resolve_using_cols(&t, &u, None, JoinOp::Inner).unwrap().is_none());
    let e = resolve_using_cols(&t, &u, Some(&using), JoinOp::NaturalLeft).unwrap_err();
    assert_eq!(e.message(), "a NATURAL join may not have an ON or USING clause");
    let missing = JoinConstraint::Using(vec![name("b")]);
    let e = resolve_using_cols(&t, &u, Some(&missing), JoinOp::Inner).unwrap_err();
    assert_eq!(
        e.message(),
        "cannot join using column b - column not present in both tables"
    );
}

#[test]
fn shared_columns_become_a_condition() {
    let on = synthetic_on(&[name("a"), name("b")], "t", "u").unwrap();
    let want = bin(
        BinaryOp::And,
        bin(BinaryOp::Eq, qcol("t", "a"), qcol("u", "a")),
        bin(BinaryOp::Eq, qcol("t", "b"), qcol("u", "b")),
    );
    assert!(on.same(&want));
    assert!(synthetic_on(&[], "t", "u").is_none());
}

fn column_exprs(columns: &[ResultColumn]) -> Vec<String> {
    columns
        .iter()
        .map(|c| match c {
            ResultColumn::Expr { expr, .. } => expr_to_text(expr),
            other => format!("{other:?}"),
        })
        .collect()
}

#[test]
fn join_of_from_clause_gives_shared_columns() {
    let (t, u) = tables();
    let using = joined(JoinOp::Inner, Some(JoinConstraint::Using(vec![name("A")])));
    assert_eq!(using_cols_for(&using, &t, &u).unwrap(), Some(vec![name("A")]));
    let natural = joined(JoinOp::NaturalLeft, None);
    assert_eq!(using_cols_for(&natural, &t, &u).unwrap(), Some(vec![name("a")]));
    assert_eq!(using_cols_for(&joined(JoinOp::Left, None), &t, &u).unwrap(), None);
    assert_eq!(using_cols_for(&reads("t"), &t, &u).unwrap(), None);
    assert_eq!(using_cols_for(&vec![], &t, &u).unwrap(), None);
    let missing = joined(JoinOp::Inner, Some(JoinConstraint::Using(vec![name("c")])));
    assert_eq!(
        using_cols_for(&missing, &t, &u).unwrap_err().message(),
        "cannot join using column c - column not present in both tables"
    );
}

#[test]
fn star_lists_shared_columns_once() {
    let (t, u) = tables();
    let shared = [name("a")];
    let s = query(vec![ResultColumn::Star], joined(JoinOp::Natural, None));
    let plain = rewrite_projection(&s, &shared, "t", "u", &t, &u, "t", "u").unwrap();
    assert_eq!(column_exprs(&plain), ["coalesce(t.a, u.a)", "t.b", "u.c"]);
    let swapped = rewrite_projection(&s, &shared, "u", "t", &u, &t, "t", "u").unwrap();
    assert_eq!(column_exprs(&swapped), ["coalesce(u.a, t.a)", "t.b", "u.c"]);
}

#[test]
fn other_result_columns_are_rewritten_or_stay() {
    let (t, u) = tables();
    let shared = [name("a")];
    let columns = vec![
        ResultColumn::TableStar(name("u")),
        item(col("b")),
        named(col("a"), "k"),
    ];
    let s = query(columns, joined(JoinOp::Natural, None));
    let out = rewrite_projection(&s, &shared, "t", "u", &t, &u, "t", "u").unwrap();
    assert!(matches!(&out[0], ResultColumn::TableStar(n) if n == "u"));
    assert!(matches!(
        &out[2],
        ResultColumn::Expr { expr: Expr::Coalesce2 { .. }, alias: Some(k) } if k == "k"
    ));
    let none = query(vec![], joined(JoinOp::Natural, None));
    assert_eq!(
        rewrite_projection(&none, &shared, "t", "u", &t, &u, "t", "u").unwrap_err().message(),
        "no result columns"
    );
}

#[test]
fn clauses_read_shared_columns_from_both_sides() {
    let (t, u) = tables();
    let shared = [name("a")];
    let mut s = query(vec![ResultColumn::Star], joined(JoinOp::Natural, None));
    s.where_clause = Some(bin(BinaryOp::Gt, col("a"), num(1)));
    s.group_by = vec![col("a"), qcol("t", "a")];
    rewrite_select_clauses(&mut s, &shared, "t", "u", &t, &u).unwrap();
    match &s.where_clause {
        Some(Expr::Binary { left, right, .. }) => {
            assert!(matches!(&**left, Expr::Coalesce2 { .. }));
            assert!(right.same(&num(1)));
        }
        other => panic!("expected a comparison, got {other:?}"),
    }
    assert!(matches!(&s.group_by[0], Expr::Coalesce2 { .. }));
    assert!(s.group_by[1].same(&qcol("t", "a")));
    assert!(s.having.is_none());
}

#[test]
fn ambiguous_columns_are_refused() {
    let (t, _) = tables();
    let u = table("u", 3, vec![column("A"), column("b")]);
    let count = Expr::Function {
        name: name("count"),
        distinct: false,
        args: FunctionArgs::Star,
        filter: Some(Box::new(col("b"))),
        over: None,
    };
    let case = Expr::Case {
        base: Some(Box::new(col("b"))),
        when_then: vec![(num(1), num(2))],
        else_expr: None,
    };
    for e in [col("b"), count, case] {
        let s = query(vec![item(e)], joined(JoinOp::Natural, None));
        let r = rewrite_projection(&s, &[name("a")], "t", "u", &t, &u, "t", "u");
        assert_eq!(r.unwrap_err().message(), "ambiguous column name: b");
    }
}
