//! The choice of an index.
#[allow(unused_imports)]
use sqlgen::ast::{
    BinaryOp, CompoundOperator, Cte, Expr, FunctionArgs, Join, JoinConstraint, JoinOp, Literal,
    OrderingTerm, ResultColumn, SelectStmt, TableOrJoin, TableRef, UnaryOp, WithClause,
};
#[allow(unused_imports)]
use sqlgen::schema::{AggSig, Column, FuncSig, Functions, IndexColumn, IndexObject, Table};
#[allow(unused_imports)]
use sqlgen::vdbe::{
    Affinity, AggregateKind, Collation, Instruction, KeyField, Opcode, Program, Value, P4,
};
use sqlgen::index_planner::{
    as_range_key, collect_referenced_columns, index_covers, partial_index_usable, pick_index,
    IndexPlan, IndexedBy, RangeOp,
};
use sqlgen::indexed::build_index_column_positions;
use sqlgen::like::{analyze_like_term, increment_last_utf8_byte};
use sqlgen::select_index_plan_info;

#[allow(dead_code)]
fn name(s: &str) -> String {
    String::from(s)
}

#[allow(dead_code)]
fn col(n: &str) -> Expr {
    Expr::Column { schema: None, table: None, name: name(n) }
}

#[allow(dead_code)]
fn qcol(t: &str, n: &str) -> Expr {
    Expr::Column { schema: None, table: Some(name(t)), name: name(n) }
}

#[allow(dead_code)]
fn num(n: i64) -> Expr {
    Expr::Literal(Literal::Integer(n))
}

#[allow(dead_code)]
fn text(s: &str) -> Expr {
    Expr::Literal(Literal::Text(name(s)))
}

#[allow(dead_code)]
fn bin(op: BinaryOp, l: Expr, r: Expr) -> Expr {
    Expr::Binary { op, left: Box::new(l), right: Box::new(r) }
}

#[allow(dead_code)]
fn item(expr: Expr) -> ResultColumn {
    ResultColumn::Expr { expr, alias: None }
}

#[allow(dead_code)]
fn named(expr: Expr, alias: &str) -> ResultColumn {
    ResultColumn::Expr { expr, alias: Some(name(alias)) }
}

#[allow(dead_code)]
fn query(columns: Vec<ResultColumn>, from: Vec<TableOrJoin>) -> SelectStmt {
    SelectStmt {
        distinct: false,
        columns,
        from,
        where_clause: None,
        group_by: vec![],
        having: None,
        compound: vec![],
        order_by: vec![],
        limit: None,
        offset: None,
        with_clause: None,
        window_clause: vec![],
        values: vec![],
    }
}

#[allow(dead_code)]
fn reads(n: &str) -> Vec<TableOrJoin> {
    vec![TableOrJoin::Table(TableRef { schema: None, name: name(n), alias: None })]
}

#[allow(dead_code)]
fn column(n: &str) -> Column {
    Column {
        name: name(n),
        affinity: Affinity::Blob,
        collation: Collation::Binary,
        notnull: false,
        pk: false,
        default: None,
    }
}

#[allow(dead_code)]
fn table(n: &str, rootpage: u32, columns: Vec<Column>) -> Table {
    Table {
        name: name(n),
        rootpage,
        columns,
        rowid_alias: None,
        without_rowid: false,
        pk_columns: vec![],
    }
}

#[allow(dead_code)]
fn index(n: &str, rootpage: u32, columns: &[&str]) -> IndexObject {
    IndexObject {
        name: name(n),
        rootpage,
        columns: columns
            .iter()
            .map(|c| IndexColumn {
                name: name(c),
                desc: false,
                collation: Collation::Binary,
                expr: None,
            })
            .collect(),
        unique: false,
        where_clause: None,
    }
}

#[allow(dead_code)]
fn listing(p: &Program) -> Vec<String> {
    p.instructions
        .iter()
        .enumerate()
        .map(|(at, i)| {
            let p4 = match &i.p4 {
                P4::Unused => String::from("None"),
                other => format!("{:?}", other),
            };
            format!("{} {:?} {} {} {} {} {}", at, i.opcode, i.p1, i.p2, i.p3, p4, i.p5)
        })
        .collect()
}

#[allow(dead_code)]
fn opcodes(p: &Program) -> Vec<String> {
    p.instructions.iter().map(|i| format!("{:?}", i.opcode)).collect()
}

fn term(expr: Expr, desc: bool) -> OrderingTerm {
    OrderingTerm { expr, desc, nulls: None }
}

fn t() -> Table {
    table("t", 2, vec![column("a"), column("b"), column("c")])
}

fn plan(s: &SelectStmt, ix: &[IndexObject]) -> Option<IndexPlan> {
    pick_index(s, &t(), ix, None, false).unwrap()
}

#[test]
fn comparisons_show_as_tokens() {
    assert_eq!(RangeOp::Eq.detail_token(), "=");
    assert_eq!(RangeOp::IsNull.detail_token(), "=");
    assert_eq!(RangeOp::Ge.detail_token(), ">");
    assert_eq!(RangeOp::Lt.detail_token(), "<");
    assert!(RangeOp::IsNull.is_equality());
    assert!(!RangeOp::Le.is_equality());
}

#[test]
fn equality_prefix_is_chosen() {
    let mut s = query(vec![item(col("c"))], reads("t"));
    s.where_clause = Some(bin(
        BinaryOp::And,
        bin(BinaryOp::Eq, col("a"), num(1)),
        bin(BinaryOp::Eq, col("b"), text("x")),
    ));
    let ix = [index("one", 5, &["a"]), index("two", 6, &["a", "b"])];
    let p = plan(&s, &ix).unwrap();
    assert_eq!(p.index.name, "two");
    assert_eq!(p.eq_prefix_len(), 2);
    assert!(p.has_where_equality());
    assert!(!p.covering);
    let info = select_index_plan_info(&s, Some(&t()), &ix).unwrap();
    assert_eq!(info.index_name, "two");
    assert_eq!(info.equality_columns, vec!["a", "b"]);
    assert!(info.has_where_equality);
    assert!(select_index_plan_info(&s, None, &ix).is_none());
    assert!(select_index_plan_info(&s, Some(&t()), &[]).is_none());
}

#[test]
fn covering_index_holds_every_column() {
    let mut s = query(vec![item(col("b"))], reads("t"));
    s.where_clause = Some(bin(BinaryOp::Eq, col("a"), num(1)));
    let wide = index("wide", 6, &["a", "b"]);
    let ix = [index("narrow", 5, &["a"]), wide.clone()];
    let p = plan(&s, &ix).unwrap();
    assert_eq!(p.index.name, "wide");
    assert!(p.covering);
    let refs = collect_referenced_columns(&s, &t());
    assert!(index_covers(&wide, &t(), &refs));
    let at = build_index_column_positions(&t(), &wide);
    assert_eq!(at, vec![0, 1, usize::MAX]);
    for r in refs {
        assert!(at[r] < 2);
    }
}

#[test]
fn order_by_can_be_satisfied() {
    let mut s = query(vec![item(col("c"))], reads("t"));
    s.order_by = vec![term(col("a"), false)];
    let ix = [index("i", 5, &["a"])];
    assert!(plan(&s, &ix).unwrap().order_by_satisfied);
    s.order_by = vec![term(col("b"), false)];
    assert!(plan(&s, &ix).is_none());
}

#[test]
fn hints_rule_the_choice() {
    let mut s = query(vec![item(col("c"))], reads("t"));
    s.where_clause = Some(bin(BinaryOp::Eq, col("a"), num(1)));
    let ix = [index("i", 5, &["a"]), index("j", 6, &["b"])];
    let none = pick_index(&s, &t(), &ix, Some(&IndexedBy::NotIndexed), false).unwrap();
    assert!(none.is_none());
    let forced = pick_index(&s, &t(), &ix, Some(&IndexedBy::Index(name("J"))), false).unwrap();
    assert_eq!(forced.unwrap().index.name, "j");
    let missing = pick_index(&s, &t(), &ix, Some(&IndexedBy::Index(name("zz"))), false);
    assert_eq!(missing.unwrap_err().message(), "no such index: zz");
}

#[test]
fn partial_index_needs_its_condition() {
    let mut partial = index("i", 5, &["a"]);
    partial.where_clause = Some(bin(BinaryOp::Gt, col("b"), num(0)));
    assert!(!partial_index_usable(&partial, &None));
    let both = bin(
        BinaryOp::And,
        bin(BinaryOp::Eq, col("a"), num(1)),
        bin(BinaryOp::Gt, col("b"), num(0)),
    );
    assert!(partial_index_usable(&partial, &Some(both)));
}

#[test]
fn next_text_carries_over() {
    assert_eq!(increment_last_utf8_byte("abc").unwrap(), "abd");
    assert_eq!(increment_last_utf8_byte("\u{e9}").unwrap(), "\u{ea}");
    assert_eq!(increment_last_utf8_byte("a\u{bf}").unwrap(), "a\u{c0}");
    assert_eq!(increment_last_utf8_byte("\u{7f}").unwrap(), "\u{80}");
    assert_eq!(increment_last_utf8_byte("\u{7ff}").unwrap(), "\u{800}");
    assert_eq!(increment_last_utf8_byte("\u{d7ff}").unwrap(), "\u{e000}");
    assert_eq!(increment_last_utf8_byte("a\u{10ffff}").unwrap(), "b");
    assert!(increment_last_utf8_byte("\u{10ffff}").is_none());
    assert!(increment_last_utf8_byte("").is_none());
}

#[test]
fn next_text_comes_after_all_with_the_prefix() {
    for prefix in ["a", "ab", "z\u{bf}", "caf\u{e9}", "\u{7f}", "\u{7ff}", "x\u{10ffff}"] {
        let next = increment_last_utf8_byte(prefix).unwrap();
        for tail in ["", "a", "\u{10ffff}", "zzz"] {
            let longer = format!("{prefix}{tail}");
            assert!(longer.as_bytes() < next.as_bytes());
        }
    }
}

#[test]
fn pattern_gives_a_range() {
    let mut c = column("a");
    c.affinity = Affinity::Text;
    c.collation = Collation::NoCase;
    let tab = table("t", 2, vec![c]);
    let e = bin(BinaryOp::Like, col("a"), text("Ab%"));
    let r = analyze_like_term(&e, &tab, false).unwrap();
    assert_eq!(r.column, "a");
    assert_eq!(r.prefix, "AB");
    assert_eq!(r.upper.as_deref(), Some("ac"));
    assert!(r.is_complete);
    assert!(analyze_like_term(&e, &tab, true).is_none());
    let e = bin(BinaryOp::Like, col("a"), text("%x"));
    assert!(analyze_like_term(&e, &tab, false).is_none());
}

/// The bounds of `a LIKE pattern`, and whether they are exactly what it matches.
fn range(pattern: &str) -> (String, Option<String>, bool) {
    let mut c = column("a");
    c.affinity = Affinity::Text;
    c.collation = Collation::NoCase;
    let tab = table("t", 2, vec![c]);
    let e = bin(BinaryOp::Like, col("a"), text(pattern));
    let r = analyze_like_term(&e, &tab, false).unwrap();
    (r.prefix, r.upper, r.is_complete)
}

#[test]
fn range_without_case_holds_every_match() {
    assert_eq!(range("z%"), (name("Z"), Some(name("{")), true));
    assert_eq!(range("Z%"), (name("Z"), Some(name("{")), true));
    assert_eq!(range("@%"), (name("@"), Some(name("a")), false));
    assert_eq!(range("?%"), (name("?"), Some(name("@")), false));
    assert_eq!(range("ab_%"), (name("AB"), Some(name("ac")), false));
    assert_eq!(range("\u{10ffff}%"), (name("\u{10ffff}"), None, true));
    for (pattern, text) in [("z%", "zebra"), ("z%", "Z"), ("@%", "@x"), ("a[%", "A[b")] {
        let (low, high, _) = range(pattern);
        let v = text.to_ascii_lowercase();
        assert!(low.to_ascii_lowercase() <= v);
        assert!(v < high.unwrap().to_ascii_lowercase());
    }
}

#[test]
fn functions_match_patterns_too() {
    let mut c = column("a");
    c.affinity = Affinity::Text;
    let tab = table("t", 2, vec![c]);
    let call = |n: &str, args: Vec<Expr>| Expr::Function {
        name: name(n),
        distinct: false,
        args: FunctionArgs::List(args),
        filter: None,
        over: None,
    };
    let e = call("glob", vec![text("ab*"), col("a")]);
    let r = analyze_like_term(&e, &tab, false).unwrap();
    assert_eq!((r.prefix.as_str(), r.upper.as_deref()), ("ab", Some("ac")));
    assert!(r.is_complete);
    let e = call("glob", vec![text("ab*"), col("a"), text("!")]);
    assert!(analyze_like_term(&e, &tab, false).is_none());
    let e = call("like", vec![text("a!%b%"), col("a"), text("!")]);
    let r = analyze_like_term(&e, &tab, true).unwrap();
    assert_eq!((r.prefix.as_str(), r.upper.as_deref()), ("a%b", Some("a%c")));
    assert!(r.is_complete);
    let e = call("like", vec![text("ab%"), col("a"), text("%")]);
    assert!(analyze_like_term(&e, &tab, true).is_none());
}

#[test]
fn later_of_two_equal_indexes_is_chosen() {
    let mut s = query(vec![item(col("c"))], reads("t"));
    s.where_clause = Some(bin(BinaryOp::Eq, col("a"), num(1)));
    let ix = [index("i", 5, &["a"]), index("j", 6, &["a"]), index("k", 7, &["b"])];
    assert_eq!(plan(&s, &ix).unwrap().index.name, "j");
}

#[test]
fn conditions_read_the_same_from_either_side() {
    let k = as_range_key(&bin(BinaryOp::Lt, num(3), col("a"))).unwrap();
    assert_eq!(k.column, "a");
    assert!(matches!(k.op, RangeOp::Gt));
    assert!(matches!(k.value, Value::Int(3)));
    let k = as_range_key(&bin(BinaryOp::Lt, col("a"), num(3))).unwrap();
    assert!(matches!(k.op, RangeOp::Lt));
}

#[test]
fn ranges_have_two_bounds() {
    let mut s = query(vec![item(col("c"))], reads("t"));
    s.where_clause = Some(bin(
        BinaryOp::And,
        bin(BinaryOp::Ge, col("a"), num(1)),
        bin(BinaryOp::Gt, num(9), col("a")),
    ));
    let p = plan(&s, &[index("i", 5, &["a"])]).unwrap();
    assert!(p.has_where_constraint());
    assert!(!p.has_where_equality());
    assert!(matches!(p.lower_bound().unwrap().value, Value::Int(1)));
    assert!(matches!(p.upper_bound().unwrap().value, Value::Int(9)));
}

#[test]
fn star_is_not_analyzed() {
    let mut s = query(vec![ResultColumn::Star], reads("t"));
    s.where_clause = Some(bin(BinaryOp::Eq, col("a"), num(1)));
    assert!(collect_referenced_columns(&s, &t()).is_empty());
    let p = plan(&s, &[index("i", 5, &["a", "b", "c"])]).unwrap();
    assert!(!p.covering);
    s.columns = vec![item(col("b")), ResultColumn::Star];
    assert_eq!(collect_referenced_columns(&s, &t()), vec![1, 0, 2]);
}

#[test]
fn not_null_is_no_condition() {
    let e = bin(BinaryOp::IsNot, col("a"), Expr::Literal(Literal::Null));
    let k = as_range_key(&e).unwrap();
    assert!(matches!(k.op, RangeOp::Gt));
    assert!(matches!(k.value, Value::Null));
    let mut s = query(vec![item(col("c"))], reads("t"));
    s.where_clause = Some(e);
    assert!(plan(&s, &[index("i", 5, &["a"])]).is_none());
}

#[test]
fn range_ends_at_a_column_of_no_table() {
    let mut s = query(vec![item(col("c"))], reads("t"));
    s.where_clause = Some(bin(BinaryOp::Eq, col("a"), num(1)));
    let p = plan(&s, &[index("i", 5, &["a", "zz"])]).unwrap();
    assert_eq!(p.eq_prefix_len(), 1);
    assert_eq!(p.equality_values()[0].column, "a");
}

#[test]
fn only_a_forced_index_asks_for_a_sorter() {
    let mut s = query(vec![item(col("c"))], reads("t"));
    s.where_clause = Some(bin(BinaryOp::Eq, col("a"), num(1)));
    s.order_by = vec![term(col("c"), false)];
    let ix = [index("i", 5, &["a"])];
    let p = plan(&s, &ix).unwrap();
    assert!(!p.order_by_satisfied);
    assert!(!p.needs_sorter);
    let forced = pick_index(&s, &t(), &ix, Some(&IndexedBy::Index(name("i"))), false).unwrap();
    assert!(forced.unwrap().needs_sorter);
}
