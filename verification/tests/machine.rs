//! Programs run on a small machine.
#[allow(unused_imports)]
use sqlgen::ast::{
    BinaryOp, CompoundOperator, Cte, Expr, FunctionArgs, Join, JoinConstraint, JoinOp, Literal,
    OrderingTerm, ResultColumn, SelectStmt, TableOrJoin, TableRef, UnaryOp, WithClause,
};
#[allow(unused_imports)]
use sqlgen::schema::{AggSig, Column, FuncSig, Functions, IndexColumn, IndexObject, Table};
#[allow(unused_imports)]
use sqlgen::vdbe::{
    Affinity, AggregateKind, Collation, Instruction, KeyField, Opcode, Program, Value, P4,
};
use sqlgen::compound::{compile, Source};
use sqlgen::delete::compile_delete;
use sqlgen::insert::compile_insert;
use sqlgen::join::compile_cross_join;
use sqlgen::recursive::compile_recursive;
use sqlgen::stmt::{DeleteStmt, InsertSource, InsertStmt};
use sqlgen::text::Error;
use std::collections::BTreeMap;

#[allow(dead_code)]
fn name(s: &str) -> String {
    String::from(s)
}

#[allow(dead_code)]
fn col(n: &str) -> Expr {
    Expr::Column { schema: None, table: None, name: name(n) }
}

#[allow(dead_code)]
fn qcol(t: &str, n: &str) -> Expr {
    Expr::Column { schema: None, table: Some(name(t)), name: name(n) }
}

#[allow(dead_code)]
fn num(n: i64) -> Expr {
    Expr::Literal(Literal::Integer(n))
}

#[allow(dead_code)]
fn text(s: &str) -> Expr {
    Expr::Literal(Literal::Text(name(s)))
}

#[allow(dead_code)]
fn bin(op: BinaryOp, l: Expr, r: Expr) -> Expr {
    Expr::Binary { op, left: Box::new(l), right: Box::new(r) }
}

#[allow(dead_code)]
fn item(expr: Expr) -> ResultColumn {
    ResultColumn::Expr { expr, alias: None }
}

#[allow(dead_code)]
fn named(expr: Expr, alias: &str) -> ResultColumn {
    ResultColumn::Expr { expr, alias: Some(name(alias)) }
}

#[allow(dead_code)]
fn query(columns: Vec<ResultColumn>, from: Vec<TableOrJoin>) -> SelectStmt {
    SelectStmt {
        distinct: false,
        columns,
        from,
        where_clause: None,
        group_by: vec![],
        having: None,
        compound: vec![],
        order_by: vec![],
        limit: None,
        offset: None,
        with_clause: None,
        window_clause: vec![],
        values: vec![],
    }
}

#[allow(dead_code)]
fn reads(n: &str) -> Vec<TableOrJoin> {
    vec![TableOrJoin::Table(TableRef { schema: None, name: name(n), alias: None })]
}

#[allow(dead_code)]
fn column(n: &str) -> Column {
    Column {
        name: name(n),
        affinity: Affinity::Blob,
        collation: Collation::Binary,
        notnull: false,
        pk: false,
        default: None,
    }
}

#[allow(dead_code)]
fn table(n: &str, rootpage: u32, columns: Vec<Column>) -> Table {
    Table {
        name: name(n),
        rootpage,
        columns,
        rowid_alias: None,
        without_rowid: false,
        pk_columns: vec![],
    }
}

#[allow(dead_code)]
fn index(n: &str, rootpage: u32, columns: &[&str]) -> IndexObject {
    IndexObject {
        name: name(n),
        rootpage,
        columns: columns
            .iter()
            .map(|c| IndexColumn {
                name: name(c),
                desc: false,
                collation: Collation::Binary,
                expr: None,
            })
            .collect(),
        unique: false,
        where_clause: None,
    }
}

#[allow(dead_code)]
fn listing(p: &Program) -> Vec<String> {
    p.instructions
        .iter()
        .enumerate()
        .map(|(at, i)| {
            let p4 = match &i.p4 {
                P4::Unused => String::from("None"),
                other => format!("{:?}", other),
            };
            format!("{} {:?} {} {} {} {} {}", at, i.opcode, i.p1, i.p2, i.p3, p4, i.p5)
        })
        .collect()
}

#[allow(dead_code)]
fn opcodes(p: &Program) -> Vec<String> {
    p.instructions.iter().map(|i| format!("{:?}", i.opcode)).collect()
}

/// A value in a register of the machine below.
#[derive(Clone, Debug, PartialEq, Eq, PartialOrd, Ord)]
enum Val {
    Null,
    Int(i64),
    Text(String),
    Record(Vec<Val>),
}

/// What a cursor stands on.
enum Cursor {
    Table { root: i32, at: Option<i64>, null: bool },
    Index { root: i32, at: usize },
    Pseudo { register: usize },
    Sorter { rows: Vec<Vec<Val>>, keys: Vec<KeyField>, at: usize },
}

/// The tables and indexes of a database, by root page.
#[derive(Default)]
struct Db {
    tables: BTreeMap<i32, BTreeMap<i64, Vec<Val>>>,
    indexes: BTreeMap<i32, Vec<Vec<Val>>>,
}

impl Db {
    fn with_rows(root: i32, rows: &[&[i64]]) -> Db {
        let mut db = Db::default();
        let stored = rows
            .iter()
            .enumerate()
            .map(|(i, r)| (i as i64 + 1, r.iter().map(|v| Val::Int(*v)).collect()))
            .collect();
        db.tables.insert(root, stored);
        db
    }

    fn index_on(&mut self, root: i32, of: i32, columns: &[usize]) {
        let mut entries: Vec<Vec<Val>> = self.tables[&of]
            .iter()
            .map(|(id, row)| {
                let mut e: Vec<Val> = columns.iter().map(|c| row[*c].clone()).collect();
                e.push(Val::Int(*id));
                e
            })
            .collect();
        entries.sort();
        self.indexes.insert(root, entries);
    }

    fn rows(&self, root: i32) -> Vec<Vec<Val>> {
        self.tables[&root].values().cloned().collect()
    }
}

fn ints(rows: &[&[i64]]) -> Vec<Vec<Val>> {
    rows.iter().map(|r| r.iter().map(|v| Val::Int(*v)).collect()).collect()
}

fn by_keys(a: &[Val], b: &[Val], keys: &[KeyField]) -> std::cmp::Ordering {
    for (k, key) in keys.iter().enumerate() {
        let mut o = a[k].cmp(&b[k]);
        if key.desc {
            o = o.reverse();
        }
        if o != std::cmp::Ordering::Equal {
            return o;
        }
    }
    std::cmp::Ordering::Equal
}

fn as_int(v: &Val) -> i64 {
    match v {
        Val::Int(n) => *n,
        other => panic!("not a number: {:?}", other),
    }
}

fn as_record(v: &Val) -> Vec<Val> {
    match v {
        Val::Record(r) => r.clone(),
        other => panic!("not a record: {:?}", other),
    }
}

fn p4_length(p4: &P4) -> usize {
    match p4 {
        P4::Int(n) => *n as usize,
        other => panic!("no length: {:?}", other),
    }
}

/// Run a program and gather the rows that it puts out.
fn run(p: &Program, db: &mut Db) -> Vec<Vec<Val>> {
    let mut regs: Vec<Val> = vec![Val::Null; p.num_registers];
    let mut cursors: BTreeMap<i32, Cursor> = BTreeMap::new();
    let mut sums: BTreeMap<usize, i64> = BTreeMap::new();
    let mut out: Vec<Vec<Val>> = vec![];
    let mut order = std::cmp::Ordering::Equal;
    let mut pc: usize = 0;
    let mut steps = 0;
    loop {
        steps += 1;
        assert!(steps < 20000, "the program does not end");
        let i = &p.instructions[pc];
        let (p1, p2, p3) = (i.p1, i.p2, i.p3);
        let (r1, r2, r3) = (p1 as usize, p2 as usize, p3 as usize);
        let mut next = pc + 1;
        match i.opcode {
            Opcode::Init | Opcode::Goto => next = r2,
            Opcode::Halt => return out,
            Opcode::Transaction | Opcode::Affinity => {}
            Opcode::NullRow => {
                if let Some(Cursor::Table { null, .. }) = cursors.get_mut(&p1) {
                    *null = true;
                }
            }
            Opcode::AggStep => {
                let more = match (&i.p4, i.p5) {
                    (P4::FuncDef(AggregateKind(1)), _) => 1,
                    (P4::FuncDef(AggregateKind(2)), 1) => as_int(&regs[r2]),
                    other => panic!("no such aggregate: {:?}", other),
                };
                *sums.entry(r3).or_insert(0) += more;
            }
            Opcode::AggFinal => {
                let counts = matches!(i.p4, P4::FuncDef(AggregateKind(1)));
                regs[r1] = match sums.remove(&r1) {
                    Some(n) => Val::Int(n),
                    None if counts => Val::Int(0),
                    None => Val::Null,
                };
            }
            Opcode::Found => {
                let key = &regs[r3..r3 + p4_length(&i.p4)];
                match &cursors[&p1] {
                    Cursor::Index { root, .. } => {
                        if db.indexes[root].iter().any(|e| e == key) {
                            next = r2;
                        }
                    }
                    _ => panic!("cursor {} is no index", p1),
                }
            }
            Opcode::Gosub => {
                regs[r1] = Val::Int(pc as i64);
                next = r2;
            }
            Opcode::Return => next = as_int(&regs[r1]) as usize + 1,
            Opcode::InitCoroutine => {
                regs[r1] = Val::Int(i64::from(p3) - 1);
                next = r2;
            }
            Opcode::Yield => {
                let to = as_int(&regs[r1]) + 1;
                regs[r1] = Val::Int(pc as i64);
                next = to as usize;
            }
            Opcode::EndCoroutine => {
                let caller = as_int(&regs[r1]) as usize;
                regs[r1] = Val::Int(pc as i64 - 1);
                next = p.instructions[caller].p2 as usize;
            }
            Opcode::If => {
                if regs[r1] != Val::Null && regs[r1] != Val::Int(0) {
                    next = r2;
                }
            }
            Opcode::IfNot => {
                if regs[r1] == Val::Int(0) || (regs[r1] == Val::Null && p3 != 0) {
                    next = r2;
                }
            }
            Opcode::IsNull => {
                if regs[r1] == Val::Null {
                    next = r2;
                }
            }
            Opcode::NotNull => {
                if regs[r1] != Val::Null {
                    next = r2;
                }
            }
            Opcode::IfPos => {
                let n = as_int(&regs[r1]);
                if n > 0 {
                    regs[r1] = Val::Int(n - i64::from(p3));
                    next = r2;
                }
            }
            Opcode::DecrJumpZero => {
                let n = as_int(&regs[r1]) - 1;
                regs[r1] = Val::Int(n);
                if n == 0 {
                    next = r2;
                }
            }
            Opcode::Eq | Opcode::Ne | Opcode::Lt | Opcode::Le | Opcode::Gt | Opcode::Ge => {
                let (a, b) = (&regs[r3], &regs[r1]);
                let holds = if *a == Val::Null || *b == Val::Null {
                    None
                } else {
                    Some(match i.opcode {
                        Opcode::Eq => a == b,
                        Opcode::Ne => a != b,
                        Opcode::Lt => a < b,
                        Opcode::Le => a <= b,
                        Opcode::Gt => a > b,
                        _ => a >= b,
                    })
                };
                if i.p5 & 0x20 != 0 {
                    regs[r2] = match holds {
                        Some(h) => Val::Int(i64::from(h)),
                        None => Val::Null,
                    };
                } else if holds.unwrap_or(i.p5 & 0x10 != 0) {
                    next = r2;
                }
            }
            Opcode::Compare => {
                let n = r3;
                let keys = match &i.p4 {
                    P4::KeyInfo(k) => k,
                    other => panic!("no keys: {:?}", other),
                };
                order = by_keys(&regs[r1..r1 + n], &regs[r2..r2 + n], keys);
            }
            Opcode::Jump => {
                next = match order {
                    std::cmp::Ordering::Less => r1,
                    std::cmp::Ordering::Equal => r2,
                    std::cmp::Ordering::Greater => r3,
                }
            }
            Opcode::Integer => regs[r2] = Val::Int(i64::from(p1)),
            Opcode::String8 => {
                regs[r2] = match &i.p4 {
                    P4::Text(t) => Val::Text(t.clone()),
                    other => panic!("no text: {:?}", other),
                }
            }
            Opcode::Null => {
                for r in p2..=p3.max(p2) {
                    regs[r as usize] = Val::Null;
                }
            }
            Opcode::SCopy | Opcode::Copy => regs[r2] = regs[r1].clone(),
            Opcode::Add => regs[r3] = Val::Int(as_int(&regs[r1]) + as_int(&regs[r2])),
            Opcode::MakeRecord => regs[r3] = Val::Record(regs[r1..r1 + r2].to_vec()),
            Opcode::ResultRow => out.push(regs[r1..r1 + r2].to_vec()),
            Opcode::OpenRead | Opcode::OpenWrite | Opcode::OpenEphemeral => {
                assert!((p1 as usize) < p.num_cursors);
                let own = i.opcode == Opcode::OpenEphemeral;
                let root = if own { -1 - p1 } else { p2 };
                if matches!(i.p4, P4::KeyInfo(_)) {
                    if own {
                        db.indexes.insert(root, vec![]);
                    }
                    cursors.insert(p1, Cursor::Index { root, at: 0 });
                } else {
                    if own {
                        db.tables.insert(root, BTreeMap::new());
                    }
                    cursors.insert(p1, Cursor::Table { root, at: None, null: false });
                }
            }
            Opcode::OpenPseudo => {
                assert!((p1 as usize) < p.num_cursors);
                cursors.insert(p1, Cursor::Pseudo { register: r2 });
            }
            Opcode::SorterOpen => {
                assert!((p1 as usize) < p.num_cursors);
                let keys = match &i.p4 {
                    P4::KeyInfo(k) => k.clone(),
                    other => panic!("no keys: {:?}", other),
                };
                cursors.insert(p1, Cursor::Sorter { rows: vec![], keys, at: 0 });
            }
            Opcode::SorterData => {}
            Opcode::SorterInsert | Opcode::SorterSort | Opcode::SorterNext => {
                match cursors.get_mut(&p1) {
                    Some(Cursor::Sorter { rows, keys, at }) => match i.opcode {
                        Opcode::SorterInsert => rows.push(as_record(&regs[r2])),
                        Opcode::SorterSort => {
                            rows.sort_by(|a, b| by_keys(a, b, keys));
                            *at = 0;
                            if rows.is_empty() {
                                next = r2;
                            }
                        }
                        _ => {
                            *at += 1;
                            if *at < rows.len() {
                                next = r2;
                            }
                        }
                    },
                    _ => panic!("cursor {} is no sorter", p1),
                }
            }
            Opcode::Column => {
                let row = match &cursors[&p1] {
                    Cursor::Table { null: true, .. } => vec![Val::Null; r2 + 1],
                    Cursor::Table { root, at, .. } => db.tables[root][&at.unwrap()].clone(),
                    Cursor::Index { root, at } => db.indexes[root][*at].clone(),
                    Cursor::Pseudo { register } => as_record(&regs[*register]),
                    Cursor::Sorter { rows, at, .. } => rows[*at].clone(),
                };
                regs[r3] = row[r2].clone();
            }
            Opcode::Rewind | Opcode::Next => match cursors.get_mut(&p1) {
                Some(Cursor::Table { root, at, null }) => {
                    *null = false;
                    let t = &db.tables[root];
                    let first = i.opcode == Opcode::Rewind;
                    let from = if first { i64::MIN } else { at.unwrap() + 1 };
                    *at = t.range(from..).next().map(|(k, _)| *k);
                    if at.is_some() != first {
                        next = r2;
                    }
                }
                Some(Cursor::Index { root, at }) => {
                    let first = i.opcode == Opcode::Rewind;
                    *at = if first { 0 } else { *at + 1 };
                    if (*at < db.indexes[root].len()) != first {
                        next = r2;
                    }
                }
                Some(Cursor::Pseudo { .. }) => {}
                _ => panic!("cursor {} cannot be walked", p1),
            },
            Opcode::SeekGE | Opcode::IdxGT => match cursors.get_mut(&p1) {
                Some(Cursor::Index { root, at }) => {
                    let n = p4_length(&i.p4);
                    let key = &regs[r3..r3 + n];
                    let entries = &db.indexes[root];
                    if i.opcode == Opcode::SeekGE {
                        *at = entries.iter().position(|e| &e[..n] >= key).unwrap_or(entries.len());
                        if *at == entries.len() {
                            next = r2;
                        }
                    } else if &entries[*at][..n] > key {
                        next = r2;
                    }
                }
                _ => panic!("cursor {} is no index", p1),
            },
            Opcode::IdxRowid => match &cursors[&p1] {
                Cursor::Index { root, at } => {
                    regs[r2] = db.indexes[root][*at].last().unwrap().clone()
                }
                _ => panic!("cursor {} is no index", p1),
            },
            Opcode::NotExists => {
                let id = as_int(&regs[r3]);
                match cursors.get_mut(&p1) {
                    Some(Cursor::Table { root, at, .. }) => {
                        if db.tables[root].contains_key(&id) {
                            *at = Some(id);
                        } else {
                            next = r2;
                        }
                    }
                    _ => panic!("cursor {} is no table", p1),
                }
            }
            Opcode::Rowid => match &cursors[&p1] {
                Cursor::Table { at, .. } => regs[r2] = Val::Int(at.unwrap()),
                _ => panic!("cursor {} is no table", p1),
            },
            Opcode::RowData => match &cursors[&p1] {
                Cursor::Table { root, at, .. } => {
                    regs[r2] = Val::Record(db.tables[root][&at.unwrap()].clone())
                }
                _ => panic!("cursor {} is no table", p1),
            },
            Opcode::NewRowid => match &cursors[&p1] {
                Cursor::Table { root, .. } => {
                    let last = db.tables[root].keys().next_back().copied().unwrap_or(0);
                    regs[r2] = Val::Int(last + 1);
                }
                _ => panic!("cursor {} is no table", p1),
            },
            Opcode::Insert => match &cursors[&p1] {
                Cursor::Table { root, .. } => {
                    let (id, row) = (as_int(&regs[r3]), as_record(&regs[r2]));
                    db.tables.get_mut(root).unwrap().insert(id, row);
                }
                _ => panic!("cursor {} is no table", p1),
            },
            Opcode::Delete => match &cursors[&p1] {
                Cursor::Table { root, at, .. } => {
                    db.tables.get_mut(root).unwrap().remove(&at.unwrap());
                }
                _ => panic!("cursor {} is no table", p1),
            },
            Opcode::IdxInsert => match &cursors[&p1] {
                Cursor::Index { root, .. } => {
                    let entries = db.indexes.get_mut(root).unwrap();
                    entries.push(as_record(&regs[r2]));
                    entries.sort();
                }
                _ => panic!("cursor {} is no index", p1),
            },
            Opcode::IdxDelete => match &cursors[&p1] {
                Cursor::Index { root, .. } => {
                    let key = regs[r2..r2 + r3].to_vec();
                    db.indexes.get_mut(root).unwrap().retain(|e| *e != key);
                }
                _ => panic!("cursor {} is no index", p1),
            },
            other => panic!("no such instruction here: {:?}", other),
        }
        pc = next;
    }
}

fn ab() -> Table {
    table("t", 2, vec![column("a"), column("b")])
}

fn rows_of(s: &SelectStmt, t: Option<&Table>, ix: &[IndexObject], db: &mut Db) -> Vec<Vec<Val>> {
    let arms: Vec<Result<Source, Error>> = s
        .compound
        .iter()
        .map(|_| Ok(Source { table: None, indexes: vec![], arms: vec![] }))
        .collect();
    run(&compile(s, t, ix, &arms, &Functions::none()).unwrap().0, db)
}

fn constants(s: &SelectStmt) -> Vec<Vec<Val>> {
    rows_of(s, None, &[], &mut Db::default())
}

fn row(values: &[i64]) -> SelectStmt {
    query(values.iter().map(|v| item(num(*v))).collect(), vec![])
}

fn arms(first: SelectStmt, rest: &[(CompoundOperator, &[i64])]) -> SelectStmt {
    let mut s = first;
    s.compound = rest.iter().map(|(op, v)| (*op, row(v))).collect();
    s
}

fn term(expr: Expr, desc: bool) -> OrderingTerm {
    OrderingTerm { expr, desc, nulls: None }
}

#[test]
fn union_keeps_rows_that_differ_in_any_column() {
    let mut s = arms(row(&[1, 2]), &[(CompoundOperator::Union, &[1, 3])]);
    s.order_by = vec![term(num(1), false)];
    assert_eq!(constants(&s), ints(&[&[1, 2], &[1, 3]]));
    let mut s = arms(row(&[1, 2]), &[(CompoundOperator::Union, &[1, 2])]);
    s.order_by = vec![term(num(1), false)];
    assert_eq!(constants(&s), ints(&[&[1, 2]]));
    let s = arms(row(&[1, 2]), &[(CompoundOperator::Union, &[1, 1])]);
    assert_eq!(constants(&s), ints(&[&[1, 1], &[1, 2]]));
}

#[test]
fn merged_rows_come_in_the_order_of_any_column() {
    let mut s = arms(row(&[1, 2]), &[(CompoundOperator::Union, &[0, 3])]);
    s.order_by = vec![term(num(2), true)];
    assert_eq!(constants(&s), ints(&[&[0, 3], &[1, 2]]));
    s.order_by = vec![term(num(2), false)];
    assert_eq!(constants(&s), ints(&[&[1, 2], &[0, 3]]));
    let mut s = arms(row(&[5, 1]), &[(CompoundOperator::UnionAll, &[4, 1])]);
    s.order_by = vec![term(num(2), false)];
    assert_eq!(constants(&s), ints(&[&[4, 1], &[5, 1]]));
}

#[test]
fn three_arms_can_be_ordered_by_name() {
    let first = query(vec![named(num(2), "x"), named(num(7), "y")], vec![]);
    let mut s = arms(
        first,
        &[(CompoundOperator::Union, &[1, 9]), (CompoundOperator::Union, &[3, 8])],
    );
    s.order_by = vec![term(col("X"), true)];
    assert_eq!(constants(&s), ints(&[&[3, 8], &[2, 7], &[1, 9]]));
    s.order_by = vec![term(col("y"), false)];
    assert_eq!(constants(&s), ints(&[&[2, 7], &[3, 8], &[1, 9]]));
    s.order_by = vec![term(num(7), true)];
    let none = |s: &SelectStmt| {
        let arms: Vec<Result<Source, Error>> = (0..2)
            .map(|_| Ok(Source { table: None, indexes: vec![], arms: vec![] }))
            .collect();
        compile(s, None, &[], &arms, &Functions::none()).unwrap_err().message()
    };
    assert_eq!(none(&s), "ORDER BY term out of range - should be between 1 and 2");
    s.order_by = vec![term(col("z"), true)];
    assert_eq!(none(&s), "no such column: z");
}

#[test]
fn merged_rows_can_be_ordered_by_a_value_of_their_own() {
    let t = ab();
    let arm = |c: &str| query(vec![item(col(c))], reads("t"));
    let rows = |s: &SelectStmt| {
        let arms: Vec<Result<Source, Error>> = s
            .compound
            .iter()
            .map(|_| Ok(Source { table: Some(ab()), indexes: vec![], arms: vec![] }))
            .collect();
        let (p, names) = compile(s, Some(&t), &[], &arms, &Functions::none()).unwrap();
        assert_eq!(names, vec!["a"]);
        run(&p, &mut Db::with_rows(2, &[&[1, 20], &[3, 40], &[2, 30]]))
    };
    let mut s = arm("a");
    s.compound = vec![(CompoundOperator::UnionAll, arm("b"))];
    s.order_by = vec![term(bin(BinaryOp::Add, col("a"), col("b")), false)];
    assert_eq!(rows(&s), ints(&[&[1], &[20], &[2], &[30], &[3], &[40]]));
    s.order_by.push(term(num(1), true));
    assert_eq!(rows(&s), ints(&[&[20], &[1], &[30], &[2], &[40], &[3]]));
    s.limit = Some(num(2));
    s.offset = Some(num(1));
    assert_eq!(rows(&s), ints(&[&[1], &[30]]));
    let mut s = arm("a");
    s.compound = vec![(CompoundOperator::Union, arm("a"))];
    s.order_by = vec![term(bin(BinaryOp::Add, col("a"), col("b")), true)];
    assert_eq!(rows(&s), ints(&[&[3], &[2], &[1]]));
    let mut s = arm("a");
    s.compound =
        vec![(CompoundOperator::UnionAll, arm("b")), (CompoundOperator::Except, arm("a"))];
    s.order_by = vec![term(bin(BinaryOp::Add, col("a"), col("b")), true)];
    assert_eq!(rows(&s), ints(&[&[40], &[30], &[20]]));
    s.compound[1].0 = CompoundOperator::Intersect;
    assert_eq!(rows(&s), ints(&[&[3], &[2], &[1]]));
}

#[test]
fn each_operator_takes_its_rows() {
    let base = || {
        arms(row(&[1]), &[(CompoundOperator::UnionAll, &[2]), (CompoundOperator::UnionAll, &[2])])
    };
    assert_eq!(constants(&base()), ints(&[&[1], &[2], &[2]]));
    let mut s = base();
    s.compound[1].0 = CompoundOperator::Except;
    assert_eq!(constants(&s), ints(&[&[1]]));
    s.compound[1].0 = CompoundOperator::Intersect;
    assert_eq!(constants(&s), ints(&[&[2]]));
    s.compound[1].0 = CompoundOperator::Union;
    assert_eq!(constants(&s), ints(&[&[1], &[2]]));
    s.limit = Some(num(1));
    s.offset = Some(num(1));
    assert_eq!(constants(&s), ints(&[&[2]]));
    let mut s = arms(row(&[1]), &[(CompoundOperator::UnionAll, &[2])]);
    s.limit = Some(num(1));
    s.offset = Some(num(1));
    assert_eq!(constants(&s), ints(&[&[2]]));
}

#[test]
fn values_can_be_skipped_and_sorted() {
    let mut s = query(vec![], vec![]);
    s.values = vec![vec![num(2)], vec![num(3)], vec![num(1)]];
    s.limit = Some(num(5));
    s.offset = Some(num(1));
    assert_eq!(constants(&s), ints(&[&[3], &[1]]));
    s.order_by = vec![term(num(1), false)];
    assert_eq!(constants(&s), ints(&[&[2], &[3]]));
    s.offset = None;
    s.limit = Some(num(2));
    assert_eq!(constants(&s), ints(&[&[1], &[2]]));
    s.order_by = vec![term(col("column1"), true)];
    assert_eq!(constants(&s), ints(&[&[3], &[2]]));
}

#[test]
fn range_test_follows_three_valued_logic() {
    let null = || Expr::Literal(Literal::Null);
    let test = |e: Expr, low: Expr, high: Expr, negated: bool| {
        let e = Expr::Between {
            expr: Box::new(e),
            low: Box::new(low),
            high: Box::new(high),
            negated,
        };
        constants(&query(vec![item(e)], vec![]))[0][0].clone()
    };
    assert_eq!(test(num(5), num(1), num(9), false), Val::Int(1));
    assert_eq!(test(num(0), num(1), num(9), false), Val::Int(0));
    assert_eq!(test(num(5), null(), num(10), false), Val::Null);
    assert_eq!(test(num(5), num(1), null(), false), Val::Null);
    assert_eq!(test(num(5), null(), num(10), true), Val::Null);
    assert_eq!(test(num(11), null(), num(10), false), Val::Int(0));
    assert_eq!(test(num(5), num(10), null(), true), Val::Int(1));
    assert_eq!(test(null(), num(1), num(2), true), Val::Null);
}

#[test]
fn index_narrows_a_sorted_query() {
    let mut db = Db::with_rows(2, &[&[7, 3], &[8, 9], &[7, 1], &[7, 2]]);
    db.index_on(5, 2, &[0]);
    let mut s = query(vec![item(col("b"))], reads("t"));
    s.where_clause = Some(bin(BinaryOp::Eq, col("a"), num(7)));
    s.order_by = vec![term(col("b"), false)];
    let ix = [index("i", 5, &["a"])];
    let t = ab();
    let (p, _) = compile(&s, Some(&t), &ix, &[], &Functions::none()).unwrap();
    let names = opcodes(&p);
    assert!(names.contains(&name("SeekGE")));
    assert!(names.contains(&name("SorterSort")));
    assert_eq!(rows_of(&s, Some(&t), &ix, &mut db), ints(&[&[1], &[2], &[3]]));
    s.order_by[0].desc = true;
    s.limit = Some(num(1));
    s.offset = Some(num(1));
    assert_eq!(rows_of(&s, Some(&t), &ix, &mut db), ints(&[&[2]]));
}

/// `WITH RECURSIVE x(n) AS (SELECT 1 UNION ALL SELECT n+1 FROM x WHERE n<5) SELECT n FROM x`
#[test]
fn recursion_counts_to_its_end() {
    let mut step = query(vec![item(bin(BinaryOp::Add, col("n"), num(1)))], reads("x"));
    step.where_clause = Some(bin(BinaryOp::Lt, col("n"), num(5)));
    let mut body = row(&[1]);
    body.compound = vec![(CompoundOperator::UnionAll, step)];
    let mut s = query(vec![item(col("n"))], reads("x"));
    s.with_clause = Some(WithClause {
        recursive: true,
        ctes: vec![Cte { name: name("x"), columns: vec![name("n")], query: body }],
    });
    let c = compile_recursive(&s, None, &Functions::none()).unwrap();
    let got = run(&c.program, &mut Db::default());
    assert_eq!(got, ints(&[&[1], &[2], &[3], &[4], &[5]]));
}

fn insert(columns: &[&str], sel: SelectStmt) -> InsertStmt {
    InsertStmt {
        name: name("t"),
        columns: columns.iter().map(|c| name(c)).collect(),
        source: InsertSource::Select(Box::new(sel)),
        returning: None,
    }
}

#[test]
fn selected_rows_are_stored() {
    let t = ab();
    let ix = [index("i", 5, &["b"])];
    let mut db = Db::with_rows(2, &[&[1, 9]]);
    db.index_on(5, 2, &[1]);
    db.tables.insert(3, Db::with_rows(3, &[&[4, 40], &[5, 50]]).tables[&3].clone());
    let u = table("u", 3, vec![column("c"), column("d")]);
    let mut sel = query(vec![item(col("d")), item(col("c"))], reads("u"));
    sel.where_clause = Some(bin(BinaryOp::Lt, num(4), col("d")));
    let ins = insert(&["b", "a"], sel);
    let p = compile_insert(&ins, &t, &ix, Some(&u), &[], &Functions::none()).unwrap();
    assert_eq!(run(&p, &mut db), ints(&[]));
    assert_eq!(db.rows(2), ints(&[&[1, 9], &[4, 40], &[5, 50]]));
    assert_eq!(db.indexes[&5], ints(&[&[9, 1], &[40, 2], &[50, 3]]));
}

#[test]
fn selected_rows_are_returned() {
    let t = ab();
    let ix = [index("i", 5, &["b"])];
    let mut db = Db::with_rows(2, &[]);
    db.index_on(5, 2, &[1]);
    let mut ins = insert(&[], arms(row(&[1, 2]), &[(CompoundOperator::UnionAll, &[3, 4])]));
    ins.returning = Some(vec![item(bin(BinaryOp::Add, col("a"), col("b"))), item(col("a"))]);
    let p = compile_insert(&ins, &t, &ix, None, &[], &Functions::none()).unwrap();
    assert_eq!(run(&p, &mut db), ints(&[&[3, 1], &[7, 3]]));
    assert_eq!(db.rows(2), ints(&[&[1, 2], &[3, 4]]));
    assert_eq!(db.indexes[&5], ints(&[&[2, 1], &[4, 2]]));
}

#[test]
fn table_can_be_copied_into_itself() {
    let t = ab();
    let mut db = Db::with_rows(2, &[&[1, 2], &[3, 4]]);
    let ins = insert(&[], query(vec![ResultColumn::Star], reads("t")));
    let p = compile_insert(&ins, &t, &[], Some(&t), &[], &Functions::none()).unwrap();
    run(&p, &mut db);
    assert_eq!(db.rows(2), ints(&[&[1, 2], &[3, 4], &[1, 2], &[3, 4]]));
}

#[test]
fn short_rows_are_filled_with_nulls() {
    let t = ab();
    let mut db = Db::with_rows(2, &[]);
    let p = compile_insert(&insert(&[], row(&[1])), &t, &[], None, &[], &Functions::none());
    run(&p.unwrap(), &mut db);
    assert_eq!(db.rows(2), vec![vec![Val::Int(1), Val::Null]]);
}

fn delete() -> DeleteStmt {
    DeleteStmt {
        schema: None,
        name: name("t"),
        where_clause: None,
        order_by: vec![],
        limit: None,
        offset: None,
        returning: None,
    }
}

#[test]
fn all_rows_are_deleted_one_by_one() {
    let t = ab();
    let ix = [index("i", 5, &["b"])];
    let mut db = Db::with_rows(2, &[&[1, 2], &[3, 4]]);
    db.index_on(5, 2, &[1]);
    let mut d = delete();
    d.returning = Some(vec![item(col("b"))]);
    let p = compile_delete(&d, &t, &ix, &Functions::none()).unwrap();
    assert!(!opcodes(&p).contains(&name("Clear")));
    assert_eq!(run(&p, &mut db), ints(&[&[2], &[4]]));
    assert_eq!(db.rows(2), ints(&[]));
    assert_eq!(db.indexes[&5], ints(&[]));
}

#[test]
fn limited_delete_takes_the_first_rows_in_order() {
    let t = ab();
    let ix = [index("i", 5, &["b"])];
    let mut db = Db::with_rows(2, &[&[1, 20], &[3, 40], &[2, 30]]);
    db.index_on(5, 2, &[1]);
    let mut d = delete();
    d.order_by = vec![term(col("a"), true)];
    d.limit = Some(num(1));
    d.offset = Some(num(1));
    d.returning = Some(vec![item(col("a")), item(col("b"))]);
    let p = compile_delete(&d, &t, &ix, &Functions::none()).unwrap();
    assert_eq!(run(&p, &mut db), ints(&[&[2, 30]]));
    assert_eq!(db.rows(2), ints(&[&[1, 20], &[3, 40]]));
    assert_eq!(db.indexes[&5], ints(&[&[20, 1], &[40, 2]]));
}

#[test]
fn joins_pair_the_rows_of_two_tables() {
    let t = ab();
    let u = table("u", 3, vec![column("c"), column("d")]);
    let tabs = [(&t, "t"), (&u, "u")];
    let db = || {
        let mut db = Db::with_rows(2, &[&[1, 10], &[2, 20]]);
        db.tables.insert(3, Db::with_rows(3, &[&[2, 200], &[3, 300], &[2, 201]]).tables[&3].clone());
        db
    };
    let f = Functions::none();
    let s = query(vec![item(col("b")), item(col("d"))], reads("t"));
    let on = bin(BinaryOp::Eq, qcol("t", "a"), qcol("u", "c"));
    let rows = |s: &SelectStmt, on: Option<&Expr>, left: bool, full: bool| {
        run(&compile_cross_join(s, &tabs, &tabs, on, left, full, &f).unwrap().0, &mut db())
    };
    assert_eq!(rows(&s, None, false, false).len(), 6);
    assert_eq!(rows(&s, Some(&on), false, false), ints(&[&[20, 200], &[20, 201]]));
    let (n, v) = (Val::Null, |v: i64| Val::Int(v));
    let left = vec![vec![v(10), n.clone()], vec![v(20), v(200)], vec![v(20), v(201)]];
    assert_eq!(rows(&s, Some(&on), true, false), left);
    let mut full = left.clone();
    full.push(vec![n.clone(), v(300)]);
    assert_eq!(rows(&s, Some(&on), false, true), full);
    let mut sorted = s.clone();
    sorted.order_by = vec![term(col("d"), true)];
    sorted.limit = Some(num(2));
    sorted.offset = Some(num(1));
    assert_eq!(rows(&sorted, Some(&on), false, true), vec![full[2].clone(), full[1].clone()]);
    let mut kept = s.clone();
    kept.where_clause = Some(bin(BinaryOp::Lt, col("b"), num(15)));
    assert_eq!(rows(&kept, Some(&on), true, false), vec![full[0].clone()]);
    assert_eq!(rows(&kept, Some(&on), false, true), vec![full[0].clone()]);
}

#[test]
fn full_join_with_an_empty_table_keeps_the_other() {
    let t = ab();
    let u = table("u", 3, vec![column("c"), column("d")]);
    let tabs = [(&t, "t"), (&u, "u")];
    let s = query(vec![item(col("b")), item(col("d"))], reads("t"));
    let on = bin(BinaryOp::Eq, qcol("t", "a"), qcol("u", "c"));
    let f = Functions::none();
    let p = compile_cross_join(&s, &tabs, &tabs, Some(&on), false, true, &f).unwrap().0;
    let mut db = Db::with_rows(2, &[]);
    db.tables.insert(3, Db::with_rows(3, &[&[2, 200]]).tables[&3].clone());
    assert_eq!(run(&p, &mut db), vec![vec![Val::Null, Val::Int(200)]]);
    let mut db = Db::with_rows(2, &[&[1, 10]]);
    db.tables.insert(3, BTreeMap::new());
    assert_eq!(run(&p, &mut db), vec![vec![Val::Int(10), Val::Null]]);
}

fn aggregates() -> Functions {
    Functions {
        scalars: vec![],
        aggregates: vec![
            AggSig { name: name("count"), n_args: 0, window_only: false, kind: AggregateKind(1) },
            AggSig { name: name("sum"), n_args: 1, window_only: false, kind: AggregateKind(2) },
        ],
    }
}

fn call(n: &str, args: FunctionArgs) -> Expr {
    Expr::Function { name: name(n), distinct: false, args, filter: None, over: None }
}

#[test]
fn groups_are_summed_up() {
    let t = ab();
    let mut db = Db::with_rows(2, &[&[2, 5], &[1, 7], &[2, 6], &[1, 1], &[3, 9]]);
    let sum = || call("sum", FunctionArgs::List(vec![col("b")]));
    let count = || call("count", FunctionArgs::Star);
    let mut s = query(vec![item(col("a")), item(sum()), item(count())], reads("t"));
    s.group_by = vec![col("a")];
    let f = aggregates();
    let rows = |s: &SelectStmt, db: &mut Db| {
        let arms: Vec<Result<Source, Error>> = s
            .compound
            .iter()
            .map(|_| Ok(Source { table: Some(ab()), indexes: vec![], arms: vec![] }))
            .collect();
        run(&compile(s, Some(&t), &[], &arms, &f).unwrap().0, db)
    };
    assert_eq!(rows(&s, &mut db), ints(&[&[1, 8, 2], &[2, 11, 2], &[3, 9, 1]]));
    let mut some = s.clone();
    some.having = Some(bin(BinaryOp::Gt, count(), num(1)));
    some.where_clause = Some(bin(BinaryOp::Gt, col("b"), num(1)));
    assert_eq!(rows(&some, &mut db), ints(&[&[2, 11, 2]]));
    let mut sorted = s.clone();
    sorted.order_by = vec![term(num(2), true)];
    sorted.limit = Some(num(2));
    assert_eq!(rows(&sorted, &mut db), ints(&[&[2, 11, 2], &[3, 9, 1]]));
    let whole = query(vec![item(sum()), item(count())], reads("t"));
    assert_eq!(rows(&whole, &mut db), ints(&[&[28, 5]]));
    let mut both = s.clone();
    both.compound = vec![(CompoundOperator::UnionAll, s.clone())];
    let twice = rows(&both, &mut db);
    assert_eq!(twice.len(), 6);
    assert_eq!(twice[..3], twice[3..]);
    both.compound[0].0 = CompoundOperator::Except;
    assert_eq!(rows(&both, &mut db), ints(&[]));
    both.compound[0].0 = CompoundOperator::Intersect;
    assert_eq!(rows(&both, &mut db), ints(&[&[1, 8, 2], &[2, 11, 2], &[3, 9, 1]]));
    assert_eq!(rows(&whole, &mut Db::with_rows(2, &[])), vec![vec![Val::Null, Val::Int(0)]]);
}

#[test]
fn distinct_rows_come_once() {
    let t = ab();
    let mut db = Db::with_rows(2, &[&[2, 5], &[1, 7], &[2, 6], &[1, 1], &[3, 9]]);
    let mut s = query(vec![item(col("a"))], reads("t"));
    s.distinct = true;
    assert_eq!(rows_of(&s, Some(&t), &[], &mut db), ints(&[&[2], &[1], &[3]]));
    s.limit = Some(num(5));
    s.offset = Some(num(1));
    assert_eq!(rows_of(&s, Some(&t), &[], &mut db), ints(&[&[1], &[3]]));
    db.index_on(5, 2, &[0]);
    let ix = [index("i", 5, &["a"])];
    assert_eq!(rows_of(&s, Some(&t), &ix, &mut db), ints(&[&[2], &[3]]));
    s.limit = Some(num(1));
    assert_eq!(rows_of(&s, Some(&t), &ix, &mut db), ints(&[&[2]]));
}

/// `CREATE TABLE t(id INTEGER PRIMARY KEY, v)`
fn keyed() -> Table {
    let mut id = column("id");
    id.affinity = Affinity::Integer;
    id.pk = true;
    let mut t = table("t", 2, vec![id, column("v")]);
    t.rowid_alias = Some(0);
    t
}

#[test]
fn keys_are_given_or_made_up_and_returned() {
    let t = keyed();
    let ix = [index("i", 5, &["v"])];
    let mut db = Db::with_rows(2, &[]);
    db.index_on(5, 2, &[1]);
    let null = || Expr::Literal(Literal::Null);
    let ins = InsertStmt {
        name: name("t"),
        columns: vec![],
        source: InsertSource::Values(vec![
            vec![num(7), num(70)],
            vec![null(), num(80)],
            vec![num(3), num(30)],
        ]),
        returning: Some(vec![item(col("id")), item(col("v")), item(col("rowid"))]),
    };
    let p = compile_insert(&ins, &t, &ix, None, &[], &Functions::none()).unwrap();
    assert_eq!(run(&p, &mut db), ints(&[&[7, 70, 7], &[8, 80, 8], &[3, 30, 3]]));
    let ids: Vec<i64> = db.tables[&2].keys().copied().collect();
    assert_eq!(ids, vec![3, 7, 8]);
    assert_eq!(db.indexes[&5], ints(&[&[30, 3], &[70, 7], &[80, 8]]));
    let s = query(vec![item(col("id")), item(col("v"))], reads("t"));
    assert_eq!(rows_of(&s, Some(&t), &[], &mut db), ints(&[&[3, 30], &[7, 70], &[8, 80]]));
    let mut d = delete();
    d.where_clause = Some(bin(BinaryOp::Lt, num(30), col("v")));
    d.returning = Some(vec![item(col("v")), item(col("id"))]);
    let p = compile_delete(&d, &t, &ix, &Functions::none()).unwrap();
    assert_eq!(run(&p, &mut db), ints(&[&[70, 7], &[80, 8]]));
    assert_eq!(db.indexes[&5], ints(&[&[30, 3]]));
}

#[test]
fn selected_keys_are_stored_as_rowids() {
    let t = keyed();
    let mut db = Db::with_rows(2, &[]);
    let mut ins = insert(&[], arms(row(&[9, 1]), &[(CompoundOperator::UnionAll, &[4, 2])]));
    ins.returning = Some(vec![item(col("id"))]);
    let p = compile_insert(&ins, &t, &[], None, &[], &Functions::none()).unwrap();
    assert_eq!(run(&p, &mut db), ints(&[&[4], &[9]]));
    let ids: Vec<i64> = db.tables[&2].keys().copied().collect();
    assert_eq!(ids, vec![4, 9]);
}

#[test]
fn limited_delete_may_take_nothing() {
    let t = ab();
    let mut db = Db::with_rows(2, &[&[1, 20], &[3, 40]]);
    let mut d = delete();
    d.limit = Some(num(0));
    run(&compile_delete(&d, &t, &[], &Functions::none()).unwrap(), &mut db);
    assert_eq!(db.rows(2).len(), 2);
    d.limit = Some(num(5));
    d.offset = Some(num(1));
    run(&compile_delete(&d, &t, &[], &Functions::none()).unwrap(), &mut db);
    assert_eq!(db.rows(2), ints(&[&[1, 20]]));
    d.offset = None;
    d.where_clause = Some(bin(BinaryOp::Gt, col("a"), num(1)));
    run(&compile_delete(&d, &t, &[], &Functions::none()).unwrap(), &mut db);
    assert_eq!(db.rows(2), ints(&[&[1, 20]]));
}

#[test]
fn order_of_an_index_needs_no_sorter() {
    let mut db = Db::with_rows(2, &[&[7, 3], &[8, 9], &[7, 1]]);
    db.index_on(5, 2, &[1]);
    let mut s = query(vec![item(col("a"))], reads("t"));
    s.order_by = vec![term(col("b"), false)];
    let ix = [index("i", 5, &["b"])];
    let t = ab();
    let (p, _) = compile(&s, Some(&t), &ix, &[], &Functions::none()).unwrap();
    assert!(!opcodes(&p).contains(&name("SorterSort")));
    assert_eq!(run(&p, &mut db), ints(&[&[7], &[7], &[8]]));
}
