//! Statements that change the database.
#[allow(unused_imports)]
use sqlgen::ast::{
    BinaryOp, CompoundOperator, Cte, Expr, FunctionArgs, Join, JoinConstraint, JoinOp, Literal,
    OrderingTerm, ResultColumn, SelectStmt, TableOrJoin, TableRef, UnaryOp, WithClause,
};
#[allow(unused_imports)]
use sqlgen::schema::{AggSig, Column, FuncSig, Functions, IndexColumn, IndexObject, Table};
#[allow(unused_imports)]
use sqlgen::vdbe::{
    Affinity, AggregateKind, Collation, Instruction, KeyField, Opcode, Program, Value, P4,
};
use sqlgen::create::compile_create_table;
use sqlgen::delete::compile_delete;
use sqlgen::drop_index::compile_drop_index_noop;
use sqlgen::insert::compile_insert;
use sqlgen::returning::Returning;
use sqlgen::stmt::{
    ColumnDef, CreateIndex, CreateTable, DeleteStmt, DropIndexStmt, DropTableStmt, IndexedColumn,
    InsertSource, InsertStmt,
};
use sqlgen::{compile_create_index, compile_drop_index, compile_drop_table};

#[allow(dead_code)]
fn name(s: &str) -> String {
    String::from(s)
}

#[allow(dead_code)]
fn col(n: &str) -> Expr {
    Expr::Column { schema: None, table: None, name: name(n) }
}

#[allow(dead_code)]
fn qcol(t: &str, n: &str) -> Expr {
    Expr::Column { schema: None, table: Some(name(t)), name: name(n) }
}

#[allow(dead_code)]
fn num(n: i64) -> Expr {
    Expr::Literal(Literal::Integer(n))
}

#[allow(dead_code)]
fn text(s: &str) -> Expr {
    Expr::Literal(Literal::Text(name(s)))
}

#[allow(dead_code)]
fn bin(op: BinaryOp, l: Expr, r: Expr) -> Expr {
    Expr::Binary { op, left: Box::new(l), right: Box::new(r) }
}

#[allow(dead_code)]
fn item(expr: Expr) -> ResultColumn {
    ResultColumn::Expr { expr, alias: None }
}

#[allow(dead_code)]
fn named(expr: Expr, alias: &str) -> ResultColumn {
    ResultColumn::Expr { expr, alias: Some(name(alias)) }
}

#[allow(dead_code)]
fn query(columns: Vec<ResultColumn>, from: Vec<TableOrJoin>) -> SelectStmt {
    SelectStmt {
        distinct: false,
        columns,
        from,
        where_clause: None,
        group_by: vec![],
        having: None,
        compound: vec![],
        order_by: vec![],
        limit: None,
        offset: None,
        with_clause: None,
        window_clause: vec![],
        values: vec![],
    }
}

#[allow(dead_code)]
fn reads(n: &str) -> Vec<TableOrJoin> {
    vec![TableOrJoin::Table(TableRef { schema: None, name: name(n), alias: None })]
}

#[allow(dead_code)]
fn column(n: &str) -> Column {
    Column {
        name: name(n),
        affinity: Affinity::Blob,
        collation: Collation::Binary,
        notnull: false,
        pk: false,
        default: None,
    }
}

#[allow(dead_code)]
fn table(n: &str, rootpage: u32, columns: Vec<Column>) -> Table {
    Table {
        name: name(n),
        rootpage,
        columns,
        rowid_alias: None,
        without_rowid: false,
        pk_columns: vec![],
    }
}

#[allow(dead_code)]
fn index(n: &str, rootpage: u32, columns: &[&str]) -> IndexObject {
    IndexObject {
        name: name(n),
        rootpage,
        columns: columns
            .iter()
            .map(|c| IndexColumn {
                name: name(c),
                desc: false,
                collation: Collation::Binary,
                expr: None,
            })
            .collect(),
        unique: false,
        where_clause: None,
    }
}

#[allow(dead_code)]
fn listing(p: &Program) -> Vec<String> {
    p.instructions
        .iter()
        .enumerate()
        .map(|(at, i)| {
            let p4 = match &i.p4 {
                P4::Unused => String::from("None"),
                other => format!("{:?}", other),
            };
            format!("{} {:?} {} {} {} {} {}", at, i.opcode, i.p1, i.p2, i.p3, p4, i.p5)
        })
        .collect()
}

#[allow(dead_code)]
fn opcodes(p: &Program) -> Vec<String> {
    p.instructions.iter().map(|i| format!("{:?}", i.opcode)).collect()
}

/// `CREATE TABLE t(a, b)`
fn plain_table(rootpage: u32, names: &[&str]) -> Table {
    table("t", rootpage, names.iter().map(|n| column(n)).collect())
}

/// `CREATE TABLE t(id INTEGER PRIMARY KEY, v)`
fn keyed_table(v: Column) -> Table {
    let mut id = column("id");
    id.affinity = Affinity::Integer;
    id.pk = true;
    let mut t = table("t", 2, vec![id, v]);
    t.rowid_alias = Some(0);
    t
}

fn insert(columns: &[&str], source: InsertSource) -> InsertStmt {
    InsertStmt {
        name: name("t"),
        columns: columns.iter().map(|c| name(c)).collect(),
        source,
        returning: None,
    }
}

fn delete(where_clause: Option<Expr>) -> DeleteStmt {
    DeleteStmt {
        schema: None,
        name: name("t"),
        where_clause,
        order_by: vec![],
        limit: None,
        offset: None,
        returning: None,
    }
}

fn insert_program(ins: &InsertStmt, t: &Table) -> Program {
    compile_insert(ins, t, &[], None, &[], &Functions::none()).unwrap()
}

fn count(names: &[String], n: &str) -> usize {
    names.iter().filter(|x| x.as_str() == n).count()
}

fn has(names: &[String], n: &str) -> bool {
    count(names, n) > 0
}

fn create_of(columns: &[&str]) -> CreateTable {
    CreateTable {
        name: name("t"),
        temporary: false,
        columns: columns
            .iter()
            .map(|c| ColumnDef { name: name(c), ty: None, constraints: vec![] })
            .collect(),
    }
}

#[test]
fn create_program_shape() {
    let ct = create_of(&["a", "b"]);
    let prog = compile_create_table(&ct, "CREATE TABLE t(a, b)", 0).unwrap();
    let names = opcodes(&prog);
    assert!(has(&names, "Transaction"));
    assert!(has(&names, "CreateBtree"));
    assert!(has(&names, "MakeRecord"));
    assert!(has(&names, "NewRowid"));
    assert!(has(&names, "Insert"));
    assert!(has(&names, "SetCookie"));
    assert!(has(&names, "Halt"));

    let txn = prog.instructions.iter().find(|i| i.opcode == Opcode::Transaction).unwrap();
    assert_eq!(txn.p2, 1);

    let sc = prog.instructions.iter().find(|i| i.opcode == Opcode::SetCookie).unwrap();
    assert_eq!(sc.p3, 1);
}

#[test]
fn unfiltered_delete_walks_table() {
    let t = plain_table(100, &["a", "b"]);
    let d = delete(None);
    let prog = compile_delete(&d, &t, &[], &Functions::none()).unwrap();
    let names = opcodes(&prog);
    assert!(has(&names, "OpenWrite"));
    assert!(has(&names, "Rewind"));
    assert!(has(&names, "Next"));
    assert!(has(&names, "Delete"));
    assert!(has(&names, "Halt"));
    assert!(has(&names, "Transaction"));
}

#[test]
fn where_filter_emits_jump() {
    let t = plain_table(100, &["a", "b"]);
    let d = delete(Some(bin(BinaryOp::Gt, col("a"), num(1))));
    let prog = compile_delete(&d, &t, &[], &Functions::none()).unwrap();
    let cmp = prog
        .instructions
        .iter()
        .find(|i| matches!(i.opcode, Opcode::Gt | Opcode::Ge | Opcode::Lt | Opcode::Le))
        .expect("expected a comparison opcode for the WHERE");
    assert!(cmp.p2 > 0, "comparison must jump to a non-zero label");
}

#[test]
fn positional_insert_uses_newrowid() {
    let t = plain_table(2, &["a", "b"]);
    let ins = insert(
        &[],
        InsertSource::Values(vec![vec![num(1), text("x")], vec![num(2), text("y")]]),
    );
    let prog = insert_program(&ins, &t);
    let names = opcodes(&prog);
    assert!(has(&names, "OpenWrite"));
    assert_eq!(count(&names, "NewRowid"), 2);
    assert_eq!(count(&names, "Insert"), 2);
    let txn = prog.instructions.iter().find(|i| i.opcode == Opcode::Transaction).unwrap();
    assert_eq!(txn.p2, 1);
}

#[test]
fn rowid_alias_guards_newrowid_with_notnull() {
    let t = keyed_table(column("v"));
    let ins = insert(&[], InsertSource::Values(vec![vec![num(5), text("x")]]));
    let names = opcodes(&insert_program(&ins, &t));
    assert!(has(&names, "NotNull"));
    assert_eq!(count(&names, "NewRowid"), 1);
    assert_eq!(count(&names, "Insert"), 1);
}

#[test]
fn explicit_column_list_maps_values() {
    let t = plain_table(2, &["a", "b", "c"]);
    let ins = insert(&["b", "a"], InsertSource::Values(vec![vec![num(10), num(20)]]));
    let prog = insert_program(&ins, &t);
    let null_count = prog.instructions.iter().filter(|i| i.opcode == Opcode::Null).count();
    assert!(null_count >= 1, "unlisted column should load NULL");
}

#[test]
fn default_values_uses_column_defaults() {
    let mut a = column("a");
    a.affinity = Affinity::Integer;
    a.default = Some(num(42));
    let mut b = column("b");
    b.affinity = Affinity::Text;
    b.default = Some(text("hi"));
    let t = table("t", 2, vec![a, b, column("c")]);
    let prog = insert_program(&insert(&[], InsertSource::DefaultValues), &t);
    let names = opcodes(&prog);
    assert!(has(&names, "OpenWrite"));
    assert_eq!(count(&names, "NewRowid"), 1);
    assert_eq!(count(&names, "Insert"), 1);
    assert!(prog.instructions.iter().any(|i| { i.opcode == Opcode::Integer && i.p1 == 42 }));
    assert!(prog.instructions.iter().any(|i| matches!(
        i.p4,
        P4::Text(ref s) if s == "hi"
    )));
}

#[test]
fn default_values_rowid_alias_auto_assigns() {
    let mut v = column("v");
    v.affinity = Affinity::Integer;
    v.default = Some(num(7));
    let t = keyed_table(v);
    let names = opcodes(&insert_program(&insert(&[], InsertSource::DefaultValues), &t));
    assert!(has(&names, "NotNull"));
    assert_eq!(count(&names, "NewRowid"), 1);
    assert_eq!(count(&names, "Insert"), 1);
}

#[test]
fn star_expands_to_stored_columns() {
    let t = plain_table(100, &["a", "b", "c"]);
    let ret = Returning::new(&vec![ResultColumn::Star], &t).unwrap();
    assert_eq!(ret.column_names(), vec!["a", "b", "c"]);
}

#[test]
fn rowid_explicitly_selectable() {
    let t = plain_table(100, &["a", "b"]);
    let ret = Returning::new(&vec![item(col("rowid")), item(col("a"))], &t).unwrap();
    assert_eq!(ret.column_names(), vec!["rowid", "a"]);
}

#[test]
fn create_table_is_refused_or_entered() {
    let mut ct = create_of(&["a"]);
    ct.temporary = true;
    let e = compile_create_table(&ct, "", 0).unwrap_err();
    assert_eq!(e.message(), "TEMP tables are not supported yet");
    let e = compile_create_table(&create_of(&[]), "", 0).unwrap_err();
    assert_eq!(e.message(), "table t must have at least one column");
    let p = compile_create_table(&create_of(&["a"]), "SQL", 4).unwrap();
    assert_eq!(
        listing(&p),
        vec![
            "0 Init 0 15 0 None 0",
            "1 Transaction 0 1 0 None 0",
            "2 CreateBtree 0 1 1 None 0",
            "3 String8 0 2 0 Text(\"table\") 0",
            "4 String8 0 3 0 Text(\"t\") 0",
            "5 String8 0 4 0 Text(\"t\") 0",
            "6 SCopy 1 5 0 None 0",
            "7 String8 0 6 0 Text(\"SQL\") 0",
            "8 MakeRecord 2 5 7 None 0",
            "9 OpenWrite 0 1 0 None 0",
            "10 NewRowid 0 8 0 None 0",
            "11 Insert 0 7 8 None 0",
            "12 SetCookie 0 1 5 None 0",
            "13 ParseSchema 0 0 0 None 0",
            "14 Halt 0 0 0 None 0",
            "15 Goto 0 1 0 None 0",
        ]
    );
}

fn create_index(schema: Option<&str>, column: &str) -> CreateIndex {
    CreateIndex {
        schema: schema.map(name),
        name: name("i"),
        table: name("t"),
        unique: true,
        columns: vec![IndexedColumn {
            name: name(column),
            desc: true,
            collation: None,
            expr: None,
        }],
        where_clause: None,
    }
}

#[test]
fn create_index_fills_the_index() {
    let t = plain_table(2, &["a", "b"]);
    let p = compile_create_index(&create_index(None, "B"), &t, "SQL", 4).unwrap();
    assert_eq!(
        listing(&p),
        vec![
            "0 Init 0 23 0 None 0",
            "1 Transaction 0 1 0 None 0",
            "2 CreateBtree 0 1 0 None 0",
            "3 OpenWriteReg 1 1 0 KeyInfo([KeyField { desc: true, collation: Binary }]) 0",
            "4 OpenRead 2 2 0 Int(2) 0",
            "5 Rewind 2 11 0 None 0",
            "6 Column 2 1 2 None 0",
            "7 Rowid 2 3 0 None 0",
            "8 MakeRecord 2 2 4 None 0",
            "9 IdxInsert 1 4 0 Text(\"UNIQUE constraint failed: t.B\") 3",
            "10 Next 2 6 0 None 0",
            "11 String8 0 5 0 Text(\"index\") 0",
            "12 String8 0 6 0 Text(\"i\") 0",
            "13 String8 0 7 0 Text(\"t\") 0",
            "14 SCopy 1 8 0 None 0",
            "15 String8 0 9 0 Text(\"SQL\") 0",
            "16 MakeRecord 5 5 10 None 0",
            "17 OpenWrite 0 1 0 None 0",
            "18 NewRowid 0 11 0 None 0",
            "19 Insert 0 10 11 None 0",
            "20 SetCookie 0 1 5 None 0",
            "21 ParseSchema 0 0 0 None 0",
            "22 Halt 0 0 0 None 0",
            "23 Goto 0 1 0 None 0",
        ]
    );
    let e = compile_create_index(&create_index(Some("main"), "b"), &t, "", 0).unwrap_err();
    assert_eq!(e.message(), "schema-qualified CREATE INDEX is not yet supported");
    let e = compile_create_index(&create_index(None, "z"), &t, "", 0).unwrap_err();
    assert_eq!(e.message(), "index i references unknown column z on table t");
}

#[test]
fn index_columns_take_the_collation_of_the_table() {
    let mut b = column("b");
    b.collation = Collation::NoCase;
    let t = table("t", 2, vec![column("a"), b]);
    let ix = IndexObject::from_create_and_table(&create_index(None, "b"), 7, &t);
    assert_eq!(ix.rootpage, 7);
    assert_eq!(ix.columns[0].collation, Collation::NoCase);
    assert!(ix.columns[0].desc);
}

#[test]
fn drop_table_takes_it_out_of_the_catalog() {
    let t = plain_table(2, &["a"]);
    let drop = DropTableStmt { name: name("t"), if_exists: false };
    let p = compile_drop_table(&drop, 4, Some(&t)).unwrap();
    assert_eq!(
        listing(&p),
        vec![
            "0 Init 0 13 0 None 0",
            "1 Transaction 0 1 0 None 0",
            "2 Destroy 2 0 0 None 0",
            "3 OpenWrite 0 1 0 None 0",
            "4 Rewind 0 10 0 None 0",
            "5 Column 0 1 1 None 0",
            "6 String8 0 2 0 Text(\"t\") 0",
            "7 Ne 2 9 1 None 0",
            "8 Delete 0 0 0 None 0",
            "9 Next 0 5 0 None 0",
            "10 SetCookie 0 1 5 None 0",
            "11 ParseSchema 0 0 0 None 0",
            "12 Halt 0 0 0 None 0",
            "13 Goto 0 1 0 None 0",
        ]
    );
    let e = compile_drop_table(&drop, 4, None).unwrap_err();
    assert_eq!(e.message(), "no such table: t");
    let lenient = DropTableStmt { name: name("t"), if_exists: true };
    let p = compile_drop_table(&lenient, 4, None).unwrap();
    assert_eq!(opcodes(&p), vec!["Init", "Transaction", "Halt", "Goto"]);
}

#[test]
fn drop_index_seeks_its_row() {
    let drop = DropIndexStmt { schema: None, name: name("i"), if_exists: false };
    let ix = index("i", 5, &["a"]);
    let p = compile_drop_index(&drop, Some(&ix), 4, 9).unwrap();
    assert_eq!(
        listing(&p),
        vec![
            "0 Init 0 10 0 None 0",
            "1 Transaction 0 1 0 None 0",
            "2 Destroy 5 0 0 None 0",
            "3 OpenWrite 0 1 0 None 0",
            "4 Int64 0 1 0 Int(9) 0",
            "5 NotExists 0 7 1 None 0",
            "6 Delete 0 0 0 None 4",
            "7 SetCookie 0 1 5 None 0",
            "8 ParseSchema 0 0 0 None 0",
            "9 Halt 0 0 0 None 0",
            "10 Goto 0 1 0 None 0",
        ]
    );
    let p = compile_drop_index(&drop, None, 4, 0).unwrap();
    assert_eq!(listing(&p), listing(&compile_drop_index_noop()));
    assert_eq!(opcodes(&p), vec!["Init", "Halt", "Goto"]);
    let main = DropIndexStmt { schema: Some(name("MAIN")), name: name("i"), if_exists: false };
    assert_eq!(listing(&compile_drop_index(&main, Some(&ix), 4, 9).unwrap()).len(), 11);
    let named = DropIndexStmt { schema: Some(name("temp")), name: name("i"), if_exists: false };
    let e = compile_drop_index(&named, Some(&ix), 4, 9).unwrap_err();
    assert_eq!(e.message(), "schema-qualified DROP INDEX is not yet supported");
}

#[test]
fn insert_maintains_its_indexes() {
    let t = plain_table(2, &["a", "b"]);
    let ins = insert(&["b"], InsertSource::Values(vec![vec![num(1)]]));
    let ix = [index("i", 5, &["b"])];
    let p = compile_insert(&ins, &t, &ix, None, &[], &Functions::none()).unwrap();
    assert_eq!(
        listing(&p),
        vec![
            "0 Init 0 14 0 None 0",
            "1 Transaction 0 1 0 None 0",
            "2 OpenWrite 0 2 0 None 0",
            "3 OpenWrite 1 5 0 KeyInfo([KeyField { desc: false, collation: Binary }]) 0",
            "4 Null 0 1 0 None 0",
            "5 Integer 1 2 0 None 0",
            "6 NewRowid 0 3 0 None 0",
            "7 MakeRecord 1 2 4 None 0",
            "8 Insert 0 4 3 None 0",
            "9 SCopy 2 5 0 None 0",
            "10 SCopy 3 6 0 None 0",
            "11 MakeRecord 5 2 7 None 0",
            "12 IdxInsert 1 7 0 Int(0) 1",
            "13 Halt 0 0 0 None 0",
            "14 Goto 0 1 0 None 0",
        ]
    );
}

fn keyed_by_b() -> Table {
    let mut k = plain_table(2, &["a", "b"]);
    k.without_rowid = true;
    k.pk_columns = vec![(1, false)];
    k
}

#[test]
fn insert_without_rowid_stores_the_key_first() {
    let k = keyed_by_b();
    let ins = insert(&[], InsertSource::Values(vec![vec![num(1), num(2)]]));
    assert_eq!(
        listing(&insert_program(&ins, &k)),
        vec![
            "0 Init 0 11 0 None 0",
            "1 Transaction 0 1 0 None 0",
            "2 OpenWrite 0 2 0 KeyInfo([KeyField { desc: false, collation: Binary }]) 0",
            "3 Integer 1 1 0 None 0",
            "4 Integer 2 2 0 None 0",
            "5 HaltIfNull 0 0 2 Text(\"NOT NULL constraint failed: t.b\") 0",
            "6 SCopy 2 3 0 None 0",
            "7 SCopy 1 4 0 None 0",
            "8 MakeRecord 3 2 5 None 0",
            "9 IdxInsert 0 5 0 Text(\"UNIQUE constraint failed: t.b\") 3",
            "10 Halt 0 0 0 None 0",
            "11 Goto 0 1 0 None 0",
        ]
    );
    let names = opcodes(&insert_program(&insert(&[], InsertSource::DefaultValues), &k));
    assert_eq!(count(&names, "Null"), 2);
    let sel = InsertSource::Select(Box::new(query(vec![item(num(1)), item(num(2))], vec![])));
    let e = compile_insert(&insert(&[], sel), &k, &[], None, &[], &Functions::none()).unwrap_err();
    assert_eq!(
        e.message(),
        "INSERT ... SELECT into a WITHOUT ROWID table is not supported yet"
    );
}

#[test]
fn stored_columns_have_places_of_their_own() {
    let k = keyed_by_b();
    assert_eq!(k.without_rowid_storage_width(), 2);
    assert_eq!(k.without_rowid_storage_index(0), 1);
    assert_eq!(k.without_rowid_storage_index(1), 0);
}

#[test]
fn insert_select_stages_its_rows() {
    let t = plain_table(2, &["a", "b"]);
    let sel = InsertSource::Select(Box::new(query(vec![item(num(1)), item(num(2))], vec![])));
    let names = opcodes(&insert_program(&insert(&[], sel), &t));
    assert_eq!(count(&names, "SorterInsert"), 1);
    assert_eq!(count(&names, "ResultRow"), 0);
    assert_eq!(count(&names, "Insert"), 1);
}

#[test]
fn insert_errors() {
    let t = plain_table(2, &["a", "b"]);
    let message = |ins: &InsertStmt| {
        compile_insert(ins, &t, &[], None, &[], &Functions::none()).unwrap_err().message()
    };
    let short = insert(&[], InsertSource::Values(vec![vec![num(1)]]));
    assert_eq!(message(&short), "table t has 2 columns but 1 values were supplied");
    let unknown = insert(&["z"], InsertSource::Values(vec![vec![num(1)]]));
    assert_eq!(message(&unknown), "table t has no column named z");
    let empty = insert(&[], InsertSource::Values(vec![]));
    assert_eq!(message(&empty), "INSERT must supply at least one VALUES row");
    let mut ret = insert(&[], InsertSource::Values(vec![vec![num(1), num(2)]]));
    ret.returning = Some(vec![ResultColumn::TableStar(name("u"))]);
    assert_eq!(message(&ret), "RETURNING may not use \"TABLE.*\" wildcards");
}

#[test]
fn returned_rows_come_last() {
    let t = plain_table(2, &["a", "b"]);
    let mut ins = insert(&[], InsertSource::Values(vec![vec![num(1), num(2)]]));
    ins.returning = Some(vec![item(col("a"))]);
    let l = listing(&insert_program(&ins, &t));
    assert_eq!(l[3], "3 OpenEphemeral 1 1 0 None 0");
    assert_eq!(l[9], "9 SCopy 2 1 0 None 0");
    assert_eq!(l[13], "13 Rewind 1 17 0 None 0");
    assert_eq!(l[15], "15 ResultRow 1 1 0 None 0");
}

#[test]
fn delete_takes_index_entries_first() {
    let t = plain_table(2, &["a", "b"]);
    let d = delete(Some(bin(BinaryOp::Gt, col("a"), num(1))));
    let p = compile_delete(&d, &t, &[index("i", 5, &["b"])], &Functions::none()).unwrap();
    assert_eq!(
        listing(&p),
        vec![
            "0 Init 0 17 0 None 0",
            "1 Transaction 0 1 0 None 0",
            "2 OpenWrite 0 2 0 None 0",
            "3 OpenWrite 1 5 0 KeyInfo([KeyField { desc: false, collation: Binary }]) 0",
            "4 Rewind 0 16 0 None 0",
            "5 Column 0 0 1 None 0",
            "6 Integer 1 2 0 None 0",
            "7 Le 2 15 1 None 17",
            "8 Rowid 0 3 0 None 0",
            "9 Column 0 0 4 None 0",
            "10 Column 0 1 5 None 0",
            "11 Column 0 1 6 None 0",
            "12 SCopy 3 7 0 None 0",
            "13 IdxDelete 1 6 2 None 0",
            "14 Delete 0 0 0 None 0",
            "15 Next 0 5 0 None 0",
            "16 Halt 0 0 0 None 0",
            "17 Goto 0 1 0 None 0",
        ]
    );
}

#[test]
fn delete_errors() {
    let t = plain_table(2, &["a", "b"]);
    let f = Functions::none();
    let mut d = delete(None);
    d.schema = Some(name("main"));
    let e = compile_delete(&d, &t, &[], &f).unwrap_err();
    assert_eq!(e.message(), "schema-qualified DELETE is not yet supported");
    let e = compile_delete(&delete(None), &keyed_by_b(), &[], &f).unwrap_err();
    assert_eq!(e.message(), "DELETE on a WITHOUT ROWID table is not supported yet");
    let mut d = delete(None);
    d.order_by = vec![OrderingTerm { expr: col("a"), desc: false, nulls: None }];
    let e = compile_delete(&d, &t, &[], &f).unwrap_err();
    assert_eq!(e.message(), "ORDER BY without LIMIT on DELETE");
}
