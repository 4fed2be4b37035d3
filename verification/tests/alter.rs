//! `ALTER TABLE`: names, texts, checks and programs.
use sqlgen::alter::{
    compile_alter_add_column, compile_alter_rename_table, dequote_ident, extract_add_column_text,
    rewrite_table_name_in_sql, splice_column_into_create_table, validate_add_column, SchemaRowEdit,
};
use sqlgen::ast::{Expr, Literal};
use sqlgen::stmt::{AlterAction, AlterTableStmt, ColumnConstraint, ColumnDef};
use sqlgen::vdbe::{Program, P4};

#[test]
fn rewrite_create_table_bare_name() {
    let out = rewrite_table_name_in_sql("CREATE TABLE t(a, b)", "t", "u").unwrap();
    assert_eq!(out, "CREATE TABLE u(a, b)");
}

#[test]
fn rewrite_create_table_quoted_name() {
    let out = rewrite_table_name_in_sql("CREATE TABLE \"t\"(a, b)", "t", "u").unwrap();
    assert_eq!(out, "CREATE TABLE \"u\"(a, b)");
}

#[test]
fn rewrite_create_table_if_not_exists() {
    let out =
        rewrite_table_name_in_sql("CREATE TABLE IF NOT EXISTS t(a)", "t", "u").unwrap();
    assert_eq!(out, "CREATE TABLE IF NOT EXISTS u(a)");
}

#[test]
fn rewrite_create_index_table_target() {
    let out = rewrite_table_name_in_sql(
        "CREATE INDEX idx_a ON t(a)",
        "t",
        "u",
    )
    .unwrap();
    assert_eq!(out, "CREATE INDEX idx_a ON u(a)");
}

#[test]
fn rewrite_create_unique_index_if_not_exists() {
    let out = rewrite_table_name_in_sql(
        "CREATE UNIQUE INDEX IF NOT EXISTS idx ON t(a)",
        "t",
        "u",
    )
    .unwrap();
    assert_eq!(out, "CREATE UNIQUE INDEX IF NOT EXISTS idx ON u(a)");
}

#[test]
fn rewrite_preserves_rest_of_sql() {
    let out = rewrite_table_name_in_sql(
        "CREATE TABLE t(a INTEGER PRIMARY KEY, b TEXT)",
        "t",
        "new_tbl",
    )
    .unwrap();
    assert_eq!(
        out,
        "CREATE TABLE new_tbl(a INTEGER PRIMARY KEY, b TEXT)"
    );
}

#[test]
fn rewrite_returns_none_when_name_does_not_match() {
    assert!(rewrite_table_name_in_sql("CREATE TABLE t(a)", "other", "u").is_none());
}

#[test]
fn dequote_ident_bare() {
    assert_eq!(dequote_ident("t"), "t");
}

#[test]
fn dequote_ident_double_quotes() {
    assert_eq!(dequote_ident("\"My Table\""), "My Table");
}

#[test]
fn dequote_ident_backticks() {
    assert_eq!(dequote_ident("`My Table`"), "My Table");
}

#[test]
fn dequote_ident_brackets() {
    assert_eq!(dequote_ident("[My Table]"), "My Table");
}

#[test]
fn dequote_ident_doubled_quotes() {
    assert_eq!(dequote_ident("\"a\"\"b\""), "a\"b");
}

#[test]
fn rewrite_quoted_table_name() {
    let out = rewrite_table_name_in_sql(
        "CREATE TABLE \"My Table\"(a)",
        "My Table",
        "Other Name",
    )
    .unwrap();
    assert_eq!(out, "CREATE TABLE \"Other Name\"(a)");
}

#[test]
fn splice_column_basic() {
    let out = splice_column_into_create_table("CREATE TABLE t(a)", "b TEXT").unwrap();
    assert_eq!(out, "CREATE TABLE t(a, b TEXT)");
}

#[test]
fn splice_column_with_existing_columns() {
    let out = splice_column_into_create_table("CREATE TABLE t(a, b INTEGER)", "c TEXT").unwrap();
    assert_eq!(out, "CREATE TABLE t(a, b INTEGER, c TEXT)");
}

#[test]
fn splice_column_with_varchar_n() {
    // The `)` inside `VARCHAR(10)` must not confuse the paren matcher.
    let out = splice_column_into_create_table(
        "CREATE TABLE t(a VARCHAR(10))",
        "b TEXT",
    )
    .unwrap();
    assert_eq!(out, "CREATE TABLE t(a VARCHAR(10), b TEXT)");
}

#[test]
fn splice_column_without_rowid() {
    let out = splice_column_into_create_table(
        "CREATE TABLE t(a PRIMARY KEY) WITHOUT ROWID",
        "b TEXT",
    )
    .unwrap();
    assert_eq!(out, "CREATE TABLE t(a PRIMARY KEY, b TEXT) WITHOUT ROWID");
}

#[test]
fn extract_add_column_text_basic() {
    let out = extract_add_column_text("ALTER TABLE t ADD COLUMN b TEXT").unwrap();
    assert_eq!(out, "b TEXT");
}

#[test]
fn extract_add_column_text_without_keyword() {
    let out = extract_add_column_text("ALTER TABLE t ADD b TEXT").unwrap();
    assert_eq!(out, "b TEXT");
}

#[test]
fn extract_add_column_text_with_default() {
    let out =
        extract_add_column_text("ALTER TABLE t ADD COLUMN b INTEGER DEFAULT 42").unwrap();
    assert_eq!(out, "b INTEGER DEFAULT 42");
}

#[test]
fn extract_add_column_text_strips_semicolon() {
    let out = extract_add_column_text("ALTER TABLE t ADD COLUMN b TEXT;").unwrap();
    assert_eq!(out, "b TEXT");
}

fn line(i: &sqlgen::vdbe::Instruction) -> String {
    let p4 = match &i.p4 {
        P4::Unused => String::from("-"),
        other => format!("{:?}", other),
    };
    format!("{:?} {} {} {} {} {}", i.opcode, i.p1, i.p2, i.p3, p4, i.p5)
}

fn listing(p: &Program) -> Vec<String> {
    p.instructions.iter().map(line).collect()
}

fn rename_of(schema: Option<&str>) -> AlterTableStmt {
    AlterTableStmt {
        schema: schema.map(String::from),
        name: String::from("t"),
        action: AlterAction::RenameTo(String::from("u")),
    }
}

fn column(constraints: Vec<ColumnConstraint>) -> ColumnDef {
    ColumnDef { name: String::from("b"), ty: Some(String::from("TEXT")), constraints }
}

#[test]
fn rewrite_keeps_backticks_and_brackets() {
    let out = rewrite_table_name_in_sql("CREATE TABLE `t`(a)", "t", "u`v").unwrap();
    assert_eq!(out, "CREATE TABLE `u``v`(a)");
    let out = rewrite_table_name_in_sql("CREATE TABLE [t](a)", "t", "u v").unwrap();
    assert_eq!(out, "CREATE TABLE [u v](a)");
}

#[test]
fn rewrite_undoes_itself() {
    let sql = "CREATE TABLE \"a\"\"b\"(x)";
    let there = rewrite_table_name_in_sql(sql, "a\"b", "c").unwrap();
    assert_eq!(there, "CREATE TABLE \"c\"(x)");
    assert_eq!(rewrite_table_name_in_sql(&there, "c", "a\"b").unwrap(), sql);
    let sql = "CREATE TABLE t(x)";
    let there = rewrite_table_name_in_sql(sql, "t", "u2").unwrap();
    assert_eq!(rewrite_table_name_in_sql(&there, "u2", "t").unwrap(), sql);
    let sql = "CREATE UNIQUE INDEX IF NOT EXISTS \"on\" ON t(x)";
    let there = rewrite_table_name_in_sql(sql, "t", "if").unwrap();
    assert_eq!(there, "CREATE UNIQUE INDEX IF NOT EXISTS \"on\" ON if(x)");
    assert_eq!(rewrite_table_name_in_sql(&there, "if", "t").unwrap(), sql);
    let sql = "CREATE TRIGGER r AFTER INSERT ON[t] BEGIN SELECT 1; END";
    let there = rewrite_table_name_in_sql(sql, "t", "a b").unwrap();
    assert_eq!(rewrite_table_name_in_sql(&there, "a b", "t").unwrap(), sql);
}

#[test]
fn rewrite_matches_bare_names_in_any_case_and_quoted_ones_exactly() {
    let out = rewrite_table_name_in_sql("create table T(a)", "t", "u").unwrap();
    assert_eq!(out, "create table u(a)");
    assert!(rewrite_table_name_in_sql("CREATE TABLE \"T\"(a)", "t", "u").is_none());
    assert!(rewrite_table_name_in_sql("CREATE TABLE [T](a)", "t", "u").is_none());
}

#[test]
fn rewrite_finds_temporary_tables_and_triggers() {
    let out = rewrite_table_name_in_sql("CREATE TEMPORARY TABLE t(a)", "t", "u").unwrap();
    assert_eq!(out, "CREATE TEMPORARY TABLE u(a)");
    let out = rewrite_table_name_in_sql("CREATE TEMP TABLE t(a)", "t", "u").unwrap();
    assert_eq!(out, "CREATE TEMP TABLE u(a)");
    let out = rewrite_table_name_in_sql(
        "CREATE TRIGGER contents AFTER INSERT ON t BEGIN SELECT 1; END",
        "t",
        "u",
    )
    .unwrap();
    assert_eq!(out, "CREATE TRIGGER contents AFTER INSERT ON u BEGIN SELECT 1; END");
}

#[test]
fn rewrite_gives_up_on_other_texts() {
    assert!(rewrite_table_name_in_sql("SELECT 1", "t", "u").is_none());
    assert!(rewrite_table_name_in_sql("CREATE VIEW t AS SELECT 1", "t", "u").is_none());
    assert!(rewrite_table_name_in_sql("CREATE TABLE ", "t", "u").is_none());
    assert!(rewrite_table_name_in_sql("CREATE TABLE [t(a)", "t", "u").is_none());
    assert!(rewrite_table_name_in_sql("CREATE INDEX i", "t", "u").is_none());
    assert!(rewrite_table_name_in_sql("CREATE TABLE \"", "t", "u").is_none());
    assert!(rewrite_table_name_in_sql("CREATE TABLE \"tx", "t", "u").is_none());
    assert!(rewrite_table_name_in_sql("CREATE TABLE \"t", "t", "u").is_none());
    assert!(rewrite_table_name_in_sql("CREATE TABLE `t\u{e9}", "t", "u").is_none());
}

#[test]
fn dequoting_leaves_half_quoted_names() {
    assert_eq!(dequote_ident("\"a"), "\"a");
    assert_eq!(dequote_ident("[a"), "[a");
    assert_eq!(dequote_ident("\""), "\"");
    assert_eq!(dequote_ident("\"\""), "");
    assert_eq!(dequote_ident("`a``b`"), "a`b");
    assert_eq!(dequote_ident("[a]]"), "a]");
    assert_eq!(dequote_ident("\"\"\"\""), "\"");
}

#[test]
fn splice_skips_strings_and_blanks() {
    let out = splice_column_into_create_table(
        "CREATE TABLE t(a DEFAULT 'it''s )', b   \n)",
        "c",
    )
    .unwrap();
    assert_eq!(out, "CREATE TABLE t(a DEFAULT 'it''s )', b, c)");
    let out = splice_column_into_create_table("CREATE TABLE \"x(y\" (a)", "b").unwrap();
    assert_eq!(out, "CREATE TABLE \"x(y\" (a, b)");
    assert!(splice_column_into_create_table("CREATE TABLE t(a", "b").is_none());
    assert!(splice_column_into_create_table("CREATE TABLE t AS SELECT 1", "b").is_none());
    assert!(splice_column_into_create_table("CREATE INDEX i ON t(a)", "b").is_none());
}

#[test]
fn extract_needs_the_keyword_and_a_definition() {
    assert!(extract_add_column_text("ALTER TABLE t RENAME TO u").is_none());
    assert!(extract_add_column_text("ALTER TABLE t ADD COLUMN ;").is_none());
    assert!(extract_add_column_text("ALTER TABLE t ADD").is_none());
    assert_eq!(
        extract_add_column_text("ALTER TABLE t ADD column1 TEXT").unwrap(),
        "column1 TEXT"
    );
    assert_eq!(
        extract_add_column_text("ALTER TABLE address ADD\tCOLUMN\n b\u{a0} ; ").unwrap(),
        "b"
    );
}

#[test]
fn added_columns_are_checked() {
    assert!(validate_add_column(&column(vec![])).is_ok());
    assert!(validate_add_column(&column(vec![ColumnConstraint::Collate(String::from("NOCASE"))]))
        .is_ok());
    let pk = validate_add_column(&column(vec![
        ColumnConstraint::Unique,
        ColumnConstraint::PrimaryKey,
    ]));
    assert_eq!(pk.unwrap_err().message(), "Cannot add a PRIMARY KEY column");
    let unique = validate_add_column(&column(vec![
        ColumnConstraint::NotNull,
        ColumnConstraint::Unique,
    ]));
    assert_eq!(unique.unwrap_err().message(), "Cannot add a UNIQUE column");
    let bare = validate_add_column(&column(vec![ColumnConstraint::NotNull]));
    assert_eq!(
        bare.unwrap_err().message(),
        "Cannot add a NOT NULL column with default value NULL"
    );
    let null = validate_add_column(&column(vec![
        ColumnConstraint::NotNull,
        ColumnConstraint::Default(Expr::Literal(Literal::Null)),
    ]));
    assert_eq!(
        null.unwrap_err().message(),
        "Cannot add a NOT NULL column with default value NULL"
    );
    let fine = validate_add_column(&column(vec![
        ColumnConstraint::NotNull,
        ColumnConstraint::Default(Expr::Literal(Literal::Integer(0))),
    ]));
    assert!(fine.is_ok());
}

#[test]
fn rename_program_rewrites_each_row() {
    let edits = vec![
        SchemaRowEdit {
            rowid: 3,
            new_name: Some(String::from("u")),
            new_tbl_name: Some(String::from("u")),
            new_sql: None,
        },
    ];
    let p = compile_alter_rename_table(&rename_of(None), 7, &edits).unwrap();
    assert_eq!(
        listing(&p),
        vec![
            "Init 0 18 0 - 0",
            "Transaction 0 1 0 - 0",
            "OpenWrite 0 1 0 - 0",
            "Int64 0 1 0 Int(3) 0",
            "NotExists 0 15 1 - 0",
            "Column 0 0 2 - 0",
            "Column 0 1 3 - 0",
            "Column 0 2 4 - 0",
            "Column 0 3 5 - 0",
            "Column 0 4 6 - 0",
            "String8 0 3 0 Text(\"u\") 0",
            "String8 0 4 0 Text(\"u\") 0",
            "MakeRecord 2 5 7 - 0",
            "Delete 0 0 0 - 4",
            "Insert 0 7 1 - 4",
            "SetCookie 0 1 8 - 0",
            "ParseSchema 0 0 0 - 0",
            "Halt 0 0 0 - 0",
            "Goto 0 1 0 - 0",
        ]
    );
}

#[test]
fn cookie_wraps_around() {
    let p = compile_alter_rename_table(&rename_of(None), u32::MAX, &[]).unwrap();
    assert_eq!(listing(&p)[3], "SetCookie 0 1 0 - 0");
    let p = compile_alter_rename_table(&rename_of(None), 0x7fff_ffff, &[]).unwrap();
    assert_eq!(listing(&p)[3], "SetCookie 0 1 -2147483648 - 0");
}

#[test]
fn alter_refuses_a_schema_name() {
    let e = compile_alter_rename_table(&rename_of(Some("main")), 0, &[]).unwrap_err();
    assert_eq!(e.message(), "schema-qualified ALTER TABLE is not yet supported");
    let e = compile_alter_add_column(&rename_of(Some("main")), 0, 1, "CREATE TABLE t(a)", "b")
        .unwrap_err();
    assert_eq!(e.message(), "schema-qualified ALTER TABLE is not yet supported");
}

#[test]
fn add_column_program_rewrites_the_text() {
    let p = compile_alter_add_column(&rename_of(None), 0, 9, "CREATE TABLE t(a)", "b TEXT").unwrap();
    let l = listing(&p);
    assert_eq!(l[3], "Int64 0 1 0 Int(9) 0");
    assert_eq!(l[10], "String8 0 6 0 Text(\"CREATE TABLE t(a, b TEXT)\") 0");
    assert_eq!(l[14], "SetCookie 0 1 1 - 0");
    let e = compile_alter_add_column(&rename_of(None), 0, 9, "CREATE TABLE t", "b").unwrap_err();
    assert_eq!(e.message(), "cannot splice column into CREATE TABLE text");
}
