//! `CREATE TABLE`: make a tree for the table and enter the table in the catalog.
use vstd::prelude::*;

use crate::builder::{group_asm, Asm};
use crate::catalog::{catalog_row, emit_commit, emit_install, gen_commit, gen_install};
use crate::emit::{begin, built, end_bare, gen_bare_epilogue, prologue};
use crate::stmt::{column_defs_view, CreateTable, CreateTableView};
use crate::text::{cat3, Error};
use crate::vdbe::{Opcode, Program};

verus! {

broadcast use group_asm;

/// Why a table cannot be created; `None` if it can.
pub open spec fn table_refusal(ct: CreateTableView) -> Option<Seq<char>> {
    if ct.temporary {
        Some("TEMP tables are not supported yet"@)
    } else if ct.columns.len() == 0 {
        Some("table "@ + ct.name + " must have at least one column"@)
    } else {
        None
    }
}

/// A `CREATE TABLE` statement. The text of the statement goes into the catalog as it stands.
#[verifier::opaque]
pub open spec fn gen_create_table(ct: CreateTableView, sql: Seq<char>, cookie: u32) -> Asm {
    match table_refusal(ct) {
        Some(m) => Asm::start().fail(m),
        None => {
            let s = prologue().emit(Opcode::Transaction, 0, 1, 0);
            let root = s.next_reg;
            let s = s.take_regs(1).emit(Opcode::CreateBtree, 0, root, 1);
            let row = catalog_row("table"@, ct.name, ct.name, sql);
            gen_bare_epilogue(gen_commit(gen_install(s, row, root), cookie))
        },
    }
}

/// Compile a `CREATE TABLE` statement. `sql_text` is its text, and `schema_cookie` the schema
/// cookie before it runs.
pub fn compile_create_table(ct: &CreateTable, sql_text: &str, schema_cookie: u32) -> (r: Result<
    Program,
    Error,
>)
    ensures
        built(r, gen_create_table(ct@, sql_text@, schema_cookie)),
{
    broadcast use crate::builder::asm_fail;

    reveal(gen_create_table);
    if ct.temporary {
        return Err(Error::lit("TEMP tables are not supported yet"));
    }
    assert(ct@.columns == column_defs_view(ct.columns@));
    if ct.columns.len() == 0 {
        return Err(
            Error::msg(cat3("table ", ct.name.as_str(), " must have at least one column")),
        );
    }
    let (mut b, setup, after_init) = begin();
    b.emit(Opcode::Transaction, 0, 1, 0);
    let root: i32 = b.alloc_reg();
    b.emit(Opcode::CreateBtree, 0, root, 1);
    emit_install(&mut b, "table", ct.name.as_str(), ct.name.as_str(), sql_text, root);
    emit_commit(&mut b, schema_cookie);
    Ok(end_bare(b, setup, after_init))
}

} // verus!
