//! `DROP INDEX`: free the tree of the index and take the index out of the catalog.
use vstd::prelude::*;

use crate::ast::opt_name_view;
use crate::builder::{group_asm, Asm};
use crate::catalog::{emit_commit, emit_seek_row, gen_commit, gen_seek_row, CATALOG, CATALOG_ROOT};
use crate::emit::{begin, built, end_bare, gen_bare_epilogue, prologue};
use crate::schema::{IndexObject, IndexView};
use crate::stmt::{DropIndexStmt, DropIndexView};
use crate::text::{eq_ignore_case, eq_nocase, Error};
use crate::vdbe::{Opcode, P4, P4View, Program, P5_ISUPDATE};

verus! {

broadcast use group_asm;

/// The statement names a schema other than `main`.
pub open spec fn names_other_schema(drop: DropIndexView) -> bool {
    match drop.schema {
        Some(s) => !eq_nocase(s, "main"@),
        None => false,
    }
}

/// A `DROP INDEX` statement. `rowid` is that of the catalog row of the index.
#[verifier::opaque]
pub open spec fn gen_drop_index(
    drop: DropIndexView,
    ix: IndexView,
    cookie: u32,
    rowid: i64,
) -> Asm {
    if names_other_schema(drop) {
        Asm::start().fail("schema-qualified DROP INDEX is not yet supported"@)
    } else {
        let s = prologue().emit(Opcode::Transaction, 0, 1, 0).emit(
            Opcode::Destroy,
            ix.rootpage as i32,
            0,
            0,
        ).emit(Opcode::OpenWrite, CATALOG, CATALOG_ROOT, 0).note_cursor(CATALOG);
        let absent = s.fresh();
        let s = gen_seek_row(s.label(), rowid, absent).emit_p45(
            Opcode::Delete,
            CATALOG,
            0,
            0,
            P4View::Unused,
            P5_ISUPDATE,
        ).bind(absent);
        gen_bare_epilogue(gen_commit(s, cookie))
    }
}

/// Compile a `DROP INDEX` statement. `schema_rowid` is the rowid of the catalog row of `index`,
/// and `current_schema_cookie` the schema cookie before the statement runs. A schema other than
/// `main` is refused.
pub fn compile_drop_index(
    drop: &DropIndexStmt,
    index: &IndexObject,
    current_schema_cookie: u32,
    schema_rowid: i64,
) -> (r: Result<Program, Error>)
    ensures
        built(r, gen_drop_index(drop@, index@, current_schema_cookie, schema_rowid)),
{
    broadcast use crate::builder::asm_fail;

    reveal(gen_drop_index);
    assert(drop@.schema == opt_name_view(drop.schema));
    if let Some(s) = &drop.schema {
        if !eq_ignore_case(s.as_str(), "main") {
            return Err(Error::lit("schema-qualified DROP INDEX is not yet supported"));
        }
    }
    let (mut b, setup, after_init) = begin();
    b.emit(Opcode::Transaction, 0, 1, 0);
    b.emit(Opcode::Destroy, index.rootpage as i32, 0, 0);
    b.emit(Opcode::OpenWrite, CATALOG, CATALOG_ROOT, 0);
    b.note_cursor(CATALOG);
    let absent = b.new_label();
    emit_seek_row(&mut b, schema_rowid, absent);
    b.emit_p45(Opcode::Delete, CATALOG, 0, 0, P4::Unused, P5_ISUPDATE);
    b.resolve(absent);
    emit_commit(&mut b, current_schema_cookie);
    Ok(end_bare(b, setup, after_init))
}

/// A `DROP INDEX IF EXISTS` of an index that does not exist: nothing is done.
#[verifier::opaque]
pub open spec fn gen_drop_index_noop() -> Asm {
    gen_bare_epilogue(prologue().emit(Opcode::Halt, 0, 0, 0))
}

/// Compile a `DROP INDEX IF EXISTS` of an index that does not exist. The program neither starts a
/// transaction nor changes the schema cookie.
pub fn compile_drop_index_noop() -> (p: Program)
    ensures
        gen_drop_index_noop().err is None,
        p@ == gen_drop_index_noop().program(),
{
    reveal(gen_drop_index_noop);
    let (mut b, setup, after_init) = begin();
    b.emit(Opcode::Halt, 0, 0, 0);
    end_bare(b, setup, after_init)
}

} // verus!
