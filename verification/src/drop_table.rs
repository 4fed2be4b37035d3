//! `DROP TABLE`: free the tree of the table and take the table out of the catalog.
use vstd::prelude::*;

use crate::builder::{group_asm, Asm, ProgramBuilder};
use crate::catalog::{next_cookie, CATALOG, CATALOG_ROOT, COOKIE_SCHEMA};
use crate::emit::{begin, built, end_bare, gen_bare_epilogue, prologue};
use crate::schema::{Table, TableView};
use crate::columns::opt_table_view;
use crate::scope::steady;
use crate::stmt::{DropTableStmt, DropTableView};
use crate::text::{cat2, owned, same_text, Error};
use crate::vdbe::{Opcode, P4, P4View, Program};

verus! {

broadcast use group_asm;

/// Every row of the catalog with the given name deleted.
#[verifier::opaque]
pub open spec fn gen_forget(s: Asm, name: Seq<char>) -> Asm {
    let s = s.emit(Opcode::OpenWrite, CATALOG, CATALOG_ROOT, 0).note_cursor(CATALOG);
    let end = s.fresh();
    let s = s.label();
    let top = s.fresh();
    let s = s.label().jump(Opcode::Rewind, CATALOG, end, 0).bind(top);
    let found = s.next_reg;
    let s = s.take_regs(1);
    let other = s.fresh();
    let s = s.label().emit(Opcode::Column, CATALOG, 1, found);
    let wanted = s.next_reg;
    s.take_regs(1).emit_p4(Opcode::String8, 0, wanted, 0, P4View::Text(name)).jump(
        Opcode::Ne,
        wanted,
        other,
        found,
    ).emit(Opcode::Delete, CATALOG, 0, 0).bind(other).jump(Opcode::Next, CATALOG, top, 0).bind(end)
}

/// There is a table to drop. A table without a root page has nothing to free.
pub open spec fn droppable(drop: DropTableView, table: Option<TableView>) -> bool {
    table matches Some(t) && t.name == drop.name && t.rootpage != 0
}

/// The work of a `DROP TABLE` statement.
#[verifier::opaque]
pub open spec fn gen_drop_work(s: Asm, t: TableView, cookie: u32) -> Asm {
    gen_forget(s.emit(Opcode::Destroy, t.rootpage as i32, 0, 0), t.name).emit(
        Opcode::SetCookie,
        0,
        COOKIE_SCHEMA,
        next_cookie(cookie),
    ).emit(Opcode::ParseSchema, 0, 0, 0)
}

/// A `DROP TABLE` statement.
#[verifier::opaque]
pub open spec fn gen_drop_table(
    drop: DropTableView,
    if_exists: bool,
    cookie: u32,
    table: Option<TableView>,
) -> Asm {
    if table is None && !if_exists {
        Asm::start().fail("no such table: "@ + drop.name)
    } else {
        let s = prologue().emit(Opcode::Transaction, 0, 1, 0);
        let s = if droppable(drop, table) {
            gen_drop_work(s, table->0, cookie)
        } else {
            s
        };
        gen_bare_epilogue(s.emit(Opcode::Halt, 0, 0, 0))
    }
}

fn emit_forget(b: &mut ProgramBuilder, name: &str)
    ensures
        final(b)@ == gen_forget(old(b)@, name@),
        steady(old(b)@, final(b)@),
{
    reveal(gen_forget);
    b.emit(Opcode::OpenWrite, CATALOG, CATALOG_ROOT, 0);
    b.note_cursor(CATALOG);
    let end = b.new_label();
    let top = b.new_label();
    b.emit_jump(Opcode::Rewind, CATALOG, end, 0);
    b.resolve(top);
    let found: i32 = b.alloc_reg();
    let other = b.new_label();
    b.emit(Opcode::Column, CATALOG, 1, found);
    let wanted: i32 = b.alloc_reg();
    b.emit_p4(Opcode::String8, 0, wanted, 0, P4::Text(owned(name)));
    b.emit_jump(Opcode::Ne, wanted, other, found);
    b.emit(Opcode::Delete, CATALOG, 0, 0);
    b.resolve(other);
    b.emit_jump(Opcode::Next, CATALOG, top, 0);
    b.resolve(end);
}

fn emit_drop_work(b: &mut ProgramBuilder, table: &Table, cookie: u32)
    ensures
        final(b)@ == gen_drop_work(old(b)@, table@, cookie),
        steady(old(b)@, final(b)@),
{
    reveal(gen_drop_work);
    b.emit(Opcode::Destroy, table.rootpage as i32, 0, 0);
    emit_forget(b, table.name.as_str());
    b.emit(Opcode::SetCookie, 0, COOKIE_SCHEMA, cookie.wrapping_add(1) as i32);
    b.emit(Opcode::ParseSchema, 0, 0, 0);
}

/// Compile a `DROP TABLE` statement. `resolved_table` is the table of that name, if there is one;
/// `if_exists` makes its absence no error. `current_schema_cookie` is the schema cookie before the
/// statement runs.
pub fn compile_drop_table(
    drop: &DropTableStmt,
    if_exists: bool,
    current_schema_cookie: u32,
    resolved_table: Option<&Table>,
) -> (r: Result<Program, Error>)
    ensures
        built(
            r,
            gen_drop_table(drop@, if_exists, current_schema_cookie, opt_table_view(resolved_table)),
        ),
{
    broadcast use crate::builder::asm_fail;

    reveal(gen_drop_table);
    if resolved_table.is_none() && !if_exists {
        return Err(Error::msg(cat2("no such table: ", drop.name.as_str())));
    }
    let (mut b, setup, after_init) = begin();
    b.emit(Opcode::Transaction, 0, 1, 0);
    if let Some(t) = resolved_table {
        if same_text(&t.name, &drop.name) && t.rootpage != 0 {
            emit_drop_work(&mut b, t, current_schema_cookie);
        }
    }
    b.emit(Opcode::Halt, 0, 0, 0);
    Ok(end_bare(b, setup, after_init))
}

} // verus!
