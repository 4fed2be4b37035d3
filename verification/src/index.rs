//! `CREATE INDEX`: make a tree for the index, fill it from the table, and enter the index in the
//! catalog.
use vstd::prelude::*;

use crate::ast::opt_name_view;
use crate::builder::{group_asm, reg_at, reg_off, Asm, ProgramBuilder};
use crate::catalog::{catalog_row, emit_commit, emit_install, gen_commit, gen_install};
use crate::emit::{begin, built, end_bare, gen_bare_epilogue, prologue};
use crate::insert::{entry_flags, entry_operand};
use crate::schema::{
    columns_view, index_columns_view, IndexColumn, IndexColumnView, IndexObject, IndexView, Table,
    TableView,
};
use crate::scope::steady;
use crate::stmt::{
    indexed_columns_view, CreateIndex, CreateIndexView, IndexedColumn, IndexedColumnView,
};
use crate::text::Error;
use crate::vdbe::{Collation, Opcode, P4, P4View, Program, P5_NCHANGE, P5_UNIQUE};

verus! {

broadcast use group_asm;

/// The cursor on the new index.
pub const NEW_INDEX: i32 = 1;

/// The cursor on the table.
pub const SOURCE: i32 = 2;

/// The collation of an index column: that of its `COLLATE` clause, else that of the table column
/// of its name.
pub open spec fn key_collation(c: IndexedColumnView, t: TableView) -> Collation {
    match c.collation {
        Some(x) => x,
        None => match t.column_index(c.name) {
            Some(k) => t.columns[k as int].collation,
            None => Collation::Binary,
        },
    }
}

/// An index column that a statement declares.
pub open spec fn declared_column(c: IndexedColumnView, t: TableView) -> IndexColumnView {
    IndexColumnView {
        name: c.name,
        desc: c.desc,
        collation: key_collation(c, t),
        expr: c.expr,
    }
}

/// The index that a statement declares.
pub open spec fn declared_index(ci: CreateIndexView, rootpage: u32, t: TableView) -> IndexView {
    IndexView {
        name: ci.name,
        rootpage,
        columns: Seq::new(ci.columns.len(), |i: int| declared_column(ci.columns[i], t)),
        unique: ci.unique,
        where_clause: ci.where_clause,
    }
}

fn declare_column(c: &IndexedColumn, table: &Table) -> (r: IndexColumn)
    ensures
        r@ == declared_column(c@, table@),
{
    let collation: Collation = match c.collation {
        Some(x) => x,
        None => match table.column_index(c.name.as_str()) {
            Some(k) => {
                assert(table@.columns[k as int] == table.columns@[k as int]@);
                table.columns[k].collation
            },
            None => Collation::Binary,
        },
    };
    IndexColumn {
        name: c.name.clone(),
        desc: c.desc,
        collation,
        expr: match &c.expr {
            None => None,
            Some(e) => Some(e.clone()),
        },
    }
}

impl IndexObject {
    /// The index that a statement declares on `table`.
    pub fn from_create_and_table(ci: &CreateIndex, rootpage: u32, table: &Table) -> (r: IndexObject)
        ensures
            r@ == declared_index(ci@, rootpage, table@),
    {
        let ghost want = declared_index(ci@, rootpage, table@).columns;
        let mut columns: Vec<IndexColumn> = Vec::new();
        assert(ci@.columns == indexed_columns_view(ci.columns@));
        for i in 0..ci.columns.len()
            invariant
                ci@.columns == indexed_columns_view(ci.columns@),
                want == declared_index(ci@, rootpage, table@).columns,
                columns@.len() == i,
                forall|j: int| 0 <= j < i ==> (#[trigger] columns@[j])@ == want[j],
        {
            assert(ci@.columns[i as int] == ci.columns@[i as int]@);
            columns.push(declare_column(&ci.columns[i], table));
        }
        assert(index_columns_view(columns@) =~= want);
        IndexObject {
            name: ci.name.clone(),
            rootpage,
            columns,
            unique: ci.unique,
            where_clause: match &ci.where_clause {
                None => None,
                Some(e) => Some(e.clone()),
            },
        }
    }
}

/// The table columns `cols` from the `k`-th on into consecutive registers.
pub open spec fn gen_key_columns(s: Asm, cols: Seq<usize>, base: i32, k: int) -> Asm
    decreases cols.len() - k,
{
    if s.err is Some || k < 0 || k >= cols.len() {
        s
    } else {
        gen_key_columns(
            s.emit(Opcode::Column, SOURCE, cols[k] as i32, reg_at(base, k)),
            cols,
            base,
            k + 1,
        )
    }
}

/// The key of the current row inserted into the new index: its indexed columns, then its rowid.
#[verifier::opaque]
pub open spec fn gen_index_row(s: Asm, ix: IndexView, t: TableView, cols: Seq<usize>) -> Asm {
    let width = (cols.len() as i32).wrapping_add(1);
    let key = s.next_reg;
    let s = s.take_regs(width);
    let rec = s.next_reg;
    gen_key_columns(s.take_regs(1), cols, key, 0).emit(
        Opcode::Rowid,
        SOURCE,
        reg_at(key, cols.len() as int),
        0,
    ).emit(Opcode::MakeRecord, key, width, rec).emit_p45(
        Opcode::IdxInsert,
        NEW_INDEX,
        rec,
        0,
        entry_operand(ix, t),
        entry_flags(ix.unique),
    )
}

/// The new index, whose root page is in a register, filled from the table.
#[verifier::opaque]
pub open spec fn gen_populate(
    s: Asm,
    ix: IndexView,
    t: TableView,
    cols: Seq<usize>,
    root: i32,
) -> Asm {
    let s = s.emit_p4(
        Opcode::OpenWriteReg,
        NEW_INDEX,
        root,
        0,
        P4View::KeyInfo(ix.key_info()),
    ).note_cursor(NEW_INDEX);
    let s = s.emit_p4(
        Opcode::OpenRead,
        SOURCE,
        t.rootpage as i32,
        0,
        P4View::Int(t.columns.len() as i64),
    ).note_cursor(SOURCE);
    let end = s.fresh();
    let s = s.label().jump(Opcode::Rewind, SOURCE, end, 0);
    let top = s.fresh();
    gen_index_row(s.label().bind(top), ix, t, cols).jump(Opcode::Next, SOURCE, top, 0).bind(end)
}

/// A `CREATE INDEX` statement. The text of the statement goes into the catalog as it stands.
#[verifier::opaque]
pub open spec fn gen_create_index(
    ci: CreateIndexView,
    t: TableView,
    sql: Seq<char>,
    cookie: u32,
) -> Asm {
    let ix = declared_index(ci, 0, t);
    if ci.schema is Some {
        Asm::start().fail("schema-qualified CREATE INDEX is not yet supported"@)
    } else {
        match ix.table_columns(t) {
            Err(m) => Asm::start().fail(m),
            Ok(cols) => {
                let s = prologue().emit(Opcode::Transaction, 0, 1, 0);
                let root = s.next_reg;
                let s = s.take_regs(1).emit(Opcode::CreateBtree, 0, root, 0);
                let s = gen_populate(s, ix, t, cols, root);
                let row = catalog_row("index"@, ci.name, ci.table, sql);
                gen_bare_epilogue(gen_commit(gen_install(s, row, root), cookie))
            },
        }
    }
}

fn emit_key_columns(b: &mut ProgramBuilder, cols: &Vec<usize>, base: i32)
    ensures
        final(b)@ == gen_key_columns(old(b)@, cols@, base, 0),
        steady(old(b)@, final(b)@),
{
    let ghost want = gen_key_columns(b@, cols@, base, 0);
    for k in 0..cols.len()
        invariant
            gen_key_columns(b@, cols@, base, k as int) == want,
            steady(old(b)@, b@),
    {
        b.emit(Opcode::Column, SOURCE, cols[k] as i32, reg_off(base, k));
    }
}

fn emit_index_row(b: &mut ProgramBuilder, index: &IndexObject, table: &Table, cols: &Vec<usize>)
    ensures
        final(b)@ == gen_index_row(old(b)@, index@, table@, cols@),
        steady(old(b)@, final(b)@),
{
    reveal(gen_index_row);
    let width: i32 = (cols.len() as i32).wrapping_add(1);
    let key: i32 = b.alloc_regs(width);
    let rec: i32 = b.alloc_reg();
    emit_key_columns(b, cols, key);
    b.emit(Opcode::Rowid, SOURCE, reg_off(key, cols.len()), 0);
    b.emit(Opcode::MakeRecord, key, width, rec);
    let message: P4 = if index.unique {
        match index.unique_constraint_message(table) {
            Some(m) => P4::Text(m),
            None => P4::Int(0),
        }
    } else {
        P4::Int(0)
    };
    let flags: u8 = if index.unique {
        P5_NCHANGE | P5_UNIQUE
    } else {
        P5_NCHANGE
    };
    b.emit_p45(Opcode::IdxInsert, NEW_INDEX, rec, 0, message, flags);
}

fn emit_populate(
    b: &mut ProgramBuilder,
    index: &IndexObject,
    table: &Table,
    cols: &Vec<usize>,
    root: i32,
)
    ensures
        final(b)@ == gen_populate(old(b)@, index@, table@, cols@, root),
        steady(old(b)@, final(b)@),
{
    reveal(gen_populate);
    assert(table@.columns == columns_view(table.columns@));
    b.emit_p4(Opcode::OpenWriteReg, NEW_INDEX, root, 0, P4::KeyInfo(index.key_info()));
    b.note_cursor(NEW_INDEX);
    b.emit_p4(
        Opcode::OpenRead,
        SOURCE,
        table.rootpage as i32,
        0,
        P4::Int(table.columns.len() as i64),
    );
    b.note_cursor(SOURCE);
    let end = b.new_label();
    b.emit_jump(Opcode::Rewind, SOURCE, end, 0);
    let top = b.new_label();
    b.resolve(top);
    emit_index_row(b, index, table, cols);
    b.emit_jump(Opcode::Next, SOURCE, top, 0);
    b.resolve(end);
}

/// Compile a `CREATE INDEX` statement on `table`. `sql_text` is its text, and `schema_cookie` the
/// schema cookie before it runs.
pub fn compile_create_index(
    ci: &CreateIndex,
    table: &Table,
    sql_text: &str,
    schema_cookie: u32,
) -> (r: Result<Program, Error>)
    ensures
        built(r, gen_create_index(ci@, table@, sql_text@, schema_cookie)),
{
    broadcast use crate::builder::asm_fail;

    reveal(gen_create_index);
    assert(ci@.schema == opt_name_view(ci.schema));
    if ci.schema.is_some() {
        return Err(Error::lit("schema-qualified CREATE INDEX is not yet supported"));
    }
    let index = IndexObject::from_create_and_table(ci, 0, table);
    let cols = match index.table_column_indices(table) {
        Ok(v) => v,
        Err(err) => {
            return Err(err);
        },
    };
    let (mut b, setup, after_init) = begin();
    b.emit(Opcode::Transaction, 0, 1, 0);
    let root: i32 = b.alloc_reg();
    b.emit(Opcode::CreateBtree, 0, root, 0);
    emit_populate(&mut b, &index, table, &cols, root);
    emit_install(&mut b, "index", ci.name.as_str(), ci.table.as_str(), sql_text, root);
    emit_commit(&mut b, schema_cookie);
    Ok(end_bare(b, setup, after_init))
}

} // verus!
