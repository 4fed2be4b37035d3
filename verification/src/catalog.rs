//! Code that changes the catalog, a table of five columns on page 1: the kind, the name, the
//! table, the root page and the text of each table and index.
use vstd::prelude::*;

use crate::builder::{group_asm, reg_at, reg_off, Asm, Label, ProgramBuilder};
use crate::emit::{emit_columns, gen_columns};
use crate::indexed::{emit_value_load, gen_value};
use crate::scope::{heads_for, opt_str_view, steady};
use crate::text::owned;
use crate::vdbe::{Opcode, P4, P4View, P5_ISUPDATE, Value, ValueView};

verus! {

broadcast use group_asm;

/// The cursor on the catalog.
pub const CATALOG: i32 = 0;

/// The root page of the catalog.
pub const CATALOG_ROOT: i32 = 1;

/// The number that the schema cookie is stored under.
pub const COOKIE_SCHEMA: i32 = 1;

/// The cookie after a change of the schema: one more, as an operand.
pub open spec fn next_cookie(cookie: u32) -> i32 {
    cookie.wrapping_add(1) as i32
}

/// A change of the schema changes the cookie, and two changes in a row change it differently.
pub proof fn law_cookie_moves(cookie: u32)
    ensures
        next_cookie(cookie) != cookie as i32,
        next_cookie(cookie.wrapping_add(1)) != next_cookie(cookie),
        next_cookie(cookie.wrapping_add(1)) != cookie as i32,
{
    let c1 = cookie.wrapping_add(1);
    let c2 = c1.wrapping_add(1);
    assert(cookie != c1 && c1 != c2 && cookie != c2);
    assert(cookie != c1 && c1 != c2 && cookie != c2 ==> cookie as i32 != c1 as i32 && c1 as i32
        != c2 as i32 && cookie as i32 != c2 as i32) by (bit_vector);
}

/// The end of a program that changes the schema: a new cookie, a reload, a commit.
#[verifier::opaque]
pub open spec fn gen_commit(s: Asm, cookie: u32) -> Asm {
    s.emit(Opcode::SetCookie, 0, COOKIE_SCHEMA, next_cookie(cookie)).emit(
        Opcode::ParseSchema,
        0,
        0,
        0,
    ).emit(Opcode::Halt, 0, 0, 0)
}

/// End a program that changes the schema.
pub fn emit_commit(b: &mut ProgramBuilder, cookie: u32)
    ensures
        final(b)@ == gen_commit(old(b)@, cookie),
        steady(old(b)@, final(b)@),
{
    reveal(gen_commit);
    b.emit(Opcode::SetCookie, 0, COOKIE_SCHEMA, cookie.wrapping_add(1) as i32);
    b.emit(Opcode::ParseSchema, 0, 0, 0);
    b.emit(Opcode::Halt, 0, 0, 0);
}

/// The catalog row of a table or index whose root page is only known at run time.
pub open spec fn catalog_row(
    kind: Seq<char>,
    name: Seq<char>,
    table: Seq<char>,
    sql: Seq<char>,
) -> Seq<ValueView> {
    seq![
        ValueView::Text(kind),
        ValueView::Text(name),
        ValueView::Text(table),
        ValueView::Int(0),
        ValueView::Text(sql),
    ]
}

/// The mathematical values of some values.
pub open spec fn values_view(s: Seq<Value>) -> Seq<ValueView> {
    Seq::new(s.len(), |i: int| s[i]@)
}

/// The values of a catalog row from the `k`-th on. The root page comes from a register.
pub open spec fn gen_row_values(
    s: Asm,
    row: Seq<ValueView>,
    root: i32,
    base: i32,
    k: int,
) -> Asm
    decreases row.len() - k,
{
    if s.err is Some || k < 0 || k >= row.len() {
        s
    } else {
        gen_row_values(
            if k == 3 {
                s.emit(Opcode::SCopy, root, reg_at(base, k), 0)
            } else {
                gen_value(s, row[k], reg_at(base, k))
            },
            row,
            root,
            base,
            k + 1,
        )
    }
}

/// A row built and inserted into the catalog.
#[verifier::opaque]
pub open spec fn gen_install(s: Asm, row: Seq<ValueView>, root: i32) -> Asm {
    let n = row.len() as i32;
    let base = s.next_reg;
    let s = gen_row_values(s.take_regs(n), row, root, base, 0);
    let record = s.next_reg;
    let s = s.take_regs(1).emit(Opcode::MakeRecord, base, n, record).emit(
        Opcode::OpenWrite,
        CATALOG,
        CATALOG_ROOT,
        0,
    ).note_cursor(CATALOG);
    let rowid = s.next_reg;
    s.take_regs(1).emit(Opcode::NewRowid, CATALOG, rowid, 0).emit(
        Opcode::Insert,
        CATALOG,
        record,
        rowid,
    )
}

fn emit_row_values(b: &mut ProgramBuilder, row: &Vec<Value>, root: i32, base: i32)
    ensures
        final(b)@ == gen_row_values(old(b)@, values_view(row@), root, base, 0),
        steady(old(b)@, final(b)@),
{
    let ghost rv = values_view(row@);
    let ghost want = gen_row_values(b@, rv, root, base, 0);
    for k in 0..row.len()
        invariant
            rv == values_view(row@),
            gen_row_values(b@, rv, root, base, k as int) == want,
            steady(old(b)@, b@),
    {
        assert(rv[k as int] == row@[k as int]@);
        let target: i32 = reg_off(base, k);
        if k == 3 {
            b.emit(Opcode::SCopy, root, target, 0);
        } else {
            emit_value_load(b, &row[k], target);
        }
    }
}

/// Insert the row of a new table or index into the catalog. `root` is the register that holds the
/// root page.
pub fn emit_install(
    b: &mut ProgramBuilder,
    kind: &str,
    name: &str,
    table: &str,
    sql: &str,
    root: i32,
)
    ensures
        final(b)@ == gen_install(old(b)@, catalog_row(kind@, name@, table@, sql@), root),
        steady(old(b)@, final(b)@),
{
    reveal(gen_install);
    let mut row: Vec<Value> = Vec::new();
    row.push(Value::Text(owned(kind)));
    row.push(Value::Text(owned(name)));
    row.push(Value::Text(owned(table)));
    row.push(Value::Int(0));
    row.push(Value::Text(owned(sql)));
    assert(values_view(row@) =~= catalog_row(kind@, name@, table@, sql@));
    let n: i32 = row.len() as i32;
    let base: i32 = b.alloc_regs(n);
    emit_row_values(b, &row, root, base);
    let record: i32 = b.alloc_reg();
    b.emit(Opcode::MakeRecord, base, n, record);
    b.emit(Opcode::OpenWrite, CATALOG, CATALOG_ROOT, 0);
    b.note_cursor(CATALOG);
    let rowid: i32 = b.alloc_reg();
    b.emit(Opcode::NewRowid, CATALOG, rowid, 0);
    b.emit(Opcode::Insert, CATALOG, record, rowid);
}

/// A row of the catalog sought by its rowid. The jump to `absent` is taken if there is none.
#[verifier::opaque]
pub open spec fn gen_seek_row(s: Asm, rowid: i64, absent: int) -> Asm {
    s.take_regs(1).emit_p4(Opcode::Int64, 0, s.next_reg, 0, P4View::Int(rowid)).jump(
        Opcode::NotExists,
        CATALOG,
        absent,
        s.next_reg,
    )
}

/// A text, if there is one, into `target`.
pub open spec fn gen_new_text(s: Asm, text: Option<Seq<char>>, target: i32) -> Asm {
    match text {
        Some(t) => s.emit_p4(Opcode::String8, 0, target, 0, P4View::Text(t)),
        None => s,
    }
}

/// The row that the catalog cursor is on rewritten in place: the columns for which there is a new
/// text get it, the others keep what they hold. `rowid` is the register of its rowid.
#[verifier::opaque]
pub open spec fn gen_rewrite_row(
    s: Asm,
    rowid: i32,
    name: Option<Seq<char>>,
    table: Option<Seq<char>>,
    sql: Option<Seq<char>>,
) -> Asm {
    let base = s.next_reg;
    let s = gen_columns(s.take_regs(5), CATALOG, 0, base, 5, 0);
    let s = gen_new_text(s, name, reg_at(base, 1));
    let s = gen_new_text(s, table, reg_at(base, 2));
    let s = gen_new_text(s, sql, reg_at(base, 4));
    let record = s.next_reg;
    s.take_regs(1).emit(Opcode::MakeRecord, base, 5, record).emit_p45(
        Opcode::Delete,
        CATALOG,
        0,
        0,
        P4View::Unused,
        P5_ISUPDATE,
    ).emit_p45(Opcode::Insert, CATALOG, record, rowid, P4View::Unused, P5_ISUPDATE)
}

/// The row with the given rowid, if the catalog has it, rewritten in place.
#[verifier::opaque]
pub open spec fn gen_edit_row(
    s: Asm,
    rowid: i64,
    name: Option<Seq<char>>,
    table: Option<Seq<char>>,
    sql: Option<Seq<char>>,
) -> Asm {
    let absent = s.fresh();
    let s1 = gen_seek_row(s.label(), rowid, absent);
    gen_rewrite_row(s1, s.next_reg, name, table, sql).bind(absent)
}

fn emit_new_text(b: &mut ProgramBuilder, text: Option<&str>, target: i32)
    ensures
        final(b)@ == gen_new_text(old(b)@, opt_str_view(text), target),
        steady(old(b)@, final(b)@),
{
    if let Some(t) = text {
        b.emit_p4(Opcode::String8, 0, target, 0, P4::Text(owned(t)));
    }
}

/// Seek a row of the catalog by its rowid. Returns the register of the rowid.
pub fn emit_seek_row(b: &mut ProgramBuilder, rowid: i64, absent: Label) -> (r: i32)
    requires
        0 <= absent.id() < old(b)@.fresh(),
    ensures
        final(b)@ == gen_seek_row(old(b)@, rowid, absent.id()),
        r == old(b)@.next_reg,
        heads_for(old(b)@, final(b)@, absent.id()),
{
    reveal(gen_seek_row);
    let r: i32 = b.alloc_reg();
    b.emit_p4(Opcode::Int64, 0, r, 0, P4::Int(rowid));
    b.emit_jump(Opcode::NotExists, CATALOG, absent, r);
    r
}

fn emit_rewrite_row(
    b: &mut ProgramBuilder,
    rowid: i32,
    name: Option<&str>,
    table: Option<&str>,
    sql: Option<&str>,
)
    ensures
        final(b)@ == gen_rewrite_row(
            old(b)@,
            rowid,
            opt_str_view(name),
            opt_str_view(table),
            opt_str_view(sql),
        ),
        steady(old(b)@, final(b)@),
{
    reveal(gen_rewrite_row);
    let base: i32 = b.alloc_regs(5);
    emit_columns(b, CATALOG, 0, base, 5);
    emit_new_text(b, name, reg_off(base, 1));
    emit_new_text(b, table, reg_off(base, 2));
    emit_new_text(b, sql, reg_off(base, 4));
    let record: i32 = b.alloc_reg();
    b.emit(Opcode::MakeRecord, base, 5, record);
    b.emit_p45(Opcode::Delete, CATALOG, 0, 0, P4::Unused, P5_ISUPDATE);
    b.emit_p45(Opcode::Insert, CATALOG, record, rowid, P4::Unused, P5_ISUPDATE);
}

/// Rewrite a row of the catalog in place.
pub fn emit_edit_row(
    b: &mut ProgramBuilder,
    rowid: i64,
    name: Option<&str>,
    table: Option<&str>,
    sql: Option<&str>,
)
    ensures
        final(b)@ == gen_edit_row(old(b)@, rowid, opt_str_view(name), opt_str_view(table), opt_str_view(sql)),
        steady(old(b)@, final(b)@),
{
    reveal(gen_edit_row);
    let absent = b.new_label();
    let r: i32 = emit_seek_row(b, rowid, absent);
    emit_rewrite_row(b, r, name, table, sql);
    b.resolve(absent);
}

} // verus!
