//! `INSERT`.
//!
//! Each row is built in a block of registers, one for each column of the table. The value of an
//! `INTEGER PRIMARY KEY` column becomes the rowid, and the record holds NULL in its place; where
//! there is no such value a new rowid is made. After the row, an entry for it goes into each
//! index.
use vstd::prelude::*;

use crate::ast::{
    expr_rows_view, exprs_view, names_view, Expr, ExprView, SelectStmt, SelectStmtView,
};
use crate::builder::{reg_at, reg_off, Asm, Label, ProgramBuilder};
use crate::columns::opt_table_view;
use crate::compound::{compile, compiled, sources_view, Source};
use crate::delete::{
    clause_of, compile_return_stored, gen_open_indexes, gen_open_returning, gen_return_row,
    gen_return_rows, gen_return_stored, index_fits, indexes_fit, open_index_cursors, open_returning,
    opened, opt_returning_view, returning_clause, TABLE,
};
use crate::emit::{
    begin, built, emit_columns, end_bare, gen_bare_epilogue, gen_columns, prologue, setup_label,
};
use crate::expr::{compile_expr, gen_expr};
use crate::inline::{gen_query, inline_query, Sink, SinkView};
use crate::returning::{
    over_row, returned_row_stuck, returned_rows_stuck, row_ctx, Returning, ReturningView,
};
use crate::scan::{compile_filter, gen_filter, group_select};
use crate::schema::{
    columns_view, index_columns_view, indexes_view, pk_from, plain_columns_from, Functions,
    FunctionsView, IndexObject, IndexView, Table, TableView,
};
use crate::scope::{emitted, over_table, steady, table_ctx, Ctx, CtxView};
use crate::stmt::{InsertSource, InsertSourceView, InsertStmt, InsertView};
use crate::text::{cat2, cat3, cat4, decimal, decimal_u64, owned, Error};
use crate::vdbe::{
    ascending, Affinity, KeyField, Opcode, P4, P4View, Program, ProgramView, P5_NCHANGE, P5_UNIQUE,
};

verus! {

broadcast use group_select;

// ---- Which value goes where ----

/// The value that each column gets from the first `n` of the listed columns.
pub open spec fn mapped(columns: Seq<Seq<char>>, t: TableView, n: int) -> Result<
    Seq<Option<usize>>,
    Seq<char>,
>
    decreases n,
{
    if n <= 0 || n > columns.len() {
        Ok(Seq::new(t.columns.len(), |i: int| None))
    } else {
        match mapped(columns, t, n - 1) {
            Err(m) => Err(m),
            Ok(map) => match t.column_index(columns[n - 1]) {
                None => Err("table "@ + t.name + " has no column named "@ + columns[n - 1]),
                Some(c) => Ok(map.update(c as int, Some((n - 1) as usize))),
            },
        }
    }
}

/// The value that each column gets: by its position, or as the columns are listed.
pub open spec fn value_map(columns: Seq<Seq<char>>, t: TableView) -> Result<
    Seq<Option<usize>>,
    Seq<char>,
> {
    if columns.len() == 0 {
        Ok(Seq::new(t.columns.len(), |i: int| Some(i as usize)))
    } else {
        mapped(columns, t, columns.len() as int)
    }
}

/// How many values a row has.
pub open spec fn row_width(columns: Seq<Seq<char>>, t: TableView) -> nat {
    if columns.len() == 0 {
        t.columns.len()
    } else {
        columns.len()
    }
}

/// A row with the wrong number of values.
pub open spec fn wrong_width(t: TableView, width: nat, given: nat) -> Seq<char> {
    "table "@ + t.name + " has "@ + decimal(width) + " columns but "@ + decimal(given)
        + " values were supplied"@
}

proof fn lemma_map_refused(columns: Seq<Seq<char>>, t: TableView, k: int, n: int)
    requires
        0 <= k <= n <= columns.len(),
        mapped(columns, t, k) is Err,
    ensures
        mapped(columns, t, n) == mapped(columns, t, k),
    decreases n - k,
{
    if k < n {
        lemma_map_refused(columns, t, k, n - 1);
    }
}

/// Every value that a column gets is one of the row.
pub open spec fn map_fits(map: Seq<Option<usize>>, t: TableView, width: nat) -> bool {
    map.len() == t.columns.len() && forall|i: int|
        0 <= i < map.len() ==> ((#[trigger] map[i]) matches Some(v) ==> v < width)
}

fn map_values(columns: &Vec<String>, table: &Table) -> (r: Result<Vec<Option<usize>>, Error>)
    ensures
        match r {
            Ok(m) => value_map(names_view(columns@), table@) == Ok::<
                Seq<Option<usize>>,
                Seq<char>,
            >(m@) && map_fits(m@, table@, row_width(names_view(columns@), table@)),
            Err(e) => value_map(names_view(columns@), table@) == Err::<
                Seq<Option<usize>>,
                Seq<char>,
            >(e@),
        },
{
    let ghost names = names_view(columns@);
    let n: usize = table.columns.len();
    assert(table@.columns.len() == n);
    let mut map: Vec<Option<usize>> = Vec::new();
    if columns.len() == 0 {
        for i in 0..n
            invariant
                map@.len() == i,
                forall|j: int| 0 <= j < i ==> (#[trigger] map@[j]) == Some(j as usize),
        {
            map.push(Some(i));
        }
        assert(map@ =~= value_map(names, table@)->Ok_0);
        return Ok(map);
    }
    for i in 0..n
        invariant
            map@.len() == i,
            forall|j: int| 0 <= j < i ==> (#[trigger] map@[j]) is None,
    {
        map.push(None);
    }
    assert(map@ =~= mapped(names, table@, 0)->Ok_0);
    for k in 0..columns.len()
        invariant
            names == names_view(columns@),
            columns@.len() > 0,
            n == table@.columns.len(),
            map@.len() == n,
            mapped(names, table@, k as int) == Ok::<Seq<Option<usize>>, Seq<char>>(map@),
            map_fits(map@, table@, columns@.len()),
    {
        assert(names[k as int] == columns@[k as int]@);
        match table.column_index(columns[k].as_str()) {
            None => {
                proof {
                    lemma_map_refused(names, table@, k + 1, names.len() as int);
                }
                return Err(
                    Error::msg(
                        cat4(
                            "table ",
                            table.name.as_str(),
                            " has no column named ",
                            columns[k].as_str(),
                        ),
                    ),
                );
            },
            Some(c) => {
                map[c] = Some(k);
            },
        }
    }
    Ok(map)
}

fn width_of(columns: &Vec<String>, table: &Table) -> (r: usize)
    ensures
        r == row_width(names_view(columns@), table@),
{
    if columns.len() == 0 {
        table.columns.len()
    } else {
        columns.len()
    }
}

fn width_error(table: &Table, width: usize, given: usize) -> (r: Error)
    ensures
        r@ == wrong_width(table@, width as nat, given as nat),
{
    let head = cat4("table ", table.name.as_str(), " has ", decimal_u64(width as u64).as_str());
    Error::msg(
        cat4(
            head.as_str(),
            " columns but ",
            decimal_u64(given as u64).as_str(),
            " values were supplied",
        ),
    )
}

/// What is wrong with the indexes from the `i`-th on, if anything.
pub open spec fn index_error(ixs: Seq<IndexView>, t: TableView, i: int) -> Option<Seq<char>>
    decreases ixs.len() - i,
{
    if i < 0 || i >= ixs.len() {
        None
    } else {
        match ixs[i].table_columns(t) {
            Err(m) => Some(m),
            Ok(_) => index_error(ixs, t, i + 1),
        }
    }
}

proof fn lemma_columns_fit(ix: IndexView, t: TableView, acc: Seq<usize>, j: int)
    requires
        0 <= j,
        plain_columns_from(ix, t, acc, j) is Ok,
    ensures
        forall|k: int|
            j <= k < ix.columns.len() ==> (#[trigger] ix.columns[k]).expr is Some
                || t.column_index(ix.columns[k].name) is Some,
    decreases ix.columns.len() - j,
{
    if j < ix.columns.len() {
        if ix.columns[j].expr is Some {
            lemma_columns_fit(ix, t, acc, j + 1);
        } else {
            lemma_columns_fit(ix, t, acc.push(t.column_index(ix.columns[j].name)->0), j + 1);
        }
    }
}

/// Refuse an index with a column that the table does not have.
fn validate_indexes(table: &Table, indexes: &[IndexObject]) -> (r: Result<(), Error>)
    ensures
        match r {
            Ok(_) => index_error(indexes_view(indexes@), table@, 0) is None && indexes_fit(
                indexes_view(indexes@),
                table@,
            ),
            Err(e) => index_error(indexes_view(indexes@), table@, 0) == Some(e@),
        },
{
    let ghost ixs = indexes_view(indexes@);
    for i in 0..indexes.len()
        invariant
            ixs == indexes_view(indexes@),
            index_error(ixs, table@, 0) == index_error(ixs, table@, i as int),
            forall|k: int| 0 <= k < i ==> index_fits(#[trigger] ixs[k], table@),
    {
        assert(ixs[i as int] == indexes@[i as int]@);
        if let Err(err) = indexes[i].table_column_indices(table) {
            return Err(err);
        }
        proof {
            lemma_columns_fit(ixs[i as int], table@, Seq::empty(), 0);
        }
    }
    Ok(())
}

// ---- Affinity ----

/// The letter of an affinity.
pub open spec fn affinity_letter(a: Affinity) -> Seq<char> {
    match a {
        Affinity::Blob => "A"@,
        Affinity::Text => "B"@,
        Affinity::Numeric => "C"@,
        Affinity::Integer => "D"@,
        Affinity::Real => "E"@,
    }
}

/// A value converted to an affinity; the affinity of a blob converts nothing.
pub open spec fn gen_affinity(s: Asm, reg: i32, a: Affinity) -> Asm {
    if a == Affinity::Blob {
        s
    } else {
        s.emit_p4(Opcode::Affinity, reg, 1, 0, P4View::Symbol(affinity_letter(a)))
    }
}

fn affinity_char(a: Affinity) -> (r: &'static str)
    ensures
        r@ == affinity_letter(a),
{
    match a {
        Affinity::Blob => "A",
        Affinity::Text => "B",
        Affinity::Numeric => "C",
        Affinity::Integer => "D",
        Affinity::Real => "E",
    }
}

fn apply_affinity(b: &mut ProgramBuilder, reg: i32, affinity: Affinity)
    ensures
        final(b)@ == gen_affinity(old(b)@, reg, affinity),
        steady(old(b)@, final(b)@),
{
    if affinity == Affinity::Blob {
        return;
    }
    b.emit_p4(Opcode::Affinity, reg, 1, 0, P4::Symbol(owned(affinity_char(affinity))));
}

/// An expression computed and converted to an affinity.
pub open spec fn gen_typed(s: Asm, e: ExprView, reg: i32, a: Affinity, ctx: CtxView) -> Asm {
    gen_affinity(gen_expr(s, e, reg, ctx), reg, a)
}

fn compile_typed(b: &mut ProgramBuilder, e: &Expr, reg: i32, a: Affinity, ctx: Ctx) -> (r: Result<
    (),
    Error,
>)
    ensures
        emitted(r, final(b)@, gen_typed(old(b)@, e@, reg, a, ctx@)),
        r is Ok ==> steady(old(b)@, final(b)@),
{
    if let Err(err) = compile_expr(b, e, reg, ctx) {
        return Err(err);
    }
    apply_affinity(b, reg, a);
    Ok(())
}

// ---- Index entries ----

/// The key fields of an index from the `k`-th on, taken from the row in the registers from
/// `from` on.
pub open spec fn gen_new_key(
    s: Asm,
    ix: IndexView,
    t: TableView,
    from: i32,
    to: i32,
    f: FunctionsView,
    k: int,
) -> Asm
    decreases ix.columns.len() - k,
{
    if s.err is Some || k < 0 || k >= ix.columns.len() {
        s
    } else {
        gen_new_key(
            match ix.columns[k].expr {
                Some(e) => gen_expr(s, e, reg_at(to, k), row_ctx(t, TABLE, from, f)),
                None => s.emit(
                    Opcode::SCopy,
                    reg_at(from, t.column_index(ix.columns[k].name)->0 as int),
                    reg_at(to, k),
                    0,
                ),
            },
            ix,
            t,
            from,
            to,
            f,
            k + 1,
        )
    }
}

/// The primary-key columns from the `k`-th on copied from the row.
pub open spec fn gen_pk_copies(s: Asm, pk: Seq<(usize, bool)>, from: i32, to: i32, k: int) -> Asm
    decreases pk.len() - k,
{
    if s.err is Some || k < 0 || k >= pk.len() {
        s
    } else {
        gen_pk_copies(
            s.emit(Opcode::SCopy, reg_at(from, pk[k].0 as int), reg_at(to, k), 0),
            pk,
            from,
            to,
            k + 1,
        )
    }
}

/// The message about a duplicate key, for the instruction that adds an entry.
pub open spec fn entry_operand(ix: IndexView, t: TableView) -> P4View {
    if ix.unique {
        match ix.unique_message(t) {
            Some(m) => P4View::Text(m),
            None => P4View::Int(0),
        }
    } else {
        P4View::Int(0)
    }
}

/// The flags of the instruction that adds an entry.
pub open spec fn entry_flags(unique: bool) -> u8 {
    if unique {
        P5_NCHANGE | P5_UNIQUE
    } else {
        P5_NCHANGE
    }
}

/// An entry for a row added to an index, if the index holds the row. The key ends in the rowid,
/// or where there is none in the primary key.
#[verifier::opaque]
pub open spec fn gen_entry(
    s: Asm,
    ix: IndexView,
    t: TableView,
    cursor: i32,
    from: i32,
    rowid: Option<i32>,
    f: FunctionsView,
) -> Asm {
    let n = ix.columns.len() as i32;
    let nkey = match rowid {
        Some(_) => n.wrapping_add(1),
        None => n.wrapping_add(t.pk_columns.len() as i32),
    };
    let skip = s.fresh();
    let s = gen_filter(s.label(), ix.where_clause, skip, row_ctx(t, TABLE, from, f));
    let key = s.next_reg;
    let s = gen_new_key(s.take_regs(nkey), ix, t, from, key, f, 0);
    let s = match rowid {
        Some(r) => s.emit(Opcode::SCopy, r, key.wrapping_add(n), 0),
        None => gen_pk_copies(s, t.pk_columns, from, key.wrapping_add(n), 0),
    };
    let rec = s.next_reg;
    s.take_regs(1).emit(Opcode::MakeRecord, key, nkey, rec).emit_p45(
        Opcode::IdxInsert,
        cursor,
        rec,
        0,
        entry_operand(ix, t),
        entry_flags(ix.unique),
    ).bind(skip)
}

/// Entries for a row added to the indexes from the `k`-th on.
pub open spec fn gen_entries(
    s: Asm,
    ixs: Seq<IndexView>,
    t: TableView,
    from: i32,
    rowid: Option<i32>,
    f: FunctionsView,
    k: int,
) -> Asm
    decreases ixs.len() - k,
{
    if s.err is Some || k < 0 || k >= ixs.len() {
        s
    } else {
        gen_entries(
            gen_entry(s, ixs[k], t, reg_at(1, k), from, rowid, f),
            ixs,
            t,
            from,
            rowid,
            f,
            k + 1,
        )
    }
}

fn emit_pk_copies(b: &mut ProgramBuilder, table: &Table, from: i32, to: i32)
    ensures
        final(b)@ == gen_pk_copies(old(b)@, table@.pk_columns, from, to, 0),
        steady(old(b)@, final(b)@),
{
    let ghost pk = table@.pk_columns;
    let ghost want = gen_pk_copies(b@, pk, from, to, 0);
    for k in 0..table.pk_columns.len()
        invariant
            pk == table@.pk_columns,
            gen_pk_copies(b@, pk, from, to, k as int) == want,
            steady(old(b)@, b@),
    {
        assert(pk[k as int] == table.pk_columns@[k as int]);
        b.emit(Opcode::SCopy, reg_off(from, table.pk_columns[k].0), reg_off(to, k), 0);
    }
}

fn compile_new_key(
    b: &mut ProgramBuilder,
    ix: &IndexObject,
    table: &Table,
    from: i32,
    to: i32,
    functions: &Functions,
) -> (r: Result<(), Error>)
    requires
        index_fits(ix@, table@),
    ensures
        emitted(r, final(b)@, gen_new_key(old(b)@, ix@, table@, from, to, functions@, 0)),
        r is Ok ==> steady(old(b)@, final(b)@),
{
    let ghost want = gen_new_key(b@, ix@, table@, from, to, functions@, 0);
    assert(ix@.columns == index_columns_view(ix.columns@));
    for k in 0..ix.columns.len()
        invariant
            ix@.columns == index_columns_view(ix.columns@),
            index_fits(ix@, table@),
            gen_new_key(b@, ix@, table@, from, to, functions@, k as int) == want,
            want == gen_new_key(old(b)@, ix@, table@, from, to, functions@, 0),
            steady(old(b)@, b@),
    {
        proof {
            reveal_with_fuel(gen_new_key, 2);
            assert(ix@.columns[k as int] == ix.columns@[k as int]@);
        }
        match &ix.columns[k].expr {
            Some(e) => {
                assert(ix@.columns[k as int].expr == Some(e@));
                let ctx = over_row(table, TABLE, from, functions);
                if let Err(err) = compile_expr(b, e, reg_off(to, k), ctx) {
                    return Err(err);
                }
            },
            None => {
                let c: usize = match table.column_index(ix.columns[k].name.as_str()) {
                    Some(c) => c,
                    None => 0,
                };
                b.emit(Opcode::SCopy, reg_off(from, c), reg_off(to, k), 0);
            },
        }
    }
    Ok(())
}

fn compile_entry(
    b: &mut ProgramBuilder,
    ix: &IndexObject,
    table: &Table,
    cursor: i32,
    from: i32,
    rowid: Option<i32>,
    functions: &Functions,
) -> (r: Result<(), Error>)
    requires
        index_fits(ix@, table@),
    ensures
        emitted(
            r,
            final(b)@,
            gen_entry(old(b)@, ix@, table@, cursor, from, rowid, functions@),
        ),
        r is Ok ==> steady(old(b)@, final(b)@),
{
    reveal(gen_entry);
    let n: i32 = ix.columns.len() as i32;
    let nkey: i32 = match rowid {
        Some(_) => n.wrapping_add(1),
        None => n.wrapping_add(table.pk_columns.len() as i32),
    };
    let skip = b.new_label();
    let ctx = over_row(table, TABLE, from, functions);
    if let Err(err) = compile_filter(b, &ix.where_clause, skip, ctx) {
        return Err(err);
    }
    let key: i32 = b.alloc_regs(nkey);
    if let Err(err) = compile_new_key(b, ix, table, from, key, functions) {
        return Err(err);
    }
    match rowid {
        Some(r) => {
            b.emit(Opcode::SCopy, r, key.wrapping_add(n), 0);
        },
        None => {
            emit_pk_copies(b, table, from, key.wrapping_add(n));
        },
    }
    let rec: i32 = b.alloc_reg();
    b.emit(Opcode::MakeRecord, key, nkey, rec);
    let message = if ix.unique {
        match ix.unique_constraint_message(table) {
            Some(m) => P4::Text(m),
            None => P4::Int(0),
        }
    } else {
        P4::Int(0)
    };
    let flags: u8 = if ix.unique {
        P5_NCHANGE | P5_UNIQUE
    } else {
        P5_NCHANGE
    };
    b.emit_p45(Opcode::IdxInsert, cursor, rec, 0, message, flags);
    b.resolve(skip);
    Ok(())
}

fn compile_entries(
    b: &mut ProgramBuilder,
    indexes: &[IndexObject],
    table: &Table,
    from: i32,
    rowid: Option<i32>,
    functions: &Functions,
) -> (r: Result<(), Error>)
    requires
        indexes_fit(indexes_view(indexes@), table@),
    ensures
        emitted(
            r,
            final(b)@,
            gen_entries(old(b)@, indexes_view(indexes@), table@, from, rowid, functions@, 0),
        ),
        r is Ok ==> steady(old(b)@, final(b)@),
{
    let ghost ixs = indexes_view(indexes@);
    let ghost want = gen_entries(b@, ixs, table@, from, rowid, functions@, 0);
    for k in 0..indexes.len()
        invariant
            ixs == indexes_view(indexes@),
            indexes_fit(ixs, table@),
            gen_entries(b@, ixs, table@, from, rowid, functions@, k as int) == want,
            want == gen_entries(old(b)@, ixs, table@, from, rowid, functions@, 0),
            steady(old(b)@, b@),
    {
        proof {
            reveal_with_fuel(gen_entries, 2);
            assert(ixs[k as int] == indexes@[k as int]@);
        }
        if let Err(err) = compile_entry(
            b,
            &indexes[k],
            table,
            reg_off(1, k),
            from,
            rowid,
            functions,
        ) {
            return Err(err);
        }
    }
    Ok(())
}

// ---- Rows of a table with a rowid ----

/// Where the value of a column comes from.
pub ghost enum Origin {
    /// An expression.
    Given(ExprView),
    /// A register.
    Copied(i32),
    /// Nowhere: the column is NULL.
    Absent,
    /// From a default that the column does not have: the column is NULL, and so is the rowid if
    /// the column is its alias.
    Unset,
}

/// The value of column `k`. That of the rowid alias goes into the register of the rowid.
#[verifier::opaque]
pub open spec fn gen_column_value(
    s: Asm,
    t: TableView,
    k: int,
    origin: Origin,
    row: i32,
    rowid: i32,
    ctx: CtxView,
) -> Asm {
    let target = reg_at(row, k);
    let alias = t.rowid_alias == Some(k as usize);
    let to = if alias {
        rowid
    } else {
        target
    };
    let affinity = if alias {
        Affinity::Integer
    } else {
        t.columns[k].affinity
    };
    match origin {
        Origin::Absent => s.emit(Opcode::Null, 0, target, 0),
        Origin::Unset => if alias {
            s.emit(Opcode::Null, 0, rowid, 0).emit(Opcode::Null, 0, target, 0)
        } else {
            s.emit(Opcode::Null, 0, target, 0)
        },
        Origin::Given(e) => {
            let s = gen_typed(s, e, to, affinity, ctx);
            if alias {
                s.emit(Opcode::Null, 0, target, 0)
            } else {
                s
            }
        },
        Origin::Copied(r) => {
            let s = gen_affinity(s.emit(Opcode::SCopy, r, to, 0), to, affinity);
            if alias {
                s.emit(Opcode::Null, 0, target, 0)
            } else {
                s
            }
        },
    }
}

/// The values of the columns from the `k`-th on.
pub open spec fn gen_row_values(
    s: Asm,
    t: TableView,
    origins: Seq<Origin>,
    row: i32,
    rowid: i32,
    ctx: CtxView,
    k: int,
) -> Asm
    decreases origins.len() - k,
{
    if s.err is Some || k < 0 || k >= origins.len() {
        s
    } else {
        gen_row_values(
            gen_column_value(s, t, k, origins[k], row, rowid, ctx),
            t,
            origins,
            row,
            rowid,
            ctx,
            k + 1,
        )
    }
}

/// The rowid: the one given, unless it is NULL, or else a new one.
pub open spec fn gen_rowid(s: Asm, given: bool, rowid: i32) -> Asm {
    if given {
        let have = s.fresh();
        s.label().jump(Opcode::NotNull, rowid, have, 0).emit(Opcode::NewRowid, TABLE, rowid, 0).bind(
            have,
        )
    } else {
        s.emit(Opcode::NewRowid, TABLE, rowid, 0)
    }
}

fn emit_rowid(b: &mut ProgramBuilder, given: bool, rowid: i32)
    ensures
        final(b)@ == gen_rowid(old(b)@, given, rowid),
        steady(old(b)@, final(b)@),
{
    if given {
        let have = b.new_label();
        b.emit_jump(Opcode::NotNull, rowid, have, 0);
        b.emit(Opcode::NewRowid, TABLE, rowid, 0);
        b.resolve(have);
    } else {
        b.emit(Opcode::NewRowid, TABLE, rowid, 0);
    }
}

/// The row stored in the table and in the indexes.
#[verifier::opaque]
pub open spec fn gen_store(
    s: Asm,
    t: TableView,
    ixs: Seq<IndexView>,
    row: i32,
    rowid: i32,
    f: FunctionsView,
) -> Asm {
    let rec = s.next_reg;
    let s = s.take_regs(1).emit(Opcode::MakeRecord, row, t.columns.len() as i32, rec).emit(
        Opcode::Insert,
        TABLE,
        rec,
        rowid,
    );
    gen_entries(s, ixs, t, row, Some(rowid), f, 0)
}

pub broadcast proof fn store_stuck(
    s: Asm,
    t: TableView,
    ixs: Seq<IndexView>,
    row: i32,
    rowid: i32,
    f: FunctionsView,
)
    requires
        s.err is Some,
    ensures
        #![trigger gen_store(s, t, ixs, row, rowid, f)]
        gen_store(s, t, ixs, row, rowid, f) == s,
{
    reveal(gen_store);
}

fn compile_store(
    b: &mut ProgramBuilder,
    table: &Table,
    indexes: &[IndexObject],
    row: i32,
    rowid: i32,
    functions: &Functions,
) -> (r: Result<(), Error>)
    requires
        indexes_fit(indexes_view(indexes@), table@),
    ensures
        emitted(
            r,
            final(b)@,
            gen_store(old(b)@, table@, indexes_view(indexes@), row, rowid, functions@),
        ),
        r is Ok ==> steady(old(b)@, final(b)@),
{
    reveal(gen_store);
    let rec: i32 = b.alloc_reg();
    b.emit(Opcode::MakeRecord, row, table.columns.len() as i32, rec);
    b.emit(Opcode::Insert, TABLE, rec, rowid);
    compile_entries(b, indexes, table, row, Some(rowid), functions)
}

/// The column that is an alias of the rowid has a value.
pub open spec fn alias_given(t: TableView, origins: Seq<Origin>) -> bool {
    t.rowid_alias matches Some(a) && a < origins.len() && !(origins[a as int] is Absent)
}

/// A row whose values come from `origins`, stored and returned.
#[verifier::opaque]
pub open spec fn gen_insert_row(
    s: Asm,
    t: TableView,
    ixs: Seq<IndexView>,
    origins: Seq<Origin>,
    ret: Option<ReturningView>,
    f: FunctionsView,
) -> Asm {
    let row = s.next_reg;
    let s = s.take_regs(t.columns.len() as i32);
    let rowid = s.next_reg;
    let s = gen_row_values(s.take_regs(1), t, origins, row, rowid, table_ctx(t, TABLE, f), 0);
    let s = gen_store(gen_rowid(s, alias_given(t, origins), rowid), t, ixs, row, rowid, f);
    gen_return_stored(s, ret, t, row, rowid, f)
}

pub broadcast proof fn insert_row_stuck(
    s: Asm,
    t: TableView,
    ixs: Seq<IndexView>,
    origins: Seq<Origin>,
    ret: Option<ReturningView>,
    f: FunctionsView,
)
    requires
        s.err is Some,
    ensures
        #![trigger gen_insert_row(s, t, ixs, origins, ret, f)]
        gen_insert_row(s, t, ixs, origins, ret, f) == s,
{
    broadcast use {store_stuck, returned_row_stuck};

    reveal(gen_insert_row);
}

/// Where the values of a row come from.
#[derive(Clone, Copy)]
enum Feed<'a> {
    Given(&'a Expr),
    Copied(i32),
    Absent,
    Unset,
}

impl<'a> View for Feed<'a> {
    type V = Origin;

    closed spec fn view(&self) -> Origin {
        match *self {
            Feed::Given(e) => Origin::Given(e@),
            Feed::Copied(r) => Origin::Copied(r),
            Feed::Absent => Origin::Absent,
            Feed::Unset => Origin::Unset,
        }
    }
}

spec fn origins_view(s: Seq<Feed>) -> Seq<Origin> {
    Seq::new(s.len(), |i: int| s[i]@)
}

fn compile_column_value(
    b: &mut ProgramBuilder,
    table: &Table,
    k: usize,
    from: Feed,
    row: i32,
    rowid: i32,
    ctx: Ctx,
) -> (r: Result<(), Error>)
    requires
        k < table@.columns.len(),
    ensures
        emitted(
            r,
            final(b)@,
            gen_column_value(old(b)@, table@, k as int, from@, row, rowid, ctx@),
        ),
        r is Ok ==> steady(old(b)@, final(b)@),
{
    reveal(gen_column_value);
    assert(table@.columns[k as int] == table.columns@[k as int]@);
    let target: i32 = reg_off(row, k);
    let alias = match table.rowid_alias {
        Some(a) => a == k,
        None => false,
    };
    let to: i32 = if alias {
        rowid
    } else {
        target
    };
    let affinity = if alias {
        Affinity::Integer
    } else {
        table.columns[k].affinity
    };
    match from {
        Feed::Absent => {
            b.emit(Opcode::Null, 0, target, 0);
        },
        Feed::Unset => {
            if alias {
                b.emit(Opcode::Null, 0, rowid, 0);
            }
            b.emit(Opcode::Null, 0, target, 0);
        },
        Feed::Given(e) => {
            if let Err(err) = compile_typed(b, e, to, affinity, ctx) {
                return Err(err);
            }
            if alias {
                b.emit(Opcode::Null, 0, target, 0);
            }
        },
        Feed::Copied(r) => {
            b.emit(Opcode::SCopy, r, to, 0);
            apply_affinity(b, to, affinity);
            if alias {
                b.emit(Opcode::Null, 0, target, 0);
            }
        },
    }
    Ok(())
}

fn compile_row_values(
    b: &mut ProgramBuilder,
    table: &Table,
    from: &Vec<Feed>,
    row: i32,
    rowid: i32,
    ctx: Ctx,
) -> (r: Result<(), Error>)
    requires
        from@.len() == table@.columns.len(),
    ensures
        emitted(
            r,
            final(b)@,
            gen_row_values(old(b)@, table@, origins_view(from@), row, rowid, ctx@, 0),
        ),
        r is Ok ==> steady(old(b)@, final(b)@),
{
    let ghost os = origins_view(from@);
    let ghost want = gen_row_values(b@, table@, os, row, rowid, ctx@, 0);
    for k in 0..from.len()
        invariant
            os == origins_view(from@),
            from@.len() == table@.columns.len(),
            gen_row_values(b@, table@, os, row, rowid, ctx@, k as int) == want,
            want == gen_row_values(old(b)@, table@, os, row, rowid, ctx@, 0),
            steady(old(b)@, b@),
    {
        proof {
            reveal_with_fuel(gen_row_values, 2);
            assert(os[k as int] == from@[k as int]@);
        }
        if let Err(err) = compile_column_value(b, table, k, from[k], row, rowid, ctx) {
            return Err(err);
        }
    }
    Ok(())
}

fn compile_insert_row(
    b: &mut ProgramBuilder,
    table: &Table,
    indexes: &[IndexObject],
    from: &Vec<Feed>,
    ret: &Option<Returning>,
    functions: &Functions,
) -> (r: Result<(), Error>)
    requires
        from@.len() == table@.columns.len(),
        indexes_fit(indexes_view(indexes@), table@),
    ensures
        emitted(
            r,
            final(b)@,
            gen_insert_row(
                old(b)@,
                table@,
                indexes_view(indexes@),
                origins_view(from@),
                opt_returning_view(*ret),
                functions@,
            ),
        ),
        r is Ok ==> steady(old(b)@, final(b)@),
{
    broadcast use {store_stuck, returned_row_stuck};

    reveal(gen_insert_row);
    let row: i32 = b.alloc_regs(table.columns.len() as i32);
    let rowid: i32 = b.alloc_reg();
    let ctx = over_table(table, TABLE, functions);
    if let Err(err) = compile_row_values(b, table, from, row, rowid, ctx) {
        return Err(err);
    }
    let mut given = false;
    if let Some(a) = table.rowid_alias {
        if a < from.len() {
            assert(origins_view(from@)[a as int] == from@[a as int]@);
            given =
            match from[a] {
                Feed::Absent => false,
                _ => true,
            };
        }
    }
    assert(given == alias_given(table@, origins_view(from@)));
    emit_rowid(b, given, rowid);
    if let Err(err) = compile_store(b, table, indexes, row, rowid, functions) {
        return Err(err);
    }
    compile_return_stored(b, ret, table, row, rowid, functions)
}

/// The values of a row of expressions.
pub open spec fn given_values(map: Seq<Option<usize>>, row: Seq<ExprView>) -> Seq<Origin> {
    Seq::new(
        map.len(),
        |i: int|
            match map[i] {
                Some(v) => Origin::Given(row[v as int]),
                None => Origin::Absent,
            },
    )
}

/// The values of a row in the registers from `base` on.
pub open spec fn copied_values(map: Seq<Option<usize>>, base: i32) -> Seq<Origin> {
    Seq::new(
        map.len(),
        |i: int|
            match map[i] {
                Some(v) => Origin::Copied(reg_at(base, v as int)),
                None => Origin::Absent,
            },
    )
}

/// The rows of expressions from the `k`-th on.
pub open spec fn gen_value_rows(
    s: Asm,
    t: TableView,
    ixs: Seq<IndexView>,
    map: Seq<Option<usize>>,
    width: nat,
    rows: Seq<Seq<ExprView>>,
    ret: Option<ReturningView>,
    f: FunctionsView,
    k: int,
) -> Asm
    decreases rows.len() - k,
{
    if s.err is Some || k < 0 || k >= rows.len() {
        s
    } else {
        gen_value_rows(
            if rows[k].len() != width {
                s.fail(wrong_width(t, width, rows[k].len()))
            } else {
                gen_insert_row(s, t, ixs, given_values(map, rows[k]), ret, f)
            },
            t,
            ixs,
            map,
            width,
            rows,
            ret,
            f,
            k + 1,
        )
    }
}

/// The first instructions of an `INSERT`: the table and its indexes opened, and the table of a
/// `RETURNING` clause after them.
#[verifier::opaque]
pub open spec fn gen_insert_open(
    t: TableView,
    ixs: Seq<IndexView>,
    ret: Option<ReturningView>,
) -> Asm {
    let s = prologue().emit(Opcode::Transaction, 0, 1, 0).emit(
        Opcode::OpenWrite,
        TABLE,
        t.rootpage as i32,
        0,
    ).note_cursor(TABLE);
    gen_open_returning(
        gen_open_indexes(s, ixs, 1, 0),
        ret,
        1i32.wrapping_add(ixs.len() as i32),
    )
}

/// The `RETURNING` clause after that.
pub open spec fn insert_opened(
    t: TableView,
    ixs: Seq<IndexView>,
    ret: Option<ReturningView>,
) -> Option<ReturningView> {
    opened(gen_insert_open(t, ixs, None), ret, 1i32.wrapping_add(ixs.len() as i32))
}

fn begin_insert(table: &Table, indexes: &[IndexObject], ret: Option<Returning>) -> (r: (
    ProgramBuilder,
    Label,
    i32,
    Option<Returning>,
))
    ensures
        r.0@ == gen_insert_open(table@, indexes_view(indexes@), opt_returning_view(ret)),
        opt_returning_view(r.3) == insert_opened(
            table@,
            indexes_view(indexes@),
            opt_returning_view(ret),
        ),
        r.1.id() == setup_label(),
        r.2 == prologue().here(),
        r.0@.wf(),
        0 <= setup_label() < r.0@.fresh(),
        forall|l: int| #[trigger] r.0@.owes(l) ==> l == setup_label(),
{
    reveal(gen_insert_open);
    let (mut b, setup, after_init) = begin();
    b.emit(Opcode::Transaction, 0, 1, 0);
    b.emit(Opcode::OpenWrite, TABLE, table.rootpage as i32, 0);
    b.note_cursor(TABLE);
    open_index_cursors(&mut b, indexes, 1);
    let eph: i32 = 1i32.wrapping_add(indexes.len() as i32);
    let ret = open_returning(&mut b, ret, eph);
    (b, setup, after_init, ret)
}

/// `INSERT ... VALUES`.
#[verifier::opaque]
pub open spec fn gen_insert_values(
    ins: InsertView,
    t: TableView,
    ixs: Seq<IndexView>,
    rows: Seq<Seq<ExprView>>,
    f: FunctionsView,
) -> Asm {
    if rows.len() == 0 {
        Asm::start().fail("INSERT must supply at least one VALUES row"@)
    } else {
        match value_map(ins.columns, t) {
            Err(m) => Asm::start().fail(m),
            Ok(map) => match index_error(ixs, t, 0) {
                Some(m) => Asm::start().fail(m),
                None => match clause_of(ins.returning, t) {
                    Err(m) => Asm::start().fail(m),
                    Ok(ret) => {
                        let r = insert_opened(t, ixs, ret);
                        let s = gen_value_rows(
                            gen_insert_open(t, ixs, ret),
                            t,
                            ixs,
                            map,
                            row_width(ins.columns, t),
                            rows,
                            r,
                            f,
                            0,
                        );
                        gen_bare_epilogue(gen_return_rows(s, r).emit(Opcode::Halt, 0, 0, 0))
                    },
                },
            },
        }
    }
}

fn compile_value_rows(
    b: &mut ProgramBuilder,
    table: &Table,
    indexes: &[IndexObject],
    map: &Vec<Option<usize>>,
    width: usize,
    rows: &Vec<Vec<Expr>>,
    ret: &Option<Returning>,
    functions: &Functions,
) -> (r: Result<(), Error>)
    requires
        map_fits(map@, table@, width as nat),
        indexes_fit(indexes_view(indexes@), table@),
    ensures
        emitted(
            r,
            final(b)@,
            gen_value_rows(
                old(b)@,
                table@,
                indexes_view(indexes@),
                map@,
                width as nat,
                expr_rows_view(rows@),
                opt_returning_view(*ret),
                functions@,
                0,
            ),
        ),
        r is Ok ==> steady(old(b)@, final(b)@),
{
    broadcast use {crate::builder::asm_fail, insert_row_stuck};

    let ghost ixs = indexes_view(indexes@);
    let ghost rv = opt_returning_view(*ret);
    let ghost rs = expr_rows_view(rows@);
    let ghost w = width as nat;
    let ghost want = gen_value_rows(b@, table@, ixs, map@, w, rs, rv, functions@, 0);
    for k in 0..rows.len()
        invariant
            ixs == indexes_view(indexes@),
            rv == opt_returning_view(*ret),
            rs == expr_rows_view(rows@),
            w == width as nat,
            map_fits(map@, table@, w),
            indexes_fit(ixs, table@),
            gen_value_rows(b@, table@, ixs, map@, w, rs, rv, functions@, k as int) == want,
            want == gen_value_rows(old(b)@, table@, ixs, map@, w, rs, rv, functions@, 0),
            steady(old(b)@, b@),
    {
        let row = &rows[k];
        proof {
            reveal_with_fuel(gen_value_rows, 2);
            assert(rs[k as int] == exprs_view(row@));
        }
        if row.len() != width {
            return Err(width_error(table, width, row.len()));
        }
        let mut from: Vec<Feed> = Vec::new();
        for i in 0..map.len()
            invariant
                map_fits(map@, table@, w),
                w == row@.len(),
                from@.len() == i,
                forall|j: int|
                    0 <= j < i ==> (#[trigger] from@[j])@ == given_values(
                        map@,
                        exprs_view(row@),
                    )[j],
        {
            let x = match map[i] {
                Some(v) => {
                    assert(map@[i as int] == Some(v));
                    assert(exprs_view(row@)[v as int] == row@[v as int]@);
                    Feed::Given(&row[v])
                },
                None => Feed::Absent,
            };
            from.push(x);
        }
        assert(origins_view(from@) =~= given_values(map@, exprs_view(row@)));
        if let Err(err) = compile_insert_row(b, table, indexes, &from, ret, functions) {
            return Err(err);
        }
    }
    Ok(())
}

fn compile_insert_values(
    ins: &InsertStmt,
    table: &Table,
    indexes: &[IndexObject],
    rows: &Vec<Vec<Expr>>,
    functions: &Functions,
) -> (r: Result<Program, Error>)
    ensures
        built(
            r,
            gen_insert_values(
                ins@,
                table@,
                indexes_view(indexes@),
                expr_rows_view(rows@),
                functions@,
            ),
        ),
{
    broadcast use {crate::builder::asm_fail, returned_rows_stuck};

    reveal(gen_insert_values);
    if rows.len() == 0 {
        return Err(Error::lit("INSERT must supply at least one VALUES row"));
    }
    let map = match map_values(&ins.columns, table) {
        Ok(m) => m,
        Err(err) => {
            return Err(err);
        },
    };
    let width: usize = width_of(&ins.columns, table);
    if let Err(err) = validate_indexes(table, indexes) {
        return Err(err);
    }
    let ret = match returning_clause(&ins.returning, table) {
        Ok(x) => x,
        Err(err) => {
            return Err(err);
        },
    };
    let (mut b, setup, after_init, ret) = begin_insert(table, indexes, ret);
    if let Err(err) = compile_value_rows(
        &mut b,
        table,
        indexes,
        &map,
        width,
        rows,
        &ret,
        functions,
    ) {
        return Err(err);
    }
    if let Some(x) = &ret {
        x.emit_output_loop(&mut b);
    }
    b.emit(Opcode::Halt, 0, 0, 0);
    Ok(end_bare(b, setup, after_init))
}

/// The defaults of the columns.
pub open spec fn default_values(t: TableView) -> Seq<Origin> {
    Seq::new(
        t.columns.len(),
        |i: int|
            match t.columns[i].default {
                Some(e) => Origin::Given(e),
                None => Origin::Unset,
            },
    )
}

/// `INSERT ... DEFAULT VALUES`.
#[verifier::opaque]
pub open spec fn gen_insert_defaults(
    ins: InsertView,
    t: TableView,
    ixs: Seq<IndexView>,
    f: FunctionsView,
) -> Asm {
    match index_error(ixs, t, 0) {
        Some(m) => Asm::start().fail(m),
        None => match clause_of(ins.returning, t) {
            Err(m) => Asm::start().fail(m),
            Ok(ret) => {
                let r = insert_opened(t, ixs, ret);
                let s = gen_insert_row(
                    gen_insert_open(t, ixs, ret),
                    t,
                    ixs,
                    default_values(t),
                    r,
                    f,
                );
                gen_bare_epilogue(gen_return_rows(s, r).emit(Opcode::Halt, 0, 0, 0))
            },
        },
    }
}

fn compile_insert_default_values(
    ins: &InsertStmt,
    table: &Table,
    indexes: &[IndexObject],
    functions: &Functions,
) -> (r: Result<Program, Error>)
    ensures
        built(r, gen_insert_defaults(ins@, table@, indexes_view(indexes@), functions@)),
{
    broadcast use {crate::builder::asm_fail, returned_rows_stuck};

    reveal(gen_insert_defaults);
    if let Err(err) = validate_indexes(table, indexes) {
        return Err(err);
    }
    let ret = match returning_clause(&ins.returning, table) {
        Ok(x) => x,
        Err(err) => {
            return Err(err);
        },
    };
    let mut from: Vec<Feed> = Vec::new();
    assert(table@.columns == columns_view(table.columns@));
    for i in 0..table.columns.len()
        invariant
            table@.columns == columns_view(table.columns@),
            from@.len() == i,
            forall|j: int| 0 <= j < i ==> (#[trigger] from@[j])@ == default_values(table@)[j],
    {
        assert(table@.columns[i as int] == table.columns@[i as int]@);
        let x = match &table.columns[i].default {
            Some(e) => Feed::Given(e),
            None => Feed::Unset,
        };
        from.push(x);
    }
    assert(origins_view(from@) =~= default_values(table@));
    let (mut b, setup, after_init, ret) = begin_insert(table, indexes, ret);
    if let Err(err) = compile_insert_row(&mut b, table, indexes, &from, &ret, functions) {
        return Err(err);
    }
    if let Some(x) = &ret {
        x.emit_output_loop(&mut b);
    }
    b.emit(Opcode::Halt, 0, 0, 0);
    Ok(end_bare(b, setup, after_init))
}

// ---- INSERT ... SELECT ----

/// The cursor of the sorter that the selected rows are gathered in: the first one after the
/// table, its indexes and the rows to return.
pub open spec fn stage_cursor(ixs: Seq<IndexView>, ret: Option<ReturningView>) -> i32 {
    let eph = 1i32.wrapping_add(ixs.len() as i32);
    if ret is Some {
        eph.wrapping_add(1)
    } else {
        eph
    }
}

/// Keys that compare in ascending order, one more than there are values.
pub open spec fn stage_keys(width: nat) -> Seq<KeyField> {
    Seq::new(width + 1, |i: int| ascending())
}

fn stage_key_info(width: usize) -> (r: Vec<KeyField>)
    ensures
        r@ == stage_keys(width as nat),
{
    let mut r: Vec<KeyField> = Vec::new();
    for i in 0..width
        invariant
            r@.len() == i,
            forall|j: int| 0 <= j < i ==> (#[trigger] r@[j]) == ascending(),
    {
        r.push(KeyField::asc_binary());
    }
    r.push(KeyField::asc_binary());
    assert(r@ =~= stage_keys(width as nat));
    r
}

/// The gathered rows stored and returned.
#[verifier::opaque]
pub open spec fn gen_store_stage(
    s: Asm,
    t: TableView,
    ixs: Seq<IndexView>,
    map: Seq<Option<usize>>,
    width: i32,
    stage: i32,
    ret: Option<ReturningView>,
    f: FunctionsView,
) -> Asm {
    let done = s.fresh();
    let s = s.label().jump(Opcode::SorterSort, stage, done, 0);
    let top = s.here();
    let s = s.emit(Opcode::SorterData, stage, 0, 0);
    let source = s.next_reg;
    let n = width.wrapping_add(1);
    let s = gen_columns(s.take_regs(n), stage, 0, source, n as int, 0);
    gen_insert_row(s, t, ixs, copied_values(map, source.wrapping_add(1)), ret, f).emit(
        Opcode::SorterNext,
        stage,
        top,
        0,
    ).bind(done)
}

pub broadcast proof fn store_stage_stuck(
    s: Asm,
    t: TableView,
    ixs: Seq<IndexView>,
    map: Seq<Option<usize>>,
    width: i32,
    stage: i32,
    ret: Option<ReturningView>,
    f: FunctionsView,
)
    requires
        s.err is Some,
    ensures
        #![trigger gen_store_stage(s, t, ixs, map, width, stage, ret, f)]
        gen_store_stage(s, t, ixs, map, width, stage, ret, f) == s,
{
    broadcast use insert_row_stuck;

    reveal(gen_store_stage);
}

fn compile_store_stage(
    b: &mut ProgramBuilder,
    table: &Table,
    indexes: &[IndexObject],
    map: &Vec<Option<usize>>,
    width: i32,
    stage: i32,
    ret: &Option<Returning>,
    functions: &Functions,
) -> (r: Result<(), Error>)
    requires
        map@.len() == table@.columns.len(),
        indexes_fit(indexes_view(indexes@), table@),
    ensures
        emitted(
            r,
            final(b)@,
            gen_store_stage(
                old(b)@,
                table@,
                indexes_view(indexes@),
                map@,
                width,
                stage,
                opt_returning_view(*ret),
                functions@,
            ),
        ),
        r is Ok ==> steady(old(b)@, final(b)@),
{
    broadcast use insert_row_stuck;

    reveal(gen_store_stage);
    let done = b.new_label();
    b.emit_jump(Opcode::SorterSort, stage, done, 0);
    let top: i32 = b.cur_addr();
    b.emit(Opcode::SorterData, stage, 0, 0);
    let n: i32 = width.wrapping_add(1);
    let source: i32 = b.alloc_regs(n);
    emit_columns(b, stage, 0, source, n);
    let base: i32 = source.wrapping_add(1);
    let mut from: Vec<Feed> = Vec::new();
    for i in 0..map.len()
        invariant
            from@.len() == i,
            forall|j: int| 0 <= j < i ==> (#[trigger] from@[j])@ == copied_values(map@, base)[j],
    {
        let x = match map[i] {
            Some(v) => Feed::Copied(reg_off(base, v)),
            None => Feed::Absent,
        };
        from.push(x);
    }
    assert(origins_view(from@) =~= copied_values(map@, base));
    if let Err(err) = compile_insert_row(b, table, indexes, &from, ret, functions) {
        return Err(err);
    }
    b.emit(Opcode::SorterNext, stage, top, 0);
    b.resolve(done);
    Ok(())
}

/// `INSERT ... SELECT`. `query` is what the query compiles to.
#[verifier::opaque]
pub open spec fn gen_insert_select(
    ins: InsertView,
    t: TableView,
    ixs: Seq<IndexView>,
    sel: SelectStmtView,
    query: Result<ProgramView, Seq<char>>,
    f: FunctionsView,
) -> Asm {
    let width = row_width(ins.columns, t);
    match value_map(ins.columns, t) {
        Err(m) => Asm::start().fail(m),
        Ok(map) => if sel.values.len() > 0 && sel.values[0].len() != width {
            Asm::start().fail(wrong_width(t, width, sel.values[0].len()))
        } else {
            match index_error(ixs, t, 0) {
                Some(m) => Asm::start().fail(m),
                None => match clause_of(ins.returning, t) {
                    Err(m) => Asm::start().fail(m),
                    Ok(ret) => {
                        let r = insert_opened(t, ixs, ret);
                        let stage = stage_cursor(ixs, ret);
                        let s = gen_insert_open(t, ixs, ret).emit_p4(
                            Opcode::SorterOpen,
                            stage,
                            (width as i32).wrapping_add(1),
                            0,
                            P4View::KeyInfo(stage_keys(width)),
                        ).note_cursor(stage);
                        match query {
                            Err(m) => s.fail(m),
                            Ok(p) => {
                                let s = gen_query(
                                    s,
                                    p,
                                    SinkView::Stage { sorter: stage, width: width as i32 },
                                    None,
                                    "query program has no Halt"@,
                                );
                                let s = gen_store_stage(s, t, ixs, map, width as i32, stage, r, f);
                                gen_bare_epilogue(gen_return_rows(s, r).emit(Opcode::Halt, 0, 0, 0))
                            },
                        }
                    },
                },
            }
        },
    }
}

fn compile_insert_select(
    ins: &InsertStmt,
    table: &Table,
    indexes: &[IndexObject],
    sel: &SelectStmt,
    source_table: Option<&Table>,
    source_indexes: &[IndexObject],
    functions: &Functions,
) -> (r: Result<Program, Error>)
    requires
        source_table matches Some(t) ==> t@.wf(),
    ensures
        built(
            r,
            gen_insert_select(
                ins@,
                table@,
                indexes_view(indexes@),
                sel@,
                compiled(
                    sel@,
                    opt_table_view(source_table),
                    indexes_view(source_indexes@),
                    Seq::empty(),
                    functions@,
                ),
                functions@,
            ),
        ),
{
    broadcast use {crate::builder::asm_fail, store_stage_stuck, returned_rows_stuck};

    reveal(gen_insert_select);
    let map = match map_values(&ins.columns, table) {
        Ok(m) => m,
        Err(err) => {
            return Err(err);
        },
    };
    let width: usize = width_of(&ins.columns, table);
    assert(sel@.values == expr_rows_view(sel.values@));
    if sel.values.len() > 0 {
        let first = &sel.values[0];
        assert(sel@.values[0] == exprs_view(first@));
        if first.len() != width {
            return Err(width_error(table, width, first.len()));
        }
    }
    if let Err(err) = validate_indexes(table, indexes) {
        return Err(err);
    }
    let ret = match returning_clause(&ins.returning, table) {
        Ok(x) => x,
        Err(err) => {
            return Err(err);
        },
    };
    let mut stage: i32 = 1i32.wrapping_add(indexes.len() as i32);
    if ret.is_some() {
        stage = stage.wrapping_add(1);
    }
    let (mut b, setup, after_init, ret) = begin_insert(table, indexes, ret);
    let n: i32 = width as i32;
    b.emit_p4(Opcode::SorterOpen, stage, n.wrapping_add(1), 0, P4::KeyInfo(stage_key_info(width)));
    b.note_cursor(stage);
    let sources: Vec<Result<Source, Error>> = Vec::new();
    assert(sources_view(sources@) =~= Seq::empty());
    let query = match compile(sel, source_table, source_indexes, sources.as_slice(), functions) {
        Ok(x) => x.0,
        Err(err) => {
            return Err(err);
        },
    };
    if let Err(err) = inline_query(
        &mut b,
        &query,
        Sink::Stage { sorter: stage, width: n },
        None,
        "query program has no Halt",
    ) {
        return Err(err);
    }
    if let Err(err) = compile_store_stage(
        &mut b,
        table,
        indexes,
        &map,
        n,
        stage,
        &ret,
        functions,
    ) {
        return Err(err);
    }
    if let Some(x) = &ret {
        x.emit_output_loop(&mut b);
    }
    b.emit(Opcode::Halt, 0, 0, 0);
    Ok(end_bare(b, setup, after_init))
}

// ---- Rows of a table without a rowid ----

/// The value of column `k`: the one given, else the default of the column, else NULL.
#[verifier::opaque]
pub open spec fn gen_keyed_value(
    s: Asm,
    t: TableView,
    k: int,
    given: Option<ExprView>,
    row: i32,
    ctx: CtxView,
) -> Asm {
    let target = reg_at(row, k);
    match given {
        Some(e) => gen_typed(s, e, target, t.columns[k].affinity, ctx),
        None => match t.columns[k].default {
            Some(e) => gen_typed(s, e, target, t.columns[k].affinity, ctx),
            None => s.emit(Opcode::Null, 0, target, 0),
        },
    }
}

/// The value that a row gives for each column, as far as it gives one.
pub open spec fn keyed_values(map: Seq<Option<usize>>, row: Seq<ExprView>) -> Seq<Option<ExprView>> {
    Seq::new(
        map.len(),
        |i: int|
            match map[i] {
                Some(v) => if v < row.len() {
                    Some(row[v as int])
                } else {
                    None
                },
                None => None,
            },
    )
}

/// The values of the columns from the `k`-th on.
pub open spec fn gen_keyed_values(
    s: Asm,
    t: TableView,
    given: Seq<Option<ExprView>>,
    row: i32,
    ctx: CtxView,
    k: int,
) -> Asm
    decreases given.len() - k,
{
    if s.err is Some || k < 0 || k >= given.len() {
        s
    } else {
        gen_keyed_values(
            gen_keyed_value(s, t, k, given[k], row, ctx),
            t,
            given,
            row,
            ctx,
            k + 1,
        )
    }
}

/// A column by its full name.
pub open spec fn full_name(t: TableView, c: usize) -> Seq<char> {
    t.name + "."@ + t.columns[c as int].name
}

/// The first `n` primary-key columns by their full names.
pub open spec fn pk_names(t: TableView, n: int) -> Seq<char>
    decreases n,
{
    if n <= 0 || n > t.pk_columns.len() {
        ""@
    } else if n == 1 {
        full_name(t, t.pk_columns[0].0)
    } else {
        pk_names(t, n - 1) + ", "@ + full_name(t, t.pk_columns[n - 1].0)
    }
}

/// The message about a duplicate primary key.
pub open spec fn pk_message(t: TableView) -> Seq<char> {
    "UNIQUE constraint failed: "@ + pk_names(t, t.pk_columns.len() as int)
}

/// The primary-key columns from the `k`-th on tested for NULL.
pub open spec fn gen_pk_tests(s: Asm, t: TableView, row: i32, k: int) -> Asm
    decreases t.pk_columns.len() - k,
{
    if s.err is Some || k < 0 || k >= t.pk_columns.len() {
        s
    } else {
        let c = t.pk_columns[k].0;
        gen_pk_tests(
            s.emit_p4(
                Opcode::HaltIfNull,
                0,
                0,
                reg_at(row, c as int),
                P4View::Text("NOT NULL constraint failed: "@ + full_name(t, c)),
            ),
            t,
            row,
            k + 1,
        )
    }
}

/// The other columns from the `k`-th on copied to where they are stored.
pub open spec fn gen_rest_copies(s: Asm, t: TableView, row: i32, key: i32, k: int) -> Asm
    decreases t.columns.len() - k,
{
    if s.err is Some || k < 0 || k >= t.columns.len() {
        s
    } else {
        gen_rest_copies(
            if pk_from(t.pk_columns, k as usize, 0) is Some {
                s
            } else {
                s.emit(
                    Opcode::SCopy,
                    reg_at(row, k),
                    reg_at(key, t.storage_index(k as usize)),
                    0,
                )
            },
            t,
            row,
            key,
            k + 1,
        )
    }
}

/// A row stored in the table and in the indexes, and returned.
#[verifier::opaque]
pub open spec fn gen_keyed_row(
    s: Asm,
    t: TableView,
    ixs: Seq<IndexView>,
    given: Seq<Option<ExprView>>,
    ret: Option<ReturningView>,
    f: FunctionsView,
) -> Asm {
    let width = t.storage_width() as i32;
    let row = s.next_reg;
    let s = gen_keyed_values(
        s.take_regs(t.columns.len() as i32),
        t,
        given,
        row,
        table_ctx(t, TABLE, f),
        0,
    );
    let s = gen_pk_tests(s, t, row, 0);
    let key = s.next_reg;
    let s = gen_pk_copies(s.take_regs(width), t.pk_columns, row, key, 0);
    let s = gen_rest_copies(s, t, row, key, 0);
    let rec = s.next_reg;
    let s = s.take_regs(1).emit(Opcode::MakeRecord, key, width, rec).emit_p45(
        Opcode::IdxInsert,
        TABLE,
        rec,
        0,
        P4View::Text(pk_message(t)),
        entry_flags(true),
    );
    gen_return_row(gen_entries(s, ixs, t, row, None, f, 0), ret, t, row, f)
}

pub broadcast proof fn keyed_row_stuck(
    s: Asm,
    t: TableView,
    ixs: Seq<IndexView>,
    given: Seq<Option<ExprView>>,
    ret: Option<ReturningView>,
    f: FunctionsView,
)
    requires
        s.err is Some,
    ensures
        #![trigger gen_keyed_row(s, t, ixs, given, ret, f)]
        gen_keyed_row(s, t, ixs, given, ret, f) == s,
{
    broadcast use returned_row_stuck;

    reveal(gen_keyed_row);
}

fn name_in_full(table: &Table, c: usize) -> (r: String)
    requires
        c < table@.columns.len(),
    ensures
        r@ == full_name(table@, c),
{
    assert(table@.columns[c as int] == table.columns@[c as int]@);
    cat3(table.name.as_str(), ".", table.columns[c].name.as_str())
}

fn pk_conflict(table: &Table) -> (r: String)
    requires
        table@.wf(),
    ensures
        r@ == pk_message(table@),
{
    let mut names = owned("");
    for k in 0..table.pk_columns.len()
        invariant
            table@.wf(),
            names@ == pk_names(table@, k as int),
    {
        assert(table@.pk_columns[k as int] == table.pk_columns@[k as int]);
        let name = name_in_full(table, table.pk_columns[k].0);
        if k == 0 {
            names = name;
        } else {
            names.append(", ");
            names.append(name.as_str());
        }
    }
    cat2("UNIQUE constraint failed: ", names.as_str())
}

fn emit_pk_tests(b: &mut ProgramBuilder, table: &Table, row: i32)
    requires
        table@.wf(),
    ensures
        final(b)@ == gen_pk_tests(old(b)@, table@, row, 0),
        steady(old(b)@, final(b)@),
{
    let ghost want = gen_pk_tests(b@, table@, row, 0);
    for k in 0..table.pk_columns.len()
        invariant
            table@.wf(),
            gen_pk_tests(b@, table@, row, k as int) == want,
            steady(old(b)@, b@),
    {
        assert(table@.pk_columns[k as int] == table.pk_columns@[k as int]);
        let c: usize = table.pk_columns[k].0;
        let message = cat2("NOT NULL constraint failed: ", name_in_full(table, c).as_str());
        b.emit_p4(Opcode::HaltIfNull, 0, 0, reg_off(row, c), P4::Text(message));
    }
}

fn emit_rest_copies(b: &mut ProgramBuilder, table: &Table, row: i32, key: i32)
    ensures
        final(b)@ == gen_rest_copies(old(b)@, table@, row, key, 0),
        steady(old(b)@, final(b)@),
{
    let ghost want = gen_rest_copies(b@, table@, row, key, 0);
    assert(table@.columns == columns_view(table.columns@));
    for k in 0..table.columns.len()
        invariant
            table@.columns == columns_view(table.columns@),
            gen_rest_copies(b@, table@, row, key, k as int) == want,
            steady(old(b)@, b@),
    {
        if table.pk_position(k).is_none() {
            let at: i32 = table.without_rowid_storage_index(k);
            b.emit(Opcode::SCopy, reg_off(row, k), key.wrapping_add(at), 0);
        }
    }
}

spec fn opt_exprs_view(s: Seq<Option<&Expr>>) -> Seq<Option<ExprView>> {
    Seq::new(
        s.len(),
        |i: int|
            match s[i] {
                Some(e) => Some(e@),
                None => None,
            },
    )
}

fn compile_keyed_values(
    b: &mut ProgramBuilder,
    table: &Table,
    given: &Vec<Option<&Expr>>,
    row: i32,
    ctx: Ctx,
) -> (r: Result<(), Error>)
    requires
        given@.len() == table@.columns.len(),
    ensures
        emitted(
            r,
            final(b)@,
            gen_keyed_values(old(b)@, table@, opt_exprs_view(given@), row, ctx@, 0),
        ),
        r is Ok ==> steady(old(b)@, final(b)@),
{
    let ghost gv = opt_exprs_view(given@);
    let ghost want = gen_keyed_values(b@, table@, gv, row, ctx@, 0);
    assert(table@.columns == columns_view(table.columns@));
    for k in 0..given.len()
        invariant
            gv == opt_exprs_view(given@),
            given@.len() == table@.columns.len(),
            table@.columns == columns_view(table.columns@),
            gen_keyed_values(b@, table@, gv, row, ctx@, k as int) == want,
            want == gen_keyed_values(old(b)@, table@, gv, row, ctx@, 0),
            steady(old(b)@, b@),
    {
        proof {
            reveal_with_fuel(gen_keyed_values, 2);
            reveal(gen_keyed_value);
            assert(table@.columns[k as int] == table.columns@[k as int]@);
        }
        let target: i32 = reg_off(row, k);
        let affinity = table.columns[k].affinity;
        match given[k] {
            Some(e) => {
                assert(gv[k as int] == Some(e@));
                if let Err(err) = compile_typed(b, e, target, affinity, ctx) {
                    return Err(err);
                }
            },
            None => {
                assert(gv[k as int] is None);
                match &table.columns[k].default {
                    Some(e) => {
                        assert(table@.columns[k as int].default == Some(e@));
                        if let Err(err) = compile_typed(b, e, target, affinity, ctx) {
                            return Err(err);
                        }
                    },
                    None => {
                        b.emit(Opcode::Null, 0, target, 0);
                    },
                }
            },
        }
    }
    Ok(())
}

fn compile_keyed_row(
    b: &mut ProgramBuilder,
    table: &Table,
    indexes: &[IndexObject],
    given: &Vec<Option<&Expr>>,
    ret: &Option<Returning>,
    functions: &Functions,
) -> (r: Result<(), Error>)
    requires
        table@.wf(),
        given@.len() == table@.columns.len(),
        indexes_fit(indexes_view(indexes@), table@),
    ensures
        emitted(
            r,
            final(b)@,
            gen_keyed_row(
                old(b)@,
                table@,
                indexes_view(indexes@),
                opt_exprs_view(given@),
                opt_returning_view(*ret),
                functions@,
            ),
        ),
        r is Ok ==> steady(old(b)@, final(b)@),
{
    broadcast use returned_row_stuck;

    reveal(gen_keyed_row);
    let width: i32 = table.without_rowid_storage_width();
    let row: i32 = b.alloc_regs(table.columns.len() as i32);
    let ctx = over_table(table, TABLE, functions);
    if let Err(err) = compile_keyed_values(b, table, given, row, ctx) {
        return Err(err);
    }
    emit_pk_tests(b, table, row);
    let key: i32 = b.alloc_regs(width);
    emit_pk_copies(b, table, row, key);
    emit_rest_copies(b, table, row, key);
    let rec: i32 = b.alloc_reg();
    b.emit(Opcode::MakeRecord, key, width, rec);
    b.emit_p45(
        Opcode::IdxInsert,
        TABLE,
        rec,
        0,
        P4::Text(pk_conflict(table)),
        P5_NCHANGE | P5_UNIQUE,
    );
    if let Err(err) = compile_entries(b, indexes, table, row, None, functions) {
        return Err(err);
    }
    match ret {
        Some(x) => x.emit_buffer_row(b, table, TABLE, row, functions),
        None => Ok(()),
    }
}

/// The rows from the `k`-th on. Without a width the number of values does not matter.
pub open spec fn gen_keyed_rows(
    s: Asm,
    t: TableView,
    ixs: Seq<IndexView>,
    map: Seq<Option<usize>>,
    width: Option<nat>,
    rows: Seq<Seq<ExprView>>,
    ret: Option<ReturningView>,
    f: FunctionsView,
    k: int,
) -> Asm
    decreases rows.len() - k,
{
    if s.err is Some || k < 0 || k >= rows.len() {
        s
    } else {
        gen_keyed_rows(
            if width matches Some(w) && rows[k].len() != w {
                s.fail(wrong_width(t, width->0, rows[k].len()))
            } else {
                gen_keyed_row(s, t, ixs, keyed_values(map, rows[k]), ret, f)
            },
            t,
            ixs,
            map,
            width,
            rows,
            ret,
            f,
            k + 1,
        )
    }
}

fn compile_keyed_rows(
    b: &mut ProgramBuilder,
    table: &Table,
    indexes: &[IndexObject],
    map: &Vec<Option<usize>>,
    width: Option<usize>,
    rows: &Vec<Vec<Expr>>,
    ret: &Option<Returning>,
    functions: &Functions,
) -> (r: Result<(), Error>)
    requires
        table@.wf(),
        map@.len() == table@.columns.len(),
        indexes_fit(indexes_view(indexes@), table@),
    ensures
        emitted(
            r,
            final(b)@,
            gen_keyed_rows(
                old(b)@,
                table@,
                indexes_view(indexes@),
                map@,
                opt_width(width),
                expr_rows_view(rows@),
                opt_returning_view(*ret),
                functions@,
                0,
            ),
        ),
        r is Ok ==> steady(old(b)@, final(b)@),
{
    broadcast use {crate::builder::asm_fail, keyed_row_stuck};

    let ghost ixs = indexes_view(indexes@);
    let ghost rv = opt_returning_view(*ret);
    let ghost rs = expr_rows_view(rows@);
    let ghost w = opt_width(width);
    let ghost want = gen_keyed_rows(b@, table@, ixs, map@, w, rs, rv, functions@, 0);
    for k in 0..rows.len()
        invariant
            table@.wf(),
            ixs == indexes_view(indexes@),
            rv == opt_returning_view(*ret),
            rs == expr_rows_view(rows@),
            w == opt_width(width),
            map@.len() == table@.columns.len(),
            indexes_fit(ixs, table@),
            gen_keyed_rows(b@, table@, ixs, map@, w, rs, rv, functions@, k as int) == want,
            want == gen_keyed_rows(old(b)@, table@, ixs, map@, w, rs, rv, functions@, 0),
            steady(old(b)@, b@),
    {
        let row = &rows[k];
        proof {
            reveal_with_fuel(gen_keyed_rows, 2);
            assert(rs[k as int] == exprs_view(row@));
        }
        if let Some(n) = width {
            if row.len() != n {
                return Err(width_error(table, n, row.len()));
            }
        }
        let mut given: Vec<Option<&Expr>> = Vec::new();
        let ghost kv = keyed_values(map@, exprs_view(row@));
        for i in 0..map.len()
            invariant
                kv == keyed_values(map@, exprs_view(row@)),
                given@.len() == i,
                forall|j: int| 0 <= j < i ==> opt_exprs_view(given@)[j] == #[trigger] kv[j],
        {
            let x: Option<&Expr> = match map[i] {
                Some(v) => {
                    if v < row.len() {
                        assert(exprs_view(row@)[v as int] == row@[v as int]@);
                        Some(&row[v])
                    } else {
                        None
                    }
                },
                None => None,
            };
            let ghost before = opt_exprs_view(given@);
            given.push(x);
            assert(forall|j: int| 0 <= j < i ==> opt_exprs_view(given@)[j] == before[j]);
            assert(opt_exprs_view(given@)[i as int] == kv[i as int]);
        }
        assert(opt_exprs_view(given@) =~= kv);
        if let Err(err) = compile_keyed_row(b, table, indexes, &given, ret, functions) {
            return Err(err);
        }
    }
    Ok(())
}

/// An optional width as a number.
pub open spec fn opt_width(w: Option<usize>) -> Option<nat> {
    match w {
        Some(n) => Some(n as nat),
        None => None,
    }
}

/// The first instructions of an `INSERT` into a table without a rowid.
#[verifier::opaque]
pub open spec fn gen_keyed_open(
    t: TableView,
    ixs: Seq<IndexView>,
    ret: Option<ReturningView>,
) -> Asm {
    let s = prologue().emit(Opcode::Transaction, 0, 1, 0).emit_p4(
        Opcode::OpenWrite,
        TABLE,
        t.rootpage as i32,
        0,
        P4View::KeyInfo(t.key_info()),
    ).note_cursor(TABLE);
    gen_open_returning(
        gen_open_indexes(s, ixs, 1, 0),
        ret,
        1i32.wrapping_add(ixs.len() as i32),
    )
}

/// An `INSERT` into a table without a rowid, of the given rows.
#[verifier::opaque]
pub open spec fn gen_insert_keyed(
    ins: InsertView,
    t: TableView,
    ixs: Seq<IndexView>,
    rows: Seq<Seq<ExprView>>,
    width: Option<nat>,
    f: FunctionsView,
) -> Asm {
    match value_map(ins.columns, t) {
        Err(m) => Asm::start().fail(m),
        Ok(map) => match index_error(ixs, t, 0) {
            Some(m) => Asm::start().fail(m),
            None => match clause_of(ins.returning, t) {
                Err(m) => Asm::start().fail(m),
                Ok(ret) => {
                    let r = opened(
                        gen_keyed_open(t, ixs, None),
                        ret,
                        1i32.wrapping_add(ixs.len() as i32),
                    );
                    let s = gen_keyed_rows(
                        gen_keyed_open(t, ixs, ret),
                        t,
                        ixs,
                        map,
                        width,
                        rows,
                        r,
                        f,
                        0,
                    );
                    gen_bare_epilogue(gen_return_rows(s, r).emit(Opcode::Halt, 0, 0, 0))
                },
            },
        },
    }
}

fn compile_insert_keyed(
    ins: &InsertStmt,
    table: &Table,
    indexes: &[IndexObject],
    rows: &Vec<Vec<Expr>>,
    width: Option<usize>,
    functions: &Functions,
) -> (r: Result<Program, Error>)
    requires
        table@.wf(),
    ensures
        built(
            r,
            gen_insert_keyed(
                ins@,
                table@,
                indexes_view(indexes@),
                expr_rows_view(rows@),
                opt_width(width),
                functions@,
            ),
        ),
{
    broadcast use {crate::builder::asm_fail, returned_rows_stuck};

    reveal(gen_insert_keyed);
    reveal(gen_keyed_open);
    let map = match map_values(&ins.columns, table) {
        Ok(m) => m,
        Err(err) => {
            return Err(err);
        },
    };
    if let Err(err) = validate_indexes(table, indexes) {
        return Err(err);
    }
    let ret = match returning_clause(&ins.returning, table) {
        Ok(x) => x,
        Err(err) => {
            return Err(err);
        },
    };
    let (mut b, setup, after_init) = begin();
    b.emit(Opcode::Transaction, 0, 1, 0);
    b.emit_p4(
        Opcode::OpenWrite,
        TABLE,
        table.rootpage as i32,
        0,
        P4::KeyInfo(table.without_rowid_key_info()),
    );
    b.note_cursor(TABLE);
    open_index_cursors(&mut b, indexes, 1);
    let eph: i32 = 1i32.wrapping_add(indexes.len() as i32);
    let ret = open_returning(&mut b, ret, eph);
    if let Err(err) = compile_keyed_rows(
        &mut b,
        table,
        indexes,
        &map,
        width,
        rows,
        &ret,
        functions,
    ) {
        return Err(err);
    }
    if let Some(x) = &ret {
        x.emit_output_loop(&mut b);
    }
    b.emit(Opcode::Halt, 0, 0, 0);
    Ok(end_bare(b, setup, after_init))
}

/// An `INSERT` into a table without a rowid.
#[verifier::opaque]
pub open spec fn gen_insert_without_rowid(
    ins: InsertView,
    t: TableView,
    ixs: Seq<IndexView>,
    f: FunctionsView,
) -> Asm {
    match ins.source {
        InsertSourceView::Values(rows) => gen_insert_keyed(
            ins,
            t,
            ixs,
            rows,
            Some(row_width(ins.columns, t)),
            f,
        ),
        InsertSourceView::DefaultValues => gen_insert_keyed(
            ins,
            t,
            ixs,
            seq![Seq::<ExprView>::empty()],
            None,
            f,
        ),
        InsertSourceView::Select(_) => Asm::start().fail(
            "INSERT ... SELECT into a WITHOUT ROWID table is not supported yet"@,
        ),
    }
}

fn compile_insert_without_rowid(
    ins: &InsertStmt,
    table: &Table,
    indexes: &[IndexObject],
    functions: &Functions,
) -> (r: Result<Program, Error>)
    requires
        table@.wf(),
    ensures
        built(r, gen_insert_without_rowid(ins@, table@, indexes_view(indexes@), functions@)),
{
    broadcast use crate::builder::asm_fail;

    reveal(gen_insert_without_rowid);
    match &ins.source {
        InsertSource::Values(rows) => {
            let width: usize = width_of(&ins.columns, table);
            compile_insert_keyed(ins, table, indexes, rows, Some(width), functions)
        },
        InsertSource::DefaultValues => {
            let mut rows: Vec<Vec<Expr>> = Vec::new();
            rows.push(Vec::new());
            assert(exprs_view(rows@[0]@) =~= Seq::<ExprView>::empty());
            assert(expr_rows_view(rows@) =~= seq![Seq::<ExprView>::empty()]);
            compile_insert_keyed(ins, table, indexes, &rows, None, functions)
        },
        InsertSource::Select(_) => Err(
            Error::lit("INSERT ... SELECT into a WITHOUT ROWID table is not supported yet"),
        ),
    }
}

// ---- The statement ----

/// An `INSERT` statement.
#[verifier::opaque]
pub open spec fn gen_insert(
    ins: InsertView,
    t: TableView,
    ixs: Seq<IndexView>,
    source: Option<TableView>,
    source_ixs: Seq<IndexView>,
    f: FunctionsView,
) -> Asm {
    if t.without_rowid {
        gen_insert_without_rowid(ins, t, ixs, f)
    } else {
        match ins.source {
            InsertSourceView::Values(rows) => gen_insert_values(ins, t, ixs, rows, f),
            InsertSourceView::Select(sel) => gen_insert_select(
                ins,
                t,
                ixs,
                sel,
                compiled(sel, source, source_ixs, Seq::empty(), f),
                f,
            ),
            InsertSourceView::DefaultValues => gen_insert_defaults(ins, t, ixs, f),
        }
    }
}

/// Compile an `INSERT` statement into `table`, whose indexes are `indexes`. `source_table` is the
/// table that the query of an `INSERT ... SELECT` reads, and `source_indexes` are its indexes.
pub fn compile_insert(
    ins: &InsertStmt,
    table: &Table,
    indexes: &[IndexObject],
    source_table: Option<&Table>,
    source_indexes: &[IndexObject],
    functions: &Functions,
) -> (r: Result<Program, Error>)
    requires
        table@.wf(),
        source_table matches Some(t) ==> t@.wf(),
    ensures
        built(
            r,
            gen_insert(
                ins@,
                table@,
                indexes_view(indexes@),
                opt_table_view(source_table),
                indexes_view(source_indexes@),
                functions@,
            ),
        ),
{
    reveal(gen_insert);
    if table.without_rowid {
        return compile_insert_without_rowid(ins, table, indexes, functions);
    }
    match &ins.source {
        InsertSource::Values(rows) => compile_insert_values(ins, table, indexes, rows, functions),
        InsertSource::Select(sel) => compile_insert_select(
            ins,
            table,
            indexes,
            sel,
            source_table,
            source_indexes,
            functions,
        ),
        InsertSource::DefaultValues => compile_insert_default_values(
            ins,
            table,
            indexes,
            functions,
        ),
    }
}

} // verus!
