//! What expressions are compiled against: the tables in scope, where their columns are read
//! from, and the affinity and collation that columns bring to a comparison.
use vstd::prelude::*;

use crate::ast::{opt_name_view, Expr, ExprView};
use crate::builder::{group_asm, reg_at, reg_off, Asm, ProgramBuilder};
use crate::schema::{collation_named, ColumnRef, Functions, FunctionsView, Table, TableView};
use crate::text::{cat2, cat3, chars_of, eq_ignore_case, eq_nocase, owned, Error};
use crate::vdbe::{Affinity, Collation, Opcode, P4, P4View};

verus! {

broadcast use group_asm;

/// One table in a join: the table, the cursor it is open on, and the name that qualifies its
/// columns (its alias, or else its own name).
#[derive(Clone, Copy)]
pub struct JoinTable<'a> {
    pub table: &'a Table,
    pub cursor: i32,
    pub name: &'a str,
}

/// One table of an enclosing query. `cursor` stands for the table until the subquery is placed
/// in its program.
#[derive(Clone, Copy)]
pub struct OuterTable<'a> {
    pub table: &'a Table,
    pub cursor: i32,
    pub name: &'a str,
}

/// The tables of an enclosing query, and the query around that one.
pub struct OuterScope<'a> {
    pub tables: &'a [OuterTable<'a>],
    pub parent: Option<&'a OuterScope<'a>>,
}

/// The cursor of expressions that stand outside any table.
pub const NO_CURSOR: i32 = -1;

/// Stand-in cursor numbers for the tables of enclosing queries start here.
pub const OUTER_CURSOR_BASE: i32 = 10_000;

/// How to read columns from an index in place of its table.
#[derive(Clone, Copy)]
pub struct IndexRead<'a> {
    /// The cursor the index is open on.
    pub cursor: i32,
    /// For each table column, its position in the index key record; `usize::MAX` if it has none.
    pub column_positions: &'a [usize],
    /// The position of the rowid in the index key record.
    pub rowid_position: usize,
}

/// What an expression is compiled against.
#[derive(Clone, Copy)]
pub struct Ctx<'a> {
    pub table: &'a Table,
    /// The cursor the table is open on.
    pub cursor: i32,
    /// When set, columns are read from the registers that start here.
    pub register_base: Option<i32>,
    /// When set, columns are read from an index.
    pub index_read: Option<IndexRead<'a>>,
    /// When set, columns are looked up in these tables, in order.
    pub join_tables: Option<&'a [JoinTable<'a>]>,
    /// The enclosing query, for correlated references.
    pub outer: Option<&'a OuterScope<'a>>,
    /// The functions that may be called.
    pub functions: &'a Functions,
}

/// A table in scope: the mathematical value of a [`JoinTable`] or an [`OuterTable`].
pub ghost struct ScopeTable {
    pub table: TableView,
    pub cursor: i32,
    pub name: Seq<char>,
}

/// The mathematical value of an [`OuterScope`].
pub ghost struct ScopeView {
    pub tables: Seq<ScopeTable>,
    pub parent: Option<Box<ScopeView>>,
}

/// The mathematical value of an [`IndexRead`].
pub ghost struct IndexReadView {
    pub cursor: i32,
    pub positions: Seq<usize>,
    pub rowid_position: usize,
}

/// The mathematical value of a [`Ctx`].
pub ghost struct CtxView {
    pub table: TableView,
    pub cursor: i32,
    pub register_base: Option<i32>,
    pub index_read: Option<IndexReadView>,
    pub join_tables: Option<Seq<ScopeTable>>,
    pub outer: Option<ScopeView>,
    pub functions: FunctionsView,
}

/// The mathematical values of some joined tables.
pub open spec fn join_tables_view(s: Seq<JoinTable>) -> Seq<ScopeTable> {
    Seq::new(
        s.len(),
        |i: int| ScopeTable { table: s[i].table@, cursor: s[i].cursor, name: s[i].name@ },
    )
}

/// The mathematical values of some tables of an enclosing query.
pub open spec fn outer_tables_view(s: Seq<OuterTable>) -> Seq<ScopeTable> {
    Seq::new(
        s.len(),
        |i: int| ScopeTable { table: s[i].table@, cursor: s[i].cursor, name: s[i].name@ },
    )
}

/// The mathematical value of an [`OuterScope`].
pub open spec fn scope_view(s: OuterScope) -> ScopeView
    decreases s,
{
    ScopeView {
        tables: outer_tables_view(s.tables@),
        parent: match s.parent {
            None => None,
            Some(p) => Some(Box::new(scope_view(*p))),
        },
    }
}

impl<'a> View for Ctx<'a> {
    type V = CtxView;

    open spec fn view(&self) -> CtxView {
        CtxView {
            table: self.table@,
            cursor: self.cursor,
            register_base: self.register_base,
            index_read: match self.index_read {
                None => None,
                Some(ir) => Some(
                    IndexReadView {
                        cursor: ir.cursor,
                        positions: ir.column_positions@,
                        rowid_position: ir.rowid_position,
                    },
                ),
            },
            join_tables: match self.join_tables {
                None => None,
                Some(jt) => Some(join_tables_view(jt@)),
            },
            outer: match self.outer {
                None => None,
                Some(o) => Some(scope_view(*o)),
            },
            functions: self.functions@,
        }
    }
}

/// Emission that leaves the labels it was given as they were: it binds every label of its own.
pub open spec fn steady(s0: Asm, s1: Asm) -> bool {
    &&& s0.fresh() <= s1.fresh()
    &&& s0.wf() ==> s1.wf()
    &&& forall|l: int| s0.bound(l) ==> #[trigger] s1.bound(l)
    &&& forall|l: int| #[trigger] s1.owes(l) && s0.wf() ==> s0.owes(l)
}

/// Emission that may leave jumps to label `d` behind, and otherwise binds every label of its own.
pub open spec fn heads_for(s0: Asm, s1: Asm, d: int) -> bool {
    &&& s0.fresh() <= s1.fresh()
    &&& s0.wf() && 0 <= d < s0.fresh() ==> s1.wf()
    &&& forall|l: int| s0.bound(l) ==> #[trigger] s1.bound(l)
    &&& forall|l: int| #[trigger] s1.owes(l) && s0.wf() && 0 <= d < s0.fresh() ==> s0.owes(l) || l == d
}

// ---- Columns ----

/// The first table from `i` on that a column reference may belong to: the one with the given
/// name, or for a bare column the first one that has the column.
pub open spec fn join_from(
    ts: Seq<ScopeTable>,
    qualifier: Option<Seq<char>>,
    name: Seq<char>,
    i: int,
) -> Option<int>
    decreases ts.len() - i,
{
    if i < 0 || i >= ts.len() {
        None
    } else if (match qualifier {
        Some(q) => eq_nocase(ts[i].name, q),
        None => ts[i].table.resolve(name) is Some,
    }) {
        Some(i)
    } else {
        join_from(ts, qualifier, name, i + 1)
    }
}

/// The first table from `i` on, among those that the qualifier admits, that has the column.
pub open spec fn outer_match(
    ts: Seq<ScopeTable>,
    qualifier: Option<Seq<char>>,
    name: Seq<char>,
    i: int,
) -> Option<(ScopeTable, ColumnRef)>
    decreases ts.len() - i,
{
    if i < 0 || i >= ts.len() {
        None
    } else if (qualifier matches Some(q) ==> eq_nocase(ts[i].name, q))
        && ts[i].table.resolve(name) is Some {
        Some((ts[i], ts[i].table.resolve(name)->0))
    } else {
        outer_match(ts, qualifier, name, i + 1)
    }
}

/// The column of an enclosing query that a reference denotes. A qualified reference looks no
/// further than the nearest enclosing query.
pub open spec fn outer_column(
    scope: ScopeView,
    qualifier: Option<Seq<char>>,
    name: Seq<char>,
) -> Option<(ScopeTable, ColumnRef)>
    decreases scope,
{
    match outer_match(scope.tables, qualifier, name, 0) {
        Some(m) => Some(m),
        None => if qualifier is Some {
            None
        } else {
            match scope.parent {
                Some(p) => outer_column(*p, qualifier, name),
                None => None,
            }
        },
    }
}

/// `name`, or `qualifier.name`.
pub open spec fn display_name(qualifier: Option<Seq<char>>, name: Seq<char>) -> Seq<char> {
    match qualifier {
        Some(q) => q + "."@ + name,
        None => name,
    }
}

/// The message for a column that nothing in scope has.
pub open spec fn no_such_column(qualifier: Option<Seq<char>>, name: Seq<char>) -> Seq<char> {
    "no such column: "@ + display_name(qualifier, name)
}

/// The character is a decimal digit.
pub open spec fn is_digit(c: char) -> bool {
    '0' <= c && c <= '9'
}

/// The number that a sequence of digits denotes.
pub open spec fn digits_value(s: Seq<char>) -> nat
    decreases s.len(),
{
    if s.len() == 0 {
        0
    } else {
        digits_value(s.drop_last()) * 10 + (s.last() as nat - '0' as nat) as nat
    }
}

/// The text without a leading plus sign.
pub open spec fn without_plus(s: Seq<char>) -> Seq<char> {
    if s.len() > 0 && s[0] == '+' {
        s.skip(1)
    } else {
        s
    }
}

/// The machine-sized number that a text of digits denotes.
pub open spec fn digits_number(d: Seq<char>) -> Option<usize> {
    if d.len() > 0 && (forall|i: int| 0 <= i < d.len() ==> is_digit(#[trigger] d[i]))
        && digits_value(d) <= usize::MAX {
        Some(digits_value(d) as usize)
    } else {
        None
    }
}

/// The machine-sized number that a text denotes: digits, after an optional plus sign.
pub open spec fn parsed_number(s: Seq<char>) -> Option<usize> {
    digits_number(without_plus(s))
}

/// The number after the word `column`, or 0 if the text is not of that form.
pub open spec fn values_column(s: Seq<char>) -> usize {
    if s.len() >= 6 && s.take(6) == "column"@ {
        match parsed_number(s.skip(6)) {
            Some(n) => n,
            None => 0,
        }
    } else {
        0
    }
}

/// A read of a stored column of an open table, realified where the column is REAL.
pub open spec fn gen_table_column(s: Asm, t: TableView, cursor: i32, i: usize, target: i32) -> Asm {
    let pos = if t.without_rowid {
        t.storage_index(i) as i32
    } else {
        i as i32
    };
    let s = s.emit(Opcode::Column, cursor, pos, target);
    if t.columns[i as int].affinity == Affinity::Real {
        s.emit(Opcode::RealAffinity, target, 0, 0)
    } else {
        s
    }
}

/// A read of a column of an enclosing query.
pub open spec fn gen_outer_column(s: Asm, t: ScopeTable, cr: ColumnRef, target: i32) -> Asm {
    match cr {
        ColumnRef::Rowid => s.emit(Opcode::Rowid, t.cursor, target, 0),
        ColumnRef::Index(i) => gen_table_column(s, t.table, t.cursor, i, target),
    }
}

/// A column that the innermost scope does not have: one of an enclosing query, or an error.
pub open spec fn gen_correlated(
    s: Asm,
    qualifier: Option<Seq<char>>,
    name: Seq<char>,
    target: i32,
    outer: Option<ScopeView>,
) -> Asm {
    match outer {
        Some(o) => match outer_column(o, qualifier, name) {
            Some((t, cr)) => gen_outer_column(s, t, cr, target),
            None => s.fail(no_such_column(qualifier, name)),
        },
        None => s.fail(no_such_column(qualifier, name)),
    }
}

/// A read of the rowid of the table in scope.
pub open spec fn gen_rowid(s: Asm, target: i32, ctx: CtxView) -> Asm {
    match (ctx.register_base, ctx.index_read) {
        (Some(base), _) => match ctx.table.rowid_alias {
            Some(a) => s.emit(Opcode::SCopy, reg_at(base, a as int), target, 0),
            None => s.emit(Opcode::Rowid, ctx.cursor, target, 0),
        },
        (None, Some(ir)) => s.emit(Opcode::Column, ir.cursor, ir.rowid_position as i32, target),
        (None, None) => s.emit(Opcode::Rowid, ctx.cursor, target, 0),
    }
}

/// A read of stored column `i` of the table in scope.
pub open spec fn gen_stored(s: Asm, i: usize, target: i32, ctx: CtxView) -> Asm {
    match (ctx.register_base, ctx.index_read) {
        (Some(base), _) => s.emit(Opcode::SCopy, reg_at(base, i as int), target, 0),
        (None, Some(ir)) => {
            if i >= ir.positions.len() || ir.positions[i as int] == usize::MAX {
                s.emit(Opcode::Null, 0, target, 0)
            } else {
                let s = s.emit(Opcode::Column, ir.cursor, ir.positions[i as int] as i32, target);
                if ctx.table.columns[i as int].affinity == Affinity::Real {
                    s.emit(Opcode::RealAffinity, target, 0, 0)
                } else {
                    s
                }
            }
        },
        (None, None) => gen_table_column(s, ctx.table, ctx.cursor, i, target),
    }
}

/// A read of a column where a single table is in scope. A table without columns is a `VALUES`
/// row, whose columns are named `column1`, `column2`, and so on.
pub open spec fn gen_local_column(
    s: Asm,
    qualifier: Option<Seq<char>>,
    name: Seq<char>,
    target: i32,
    ctx: CtxView,
) -> Asm {
    if ctx.table.columns.len() == 0 {
        let n = values_column(display_name(qualifier, name));
        if n == 0 {
            gen_correlated(s, qualifier, name, target, ctx.outer)
        } else {
            let base = match ctx.register_base {
                Some(r) => r,
                None => 0,
            };
            s.emit(Opcode::SCopy, reg_at(base, n as int).wrapping_sub(1), target, 0)
        }
    } else {
        match ctx.table.resolve(name) {
            Some(ColumnRef::Rowid) => gen_rowid(s, target, ctx),
            Some(ColumnRef::Index(i)) => gen_stored(s, i, target, ctx),
            None => gen_correlated(s, qualifier, name, target, ctx.outer),
        }
    }
}

/// The scope of one table of a join.
pub open spec fn join_scope(ctx: CtxView, t: ScopeTable) -> CtxView {
    CtxView {
        table: t.table,
        cursor: t.cursor,
        register_base: ctx.register_base,
        index_read: None,
        join_tables: None,
        outer: ctx.outer,
        functions: ctx.functions,
    }
}

/// A read of a column into `target`.
#[verifier::opaque]
pub open spec fn gen_column(
    s: Asm,
    qualifier: Option<Seq<char>>,
    name: Seq<char>,
    target: i32,
    ctx: CtxView,
) -> Asm {
    match ctx.join_tables {
        Some(ts) => match join_from(ts, qualifier, name, 0) {
            Some(i) => gen_local_column(s, qualifier, name, target, join_scope(ctx, ts[i])),
            None => gen_correlated(s, qualifier, name, target, ctx.outer),
        },
        None => gen_local_column(s, qualifier, name, target, ctx),
    }
}

// ---- Affinity and collation of comparisons ----

/// The affinity that an expression brings to a comparison: that of the column, if it is one.
pub open spec fn affinity_of(e: ExprView, t: TableView) -> Option<Affinity> {
    match e {
        ExprView::Column { schema, table, name } => match t.resolve(name) {
            Some(ColumnRef::Index(i)) => Some(t.columns[i as int].affinity),
            Some(ColumnRef::Rowid) => Some(Affinity::Integer),
            None => None,
        },
        _ => None,
    }
}

/// The affinity is one of the numeric ones.
pub open spec fn numeric(a: Affinity) -> bool {
    a == Affinity::Integer || a == Affinity::Real || a == Affinity::Numeric
}

/// The affinity applied to both sides of a comparison: NUMERIC if both sides have one and either
/// is numeric, the only one if one side has one, else none.
pub open spec fn joint_affinity(l: ExprView, r: ExprView, t: TableView) -> Option<Affinity> {
    match (affinity_of(l, t), affinity_of(r, t)) {
        (Some(a), Some(b)) => if numeric(a) || numeric(b) {
            Some(Affinity::Numeric)
        } else {
            None
        },
        (Some(a), None) => Some(a),
        (None, Some(b)) => Some(b),
        (None, None) => None,
    }
}

/// The affinity of a `BETWEEN`: that of its first comparison, or else of its second.
pub open spec fn between_affinity(e: ExprView, low: ExprView, high: ExprView, t: TableView)
    -> Option<Affinity> {
    match joint_affinity(e, low, t) {
        Some(a) => Some(a),
        None => joint_affinity(e, high, t),
    }
}

/// The collation declared for a column; `None` for the binary one and for the rowid.
pub open spec fn declared_collation(t: TableView, cr: ColumnRef) -> Option<Collation> {
    match cr {
        ColumnRef::Index(i) => if t.columns[i as int].collation == Collation::Binary {
            None
        } else {
            Some(t.columns[i as int].collation)
        },
        ColumnRef::Rowid => None,
    }
}

/// The column of a join that a reference denotes.
pub open spec fn join_column(ts: Seq<ScopeTable>, qualifier: Option<Seq<char>>, name: Seq<char>)
    -> Option<(TableView, ColumnRef)> {
    match join_from(ts, qualifier, name, 0) {
        Some(i) => match ts[i].table.resolve(name) {
            Some(cr) => Some((ts[i].table, cr)),
            None => None,
        },
        None => None,
    }
}

/// The column that a reference denotes: one of the tables of a join, of the single table in scope
/// if the reference is not qualified by another name, or of an enclosing query.
pub open spec fn denoted(qualifier: Option<Seq<char>>, name: Seq<char>, ctx: CtxView) -> Option<
    (TableView, ColumnRef),
> {
    let joined = match ctx.join_tables {
        Some(ts) => join_column(ts, qualifier, name),
        None => None,
    };
    let named = match qualifier {
        Some(q) => eq_nocase(ctx.table.name, q),
        None => true,
    };
    if joined is Some {
        joined
    } else if named && ctx.table.resolve(name) is Some {
        Some((ctx.table, ctx.table.resolve(name)->0))
    } else {
        match ctx.outer {
            Some(o) => match outer_column(o, qualifier, name) {
                Some((t, cr)) => Some((t.table, cr)),
                None => None,
            },
            None => None,
        }
    }
}

/// The collation that a column reference brings to a comparison.
pub open spec fn column_ref_collation(qualifier: Option<Seq<char>>, name: Seq<char>, ctx: CtxView)
    -> Option<Collation> {
    match denoted(qualifier, name, ctx) {
        Some((t, cr)) => declared_collation(t, cr),
        None => None,
    }
}

/// The collation that an expression brings to a comparison: its `COLLATE` clause, if that names
/// a collation, else that of the column that it is.
pub open spec fn collation_of(e: ExprView, ctx: CtxView) -> Option<Collation>
    decreases e,
{
    match e {
        ExprView::Collate { expr, collation } => match collation_named(collation) {
            Some(c) => Some(c),
            None => collation_of(*expr, ctx),
        },
        ExprView::Column { schema, table, name } => column_ref_collation(table, name, ctx),
        _ => None,
    }
}

/// The collation that the `COLLATE` clauses of an expression name, the outermost first.
pub open spec fn explicit_collation(e: ExprView) -> Option<Collation>
    decreases e,
{
    match e {
        ExprView::Collate { expr, collation } => match collation_named(collation) {
            Some(c) => Some(c),
            None => explicit_collation(*expr),
        },
        _ => None,
    }
}

/// The collation of a comparison; `None` for the binary one. A `COLLATE` clause on either side
/// goes before the collation declared for a column, and the left side before the right one.
pub open spec fn joint_collation(l: ExprView, r: ExprView, ctx: CtxView) -> Option<Collation> {
    let c = if explicit_collation(l) is Some {
        explicit_collation(l)
    } else if explicit_collation(r) is Some {
        explicit_collation(r)
    } else if collation_of(l, ctx) is Some {
        collation_of(l, ctx)
    } else {
        collation_of(r, ctx)
    };
    if c == Some(Collation::Binary) {
        None
    } else {
        c
    }
}

/// A `COLLATE` clause on either side of a comparison decides its collation, whatever the columns
/// in scope declare.
pub proof fn law_collate_clause_decides(l: ExprView, r: ExprView, here: CtxView, there: CtxView)
    requires
        explicit_collation(l) is Some || explicit_collation(r) is Some,
    ensures
        joint_collation(l, r, here) == joint_collation(l, r, there),
{
}

/// A comparison applies the same affinity whichever way round it is written.
pub proof fn law_affinity_either_way(l: ExprView, r: ExprView, t: TableView)
    ensures
        joint_affinity(l, r, t) == joint_affinity(r, l, t),
{
}

/// The name of a collation.
pub open spec fn collation_name(c: Collation) -> Seq<char> {
    match c {
        Collation::Binary => "BINARY"@,
        Collation::NoCase => "NOCASE"@,
        Collation::RTrim => "RTRIM"@,
    }
}

/// The `p4` operand of a comparison: the name of its collation, unless that is the binary one.
pub open spec fn comparison_p4(l: ExprView, r: ExprView, ctx: CtxView) -> P4View {
    match joint_collation(l, r, ctx) {
        Some(c) => P4View::Symbol(collation_name(c)),
        None => P4View::Unused,
    }
}

/// The context of expressions over one table, open on a cursor.
#[verifier::opaque]
pub open spec fn table_ctx(table: TableView, cursor: i32, functions: FunctionsView) -> CtxView {
    CtxView {
        table,
        cursor,
        register_base: None,
        index_read: None,
        join_tables: None,
        outer: None,
        functions,
    }
}

// ---- The code generators ----

/// The outcome of emission: the state that the script `want` ends in, or its error.
pub open spec fn emitted(r: Result<(), Error>, b: Asm, want: Asm) -> bool {
    match r {
        Ok(_) => b == want,
        Err(e) => want.err == Some(e@),
    }
}

/// The text that a qualifier is.
pub open spec fn opt_str_view(q: Option<&str>) -> Option<Seq<char>> {
    match q {
        None => None,
        Some(s) => Some(s@),
    }
}

/// A borrowed form of an optional name.
pub fn name_ref(o: &Option<String>) -> (r: Option<&str>)
    ensures
        opt_str_view(r) == opt_name_view(*o),
{
    match o {
        None => None,
        Some(s) => Some(s.as_str()),
    }
}

fn display(qualifier: Option<&str>, name: &str) -> (r: String)
    ensures
        r@ == display_name(opt_str_view(qualifier), name@),
{
    match qualifier {
        Some(q) => cat3(q, ".", name),
        None => owned(name),
    }
}

fn missing_column(qualifier: Option<&str>, name: &str) -> (r: Error)
    ensures
        r@ == no_such_column(opt_str_view(qualifier), name@),
{
    let d = display(qualifier, name);
    Error::msg(cat2("no such column: ", d.as_str()))
}

proof fn lemma_digits_prefix(s: Seq<char>, i: int)
    requires
        0 <= i < s.len(),
    ensures
        digits_value(s.take(i + 1)) == digits_value(s.take(i)) * 10 + (s[i] as nat - '0' as nat)
            as nat,
{
    assert(s.take(i + 1).drop_last() =~= s.take(i));
}

proof fn lemma_digits_grow(s: Seq<char>, i: int)
    requires
        0 <= i <= s.len(),
        forall|k: int| 0 <= k < s.len() ==> is_digit(#[trigger] s[k]),
    ensures
        digits_value(s.take(i)) <= digits_value(s),
    decreases s.len() - i,
{
    if i == s.len() {
        assert(s.take(i) =~= s);
    } else {
        lemma_digits_prefix(s, i);
        lemma_digits_grow(s, i + 1);
    }
}

/// The number that the characters from index `from` on denote: digits, after an optional plus
/// sign.
fn parse_number(v: &Vec<char>, from: usize) -> (r: Option<usize>)
    requires
        from <= v@.len(),
    ensures
        r == parsed_number(v@.skip(from as int)),
{
    let ghost whole = v@.skip(from as int);
    let mut i: usize = from;
    if from < v.len() && v[from] == '+' {
        i = from + 1;
        assert(v@.skip(i as int) =~= whole.skip(1));
    } else {
        assert(v@.skip(i as int) =~= whole);
    }
    let ghost d = v@.skip(i as int);
    if i == v.len() {
        return None;
    }
    let mut n: usize = 0;
    let ghost start = i;
    while i < v.len()
        invariant
            start <= i <= v@.len(),
            start < v@.len(),
            d == v@.skip(start as int),
            d.len() == v@.len() - start,
            whole == v@.skip(from as int),
            d == without_plus(whole),
            forall|k: int| 0 <= k < i - start ==> is_digit(#[trigger] d[k]),
            n == digits_value(d.take(i - start)),
        decreases v@.len() - i,
    {
        let c: char = v[i];
        assert(d[i - start] == c);
        if !('0' <= c && c <= '9') {
            assert(!is_digit(d[i - start]));
            return None;
        }
        let k: usize = (c as u32 - 48) as usize;
        proof {
            lemma_digits_prefix(d, i - start);
            if forall|k: int| 0 <= k < d.len() ==> is_digit(#[trigger] d[k]) {
                lemma_digits_grow(d, i - start + 1);
            }
        }
        if n > (usize::MAX - k) / 10 {
            assert(n * 10 + k > usize::MAX) by (nonlinear_arith)
                requires
                    n > (usize::MAX - k) / 10,
                    0 <= k <= 9,
            ;
            assert(digits_value(d.take(i - start + 1)) == n * 10 + k);
            assert(parsed_number(whole) is None);
            return None;
        }
        assert(n * 10 + k <= usize::MAX) by (nonlinear_arith)
            requires
                n <= (usize::MAX - k) / 10,
                0 <= k <= 9,
        ;
        n = n * 10 + k;
        i = i + 1;
    }
    assert(d.take(d.len() as int) =~= d);
    Some(n)
}

fn values_column_of(name: &str) -> (r: usize)
    ensures
        r == values_column(name@),
{
    proof {
        reveal_strlit("column");
    }
    let v = chars_of(name);
    if v.len() >= 6 && v[0] == 'c' && v[1] == 'o' && v[2] == 'l' && v[3] == 'u' && v[4] == 'm'
        && v[5] == 'n' {
        assert(v@.take(6) =~= "column"@);
        match parse_number(&v, 6) {
            Some(n) => n,
            None => 0,
        }
    } else {
        assert(v@.len() >= 6 && v@.take(6) == "column"@ ==> {
            &&& v@.take(6)[0] == 'c'
            &&& v@.take(6)[1] == 'o'
            &&& v@.take(6)[2] == 'l'
            &&& v@.take(6)[3] == 'u'
            &&& v@.take(6)[4] == 'm'
            &&& v@.take(6)[5] == 'n'
        });
        0
    }
}

fn emit_table_column(b: &mut ProgramBuilder, table: &Table, cursor: i32, i: usize, target: i32)
    requires
        i < table@.columns.len(),
    ensures
        final(b)@ == gen_table_column(old(b)@, table@, cursor, i, target),
        steady(old(b)@, final(b)@),
{
    let pos: i32 = if table.without_rowid {
        table.without_rowid_storage_index(i)
    } else {
        i as i32
    };
    b.emit(Opcode::Column, cursor, pos, target);
    if table.columns[i].affinity == Affinity::Real {
        b.emit(Opcode::RealAffinity, target, 0, 0);
    }
}

/// The column of an enclosing query that a reference denotes.
pub fn lookup_outer<'a>(scope: &'a OuterScope<'a>, qualifier: Option<&str>, name: &str) -> (r:
    Option<(&'a OuterTable<'a>, ColumnRef)>)
    ensures
        match r {
            None => outer_column(scope_view(*scope), opt_str_view(qualifier), name@) is None,
            Some((t, cr)) => outer_column(scope_view(*scope), opt_str_view(qualifier), name@)
                == Some(
                (ScopeTable { table: t.table@, cursor: t.cursor, name: t.name@ }, cr),
            ),
        },
        r matches Some((t, ColumnRef::Index(i))) ==> i < t.table@.columns.len(),
    decreases scope,
{
    let ghost ts = outer_tables_view(scope.tables@);
    let ghost q = opt_str_view(qualifier);
    for i in 0..scope.tables.len()
        invariant
            ts == outer_tables_view(scope.tables@),
            q == opt_str_view(qualifier),
            outer_match(ts, q, name@, i as int) == outer_match(ts, q, name@, 0),
    {
        let t: &OuterTable = &scope.tables[i];
        let named: bool = match qualifier {
            Some(x) => eq_ignore_case(t.name, x),
            None => true,
        };
        if named {
            if let Some(cr) = t.table.resolve_column(name) {
                return Some((t, cr));
            }
        }
    }
    if qualifier.is_some() {
        return None;
    }
    match scope.parent {
        Some(p) => lookup_outer(p, qualifier, name),
        None => None,
    }
}

fn emit_outer_column(b: &mut ProgramBuilder, t: &OuterTable, cr: ColumnRef, target: i32)
    requires
        cr matches ColumnRef::Index(i) ==> i < t.table@.columns.len(),
    ensures
        final(b)@ == gen_outer_column(
            old(b)@,
            (ScopeTable { table: t.table@, cursor: t.cursor, name: t.name@ }),
            cr,
            target,
        ),
        steady(old(b)@, final(b)@),
{
    match cr {
        ColumnRef::Rowid => {
            b.emit(Opcode::Rowid, t.cursor, target, 0);
        },
        ColumnRef::Index(i) => {
            emit_table_column(b, t.table, t.cursor, i, target);
        },
    }
}

fn compile_correlated(
    b: &mut ProgramBuilder,
    qualifier: Option<&str>,
    name: &str,
    target: i32,
    ctx: Ctx,
) -> (r: Result<(), Error>)
    ensures
        emitted(
            r,
            final(b)@,
            gen_correlated(old(b)@, opt_str_view(qualifier), name@, target, ctx@.outer),
        ),
        r is Ok ==> steady(old(b)@, final(b)@),
{
    if let Some(outer) = ctx.outer {
        if let Some((t, cr)) = lookup_outer(outer, qualifier, name) {
            emit_outer_column(b, t, cr, target);
            return Ok(());
        }
    }
    Err(missing_column(qualifier, name))
}

fn compile_local_column(
    b: &mut ProgramBuilder,
    qualifier: Option<&str>,
    name: &str,
    target: i32,
    ctx: Ctx,
) -> (r: Result<(), Error>)
    ensures
        emitted(
            r,
            final(b)@,
            gen_local_column(old(b)@, opt_str_view(qualifier), name@, target, ctx@),
        ),
        r is Ok ==> steady(old(b)@, final(b)@),
{
    if ctx.table.columns.len() == 0 {
        let shown = display(qualifier, name);
        let n: usize = values_column_of(shown.as_str());
        if n == 0 {
            return compile_correlated(b, qualifier, name, target, ctx);
        }
        let base: i32 = match ctx.register_base {
            Some(r) => r,
            None => 0,
        };
        b.emit(Opcode::SCopy, reg_off(base, n).wrapping_sub(1), target, 0);
        return Ok(());
    }
    match ctx.table.resolve_column(name) {
        Some(ColumnRef::Rowid) => {
            if let Some(base) = ctx.register_base {
                if let Some(alias) = ctx.table.rowid_alias {
                    b.emit(Opcode::SCopy, reg_off(base, alias), target, 0);
                } else {
                    b.emit(Opcode::Rowid, ctx.cursor, target, 0);
                }
            } else if let Some(ir) = ctx.index_read {
                b.emit(Opcode::Column, ir.cursor, ir.rowid_position as i32, target);
            } else {
                b.emit(Opcode::Rowid, ctx.cursor, target, 0);
            }
            Ok(())
        },
        Some(ColumnRef::Index(i)) => {
            if let Some(base) = ctx.register_base {
                b.emit(Opcode::SCopy, reg_off(base, i), target, 0);
            } else if let Some(ir) = ctx.index_read {
                if i >= ir.column_positions.len() || ir.column_positions[i] == usize::MAX {
                    b.emit(Opcode::Null, 0, target, 0);
                } else {
                    b.emit(Opcode::Column, ir.cursor, ir.column_positions[i] as i32, target);
                    if ctx.table.columns[i].affinity == Affinity::Real {
                        b.emit(Opcode::RealAffinity, target, 0, 0);
                    }
                }
            } else {
                emit_table_column(b, ctx.table, ctx.cursor, i, target);
            }
            Ok(())
        },
        None => compile_correlated(b, qualifier, name, target, ctx),
    }
}

/// The index of the table of a join that a column reference belongs to.
fn find_join_table(jt: &[JoinTable], qualifier: Option<&str>, name: &str) -> (r: Option<usize>)
    ensures
        match r {
            None => join_from(join_tables_view(jt@), opt_str_view(qualifier), name@, 0) is None,
            Some(i) => i < jt@.len() && join_from(
                join_tables_view(jt@),
                opt_str_view(qualifier),
                name@,
                0,
            ) == Some(i as int),
        },
{
    for i in 0..jt.len()
        invariant
            join_from(join_tables_view(jt@), opt_str_view(qualifier), name@, i as int)
                == join_from(join_tables_view(jt@), opt_str_view(qualifier), name@, 0),
    {
        let hit: bool = match qualifier {
            Some(q) => eq_ignore_case(jt[i].name, q),
            None => jt[i].table.resolve_column(name).is_some(),
        };
        if hit {
            return Some(i);
        }
    }
    None
}

/// Emit a read of a column into `target`.
pub fn compile_column(
    b: &mut ProgramBuilder,
    qualifier: Option<&str>,
    name: &str,
    target: i32,
    ctx: Ctx,
) -> (r: Result<(), Error>)
    ensures
        emitted(
            r,
            final(b)@,
            gen_column(old(b)@, opt_str_view(qualifier), name@, target, ctx@),
        ),
        r is Ok ==> steady(old(b)@, final(b)@),
{
    reveal(gen_column);
    if let Some(jt) = ctx.join_tables {
        match find_join_table(jt, qualifier, name) {
            Some(i) => {
                let sub = Ctx {
                    table: jt[i].table,
                    cursor: jt[i].cursor,
                    register_base: ctx.register_base,
                    index_read: None,
                    join_tables: None,
                    outer: ctx.outer,
                    functions: ctx.functions,
                };
                assert(sub@ == join_scope(ctx@, join_tables_view(jt@)[i as int]));
                compile_local_column(b, qualifier, name, target, sub)
            },
            None => compile_correlated(b, qualifier, name, target, ctx),
        }
    } else {
        compile_local_column(b, qualifier, name, target, ctx)
    }
}

fn expr_affinity(e: &Expr, ctx: Ctx) -> (r: Option<Affinity>)
    ensures
        r == affinity_of(e@, ctx@.table),
{
    match e {
        Expr::Column { schema, table, name } => match ctx.table.resolve_column(name.as_str()) {
            Some(ColumnRef::Index(i)) => Some(ctx.table.columns[i].affinity),
            Some(ColumnRef::Rowid) => Some(Affinity::Integer),
            None => None,
        },
        _ => None,
    }
}

fn is_numeric(a: Affinity) -> (r: bool)
    ensures
        r == numeric(a),
{
    a == Affinity::Integer || a == Affinity::Real || a == Affinity::Numeric
}

/// The affinity applied to both sides of a comparison.
pub fn comparison_affinity(left: &Expr, right: &Expr, ctx: Ctx) -> (r: Option<Affinity>)
    ensures
        r == joint_affinity(left@, right@, ctx@.table),
{
    match (expr_affinity(left, ctx), expr_affinity(right, ctx)) {
        (Some(x), Some(y)) => if is_numeric(x) || is_numeric(y) {
            Some(Affinity::Numeric)
        } else {
            None
        },
        (Some(x), None) => Some(x),
        (None, Some(y)) => Some(y),
        (None, None) => None,
    }
}

/// The affinity that a range test applies.
pub fn range_affinity(e: &Expr, low: &Expr, high: &Expr, ctx: Ctx) -> (r: Option<Affinity>)
    ensures
        r == between_affinity(e@, low@, high@, ctx@.table),
{
    match comparison_affinity(e, low, ctx) {
        Some(a) => Some(a),
        None => comparison_affinity(e, high, ctx),
    }
}

fn column_collation(table: &Table, cr: ColumnRef) -> (r: Option<Collation>)
    requires
        cr matches ColumnRef::Index(i) ==> i < table@.columns.len(),
    ensures
        r == declared_collation(table@, cr),
{
    match cr {
        ColumnRef::Index(i) => {
            let c: Collation = table.columns[i].collation;
            if c == Collation::Binary {
                None
            } else {
                Some(c)
            }
        },
        ColumnRef::Rowid => None,
    }
}

fn resolve_column_collation(qualifier: Option<&str>, name: &str, ctx: Ctx) -> (r: Option<Collation>)
    ensures
        r == column_ref_collation(opt_str_view(qualifier), name@, ctx@),
{
    if let Some(jt) = ctx.join_tables {
        if let Some(i) = find_join_table(jt, qualifier, name) {
            if let Some(cr) = jt[i].table.resolve_column(name) {
                return column_collation(jt[i].table, cr);
            }
        }
    }
    let named = match qualifier {
        Some(q) => eq_ignore_case(ctx.table.name.as_str(), q),
        None => true,
    };
    if named {
        if let Some(cr) = ctx.table.resolve_column(name) {
            return column_collation(ctx.table, cr);
        }
    }
    if let Some(outer) = ctx.outer {
        if let Some((t, cr)) = lookup_outer(outer, qualifier, name) {
            return column_collation(t.table, cr);
        }
    }
    None
}

/// The collation that an expression brings to a comparison.
pub fn expr_collation(e: &Expr, ctx: Ctx) -> (r: Option<Collation>)
    ensures
        r == collation_of(e@, ctx@),
    decreases e,
{
    match e {
        Expr::Collate { expr, collation } => match Collation::from_name(collation.as_str()) {
            Some(c) => Some(c),
            None => expr_collation(expr, ctx),
        },
        Expr::Column { schema, table, name } => {
            resolve_column_collation(name_ref(table), name.as_str(), ctx)
        },
        _ => None,
    }
}

/// The collation that the `COLLATE` clauses of an expression name.
fn named_collation(e: &Expr) -> (r: Option<Collation>)
    ensures
        r == explicit_collation(e@),
    decreases e,
{
    match e {
        Expr::Collate { expr, collation } => match Collation::from_name(collation.as_str()) {
            Some(c) => Some(c),
            None => named_collation(expr),
        },
        _ => None,
    }
}

fn comparison_collation(left: &Expr, right: &Expr, ctx: Ctx) -> (r: Option<Collation>)
    ensures
        r == joint_collation(left@, right@, ctx@),
{
    let c = match named_collation(left) {
        Some(c) => Some(c),
        None => match named_collation(right) {
            Some(c) => Some(c),
            None => match expr_collation(left, ctx) {
                Some(c) => Some(c),
                None => expr_collation(right, ctx),
            },
        },
    };
    match c {
        Some(Collation::Binary) => None,
        Some(k) => Some(k),
        None => None,
    }
}

/// The operand that names the collation of a comparison.
pub fn collation_operand(left: &Expr, right: &Expr, ctx: Ctx) -> (r: P4)
    ensures
        r@ == comparison_p4(left@, right@, ctx@),
{
    match comparison_collation(left, right, ctx) {
        Some(Collation::Binary) => P4::Symbol(owned("BINARY")),
        Some(Collation::NoCase) => P4::Symbol(owned("NOCASE")),
        Some(Collation::RTrim) => P4::Symbol(owned("RTRIM")),
        None => P4::Unused,
    }
}

/// The context of expressions over one table, open on a cursor.
pub fn over_table<'a>(table: &'a Table, cursor: i32, functions: &'a Functions) -> (r: Ctx<'a>)
    ensures
        r@ == table_ctx(table@, cursor, functions@),
        r.cursor == cursor,
        r.table == table,
{
    reveal(table_ctx);
    Ctx {
        table,
        cursor,
        register_base: None,
        index_read: None,
        join_tables: None,
        outer: None,
        functions,
    }
}

} // verus!
