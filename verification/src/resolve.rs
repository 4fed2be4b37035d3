//! Name resolution: every column that a query refers to must be a column of exactly one of the
//! tables it reads from, or else of a query around it.
//!
//! The queries inside a query are looked into only where they read from no table of their own: what
//! such a query refers to is a matter of the queries around it.
use vstd::prelude::*;

use crate::ast::{
    arms_view, expr_rows_view, exprs_view, opt_box_expr_view, opt_expr_view, opt_name_view,
    opt_window_view, ordering_terms_view, result_columns_view, CompoundOperator, Expr, ExprView,
    OrderingTerm, OrderingTermView, ResultColumn, ResultColumnView, SelectStmt, SelectStmtView,
};
use crate::schema::{Table, TableView};
use crate::scope::{name_ref, opt_str_view};
use crate::text::{cat2, cat3, eq_ignore_case, eq_nocase, owned, Error};
use crate::walk::{lemma_operand, operands, operands_of, refs_view};

verus! {

// ---- Scopes ----

/// A table that a query reads from, under the name it is known by there.
#[derive(Clone, Copy)]
pub struct ResolveTable<'a> {
    pub table: &'a Table,
    /// The alias if there is one, else the name of the table.
    pub name: &'a str,
}

/// The tables that a query reads from, and the query around it.
pub struct NameContext<'a, 'p> {
    pub tables: &'a [ResolveTable<'a>],
    pub parent: Option<&'p NameContext<'a, 'p>>,
}

/// The mathematical value of a [`ResolveTable`].
pub ghost struct KnownTable {
    pub table: TableView,
    pub name: Seq<char>,
}

/// The mathematical values of some tables.
pub open spec fn known_tables(s: Seq<ResolveTable>) -> Seq<KnownTable> {
    Seq::new(s.len(), |i: int| KnownTable { table: s[i].table@, name: s[i].name@ })
}

/// The tables of each query, from the innermost outwards: the mathematical value of a
/// [`NameContext`].
pub open spec fn scopes(nc: NameContext) -> Seq<Seq<KnownTable>>
    decreases nc,
{
    match nc.parent {
        None => seq![known_tables(nc.tables@)],
        Some(p) => seq![known_tables(nc.tables@)] + scopes(*p),
    }
}

/// The scopes of a query with the given tables inside another.
pub open spec fn scopes_within(tables: Seq<ResolveTable>, parent: Option<&NameContext>) -> Seq<
    Seq<KnownTable>,
> {
    match parent {
        None => seq![known_tables(tables)],
        Some(p) => seq![known_tables(tables)] + scopes(*p),
    }
}

// ---- References ----

/// A reference to a column.
pub ghost struct Reference {
    pub schema: Option<Seq<char>>,
    pub table: Option<Seq<char>>,
    pub name: Seq<char>,
}

impl Reference {
    /// The reference as the query writes it.
    pub open spec fn text(self) -> Seq<char> {
        match (self.schema, self.table) {
            (Some(s), Some(t)) => s + "."@ + t + "."@ + self.name,
            (None, Some(t)) => t + "."@ + self.name,
            (Some(s), None) => s + "."@ + self.name,
            (None, None) => self.name,
        }
    }

    /// The table has the column that is referred to.
    pub open spec fn fits(self, t: KnownTable) -> bool {
        (self.table matches Some(q) ==> eq_nocase(t.name, q)) && t.table.resolve(self.name) is Some
    }
}

/// What became of a reference.
#[derive(Clone, Copy, PartialEq, Eq, Structural, Debug)]
pub enum LookupOutcome {
    /// Exactly one table of the query has the column.
    Found,
    /// Two or more tables of the query have it.
    Ambiguous,
    /// No table of the query has it, and exactly one of a query around it.
    FoundOuter,
    /// No table of the query has it, and two or more of a query around it.
    AmbiguousOuter,
    /// No table has it.
    NoSuchColumn,
}

/// The number of tables among the first `n` that have the column that is referred to.
pub open spec fn fitting(ts: Seq<KnownTable>, r: Reference, n: int) -> nat
    decreases n,
{
    if n <= 0 || n > ts.len() {
        0
    } else if r.fits(ts[n - 1]) {
        fitting(ts, r, n - 1) + 1
    } else {
        fitting(ts, r, n - 1)
    }
}

/// What becomes of a reference from the `k`-th scope outwards. Only a bare column is looked for in
/// an outer scope.
pub open spec fn outcome(sc: Seq<Seq<KnownTable>>, r: Reference, k: int) -> LookupOutcome
    decreases sc.len() - k,
{
    if r.schema is Some || k < 0 || k >= sc.len() {
        LookupOutcome::NoSuchColumn
    } else {
        let n = fitting(sc[k], r, sc[k].len() as int);
        if n > 1 {
            LookupOutcome::Ambiguous
        } else if n == 1 {
            LookupOutcome::Found
        } else if r.table is Some {
            LookupOutcome::NoSuchColumn
        } else {
            match outcome(sc, r, k + 1) {
                LookupOutcome::Found => LookupOutcome::FoundOuter,
                LookupOutcome::FoundOuter => LookupOutcome::FoundOuter,
                LookupOutcome::Ambiguous => LookupOutcome::AmbiguousOuter,
                LookupOutcome::AmbiguousOuter => LookupOutcome::AmbiguousOuter,
                LookupOutcome::NoSuchColumn => LookupOutcome::NoSuchColumn,
            }
        }
    }
}

/// What is wrong with a reference; `None` if it denotes one column.
pub open spec fn complaint(sc: Seq<Seq<KnownTable>>, r: Reference) -> Option<Seq<char>> {
    match outcome(sc, r, 0) {
        LookupOutcome::Found => None,
        LookupOutcome::FoundOuter => None,
        LookupOutcome::Ambiguous => Some("ambiguous column name: "@ + r.text()),
        LookupOutcome::AmbiguousOuter => Some("ambiguous column name: "@ + r.text()),
        LookupOutcome::NoSuchColumn => Some("no such column: "@ + r.text()),
    }
}

/// What is wrong with the first reference that something is wrong with.
pub open spec fn first_complaint(sc: Seq<Seq<KnownTable>>, rs: Seq<Reference>) -> Option<Seq<char>>
    decreases rs.len(),
{
    if rs.len() == 0 {
        None
    } else {
        match complaint(sc, rs[0]) {
            Some(m) => Some(m),
            None => first_complaint(sc, rs.skip(1)),
        }
    }
}

// ---- The references in a query ----

/// The references in an expression, left to right.
pub open spec fn in_expr(e: ExprView) -> Seq<Reference>
    decreases e, operands(e).len() + 2,
{
    match e {
        ExprView::Column { schema, table, name } => seq![Reference { schema, table, name }],
        ExprView::AggRef(_) => Seq::empty(),
        ExprView::Coalesce2 { left, right } => Seq::empty(),
        _ => in_operands(e, 0) + in_rest(e),
    }
}

/// The references in the operands of an expression from the `k`-th on.
pub open spec fn in_operands(e: ExprView, k: int) -> Seq<Reference>
    decreases e, operands(e).len() - k + 1,
{
    if 0 <= k < operands(e).len() {
        proof {
            lemma_operand(e, k);
        }
        in_expr(operands(e)[k]) + in_operands(e, k + 1)
    } else {
        Seq::empty()
    }
}

/// The references in the filter and the window of a call, and in a subquery.
pub open spec fn in_rest(e: ExprView) -> Seq<Reference>
    decreases e, 0int,
{
    match e {
        ExprView::Function { name, distinct, args, filter, over } => {
            let a = match filter {
                Some(x) => {
                    proof {
                        assert(decreases_to!(e => filter));
                        assert(decreases_to!(filter => filter->0));
                    }
                    in_expr(*x)
                },
                None => Seq::empty(),
            };
            let b = match over {
                Some(w) => {
                    proof {
                        assert(decreases_to!(e => over));
                        assert(decreases_to!(over => over->0));
                        assert(decreases_to!(over->0 => (over->0).partition_by));
                        assert(decreases_to!(over->0 => (over->0).order_by));
                    }
                    in_list(w.partition_by, 0) + in_terms(w.order_by, 0)
                },
                None => Seq::empty(),
            };
            a + b
        },
        ExprView::InSubquery { expr, subquery, negated } => in_query(*subquery),
        ExprView::Exists(q) => in_query(*q),
        ExprView::Subquery(q) => in_query(*q),
        _ => Seq::empty(),
    }
}

/// The references in a list of expressions from the `k`-th on.
pub open spec fn in_list(es: Seq<ExprView>, k: int) -> Seq<Reference>
    decreases es, es.len() - k,
{
    if 0 <= k < es.len() {
        in_expr(es[k]) + in_list(es, k + 1)
    } else {
        Seq::empty()
    }
}

/// The references in a list of sort terms from the `k`-th on.
pub open spec fn in_terms(ts: Seq<OrderingTermView>, k: int) -> Seq<Reference>
    decreases ts, ts.len() - k,
{
    if 0 <= k < ts.len() {
        proof {
            assert(decreases_to!(ts => ts[k]));
            assert(decreases_to!(ts[k] => ts[k].expr));
        }
        in_expr(ts[k].expr) + in_terms(ts, k + 1)
    } else {
        Seq::empty()
    }
}

/// The references in an optional expression.
pub open spec fn in_opt(o: Option<ExprView>) -> Seq<Reference>
    decreases o, 0int,
{
    match o {
        Some(e) => in_expr(e),
        None => Seq::empty(),
    }
}

/// The references in a result column.
pub open spec fn in_column(c: ResultColumnView) -> Seq<Reference>
    decreases c, 0int,
{
    match c {
        ResultColumnView::Expr { expr, alias } => in_expr(expr),
        _ => Seq::empty(),
    }
}

/// The references in a list of result columns from the `k`-th on.
pub open spec fn in_columns(cs: Seq<ResultColumnView>, k: int) -> Seq<Reference>
    decreases cs, cs.len() - k,
{
    if 0 <= k < cs.len() {
        in_column(cs[k]) + in_columns(cs, k + 1)
    } else {
        Seq::empty()
    }
}

/// The references in the rows of a `VALUES` clause from the `k`-th on.
pub open spec fn in_rows(rows: Seq<Seq<ExprView>>, k: int) -> Seq<Reference>
    decreases rows, rows.len() - k,
{
    if 0 <= k < rows.len() {
        in_list(rows[k], 0) + in_rows(rows, k + 1)
    } else {
        Seq::empty()
    }
}

/// The references in the clauses of one `SELECT`, without its `FROM` clause and its other arms.
pub open spec fn in_core(s: SelectStmtView) -> Seq<Reference>
    decreases s, 0int,
{
    in_columns(s.columns, 0) + in_opt(s.where_clause) + in_list(s.group_by, 0) + in_opt(s.having)
        + in_terms(s.order_by, 0) + in_opt(s.limit) + in_opt(s.offset) + in_rows(s.values, 0)
}

/// The references in a query inside another that are a matter of the queries around it.
pub open spec fn in_query(s: SelectStmtView) -> Seq<Reference>
    decreases s, 1int,
{
    if s.from.len() > 0 && s.values.len() == 0 {
        Seq::empty()
    } else {
        in_core(s) + in_arms(s.compound, 0)
    }
}

/// The references in the arms of a compound query from the `k`-th on.
pub open spec fn in_arms(arms: Seq<(CompoundOperator, SelectStmtView)>, k: int) -> Seq<Reference>
    decreases arms, arms.len() - k,
{
    if 0 <= k < arms.len() {
        proof {
            assert(decreases_to!(arms => arms[k]));
            assert(decreases_to!(arms[k] => arms[k].1));
        }
        in_query(arms[k].1) + in_arms(arms, k + 1)
    } else {
        Seq::empty()
    }
}

// ---- Laws ----

/// What is wrong first in two lists of references is wrong in the first of them, or else in the
/// second.
pub broadcast proof fn lemma_complaints_in_turn(
    sc: Seq<Seq<KnownTable>>,
    a: Seq<Reference>,
    b: Seq<Reference>,
)
    ensures
        #[trigger] first_complaint(sc, a + b) == (match first_complaint(sc, a) {
            Some(m) => Some(m),
            None => first_complaint(sc, b),
        }),
    decreases a.len(),
{
    if a.len() == 0 {
        assert(a + b =~= b);
    } else {
        lemma_complaints_in_turn(sc, a.skip(1), b);
        assert((a + b).skip(1) =~= a.skip(1) + b);
    }
}

/// A query is accepted if and only if each of its references denotes one column, of a table of its
/// own or of a query around it.
pub proof fn law_accepted_iff_all_resolve(sc: Seq<Seq<KnownTable>>, rs: Seq<Reference>)
    ensures
        first_complaint(sc, rs) is None <==> forall|i: int|
            0 <= i < rs.len() ==> {
                let x = outcome(sc, #[trigger] rs[i], 0);
                x == LookupOutcome::Found || x == LookupOutcome::FoundOuter
            },
    decreases rs.len(),
{
    if rs.len() > 0 {
        law_accepted_iff_all_resolve(sc, rs.skip(1));
        assert forall|i: int| 0 <= i < rs.skip(1).len() implies #[trigger] rs.skip(1)[i] == rs[i
            + 1] by {}
        if first_complaint(sc, rs) is None {
            assert forall|i: int| 0 <= i < rs.len() implies ({
                let x = outcome(sc, #[trigger] rs[i], 0);
                x == LookupOutcome::Found || x == LookupOutcome::FoundOuter
            }) by {
                if i > 0 {
                    assert(rs.skip(1)[i - 1] == rs[i]);
                }
            }
        }
    }
}

/// A column that one table of the query has is found there, whatever the queries around it read
/// from.
pub proof fn law_innermost_wins(
    own: Seq<KnownTable>,
    outer: Seq<Seq<KnownTable>>,
    r: Reference,
)
    requires
        r.schema is None,
        fitting(own, r, own.len() as int) == 1,
    ensures
        outcome(seq![own] + outer, r, 0) == LookupOutcome::Found,
{
}

/// A reference that names its table is never looked for in the queries around.
pub proof fn law_qualified_stay_local(
    own: Seq<KnownTable>,
    outer: Seq<Seq<KnownTable>>,
    r: Reference,
)
    requires
        r.table is Some,
    ensures
        outcome(seq![own] + outer, r, 0) == outcome(seq![own], r, 0),
{
}

/// What becomes of a reference in the scopes from the `k`-th outwards does not depend on those
/// inside them.
proof fn lemma_outer(own: Seq<KnownTable>, outer: Seq<Seq<KnownTable>>, r: Reference, k: int)
    requires
        0 <= k,
    ensures
        outcome(seq![own] + outer, r, k + 1) == outcome(outer, r, k),
    decreases outer.len() - k,
{
    if k < outer.len() {
        lemma_outer(own, outer, r, k + 1);
    }
}

// ---- Looking a reference up ----

impl<'a, 'p> NameContext<'a, 'p> {
    /// Look a column up in the tables of the query, then in those of the queries around it.
    pub fn lookup(&self, schema: Option<&str>, qualifier: Option<&str>, name: &str) -> (r:
        LookupOutcome)
        ensures
            r == outcome(
                scopes(*self),
                Reference { schema: opt_str_view(schema), table: opt_str_view(qualifier), name: name@ },
                0,
            ),
        decreases self,
    {
        let ghost want = Reference {
            schema: opt_str_view(schema),
            table: opt_str_view(qualifier),
            name: name@,
        };
        let ghost own = known_tables(self.tables@);
        if schema.is_some() {
            return LookupOutcome::NoSuchColumn;
        }
        let mut n: usize = 0;
        for i in 0..self.tables.len()
            invariant
                own == known_tables(self.tables@),
                want == (Reference {
                    schema: opt_str_view(schema),
                    table: opt_str_view(qualifier),
                    name: name@,
                }),
                n == fitting(own, want, i as int),
                n <= i,
        {
            let t: &ResolveTable<'a> = &self.tables[i];
            assert(own[i as int] == (KnownTable { table: t.table@, name: t.name@ }));
            let named: bool = match qualifier {
                Some(q) => eq_ignore_case(t.name, q),
                None => true,
            };
            if named && t.table.resolve_column(name).is_some() {
                n = n + 1;
            }
        }
        assert(scopes(*self)[0] == own);
        if n > 1 {
            return LookupOutcome::Ambiguous;
        }
        if n == 1 {
            return LookupOutcome::Found;
        }
        if qualifier.is_some() {
            return LookupOutcome::NoSuchColumn;
        }
        match self.parent {
            Some(p) => {
                proof {
                    assert(decreases_to!(*self => self.parent));
                    assert(decreases_to!(self.parent => *p));
                    lemma_outer(own, scopes(*p), want, 0);
                    assert(scopes(*self) == seq![own] + scopes(*p));
                    assert(outcome(scopes(*self), want, 1) == outcome(scopes(*p), want, 0));
                }
                match p.lookup(schema, qualifier, name) {
                    LookupOutcome::Found => LookupOutcome::FoundOuter,
                    LookupOutcome::FoundOuter => LookupOutcome::FoundOuter,
                    LookupOutcome::Ambiguous => LookupOutcome::AmbiguousOuter,
                    LookupOutcome::AmbiguousOuter => LookupOutcome::AmbiguousOuter,
                    LookupOutcome::NoSuchColumn => LookupOutcome::NoSuchColumn,
                }
            },
            None => LookupOutcome::NoSuchColumn,
        }
    }
}

fn display_col(schema: Option<&str>, table: Option<&str>, name: &str) -> (r: String)
    ensures
        r@ == (Reference { schema: opt_str_view(schema), table: opt_str_view(table), name: name@ }).text(),
{
    match (schema, table) {
        (Some(s), Some(t)) => {
            let mut r: String = cat3(s, ".", t);
            r.append(".");
            r.append(name);
            r
        },
        (None, Some(t)) => cat3(t, ".", name),
        (Some(s), None) => cat3(s, ".", name),
        (None, None) => owned(name),
    }
}

/// The outcome of a check.
pub open spec fn says(r: Result<(), Error>, m: Option<Seq<char>>) -> bool {
    match r {
        Ok(_) => m is None,
        Err(e) => m == Some(e@),
    }
}

fn check_reference(
    nc: &NameContext,
    schema: &Option<String>,
    table: &Option<String>,
    name: &String,
) -> (r: Result<(), Error>)
    ensures
        says(
            r,
            complaint(
                scopes(*nc),
                Reference {
                    schema: opt_name_view(*schema),
                    table: opt_name_view(*table),
                    name: name@,
                },
            ),
        ),
{
    let s = name_ref(schema);
    let t = name_ref(table);
    match nc.lookup(s, t, name.as_str()) {
        LookupOutcome::Found => Ok(()),
        LookupOutcome::FoundOuter => Ok(()),
        LookupOutcome::Ambiguous => Err(ambiguous(s, t, name.as_str())),
        LookupOutcome::AmbiguousOuter => Err(ambiguous(s, t, name.as_str())),
        LookupOutcome::NoSuchColumn => {
            let d = display_col(s, t, name.as_str());
            Err(Error::msg(cat2("no such column: ", d.as_str())))
        },
    }
}

fn ambiguous(schema: Option<&str>, table: Option<&str>, name: &str) -> (r: Error)
    ensures
        r@ == "ambiguous column name: "@ + (Reference {
            schema: opt_str_view(schema),
            table: opt_str_view(table),
            name: name@,
        }).text(),
{
    let d = display_col(schema, table, name);
    Error::msg(cat2("ambiguous column name: ", d.as_str()))
}

// ---- Walking a query ----

fn check_expr(nc: &NameContext, e: &Expr) -> (r: Result<(), Error>)
    ensures
        says(r, first_complaint(scopes(*nc), in_expr(e@))),
    decreases e, 1int,
{
    broadcast use lemma_complaints_in_turn;

    let ghost sc = scopes(*nc);
    match e {
        Expr::Column { schema, table, name } => {
            let ghost x = Reference {
                schema: opt_name_view(*schema),
                table: opt_name_view(*table),
                name: name@,
            };
            assert(in_expr(e@) == seq![x]);
            assert(first_complaint(sc, seq![x].skip(1)) is None);
            return check_reference(nc, schema, table, name);
        },
        Expr::AggRef(_) => {
            return Ok(());
        },
        Expr::Coalesce2 { left, right } => {
            return Ok(());
        },
        _ => {},
    }
    let es = operands_of(e);
    assert(in_expr(e@) == in_operands(e@, 0) + in_rest(e@));
    for k in 0..es.len()
        invariant
            sc == scopes(*nc),
            refs_view(es@) == operands(e@),
            es@.len() == operands(e@).len(),
            forall|i: int| 0 <= i < es@.len() ==> decreases_to!(*e => *(#[trigger] es@[i])),
            in_expr(e@) == in_operands(e@, 0) + in_rest(e@),
            first_complaint(sc, in_operands(e@, 0)) == first_complaint(
                sc,
                in_operands(e@, k as int),
            ),
    {
        broadcast use lemma_complaints_in_turn;

        assert(refs_view(es@)[k as int] == es@[k as int]@);
        assert(decreases_to!(*e => *es@[k as int]));
        assert(in_operands(e@, k as int) == in_expr(es@[k as int]@) + in_operands(e@, k + 1));
        if let Err(err) = check_expr(nc, es[k]) {
            return Err(err);
        }
    }
    check_rest(nc, e)
}

fn check_rest(nc: &NameContext, e: &Expr) -> (r: Result<(), Error>)
    ensures
        says(r, first_complaint(scopes(*nc), in_rest(e@))),
    decreases e, 0int,
{
    broadcast use lemma_complaints_in_turn;

    match e {
        Expr::Function { name, distinct, args, filter, over } => {
            if let Some(x) = filter {
                assert(decreases_to!(*e => *filter));
                assert(decreases_to!(*filter => filter->0));
                assert(opt_box_expr_view(*filter) == Some(Box::new(x@)));
                if let Err(err) = check_expr(nc, x) {
                    return Err(err);
                }
            } else {
                assert(opt_box_expr_view(*filter) is None);
            }
            if let Some(w) = over {
                assert(decreases_to!(*e => *over));
                assert(decreases_to!(*over => over->0));
                assert(decreases_to!(*w => w.partition_by));
                assert(decreases_to!(*w => w.order_by));
                assert(opt_window_view(*over) == Some(w@));
                if let Err(err) = check_list(nc, &w.partition_by) {
                    return Err(err);
                }
                return check_terms(nc, &w.order_by);
            }
            assert(opt_window_view(*over) is None);
            Ok(())
        },
        Expr::InSubquery { expr, subquery, negated } => check_query(nc, subquery),
        Expr::Exists(q) => check_query(nc, q),
        Expr::Subquery(q) => check_query(nc, q),
        _ => Ok(()),
    }
}

fn check_list(nc: &NameContext, es: &Vec<Expr>) -> (r: Result<(), Error>)
    ensures
        says(r, first_complaint(scopes(*nc), in_list(exprs_view(es@), 0))),
    decreases es, 0int,
{
    let ghost sc = scopes(*nc);
    let ghost xs = exprs_view(es@);
    for k in 0..es.len()
        invariant
            sc == scopes(*nc),
            xs == exprs_view(es@),
            first_complaint(sc, in_list(xs, 0)) == first_complaint(sc, in_list(xs, k as int)),
    {
        broadcast use lemma_complaints_in_turn;

        assert(xs[k as int] == es@[k as int]@);
        assert(in_list(xs, k as int) == in_expr(xs[k as int]) + in_list(xs, k + 1));
        assert(decreases_to!(*es => es@[k as int]));
        if let Err(err) = check_expr(nc, &es[k]) {
            return Err(err);
        }
    }
    Ok(())
}

fn check_terms(nc: &NameContext, ts: &Vec<OrderingTerm>) -> (r: Result<(), Error>)
    ensures
        says(r, first_complaint(scopes(*nc), in_terms(ordering_terms_view(ts@), 0))),
    decreases ts, 0int,
{
    let ghost sc = scopes(*nc);
    let ghost xs = ordering_terms_view(ts@);
    for k in 0..ts.len()
        invariant
            sc == scopes(*nc),
            xs == ordering_terms_view(ts@),
            first_complaint(sc, in_terms(xs, 0)) == first_complaint(sc, in_terms(xs, k as int)),
    {
        broadcast use lemma_complaints_in_turn;

        assert(xs[k as int] == ts@[k as int]@);
        assert(in_terms(xs, k as int) == in_expr(xs[k as int].expr) + in_terms(xs, k + 1));
        assert(decreases_to!(*ts => ts@[k as int]));
        assert(decreases_to!(ts@[k as int] => ts@[k as int].expr));
        if let Err(err) = check_expr(nc, &ts[k].expr) {
            return Err(err);
        }
    }
    Ok(())
}

fn check_opt(nc: &NameContext, o: &Option<Expr>) -> (r: Result<(), Error>)
    ensures
        says(r, first_complaint(scopes(*nc), in_opt(opt_expr_view(*o)))),
    decreases o, 0int,
{
    match o {
        Some(e) => check_expr(nc, e),
        None => Ok(()),
    }
}

fn check_column(nc: &NameContext, c: &ResultColumn) -> (r: Result<(), Error>)
    ensures
        says(r, first_complaint(scopes(*nc), in_column(c@))),
    decreases c, 0int,
{
    match c {
        ResultColumn::Expr { expr, alias } => check_expr(nc, expr),
        _ => Ok(()),
    }
}

fn check_columns(nc: &NameContext, cs: &Vec<ResultColumn>) -> (r: Result<(), Error>)
    ensures
        says(r, first_complaint(scopes(*nc), in_columns(result_columns_view(cs@), 0))),
    decreases cs, 0int,
{
    let ghost sc = scopes(*nc);
    let ghost xs = result_columns_view(cs@);
    for k in 0..cs.len()
        invariant
            sc == scopes(*nc),
            xs == result_columns_view(cs@),
            first_complaint(sc, in_columns(xs, 0)) == first_complaint(
                sc,
                in_columns(xs, k as int),
            ),
    {
        broadcast use lemma_complaints_in_turn;

        assert(xs[k as int] == cs@[k as int]@);
        assert(decreases_to!(*cs => cs@[k as int]));
        assert(in_columns(xs, k as int) == in_column(xs[k as int]) + in_columns(xs, k + 1));
        if let Err(err) = check_column(nc, &cs[k]) {
            return Err(err);
        }
    }
    Ok(())
}

fn check_rows(nc: &NameContext, rows: &Vec<Vec<Expr>>) -> (r: Result<(), Error>)
    ensures
        says(r, first_complaint(scopes(*nc), in_rows(expr_rows_view(rows@), 0))),
    decreases rows, 0int,
{
    let ghost sc = scopes(*nc);
    let ghost xs = expr_rows_view(rows@);
    for k in 0..rows.len()
        invariant
            sc == scopes(*nc),
            xs == expr_rows_view(rows@),
            first_complaint(sc, in_rows(xs, 0)) == first_complaint(sc, in_rows(xs, k as int)),
    {
        broadcast use lemma_complaints_in_turn;

        assert(xs[k as int] == exprs_view(rows@[k as int]@));
        assert(in_rows(xs, k as int) == in_list(xs[k as int], 0) + in_rows(xs, k + 1));
        assert(decreases_to!(*rows => rows@[k as int]));
        if let Err(err) = check_list(nc, &rows[k]) {
            return Err(err);
        }
    }
    Ok(())
}

fn check_core(nc: &NameContext, s: &SelectStmt) -> (r: Result<(), Error>)
    ensures
        says(r, first_complaint(scopes(*nc), in_core(s@))),
    decreases s, 0int,
{
    broadcast use lemma_complaints_in_turn;

    if let Err(err) = check_columns(nc, &s.columns) {
        return Err(err);
    }
    if let Err(err) = check_opt(nc, &s.where_clause) {
        return Err(err);
    }
    if let Err(err) = check_list(nc, &s.group_by) {
        return Err(err);
    }
    if let Err(err) = check_opt(nc, &s.having) {
        return Err(err);
    }
    if let Err(err) = check_terms(nc, &s.order_by) {
        return Err(err);
    }
    if let Err(err) = check_opt(nc, &s.limit) {
        return Err(err);
    }
    if let Err(err) = check_opt(nc, &s.offset) {
        return Err(err);
    }
    check_rows(nc, &s.values)
}

fn check_query(nc: &NameContext, s: &SelectStmt) -> (r: Result<(), Error>)
    ensures
        says(r, first_complaint(scopes(*nc), in_query(s@))),
    decreases s, 1int,
{
    broadcast use lemma_complaints_in_turn;

    assert(s@.from.len() == s.from@.len());
    assert(s@.values.len() == s.values@.len());
    if s.from.len() > 0 && s.values.len() == 0 {
        return Ok(());
    }
    if let Err(err) = check_core(nc, s) {
        return Err(err);
    }
    check_arms(nc, &s.compound)
}

fn check_arms(nc: &NameContext, arms: &Vec<(CompoundOperator, SelectStmt)>) -> (r: Result<
    (),
    Error,
>)
    ensures
        says(r, first_complaint(scopes(*nc), in_arms(arms_view(arms@), 0))),
    decreases arms, 0int,
{
    let ghost sc = scopes(*nc);
    let ghost xs = arms_view(arms@);
    for k in 0..arms.len()
        invariant
            sc == scopes(*nc),
            xs == arms_view(arms@),
            first_complaint(sc, in_arms(xs, 0)) == first_complaint(sc, in_arms(xs, k as int)),
    {
        broadcast use lemma_complaints_in_turn;

        assert(xs[k as int] == (arms@[k as int].0, arms@[k as int].1@));
        assert(in_arms(xs, k as int) == in_query(xs[k as int].1) + in_arms(xs, k + 1));
        assert(decreases_to!(*arms => arms@[k as int]));
        assert(decreases_to!(arms@[k as int] => arms@[k as int].1));
        if let Err(err) = check_query(nc, &arms[k].1) {
            return Err(err);
        }
    }
    Ok(())
}

/// Check that each column that `select` refers to, outside its `FROM` clause and its other arms, is
/// a column of exactly one of `tables`, or else of a query around it.
pub fn resolve_select<'a, 'p>(
    select: &SelectStmt,
    tables: &'a [ResolveTable<'a>],
    parent: Option<&'p NameContext<'a, 'p>>,
) -> (r: Result<(), Error>)
    ensures
        says(r, first_complaint(scopes_within(tables@, parent), in_core(select@))),
{
    let nc = NameContext { tables, parent };
    assert(scopes(nc) == scopes_within(tables@, parent));
    check_core(&nc, select)
}

} // verus!
