//! Common table expressions: each reference to one is replaced by a subquery.
//!
//! A `FROM` entry that names an expression of the `WITH` clause becomes a subquery with that
//! expression's body. A body may refer to the expressions before it, and its own `WITH` clause is
//! dealt with first. Where an expression declares column names, its body is changed to put its
//! columns out under those names.
use vstd::prelude::*;

use crate::ast::{
    arms_view, ctes_view, expr_rows_view, from_items_view, names_view, opt_name_view, opt_with_view,
    result_columns_view, CompoundOperator, CteView, Expr, ExprView, Join, JoinView, ResultColumn,
    ResultColumnView, SelectStmt, SelectStmtView, TableOrJoin, TableOrJoinView, TableRefView,
    WithClause, WithClauseView,
};
use crate::text::{cat2, decimal_u64, eq_ignore_case, eq_nocase, int_text, owned, Error};

verus! {

// ---- References to a name ----

/// A `FROM` entry refers to a table by an unqualified name.
pub open spec fn item_refers(item: TableOrJoinView, name: Seq<char>) -> bool
    decreases item, 0int,
{
    match item {
        TableOrJoinView::Table(t) => t.schema is None && eq_nocase(t.name, name),
        TableOrJoinView::Subquery { query, .. } => body_refers(*query, name),
        TableOrJoinView::Join(j) => item_refers(*j.left, name) || (j.right.schema is None
            && eq_nocase(j.right.name, name)),
    }
}

/// A `FROM` clause refers to a table by an unqualified name.
pub open spec fn from_refers(items: Seq<TableOrJoinView>, name: Seq<char>) -> bool
    decreases items, 0int,
{
    exists|i: int| 0 <= i < items.len() && item_refers(#[trigger] items[i], name)
}

/// The `FROM` clause of a query, or of one of its arms, refers to a table by an unqualified name.
pub open spec fn body_refers(body: SelectStmtView, name: Seq<char>) -> bool
    decreases body, 0int,
{
    from_refers(body.from, name) || exists|i: int|
        0 <= i < body.compound.len() && from_refers((#[trigger] body.compound[i]).1.from, name)
}

/// A `WITH` clause is recursive: it says so, or one of its bodies refers to itself.
pub open spec fn recursive(with: WithClauseView) -> bool {
    with.recursive || exists|i: int|
        0 <= i < with.ctes.len() && body_refers((#[trigger] with.ctes[i]).query, with.ctes[i].name)
}

// ---- Column names ----

/// The alias of the body inside the shell that renames its columns.
pub open spec fn inner_alias() -> Seq<char> {
    "__cte_inner"@
}

/// The column at position `i` of the body, under the given name.
pub open spec fn positional_column(i: int, name: Seq<char>) -> ResultColumnView {
    ResultColumnView::Expr {
        expr: ExprView::Column {
            schema: None,
            table: Some(inner_alias()),
            name: "column"@ + int_text(i + 1),
        },
        alias: Some(name),
    }
}

/// The columns of the body by position, under the given names.
pub open spec fn positional(names: Seq<Seq<char>>) -> Seq<ResultColumnView> {
    Seq::new(names.len(), |i: int| positional_column(i, names[i]))
}

/// Columns under the given names; a column without one gets the empty name.
pub open spec fn aliased(columns: Seq<ResultColumnView>, names: Seq<Seq<char>>) -> Seq<
    ResultColumnView,
> {
    Seq::new(
        columns.len(),
        |i: int|
            ResultColumnView::Expr {
                expr: columns[i]->expr,
                alias: Some(
                    if i < names.len() {
                        names[i]
                    } else {
                        ""@
                    },
                ),
            },
    )
}

/// A query that puts out the columns of `body` by position, under the given names.
pub open spec fn shell(body: SelectStmtView, names: Seq<Seq<char>>) -> SelectStmtView {
    SelectStmtView {
        distinct: false,
        columns: positional(names),
        from: seq![TableOrJoinView::Subquery { query: Box::new(body), alias: inner_alias() }],
        where_clause: None,
        group_by: Seq::empty(),
        having: None,
        compound: Seq::empty(),
        order_by: Seq::empty(),
        limit: None,
        offset: None,
        with_clause: None,
        window_clause: Seq::empty(),
        values: Seq::empty(),
    }
}

/// Every column is written as an expression.
pub open spec fn spelled_out(columns: Seq<ResultColumnView>) -> bool {
    forall|i: int| 0 <= i < columns.len() ==> (#[trigger] columns[i]) is Expr
}

/// A body whose columns have the declared names: they become the aliases of its columns, or,
/// where the columns are not spelled out, those of a shell around it.
pub open spec fn renamed(body: SelectStmtView, names: Seq<Seq<char>>) -> SelectStmtView {
    if body.values.len() > 0 || !spelled_out(body.columns) {
        shell(body, names)
    } else {
        SelectStmtView { columns: aliased(body.columns, names), ..body }
    }
}

// ---- How deep WITH clauses are nested ----

/// The larger of two numbers.
pub open spec fn larger(a: nat, b: nat) -> nat {
    if a < b {
        b
    } else {
        a
    }
}

/// How many `WITH` clauses a query has around one another.
pub open spec fn depth(s: SelectStmtView) -> nat
    decreases s, 1int,
{
    match s.with_clause {
        None => inner_depth(s),
        Some(w) => 1 + larger(inner_depth(s), ctes_depth(w.ctes, w.ctes.len() as int)),
    }
}

/// The same for the `FROM` clauses of a query and its arms. The `WITH` clause of an arm does not
/// count: it is not rewritten.
pub open spec fn inner_depth(s: SelectStmtView) -> nat
    decreases s, 0int,
{
    larger(
        items_depth(s.from, s.from.len() as int),
        arms_depth(s.compound, s.compound.len() as int),
    )
}

/// The depth of the first `n` items of a `FROM` clause.
pub open spec fn items_depth(items: Seq<TableOrJoinView>, n: int) -> nat
    decreases items, n,
{
    if n <= 0 || n > items.len() {
        0
    } else {
        larger(items_depth(items, n - 1), item_depth(items[n - 1]))
    }
}

/// The depth of an item of a `FROM` clause.
pub open spec fn item_depth(item: TableOrJoinView) -> nat
    decreases item, 0int,
{
    match item {
        TableOrJoinView::Table(_) => 0,
        TableOrJoinView::Subquery { query, .. } => depth(*query),
        TableOrJoinView::Join(j) => item_depth(*j.left),
    }
}

/// The depth of the first `n` arms of a compound query.
pub open spec fn arms_depth(arms: Seq<(CompoundOperator, SelectStmtView)>, n: int) -> nat
    decreases arms, n,
{
    if n <= 0 || n > arms.len() {
        0
    } else {
        larger(arms_depth(arms, n - 1), inner_depth(arms[n - 1].1))
    }
}

/// The depth of the first `n` common table expressions.
pub open spec fn ctes_depth(ctes: Seq<CteView>, n: int) -> nat
    decreases ctes, n,
{
    if n <= 0 || n > ctes.len() {
        0
    } else {
        larger(ctes_depth(ctes, n - 1), depth(ctes[n - 1].query))
    }
}

/// An item is no deeper than the clause that it belongs to.
pub proof fn lemma_item_depth(items: Seq<TableOrJoinView>, k: int, n: int)
    requires
        0 <= k < n <= items.len(),
    ensures
        item_depth(items[k]) <= items_depth(items, n),
    decreases n,
{
    if k < n - 1 {
        lemma_item_depth(items, k, n - 1);
    }
}

/// An arm is no deeper than the query that it belongs to.
pub proof fn lemma_arm_depth(arms: Seq<(CompoundOperator, SelectStmtView)>, k: int, n: int)
    requires
        0 <= k < n <= arms.len(),
    ensures
        inner_depth(arms[k].1) <= arms_depth(arms, n),
    decreases n,
{
    if k < n - 1 {
        lemma_arm_depth(arms, k, n - 1);
    }
}

/// A common table expression is no deeper than the clause that it belongs to.
pub proof fn lemma_cte_depth(ctes: Seq<CteView>, k: int, n: int)
    requires
        0 <= k < n <= ctes.len(),
    ensures
        depth(ctes[k].query) <= ctes_depth(ctes, n),
    decreases n,
{
    if k < n - 1 {
        lemma_cte_depth(ctes, k, n - 1);
    }
}

// ---- Replacing references ----

/// The first body in scope with the given name, from the `i`-th on.
pub open spec fn in_scope(
    scope: Seq<(Seq<char>, SelectStmtView)>,
    name: Seq<char>,
    i: int,
) -> Option<SelectStmtView>
    decreases scope.len() - i,
{
    if i < 0 || i >= scope.len() {
        None
    } else if eq_nocase(scope[i].0, name) {
        Some(scope[i].1)
    } else {
        in_scope(scope, name, i + 1)
    }
}

/// A `FROM` entry with the references to bodies in scope replaced.
///
/// A subquery with a `WITH` clause of its own is rewritten first, which leaves fewer clauses
/// around one another: see [`law_rewriting_flattens`].
pub open spec fn scoped_item(item: TableOrJoinView, scope: Seq<(Seq<char>, SelectStmtView)>) -> Result<
    TableOrJoinView,
    Seq<char>,
>
    decreases item_depth(item), item, 0int,
{
    match item {
        TableOrJoinView::Table(t) => if t.schema is Some {
            Ok(item)
        } else {
            match in_scope(scope, t.name, 0) {
                None => Ok(item),
                Some(body) => Ok(
                    TableOrJoinView::Subquery {
                        query: Box::new(SelectStmtView { with_clause: None, ..body }),
                        alias: match t.alias {
                            Some(a) => a,
                            None => t.name,
                        },
                    },
                ),
            }
        },
        TableOrJoinView::Subquery { query, alias } => {
            let body = if query.with_clause is Some {
                match rewritten(*query) {
                    Err(m) => Err(m),
                    Ok(y) => if depth(y) < depth(*query) {
                        scoped(y, scope)
                    } else {
                        Err(Seq::empty())
                    },
                }
            } else {
                scoped(*query, scope)
            };
            match body {
                Err(m) => Err(m),
                Ok(q) => Ok(TableOrJoinView::Subquery { query: Box::new(q), alias }),
            }
        },
        TableOrJoinView::Join(j) => match scoped_item(*j.left, scope) {
            Err(m) => Err(m),
            Ok(left) => Ok(TableOrJoinView::Join(JoinView { left: Box::new(left), ..j })),
        },
    }
}

/// The first `n` entries of a `FROM` clause with the references replaced.
pub open spec fn scoped_items(
    items: Seq<TableOrJoinView>,
    scope: Seq<(Seq<char>, SelectStmtView)>,
    n: int,
) -> Result<Seq<TableOrJoinView>, Seq<char>>
    decreases items_depth(items, items.len() as int), items, n,
{
    if n <= 0 || n > items.len() {
        Ok(Seq::empty())
    } else {
        proof {
            lemma_item_depth(items, n - 1, items.len() as int);
        }
        match scoped_items(items, scope, n - 1) {
            Err(m) => Err(m),
            Ok(v) => match scoped_item(items[n - 1], scope) {
                Err(m) => Err(m),
                Ok(x) => Ok(v.push(x)),
            },
        }
    }
}

/// The first `n` arms with the references replaced.
pub open spec fn scoped_arms(
    arms: Seq<(CompoundOperator, SelectStmtView)>,
    scope: Seq<(Seq<char>, SelectStmtView)>,
    n: int,
) -> Result<Seq<(CompoundOperator, SelectStmtView)>, Seq<char>>
    decreases arms_depth(arms, arms.len() as int), arms, n,
{
    if n <= 0 || n > arms.len() {
        Ok(Seq::empty())
    } else {
        proof {
            lemma_arm_depth(arms, n - 1, arms.len() as int);
        }
        match scoped_arms(arms, scope, n - 1) {
            Err(m) => Err(m),
            Ok(v) => match scoped(arms[n - 1].1, scope) {
                Err(m) => Err(m),
                Ok(x) => Ok(v.push((arms[n - 1].0, x))),
            },
        }
    }
}

/// A query with the references in its `FROM` clauses replaced.
pub open spec fn scoped(s: SelectStmtView, scope: Seq<(Seq<char>, SelectStmtView)>) -> Result<
    SelectStmtView,
    Seq<char>,
>
    decreases inner_depth(s), s, 0int,
{
    if scope.len() == 0 {
        Ok(s)
    } else {
        match scoped_items(s.from, scope, s.from.len() as int) {
            Err(m) => Err(m),
            Ok(from) => match scoped_arms(s.compound, scope, s.compound.len() as int) {
                Err(m) => Err(m),
                Ok(compound) => Ok(SelectStmtView { from, compound, ..s }),
            },
        }
    }
}

/// The bodies of the first `n` expressions, each rewritten with those before it in scope.
pub open spec fn rewritten_ctes(ctes: Seq<CteView>, n: int) -> Result<
    Seq<(Seq<char>, SelectStmtView)>,
    Seq<char>,
>
    decreases 1 + ctes_depth(ctes, ctes.len() as int), ctes, n,
{
    if n <= 0 || n > ctes.len() {
        Ok(Seq::empty())
    } else {
        proof {
            lemma_cte_depth(ctes, n - 1, ctes.len() as int);
        }
        let cte = ctes[n - 1];
        match rewritten_ctes(ctes, n - 1) {
            Err(m) => Err(m),
            Ok(scope) => match rewritten(cte.query) {
                Err(m) => Err(m),
                Ok(y) => if depth(y) <= depth(cte.query) {
                    match scoped(y, scope) {
                        Err(m) => Err(m),
                        Ok(body) => Ok(
                            scope.push(
                                (
                                    cte.name,
                                    if cte.columns.len() > 0 {
                                        renamed(body, cte.columns)
                                    } else {
                                        body
                                    },
                                ),
                            ),
                        ),
                    }
                } else {
                    Err(Seq::empty())
                },
            },
        }
    }
}

/// A query without its `WITH` clause, the references to its expressions replaced.
pub open spec fn rewritten(s: SelectStmtView) -> Result<SelectStmtView, Seq<char>>
    decreases depth(s), s, 1int,
{
    match s.with_clause {
        None => Ok(s),
        Some(w) => if w.ctes.len() == 0 {
            Ok(SelectStmtView { with_clause: None, ..s })
        } else if recursive(w) {
            Err("recursive CTEs are not supported by this codegen path (M10.3 pending)"@)
        } else {
            match rewritten_ctes(w.ctes, w.ctes.len() as int) {
                Err(m) => Err(m),
                Ok(scope) => match scoped(s, scope) {
                    Err(m) => Err(m),
                    Ok(r) => Ok(SelectStmtView { with_clause: None, ..r }),
                },
            }
        },
    }
}

// ---- Rewriting leaves fewer WITH clauses around one another ----

/// The bodies in scope have no more than `d` clauses around one another.
spec fn shallow(scope: Seq<(Seq<char>, SelectStmtView)>, d: nat) -> bool {
    forall|i: int| 0 <= i < scope.len() ==> inner_depth((#[trigger] scope[i]).1) <= d
}

proof fn lemma_in_scope(scope: Seq<(Seq<char>, SelectStmtView)>, name: Seq<char>, i: int, d: nat)
    requires
        shallow(scope, d),
    ensures
        in_scope(scope, name, i) matches Some(b) ==> inner_depth(b) <= d,
    decreases scope.len() - i,
{
    if 0 <= i < scope.len() && !eq_nocase(scope[i].0, name) {
        lemma_in_scope(scope, name, i + 1, d);
    }
}

proof fn lemma_items_prefix(a: Seq<TableOrJoinView>, b: Seq<TableOrJoinView>, n: int)
    requires
        0 <= n <= a.len(),
        n <= b.len(),
        forall|i: int| 0 <= i < n ==> a[i] == b[i],
    ensures
        items_depth(a, n) == items_depth(b, n),
    decreases n,
{
    if n > 0 {
        lemma_items_prefix(a, b, n - 1);
    }
}

proof fn lemma_arms_prefix(
    a: Seq<(CompoundOperator, SelectStmtView)>,
    b: Seq<(CompoundOperator, SelectStmtView)>,
    n: int,
)
    requires
        0 <= n <= a.len(),
        n <= b.len(),
        forall|i: int| 0 <= i < n ==> a[i] == b[i],
    ensures
        arms_depth(a, n) == arms_depth(b, n),
    decreases n,
{
    if n > 0 {
        lemma_arms_prefix(a, b, n - 1);
    }
}

proof fn lemma_scoped_item(
    item: TableOrJoinView,
    scope: Seq<(Seq<char>, SelectStmtView)>,
    d: nat,
)
    requires
        shallow(scope, d),
    ensures
        scoped_item(item, scope) matches Ok(x) ==> item_depth(x) <= larger(item_depth(item), d),
    decreases item_depth(item), item, 0int,
{
    match item {
        TableOrJoinView::Table(t) => {
            lemma_in_scope(scope, t.name, 0, d);
            if let Some(body) = in_scope(scope, t.name, 0) {
                let bare = SelectStmtView { with_clause: None, ..body };
                assert(inner_depth(bare) == inner_depth(body));
                assert(depth(bare) == inner_depth(bare));
                if let Ok(x) = scoped_item(item, scope) {
                    assert(t.schema is None ==> x->query == bare && item_depth(x) == depth(bare));
                }
            }
        },
        TableOrJoinView::Subquery { query, alias } => {
            if query.with_clause is Some {
                law_rewriting_flattens(*query);
                if let Ok(y) = rewritten(*query) {
                    lemma_scoped(y, scope, d);
                }
            } else {
                lemma_scoped(*query, scope, d);
            }
            if let Ok(x) = scoped_item(item, scope) {
                assert(item_depth(x) == depth(*x->query));
                assert(item_depth(item) == depth(*query));
            }
        },
        TableOrJoinView::Join(j) => {
            lemma_scoped_item(*j.left, scope, d);
            if let Ok(x) = scoped_item(item, scope) {
                assert(item_depth(x) == item_depth(*x->Join_0.left));
                assert(item_depth(item) == item_depth(*j.left));
            }
        },
    }
}

proof fn lemma_scoped_items(
    items: Seq<TableOrJoinView>,
    scope: Seq<(Seq<char>, SelectStmtView)>,
    d: nat,
    n: int,
)
    requires
        shallow(scope, d),
        0 <= n <= items.len(),
    ensures
        scoped_items(items, scope, n) matches Ok(v) ==> v.len() == n && items_depth(v, n)
            <= larger(items_depth(items, n), d),
    decreases items_depth(items, items.len() as int), items, n,
{
    if n > 0 {
        lemma_item_depth(items, n - 1, items.len() as int);
        lemma_scoped_items(items, scope, d, n - 1);
        lemma_scoped_item(items[n - 1], scope, d);
        if let Ok(v) = scoped_items(items, scope, n - 1) {
            if let Ok(x) = scoped_item(items[n - 1], scope) {
                lemma_items_prefix(v.push(x), v, n - 1);
            }
        }
    }
}

proof fn lemma_scoped_arms(
    arms: Seq<(CompoundOperator, SelectStmtView)>,
    scope: Seq<(Seq<char>, SelectStmtView)>,
    d: nat,
    n: int,
)
    requires
        shallow(scope, d),
        0 <= n <= arms.len(),
    ensures
        scoped_arms(arms, scope, n) matches Ok(v) ==> v.len() == n && arms_depth(v, n) <= larger(
            arms_depth(arms, n),
            d,
        ),
    decreases arms_depth(arms, arms.len() as int), arms, n,
{
    if n > 0 {
        lemma_arm_depth(arms, n - 1, arms.len() as int);
        lemma_scoped_arms(arms, scope, d, n - 1);
        lemma_scoped(arms[n - 1].1, scope, d);
        if let Ok(v) = scoped_arms(arms, scope, n - 1) {
            if let Ok(x) = scoped(arms[n - 1].1, scope) {
                lemma_arms_prefix(v.push((arms[n - 1].0, x)), v, n - 1);
            }
        }
    }
}

proof fn lemma_scoped(s: SelectStmtView, scope: Seq<(Seq<char>, SelectStmtView)>, d: nat)
    requires
        shallow(scope, d),
    ensures
        scoped(s, scope) matches Ok(r) ==> r.with_clause == s.with_clause && inner_depth(r)
            <= larger(inner_depth(s), d),
    decreases inner_depth(s), s, 0int,
{
    if scope.len() > 0 {
        lemma_scoped_items(s.from, scope, d, s.from.len() as int);
        lemma_scoped_arms(s.compound, scope, d, s.compound.len() as int);
    }
}

proof fn lemma_rewritten_ctes(ctes: Seq<CteView>, n: int)
    requires
        0 <= n <= ctes.len(),
    ensures
        rewritten_ctes(ctes, n) matches Ok(scope) ==> scope.len() == n && shallow(
            scope,
            ctes_depth(ctes, ctes.len() as int),
        ),
    decreases 1 + ctes_depth(ctes, ctes.len() as int), ctes, n,
{
    if n > 0 {
        let d = ctes_depth(ctes, ctes.len() as int);
        let cte = ctes[n - 1];
        lemma_cte_depth(ctes, n - 1, ctes.len() as int);
        lemma_rewritten_ctes(ctes, n - 1);
        law_rewriting_flattens(cte.query);
        if let Ok(scope) = rewritten_ctes(ctes, n - 1) {
            if let Ok(y) = rewritten(cte.query) {
                lemma_scoped(y, scope, d);
                if let Ok(body) = scoped(y, scope) {
                    lemma_renamed_depth(body, cte.columns);
                }
            }
        }
    }
}

proof fn lemma_renamed_depth(body: SelectStmtView, names: Seq<Seq<char>>)
    requires
        body.with_clause is None,
    ensures
        inner_depth(renamed(body, names)) == inner_depth(body),
{
    let s = shell(body, names);
    reveal_with_fuel(items_depth, 2);
    assert(item_depth(s.from[0]) == depth(body));
    assert(items_depth(s.from, 1) == depth(body));
    assert(inner_depth(s) == depth(body));
}

/// Rewriting a query always comes to an end and removes its `WITH` clause: what is left has
/// fewer `WITH` clauses around one another.
pub proof fn law_rewriting_flattens(s: SelectStmtView)
    ensures
        rewritten(s) matches Ok(r) ==> r.with_clause is None && depth(r) <= depth(s) && (
        s.with_clause is Some ==> depth(r) < depth(s)),
    decreases depth(s), s, 1int,
{
    if let Some(w) = s.with_clause {
        if w.ctes.len() == 0 {
            let bare = SelectStmtView { with_clause: None, ..s };
            assert(inner_depth(bare) == inner_depth(s));
        } else if !recursive(w) {
            let d = ctes_depth(w.ctes, w.ctes.len() as int);
            lemma_rewritten_ctes(w.ctes, w.ctes.len() as int);
            if let Ok(scope) = rewritten_ctes(w.ctes, w.ctes.len() as int) {
                lemma_scoped(s, scope, d);
                if let Ok(r) = scoped(s, scope) {
                    let bare = SelectStmtView { with_clause: None, ..r };
                    assert(inner_depth(bare) == inner_depth(r));
                }
            }
        }
    }
}

/// Rewriting a rewritten query changes nothing.
pub proof fn law_rewriting_idempotent(s: SelectStmtView)
    ensures
        rewritten(s) matches Ok(r) ==> rewritten(r) == Ok::<SelectStmtView, Seq<char>>(r),
{
    law_rewriting_flattens(s);
}

/// A table named with its schema never stands for an expression of a `WITH` clause.
pub proof fn law_qualified_names_stay(t: TableRefView, scope: Seq<(Seq<char>, SelectStmtView)>)
    requires
        t.schema is Some,
    ensures
        scoped_item(TableOrJoinView::Table(t), scope) == Ok::<TableOrJoinView, Seq<char>>(
            TableOrJoinView::Table(t),
        ),
{
}

// ---- The code ----

/// Whether a query has a `WITH` clause with at least one expression.
pub fn has_ctes(select: &SelectStmt) -> (r: bool)
    ensures
        r == (select@.with_clause matches Some(w) && w.ctes.len() > 0),
{
    assert(select@.with_clause == opt_with_view(select.with_clause));
    match &select.with_clause {
        Some(w) => {
            assert(opt_with_view(select.with_clause) == Some(w@));
            assert(w@.ctes == ctes_view(w.ctes@));
            w.ctes.len() > 0
        },
        None => false,
    }
}

/// Whether a `WITH` clause is recursive: it says so, or one of its bodies refers to itself.
pub fn is_recursive(with: &WithClause) -> (r: bool)
    ensures
        r == recursive(with@),
{
    if with.recursive {
        return true;
    }
    assert(with@.ctes == ctes_view(with.ctes@));
    for i in 0..with.ctes.len()
        invariant
            with@.ctes == ctes_view(with.ctes@),
            forall|j: int|
                0 <= j < i ==> !body_refers((#[trigger] with@.ctes[j]).query, with@.ctes[j].name),
    {
        assert(with@.ctes[i as int] == with.ctes@[i as int]@);
        if is_recursive_cte_body(&with.ctes[i].query, with.ctes[i].name.as_str()) {
            return true;
        }
    }
    false
}

/// Whether the `FROM` clause of a query, or of one of its arms, refers to a table by the given
/// name.
pub fn is_recursive_cte_body(select: &SelectStmt, cte_name: &str) -> (r: bool)
    ensures
        r == body_refers(select@, cte_name@),
    decreases select@, 1int,
{
    assert(select@.from == from_items_view(select.from@));
    assert(select@.compound == arms_view(select.compound@));
    if from_references_name(&select.from, cte_name) {
        return true;
    }
    for i in 0..select.compound.len()
        invariant
            select@.compound == arms_view(select.compound@),
            forall|j: int|
                0 <= j < i ==> !from_refers((#[trigger] select@.compound[j]).1.from, cte_name@),
    {
        let arm = &select.compound[i].1;
        assert(select@.compound[i as int] == (select.compound@[i as int].0, arm@));
        assert(arm@.from == from_items_view(arm.from@));
        proof {
            lemma_arm_from_below(select@, i as int);
        }
        if from_references_name(&arm.from, cte_name) {
            return true;
        }
    }
    false
}

proof fn lemma_arm_from_below(s: SelectStmtView, i: int)
    requires
        0 <= i < s.compound.len(),
    ensures
        decreases_to!(s => s.compound[i].1.from),
{
    assert(decreases_to!(s => s.compound));
    assert(decreases_to!(s.compound => s.compound[i]));
    assert(decreases_to!(s.compound[i] => s.compound[i].1));
    assert(decreases_to!(s.compound[i].1 => s.compound[i].1.from));
}

fn from_references_name(from: &Vec<TableOrJoin>, name: &str) -> (r: bool)
    ensures
        r == from_refers(from_items_view(from@), name@),
    decreases from_items_view(from@), 0int,
{
    let ghost items = from_items_view(from@);
    for i in 0..from.len()
        invariant
            items == from_items_view(from@),
            forall|j: int| 0 <= j < i ==> !item_refers(#[trigger] items[j], name@),
    {
        assert(items[i as int] == from@[i as int]@);
        assert(decreases_to!(items => items[i as int]));
        if item_references_name(&from[i], name) {
            return true;
        }
    }
    false
}

fn item_references_name(item: &TableOrJoin, name: &str) -> (r: bool)
    ensures
        r == item_refers(item@, name@),
    decreases item@, 0int,
{
    match item {
        TableOrJoin::Table(t) => {
            assert(item@ == TableOrJoinView::Table(t@));
            t.schema.is_none() && eq_ignore_case(t.name.as_str(), name)
        },
        TableOrJoin::Subquery { query, alias } => {
            assert(item@ == TableOrJoinView::Subquery {
                query: Box::new((**query)@),
                alias: alias@,
            });
            assert(decreases_to!(item@ => item@->query));
            assert(*item@->query == (**query)@);
            is_recursive_cte_body(query, name)
        },
        TableOrJoin::Join(j) => {
            assert(item@ == TableOrJoinView::Join(j@));
            assert(j@.left == Box::new((*j.left)@));
            assert(decreases_to!(item@ => item@->Join_0));
            assert(decreases_to!(item@->Join_0 => item@->Join_0.left));
            assert(*item@->Join_0.left == (*j.left)@);
            if item_references_name(&j.left, name) {
                return true;
            }
            j.right.schema.is_none() && eq_ignore_case(j.right.name.as_str(), name)
        },
    }
}

/// The mathematical value of a list of named bodies.
pub open spec fn scope_view(scope: Seq<(String, SelectStmt)>) -> Seq<(Seq<char>, SelectStmtView)> {
    Seq::new(scope.len(), |i: int| (scope[i].0@, scope[i].1@))
}

/// An outcome that is a query or an error.
pub open spec fn gives_select(
    r: Result<SelectStmt, Error>,
    want: Result<SelectStmtView, Seq<char>>,
) -> bool {
    match r {
        Ok(s) => want == Ok::<SelectStmtView, Seq<char>>(s@),
        Err(e) => want == Err::<SelectStmtView, Seq<char>>(e@),
    }
}

fn find_in_scope<'a>(scope: &'a Vec<(String, SelectStmt)>, name: &str) -> (r: Option<&'a SelectStmt>)
    ensures
        match r {
            Some(b) => in_scope(scope_view(scope@), name@, 0) == Some(b@),
            None => in_scope(scope_view(scope@), name@, 0) is None,
        },
{
    for i in 0..scope.len()
        invariant
            in_scope(scope_view(scope@), name@, 0) == in_scope(
                scope_view(scope@),
                name@,
                i as int,
            ),
    {
        if eq_ignore_case(scope[i].0.as_str(), name) {
            return Some(&scope[i].1);
        }
    }
    None
}

/// Rewrite a query: remove its `WITH` clause and replace the references to its expressions.
pub fn rewrite_with_ctes(select: &SelectStmt) -> (r: Result<SelectStmt, Error>)
    ensures
        gives_select(r, rewritten(select@)),
    decreases depth(select@), select@, 1int,
{
    assert(select@.with_clause == opt_with_view(select.with_clause));
    let with = match &select.with_clause {
        None => {
            return Ok(select.clone());
        },
        Some(w) => w,
    };
    assert(select@.with_clause == Some(with@));
    assert(with@.ctes == ctes_view(with.ctes@));
    if with.ctes.len() == 0 {
        let mut s = select.clone();
        s.with_clause = None;
        assert(s@ == SelectStmtView { with_clause: None, ..select@ });
        return Ok(s);
    }
    if is_recursive(with) {
        return Err(
            Error::lit("recursive CTEs are not supported by this codegen path (M10.3 pending)"),
        );
    }
    let ghost ctes = with@.ctes;
    let mut scope: Vec<(String, SelectStmt)> = Vec::new();
    assert(scope_view(scope@) =~= Seq::empty());
    proof {
        assert(decreases_to!(select@ => select@.with_clause));
        assert(decreases_to!(select@.with_clause => select@.with_clause->0));
        assert(decreases_to!(select@.with_clause->0 => select@.with_clause->0.ctes));
    }
    for i in 0..with.ctes.len()
        invariant
            select@.with_clause == Some(with@),
            with@.ctes == ctes_view(with.ctes@),
            ctes == with@.ctes,
            ctes.len() > 0,
            !recursive(with@),
            rewritten_ctes(ctes, i as int) == Ok::<Seq<(Seq<char>, SelectStmtView)>, Seq<char>>(
                scope_view(scope@),
            ),
    {
        let cte = &with.ctes[i];
        assert(ctes[i as int] == cte@);
        assert(cte@.columns == names_view(cte.columns@));
        proof {
            lemma_cte_depth(ctes, i as int, ctes.len() as int);
            law_rewriting_flattens(cte@.query);
            lemma_later_errors(ctes, i + 1, ctes.len() as int);
        }
        let query = match rewrite_with_ctes(&cte.query) {
            Ok(q) => q,
            Err(err) => {
                return Err(err);
            },
        };
        let mut body = match rewrite_from_against_scope(&query, &scope) {
            Ok(q) => q,
            Err(err) => {
                return Err(err);
            },
        };
        if cte.columns.len() > 0 {
            body = wrap_with_column_names(body, &cte.columns);
        }
        let ghost before = scope_view(scope@);
        let ghost bv = body@;
        scope.push((cte.name.clone(), body));
        assert(scope_view(scope@) =~= before.push((cte@.name, bv)));
    }
    match rewrite_from_against_scope(select, &scope) {
        Err(err) => Err(err),
        Ok(r) => {
            let mut outer = r;
            let ghost rv = outer@;
            outer.with_clause = None;
            assert(outer@ == SelectStmtView { with_clause: None, ..rv });
            Ok(outer)
        },
    }
}

/// An error among the first `k` expressions is the error of all of them.
proof fn lemma_later_errors(ctes: Seq<CteView>, k: int, n: int)
    requires
        0 <= k <= n <= ctes.len(),
    ensures
        rewritten_ctes(ctes, k) matches Err(m) ==> rewritten_ctes(ctes, n) == Err::<
            Seq<(Seq<char>, SelectStmtView)>,
            Seq<char>,
        >(m),
    decreases n - k,
{
    if k < n {
        lemma_later_errors(ctes, k, n - 1);
    }
}

/// Replace the references in the `FROM` clauses of a query and its arms.
fn rewrite_from_against_scope(select: &SelectStmt, scope: &Vec<(String, SelectStmt)>) -> (r: Result<
    SelectStmt,
    Error,
>)
    ensures
        gives_select(r, scoped(select@, scope_view(scope@))),
    decreases inner_depth(select@), select@, 0int,
{
    let ghost sv = scope_view(scope@);
    assert(select@.from == from_items_view(select.from@));
    assert(select@.compound == arms_view(select.compound@));
    if scope.len() == 0 {
        return Ok(select.clone());
    }
    let from = match rewrite_from_list(&select.from, scope) {
        Ok(v) => v,
        Err(err) => {
            return Err(err);
        },
    };
    let ghost arms = select@.compound;
    let mut compound: Vec<(CompoundOperator, SelectStmt)> = Vec::new();
    assert(arms_view(compound@) =~= Seq::empty());
    for i in 0..select.compound.len()
        invariant
            sv == scope_view(scope@),
            scope@.len() > 0,
            arms == select@.compound,
            arms == arms_view(select.compound@),
            scoped_items(select@.from, sv, select@.from.len() as int) is Ok,
            scoped_arms(arms, sv, i as int) == Ok::<
                Seq<(CompoundOperator, SelectStmtView)>,
                Seq<char>,
            >(arms_view(compound@)),
    {
        let arm = &select.compound[i].1;
        assert(arms[i as int] == (select.compound@[i as int].0, arm@));
        proof {
            lemma_arm_depth(arms, i as int, arms.len() as int);
            lemma_later_arm_errors(arms, sv, i + 1, arms.len() as int);
            assert(decreases_to!(select@ => select@.compound));
            assert(decreases_to!(select@.compound => select@.compound[i as int]));
            assert(decreases_to!(select@.compound[i as int] => select@.compound[i as int].1));
        }
        match rewrite_from_against_scope(arm, scope) {
            Err(err) => {
                return Err(err);
            },
            Ok(x) => {
                let ghost before = arms_view(compound@);
                let ghost xv = x@;
                compound.push((select.compound[i].0, x));
                assert(arms_view(compound@) =~= before.push((arms[i as int].0, xv)));
            },
        }
    }
    let mut r = select.clone();
    r.from = from;
    r.compound = compound;
    assert(r@ == SelectStmtView {
        from: from_items_view(r.from@),
        compound: arms_view(r.compound@),
        ..select@
    });
    Ok(r)
}

proof fn lemma_later_arm_errors(
    arms: Seq<(CompoundOperator, SelectStmtView)>,
    scope: Seq<(Seq<char>, SelectStmtView)>,
    k: int,
    n: int,
)
    requires
        0 <= k <= n <= arms.len(),
    ensures
        scoped_arms(arms, scope, k) matches Err(m) ==> scoped_arms(arms, scope, n) == Err::<
            Seq<(CompoundOperator, SelectStmtView)>,
            Seq<char>,
        >(m),
    decreases n - k,
{
    if k < n {
        lemma_later_arm_errors(arms, scope, k, n - 1);
    }
}

proof fn lemma_later_item_errors(
    items: Seq<TableOrJoinView>,
    scope: Seq<(Seq<char>, SelectStmtView)>,
    k: int,
    n: int,
)
    requires
        0 <= k <= n <= items.len(),
    ensures
        scoped_items(items, scope, k) matches Err(m) ==> scoped_items(items, scope, n) == Err::<
            Seq<TableOrJoinView>,
            Seq<char>,
        >(m),
    decreases n - k,
{
    if k < n {
        lemma_later_item_errors(items, scope, k, n - 1);
    }
}

fn rewrite_from_list(from: &Vec<TableOrJoin>, scope: &Vec<(String, SelectStmt)>) -> (r: Result<
    Vec<TableOrJoin>,
    Error,
>)
    ensures
        match r {
            Ok(v) => scoped_items(
                from_items_view(from@),
                scope_view(scope@),
                from@.len() as int,
            ) == Ok::<Seq<TableOrJoinView>, Seq<char>>(from_items_view(v@)),
            Err(e) => scoped_items(
                from_items_view(from@),
                scope_view(scope@),
                from@.len() as int,
            ) == Err::<Seq<TableOrJoinView>, Seq<char>>(e@),
        },
    decreases
            items_depth(from_items_view(from@), from@.len() as int),
            from_items_view(from@),
            0int,
{
    let ghost items = from_items_view(from@);
    let ghost sv = scope_view(scope@);
    let mut out: Vec<TableOrJoin> = Vec::new();
    assert(from_items_view(out@) =~= Seq::empty());
    for i in 0..from.len()
        invariant
            items == from_items_view(from@),
            sv == scope_view(scope@),
            scoped_items(items, sv, i as int) == Ok::<Seq<TableOrJoinView>, Seq<char>>(
                from_items_view(out@),
            ),
    {
        assert(items[i as int] == from@[i as int]@);
        proof {
            lemma_item_depth(items, i as int, items.len() as int);
            lemma_later_item_errors(items, sv, i + 1, items.len() as int);
            assert(decreases_to!(items => items[i as int]));
        }
        match rewrite_from_item(&from[i], scope) {
            Err(err) => {
                return Err(err);
            },
            Ok(x) => {
                let ghost before = from_items_view(out@);
                let ghost xv = x@;
                out.push(x);
                assert(from_items_view(out@) =~= before.push(xv));
            },
        }
    }
    Ok(out)
}

fn rewrite_from_item(item: &TableOrJoin, scope: &Vec<(String, SelectStmt)>) -> (r: Result<
    TableOrJoin,
    Error,
>)
    ensures
        match r {
            Ok(x) => scoped_item(item@, scope_view(scope@)) == Ok::<TableOrJoinView, Seq<char>>(x@),
            Err(e) => scoped_item(item@, scope_view(scope@)) == Err::<TableOrJoinView, Seq<char>>(
                e@,
            ),
        },
    decreases item_depth(item@), item@, 0int,
{
    match item {
        TableOrJoin::Table(t) => {
            assert(item@ == TableOrJoinView::Table(t@));
            assert(t@.schema == opt_name_view(t.schema));
            assert(t@.alias == opt_name_view(t.alias));
            if t.schema.is_some() {
                return Ok(item.clone());
            }
            match find_in_scope(scope, t.name.as_str()) {
                None => Ok(item.clone()),
                Some(found) => {
                    let alias = match &t.alias {
                        Some(a) => a.clone(),
                        None => t.name.clone(),
                    };
                    let mut body = found.clone();
                    body.with_clause = None;
                    assert(body@ == SelectStmtView { with_clause: None, ..found@ });
                    let r = TableOrJoin::Subquery { query: Box::new(body), alias };
                    assert(r@ == TableOrJoinView::Subquery {
                        query: Box::new(body@),
                        alias: alias@,
                    });
                    Ok(r)
                },
            }
        },
        TableOrJoin::Subquery { query, alias } => {
            assert(item@ == TableOrJoinView::Subquery {
                query: Box::new((**query)@),
                alias: alias@,
            });
            proof {
                assert(decreases_to!(item@ => item@->query));
                assert(*item@->query == (**query)@);
                assert(item_depth(item@) == depth((**query)@));
                law_rewriting_flattens((**query)@);
            }
            assert((**query)@.with_clause == opt_with_view(query.with_clause));
            let body = if query.with_clause.is_some() {
                let expanded = match rewrite_with_ctes(query) {
                    Ok(q) => q,
                    Err(err) => {
                        return Err(err);
                    },
                };
                match rewrite_from_against_scope(&expanded, scope) {
                    Ok(q) => q,
                    Err(err) => {
                        return Err(err);
                    },
                }
            } else {
                match rewrite_from_against_scope(query, scope) {
                    Ok(q) => q,
                    Err(err) => {
                        return Err(err);
                    },
                }
            };
            let r = TableOrJoin::Subquery { query: Box::new(body), alias: alias.clone() };
            assert(r@ == TableOrJoinView::Subquery { query: Box::new(body@), alias: alias@ });
            Ok(r)
        },
        TableOrJoin::Join(j) => {
            assert(item@ == TableOrJoinView::Join(j@));
            assert(j@.left == Box::new((*j.left)@));
            proof {
                assert(decreases_to!(item@ => item@->Join_0));
                assert(decreases_to!(item@->Join_0 => item@->Join_0.left));
                assert(*item@->Join_0.left == (*j.left)@);
                assert(item_depth(item@) == item_depth((*j.left)@));
            }
            let left = match rewrite_from_item(&j.left, scope) {
                Ok(x) => x,
                Err(err) => {
                    return Err(err);
                },
            };
            let Join { op, left: _, right, constraint } = j.clone();
            let ghost lv = left@;
            let joined = Join { op, left: Box::new(left), right, constraint };
            assert(joined@ == JoinView { left: Box::new(lv), ..j@ });
            let r = TableOrJoin::Join(joined);
            assert(r@ == TableOrJoinView::Join(joined@));
            Ok(r)
        },
    }
}

fn named_column(expr: Expr, name: String) -> (r: ResultColumn)
    ensures
        r@ == (ResultColumnView::Expr { expr: expr@, alias: Some(name@) }),
{
    let ghost ev = expr@;
    let ghost nv = name@;
    let alias = Some(name);
    assert(opt_name_view(alias) == Some(nv));
    ResultColumn::Expr { expr, alias }
}

fn numbered_column(i: usize, name: &String) -> (r: ResultColumn)
    requires
        i < usize::MAX,
    ensures
        r@ == positional_column(i as int, name@),
{
    let column = cat2("column", decimal_u64(i as u64 + 1).as_str());
    let table = Some(owned("__cte_inner"));
    assert(opt_name_view(table) == Some(inner_alias()));
    let expr = Expr::Column { schema: None, table, name: column };
    assert(expr@ == ExprView::Column {
        schema: None,
        table: Some(inner_alias()),
        name: "column"@ + int_text(i + 1),
    });
    named_column(expr, name.clone())
}

/// Put the columns of a body out under the declared names.
fn wrap_with_column_names(body: SelectStmt, names: &Vec<String>) -> (r: SelectStmt)
    ensures
        r@ == renamed(body@, names_view(names@)),
{
    assert(body@.values == expr_rows_view(body.values@));
    assert(body@.columns == result_columns_view(body.columns@));
    if body.values.len() > 0 {
        return wrap_star_cte_with_names(body, names);
    }
    let ghost cols = body@.columns;
    let ghost nv = names_view(names@);
    let ghost all = aliased(cols, nv);
    let mut columns: Vec<ResultColumn> = Vec::new();
    assert(result_columns_view(columns@) =~= all.take(0));
    for i in 0..body.columns.len()
        invariant
            body@.values.len() == 0,
            cols == body@.columns,
            cols == result_columns_view(body.columns@),
            nv == names_view(names@),
            all == aliased(cols, nv),
            forall|j: int| 0 <= j < i ==> (#[trigger] cols[j]) is Expr,
            result_columns_view(columns@) == all.take(i as int),
    {
        assert(cols[i as int] == body.columns@[i as int]@);
        let copied: Option<ResultColumn> = match &body.columns[i] {
            ResultColumn::Expr { expr, alias } => {
                let name = if i < names.len() {
                    names[i].clone()
                } else {
                    owned("")
                };
                assert(cols[i as int]->expr == expr@);
                Some(named_column(expr.clone(), name))
            },
            _ => None,
        };
        match copied {
            Some(c) => {
                let ghost before = result_columns_view(columns@);
                let ghost cv = c@;
                columns.push(c);
                assert(cv == all[i as int]);
                assert(result_columns_view(columns@) =~= before.push(cv));
                assert(all.take(i + 1) =~= all.take(i as int).push(all[i as int]));
            },
            None => {
                assert(!(cols[i as int] is Expr));
                return wrap_star_cte_with_names(body, names);
            },
        }
    }
    assert(all.take(cols.len() as int) =~= all);
    let ghost bv = body@;
    let mut r = body;
    r.columns = columns;
    assert(r@ == SelectStmtView { columns: all, ..bv });
    r
}

/// Put a shell around a body that puts its columns out by position under the declared names.
fn wrap_star_cte_with_names(body: SelectStmt, names: &Vec<String>) -> (r: SelectStmt)
    ensures
        r@ == shell(body@, names_view(names@)),
{
    let ghost want = shell(body@, names_view(names@));
    let ghost bv = body@;
    let mut columns: Vec<ResultColumn> = Vec::new();
    assert(result_columns_view(columns@) =~= want.columns.take(0));
    for i in 0..names.len()
        invariant
            want == shell(bv, names_view(names@)),
            result_columns_view(columns@) == want.columns.take(i as int),
    {
        let c = numbered_column(i, &names[i]);
        let ghost before = result_columns_view(columns@);
        let ghost cv = c@;
        columns.push(c);
        assert(cv == want.columns[i as int]);
        assert(result_columns_view(columns@) =~= before.push(cv));
        assert(want.columns.take(i + 1) =~= want.columns.take(i as int).push(
            want.columns[i as int],
        ));
    }
    assert(want.columns.take(names@.len() as int) =~= want.columns);
    let inner = TableOrJoin::Subquery { query: Box::new(body), alias: owned("__cte_inner") };
    let mut from: Vec<TableOrJoin> = Vec::new();
    from.push(inner);
    assert(from_items_view(from@) =~= want.from);
    let r = SelectStmt {
        distinct: false,
        columns,
        from,
        where_clause: None,
        group_by: Vec::new(),
        having: None,
        compound: Vec::new(),
        order_by: Vec::new(),
        limit: None,
        offset: None,
        with_clause: None,
        window_clause: Vec::new(),
        values: Vec::new(),
    };
    assert(r@.group_by =~= want.group_by);
    assert(r@.compound =~= want.compound);
    assert(r@.order_by =~= want.order_by);
    assert(r@.window_clause =~= want.window_clause);
    assert(r@.values =~= want.values);
    r
}

} // verus!
