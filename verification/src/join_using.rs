//! Joins with a `USING` clause and natural joins.
//!
//! Such a join is rewritten into one with an `ON` clause: the two tables agree on every shared
//! column. A bare reference to a shared column stands for the value of the outer table unless
//! that is NULL, and then for that of the inner table, and `*` puts each shared column out once.
use vstd::prelude::*;

use crate::ast::{
    exprs_view, from_items_view, names_view, opt_constraint_view, opt_expr_view, opt_name_view,
    ordering_terms_view, result_columns_view, BinaryOp, Expr, ExprView, JoinConstraint,
    JoinConstraintView, JoinOp, OrderingTerm, OrderingTermView, ResultColumn, ResultColumnView,
    SelectStmt, SelectStmtView, TableOrJoin, TableOrJoinView,
};
use crate::join::constraint_view;
use crate::rewrite::{
    coalesce_expr, first_of, is_using_col, name_among, outcome, qualified, qualified_col, rewrite,
    rewrite_list, rewritten, rewritten_list, Rule, RuleView, Shared,
};
use crate::schema::{column_from, columns_view, ColumnView, Table, TableView};
use crate::text::{cat3, eq_nocase_equivalence, owned, same_text, Error};

verus! {

// ---- The shared columns ----

/// The join is a natural one.
pub open spec fn natural(op: JoinOp) -> bool {
    op == JoinOp::Natural || op == JoinOp::NaturalLeft || op == JoinOp::NaturalRight || op
        == JoinOp::NaturalFull
}

/// The first name from the `i`-th on that is not a column of both tables.
pub open spec fn missing_from(
    names: Seq<Seq<char>>,
    left: TableView,
    right: TableView,
    i: int,
) -> Option<Seq<char>>
    decreases names.len() - i,
{
    if i < 0 || i >= names.len() {
        None
    } else if left.column_index(names[i]) is None || right.column_index(names[i]) is None {
        Some(names[i])
    } else {
        missing_from(names, left, right, i + 1)
    }
}

/// The first `n` of the columns that the other table has too, each name once.
pub open spec fn shared_columns(columns: Seq<ColumnView>, right: TableView, n: int) -> Seq<Seq<char>>
    decreases n,
{
    if n <= 0 || n > columns.len() {
        Seq::empty()
    } else {
        let before = shared_columns(columns, right, n - 1);
        let name = columns[n - 1].name;
        if right.column_index(name) is Some && !name_among(before, name, 0) {
            before.push(name)
        } else {
            before
        }
    }
}

/// The columns that a join shares; `None` for a join that shares none by its form.
pub open spec fn using_columns(
    left: TableView,
    right: TableView,
    constraint: Option<JoinConstraintView>,
    op: JoinOp,
) -> Result<Option<Seq<Seq<char>>>, Seq<char>> {
    if natural(op) && constraint is Some {
        Err("a NATURAL join may not have an ON or USING clause"@)
    } else {
        match constraint {
            Some(JoinConstraintView::Using(names)) => match missing_from(names, left, right, 0) {
                Some(c) => Err(
                    "cannot join using column "@ + c + " - column not present in both tables"@,
                ),
                None => Ok(Some(names)),
            },
            Some(JoinConstraintView::On(_)) => Ok(None),
            None => if natural(op) {
                Ok(Some(shared_columns(left.columns, right, left.columns.len() as int)))
            } else {
                Ok(None)
            },
        }
    }
}

/// An outcome that is a list of shared columns.
pub open spec fn gives_columns(
    r: Result<Option<Vec<String>>, Error>,
    want: Result<Option<Seq<Seq<char>>>, Seq<char>>,
) -> bool {
    match r {
        Ok(Some(v)) => want == Ok::<Option<Seq<Seq<char>>>, Seq<char>>(Some(names_view(v@))),
        Ok(None) => want == Ok::<Option<Seq<Seq<char>>>, Seq<char>>(None),
        Err(e) => want == Err::<Option<Seq<Seq<char>>>, Seq<char>>(e@),
    }
}

/// Every shared column is a column of both tables.
pub proof fn law_shared_columns_in_both(
    left: TableView,
    right: TableView,
    constraint: Option<JoinConstraintView>,
    op: JoinOp,
)
    requires
        left.wf(),
    ensures
        using_columns(left, right, constraint, op) matches Ok(Some(names)) ==> forall|i: int|
            0 <= i < names.len() ==> left.column_index(#[trigger] names[i]) is Some
                && right.column_index(names[i]) is Some,
{
    match constraint {
        Some(JoinConstraintView::Using(names)) => {
            if missing_from(names, left, right, 0) is None {
                lemma_none_missing(names, left, right, 0);
            }
        },
        Some(JoinConstraintView::On(_)) => {},
        None => {
            lemma_shared_columns(left, right, left.columns.len() as int);
        },
    }
}

proof fn lemma_none_missing(names: Seq<Seq<char>>, left: TableView, right: TableView, k: int)
    requires
        0 <= k,
        missing_from(names, left, right, k) is None,
    ensures
        forall|i: int|
            k <= i < names.len() ==> left.column_index(#[trigger] names[i]) is Some
                && right.column_index(names[i]) is Some,
    decreases names.len() - k,
{
    if k < names.len() {
        lemma_none_missing(names, left, right, k + 1);
    }
}

proof fn lemma_found(columns: Seq<ColumnView>, k: int, i: int)
    requires
        0 <= i <= k < columns.len(),
        columns.len() <= usize::MAX,
    ensures
        column_from(columns, columns[k].name, i) is Some,
    decreases k - i,
{
    eq_nocase_equivalence(columns[k].name, columns[k].name, columns[k].name);
    if i < k {
        lemma_found(columns, k, i + 1);
    }
}

proof fn lemma_shared_columns(left: TableView, right: TableView, n: int)
    requires
        0 <= n <= left.columns.len(),
        left.columns.len() <= usize::MAX,
    ensures
        forall|i: int|
            0 <= i < shared_columns(left.columns, right, n).len() ==> left.column_index(
                #[trigger] shared_columns(left.columns, right, n)[i],
            ) is Some && right.column_index(shared_columns(left.columns, right, n)[i]) is Some,
    decreases n,
{
    if n > 0 {
        lemma_shared_columns(left, right, n - 1);
        lemma_found(left.columns, n - 1, 0);
    }
}

fn is_natural(op: JoinOp) -> (r: bool)
    ensures
        r == natural(op),
{
    op == JoinOp::Natural || op == JoinOp::NaturalLeft || op == JoinOp::NaturalRight || op
        == JoinOp::NaturalFull
}

/// The columns that a join of two tables shares: those that its `USING` clause lists, or for a
/// natural join the columns of the left table that the right table has too. `None` for any other
/// join.
pub fn resolve_using_cols(
    left: &Table,
    right: &Table,
    constraint: Option<&JoinConstraint>,
    op: JoinOp,
) -> (r: Result<Option<Vec<String>>, Error>)
    ensures
        gives_columns(r, using_columns(left@, right@, constraint_view(constraint), op)),
{
    let is_nat = is_natural(op);
    match constraint {
        Some(c) => {
            if is_nat {
                return Err(Error::lit("a NATURAL join may not have an ON or USING clause"));
            }
            match c {
                JoinConstraint::Using(cols) => {
                    assert(c@ == JoinConstraintView::Using(names_view(cols@)));
                    let mut out: Vec<String> = Vec::new();
                    for i in 0..cols.len()
                        invariant
                            out@.len() == i,
                            forall|j: int| 0 <= j < i ==> (#[trigger] out@[j])@ == cols@[j]@,
                            missing_from(names_view(cols@), left@, right@, 0) == missing_from(
                                names_view(cols@),
                                left@,
                                right@,
                                i as int,
                            ),
                            constraint_view(constraint) == Some(
                                JoinConstraintView::Using(names_view(cols@)),
                            ),
                            !natural(op),
                    {
                        let name = cols[i].as_str();
                        if left.column_index(name).is_none() || right.column_index(name).is_none() {
                            return Err(
                                Error::msg(
                                    cat3(
                                        "cannot join using column ",
                                        name,
                                        " - column not present in both tables",
                                    ),
                                ),
                            );
                        }
                        out.push(cols[i].clone());
                    }
                    assert(names_view(out@) =~= names_view(cols@));
                    Ok(Some(out))
                },
                JoinConstraint::On(_) => Ok(None),
            }
        },
        None => {
            if !is_nat {
                return Ok(None);
            }
            let mut shared: Vec<String> = Vec::new();
            assert(names_view(shared@) =~= Seq::empty());
            assert(left@.columns == columns_view(left.columns@));
            for i in 0..left.columns.len()
                invariant
                    left@.columns == columns_view(left.columns@),
                    names_view(shared@) == shared_columns(left@.columns, right@, i as int),
            {
                assert(left@.columns[i as int] == left.columns@[i as int]@);
                let name = left.columns[i].name.as_str();
                if right.column_index(name).is_some() && !is_using_col(shared.as_slice(), name) {
                    let ghost before = names_view(shared@);
                    shared.push(left.columns[i].name.clone());
                    assert(names_view(shared@) =~= before.push(left@.columns[i as int].name));
                }
            }
            Ok(Some(shared))
        },
    }
}

/// The columns that the join which a `FROM` clause begins with shares.
pub open spec fn using_columns_of(
    from: Seq<TableOrJoinView>,
    left: TableView,
    right: TableView,
) -> Result<Option<Seq<Seq<char>>>, Seq<char>> {
    if from.len() > 0 && from[0] is Join {
        using_columns(left, right, from[0]->Join_0.constraint, from[0]->Join_0.op)
    } else {
        Ok(None)
    }
}

/// The columns that the join which a `FROM` clause begins with shares; `None` if it does not
/// begin with such a join.
pub fn using_cols_for(from: &Vec<TableOrJoin>, left: &Table, right: &Table) -> (r: Result<
    Option<Vec<String>>,
    Error,
>)
    ensures
        gives_columns(r, using_columns_of(from_items_view(from@), left@, right@)),
{
    if from.len() == 0 {
        return Ok(None);
    }
    assert(from_items_view(from@)[0] == from@[0]@);
    match &from[0] {
        TableOrJoin::Join(j) => {
            assert(from@[0]@ == TableOrJoinView::Join(j@));
            assert(j@.constraint == opt_constraint_view(j.constraint));
            let c: Option<&JoinConstraint> = match &j.constraint {
                Some(c) => Some(c),
                None => None,
            };
            assert(constraint_view(c) == j@.constraint);
            resolve_using_cols(left, right, c, j.op)
        },
        _ => Ok(None),
    }
}

// ---- The ON clause ----

/// The two tables agree on a column.
pub open spec fn agree_on(outer: Seq<char>, inner: Seq<char>, name: Seq<char>) -> ExprView {
    ExprView::Binary {
        op: BinaryOp::Eq,
        left: Box::new(qualified(outer, name)),
        right: Box::new(qualified(inner, name)),
    }
}

/// The two tables agree on the first `n` columns.
pub open spec fn agree_on_all(
    names: Seq<Seq<char>>,
    outer: Seq<char>,
    inner: Seq<char>,
    n: int,
) -> Option<ExprView>
    decreases n,
{
    if n <= 0 || n > names.len() {
        None
    } else {
        let term = agree_on(outer, inner, names[n - 1]);
        match agree_on_all(names, outer, inner, n - 1) {
            None => Some(term),
            Some(before) => Some(
                ExprView::Binary {
                    op: BinaryOp::And,
                    left: Box::new(before),
                    right: Box::new(term),
                },
            ),
        }
    }
}

fn agreement(outer_name: &str, inner_name: &str, name: &String) -> (r: Expr)
    ensures
        r@ == agree_on(outer_name@, inner_name@, name@),
{
    let left = qualified_col(outer_name, name.as_str());
    let right = qualified_col(inner_name, name.as_str());
    let ghost lv = left@;
    let ghost rv = right@;
    let e = Expr::Binary { op: BinaryOp::Eq, left: Box::new(left), right: Box::new(right) };
    assert(e@ == ExprView::Binary {
        op: BinaryOp::Eq,
        left: Box::new(lv),
        right: Box::new(rv),
    });
    e
}

/// The condition that two tables agree on every shared column; `None` if there are none.
pub fn synthetic_on(using_cols: &[String], outer_name: &str, inner_name: &str) -> (r: Option<Expr>)
    ensures
        opt_expr_view(r) == agree_on_all(
            names_view(using_cols@),
            outer_name@,
            inner_name@,
            using_cols@.len() as int,
        ),
{
    let ghost names = names_view(using_cols@);
    let mut acc: Option<Expr> = None;
    for i in 0..using_cols.len()
        invariant
            names == names_view(using_cols@),
            opt_expr_view(acc) == agree_on_all(names, outer_name@, inner_name@, i as int),
    {
        assert(names[i as int] == using_cols@[i as int]@);
        let term = agreement(outer_name, inner_name, &using_cols[i]);
        let ghost tv = term@;
        acc =
        match acc {
            Some(prev) => {
                let ghost pv = prev@;
                let e = Expr::Binary {
                    op: BinaryOp::And,
                    left: Box::new(prev),
                    right: Box::new(term),
                };
                assert(e@ == ExprView::Binary {
                    op: BinaryOp::And,
                    left: Box::new(pv),
                    right: Box::new(tv),
                });
                Some(e)
            },
            None => Some(term),
        };
    }
    acc
}

// ---- Expressions ----

/// How expressions over a join are rewritten.
pub open spec fn sharing(
    columns: Seq<Seq<char>>,
    outer_name: Seq<char>,
    inner_name: Seq<char>,
    outer: TableView,
    inner: TableView,
) -> RuleView {
    RuleView::SharedColumns { columns, outer_name, inner_name, outer, inner }
}

/// Rewrite an expression over a join: a bare reference to a shared column becomes the first value
/// that is not NULL. A bare reference to another column that both tables have is refused.
pub fn rewrite_expr(
    expr: &Expr,
    using_cols: &[String],
    outer_name: &str,
    inner_name: &str,
    outer_table: &Table,
    inner_table: &Table,
) -> (r: Result<Expr, Error>)
    ensures
        outcome(
            r,
            rewritten(
                sharing(
                    names_view(using_cols@),
                    outer_name@,
                    inner_name@,
                    outer_table@,
                    inner_table@,
                ),
                expr@,
            ),
        ),
{
    let rule = Rule::SharedColumns(
        Shared {
            columns: using_cols,
            outer_name,
            inner_name,
            outer: outer_table,
            inner: inner_table,
        },
    );
    rewrite(&rule, expr)
}

// ---- Result columns ----

/// The column of `*` for a column of the first table: a shared one stands for both tables.
pub open spec fn first_column(rule: RuleView, name: Seq<char>, left: Seq<char>) -> ResultColumnView {
    ResultColumnView::Expr {
        expr: if name_among(rule->columns, name, 0) {
            first_of(rule->outer_name, rule->inner_name, name)
        } else {
            qualified(left, name)
        },
        alias: None,
    }
}

/// The table that stands first in the `FROM` clause, under the name `left`. A right join reads it
/// as the inner table.
pub open spec fn left_table(rule: RuleView, left: Seq<char>) -> TableView {
    if left == rule->outer_name {
        rule->outer
    } else {
        rule->inner
    }
}

/// The other table.
pub open spec fn right_table(rule: RuleView, left: Seq<char>) -> TableView {
    if left == rule->outer_name {
        rule->inner
    } else {
        rule->outer
    }
}

/// The columns of `*` for the columns of the first table.
pub open spec fn first_columns(rule: RuleView, left: Seq<char>) -> Seq<ResultColumnView> {
    let t = left_table(rule, left);
    Seq::new(t.columns.len(), |i: int| first_column(rule, t.columns[i].name, left))
}

/// The columns of `*` for the first `n` columns of the second table: the shared ones are left
/// out.
pub open spec fn second_columns(rule: RuleView, t: TableView, right: Seq<char>, n: int) -> Seq<
    ResultColumnView,
>
    decreases n,
{
    if n <= 0 || n > t.columns.len() {
        Seq::empty()
    } else {
        let name = t.columns[n - 1].name;
        if name_among(rule->columns, name, 0) {
            second_columns(rule, t, right, n - 1)
        } else {
            second_columns(rule, t, right, n - 1).push(
                ResultColumnView::Expr { expr: qualified(right, name), alias: None },
            )
        }
    }
}

/// The first `n` result columns rewritten.
pub open spec fn projected(
    rule: RuleView,
    columns: Seq<ResultColumnView>,
    left: Seq<char>,
    right: Seq<char>,
    n: int,
) -> Result<Seq<ResultColumnView>, Seq<char>>
    decreases n,
{
    if n <= 0 || n > columns.len() {
        Ok(Seq::empty())
    } else {
        match projected(rule, columns, left, right, n - 1) {
            Err(m) => Err(m),
            Ok(before) => match columns[n - 1] {
                ResultColumnView::Star => Ok(
                    before + first_columns(rule, left) + second_columns(
                        rule,
                        right_table(rule, left),
                        right,
                        right_table(rule, left).columns.len() as int,
                    ),
                ),
                ResultColumnView::TableStar(t) => Ok(before.push(columns[n - 1])),
                ResultColumnView::Expr { expr, alias } => match rewritten(rule, expr) {
                    Err(m) => Err(m),
                    Ok(e) => Ok(before.push(ResultColumnView::Expr { expr: e, alias })),
                },
            },
        }
    }
}

/// The result columns rewritten; there must be some.
pub open spec fn projection(
    rule: RuleView,
    columns: Seq<ResultColumnView>,
    left: Seq<char>,
    right: Seq<char>,
) -> Result<Seq<ResultColumnView>, Seq<char>> {
    match projected(rule, columns, left, right, columns.len() as int) {
        Err(m) => Err(m),
        Ok(cs) => if cs.len() == 0 {
            Err("no result columns"@)
        } else {
            Ok(cs)
        },
    }
}

proof fn lemma_refused(
    rule: RuleView,
    columns: Seq<ResultColumnView>,
    left: Seq<char>,
    right: Seq<char>,
    k: int,
    n: int,
)
    requires
        0 <= k <= n <= columns.len(),
        projected(rule, columns, left, right, k) is Err,
    ensures
        projected(rule, columns, left, right, n) == projected(rule, columns, left, right, k),
    decreases n - k,
{
    if k < n {
        lemma_refused(rule, columns, left, right, k, n - 1);
    }
}

fn push_column(out: &mut Vec<ResultColumn>, expr: Expr, Ghost(e): Ghost<ExprView>)
    requires
        e == expr@,
    ensures
        result_columns_view(final(out)@) == result_columns_view(old(out)@).push(
            ResultColumnView::Expr { expr: e, alias: None },
        ),
{
    let ghost before = result_columns_view(out@);
    let c = ResultColumn::Expr { expr, alias: None };
    let ghost cv = c@;
    assert(cv == ResultColumnView::Expr { expr: e, alias: None });
    out.push(c);
    assert(result_columns_view(out@) =~= before.push(cv));
}

fn push_star(
    out: &mut Vec<ResultColumn>,
    using_cols: &[String],
    outer_name: &str,
    inner_name: &str,
    first: &Table,
    second: &Table,
    left: &str,
    right: &str,
    Ghost(rule): Ghost<RuleView>,
)
    requires
        rule is SharedColumns,
        rule->columns == names_view(using_cols@),
        rule->outer_name == outer_name@,
        rule->inner_name == inner_name@,
        first@ == left_table(rule, left@),
    ensures
        result_columns_view(final(out)@) == result_columns_view(old(out)@) + first_columns(
            rule,
            left@,
        ) + second_columns(rule, second@, right@, second@.columns.len() as int),
{
    let ghost before = result_columns_view(out@);
    let ghost firsts = first_columns(rule, left@);
    assert(first@.columns == columns_view(first.columns@));
    assert(second@.columns == columns_view(second.columns@));
    assert(before + firsts.take(0) =~= before);
    for i in 0..first.columns.len()
        invariant
            rule->columns == names_view(using_cols@),
            rule->outer_name == outer_name@,
            rule->inner_name == inner_name@,
            first@ == left_table(rule, left@),
            firsts == first_columns(rule, left@),
            first@.columns == columns_view(first.columns@),
            result_columns_view(out@) == before + firsts.take(i as int),
    {
        assert(first@.columns[i as int] == first.columns@[i as int]@);
        let name = first.columns[i].name.as_str();
        let expr = if is_using_col(using_cols, name) {
            coalesce_expr(outer_name, inner_name, name)
        } else {
            qualified_col(left, name)
        };
        let ghost ev = expr@;
        push_column(out, expr, Ghost(ev));
        assert(firsts[i as int] == ResultColumnView::Expr { expr: ev, alias: None });
        assert(before + firsts.take(i + 1) =~= (before + firsts.take(i as int)).push(
            firsts[i as int],
        ));
    }
    assert(firsts.take(first@.columns.len() as int) =~= firsts);
    assert(before + firsts + second_columns(rule, second@, right@, 0) =~= before + firsts);
    for i in 0..second.columns.len()
        invariant
            rule->columns == names_view(using_cols@),
            second@.columns == columns_view(second.columns@),
            result_columns_view(out@) == before + firsts + second_columns(
                rule,
                second@,
                right@,
                i as int,
            ),
    {
        assert(second@.columns[i as int] == second.columns@[i as int]@);
        let name = second.columns[i].name.as_str();
        if !is_using_col(using_cols, name) {
            let expr = qualified_col(right, name);
            let ghost ev = expr@;
            let ghost seconds = second_columns(rule, second@, right@, i as int);
            push_column(out, expr, Ghost(ev));
            assert(before + firsts + seconds.push(
                ResultColumnView::Expr { expr: ev, alias: None },
            ) =~= (before + firsts + seconds).push(
                ResultColumnView::Expr { expr: ev, alias: None },
            ));
        }
    }
}

/// Rewrite the result columns of a query over a join.
///
/// `*` becomes the columns of the left table of the `FROM` clause and those columns of the right
/// table that are not shared; `table.*` stays. The left table is the outer one, or where the join
/// reads the tables the other way round, the inner one.
pub fn rewrite_projection(
    select: &SelectStmt,
    using_cols: &[String],
    outer_name: &str,
    inner_name: &str,
    outer_table: &Table,
    inner_table: &Table,
    from_left_name: &str,
    from_right_name: &str,
) -> (r: Result<Vec<ResultColumn>, Error>)
    ensures
        match r {
            Ok(v) => projection(
                sharing(
                    names_view(using_cols@),
                    outer_name@,
                    inner_name@,
                    outer_table@,
                    inner_table@,
                ),
                select@.columns,
                from_left_name@,
                from_right_name@,
            ) == Ok::<Seq<ResultColumnView>, Seq<char>>(result_columns_view(v@)),
            Err(e) => projection(
                sharing(
                    names_view(using_cols@),
                    outer_name@,
                    inner_name@,
                    outer_table@,
                    inner_table@,
                ),
                select@.columns,
                from_left_name@,
                from_right_name@,
            ) == Err::<Seq<ResultColumnView>, Seq<char>>(e@),
        },
{
    let ghost rule = sharing(
        names_view(using_cols@),
        outer_name@,
        inner_name@,
        outer_table@,
        inner_table@,
    );
    let ghost cols = select@.columns;
    let ghost left = from_left_name@;
    let ghost right = from_right_name@;
    assert(cols == result_columns_view(select.columns@));
    let in_order = same_text(&owned(from_left_name), &owned(outer_name));
    let mut out: Vec<ResultColumn> = Vec::new();
    assert(result_columns_view(out@) =~= Seq::empty());
    for i in 0..select.columns.len()
        invariant
            rule == sharing(
                names_view(using_cols@),
                outer_name@,
                inner_name@,
                outer_table@,
                inner_table@,
            ),
            cols == select@.columns,
            cols == result_columns_view(select.columns@),
            in_order == (left == outer_name@),
            left == from_left_name@,
            right == from_right_name@,
            projected(rule, cols, left, right, i as int) == Ok::<
                Seq<ResultColumnView>,
                Seq<char>,
            >(result_columns_view(out@)),
    {
        assert(cols[i as int] == select.columns@[i as int]@);
        let ghost before = result_columns_view(out@);
        match &select.columns[i] {
            ResultColumn::Star => {
                let (first, second): (&Table, &Table) = if in_order {
                    (outer_table, inner_table)
                } else {
                    (inner_table, outer_table)
                };
                push_star(
                    &mut out,
                    using_cols,
                    outer_name,
                    inner_name,
                    first,
                    second,
                    from_left_name,
                    from_right_name,
                    Ghost(rule),
                );
            },
            ResultColumn::TableStar(t) => {
                out.push(select.columns[i].clone());
                assert(result_columns_view(out@) =~= before.push(cols[i as int]));
            },
            ResultColumn::Expr { expr, alias } => {
                assert(cols[i as int] == ResultColumnView::Expr {
                    expr: expr@,
                    alias: opt_name_view(*alias),
                });
                match rewrite_expr(
                    expr,
                    using_cols,
                    outer_name,
                    inner_name,
                    outer_table,
                    inner_table,
                ) {
                    Err(err) => {
                        proof {
                            lemma_refused(rule, cols, left, right, i + 1, cols.len() as int);
                        }
                        return Err(err);
                    },
                    Ok(e) => {
                        let name = match alias {
                            Some(n) => Some(n.clone()),
                            None => None,
                        };
                        assert(opt_name_view(name) == opt_name_view(*alias));
                        let ghost ev = e@;
                        let c = ResultColumn::Expr { expr: e, alias: name };
                        let ghost cv = c@;
                        assert(cv == ResultColumnView::Expr {
                            expr: ev,
                            alias: opt_name_view(*alias),
                        });
                        out.push(c);
                        assert(result_columns_view(out@) =~= before.push(cv));
                    },
                }
            },
        }
    }
    if out.len() == 0 {
        return Err(Error::lit("no result columns"));
    }
    Ok(out)
}

// ---- The other clauses ----

/// An optional condition rewritten.
pub open spec fn rewritten_condition(rule: RuleView, e: Option<ExprView>) -> Result<
    Option<ExprView>,
    Seq<char>,
> {
    match e {
        None => Ok(None),
        Some(x) => match rewritten(rule, x) {
            Ok(y) => Ok(Some(y)),
            Err(m) => Err(m),
        },
    }
}

/// The first `n` sort terms rewritten.
pub open spec fn rewritten_terms(rule: RuleView, ts: Seq<OrderingTermView>, n: int) -> Result<
    Seq<OrderingTermView>,
    Seq<char>,
>
    decreases n,
{
    if n <= 0 || n > ts.len() {
        Ok(Seq::empty())
    } else {
        match rewritten_terms(rule, ts, n - 1) {
            Err(m) => Err(m),
            Ok(before) => match rewritten(rule, ts[n - 1].expr) {
                Err(m) => Err(m),
                Ok(e) => Ok(before.push(OrderingTermView { expr: e, ..ts[n - 1] })),
            },
        }
    }
}

/// The clauses of a query rewritten one after the other: the condition, the condition on groups,
/// the group keys and the sort terms. The first refusal leaves the rest as it is.
pub open spec fn clauses_rewritten(rule: RuleView, s: SelectStmtView) -> (
    SelectStmtView,
    Option<Seq<char>>,
) {
    match rewritten_condition(rule, s.where_clause) {
        Err(m) => (s, Some(m)),
        Ok(w) => {
            let s1 = SelectStmtView { where_clause: w, ..s };
            match rewritten_condition(rule, s.having) {
                Err(m) => (s1, Some(m)),
                Ok(h) => {
                    let s2 = SelectStmtView { having: h, ..s1 };
                    match rewritten_list(rule, s.group_by, s.group_by.len() as int) {
                        Err(m) => (s2, Some(m)),
                        Ok(g) => {
                            let s3 = SelectStmtView { group_by: g, ..s2 };
                            match rewritten_terms(rule, s.order_by, s.order_by.len() as int) {
                                Err(m) => (s3, Some(m)),
                                Ok(o) => (SelectStmtView { order_by: o, ..s3 }, None),
                            }
                        },
                    }
                },
            }
        },
    }
}

proof fn lemma_term_refused(rule: RuleView, ts: Seq<OrderingTermView>, k: int, n: int)
    requires
        0 <= k <= n <= ts.len(),
        rewritten_terms(rule, ts, k) is Err,
    ensures
        rewritten_terms(rule, ts, n) == rewritten_terms(rule, ts, k),
    decreases n - k,
{
    if k < n {
        lemma_term_refused(rule, ts, k, n - 1);
    }
}

fn rewrite_condition(rule: &Rule, e: &Option<Expr>) -> (r: Result<Option<Expr>, Error>)
    ensures
        match r {
            Ok(x) => rewritten_condition(rule@, opt_expr_view(*e)) == Ok::<
                Option<ExprView>,
                Seq<char>,
            >(opt_expr_view(x)),
            Err(m) => rewritten_condition(rule@, opt_expr_view(*e)) == Err::<
                Option<ExprView>,
                Seq<char>,
            >(m@),
        },
{
    match e {
        None => Ok(None),
        Some(x) => match rewrite(rule, x) {
            Ok(y) => Ok(Some(y)),
            Err(err) => Err(err),
        },
    }
}

fn rewrite_terms(rule: &Rule, ts: &Vec<OrderingTerm>) -> (r: Result<Vec<OrderingTerm>, Error>)
    ensures
        match r {
            Ok(v) => rewritten_terms(rule@, ordering_terms_view(ts@), ts@.len() as int) == Ok::<
                Seq<OrderingTermView>,
                Seq<char>,
            >(ordering_terms_view(v@)),
            Err(m) => rewritten_terms(rule@, ordering_terms_view(ts@), ts@.len() as int) == Err::<
                Seq<OrderingTermView>,
                Seq<char>,
            >(m@),
        },
{
    let ghost tv = ordering_terms_view(ts@);
    let mut out: Vec<OrderingTerm> = Vec::new();
    assert(ordering_terms_view(out@) =~= Seq::empty());
    for i in 0..ts.len()
        invariant
            tv == ordering_terms_view(ts@),
            rewritten_terms(rule@, tv, i as int) == Ok::<Seq<OrderingTermView>, Seq<char>>(
                ordering_terms_view(out@),
            ),
    {
        assert(tv[i as int] == ts@[i as int]@);
        match rewrite(rule, &ts[i].expr) {
            Err(err) => {
                proof {
                    lemma_term_refused(rule@, tv, i + 1, tv.len() as int);
                }
                return Err(err);
            },
            Ok(e) => {
                let ghost before = ordering_terms_view(out@);
                let t = OrderingTerm { expr: e, desc: ts[i].desc, nulls: ts[i].nulls };
                let ghost now = t@;
                assert(now == OrderingTermView { expr: e@, ..tv[i as int] });
                out.push(t);
                assert(ordering_terms_view(out@) =~= before.push(now));
            },
        }
    }
    Ok(out)
}

/// Rewrite the conditions, the group keys and the sort terms of a query over a join.
pub fn rewrite_select_clauses(
    select: &mut SelectStmt,
    using_cols: &[String],
    outer_name: &str,
    inner_name: &str,
    outer_table: &Table,
    inner_table: &Table,
) -> (r: Result<(), Error>)
    ensures
        ({
            let want = clauses_rewritten(
                sharing(
                    names_view(using_cols@),
                    outer_name@,
                    inner_name@,
                    outer_table@,
                    inner_table@,
                ),
                old(select)@,
            );
            &&& final(select)@ == want.0
            &&& match r {
                Ok(_) => want.1 is None,
                Err(e) => want.1 == Some(e@),
            }
        }),
{
    let rule = Rule::SharedColumns(
        Shared {
            columns: using_cols,
            outer_name,
            inner_name,
            outer: outer_table,
            inner: inner_table,
        },
    );
    let ghost s0 = select@;
    match rewrite_condition(&rule, &select.where_clause) {
        Err(err) => {
            return Err(err);
        },
        Ok(w) => {
            select.where_clause = w;
        },
    }
    assert(select@ == SelectStmtView {
        where_clause: opt_expr_view(select.where_clause),
        ..s0
    });
    match rewrite_condition(&rule, &select.having) {
        Err(err) => {
            return Err(err);
        },
        Ok(h) => {
            select.having = h;
        },
    }
    assert(select@ == SelectStmtView {
        where_clause: opt_expr_view(select.where_clause),
        having: opt_expr_view(select.having),
        ..s0
    });
    assert(s0.group_by == exprs_view(select.group_by@));
    match rewrite_list(&rule, &select.group_by) {
        Err(err) => {
            return Err(err);
        },
        Ok(g) => {
            select.group_by = g;
        },
    }
    assert(select@ == SelectStmtView {
        where_clause: opt_expr_view(select.where_clause),
        having: opt_expr_view(select.having),
        group_by: exprs_view(select.group_by@),
        ..s0
    });
    assert(s0.order_by == ordering_terms_view(select.order_by@));
    match rewrite_terms(&rule, &select.order_by) {
        Err(err) => {
            return Err(err);
        },
        Ok(o) => {
            select.order_by = o;
        },
    }
    assert(select@ == SelectStmtView {
        where_clause: opt_expr_view(select.where_clause),
        having: opt_expr_view(select.having),
        group_by: exprs_view(select.group_by@),
        order_by: ordering_terms_view(select.order_by@),
        ..s0
    });
    Ok(())
}

} // verus!
