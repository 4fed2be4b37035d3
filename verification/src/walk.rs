//! Walking expressions: what an expression contains, and the calls that occur in it.
use vstd::prelude::*;

use crate::ast::{
    expr_pairs_view, exprs_view, function_args_view, opt_box_expr_view, opt_window_view, Expr,
    ExprView, FunctionArgs, FunctionArgsView,
};
use crate::schema::{Functions, FunctionsView};
use crate::text::{cat3, eq_ignore_case, eq_nocase, Error};

verus! {

/// The expressions of a list of pairs, each pair's first part before its second.
pub open spec fn flat_pairs(ps: Seq<(ExprView, ExprView)>) -> Seq<ExprView> {
    Seq::new(
        2 * ps.len(),
        |i: int|
            if i % 2 == 0 {
                ps[i / 2].0
            } else {
                ps[i / 2].1
            },
    )
}

/// An optional expression as a list.
pub open spec fn opt_list(o: Option<Box<ExprView>>) -> Seq<ExprView> {
    match o {
        None => Seq::empty(),
        Some(e) => seq![*e],
    }
}

/// The operands of an expression, left to right. The arguments of a call are its operands; its
/// filter and window are not, and nor is anything inside a subquery.
#[verifier::opaque]
pub open spec fn operands(e: ExprView) -> Seq<ExprView> {
    match e {
        ExprView::Unary { op, expr } => seq![*expr],
        ExprView::Binary { op, left, right } => seq![*left, *right],
        ExprView::Function { name, distinct, args, filter, over } => match args {
            FunctionArgsView::Star => Seq::empty(),
            FunctionArgsView::List(v) => v,
        },
        ExprView::Between { expr, low, high, negated } => seq![*expr, *low, *high],
        ExprView::In { expr, values, negated } => seq![*expr] + values,
        ExprView::InSubquery { expr, subquery, negated } => seq![*expr],
        ExprView::Cast { expr, ty } => seq![*expr],
        ExprView::Case { base, when_then, else_expr } => opt_list(base) + flat_pairs(when_then)
            + opt_list(else_expr),
        ExprView::Collate { expr, collation } => seq![*expr],
        ExprView::IsDistinctFrom { left, right, negated } => seq![*left, *right],
        ExprView::Row(es) => es,
        ExprView::Coalesce2 { left, right } => seq![*left, *right],
        _ => Seq::empty(),
    }
}

/// An operand is smaller than the expression it belongs to.
pub proof fn lemma_operand(e: ExprView, k: int)
    requires
        0 <= k < operands(e).len(),
    ensures
        decreases_to!(e => operands(e)[k]),
{
    reveal(operands);
    match e {
        ExprView::Function { name, distinct, args, filter, over } => {
            if let FunctionArgsView::List(v) = args {
                assert(decreases_to!(e => args));
                assert(decreases_to!(args => v));
                assert(decreases_to!(v => v[k]));
            }
        },
        ExprView::In { expr, values, negated } => {
            if k > 0 {
                assert(decreases_to!(e => values));
                assert(decreases_to!(values => values[k - 1]));
            }
        },
        ExprView::Case { base, when_then, else_expr } => {
            let nb = opt_list(base).len();
            let np = flat_pairs(when_then).len();
            if k < nb {
                assert(decreases_to!(e => base));
                assert(decreases_to!(base => base->0));
            } else if k < nb + np {
                let j = (k - nb) / 2;
                assert(decreases_to!(e => when_then));
                assert(decreases_to!(when_then => when_then[j]));
                assert(decreases_to!(when_then[j] => when_then[j].0));
                assert(decreases_to!(when_then[j] => when_then[j].1));
            } else {
                assert(decreases_to!(e => else_expr));
                assert(decreases_to!(else_expr => else_expr->0));
            }
        },
        ExprView::Row(es) => {
            assert(decreases_to!(e => es));
            assert(decreases_to!(es => es[k]));
        },
        _ => {},
    }
}

/// The operands `r` of an executable expression, in order.
pub open spec fn refs_view(r: Seq<&Expr>) -> Seq<ExprView> {
    Seq::new(r.len(), |i: int| r[i]@)
}

fn push_all<'a>(r: &mut Vec<&'a Expr>, es: &'a Vec<Expr>)
    ensures
        refs_view(final(r)@) == refs_view(old(r)@) + exprs_view(es@),
        final(r)@.len() == old(r)@.len() + es@.len(),
        forall|i: int| 0 <= i < old(r)@.len() ==> final(r)@[i] == old(r)@[i],
        forall|i: int|
            old(r)@.len() <= i < final(r)@.len() ==> *final(r)@[i] == es@[i - old(r)@.len()],
{
    for k in 0..es.len()
        invariant
            refs_view(r@) =~= refs_view(old(r)@) + exprs_view(es@).take(k as int),
            r@.len() == old(r)@.len() + k,
            forall|i: int| 0 <= i < old(r)@.len() ==> r@[i] == old(r)@[i],
            forall|i: int|
                old(r)@.len() <= i < r@.len() ==> *r@[i] == es@[i - old(r)@.len()],
    {
        assert(exprs_view(es@)[k as int] == es@[k as int]@);
        r.push(&es[k]);
    }
}

/// The operands of an expression.
pub fn operands_of(e: &Expr) -> (r: Vec<&Expr>)
    ensures
        refs_view(r@) == operands(e@),
        r@.len() == operands(e@).len(),
        forall|i: int| 0 <= i < r@.len() ==> decreases_to!(*e => *(#[trigger] r@[i])),
{
    reveal(operands);
    let mut r: Vec<&Expr> = Vec::new();
    match e {
        Expr::Unary { op, expr } => {
            r.push(expr);
        },
        Expr::Binary { op, left, right } => {
            r.push(left);
            r.push(right);
        },
        Expr::Function { name, distinct, args, filter, over } => {
            match args {
                FunctionArgs::Star => {
                    assert(function_args_view(*args) == FunctionArgsView::Star);
                },
                FunctionArgs::List(v) => {
                    assert(function_args_view(*args) == FunctionArgsView::List(exprs_view(v@)));
                    assert(decreases_to!(*e => *args));
                    assert(decreases_to!(*args => *v));
                    assert(decreases_to!(*v => v@));
                    assert(forall|i: int| 0 <= i < v@.len() ==> decreases_to!(v@ => #[trigger] v@[i]));
                    push_all(&mut r, v);
                },
            }
        },
        Expr::Between { expr, low, high, negated } => {
            r.push(expr);
            r.push(low);
            r.push(high);
        },
        Expr::In { expr, values, negated } => {
            assert(decreases_to!(*e => *values));
            assert(decreases_to!(*values => values@));
            assert(forall|i: int|
                0 <= i < values@.len() ==> decreases_to!(values@ => #[trigger] values@[i]));
            r.push(expr);
            push_all(&mut r, values);
        },
        Expr::InSubquery { expr, subquery, negated } => {
            r.push(expr);
        },
        Expr::Cast { expr, ty } => {
            r.push(expr);
        },
        Expr::Case { base, when_then, else_expr } => {
            if let Some(b) = base {
                assert(decreases_to!(*e => *base));
                assert(decreases_to!(*base => base->0));
                r.push(b);
            }
            let ghost head = refs_view(r@);
            assert(head =~= opt_list(opt_box_expr_view(*base)));
            let ghost pairs = expr_pairs_view(when_then@);
            assert(decreases_to!(*e => *when_then));
            assert(decreases_to!(*when_then => when_then@));
            for k in 0..when_then.len()
                invariant
                    pairs == expr_pairs_view(when_then@),
                    refs_view(r@) =~= head + flat_pairs(pairs).take(2 * k),
                    r@.len() == head.len() + 2 * k,
                    decreases_to!(*e => when_then@),
                    forall|i: int| 0 <= i < r@.len() ==> decreases_to!(*e => *(#[trigger] r@[i])),
            {
                assert(decreases_to!(when_then@ => when_then@[k as int]));
                assert(decreases_to!(when_then@[k as int] => when_then@[k as int].0));
                assert(decreases_to!(when_then@[k as int] => when_then@[k as int].1));
                assert(pairs[k as int] == (when_then@[k as int].0@, when_then@[k as int].1@));
                assert(flat_pairs(pairs)[2 * k as int] == pairs[k as int].0);
                assert(flat_pairs(pairs)[2 * k + 1] == pairs[k as int].1);
                let ghost before = refs_view(r@);
                r.push(&when_then[k].0);
                r.push(&when_then[k].1);
                assert(refs_view(r@) =~= before.push(pairs[k as int].0).push(pairs[k as int].1));
                assert(flat_pairs(pairs).take(2 * (k + 1)) =~= flat_pairs(pairs).take(2 * k).push(
                    pairs[k as int].0,
                ).push(pairs[k as int].1));
            }
            assert(flat_pairs(pairs).take(2 * when_then@.len() as int) =~= flat_pairs(pairs));
            if let Some(x) = else_expr {
                assert(decreases_to!(*e => *else_expr));
                assert(decreases_to!(*else_expr => else_expr->0));
                r.push(x);
            }
            assert(opt_box_expr_view(*else_expr) == (match *else_expr {
                None => None,
                Some(x) => Some(Box::new(x@)),
            }));
        },
        Expr::Collate { expr, collation } => {
            r.push(expr);
        },
        Expr::IsDistinctFrom { left, right, negated } => {
            r.push(left);
            r.push(right);
        },
        Expr::Row(es) => {
            assert(decreases_to!(*e => *es));
            assert(decreases_to!(*es => es@));
            assert(forall|i: int| 0 <= i < es@.len() ==> decreases_to!(es@ => #[trigger] es@[i]));
            push_all(&mut r, es);
        },
        Expr::Coalesce2 { left, right } => {
            r.push(left);
            r.push(right);
        },
        _ => {},
    }
    assert(refs_view(r@) =~= operands(e@));
    r
}

/// The number of arguments of a call.
pub open spec fn arg_count(args: FunctionArgsView) -> int {
    match args {
        FunctionArgsView::Star => 0,
        FunctionArgsView::List(v) => v.len() as int,
    }
}

/// The number of arguments of a call.
pub fn arg_count_of(args: &FunctionArgs) -> (r: usize)
    ensures
        r == arg_count(args@),
{
    match args {
        FunctionArgs::Star => 0,
        FunctionArgs::List(v) => v.len(),
    }
}

/// A kind of call that a walk looks for.
#[derive(Clone, Copy, PartialEq, Eq, Structural, Debug)]
pub enum Sought {
    /// An aggregate call without an `OVER` clause.
    Aggregate,
    /// A call with an `OVER` clause.
    Windowed,
    /// A call without an `OVER` clause whose name is that of an aggregate.
    AggregateName,
}

/// The names of the aggregate functions.
pub open spec fn is_aggregate_word(name: Seq<char>) -> bool {
    ||| eq_nocase(name, "count"@)
    ||| eq_nocase(name, "sum"@)
    ||| eq_nocase(name, "total"@)
    ||| eq_nocase(name, "avg"@)
    ||| eq_nocase(name, "min"@)
    ||| eq_nocase(name, "max"@)
    ||| eq_nocase(name, "group_concat"@)
    ||| eq_nocase(name, "string_agg"@)
}

/// Whether a name is that of an aggregate function.
pub fn is_aggregate_name(name: &str) -> (r: bool)
    ensures
        r == is_aggregate_word(name@),
{
    eq_ignore_case(name, "count") || eq_ignore_case(name, "sum") || eq_ignore_case(name, "total")
        || eq_ignore_case(name, "avg") || eq_ignore_case(name, "min") || eq_ignore_case(name, "max")
        || eq_ignore_case(name, "group_concat") || eq_ignore_case(name, "string_agg")
}

/// An aggregate call without an `OVER` clause.
pub open spec fn is_plain_aggregate(e: ExprView, f: FunctionsView) -> bool {
    match e {
        ExprView::Function { name, distinct, args, filter, over } => over is None
            && f.is_aggregate(name, arg_count(args)),
        _ => false,
    }
}

/// `e` itself is what is sought.
pub open spec fn is_sought(what: Sought, f: FunctionsView, e: ExprView) -> bool {
    match e {
        ExprView::Function { name, distinct, args, filter, over } => match what {
            Sought::Aggregate => over is None && f.is_aggregate(name, arg_count(args)),
            Sought::Windowed => over is Some,
            Sought::AggregateName => over is None && is_aggregate_word(name),
        },
        _ => false,
    }
}

/// What is sought occurs in `e`.
pub open spec fn occurs(what: Sought, f: FunctionsView, e: ExprView) -> bool
    decreases e, operands(e).len() + 1,
{
    is_sought(what, f, e) || occurs_from(what, f, e, 0)
}

/// What is sought occurs in one of the operands of `e` from the `k`-th on.
pub open spec fn occurs_from(what: Sought, f: FunctionsView, e: ExprView, k: int) -> bool
    decreases e, operands(e).len() - k,
{
    if 0 <= k < operands(e).len() {
        proof {
            lemma_operand(e, k);
        }
        occurs(what, f, operands(e)[k]) || occurs_from(what, f, e, k + 1)
    } else {
        false
    }
}

/// Whether what is sought occurs in `e`.
pub fn contains(e: &Expr, what: Sought, functions: &Functions) -> (r: bool)
    ensures
        r == occurs(what, functions@, e@),
    decreases e,
{
    if let Expr::Function { name, distinct, args, filter, over } = e {
        assert(opt_window_view(*over) is None == (*over is None));
        match what {
            Sought::Aggregate => {
                if over.is_none() && functions.is_aggregate_call(
                    name.as_str(),
                    arg_count_of(args),
                ) {
                    return true;
                }
            },
            Sought::Windowed => {
                if over.is_some() {
                    return true;
                }
            },
            Sought::AggregateName => {
                if over.is_none() && is_aggregate_name(name.as_str()) {
                    return true;
                }
            },
        }
    }
    let es = operands_of(e);
    for k in 0..es.len()
        invariant
            refs_view(es@) == operands(e@),
            es@.len() == operands(e@).len(),
            forall|i: int| 0 <= i < es@.len() ==> decreases_to!(*e => *(#[trigger] es@[i])),
            occurs(what, functions@, e@) == occurs_from(what, functions@, e@, k as int),
    {
        assert(refs_view(es@)[k as int] == es@[k as int]@);
        assert(decreases_to!(*e => *es@[k as int]));
        if contains(es[k], what, functions) {
            return true;
        }
    }
    false
}

/// Whether an aggregate call without an `OVER` clause occurs in `e`.
pub fn contains_aggregate(e: &Expr, functions: &Functions) -> (r: bool)
    ensures
        r == occurs(Sought::Aggregate, functions@, e@),
{
    contains(e, Sought::Aggregate, functions)
}

/// Whether a call with an `OVER` clause occurs in `e`.
pub fn contains_window_function(e: &Expr, functions: &Functions) -> (r: bool)
    ensures
        r == occurs(Sought::Windowed, functions@, e@),
{
    contains(e, Sought::Windowed, functions)
}

/// Whether a call with the name of an aggregate and without an `OVER` clause occurs in `e`.
pub fn contains_aggregate_call(e: &Expr, functions: &Functions) -> (r: bool)
    ensures
        r == occurs(Sought::AggregateName, functions@, e@),
{
    contains(e, Sought::AggregateName, functions)
}

/// What stands for calls of the kind sought depends on the registered functions only for
/// [`Sought::Aggregate`].
pub proof fn law_only_aggregates_look_functions_up(
    what: Sought,
    f: FunctionsView,
    g: FunctionsView,
    e: ExprView,
)
    requires
        what != Sought::Aggregate,
    ensures
        occurs(what, f, e) == occurs(what, g, e),
    decreases e, operands(e).len() + 1,
{
    lemma_operands_look_functions_up(what, f, g, e, 0);
}

proof fn lemma_operands_look_functions_up(
    what: Sought,
    f: FunctionsView,
    g: FunctionsView,
    e: ExprView,
    k: int,
)
    requires
        what != Sought::Aggregate,
        0 <= k,
    ensures
        occurs_from(what, f, e, k) == occurs_from(what, g, e, k),
    decreases e, operands(e).len() - k,
{
    if k < operands(e).len() {
        lemma_operand(e, k);
        law_only_aggregates_look_functions_up(what, f, g, operands(e)[k]);
        lemma_operands_look_functions_up(what, f, g, e, k + 1);
    }
}

/// The call of a window-only function in `e` that has no `OVER` clause, and so no meaning: the
/// message names the first one, outermost first and left to right.
pub open spec fn misused(f: FunctionsView, e: ExprView) -> Option<Seq<char>>
    decreases e, operands(e).len() + 1,
{
    match e {
        ExprView::Function { name, distinct, args, filter, over } => if over is None
            && f.is_window_only(name) && f.aggregate(name, arg_count(args)) is Some {
            Some("misuse of window function "@ + name + "()"@)
        } else {
            misused_from(f, e, 0)
        },
        _ => misused_from(f, e, 0),
    }
}

/// The first such call among the operands of `e` from the `k`-th on.
pub open spec fn misused_from(f: FunctionsView, e: ExprView, k: int) -> Option<Seq<char>>
    decreases e, operands(e).len() - k,
{
    if 0 <= k < operands(e).len() {
        proof {
            lemma_operand(e, k);
        }
        match misused(f, operands(e)[k]) {
            Some(m) => Some(m),
            None => misused_from(f, e, k + 1),
        }
    } else {
        None
    }
}

/// Check that no window-only function is called without an `OVER` clause.
pub fn check_no_window_only_without_over(e: &Expr, functions: &Functions) -> (r: Result<(), Error>)
    ensures
        match r {
            Ok(_) => misused(functions@, e@) is None,
            Err(m) => misused(functions@, e@) == Some(m@),
        },
    decreases e,
{
    if let Expr::Function { name, distinct, args, filter, over } = e {
        assert(opt_window_view(*over) is None == (*over is None));
        if over.is_none() && functions.is_window_only_name(name.as_str()) && functions.aggregate(
            name.as_str(),
            arg_count_of(args),
        ).is_some() {
            return Err(Error::msg(cat3("misuse of window function ", name.as_str(), "()")));
        }
    }
    let es = operands_of(e);
    for k in 0..es.len()
        invariant
            refs_view(es@) == operands(e@),
            es@.len() == operands(e@).len(),
            forall|i: int| 0 <= i < es@.len() ==> decreases_to!(*e => *(#[trigger] es@[i])),
            misused(functions@, e@) == misused_from(functions@, e@, k as int),
    {
        assert(refs_view(es@)[k as int] == es@[k as int]@);
        assert(decreases_to!(*e => *es@[k as int]));
        if let Err(err) = check_no_window_only_without_over(es[k], functions) {
            return Err(err);
        }
    }
    Ok(())
}

} // verus!
