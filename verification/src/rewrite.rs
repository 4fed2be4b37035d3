//! Rewriting expressions: one walk that replaces some nodes and rebuilds the rest.
//!
//! A [`Rule`] says which nodes are replaced and which are descended into. The aggregate code
//! generator, the `USING` / `NATURAL` rewrite and subquery flattening each have their own.
use vstd::prelude::*;

use crate::ast::{
    expr_pairs_view, expr_view, exprs_view, function_args_view, names_view, opt_box_expr_view,
    opt_window_view, Expr, ExprView, FunctionArgs, FunctionArgsView, Window, WindowView,
};
use crate::builder::{reg_at, reg_off};
use crate::schema::{Functions, FunctionsView, Table, TableView};
use crate::text::{cat2, eq_ignore_case, eq_nocase, owned, Error};
use crate::walk::{
    arg_count_of, is_plain_aggregate, lemma_operand, operands, operands_of, refs_view,
};

verus! {

// ---- Calls ----

/// An aggregate call: the function name and its arguments.
#[derive(Debug)]
pub struct AggCall {
    pub name: String,
    pub args: FunctionArgs,
}

/// The mathematical value of an [`AggCall`].
pub ghost struct AggCallView {
    pub name: Seq<char>,
    pub args: FunctionArgsView,
}

impl View for AggCall {
    type V = AggCallView;

    open spec fn view(&self) -> AggCallView {
        AggCallView { name: self.name@, args: self.args@ }
    }
}

impl Clone for AggCall {
    fn clone(&self) -> (r: AggCall)
        ensures
            r@ == self@,
    {
        AggCall { name: self.name.clone(), args: self.args.clone() }
    }
}

/// The mathematical values of some calls.
pub open spec fn calls_view(s: Seq<AggCall>) -> Seq<AggCallView> {
    Seq::new(s.len(), |i: int| s[i]@)
}

/// Two calls share an accumulator: the same function of the same arguments.
pub open spec fn same_call(a: AggCallView, b: AggCallView) -> bool {
    eq_nocase(a.name, b.name) && a.args == b.args
}

/// Whether two calls share an accumulator.
pub fn agg_call_eq(a: &AggCall, b: &AggCall) -> (r: bool)
    ensures
        r == same_call(a@, b@),
{
    eq_ignore_case(a.name.as_str(), b.name.as_str()) && a.args.same(&b.args)
}

/// The first call from `i` on that shares its accumulator with `c`.
pub open spec fn call_from(calls: Seq<AggCallView>, c: AggCallView, i: int) -> Option<int>
    decreases calls.len() - i,
{
    if i < 0 || i >= calls.len() {
        None
    } else if same_call(calls[i], c) {
        Some(i)
    } else {
        call_from(calls, c, i + 1)
    }
}

/// A call that shares its accumulator with one of the calls is found among them, at the first such
/// place.
pub proof fn law_shared_call_found(calls: Seq<AggCallView>, c: AggCallView, k: int)
    requires
        0 <= k < calls.len(),
        same_call(calls[k], c),
    ensures
        call_from(calls, c, 0) matches Some(i) && 0 <= i <= k && same_call(calls[i], c),
{
    lemma_call_from(calls, c, 0, k);
}

proof fn lemma_call_from(calls: Seq<AggCallView>, c: AggCallView, i: int, k: int)
    requires
        0 <= i <= k < calls.len(),
        same_call(calls[k], c),
    ensures
        call_from(calls, c, i) matches Some(x) && i <= x <= k && same_call(calls[x], c),
    decreases k - i,
{
    if !same_call(calls[i], c) {
        lemma_call_from(calls, c, i + 1, k);
    }
}

/// The first call that shares its accumulator with `c`.
pub fn find_call(calls: &Vec<AggCall>, c: &AggCall) -> (r: Option<usize>)
    ensures
        match r {
            Some(i) => call_from(calls_view(calls@), c@, 0) == Some(i as int),
            None => call_from(calls_view(calls@), c@, 0) is None,
        },
{
    for i in 0..calls.len()
        invariant
            call_from(calls_view(calls@), c@, 0) == call_from(calls_view(calls@), c@, i as int),
    {
        assert(calls_view(calls@)[i as int] == calls@[i as int]@);
        if agg_call_eq(&calls[i], c) {
            return Some(i);
        }
    }
    None
}

/// The aggregate calls that occur in `e`, left to right. Nothing inside an aggregate call
/// counts.
pub open spec fn aggregates_in(f: FunctionsView, e: ExprView) -> Seq<AggCallView>
    decreases e, operands(e).len() + 1,
{
    if is_plain_aggregate(e, f) {
        seq![AggCallView { name: e->Function_name, args: e->Function_args }]
    } else {
        aggregates_from(f, e, 0)
    }
}

/// Those of the operands of `e` from the `k`-th on.
pub open spec fn aggregates_from(f: FunctionsView, e: ExprView, k: int) -> Seq<AggCallView>
    decreases e, operands(e).len() - k,
{
    if 0 <= k < operands(e).len() {
        proof {
            lemma_operand(e, k);
        }
        aggregates_in(f, operands(e)[k]) + aggregates_from(f, e, k + 1)
    } else {
        Seq::empty()
    }
}

/// Append the aggregate calls of `e` to `out`.
pub fn collect_aggregates(e: &Expr, functions: &Functions, out: &mut Vec<AggCall>)
    ensures
        calls_view(final(out)@) == calls_view(old(out)@) + aggregates_in(functions@, e@),
    decreases e,
{
    if let Expr::Function { name, distinct, args, filter, over } = e {
        assert(opt_window_view(*over) is None == (*over is None));
        if over.is_none() && functions.is_aggregate_call(name.as_str(), arg_count_of(args)) {
            let call = AggCall { name: name.clone(), args: args.clone() };
            out.push(call);
            assert(calls_view(out@) =~= calls_view(old(out)@) + aggregates_in(functions@, e@));
            return ;
        }
    }
    let es = operands_of(e);
    let ghost want = calls_view(out@) + aggregates_in(functions@, e@);
    for k in 0..es.len()
        invariant
            refs_view(es@) == operands(e@),
            es@.len() == operands(e@).len(),
            forall|i: int| 0 <= i < es@.len() ==> decreases_to!(*e => *(#[trigger] es@[i])),
            calls_view(out@) + aggregates_from(functions@, e@, k as int) == want,
    {
        assert(refs_view(es@)[k as int] == es@[k as int]@);
        assert(decreases_to!(*e => *es@[k as int]));
        let ghost before = calls_view(out@);
        collect_aggregates(es[k], functions, out);
        assert(before + aggregates_from(functions@, e@, k as int) =~= calls_view(out@)
            + aggregates_from(functions@, e@, k + 1));
    }
    assert(want =~= calls_view(out@));
}

/// A window-function call: the function, its arguments, its filter and its window.
#[derive(Debug)]
pub struct WindowCall {
    pub name: String,
    pub args: FunctionArgs,
    pub filter: Option<Box<Expr>>,
    pub window: Window,
}

/// The mathematical value of a [`WindowCall`].
pub ghost struct WindowCallView {
    pub name: Seq<char>,
    pub args: FunctionArgsView,
    pub filter: Option<Box<ExprView>>,
    pub window: WindowView,
}

impl View for WindowCall {
    type V = WindowCallView;

    open spec fn view(&self) -> WindowCallView {
        WindowCallView {
            name: self.name@,
            args: self.args@,
            filter: opt_box_expr_view(self.filter),
            window: self.window@,
        }
    }
}

/// The mathematical values of some window-function calls.
pub open spec fn window_calls_view(s: Seq<WindowCall>) -> Seq<WindowCallView> {
    Seq::new(s.len(), |i: int| s[i]@)
}

/// The window-function calls that occur in `e`, left to right. Nothing inside one counts.
pub open spec fn window_calls_in(e: ExprView) -> Seq<WindowCallView>
    decreases e, operands(e).len() + 1,
{
    match e {
        ExprView::Function { name, distinct, args, filter, over } => match over {
            Some(window) => seq![WindowCallView { name, args, filter, window }],
            None => window_calls_from(e, 0),
        },
        _ => window_calls_from(e, 0),
    }
}

/// Those of the operands of `e` from the `k`-th on.
pub open spec fn window_calls_from(e: ExprView, k: int) -> Seq<WindowCallView>
    decreases e, operands(e).len() - k,
{
    if 0 <= k < operands(e).len() {
        proof {
            lemma_operand(e, k);
        }
        window_calls_in(operands(e)[k]) + window_calls_from(e, k + 1)
    } else {
        Seq::empty()
    }
}

/// A copy of an optional boxed expression.
pub fn clone_opt_box(o: &Option<Box<Expr>>) -> (r: Option<Box<Expr>>)
    ensures
        opt_box_expr_view(r) == opt_box_expr_view(*o),
{
    match o {
        None => None,
        Some(e) => Some(Box::new((**e).clone())),
    }
}

/// Append the window-function calls of `e` to `out`.
pub fn collect_window_functions(e: &Expr, out: &mut Vec<WindowCall>)
    ensures
        window_calls_view(final(out)@) == window_calls_view(old(out)@) + window_calls_in(e@),
    decreases e,
{
    if let Expr::Function { name, distinct, args, filter, over } = e {
        if let Some(window) = over {
            assert(opt_window_view(*over) == Some(window@));
            let call = WindowCall {
                name: name.clone(),
                args: args.clone(),
                filter: clone_opt_box(filter),
                window: window.clone(),
            };
            out.push(call);
            assert(window_calls_view(out@) =~= window_calls_view(old(out)@) + window_calls_in(e@));
            return ;
        }
        assert(opt_window_view(*over) is None);
    }
    let es = operands_of(e);
    let ghost want = window_calls_view(out@) + window_calls_in(e@);
    for k in 0..es.len()
        invariant
            refs_view(es@) == operands(e@),
            es@.len() == operands(e@).len(),
            forall|i: int| 0 <= i < es@.len() ==> decreases_to!(*e => *(#[trigger] es@[i])),
            window_calls_view(out@) + window_calls_from(e@, k as int) == want,
    {
        assert(refs_view(es@)[k as int] == es@[k as int]@);
        assert(decreases_to!(*e => *es@[k as int]));
        let ghost before = window_calls_view(out@);
        collect_window_functions(es[k], out);
        assert(before + window_calls_from(e@, k as int) =~= window_calls_view(out@)
            + window_calls_from(e@, k + 1));
    }
    assert(want =~= window_calls_view(out@));
}

// ---- Rules ----

/// The accumulators of an aggregate query: the register of call `i` is `base + i`.
pub struct Accumulators<'a> {
    pub calls: &'a Vec<AggCall>,
    pub base: i32,
    pub functions: &'a Functions,
}

/// The columns that a join shares, and the two sides of the join, outer loop first.
pub struct Shared<'a> {
    pub columns: &'a [String],
    pub outer_name: &'a str,
    pub inner_name: &'a str,
    pub outer: &'a Table,
    pub inner: &'a Table,
}

/// One output column of a subquery: its name, and the expression behind it.
pub struct Subst {
    pub name: String,
    pub expr: Expr,
}

/// Which nodes a rewrite replaces.
pub enum Rule<'a> {
    /// Each aggregate call becomes a reference to its accumulator.
    Aggregates(Accumulators<'a>),
    /// In addition, each group key becomes a reference to the register that holds it.
    GroupOutput(Accumulators<'a>, &'a Vec<Expr>, i32),
    /// Each bare reference to a shared column becomes the first value that is not NULL.
    SharedColumns(Shared<'a>),
    /// Each reference to an output column of the subquery of that name becomes the expression
    /// behind it.
    Outputs(&'a str, &'a Vec<Subst>),
}

/// The mathematical value of a [`Rule`].
pub ghost enum RuleView {
    Aggregates { calls: Seq<AggCallView>, base: i32, functions: FunctionsView },
    GroupOutput {
        calls: Seq<AggCallView>,
        base: i32,
        functions: FunctionsView,
        keys: Seq<ExprView>,
        key_base: i32,
    },
    SharedColumns {
        columns: Seq<Seq<char>>,
        outer_name: Seq<char>,
        inner_name: Seq<char>,
        outer: TableView,
        inner: TableView,
    },
    Outputs { alias: Seq<char>, outputs: Seq<(Seq<char>, ExprView)> },
}

/// The mathematical values of some substitutions.
pub open spec fn substs_view(s: Seq<Subst>) -> Seq<(Seq<char>, ExprView)> {
    Seq::new(s.len(), |i: int| (s[i].name@, s[i].expr@))
}

impl<'a> View for Rule<'a> {
    type V = RuleView;

    open spec fn view(&self) -> RuleView {
        match *self {
            Rule::Aggregates(a) => RuleView::Aggregates {
                calls: calls_view(a.calls@),
                base: a.base,
                functions: a.functions@,
            },
            Rule::GroupOutput(a, keys, key_base) => RuleView::GroupOutput {
                calls: calls_view(a.calls@),
                base: a.base,
                functions: a.functions@,
                keys: exprs_view(keys@),
                key_base,
            },
            Rule::SharedColumns(s) => RuleView::SharedColumns {
                columns: names_view(s.columns@),
                outer_name: s.outer_name@,
                inner_name: s.inner_name@,
                outer: s.outer@,
                inner: s.inner@,
            },
            Rule::Outputs(alias, outputs) => RuleView::Outputs {
                alias: alias@,
                outputs: substs_view(outputs@),
            },
        }
    }
}

/// What an aggregate call becomes.
pub open spec fn accumulator_ref(calls: Seq<AggCallView>, base: i32, e: ExprView) -> ExprView {
    match call_from(calls, AggCallView { name: e->Function_name, args: e->Function_args }, 0) {
        Some(i) => ExprView::AggRef(reg_at(base, i)),
        None => e,
    }
}

/// The first of `keys` from `i` on that is `e`.
pub open spec fn key_from(keys: Seq<ExprView>, e: ExprView, i: int) -> Option<int>
    decreases keys.len() - i,
{
    if i < 0 || i >= keys.len() {
        None
    } else if keys[i] == e {
        Some(i)
    } else {
        key_from(keys, e, i + 1)
    }
}

/// One of the names from `i` on is `name`.
pub open spec fn name_among(names: Seq<Seq<char>>, name: Seq<char>, i: int) -> bool
    decreases names.len() - i,
{
    0 <= i < names.len() && (eq_nocase(names[i], name) || name_among(names, name, i + 1))
}

/// The expression behind the first output from `i` on that is called `name`.
pub open spec fn output_from(outputs: Seq<(Seq<char>, ExprView)>, name: Seq<char>, i: int) -> Option<
    ExprView,
>
    decreases outputs.len() - i,
{
    if i < 0 || i >= outputs.len() {
        None
    } else if eq_nocase(outputs[i].0, name) {
        Some(outputs[i].1)
    } else {
        output_from(outputs, name, i + 1)
    }
}

/// A column of a named table.
pub open spec fn qualified(table: Seq<char>, name: Seq<char>) -> ExprView {
    ExprView::Column { schema: None, table: Some(table), name }
}

/// The value of a shared column: that of the outer side unless it is NULL, else that of the
/// inner side.
pub open spec fn first_of(outer: Seq<char>, inner: Seq<char>, name: Seq<char>) -> ExprView {
    ExprView::Coalesce2 {
        left: Box::new(qualified(outer, name)),
        right: Box::new(qualified(inner, name)),
    }
}

/// What a rule puts in the place of `e`, if anything, or why it refuses `e`.
#[verifier::opaque]
pub open spec fn replacement(rule: RuleView, e: ExprView) -> Option<Result<ExprView, Seq<char>>> {
    match rule {
        RuleView::Aggregates { calls, base, functions } => if is_plain_aggregate(e, functions) {
            Some(Ok(accumulator_ref(calls, base, e)))
        } else {
            None
        },
        RuleView::GroupOutput { calls, base, functions, keys, key_base } => match key_from(
            keys,
            e,
            0,
        ) {
            Some(i) => Some(Ok(ExprView::AggRef(reg_at(key_base, i)))),
            None => if is_plain_aggregate(e, functions) {
                Some(Ok(accumulator_ref(calls, base, e)))
            } else {
                None
            },
        },
        RuleView::SharedColumns { columns, outer_name, inner_name, outer, inner } => match e {
            ExprView::Column { schema, table: None, name } => Some(
                if name_among(columns, name, 0) {
                    Ok(first_of(outer_name, inner_name, name))
                } else if outer.column_index(name) is Some && inner.column_index(name) is Some {
                    Err("ambiguous column name: "@ + name)
                } else {
                    Ok(e)
                },
            ),
            _ => None,
        },
        RuleView::Outputs { alias, outputs } => match e {
            ExprView::Column { schema, table, name } => if (match table {
                None => true,
                Some(t) => eq_nocase(t, alias),
            }) && output_from(outputs, name, 0) is Some {
                Some(Ok(output_from(outputs, name, 0)->0))
            } else {
                Some(Ok(e))
            },
            _ => None,
        },
    }
}

/// Whether the operands of `e` are rewritten in their turn.
#[verifier::opaque]
pub open spec fn descends(rule: RuleView, e: ExprView) -> bool {
    match rule {
        RuleView::Aggregates { calls, base, functions } => !(e is Function),
        RuleView::GroupOutput { calls, base, functions, keys, key_base } => !(e is Function),
        _ => true,
    }
}

/// `e` rewritten by a rule.
#[verifier::opaque]
pub open spec fn rewritten(rule: RuleView, e: ExprView) -> Result<ExprView, Seq<char>>
    decreases e, 1int,
{
    match replacement(rule, e) {
        Some(r) => r,
        None => if descends(rule, e) {
            rebuilt(rule, e)
        } else {
            Ok(e)
        },
    }
}

/// The first `n` of `es` rewritten; the first refusal is the outcome.
#[verifier::opaque]
pub open spec fn rewritten_list(rule: RuleView, es: Seq<ExprView>, n: int) -> Result<
    Seq<ExprView>,
    Seq<char>,
>
    decreases es, n,
{
    if n <= 0 || n > es.len() {
        Ok(Seq::empty())
    } else {
        match rewritten_list(rule, es, n - 1) {
            Err(m) => Err(m),
            Ok(v) => match rewritten(rule, es[n - 1]) {
                Err(m) => Err(m),
                Ok(x) => Ok(v.push(x)),
            },
        }
    }
}

/// The first `n` of `ps` rewritten; the first refusal is the outcome.
#[verifier::opaque]
pub open spec fn rewritten_pairs(rule: RuleView, ps: Seq<(ExprView, ExprView)>, n: int) -> Result<
    Seq<(ExprView, ExprView)>,
    Seq<char>,
>
    decreases ps, n,
{
    if n <= 0 || n > ps.len() {
        Ok(Seq::empty())
    } else {
        match rewritten_pairs(rule, ps, n - 1) {
            Err(m) => Err(m),
            Ok(v) => {
                proof {
                    assert(decreases_to!(ps => ps[n - 1]));
                }
                match rewritten(rule, ps[n - 1].0) {
                    Err(m) => Err(m),
                    Ok(a) => match rewritten(rule, ps[n - 1].1) {
                        Err(m) => Err(m),
                        Ok(b) => Ok(v.push((a, b))),
                    },
                }
            },
        }
    }
}

/// An optional part rewritten.
#[verifier::opaque]
pub open spec fn rewritten_opt(rule: RuleView, o: Option<Box<ExprView>>) -> Result<
    Option<Box<ExprView>>,
    Seq<char>,
>
    decreases o, 0int,
{
    match o {
        None => Ok(None),
        Some(e) => match rewritten(rule, *e) {
            Ok(x) => Ok(Some(Box::new(x))),
            Err(m) => Err(m),
        },
    }
}

/// `e` with its operands rewritten. The filter of a call counts as one; its window does not, and
/// nor does anything inside a subquery.
#[verifier::opaque]
pub open spec fn rebuilt(rule: RuleView, e: ExprView) -> Result<ExprView, Seq<char>>
    decreases e, 0int,
{
    match e {
        ExprView::Unary { op, expr } => match rewritten(rule, *expr) {
            Ok(x) => Ok(ExprView::Unary { op, expr: Box::new(x) }),
            Err(m) => Err(m),
        },
        ExprView::Binary { op, left, right } => match rewritten(rule, *left) {
            Ok(l) => match rewritten(rule, *right) {
                Ok(r) => Ok(ExprView::Binary { op, left: Box::new(l), right: Box::new(r) }),
                Err(m) => Err(m),
            },
            Err(m) => Err(m),
        },
        ExprView::Function { name, distinct, args, filter, over } => match args {
            FunctionArgsView::Star => match rewritten_opt(rule, filter) {
                Ok(f) => Ok(ExprView::Function { name, distinct, args, filter: f, over }),
                Err(m) => Err(m),
            },
            FunctionArgsView::List(v) => match rewritten_list(rule, v, v.len() as int) {
                Ok(v2) => match rewritten_opt(rule, filter) {
                    Ok(f) => Ok(
                        ExprView::Function {
                            name,
                            distinct,
                            args: FunctionArgsView::List(v2),
                            filter: f,
                            over,
                        },
                    ),
                    Err(m) => Err(m),
                },
                Err(m) => Err(m),
            },
        },
        ExprView::Between { expr, low, high, negated } => match rewritten(rule, *expr) {
            Ok(x) => match rewritten(rule, *low) {
                Ok(l) => match rewritten(rule, *high) {
                    Ok(h) => Ok(
                        ExprView::Between {
                            expr: Box::new(x),
                            low: Box::new(l),
                            high: Box::new(h),
                            negated,
                        },
                    ),
                    Err(m) => Err(m),
                },
                Err(m) => Err(m),
            },
            Err(m) => Err(m),
        },
        ExprView::In { expr, values, negated } => match rewritten(rule, *expr) {
            Ok(x) => match rewritten_list(rule, values, values.len() as int) {
                Ok(v) => Ok(ExprView::In { expr: Box::new(x), values: v, negated }),
                Err(m) => Err(m),
            },
            Err(m) => Err(m),
        },
        ExprView::InSubquery { expr, subquery, negated } => match rewritten(rule, *expr) {
            Ok(x) => Ok(ExprView::InSubquery { expr: Box::new(x), subquery, negated }),
            Err(m) => Err(m),
        },
        ExprView::Row(es) => match rewritten_list(rule, es, es.len() as int) {
            Ok(v) => Ok(ExprView::Row(v)),
            Err(m) => Err(m),
        },
        ExprView::Cast { expr, ty } => match rewritten(rule, *expr) {
            Ok(x) => Ok(ExprView::Cast { expr: Box::new(x), ty }),
            Err(m) => Err(m),
        },
        ExprView::Case { base, when_then, else_expr } => match rewritten_opt(rule, base) {
            Ok(b) => match rewritten_pairs(rule, when_then, when_then.len() as int) {
                Ok(v) => match rewritten_opt(rule, else_expr) {
                    Ok(x) => Ok(ExprView::Case { base: b, when_then: v, else_expr: x }),
                    Err(m) => Err(m),
                },
                Err(m) => Err(m),
            },
            Err(m) => Err(m),
        },
        ExprView::Collate { expr, collation } => match rewritten(rule, *expr) {
            Ok(x) => Ok(ExprView::Collate { expr: Box::new(x), collation }),
            Err(m) => Err(m),
        },
        ExprView::IsDistinctFrom { left, right, negated } => match rewritten(rule, *left) {
            Ok(l) => match rewritten(rule, *right) {
                Ok(r) => Ok(
                    ExprView::IsDistinctFrom { left: Box::new(l), right: Box::new(r), negated },
                ),
                Err(m) => Err(m),
            },
            Err(m) => Err(m),
        },
        ExprView::Coalesce2 { left, right } => match rewritten(rule, *left) {
            Ok(l) => match rewritten(rule, *right) {
                Ok(r) => Ok(ExprView::Coalesce2 { left: Box::new(l), right: Box::new(r) }),
                Err(m) => Err(m),
            },
            Err(m) => Err(m),
        },
        _ => Ok(e),
    }
}

// ---- The rewriter ----

/// The outcome of a rewrite.
pub open spec fn outcome(r: Result<Expr, Error>, want: Result<ExprView, Seq<char>>) -> bool {
    match r {
        Ok(x) => want == Ok::<ExprView, Seq<char>>(x@),
        Err(e) => want == Err::<ExprView, Seq<char>>(e@),
    }
}

/// A reference to a column of a table.
pub fn qualified_col(table: &str, name: &str) -> (r: Expr)
    ensures
        r@ == qualified(table@, name@),
{
    let r = Expr::Column { schema: None, table: Some(owned(table)), name: owned(name) };
    r
}

/// The value of a shared column: that of the outer side unless it is NULL, else that of the
/// inner side.
pub fn coalesce_expr(outer_name: &str, inner_name: &str, col: &str) -> (r: Expr)
    ensures
        r@ == first_of(outer_name@, inner_name@, col@),
{
    reveal_with_fuel(expr_view, 2);
    Expr::Coalesce2 {
        left: Box::new(qualified_col(outer_name, col)),
        right: Box::new(qualified_col(inner_name, col)),
    }
}

/// Whether `name` is one of the shared columns.
pub fn is_using_col(columns: &[String], name: &str) -> (r: bool)
    ensures
        r == name_among(names_view(columns@), name@, 0),
{
    for i in 0..columns.len()
        invariant
            name_among(names_view(columns@), name@, 0) == name_among(
                names_view(columns@),
                name@,
                i as int,
            ),
    {
        assert(names_view(columns@)[i as int] == columns@[i as int]@);
        if eq_ignore_case(columns[i].as_str(), name) {
            return true;
        }
    }
    false
}

fn find_key(keys: &Vec<Expr>, e: &Expr) -> (r: Option<usize>)
    ensures
        match r {
            Some(i) => key_from(exprs_view(keys@), e@, 0) == Some(i as int),
            None => key_from(exprs_view(keys@), e@, 0) is None,
        },
{
    for i in 0..keys.len()
        invariant
            key_from(exprs_view(keys@), e@, 0) == key_from(exprs_view(keys@), e@, i as int),
    {
        assert(exprs_view(keys@)[i as int] == keys@[i as int]@);
        if keys[i].same(e) {
            return Some(i);
        }
    }
    None
}

fn find_output(outputs: &Vec<Subst>, name: &str) -> (r: Option<Expr>)
    ensures
        match r {
            Some(x) => output_from(substs_view(outputs@), name@, 0) == Some(x@),
            None => output_from(substs_view(outputs@), name@, 0) is None,
        },
{
    for i in 0..outputs.len()
        invariant
            output_from(substs_view(outputs@), name@, 0) == output_from(
                substs_view(outputs@),
                name@,
                i as int,
            ),
    {
        assert(substs_view(outputs@)[i as int] == (outputs@[i as int].name@, outputs@[i as int].expr@));
        if eq_ignore_case(outputs[i].name.as_str(), name) {
            return Some(outputs[i].expr.clone());
        }
    }
    None
}

fn replace_aggregate(a: &Accumulators, e: &Expr) -> (r: Option<Expr>)
    ensures
        match r {
            Some(x) => is_plain_aggregate(e@, a.functions@) && x@ == accumulator_ref(
                calls_view(a.calls@),
                a.base,
                e@,
            ),
            None => !is_plain_aggregate(e@, a.functions@),
        },
{
    if let Expr::Function { name, distinct, args, filter, over } = e {
        assert(opt_window_view(*over) is None == (*over is None));
        if over.is_none() && a.functions.is_aggregate_call(name.as_str(), arg_count_of(args)) {
            let call = AggCall { name: name.clone(), args: args.clone() };
            return match find_call(a.calls, &call) {
                Some(i) => Some(Expr::AggRef(reg_off(a.base, i))),
                None => Some(e.clone()),
            };
        }
    }
    None
}

fn replace(rule: &Rule, e: &Expr) -> (r: Option<Result<Expr, Error>>)
    ensures
        match r {
            Some(x) => replacement(rule@, e@) is Some && outcome(x, replacement(rule@, e@)->0),
            None => replacement(rule@, e@) is None,
        },
{
    reveal(replacement);
    match rule {
        Rule::Aggregates(a) => match replace_aggregate(a, e) {
            Some(x) => Some(Ok(x)),
            None => None,
        },
        Rule::GroupOutput(a, keys, key_base) => match find_key(keys, e) {
            Some(i) => Some(Ok(Expr::AggRef(reg_off(*key_base, i)))),
            None => match replace_aggregate(a, e) {
                Some(x) => Some(Ok(x)),
                None => None,
            },
        },
        Rule::SharedColumns(s) => match e {
            Expr::Column { schema, table: None, name } => {
                if is_using_col(s.columns, name.as_str()) {
                    Some(Ok(coalesce_expr(s.outer_name, s.inner_name, name.as_str())))
                } else if s.outer.column_index(name.as_str()).is_some() && s.inner.column_index(
                    name.as_str(),
                ).is_some() {
                    Some(Err(Error::msg(cat2("ambiguous column name: ", name.as_str()))))
                } else {
                    Some(Ok(e.clone()))
                }
            },
            _ => None,
        },
        Rule::Outputs(alias, outputs) => match e {
            Expr::Column { schema, table, name } => {
                let mine = match table {
                    None => true,
                    Some(t) => eq_ignore_case(t.as_str(), alias),
                };
                if mine {
                    match find_output(outputs, name.as_str()) {
                        Some(x) => Some(Ok(x)),
                        None => Some(Ok(e.clone())),
                    }
                } else {
                    Some(Ok(e.clone()))
                }
            },
            _ => None,
        },
    }
}

fn goes_into(rule: &Rule, e: &Expr) -> (r: bool)
    ensures
        r == descends(rule@, e@),
{
    reveal(descends);
    match rule {
        Rule::Aggregates(a) => match e {
            Expr::Function { name, distinct, args, filter, over } => false,
            _ => true,
        },
        Rule::GroupOutput(a, keys, key_base) => match e {
            Expr::Function { name, distinct, args, filter, over } => false,
            _ => true,
        },
        _ => true,
    }
}

/// Rewrite `e` by `rule`.
pub fn rewrite(rule: &Rule, e: &Expr) -> (r: Result<Expr, Error>)
    ensures
        outcome(r, rewritten(rule@, e@)),
    decreases e, 1int,
{
    reveal(rewritten);
    reveal(rebuilt);
    if let Some(x) = replace(rule, e) {
        return x;
    }
    if !goes_into(rule, e) {
        return Ok(e.clone());
    }
    rebuild(rule, e)
}

proof fn lemma_list_refused(rule: RuleView, es: Seq<ExprView>, k: int, n: int)
    requires
        0 <= k <= n <= es.len(),
        rewritten_list(rule, es, k) is Err,
    ensures
        rewritten_list(rule, es, n) == rewritten_list(rule, es, k),
    decreases n - k,
{
    reveal(rewritten_list);
    if k < n {
        lemma_list_refused(rule, es, k, n - 1);
    }
}

proof fn lemma_pairs_refused(rule: RuleView, ps: Seq<(ExprView, ExprView)>, k: int, n: int)
    requires
        0 <= k <= n <= ps.len(),
        rewritten_pairs(rule, ps, k) is Err,
    ensures
        rewritten_pairs(rule, ps, n) == rewritten_pairs(rule, ps, k),
    decreases n - k,
{
    reveal(rewritten_pairs);
    if k < n {
        lemma_pairs_refused(rule, ps, k, n - 1);
    }
}

/// Rewrite each of `es` by `rule`.
pub fn rewrite_list(rule: &Rule, es: &Vec<Expr>) -> (r: Result<Vec<Expr>, Error>)
    ensures
        match r {
            Ok(v) => rewritten_list(rule@, exprs_view(es@), es@.len() as int) == Ok::<
                Seq<ExprView>,
                Seq<char>,
            >(exprs_view(v@)),
            Err(m) => rewritten_list(rule@, exprs_view(es@), es@.len() as int) == Err::<
                Seq<ExprView>,
                Seq<char>,
            >(m@),
        },
    decreases es, 0int,
{
    let mut out: Vec<Expr> = Vec::new();
    proof {
        reveal(rewritten_list);
        assert(exprs_view(out@) =~= Seq::empty());
    }
    for k in 0..es.len()
        invariant
            rewritten_list(rule@, exprs_view(es@), k as int) == Ok::<Seq<ExprView>, Seq<char>>(
                exprs_view(out@),
            ),
    {
        let ghost views = exprs_view(es@);
        proof {
            reveal(rewritten_list);
            reveal(rewritten);
            assert(views[k as int] == es@[k as int]@);
            assert(decreases_to!(*es => es@[k as int]));
        }
        match rewrite(rule, &es[k]) {
            Ok(x) => {
                let ghost before = exprs_view(out@);
                out.push(x);
                assert(exprs_view(out@) =~= before.push(x@));
            },
            Err(m) => {
                proof {
                    lemma_list_refused(rule@, views, k + 1, es@.len() as int);
                }
                return Err(m);
            },
        }
    }
    Ok(out)
}

fn rewrite_pairs(rule: &Rule, ps: &Vec<(Expr, Expr)>) -> (r: Result<Vec<(Expr, Expr)>, Error>)
    ensures
        match r {
            Ok(v) => rewritten_pairs(rule@, expr_pairs_view(ps@), ps@.len() as int) == Ok::<
                Seq<(ExprView, ExprView)>,
                Seq<char>,
            >(expr_pairs_view(v@)),
            Err(m) => rewritten_pairs(rule@, expr_pairs_view(ps@), ps@.len() as int) == Err::<
                Seq<(ExprView, ExprView)>,
                Seq<char>,
            >(m@),
        },
    decreases ps, 0int,
{
    let mut out: Vec<(Expr, Expr)> = Vec::new();
    proof {
        reveal(rewritten_pairs);
        assert(expr_pairs_view(out@) =~= Seq::empty());
    }
    for k in 0..ps.len()
        invariant
            rewritten_pairs(rule@, expr_pairs_view(ps@), k as int) == Ok::<
                Seq<(ExprView, ExprView)>,
                Seq<char>,
            >(expr_pairs_view(out@)),
    {
        let ghost views = expr_pairs_view(ps@);
        proof {
            reveal(rewritten_pairs);
            reveal(rewritten);
            assert(views[k as int] == (ps@[k as int].0@, ps@[k as int].1@));
            assert(decreases_to!(*ps => ps@[k as int]));
        }
        let a = match rewrite(rule, &ps[k].0) {
            Ok(x) => x,
            Err(m) => {
                proof {
                    lemma_pairs_refused(rule@, views, k + 1, ps@.len() as int);
                }
                return Err(m);
            },
        };
        let b = match rewrite(rule, &ps[k].1) {
            Ok(x) => x,
            Err(m) => {
                proof {
                    lemma_pairs_refused(rule@, views, k + 1, ps@.len() as int);
                }
                return Err(m);
            },
        };
        let ghost before = expr_pairs_view(out@);
        out.push((a, b));
        assert(expr_pairs_view(out@) =~= before.push((a@, b@)));
    }
    Ok(out)
}

fn rewrite_opt(rule: &Rule, o: &Option<Box<Expr>>) -> (r: Result<Option<Box<Expr>>, Error>)
    ensures
        match r {
            Ok(x) => rewritten_opt(rule@, opt_box_expr_view(*o)) == Ok::<
                Option<Box<ExprView>>,
                Seq<char>,
            >(opt_box_expr_view(x)),
            Err(m) => rewritten_opt(rule@, opt_box_expr_view(*o)) == Err::<
                Option<Box<ExprView>>,
                Seq<char>,
            >(m@),
        },
    decreases o, 0int,
{
    reveal(rewritten_opt);
    reveal(rewritten);
    match o {
        None => Ok(None),
        Some(e) => match rewrite(rule, e) {
            Ok(x) => Ok(Some(Box::new(x))),
            Err(m) => Err(m),
        },
    }
}

fn rebuild(rule: &Rule, e: &Expr) -> (r: Result<Expr, Error>)
    ensures
        outcome(r, rebuilt(rule@, e@)),
    decreases e, 0int,
{
    reveal(rebuilt);
    reveal(rewritten);
    reveal(rewritten_list);
    reveal(rewritten_pairs);
    reveal(rewritten_opt);
    match e {
        Expr::Unary { op, expr } => match rewrite(rule, expr) {
            Ok(x) => Ok(Expr::Unary { op: *op, expr: Box::new(x) }),
            Err(m) => Err(m),
        },
        Expr::Binary { op, left, right } => match rewrite(rule, left) {
            Ok(l) => match rewrite(rule, right) {
                Ok(r) => Ok(Expr::Binary { op: *op, left: Box::new(l), right: Box::new(r) }),
                Err(m) => Err(m),
            },
            Err(m) => Err(m),
        },
        Expr::Function { name, distinct, args, filter, over } => {
            let args2 = match args {
                FunctionArgs::Star => {
                    assert(function_args_view(*args) == FunctionArgsView::Star);
                    FunctionArgs::Star
                },
                FunctionArgs::List(v) => {
                    assert(function_args_view(*args) == FunctionArgsView::List(exprs_view(v@)));
                    match rewrite_list(rule, v) {
                        Ok(v2) => FunctionArgs::List(v2),
                        Err(m) => {
                            return Err(m);
                        },
                    }
                },
            };
            let filter2 = match rewrite_opt(rule, filter) {
                Ok(f) => f,
                Err(m) => {
                    return Err(m);
                },
            };
            let over2 = match over {
                None => None,
                Some(w) => Some(w.clone()),
            };
            assert(opt_window_view(over2) == opt_window_view(*over));
            assert(function_args_view(args2) == args2@);
            Ok(
                Expr::Function {
                    name: name.clone(),
                    distinct: *distinct,
                    args: args2,
                    filter: filter2,
                    over: over2,
                },
            )
        },
        Expr::Between { expr, low, high, negated } => match rewrite(rule, expr) {
            Ok(x) => match rewrite(rule, low) {
                Ok(l) => match rewrite(rule, high) {
                    Ok(h) => Ok(
                        Expr::Between {
                            expr: Box::new(x),
                            low: Box::new(l),
                            high: Box::new(h),
                            negated: *negated,
                        },
                    ),
                    Err(m) => Err(m),
                },
                Err(m) => Err(m),
            },
            Err(m) => Err(m),
        },
        Expr::In { expr, values, negated } => match rewrite(rule, expr) {
            Ok(x) => match rewrite_list(rule, values) {
                Ok(v) => Ok(Expr::In { expr: Box::new(x), values: v, negated: *negated }),
                Err(m) => Err(m),
            },
            Err(m) => Err(m),
        },
        Expr::InSubquery { expr, subquery, negated } => match rewrite(rule, expr) {
            Ok(x) => Ok(
                Expr::InSubquery {
                    expr: Box::new(x),
                    subquery: Box::new((**subquery).clone()),
                    negated: *negated,
                },
            ),
            Err(m) => Err(m),
        },
        Expr::Row(es) => match rewrite_list(rule, es) {
            Ok(v) => Ok(Expr::Row(v)),
            Err(m) => Err(m),
        },
        Expr::Cast { expr, ty } => match rewrite(rule, expr) {
            Ok(x) => Ok(Expr::Cast { expr: Box::new(x), ty: ty.clone() }),
            Err(m) => Err(m),
        },
        Expr::Case { base, when_then, else_expr } => match rewrite_opt(rule, base) {
            Ok(b) => match rewrite_pairs(rule, when_then) {
                Ok(v) => match rewrite_opt(rule, else_expr) {
                    Ok(x) => Ok(Expr::Case { base: b, when_then: v, else_expr: x }),
                    Err(m) => Err(m),
                },
                Err(m) => Err(m),
            },
            Err(m) => Err(m),
        },
        Expr::Collate { expr, collation } => match rewrite(rule, expr) {
            Ok(x) => Ok(Expr::Collate { expr: Box::new(x), collation: collation.clone() }),
            Err(m) => Err(m),
        },
        Expr::IsDistinctFrom { left, right, negated } => match rewrite(rule, left) {
            Ok(l) => match rewrite(rule, right) {
                Ok(r) => Ok(
                    Expr::IsDistinctFrom {
                        left: Box::new(l),
                        right: Box::new(r),
                        negated: *negated,
                    },
                ),
                Err(m) => Err(m),
            },
            Err(m) => Err(m),
        },
        Expr::Coalesce2 { left, right } => match rewrite(rule, left) {
            Ok(l) => match rewrite(rule, right) {
                Ok(r) => Ok(Expr::Coalesce2 { left: Box::new(l), right: Box::new(r) }),
                Err(m) => Err(m),
            },
            Err(m) => Err(m),
        },
        _ => Ok(e.clone()),
    }
}

} // verus!
