//! Flattening a subquery of the `FROM` clause into the query around it.
//!
//! Where a query reads a single simple subquery, the subquery's own `FROM` clause takes its
//! place, and every reference to one of its output columns becomes the expression behind it.
use vstd::prelude::*;

use crate::ast::{
    arms_view, expr_rows_view, exprs_view, from_items_view, opt_expr_view, opt_name_view,
    ordering_terms_view, result_columns_view, BinaryOp, Expr, ExprView, FunctionArgsView, Literal,
    LiteralView, OrderingTerm, OrderingTermView, ResultColumn, ResultColumnView, SelectStmt,
    SelectStmtView, TableOrJoin, UnaryOp,
};
use crate::cte::spelled_out;
use crate::expr::negated_bits;
use crate::machine::{and3, truth, truth_value, Val, Values};
use crate::meaning::{kept, lemma_values_from, value, values_from, Env};
use crate::rewrite::{
    descends, output_from, rebuilt, replacement, rewrite, rewritten, rewritten_list, rewritten_opt,
    rewritten_pairs, substs_view, Rule, RuleView, Subst,
};
use crate::schema::{no_functions, Functions};
use crate::text::{cat3, cat4, decimal_i64, eq_ignore_case, eq_nocase, int_text, owned, Error};
use crate::vdbe::P4View;
use crate::walk::{contains_aggregate_call, contains_window_function, occurs, Sought};

verus! {

// ---- When a subquery can be flattened ----

/// A windowed call occurs among the columns or the sort terms of a query.
pub open spec fn has_window(s: SelectStmtView) -> bool {
    ||| exists|i: int|
        0 <= i < s.columns.len() && (#[trigger] s.columns[i]) is Expr && occurs(
            Sought::Windowed,
            no_functions(),
            s.columns[i]->expr,
        )
    ||| exists|i: int|
        0 <= i < s.order_by.len() && occurs(
            Sought::Windowed,
            no_functions(),
            (#[trigger] s.order_by[i]).expr,
        )
}

/// A query groups its rows or calls an aggregate.
pub open spec fn has_aggregate(s: SelectStmtView) -> bool {
    ||| s.group_by.len() > 0
    ||| s.having is Some
    ||| exists|i: int|
        0 <= i < s.columns.len() && (#[trigger] s.columns[i]) is Expr && occurs(
            Sought::AggregateName,
            no_functions(),
            s.columns[i]->expr,
        )
}

/// A query, and a subquery that is all it reads, can become one.
pub open spec fn may_merge(outer: SelectStmtView, sub: SelectStmtView) -> bool {
    &&& outer.compound.len() == 0 && outer.values.len() == 0
    &&& !has_window(outer) && !has_window(sub)
    &&& sub.compound.len() == 0 && sub.values.len() == 0
    &&& !sub.distinct
    &&& sub.from.len() > 0
    &&& !has_aggregate(sub)
    &&& !(sub.limit is Some && outer.limit is Some)
    &&& sub.offset is None
    &&& !(sub.order_by.len() > 0 && outer.order_by.len() > 0)
    &&& !(has_aggregate(outer) && sub.order_by.len() > 0)
    &&& sub.limit is Some ==> outer.where_clause is None && !outer.distinct && !has_aggregate(outer)
}

/// The subquery of a query that can be flattened, and its alias.
pub open spec fn mergeable(outer: SelectStmtView) -> Option<(SelectStmtView, Seq<char>)> {
    if outer.from.len() == 1 && outer.from[0] is Subquery && may_merge(
        outer,
        *outer.from[0]->query,
    ) {
        Some((*outer.from[0]->query, outer.from[0]->alias))
    } else {
        None
    }
}

fn query_has_window(select: &SelectStmt) -> (r: bool)
    ensures
        r == has_window(select@),
{
    let none = Functions::none();
    assert(select@.columns == result_columns_view(select.columns@));
    assert(select@.order_by == ordering_terms_view(select.order_by@));
    for i in 0..select.columns.len()
        invariant
            none@ == no_functions(),
            select@.columns == result_columns_view(select.columns@),
            forall|j: int|
                0 <= j < i && (#[trigger] select@.columns[j]) is Expr ==> !occurs(
                    Sought::Windowed,
                    no_functions(),
                    select@.columns[j]->expr,
                ),
    {
        assert(select@.columns[i as int] == select.columns@[i as int]@);
        if let ResultColumn::Expr { expr, alias } = &select.columns[i] {
            assert(select@.columns[i as int]->expr == expr@);
            if contains_window_function(expr, &none) {
                return true;
            }
        }
    }
    for i in 0..select.order_by.len()
        invariant
            none@ == no_functions(),
            select@.order_by == ordering_terms_view(select.order_by@),
            forall|j: int|
                0 <= j < select@.columns.len() && (#[trigger] select@.columns[j]) is Expr
                    ==> !occurs(Sought::Windowed, no_functions(), select@.columns[j]->expr),
            forall|j: int|
                0 <= j < i ==> !occurs(
                    Sought::Windowed,
                    no_functions(),
                    (#[trigger] select@.order_by[j]).expr,
                ),
    {
        assert(select@.order_by[i as int] == select.order_by@[i as int]@);
        if contains_window_function(&select.order_by[i].expr, &none) {
            return true;
        }
    }
    false
}

fn select_has_aggregate(select: &SelectStmt) -> (r: bool)
    ensures
        r == has_aggregate(select@),
{
    let none = Functions::none();
    assert(select@.columns == result_columns_view(select.columns@));
    assert(select@.group_by == exprs_view(select.group_by@));
    assert(select@.having == opt_expr_view(select.having));
    if select.group_by.len() > 0 || select.having.is_some() {
        return true;
    }
    for i in 0..select.columns.len()
        invariant
            none@ == no_functions(),
            select@.columns == result_columns_view(select.columns@),
            select@.group_by.len() == 0,
            select@.having is None,
            forall|j: int|
                0 <= j < i && (#[trigger] select@.columns[j]) is Expr ==> !occurs(
                    Sought::AggregateName,
                    no_functions(),
                    select@.columns[j]->expr,
                ),
    {
        assert(select@.columns[i as int] == select.columns@[i as int]@);
        if let ResultColumn::Expr { expr, alias } = &select.columns[i] {
            assert(select@.columns[i as int]->expr == expr@);
            if contains_aggregate_call(expr, &none) {
                return true;
            }
        }
    }
    false
}

fn restrictions_pass<'a>(outer: &'a SelectStmt) -> (r: Option<(&'a SelectStmt, &'a String)>)
    ensures
        match r {
            Some(x) => mergeable(outer@) == Some((x.0@, x.1@)),
            None => mergeable(outer@) is None,
        },
{
    assert(outer@.from == from_items_view(outer.from@));
    assert(outer@.compound == arms_view(outer.compound@));
    assert(outer@.values == expr_rows_view(outer.values@));
    assert(outer@.order_by == ordering_terms_view(outer.order_by@));
    if outer.compound.len() > 0 || outer.values.len() > 0 || outer.from.len() != 1 {
        return None;
    }
    assert(outer@.from[0] == outer.from@[0]@);
    match &outer.from[0] {
        TableOrJoin::Subquery { query, alias } => {
            let sub: &SelectStmt = query;
            assert(outer@.from[0]->query == Box::new(sub@));
            assert(outer@.from[0]->alias == alias@);
            assert(sub@.from == from_items_view(sub.from@));
            assert(sub@.compound == arms_view(sub.compound@));
            assert(sub@.values == expr_rows_view(sub.values@));
            assert(sub@.order_by == ordering_terms_view(sub.order_by@));
            assert(sub@.limit == opt_expr_view(sub.limit));
            assert(outer@.limit == opt_expr_view(outer.limit));
            assert(sub@.offset == opt_expr_view(sub.offset));
            assert(outer@.where_clause == opt_expr_view(outer.where_clause));
            if query_has_window(outer) || query_has_window(sub) {
                return None;
            }
            if sub.compound.len() > 0 || sub.values.len() > 0 || sub.distinct || sub.from.len()
                == 0 {
                return None;
            }
            if select_has_aggregate(sub) {
                return None;
            }
            let limited = sub.limit.is_some();
            let sorted = sub.order_by.len() > 0;
            if (limited && outer.limit.is_some()) || sub.offset.is_some() || (sorted
                && outer.order_by.len() > 0) {
                return None;
            }
            let aggregate = select_has_aggregate(outer);
            if (aggregate && sorted) || (limited && (outer.where_clause.is_some() || outer.distinct
                || aggregate)) {
                return None;
            }
            Some((sub, alias))
        },
        _ => None,
    }
}

// ---- The names of output columns ----

/// A hexadecimal digit.
pub open spec fn hex_digit(n: u8) -> char {
    if n < 10 {
        (48 + n) as char
    } else {
        (87 + n) as char
    }
}

/// The first `n` bytes in hexadecimal.
pub open spec fn hex_text(b: Seq<u8>, n: int) -> Seq<char>
    decreases n,
{
    if n <= 0 || n > b.len() {
        Seq::empty()
    } else {
        hex_text(b, n - 1).push(hex_digit(b[n - 1] / 16)).push(hex_digit(b[n - 1] % 16))
    }
}

/// The name of a prefix operator.
pub open spec fn unary_name(op: UnaryOp) -> Seq<char> {
    match op {
        UnaryOp::Negate => "Negate"@,
        UnaryOp::Positive => "Positive"@,
        UnaryOp::Not => "Not"@,
        UnaryOp::BitNot => "BitNot"@,
    }
}

/// The name of an infix operator.
pub open spec fn binary_name(op: BinaryOp) -> Seq<char> {
    match op {
        BinaryOp::Or => "Or"@,
        BinaryOp::And => "And"@,
        BinaryOp::Eq => "Eq"@,
        BinaryOp::Ne => "Ne"@,
        BinaryOp::Lt => "Lt"@,
        BinaryOp::Le => "Le"@,
        BinaryOp::Gt => "Gt"@,
        BinaryOp::Ge => "Ge"@,
        BinaryOp::Add => "Add"@,
        BinaryOp::Sub => "Sub"@,
        BinaryOp::Mul => "Mul"@,
        BinaryOp::Div => "Div"@,
        BinaryOp::Mod => "Mod"@,
        BinaryOp::Concat => "Concat"@,
        BinaryOp::Is => "Is"@,
        BinaryOp::IsNot => "IsNot"@,
        BinaryOp::Like => "Like"@,
        BinaryOp::Glob => "Glob"@,
        BinaryOp::Regexp => "Regexp"@,
        BinaryOp::Match => "Match"@,
        BinaryOp::BitAnd => "BitAnd"@,
        BinaryOp::BitOr => "BitOr"@,
        BinaryOp::ShiftLeft => "ShiftLeft"@,
        BinaryOp::ShiftRight => "ShiftRight"@,
        BinaryOp::JsonExtract => "JsonExtract"@,
        BinaryOp::JsonExtractText => "JsonExtractText"@,
    }
}

/// The name of an output column without an alias: that of a column, and for any other expression
/// a text of its own.
pub open spec fn output_name(e: ExprView) -> Seq<char> {
    match e {
        ExprView::Column { name, .. } => name,
        _ => output_text(e),
    }
}

/// The text that stands for an expression.
pub open spec fn output_text(e: ExprView) -> Seq<char>
    decreases e,
{
    match e {
        ExprView::Literal(l) => match l {
            LiteralView::Null => "NULL"@,
            LiteralView::Integer(n) => int_text(n as int),
            LiteralView::Real(r) => r.shortest,
            LiteralView::Text(s) => "'"@ + s + "'"@,
            LiteralView::Blob(b) => "X'"@ + hex_text(b, b.len() as int) + "'"@,
            LiteralView::Bool(b) => if b {
                "true"@
            } else {
                "false"@
            },
        },
        ExprView::Column { table: Some(t), name, .. } => t + "."@ + name,
        ExprView::Column { table: None, name, .. } => name,
        ExprView::BindParam(s) => s,
        ExprView::Unary { op, expr } => unary_name(op) + "("@ + output_text(*expr) + ")"@,
        ExprView::Binary { op, left, right } => output_text(*left) + (" "@ + binary_name(op) + " "@)
            + output_text(*right),
        _ => "?"@,
    }
}

fn hex(b: &Vec<u8>) -> (r: String)
    ensures
        r@ == hex_text(b@, b@.len() as int),
{
    let mut r = owned("");
    proof {
        reveal_strlit("");
        assert(r@ =~= Seq::empty());
    }
    for i in 0..b.len()
        invariant
            r@ == hex_text(b@, i as int),
    {
        let hi: u8 = b[i] / 16;
        let lo: u8 = b[i] % 16;
        r.push(digit(hi));
        r.push(digit(lo));
    }
    r
}

fn digit(n: u8) -> (r: char)
    requires
        n < 16,
    ensures
        r == hex_digit(n),
{
    if n < 10 {
        (48u8 + n) as char
    } else {
        (87u8 + n) as char
    }
}

fn unary_op_name(op: UnaryOp) -> (r: &'static str)
    ensures
        r@ == unary_name(op),
{
    match op {
        UnaryOp::Negate => "Negate",
        UnaryOp::Positive => "Positive",
        UnaryOp::Not => "Not",
        UnaryOp::BitNot => "BitNot",
    }
}

fn binary_op_name(op: BinaryOp) -> (r: &'static str)
    ensures
        r@ == binary_name(op),
{
    match op {
        BinaryOp::Or => "Or",
        BinaryOp::And => "And",
        BinaryOp::Eq => "Eq",
        BinaryOp::Ne => "Ne",
        BinaryOp::Lt => "Lt",
        BinaryOp::Le => "Le",
        BinaryOp::Gt => "Gt",
        BinaryOp::Ge => "Ge",
        BinaryOp::Add => "Add",
        BinaryOp::Sub => "Sub",
        BinaryOp::Mul => "Mul",
        BinaryOp::Div => "Div",
        BinaryOp::Mod => "Mod",
        BinaryOp::Concat => "Concat",
        BinaryOp::Is => "Is",
        BinaryOp::IsNot => "IsNot",
        BinaryOp::Like => "Like",
        BinaryOp::Glob => "Glob",
        BinaryOp::Regexp => "Regexp",
        BinaryOp::Match => "Match",
        BinaryOp::BitAnd => "BitAnd",
        BinaryOp::BitOr => "BitOr",
        BinaryOp::ShiftLeft => "ShiftLeft",
        BinaryOp::ShiftRight => "ShiftRight",
        BinaryOp::JsonExtract => "JsonExtract",
        BinaryOp::JsonExtractText => "JsonExtractText",
    }
}

fn text_of(e: &Expr) -> (r: String)
    ensures
        r@ == output_text(e@),
    decreases e,
{
    match e {
        Expr::Literal(l) => match l {
            Literal::Null => owned("NULL"),
            Literal::Integer(n) => decimal_i64(*n),
            Literal::Real(r) => r.shortest.clone(),
            Literal::Text(s) => cat3("'", s.as_str(), "'"),
            Literal::Blob(b) => cat3("X'", hex(b).as_str(), "'"),
            Literal::Bool(b) => if *b {
                owned("true")
            } else {
                owned("false")
            },
        },
        Expr::Column { schema, table, name } => {
            assert(e@ == ExprView::Column {
                schema: opt_name_view(*schema),
                table: opt_name_view(*table),
                name: name@,
            });
            match table {
                Some(t) => cat3(t.as_str(), ".", name.as_str()),
                None => name.clone(),
            }
        },
        Expr::BindParam(s) => s.clone(),
        Expr::Unary { op, expr } => cat4(unary_op_name(*op), "(", text_of(expr).as_str(), ")"),
        Expr::Binary { op, left, right } => {
            let middle = cat3(" ", binary_op_name(*op), " ");
            cat3(text_of(left).as_str(), middle.as_str(), text_of(right).as_str())
        },
        _ => owned("?"),
    }
}

/// The name of an output column without an alias.
fn name_of_output(expr: &Expr) -> (r: String)
    ensures
        r@ == output_name(expr@),
{
    match expr {
        Expr::Column { schema, table, name } => name.clone(),
        _ => text_of(expr),
    }
}

// ---- Substitution ----

/// The output columns of a subquery by name, each with the expression behind it.
pub open spec fn outputs_by_name(columns: Seq<ResultColumnView>) -> Seq<(Seq<char>, ExprView)> {
    Seq::new(
        columns.len(),
        |i: int|
            (
                match columns[i]->alias {
                    Some(a) => a,
                    None => output_name(columns[i]->expr),
                },
                columns[i]->expr,
            ),
    )
}

/// An expression with the references to output columns replaced by what is behind them.
pub open spec fn substituted(
    alias: Seq<char>,
    outputs: Seq<(Seq<char>, ExprView)>,
    e: ExprView,
) -> ExprView {
    rewritten(RuleView::Outputs { alias, outputs }, e)->Ok_0
}

proof fn lemma_list_substitutes(
    alias: Seq<char>,
    outputs: Seq<(Seq<char>, ExprView)>,
    es: Seq<ExprView>,
    n: int,
)
    requires
        0 <= n <= es.len(),
    ensures
        rewritten_list(RuleView::Outputs { alias, outputs }, es, n) is Ok,
    decreases es, n,
{
    reveal(rewritten_list);
    reveal(rewritten);
    if n > 0 {
        lemma_list_substitutes(alias, outputs, es, n - 1);
        law_substitution_total(alias, outputs, es[n - 1]);
    }
}

proof fn lemma_pairs_substitute(
    alias: Seq<char>,
    outputs: Seq<(Seq<char>, ExprView)>,
    ps: Seq<(ExprView, ExprView)>,
    n: int,
)
    requires
        0 <= n <= ps.len(),
    ensures
        rewritten_pairs(RuleView::Outputs { alias, outputs }, ps, n) is Ok,
    decreases ps, n,
{
    reveal(rewritten_pairs);
    reveal(rewritten);
    if n > 0 {
        lemma_pairs_substitute(alias, outputs, ps, n - 1);
        assert(decreases_to!(ps => ps[n - 1]));
        assert(decreases_to!(ps[n - 1] => ps[n - 1].0));
        assert(decreases_to!(ps[n - 1] => ps[n - 1].1));
        law_substitution_total(alias, outputs, ps[n - 1].0);
        law_substitution_total(alias, outputs, ps[n - 1].1);
    }
}

proof fn lemma_option_substitutes(
    alias: Seq<char>,
    outputs: Seq<(Seq<char>, ExprView)>,
    o: Option<Box<ExprView>>,
)
    ensures
        rewritten_opt(RuleView::Outputs { alias, outputs }, o) is Ok,
    decreases o, 0int,
{
    reveal(rewritten_opt);
    reveal(rewritten);
    if let Some(e) = o {
        law_substitution_total(alias, outputs, *e);
    }
}

/// References to output columns can be replaced in every expression.
pub proof fn law_substitution_total(
    alias: Seq<char>,
    outputs: Seq<(Seq<char>, ExprView)>,
    e: ExprView,
)
    ensures
        rewritten(RuleView::Outputs { alias, outputs }, e) == Ok::<ExprView, Seq<char>>(
            substituted(alias, outputs, e),
        ),
    decreases e, 0int,
{
    reveal(rewritten);
    reveal(rebuilt);
    reveal(rewritten_list);
    reveal(rewritten_pairs);
    reveal(rewritten_opt);
    reveal(replacement);
    reveal(descends);
    match e {
        ExprView::Unary { op, expr } => {
            law_substitution_total(alias, outputs, *expr);
        },
        ExprView::Binary { op, left, right } => {
            law_substitution_total(alias, outputs, *left);
            law_substitution_total(alias, outputs, *right);
        },
        ExprView::Function { name, distinct, args, filter, over } => {
            if let FunctionArgsView::List(v) = args {
                assert(decreases_to!(e => args));
                assert(decreases_to!(args => v));
                lemma_list_substitutes(alias, outputs, v, v.len() as int);
            }
            lemma_option_substitutes(alias, outputs, filter);
        },
        ExprView::Between { expr, low, high, negated } => {
            law_substitution_total(alias, outputs, *expr);
            law_substitution_total(alias, outputs, *low);
            law_substitution_total(alias, outputs, *high);
        },
        ExprView::In { expr, values, negated } => {
            law_substitution_total(alias, outputs, *expr);
            lemma_list_substitutes(alias, outputs, values, values.len() as int);
        },
        ExprView::InSubquery { expr, subquery, negated } => {
            law_substitution_total(alias, outputs, *expr);
        },
        ExprView::Row(es) => {
            lemma_list_substitutes(alias, outputs, es, es.len() as int);
        },
        ExprView::Cast { expr, ty } => {
            law_substitution_total(alias, outputs, *expr);
        },
        ExprView::Case { base, when_then, else_expr } => {
            lemma_pairs_substitute(alias, outputs, when_then, when_then.len() as int);
            lemma_option_substitutes(alias, outputs, base);
            lemma_option_substitutes(alias, outputs, else_expr);
        },
        ExprView::Collate { expr, collation } => {
            law_substitution_total(alias, outputs, *expr);
        },
        ExprView::IsDistinctFrom { left, right, negated } => {
            law_substitution_total(alias, outputs, *left);
            law_substitution_total(alias, outputs, *right);
        },
        ExprView::Coalesce2 { left, right } => {
            law_substitution_total(alias, outputs, *left);
            law_substitution_total(alias, outputs, *right);
        },
        _ => {},
    }
}

/// All output columns of the subquery.
pub open spec fn all_outputs(outputs: Seq<(Seq<char>, ExprView)>) -> Seq<ResultColumnView> {
    Seq::new(
        outputs.len(),
        |i: int| ResultColumnView::Expr { expr: outputs[i].1, alias: None },
    )
}

/// What one column of the outer query becomes: `*` and the `*` of the subquery stand for all its
/// output columns.
pub open spec fn merged_column(
    c: ResultColumnView,
    alias: Seq<char>,
    outputs: Seq<(Seq<char>, ExprView)>,
) -> Seq<ResultColumnView> {
    match c {
        ResultColumnView::Star => all_outputs(outputs),
        ResultColumnView::TableStar(t) => if eq_nocase(t, alias) {
            all_outputs(outputs)
        } else {
            seq![c]
        },
        ResultColumnView::Expr { expr, alias: a } => seq![
            ResultColumnView::Expr { expr: substituted(alias, outputs, expr), alias: a },
        ],
    }
}

/// What the first `n` columns of the outer query become.
pub open spec fn merged_columns(
    cs: Seq<ResultColumnView>,
    alias: Seq<char>,
    outputs: Seq<(Seq<char>, ExprView)>,
    n: int,
) -> Seq<ResultColumnView>
    decreases n,
{
    if n <= 0 || n > cs.len() {
        Seq::empty()
    } else {
        merged_columns(cs, alias, outputs, n - 1) + merged_column(cs[n - 1], alias, outputs)
    }
}

/// A list of expressions with the subquery columns substituted.
pub open spec fn substituted_list(
    alias: Seq<char>,
    outputs: Seq<(Seq<char>, ExprView)>,
    es: Seq<ExprView>,
) -> Seq<ExprView> {
    Seq::new(es.len(), |i: int| substituted(alias, outputs, es[i]))
}

/// An optional expression with the subquery columns substituted.
pub open spec fn substituted_opt(
    alias: Seq<char>,
    outputs: Seq<(Seq<char>, ExprView)>,
    e: Option<ExprView>,
) -> Option<ExprView> {
    match e {
        Some(x) => Some(substituted(alias, outputs, x)),
        None => None,
    }
}

/// Sort terms with the subquery columns substituted.
pub open spec fn substituted_terms(
    alias: Seq<char>,
    outputs: Seq<(Seq<char>, ExprView)>,
    ts: Seq<OrderingTermView>,
) -> Seq<OrderingTermView> {
    Seq::new(
        ts.len(),
        |i: int| OrderingTermView { expr: substituted(alias, outputs, ts[i].expr), ..ts[i] },
    )
}

/// Both conditions, as far as they are there.
pub open spec fn both(a: Option<ExprView>, b: Option<ExprView>) -> Option<ExprView> {
    match (a, b) {
        (Some(x), Some(y)) => Some(
            ExprView::Binary { op: BinaryOp::And, left: Box::new(x), right: Box::new(y) },
        ),
        (Some(x), None) => Some(x),
        (None, Some(y)) => Some(y),
        (None, None) => None,
    }
}

/// The query and its subquery in one, if that can be.
pub open spec fn flattened(outer: SelectStmtView) -> Option<SelectStmtView> {
    match mergeable(outer) {
        None => None,
        Some((sub, alias)) => if !spelled_out(sub.columns) {
            None
        } else {
            let outputs = outputs_by_name(sub.columns);
            let takes_limit = outer.limit is None && sub.limit is Some;
            Some(
                SelectStmtView {
                    from: sub.from,
                    where_clause: both(
                        sub.where_clause,
                        substituted_opt(alias, outputs, outer.where_clause),
                    ),
                    columns: merged_columns(
                        outer.columns,
                        alias,
                        outputs,
                        outer.columns.len() as int,
                    ),
                    group_by: substituted_list(alias, outputs, outer.group_by),
                    having: substituted_opt(alias, outputs, outer.having),
                    order_by: if outer.order_by.len() == 0 && sub.order_by.len() > 0 {
                        sub.order_by
                    } else {
                        substituted_terms(alias, outputs, outer.order_by)
                    },
                    limit: if takes_limit {
                        sub.limit
                    } else {
                        outer.limit
                    },
                    offset: if takes_limit {
                        sub.offset
                    } else {
                        outer.offset
                    },
                    ..outer
                },
            )
        },
    }
}

/// A flattened query reads what its subquery read, under every condition of the subquery.
pub proof fn law_flattening_keeps_source(outer: SelectStmtView)
    ensures
        flattened(outer) matches Some(r) ==> {
            let sub = *outer.from[0]->query;
            &&& r.from == sub.from
            &&& sub.where_clause matches Some(w) ==> r.where_clause == Some(w)
                || (r.where_clause matches Some(x) && x is Binary && x->Binary_op == BinaryOp::And
                && *x->Binary_left == w)
        },
{
}

// ---- What flattening keeps ----

/// The comparisons and the negation of values are of the ordinary kind: how two values compare
/// does not depend on the affinity and the collation that the names of columns bring along, and
/// the negation of a number is its difference from zero.
pub open spec fn regular(m: Values) -> bool {
    &&& forall|a: Val, b: Val, p: P4View, f: u8, q: P4View, g: u8|
        #![trigger (m.order)(a, b, p, f), (m.order)(a, b, q, g)]
        (m.order)(a, b, p, f) == (m.order)(a, b, q, g)
    &&& forall|n: i64|
        n != i64::MIN ==> #[trigger] (m.arith)(BinaryOp::Sub, Val::Int(0), Val::Int(n)) == Val::Int(
            (-n) as i64,
        )
    &&& forall|r: u64|
        #[trigger] (m.arith)(BinaryOp::Sub, Val::Int(0), Val::Real(r)) == Val::Real(negated_bits(r))
}

/// No `->` and no `->>` in the expression: a literal on their right-hand side is a path, the same
/// value out of a column is not.
pub open spec fn arrowless(e: ExprView) -> bool
    decreases e, 0int,
{
    match e {
        ExprView::Unary { op, expr } => arrowless(*expr),
        ExprView::Binary { op, left, right } => op != BinaryOp::JsonExtract && op
            != BinaryOp::JsonExtractText && arrowless(*left) && arrowless(*right),
        ExprView::Function { name, distinct, args, filter, over } => match args {
            FunctionArgsView::Star => true,
            FunctionArgsView::List(es) => all_arrowless(es, 0),
        },
        ExprView::Between { expr, low, high, negated } => arrowless(*expr) && arrowless(*low)
            && arrowless(*high),
        ExprView::Collate { expr, collation } => arrowless(*expr),
        ExprView::Coalesce2 { left, right } => arrowless(*left) && arrowless(*right),
        _ => true,
    }
}

/// The same, for `es[k..]`.
pub open spec fn all_arrowless(es: Seq<ExprView>, k: int) -> bool
    decreases es, es.len() - k,
{
    if k < 0 || k >= es.len() {
        true
    } else {
        arrowless(es[k]) && all_arrowless(es, k + 1)
    }
}

/// The row that a subquery gives to the query that reads it, where `env` is the row that the
/// subquery reads: its columns are the output columns.
pub open spec fn output_row(
    alias: Seq<char>,
    outputs: Seq<(Seq<char>, ExprView)>,
    env: Env,
) -> Env {
    Env {
        column: |q: Option<Seq<char>>, name: Seq<char>|
            if (q matches Some(x) ==> eq_nocase(x, alias)) && output_from(outputs, name, 0) is Some {
                value(output_from(outputs, name, 0)->0, env)
            } else {
                (env.column)(q, name)
            },
        ..env
    }
}

/// Replacing the references to output columns by what is behind them gives the expression the
/// value that it has on the row of the subquery.
pub proof fn law_substitution_keeps_value(
    alias: Seq<char>,
    outputs: Seq<(Seq<char>, ExprView)>,
    e: ExprView,
    env: Env,
)
    requires
        regular(env.m),
        arrowless(e),
    ensures
        value(substituted(alias, outputs, e), env) == value(e, output_row(alias, outputs, env)),
    decreases e, 0int,
{
    reveal(rewritten);
    reveal(rebuilt);
    reveal(rewritten_list);
    reveal(rewritten_opt);
    reveal(rewritten_pairs);
    reveal(replacement);
    reveal(descends);
    let row = output_row(alias, outputs, env);
    law_substitution_total(alias, outputs, e);
    match e {
        ExprView::Unary { op, expr } => {
            law_substitution_total(alias, outputs, *expr);
            law_substitution_keeps_value(alias, outputs, *expr, env);
            let x = substituted(alias, outputs, *expr);
            assert(substituted(alias, outputs, e) == ExprView::Unary { op, expr: Box::new(x) });
            lemma_negated_value(x, env);
            lemma_negated_value(*expr, row);
        },
        ExprView::Binary { op, left, right } => {
            law_substitution_total(alias, outputs, *left);
            law_substitution_total(alias, outputs, *right);
            law_substitution_keeps_value(alias, outputs, *left, env);
            law_substitution_keeps_value(alias, outputs, *right, env);
        },
        ExprView::Function { name, distinct, args, filter, over } => {
            if let FunctionArgsView::List(v) = args {
                assert(decreases_to!(e => args));
                assert(decreases_to!(args => v));
                lemma_list_keeps_values(alias, outputs, v, env, v.len() as int);
                lemma_option_substitutes(alias, outputs, filter);
                let w = rewritten_list(
                    RuleView::Outputs { alias, outputs },
                    v,
                    v.len() as int,
                )->Ok_0;
                lemma_values_from(v, row, 0);
                lemma_values_from(w, env, 0);
                assert(values_from(w, env, 0) =~= values_from(v, row, 0));
            }
        },
        ExprView::Between { expr, low, high, negated } => {
            law_substitution_total(alias, outputs, *expr);
            law_substitution_total(alias, outputs, *low);
            law_substitution_total(alias, outputs, *high);
            law_substitution_keeps_value(alias, outputs, *expr, env);
            law_substitution_keeps_value(alias, outputs, *low, env);
            law_substitution_keeps_value(alias, outputs, *high, env);
        },
        ExprView::Collate { expr, collation } => {
            law_substitution_total(alias, outputs, *expr);
            law_substitution_keeps_value(alias, outputs, *expr, env);
        },
        ExprView::Coalesce2 { left, right } => {
            law_substitution_total(alias, outputs, *left);
            law_substitution_total(alias, outputs, *right);
            law_substitution_keeps_value(alias, outputs, *left, env);
            law_substitution_keeps_value(alias, outputs, *right, env);
        },
        ExprView::Case { base, when_then, else_expr } => {
            lemma_pairs_substitute(alias, outputs, when_then, when_then.len() as int);
            lemma_option_substitutes(alias, outputs, base);
            lemma_option_substitutes(alias, outputs, else_expr);
        },
        ExprView::In { expr, values, negated } => {
            law_substitution_total(alias, outputs, *expr);
            lemma_list_substitutes(alias, outputs, values, values.len() as int);
        },
        ExprView::InSubquery { expr, subquery, negated } => {
            law_substitution_total(alias, outputs, *expr);
        },
        ExprView::Row(es) => {
            lemma_list_substitutes(alias, outputs, es, es.len() as int);
        },
        ExprView::Cast { expr, ty } => {
            law_substitution_total(alias, outputs, *expr);
        },
        ExprView::IsDistinctFrom { left, right, negated } => {
            law_substitution_total(alias, outputs, *left);
            law_substitution_total(alias, outputs, *right);
        },
        _ => {},
    }
}

/// The negation of an expression is its difference from zero.
proof fn lemma_negated_value(e: ExprView, env: Env)
    requires
        regular(env.m),
    ensures
        value(ExprView::Unary { op: UnaryOp::Negate, expr: Box::new(e) }, env) == (env.m.arith)(
            BinaryOp::Sub,
            Val::Int(0),
            value(e, env),
        ),
{
}

proof fn lemma_list_keeps_values(
    alias: Seq<char>,
    outputs: Seq<(Seq<char>, ExprView)>,
    es: Seq<ExprView>,
    env: Env,
    n: int,
)
    requires
        regular(env.m),
        all_arrowless(es, 0),
        0 <= n <= es.len(),
    ensures
        rewritten_list(RuleView::Outputs { alias, outputs }, es, n) matches Ok(v) && v.len() == n
            && forall|i: int|
            0 <= i < n ==> value(#[trigger] v[i], env) == value(
                es[i],
                output_row(alias, outputs, env),
            ),
    decreases es, n,
{
    reveal(rewritten);
    reveal(rewritten_list);
    if n > 0 {
        lemma_list_keeps_values(alias, outputs, es, env, n - 1);
        lemma_arrowless_at(es, 0, n - 1);
        law_substitution_total(alias, outputs, es[n - 1]);
        law_substitution_keeps_value(alias, outputs, es[n - 1], env);
    }
}

proof fn lemma_arrowless_at(es: Seq<ExprView>, k: int, i: int)
    requires
        all_arrowless(es, k),
        0 <= k <= i < es.len(),
    ensures
        arrowless(es[i]),
    decreases es.len() - k,
{
    if k < i {
        lemma_arrowless_at(es, k + 1, i);
    }
}

/// A flattened query keeps a row of its source exactly when the condition of the subquery holds
/// of it and that of the outer query, with the output columns replaced, does too.
pub proof fn law_flattening_keeps_both_conditions(outer: SelectStmtView, env: Env)
    ensures
        flattened(outer) matches Some(r) ==> {
            let sub = *outer.from[0]->query;
            let w = substituted_opt(
                outer.from[0]->alias,
                outputs_by_name(sub.columns),
                outer.where_clause,
            );
            kept(r.where_clause, env) == (kept(sub.where_clause, env) && kept(w, env))
        },
{
    if flattened(outer) is Some {
        let r = flattened(outer)->0;
        let sub = *outer.from[0]->query;
        let w = substituted_opt(
            outer.from[0]->alias,
            outputs_by_name(sub.columns),
            outer.where_clause,
        );
        if sub.where_clause is Some && w is Some {
            let a = truth(env.m, value(sub.where_clause->0, env));
            let b = truth(env.m, value(w->0, env));
            assert(value(r.where_clause->0, env) == truth_value(and3(a, b)));
        }
    }
}

/// A flattened query keeps a row of its source exactly when the subquery keeps it and the outer
/// query keeps the row that the subquery makes of it; its groups are kept alike.
pub proof fn law_flattened_rows(outer: SelectStmtView, env: Env)
    requires
        regular(env.m),
        outer.where_clause matches Some(w) ==> arrowless(w),
        outer.having matches Some(h) ==> arrowless(h),
    ensures
        flattened(outer) matches Some(r) ==> {
            let sub = *outer.from[0]->query;
            let row = output_row(outer.from[0]->alias, outputs_by_name(sub.columns), env);
            &&& kept(r.where_clause, env) == (kept(sub.where_clause, env) && kept(
                outer.where_clause,
                row,
            ))
            &&& kept(r.having, env) == kept(outer.having, row)
        },
{
    if flattened(outer) is Some {
        let sub = *outer.from[0]->query;
        let alias = outer.from[0]->alias;
        let outputs = outputs_by_name(sub.columns);
        law_flattening_keeps_both_conditions(outer, env);
        if let Some(w) = outer.where_clause {
            law_substitution_keeps_value(alias, outputs, w, env);
        }
        if let Some(h) = outer.having {
            law_substitution_keeps_value(alias, outputs, h, env);
        }
    }
}

/// The group keys and the sort terms of a flattened query have the values that those of the outer
/// query have on the rows of the subquery; if the outer query has no order, the subquery's stands.
pub proof fn law_flattened_keys(outer: SelectStmtView, env: Env, i: int)
    requires
        regular(env.m),
        0 <= i < outer.group_by.len() ==> arrowless(outer.group_by[i]),
        0 <= i < outer.order_by.len() ==> arrowless(outer.order_by[i].expr),
    ensures
        flattened(outer) matches Some(r) ==> {
            let sub = *outer.from[0]->query;
            let row = output_row(outer.from[0]->alias, outputs_by_name(sub.columns), env);
            &&& r.group_by.len() == outer.group_by.len()
            &&& 0 <= i < outer.group_by.len() ==> value(r.group_by[i], env) == value(
                outer.group_by[i],
                row,
            )
            &&& outer.order_by.len() > 0 ==> r.order_by.len() == outer.order_by.len()
            &&& outer.order_by.len() == 0 ==> r.order_by == sub.order_by
            &&& 0 <= i < outer.order_by.len() ==> value(r.order_by[i].expr, env) == value(
                outer.order_by[i].expr,
                row,
            ) && r.order_by[i] == (OrderingTermView {
                expr: r.order_by[i].expr,
                ..outer.order_by[i]
            })
        },
{
    if flattened(outer) is Some {
        let sub = *outer.from[0]->query;
        let alias = outer.from[0]->alias;
        let outputs = outputs_by_name(sub.columns);
        if 0 <= i < outer.group_by.len() {
            law_substitution_keeps_value(alias, outputs, outer.group_by[i], env);
        }
        if 0 <= i < outer.order_by.len() {
            law_substitution_keeps_value(alias, outputs, outer.order_by[i].expr, env);
        }
        assert(outer.order_by.len() == 0 && sub.order_by.len() == 0
            ==> flattened(outer)->0.order_by =~= sub.order_by);
    }
}

/// The values of the columns of a query. `star` are the values of all columns of what it reads,
/// which goes by the name `alias`.
pub open spec fn column_values(
    cs: Seq<ResultColumnView>,
    alias: Seq<char>,
    star: Seq<Val>,
    env: Env,
    n: int,
) -> Seq<Val>
    decreases n,
{
    if n <= 0 || n > cs.len() {
        Seq::empty()
    } else {
        column_values(cs, alias, star, env, n - 1) + match cs[n - 1] {
            ResultColumnView::Star => star,
            ResultColumnView::TableStar(t) => if eq_nocase(t, alias) {
                star
            } else {
                Seq::empty()
            },
            ResultColumnView::Expr { expr, alias: a } => seq![value(expr, env)],
        }
    }
}

/// The output columns of a subquery, on the row that it reads.
pub open spec fn output_values(outputs: Seq<(Seq<char>, ExprView)>, env: Env) -> Seq<Val> {
    Seq::new(outputs.len(), |i: int| value(outputs[i].1, env))
}

proof fn lemma_column_values_join(
    a: Seq<ResultColumnView>,
    b: Seq<ResultColumnView>,
    alias: Seq<char>,
    star: Seq<Val>,
    env: Env,
    n: int,
)
    requires
        0 <= n <= b.len(),
    ensures
        column_values(a + b, alias, star, env, a.len() + n) == column_values(
            a,
            alias,
            star,
            env,
            a.len() as int,
        ) + column_values(b, alias, star, env, n),
    decreases n,
{
    let l = a.len() as int;
    if n == 0 {
        assert(column_values(b, alias, star, env, 0) =~= Seq::empty());
        lemma_column_values_prefix(a, b, alias, star, env, l);
        assert(column_values(a, alias, star, env, l) + Seq::<Val>::empty() =~= column_values(
            a,
            alias,
            star,
            env,
            l,
        ));
    } else {
        lemma_column_values_join(a, b, alias, star, env, n - 1);
        assert((a + b)[l + n - 1] == b[n - 1]);
        assert(column_values(a + b, alias, star, env, l + n) =~= column_values(
            a,
            alias,
            star,
            env,
            l,
        ) + column_values(b, alias, star, env, n));
    }
}

proof fn lemma_column_values_prefix(
    a: Seq<ResultColumnView>,
    b: Seq<ResultColumnView>,
    alias: Seq<char>,
    star: Seq<Val>,
    env: Env,
    n: int,
)
    requires
        0 <= n <= a.len(),
    ensures
        column_values(a + b, alias, star, env, n) == column_values(a, alias, star, env, n),
    decreases n,
{
    if n > 0 {
        lemma_column_values_prefix(a, b, alias, star, env, n - 1);
        assert((a + b)[n - 1] == a[n - 1]);
    }
}

proof fn lemma_all_output_values(
    outputs: Seq<(Seq<char>, ExprView)>,
    alias: Seq<char>,
    star: Seq<Val>,
    env: Env,
    n: int,
)
    requires
        0 <= n <= outputs.len(),
    ensures
        column_values(all_outputs(outputs), alias, star, env, n) == output_values(
            outputs,
            env,
        ).take(n),
    decreases n,
{
    if n > 0 {
        lemma_all_output_values(outputs, alias, star, env, n - 1);
    }
    assert(column_values(all_outputs(outputs), alias, star, env, n) =~= output_values(
        outputs,
        env,
    ).take(n));
}

proof fn lemma_merged_values(
    cs: Seq<ResultColumnView>,
    alias: Seq<char>,
    outputs: Seq<(Seq<char>, ExprView)>,
    env: Env,
    n: int,
)
    requires
        regular(env.m),
        0 <= n <= cs.len(),
        forall|i: int|
            0 <= i < cs.len() && (#[trigger] cs[i]) is Expr ==> arrowless(cs[i]->expr),
    ensures
        ({
            let star = output_values(outputs, env);
            let merged = merged_columns(cs, alias, outputs, n);
            column_values(merged, alias, Seq::empty(), env, merged.len() as int) == column_values(
                cs,
                alias,
                star,
                output_row(alias, outputs, env),
                n,
            )
        }),
    decreases n,
{
    let star = output_values(outputs, env);
    let none = Seq::<Val>::empty();
    if n > 0 {
        lemma_merged_values(cs, alias, outputs, env, n - 1);
        let a = merged_columns(cs, alias, outputs, n - 1);
        let b = merged_column(cs[n - 1], alias, outputs);
        lemma_column_values_join(a, b, alias, none, env, b.len() as int);
        lemma_all_output_values(outputs, alias, none, env, outputs.len() as int);
        assert(star.take(outputs.len() as int) =~= star);
        if cs[n - 1] is Expr {
            law_substitution_keeps_value(alias, outputs, cs[n - 1]->expr, env);
        }
        reveal_with_fuel(column_values, 2);
    }
}

/// A flattened query puts out, for a row of its source, what the outer query puts out for the row
/// that the subquery makes of it. A `*` of the outer query stands for the columns of the subquery.
pub proof fn law_flattened_columns(outer: SelectStmtView, env: Env)
    requires
        regular(env.m),
        forall|i: int|
            0 <= i < outer.columns.len() && (#[trigger] outer.columns[i]) is Expr ==> arrowless(
                outer.columns[i]->expr,
            ),
    ensures
        flattened(outer) matches Some(r) ==> {
            let sub = *outer.from[0]->query;
            let alias = outer.from[0]->alias;
            let outputs = outputs_by_name(sub.columns);
            column_values(r.columns, alias, Seq::empty(), env, r.columns.len() as int)
                == column_values(
                outer.columns,
                alias,
                Seq::new(sub.columns.len(), |i: int| value(sub.columns[i]->expr, env)),
                output_row(alias, outputs, env),
                outer.columns.len() as int,
            )
        },
{
    if flattened(outer) is Some {
        let sub = *outer.from[0]->query;
        let alias = outer.from[0]->alias;
        let outputs = outputs_by_name(sub.columns);
        lemma_merged_values(outer.columns, alias, outputs, env, outer.columns.len() as int);
        assert(output_values(outputs, env) =~= Seq::new(
            sub.columns.len(),
            |i: int| value(sub.columns[i]->expr, env),
        ));
    }
}

#[verifier::rlimit(40)]
fn build_substitution(columns: &Vec<ResultColumn>) -> (r: Option<Vec<Subst>>)
    ensures
        match r {
            Some(v) => spelled_out(result_columns_view(columns@)) && substs_view(v@)
                == outputs_by_name(result_columns_view(columns@)),
            None => !spelled_out(result_columns_view(columns@)),
        },
{
    let ghost cols = result_columns_view(columns@);
    let ghost all = outputs_by_name(cols);
    let mut out: Vec<Subst> = Vec::new();
    assert(substs_view(out@) =~= all.take(0));
    for i in 0..columns.len()
        invariant
            cols == result_columns_view(columns@),
            all == outputs_by_name(cols),
            substs_view(out@) == all.take(i as int),
            forall|j: int| 0 <= j < i ==> (#[trigger] cols[j]) is Expr,
    {
        assert(cols[i as int] == columns@[i as int]@);
        match &columns[i] {
            ResultColumn::Expr { expr, alias } => {
                assert(cols[i as int] == ResultColumnView::Expr {
                    expr: expr@,
                    alias: opt_name_view(*alias),
                });
                let name = match alias {
                    Some(a) => a.clone(),
                    None => name_of_output(expr),
                };
                let ghost before = substs_view(out@);
                let s = Subst { name, expr: expr.clone() };
                let ghost sv = (s.name@, s.expr@);
                out.push(s);
                assert(sv == all[i as int]);
                assert(substs_view(out@) =~= before.push(sv));
                assert(all.take(i + 1) =~= all.take(i as int).push(all[i as int]));
            },
            _ => {
                assert(!(cols[i as int] is Expr));
                return None;
            },
        }
    }
    assert(all.take(cols.len() as int) =~= all);
    Some(out)
}

fn subst_expr(expr: &Expr, alias: &str, subst: &Vec<Subst>) -> (r: Expr)
    ensures
        r@ == substituted(alias@, substs_view(subst@), expr@),
{
    proof {
        law_substitution_total(alias@, substs_view(subst@), expr@);
    }
    match rewrite(&Rule::Outputs(alias, subst), expr) {
        Ok(e) => e,
        Err(_) => expr.clone(),
    }
}

fn subst_opt(expr: &Option<Expr>, alias: &str, subst: &Vec<Subst>) -> (r: Option<Expr>)
    ensures
        opt_expr_view(r) == substituted_opt(alias@, substs_view(subst@), opt_expr_view(*expr)),
{
    match expr {
        Some(e) => Some(subst_expr(e, alias, subst)),
        None => None,
    }
}

fn subst_list(es: &Vec<Expr>, alias: &str, subst: &Vec<Subst>) -> (r: Vec<Expr>)
    ensures
        exprs_view(r@) == substituted_list(alias@, substs_view(subst@), exprs_view(es@)),
{
    let ghost ev = exprs_view(es@);
    let mut r: Vec<Expr> = Vec::new();
    for i in 0..es.len()
        invariant
            ev == exprs_view(es@),
            r@.len() == i,
            forall|j: int|
                0 <= j < i ==> (#[trigger] r@[j])@ == substituted(
                    alias@,
                    substs_view(subst@),
                    ev[j],
                ),
    {
        assert(ev[i as int] == es@[i as int]@);
        r.push(subst_expr(&es[i], alias, subst));
    }
    assert(exprs_view(r@) =~= substituted_list(alias@, substs_view(subst@), ev));
    r
}

fn subst_ordering_term(t: &OrderingTerm, alias: &str, subst: &Vec<Subst>) -> (r: OrderingTerm)
    ensures
        r@ == (OrderingTermView {
            expr: substituted(alias@, substs_view(subst@), t@.expr),
            ..t@
        }),
{
    let e = subst_expr(&t.expr, alias, subst);
    OrderingTerm { expr: e, desc: t.desc, nulls: t.nulls }
}

fn subst_terms(ts: &Vec<OrderingTerm>, alias: &str, subst: &Vec<Subst>) -> (r: Vec<OrderingTerm>)
    ensures
        ordering_terms_view(r@) == substituted_terms(
            alias@,
            substs_view(subst@),
            ordering_terms_view(ts@),
        ),
{
    let ghost tv = ordering_terms_view(ts@);
    let ghost want = substituted_terms(alias@, substs_view(subst@), tv);
    let mut r: Vec<OrderingTerm> = Vec::new();
    for i in 0..ts.len()
        invariant
            tv == ordering_terms_view(ts@),
            want == substituted_terms(alias@, substs_view(subst@), tv),
            r@.len() == i,
            forall|j: int| 0 <= j < i ==> (#[trigger] r@[j])@ == want[j],
    {
        assert(tv[i as int] == ts@[i as int]@);
        r.push(subst_ordering_term(&ts[i], alias, subst));
    }
    assert(ordering_terms_view(r@) =~= want);
    r
}

fn push_all_outputs(out: &mut Vec<ResultColumn>, subst: &Vec<Subst>)
    ensures
        result_columns_view(final(out)@) == result_columns_view(old(out)@) + all_outputs(
            substs_view(subst@),
        ),
{
    let ghost all = all_outputs(substs_view(subst@));
    let ghost before = result_columns_view(out@);
    assert(before + all.take(0) =~= before);
    for i in 0..subst.len()
        invariant
            all == all_outputs(substs_view(subst@)),
            result_columns_view(out@) == before + all.take(i as int),
    {
        let c = ResultColumn::Expr { expr: subst[i].expr.clone(), alias: None };
        let ghost cv = c@;
        assert(cv == ResultColumnView::Expr { expr: subst@[i as int].expr@, alias: None });
        assert(cv == all[i as int]);
        let ghost now = result_columns_view(out@);
        out.push(c);
        assert(result_columns_view(out@) =~= now.push(cv));
        assert(before + all.take(i + 1) =~= (before + all.take(i as int)).push(cv));
    }
    assert(all.take(subst@.len() as int) =~= all);
}

fn subst_columns(columns: &Vec<ResultColumn>, alias: &str, subst: &Vec<Subst>) -> (r: Vec<
    ResultColumn,
>)
    ensures
        result_columns_view(r@) == merged_columns(
            result_columns_view(columns@),
            alias@,
            substs_view(subst@),
            columns@.len() as int,
        ),
{
    let ghost cols = result_columns_view(columns@);
    let ghost outs = substs_view(subst@);
    let mut r: Vec<ResultColumn> = Vec::new();
    assert(result_columns_view(r@) =~= Seq::empty());
    for i in 0..columns.len()
        invariant
            cols == result_columns_view(columns@),
            outs == substs_view(subst@),
            result_columns_view(r@) == merged_columns(cols, alias@, outs, i as int),
    {
        assert(cols[i as int] == columns@[i as int]@);
        let ghost before = result_columns_view(r@);
        subst_result_column_expanded(&mut r, &columns[i], alias, subst);
    }
    r
}

fn subst_result_column_expanded(
    out: &mut Vec<ResultColumn>,
    rc: &ResultColumn,
    alias: &str,
    subst: &Vec<Subst>,
)
    ensures
        result_columns_view(final(out)@) == result_columns_view(old(out)@) + merged_column(
            rc@,
            alias@,
            substs_view(subst@),
        ),
{
    let ghost before = result_columns_view(out@);
    match rc {
        ResultColumn::Star => {
            push_all_outputs(out, subst);
        },
        ResultColumn::TableStar(t) => {
            if eq_ignore_case(t.as_str(), alias) {
                push_all_outputs(out, subst);
            } else {
                out.push(rc.clone());
                assert(result_columns_view(out@) =~= before + seq![rc@]);
            }
        },
        ResultColumn::Expr { expr, alias: a } => {
            assert(rc@ == ResultColumnView::Expr { expr: expr@, alias: opt_name_view(*a) });
            let name = match a {
                Some(n) => Some(n.clone()),
                None => None,
            };
            assert(opt_name_view(name) == opt_name_view(*a));
            let c = ResultColumn::Expr { expr: subst_expr(expr, alias, subst), alias: name };
            let ghost cv = c@;
            assert(cv == ResultColumnView::Expr {
                expr: substituted(alias@, substs_view(subst@), expr@),
                alias: opt_name_view(*a),
            });
            out.push(c);
            assert(result_columns_view(out@) =~= before + seq![cv]);
        },
    }
}

fn clone_condition(e: &Option<Expr>) -> (r: Option<Expr>)
    ensures
        opt_expr_view(r) == opt_expr_view(*e),
{
    match e {
        Some(x) => Some(x.clone()),
        None => None,
    }
}

fn both_conditions(a: Option<Expr>, b: Option<Expr>) -> (r: Option<Expr>)
    ensures
        opt_expr_view(r) == both(opt_expr_view(a), opt_expr_view(b)),
{
    match (a, b) {
        (Some(x), Some(y)) => {
            let ghost xv = x@;
            let ghost yv = y@;
            let e = Expr::Binary { op: BinaryOp::And, left: Box::new(x), right: Box::new(y) };
            assert(e@ == ExprView::Binary {
                op: BinaryOp::And,
                left: Box::new(xv),
                right: Box::new(yv),
            });
            Some(e)
        },
        (Some(x), None) => Some(x),
        (None, Some(y)) => Some(y),
        (None, None) => None,
    }
}

/// Flatten the subquery that a query reads into the query, if that can be.
pub fn try_flatten_subquery(outer: &SelectStmt) -> (r: Result<Option<SelectStmt>, Error>)
    ensures
        match r {
            Ok(Some(s)) => flattened(outer@) == Some(s@),
            Ok(None) => flattened(outer@) is None,
            Err(_) => false,
        },
{
    let (sub, name) = match restrictions_pass(outer) {
        Some(v) => v,
        None => {
            return Ok(None);
        },
    };
    let alias = name.as_str();
    assert(sub@.columns == result_columns_view(sub.columns@));
    let subst = match build_substitution(&sub.columns) {
        Some(v) => v,
        None => {
            return Ok(None);
        },
    };
    assert(outer@.columns == result_columns_view(outer.columns@));
    assert(outer@.group_by == exprs_view(outer.group_by@));
    assert(outer@.order_by == ordering_terms_view(outer.order_by@));
    assert(sub@.order_by == ordering_terms_view(sub.order_by@));
    assert(sub@.from == from_items_view(sub.from@));
    let copy = sub.clone();
    let mut r = outer.clone();
    r.from = copy.from;
    r.where_clause =
    both_conditions(
        clone_condition(&sub.where_clause),
        subst_opt(&outer.where_clause, alias, &subst),
    );
    r.columns = subst_columns(&outer.columns, alias, &subst);
    r.group_by = subst_list(&outer.group_by, alias, &subst);
    r.having = subst_opt(&outer.having, alias, &subst);
    if outer.order_by.len() == 0 && sub.order_by.len() > 0 {
        r.order_by = copy.order_by;
    } else {
        r.order_by = subst_terms(&outer.order_by, alias, &subst);
    }
    if outer.limit.is_none() && sub.limit.is_some() {
        r.limit = clone_condition(&sub.limit);
        r.offset = clone_condition(&sub.offset);
    }
    assert(r@ == flattened(outer@)->0);
    Ok(Some(r))
}

} // verus!
