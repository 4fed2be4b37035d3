//! Rendering expressions as text: the names of unaliased result columns.
use vstd::prelude::*;
use vstd::string::*;

use crate::ast::{
    exprs_view, function_args_view, BinaryOp, Expr, ExprView, FunctionArgs, FunctionArgsView,
    Literal, LiteralView, UnaryOp,
};
use crate::text::{cat2, cat3, cat4, chars_of, decimal_i64, int_text, owned};

verus! {

/// The first `n` characters of `s` with each quote doubled.
pub open spec fn doubled(s: Seq<char>, n: int) -> Seq<char>
    decreases n,
{
    if n <= 0 || n > s.len() {
        Seq::empty()
    } else if s[n - 1] == '\'' {
        doubled(s, n - 1) + seq!['\'', '\'']
    } else {
        doubled(s, n - 1) + seq![s[n - 1]]
    }
}

fn double_quotes(s: &str) -> (r: String)
    ensures
        r@ == doubled(s@, s@.len() as int),
{
    let cs = chars_of(s);
    let mut out = String::new();
    assert(out@ =~= doubled(cs@, 0));
    for k in 0..cs.len()
        invariant
            out@ == doubled(cs@, k as int),
    {
        let ghost before = out@;
        if cs[k] == '\'' {
            out.push('\'');
            out.push('\'');
            assert(out@ =~= before + seq!['\'', '\'']);
        } else {
            out.push(cs[k]);
            assert(out@ =~= before + seq![cs@[k as int]]);
        }
    }
    out
}

/// The infix form of an operator, with the spaces around it.
pub open spec fn symbol(op: BinaryOp) -> Seq<char> {
    match op {
        BinaryOp::Or => " OR "@,
        BinaryOp::And => " AND "@,
        BinaryOp::Eq => " = "@,
        BinaryOp::Ne => " <> "@,
        BinaryOp::Lt => " < "@,
        BinaryOp::Le => " <= "@,
        BinaryOp::Gt => " > "@,
        BinaryOp::Ge => " >= "@,
        BinaryOp::Add => " + "@,
        BinaryOp::Sub => " - "@,
        BinaryOp::Mul => " * "@,
        BinaryOp::Div => " / "@,
        BinaryOp::Mod => " % "@,
        BinaryOp::Concat => " || "@,
        BinaryOp::Is => " IS "@,
        BinaryOp::IsNot => " IS NOT "@,
        BinaryOp::Like => " LIKE "@,
        BinaryOp::Glob => " GLOB "@,
        BinaryOp::Regexp => " REGEXP "@,
        BinaryOp::Match => " MATCH "@,
        BinaryOp::BitAnd => " & "@,
        BinaryOp::BitOr => " | "@,
        BinaryOp::ShiftLeft => " << "@,
        BinaryOp::ShiftRight => " >> "@,
        BinaryOp::JsonExtract => " -> "@,
        BinaryOp::JsonExtractText => " ->> "@,
    }
}

/// How an operator is written.
pub fn binary_symbol(op: BinaryOp) -> (r: &'static str)
    ensures
        r@ == symbol(op),
{
    match op {
        BinaryOp::Or => " OR ",
        BinaryOp::And => " AND ",
        BinaryOp::Eq => " = ",
        BinaryOp::Ne => " <> ",
        BinaryOp::Lt => " < ",
        BinaryOp::Le => " <= ",
        BinaryOp::Gt => " > ",
        BinaryOp::Ge => " >= ",
        BinaryOp::Add => " + ",
        BinaryOp::Sub => " - ",
        BinaryOp::Mul => " * ",
        BinaryOp::Div => " / ",
        BinaryOp::Mod => " % ",
        BinaryOp::Concat => " || ",
        BinaryOp::Is => " IS ",
        BinaryOp::IsNot => " IS NOT ",
        BinaryOp::Like => " LIKE ",
        BinaryOp::Glob => " GLOB ",
        BinaryOp::Regexp => " REGEXP ",
        BinaryOp::Match => " MATCH ",
        BinaryOp::BitAnd => " & ",
        BinaryOp::BitOr => " | ",
        BinaryOp::ShiftLeft => " << ",
        BinaryOp::ShiftRight => " >> ",
        BinaryOp::JsonExtract => " -> ",
        BinaryOp::JsonExtractText => " ->> ",
    }
}

/// The text of a literal.
pub open spec fn literal_text(lit: LiteralView) -> Seq<char> {
    match lit {
        LiteralView::Null => "NULL"@,
        LiteralView::Integer(n) => int_text(n as int),
        LiteralView::Real(r) => r.text,
        LiteralView::Text(s) => "'"@ + doubled(s, s.len() as int) + "'"@,
        LiteralView::Blob(b) => "x'..'"@,
        LiteralView::Bool(b) => if b {
            "TRUE"@
        } else {
            "FALSE"@
        },
    }
}

/// The prefix form of an operator.
pub open spec fn prefix_symbol(op: UnaryOp) -> Seq<char> {
    match op {
        UnaryOp::Negate => "-"@,
        UnaryOp::Positive => "+"@,
        UnaryOp::Not => "NOT "@,
        UnaryOp::BitNot => "~"@,
    }
}

/// The text of an expression.
pub open spec fn rendered(e: ExprView) -> Seq<char>
    decreases e, 0int,
{
    match e {
        ExprView::Literal(lit) => literal_text(lit),
        ExprView::Column { schema, table, name } => match table {
            Some(t) => t + "."@ + name,
            None => name,
        },
        ExprView::Unary { op, expr } => prefix_symbol(op) + rendered(*expr),
        ExprView::Binary { op, left, right } => rendered(*left) + symbol(op) + rendered(*right),
        ExprView::Function { name, distinct, args, filter, over } => match args {
            FunctionArgsView::Star => name + "("@ + "*"@ + ")"@,
            FunctionArgsView::List(v) => name + "("@ + rendered_list(v, v.len() as int) + ")"@,
        },
        ExprView::BindParam(s) => s,
        ExprView::Between { expr, low, high, negated } => "between"@,
        ExprView::In { expr, values, negated } => "in"@,
        ExprView::InSubquery { expr, subquery, negated } => "in"@,
        ExprView::Exists(_) => "exists"@,
        ExprView::Subquery(_) => "subquery"@,
        ExprView::Cast { expr, ty } => "cast"@,
        ExprView::Case { base, when_then, else_expr } => "case"@,
        ExprView::Collate { expr, collation } => rendered(*expr) + " COLLATE "@ + collation,
        ExprView::IsDistinctFrom { left, right, negated } => "is_distinct"@,
        ExprView::Row(es) => "("@ + rendered_list(es, es.len() as int) + ")"@,
        ExprView::AggRef(r) => "agg#"@ + int_text(r as int),
        ExprView::Coalesce2 { left, right } => "coalesce("@ + rendered(*left) + ", "@ + rendered(
            *right,
        ) + ")"@,
    }
}

/// The first `n` of `es`, separated by commas.
pub open spec fn rendered_list(es: Seq<ExprView>, n: int) -> Seq<char>
    decreases es, n,
{
    if n <= 0 || n > es.len() {
        Seq::empty()
    } else if n == 1 {
        rendered(es[0])
    } else {
        rendered_list(es, n - 1) + ", "@ + rendered(es[n - 1])
    }
}

fn list_to_text(es: &Vec<Expr>) -> (r: String)
    ensures
        r@ == rendered_list(exprs_view(es@), es@.len() as int),
    decreases es, 1int,
{
    let mut out = String::new();
    assert(out@ =~= rendered_list(exprs_view(es@), 0));
    for k in 0..es.len()
        invariant
            out@ == rendered_list(exprs_view(es@), k as int),
    {
        proof {
            assert(exprs_view(es@)[k as int] == es@[k as int]@);
            assert(decreases_to!(*es => es@[k as int]));
        }
        let item = expr_to_text(&es[k]);
        if k == 0 {
            out = item;
        } else {
            out = cat3(out.as_str(), ", ", item.as_str());
        }
    }
    out
}

fn literal_to_text(lit: &Literal) -> (r: String)
    ensures
        r@ == literal_text(lit@),
{
    match lit {
        Literal::Null => owned("NULL"),
        Literal::Integer(n) => decimal_i64(*n),
        Literal::Real(x) => x.text.clone(),
        Literal::Text(s) => cat3("'", double_quotes(s.as_str()).as_str(), "'"),
        Literal::Blob(_) => owned("x'..'"),
        Literal::Bool(b) => if *b {
            owned("TRUE")
        } else {
            owned("FALSE")
        },
    }
}

/// Render an expression in a form close to SQL.
pub fn expr_to_text(e: &Expr) -> (r: String)
    ensures
        r@ == rendered(e@),
    decreases e, 0int,
{
    match e {
        Expr::Literal(lit) => literal_to_text(lit),
        Expr::Column { schema, table, name } => match table {
            Some(t) => cat3(t.as_str(), ".", name.as_str()),
            None => name.clone(),
        },
        Expr::Unary { op, expr } => {
            let s = expr_to_text(expr);
            match op {
                UnaryOp::Negate => cat2("-", s.as_str()),
                UnaryOp::Positive => cat2("+", s.as_str()),
                UnaryOp::Not => cat2("NOT ", s.as_str()),
                UnaryOp::BitNot => cat2("~", s.as_str()),
            }
        },
        Expr::Binary { op, left, right } => {
            let l = expr_to_text(left);
            let r = expr_to_text(right);
            cat3(l.as_str(), binary_symbol(*op), r.as_str())
        },
        Expr::Function { name, distinct, args, filter, over } => match args {
            FunctionArgs::Star => {
                assert(function_args_view(*args) == FunctionArgsView::Star);
                cat4(name.as_str(), "(", "*", ")")
            },
            FunctionArgs::List(v) => {
                assert(function_args_view(*args) == FunctionArgsView::List(exprs_view(v@)));
                let inner = list_to_text(v);
                cat4(name.as_str(), "(", inner.as_str(), ")")
            },
        },
        Expr::BindParam(s) => s.clone(),
        Expr::Between { expr, low, high, negated } => owned("between"),
        Expr::In { expr, values, negated } => owned("in"),
        Expr::InSubquery { expr, subquery, negated } => owned("in"),
        Expr::Exists(_) => owned("exists"),
        Expr::Subquery(_) => owned("subquery"),
        Expr::Cast { expr, ty } => owned("cast"),
        Expr::Case { base, when_then, else_expr } => owned("case"),
        Expr::Collate { expr, collation } => {
            let s = expr_to_text(expr);
            cat3(s.as_str(), " COLLATE ", collation.as_str())
        },
        Expr::IsDistinctFrom { left, right, negated } => owned("is_distinct"),
        Expr::Row(es) => {
            let inner = list_to_text(es);
            cat3("(", inner.as_str(), ")")
        },
        Expr::AggRef(r) => cat2("agg#", decimal_i64(*r as i64).as_str()),
        Expr::Coalesce2 { left, right } => {
            let l = expr_to_text(left);
            let r = expr_to_text(right);
            let head = cat4("coalesce(", l.as_str(), ", ", r.as_str());
            cat2(head.as_str(), ")")
        },
    }
}

/// The name of an unaliased result column.
#[verifier::opaque]
pub open spec fn column_title(e: ExprView) -> Seq<char> {
    match e {
        ExprView::Column { schema, table, name } => name,
        _ => rendered(e),
    }
}

/// The name of an unaliased result column: that of the column it is, or the text of the
/// expression.
pub fn default_col_name(e: &Expr) -> (r: String)
    ensures
        r@ == column_title(e@),
{
    reveal(column_title);
    match e {
        Expr::Column { schema, table, name } => name.clone(),
        other => expr_to_text(other),
    }
}

} // verus!
