//! Result columns, `ORDER BY` terms, and the constants of `LIMIT` and `OFFSET`.
use vstd::prelude::*;

use crate::ast::{
    expr_rows_view, exprs_view, opt_name_view, result_columns_view, Expr, ExprView, Literal,
    LiteralView, OrderingTerm, ResultColumn, ResultColumnView, SelectStmt, SelectStmtView, UnaryOp,
};
use crate::render::{column_title, default_col_name};
use crate::rewrite::{qualified, qualified_col};
use crate::schema::{Table, TableView};
use crate::text::{cat2, decimal_u64, eq_ignore_case, eq_nocase, int_text, owned, Error};

verus! {

/// An output column: the expression, and the name it is shown under.
pub type Output = (Expr, String);

/// The mathematical values of some outputs.
pub open spec fn outputs_view(s: Seq<Output>) -> Seq<(ExprView, Seq<char>)> {
    Seq::new(s.len(), |i: int| (s[i].0@, s[i].1@))
}

/// The expressions of the output columns.
pub open spec fn exprs_of(outputs: Seq<(ExprView, Seq<char>)>) -> Seq<ExprView> {
    Seq::new(outputs.len(), |i: int| outputs[i].0)
}

/// The names of the output columns.
pub open spec fn titles_of(outputs: Seq<(ExprView, Seq<char>)>) -> Seq<Seq<char>> {
    Seq::new(outputs.len(), |i: int| outputs[i].1)
}

/// A bare column.
pub open spec fn bare(name: Seq<char>) -> ExprView {
    ExprView::Column { schema: None, table: None, name }
}

/// All columns of a table, unqualified.
pub open spec fn table_outputs(t: TableView) -> Seq<(ExprView, Seq<char>)> {
    Seq::new(t.columns.len(), |i: int| (bare(t.columns[i].name), t.columns[i].name))
}

/// All columns of a table, qualified by `q`.
pub open spec fn qualified_outputs(t: TableView, q: Seq<char>) -> Seq<(ExprView, Seq<char>)> {
    Seq::new(t.columns.len(), |i: int| (qualified(q, t.columns[i].name), t.columns[i].name))
}

/// The output of one result column that is an expression.
pub open spec fn expr_output(expr: ExprView, alias: Option<Seq<char>>) -> (ExprView, Seq<char>) {
    (
        expr,
        match alias {
            Some(a) => a,
            None => column_title(expr),
        },
    )
}

/// The outputs `out`, then those of the result columns from `k` on.
pub open spec fn expanded_from(
    out: Seq<(ExprView, Seq<char>)>,
    cols: Seq<ResultColumnView>,
    table: Option<TableView>,
    k: int,
) -> Result<Seq<(ExprView, Seq<char>)>, Seq<char>>
    decreases cols.len() - k,
{
    if k < 0 || k >= cols.len() {
        if out.len() == 0 {
            Err("no result columns"@)
        } else {
            Ok(out)
        }
    } else {
        match cols[k] {
            ResultColumnView::Expr { expr, alias } => expanded_from(
                out.push(expr_output(expr, alias)),
                cols,
                table,
                k + 1,
            ),
            _ => match table {
                None => Err("no tables specified"@),
                Some(t) => expanded_from(out + table_outputs(t), cols, table, k + 1),
            },
        }
    }
}

/// The output columns of a `SELECT` over at most one table. The columns of a `VALUES` body are
/// called `column1`, `column2` and so on.
#[verifier::opaque]
pub open spec fn expansion(select: SelectStmtView, table: Option<TableView>) -> Result<
    Seq<(ExprView, Seq<char>)>,
    Seq<char>,
> {
    if select.values.len() > 0 {
        Ok(
            Seq::new(
                select.values[0].len(),
                |i: int| (select.values[0][i], "column"@ + int_text(i + 1)),
            ),
        )
    } else {
        expanded_from(Seq::empty(), select.columns, table, 0)
    }
}

/// An outcome that is a list of output columns.
pub open spec fn gives_outputs(
    r: Result<Vec<Output>, Error>,
    want: Result<Seq<(ExprView, Seq<char>)>, Seq<char>>,
) -> bool {
    match r {
        Ok(v) => want == Ok::<Seq<(ExprView, Seq<char>)>, Seq<char>>(outputs_view(v@)),
        Err(e) => want == Err::<Seq<(ExprView, Seq<char>)>, Seq<char>>(e@),
    }
}

/// A reference to a column by its bare name.
pub fn column_expr(name: &str) -> (r: Expr)
    ensures
        r@ == bare(name@),
{
    Expr::Column { schema: None, table: None, name: owned(name) }
}

/// Append every stored column of a table to the outputs.
pub fn push_table(out: &mut Vec<Output>, t: &Table)
    ensures
        outputs_view(final(out)@) == outputs_view(old(out)@) + table_outputs(t@),
{
    for i in 0..t.columns.len()
        invariant
            outputs_view(out@) == outputs_view(old(out)@) + table_outputs(t@).take(i as int),
    {
        let ghost before = outputs_view(out@);
        assert(t@.columns[i as int].name == t.columns@[i as int].name@);
        let e = column_expr(t.columns[i].name.as_str());
        let n = t.columns[i].name.clone();
        out.push((e, n));
        assert(outputs_view(out@) =~= before.push((e@, n@)));
        assert(table_outputs(t@).take(i + 1) =~= table_outputs(t@).take(i as int).push((e@, n@)));
    }
    assert(table_outputs(t@).take(t.columns@.len() as int) =~= table_outputs(t@));
}

fn push_qualified(out: &mut Vec<Output>, t: &Table, q: &str)
    ensures
        outputs_view(final(out)@) == outputs_view(old(out)@) + qualified_outputs(t@, q@),
{
    let ghost all = qualified_outputs(t@, q@);
    for i in 0..t.columns.len()
        invariant
            all == qualified_outputs(t@, q@),
            outputs_view(out@) == outputs_view(old(out)@) + all.take(i as int),
    {
        let ghost before = outputs_view(out@);
        assert(t@.columns[i as int].name == t.columns@[i as int].name@);
        let e = qualified_col(q, t.columns[i].name.as_str());
        let n = t.columns[i].name.clone();
        out.push((e, n));
        assert(outputs_view(out@) =~= before.push((e@, n@)));
        assert(all.take(i + 1) =~= all.take(i as int).push((e@, n@)));
    }
    assert(all.take(t.columns@.len() as int) =~= all);
}

fn push_expr(out: &mut Vec<Output>, expr: &Expr, alias: &Option<String>)
    ensures
        outputs_view(final(out)@) == outputs_view(old(out)@).push(
            expr_output(expr@, opt_name_view(*alias)),
        ),
{
    let name = match alias {
        Some(a) => a.clone(),
        None => default_col_name(expr),
    };
    let e = expr.clone();
    let ghost before = outputs_view(out@);
    out.push((e, name));
    assert(outputs_view(out@) =~= before.push((e@, name@)));
}

/// Expand `*` and `table.*`, and name every output column.
pub fn expand_columns(select: &SelectStmt, table: Option<&Table>) -> (r: Result<
    Vec<Output>,
    Error,
>)
    ensures
        gives_outputs(
            r,
            expansion(select@, opt_table_view(table)),
        ),
{
    reveal(expansion);
    let mut out: Vec<Output> = Vec::new();
    assert(outputs_view(out@) =~= Seq::empty());
    if select.values.len() > 0 {
        let ghost all = expansion(select@, None)->Ok_0;
        assert(select@.values == expr_rows_view(select.values@));
        assert(select@.values[0] == exprs_view(select.values@[0]@));
        assert(all.take(0) =~= Seq::empty());
        let row = &select.values[0];
        for i in 0..row.len()
            invariant
                select.values@.len() > 0,
                *row == select.values@[0],
                select@.values[0] == exprs_view(select.values@[0]@),
                all == Seq::new(
                    select@.values[0].len(),
                    |i: int| (select@.values[0][i], "column"@ + int_text(i + 1)),
                ),
                outputs_view(out@) == all.take(i as int),
        {
            let ghost before = outputs_view(out@);
            assert(select@.values[0][i as int] == select.values@[0]@[i as int]@);
            let e = row[i].clone();
            let n = cat2("column", decimal_u64(i as u64 + 1).as_str());
            out.push((e, n));
            assert(outputs_view(out@) =~= before.push((e@, n@)));
            assert(all.take(i + 1) =~= all.take(i as int).push(all[i as int]));
        }
        assert(all.take(all.len() as int) =~= all);
        return Ok(out);
    }
    assert(select@.columns == result_columns_view(select.columns@));
    expand_list(&select.columns, table)
}

/// The mathematical value of an optional table.
pub open spec fn opt_table_view(table: Option<&Table>) -> Option<TableView> {
    match table {
        Some(t) => Some(t@),
        None => None,
    }
}

fn expand_list(columns: &Vec<ResultColumn>, table: Option<&Table>) -> (r: Result<
    Vec<Output>,
    Error,
>)
    ensures
        gives_outputs(
            r,
            expanded_from(
                Seq::empty(),
                result_columns_view(columns@),
                opt_table_view(table),
                0,
            ),
        ),
{
    let mut out: Vec<Output> = Vec::new();
    assert(outputs_view(out@) =~= Seq::empty());
    let ghost tv = opt_table_view(table);
    let ghost cols = result_columns_view(columns@);
    let ghost want = expanded_from(Seq::empty(), cols, tv, 0);
    for k in 0..columns.len()
        invariant
            cols == result_columns_view(columns@),
            tv == opt_table_view(table),
            want == expanded_from(Seq::empty(), cols, tv, 0),
            expanded_from(outputs_view(out@), cols, tv, k as int) == want,
    {
        assert(cols[k as int] == columns@[k as int]@);
        match &columns[k] {
            ResultColumn::Expr { expr, alias } => {
                push_expr(&mut out, expr, alias);
            },
            _ => {
                match table {
                    Some(t) => {
                        push_table(&mut out, t);
                    },
                    None => {
                        return Err(Error::lit("no tables specified"));
                    },
                }
            },
        }
    }
    if out.len() == 0 {
        return Err(Error::lit("no result columns"));
    }
    Ok(out)
}

// ---- Several tables ----

/// A table in a `FROM` clause and the name that qualifies its columns.
pub open spec fn named_tables_view(s: Seq<(&Table, &str)>) -> Seq<(TableView, Seq<char>)> {
    Seq::new(s.len(), |i: int| (s[i].0@, s[i].1@))
}

/// All columns of the first `n` tables, in order.
pub open spec fn all_outputs(tables: Seq<(TableView, Seq<char>)>, n: int) -> Seq<
    (ExprView, Seq<char>),
>
    decreases n,
{
    if n <= 0 || n > tables.len() {
        Seq::empty()
    } else {
        all_outputs(tables, n - 1) + qualified_outputs(tables[n - 1].0, tables[n - 1].1)
    }
}

/// The first table from `i` on that is called `name`.
pub open spec fn table_from(tables: Seq<(TableView, Seq<char>)>, name: Seq<char>, i: int) -> Option<
    int,
>
    decreases tables.len() - i,
{
    if i < 0 || i >= tables.len() {
        None
    } else if eq_nocase(tables[i].1, name) {
        Some(i)
    } else {
        table_from(tables, name, i + 1)
    }
}

/// The outputs `out`, then those of the result columns from `k` on.
pub open spec fn join_expanded_from(
    out: Seq<(ExprView, Seq<char>)>,
    cols: Seq<ResultColumnView>,
    tables: Seq<(TableView, Seq<char>)>,
    k: int,
) -> Result<Seq<(ExprView, Seq<char>)>, Seq<char>>
    decreases cols.len() - k,
{
    if k < 0 || k >= cols.len() {
        if out.len() == 0 {
            Err("no result columns"@)
        } else {
            Ok(out)
        }
    } else {
        match cols[k] {
            ResultColumnView::Star => join_expanded_from(
                out + all_outputs(tables, tables.len() as int),
                cols,
                tables,
                k + 1,
            ),
            ResultColumnView::TableStar(q) => match table_from(tables, q, 0) {
                None => Err("no such table: "@ + q),
                Some(i) => join_expanded_from(
                    out + qualified_outputs(tables[i].0, tables[i].1),
                    cols,
                    tables,
                    k + 1,
                ),
            },
            ResultColumnView::Expr { expr, alias } => join_expanded_from(
                out.push(expr_output(expr, alias)),
                cols,
                tables,
                k + 1,
            ),
        }
    }
}

fn find_table(tables: &[(&Table, &str)], name: &str) -> (r: Option<usize>)
    ensures
        match r {
            Some(i) => i < tables@.len() && table_from(named_tables_view(tables@), name@, 0)
                == Some(i as int),
            None => table_from(named_tables_view(tables@), name@, 0) is None,
        },
{
    for i in 0..tables.len()
        invariant
            table_from(named_tables_view(tables@), name@, 0) == table_from(
                named_tables_view(tables@),
                name@,
                i as int,
            ),
    {
        assert(named_tables_view(tables@)[i as int] == (tables@[i as int].0@, tables@[i as int].1@));
        if eq_ignore_case(tables[i].1, name) {
            return Some(i);
        }
    }
    None
}

/// Expand `*` and `table.*` over several tables, and name every output column. The columns that
/// come out of a `*` are qualified by their table.
pub fn expand_columns_with_tables(select: &SelectStmt, tables: &[(&Table, &str)]) -> (r: Result<
    Vec<Output>,
    Error,
>)
    ensures
        gives_outputs(
            r,
            join_expanded_from(Seq::empty(), select@.columns, named_tables_view(tables@), 0),
        ),
{
    let mut out: Vec<Output> = Vec::new();
    assert(outputs_view(out@) =~= Seq::empty());
    let ghost tv = named_tables_view(tables@);
    let ghost want = join_expanded_from(Seq::empty(), select@.columns, tv, 0);
    assert(select@.columns == result_columns_view(select.columns@));
    for k in 0..select.columns.len()
        invariant
            select@.columns == result_columns_view(select.columns@),
            tv == named_tables_view(tables@),
            want == join_expanded_from(Seq::empty(), select@.columns, tv, 0),
            join_expanded_from(outputs_view(out@), select@.columns, tv, k as int) == want,
    {
        assert(select@.columns[k as int] == select.columns@[k as int]@);
        match &select.columns[k] {
            ResultColumn::Star => {
                let ghost before = outputs_view(out@);
                assert(before + all_outputs(tv, 0) =~= before);
                for i in 0..tables.len()
                    invariant
                        tv == named_tables_view(tables@),
                        outputs_view(out@) == before + all_outputs(tv, i as int),
                {
                    assert(tv[i as int] == (tables@[i as int].0@, tables@[i as int].1@));
                    push_qualified(&mut out, tables[i].0, tables[i].1);
                    assert(outputs_view(out@) =~= before + all_outputs(tv, i + 1));
                }
            },
            ResultColumn::TableStar(q) => {
                match find_table(tables, q.as_str()) {
                    Some(i) => {
                        assert(tv[i as int] == (tables@[i as int].0@, tables@[i as int].1@));
                        push_qualified(&mut out, tables[i].0, tables[i].1);
                    },
                    None => {
                        return Err(Error::msg(cat2("no such table: ", q.as_str())));
                    },
                }
            },
            ResultColumn::Expr { expr, alias } => {
                push_expr(&mut out, expr, alias);
            },
        }
    }
    if out.len() == 0 {
        return Err(Error::lit("no result columns"));
    }
    Ok(out)
}

// ---- ORDER BY, LIMIT and OFFSET ----

/// The expression of the first output from `i` on that is called `name`.
pub open spec fn titled_from(outputs: Seq<(ExprView, Seq<char>)>, name: Seq<char>, i: int) -> Option<
    ExprView,
>
    decreases outputs.len() - i,
{
    if i < 0 || i >= outputs.len() {
        None
    } else if eq_nocase(outputs[i].1, name) {
        Some(outputs[i].0)
    } else {
        titled_from(outputs, name, i + 1)
    }
}

/// What an `ORDER BY` term sorts by: a number selects that output column, a bare name that is
/// the name of an output column selects it, and anything else stands for itself.
#[verifier::opaque]
pub open spec fn order_expr(term: ExprView, outputs: Seq<(ExprView, Seq<char>)>) -> Result<
    ExprView,
    Seq<char>,
> {
    match term {
        ExprView::Literal(LiteralView::Integer(n)) => if 1 <= n <= outputs.len() {
            Ok(outputs[n - 1].0)
        } else {
            Err(
                "ORDER BY term out of range - should be between 1 and "@ + int_text(
                    outputs.len() as int,
                ),
            )
        },
        ExprView::Column { schema, table: None, name } => match titled_from(outputs, name, 0) {
            Some(e) => Ok(e),
            None => Ok(term),
        },
        _ => Ok(term),
    }
}

/// Resolve an `ORDER BY` term.
pub fn resolve_order_term(term: &OrderingTerm, outputs: &Vec<Output>) -> (r: Result<Expr, Error>)
    ensures
        match r {
            Ok(e) => order_expr(term.expr@, outputs_view(outputs@)) == Ok::<ExprView, Seq<char>>(e@),
            Err(m) => order_expr(term.expr@, outputs_view(outputs@)) == Err::<ExprView, Seq<char>>(
                m@,
            ),
        },
{
    reveal(order_expr);
    if let Expr::Literal(Literal::Integer(n)) = &term.expr {
        let idx: i64 = *n;
        if idx >= 1 && idx as u64 <= outputs.len() as u64 {
            assert(outputs_view(outputs@)[idx - 1] == (
                outputs@[idx - 1].0@,
                outputs@[idx - 1].1@,
            ));
            return Ok(outputs[(idx - 1) as usize].0.clone());
        }
        return Err(
            Error::msg(
                cat2(
                    "ORDER BY term out of range - should be between 1 and ",
                    decimal_u64(outputs.len() as u64).as_str(),
                ),
            ),
        );
    }
    if let Expr::Column { schema, table: None, name } = &term.expr {
        for i in 0..outputs.len()
            invariant
                titled_from(outputs_view(outputs@), name@, 0) == titled_from(
                    outputs_view(outputs@),
                    name@,
                    i as int,
                ),
                term.expr@ == (ExprView::Column {
                    schema: opt_name_view(*schema),
                    table: None,
                    name: name@,
                }),
        {
            reveal(order_expr);
            assert(outputs_view(outputs@)[i as int] == (
                outputs@[i as int].0@,
                outputs@[i as int].1@,
            ));
            if eq_ignore_case(outputs[i].1.as_str(), name.as_str()) {
                return Ok(outputs[i].0.clone());
            }
        }
    }
    Ok(term.expr.clone())
}

/// The value of an integer literal, possibly signed.
pub open spec fn constant(e: ExprView) -> Option<i64>
    decreases e,
{
    match e {
        ExprView::Literal(LiteralView::Integer(n)) => Some(n),
        ExprView::Unary { op, expr } => match op {
            UnaryOp::Negate => match constant(*expr) {
                Some(n) => Some(
                    if n == i64::MIN {
                        n
                    } else {
                        (-n) as i64
                    },
                ),
                None => None,
            },
            UnaryOp::Positive => constant(*expr),
            _ => None,
        },
        _ => None,
    }
}

/// The integer that an expression spells, if it is an integer literal, with signs before it or not.
pub fn const_int(e: &Expr) -> (r: Option<i64>)
    ensures
        r == constant(e@),
    decreases e,
{
    match e {
        Expr::Literal(Literal::Integer(n)) => Some(*n),
        Expr::Unary { op, expr } => match op {
            UnaryOp::Negate => match const_int(expr) {
                Some(n) => if n == i64::MIN {
                    Some(n)
                } else {
                    Some(-n)
                },
                None => None,
            },
            UnaryOp::Positive => const_int(expr),
            _ => None,
        },
        _ => None,
    }
}

/// The row limit, if there is one, and the number of rows to skip. A negative limit is none, and
/// a negative offset is zero.
#[verifier::opaque]
pub open spec fn limits(limit: Option<ExprView>, offset: Option<ExprView>) -> Result<
    (Option<i64>, i64),
    Seq<char>,
> {
    if limit matches Some(e) && constant(e) is None {
        Err("only integer-literal LIMIT is supported in M3a"@)
    } else if offset matches Some(e) && constant(e) is None {
        Err("only integer-literal OFFSET is supported in M3a"@)
    } else {
        let l = match limit {
            None => None,
            Some(e) => if constant(e)->0 >= 0 {
                Some(constant(e)->0)
            } else {
                None
            },
        };
        let o = match offset {
            None => 0i64,
            Some(e) => if constant(e)->0 >= 0 {
                constant(e)->0
            } else {
                0
            },
        };
        Ok((l, o))
    }
}

/// Evaluate the `LIMIT` and `OFFSET` of a `SELECT`.
pub fn eval_limit_offset(select: &SelectStmt) -> (r: Result<(Option<i64>, i64), Error>)
    ensures
        match r {
            Ok(v) => limits(select@.limit, select@.offset) == Ok::<(Option<i64>, i64), Seq<char>>(v),
            Err(m) => limits(select@.limit, select@.offset) == Err::<
                (Option<i64>, i64),
                Seq<char>,
            >(m@),
        },
{
    reveal(limits);
    let limit: Option<i64> = match &select.limit {
        None => None,
        Some(e) => match const_int(e) {
            None => {
                return Err(Error::lit("only integer-literal LIMIT is supported in M3a"));
            },
            Some(n) => if n >= 0 {
                Some(n)
            } else {
                None
            },
        },
    };
    let offset: i64 = match &select.offset {
        None => 0,
        Some(e) => match const_int(e) {
            None => {
                return Err(Error::lit("only integer-literal OFFSET is supported in M3a"));
            },
            Some(n) => if n >= 0 {
                n
            } else {
                0
            },
        },
    };
    Ok((limit, offset))
}

} // verus!
