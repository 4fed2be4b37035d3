//! `SELECT` over at most one table: the checks, and which kind of program it becomes.
use vstd::prelude::*;

use crate::aggregate::{compile_aggregate, gen_aggregate};
use crate::ast::{
    expr_rows_view, exprs_view, names_view, opt_expr_view, ordering_terms_view, Expr, ExprView,
    OrderingTerm, OrderingTermView, SelectStmt, SelectStmtView,
};
use crate::builder::Asm;
use crate::columns::{
    eval_limit_offset, expand_columns, expansion, limits, opt_table_view, outputs_view, titles_of,
    Output,
};
use crate::emit::built;
use crate::index_planner::{chosen_plan, pick_index};
use crate::indexed::{compile_indexed_select, gen_indexed};
use crate::scan::{
    compile_constant, compile_scan, compile_values, gen_constant, gen_scan, gen_values,
};
use crate::schema::{
    indexes_view, Functions, FunctionsView, IndexObject, IndexView, Table, TableView,
};
use crate::text::Error;
use crate::vdbe::Program;
use crate::walk::{check_no_window_only_without_over, misused, occurs, Sought};

verus! {

// ---- Checks ----

/// What is sought occurs in one of the outputs from `k` on.
pub open spec fn occurs_in_outputs(
    what: Sought,
    f: FunctionsView,
    outputs: Seq<(ExprView, Seq<char>)>,
    k: int,
) -> bool
    decreases outputs.len() - k,
{
    0 <= k < outputs.len() && (occurs(what, f, outputs[k].0) || occurs_in_outputs(
        what,
        f,
        outputs,
        k + 1,
    ))
}

/// What is sought occurs in one of the terms from `k` on.
pub open spec fn occurs_in_terms(
    what: Sought,
    f: FunctionsView,
    terms: Seq<OrderingTermView>,
    k: int,
) -> bool
    decreases terms.len() - k,
{
    0 <= k < terms.len() && (occurs(what, f, terms[k].expr) || occurs_in_terms(
        what,
        f,
        terms,
        k + 1,
    ))
}

/// What is sought occurs in one of the group keys from `k` on.
pub open spec fn occurs_in_keys(what: Sought, f: FunctionsView, keys: Seq<ExprView>, k: int) -> bool
    decreases keys.len() - k,
{
    0 <= k < keys.len() && (occurs(what, f, keys[k]) || occurs_in_keys(what, f, keys, k + 1))
}

/// What is sought occurs in an optional expression.
pub open spec fn occurs_in_opt(what: Sought, f: FunctionsView, e: Option<ExprView>) -> bool {
    match e {
        None => false,
        Some(x) => occurs(what, f, x),
    }
}

/// The query has a `GROUP BY` clause, or an aggregate among its outputs.
#[verifier::opaque]
pub open spec fn aggregates(
    group_by: Seq<ExprView>,
    outputs: Seq<(ExprView, Seq<char>)>,
    f: FunctionsView,
) -> bool {
    group_by.len() > 0 || occurs_in_outputs(Sought::Aggregate, f, outputs, 0)
}

/// The query calls a function with an `OVER` clause.
#[verifier::opaque]
pub open spec fn has_windows(
    select: SelectStmtView,
    outputs: Seq<(ExprView, Seq<char>)>,
    f: FunctionsView,
) -> bool {
    ||| occurs_in_outputs(Sought::Windowed, f, outputs, 0)
    ||| occurs_in_opt(Sought::Windowed, f, select.where_clause)
    ||| occurs_in_keys(Sought::Windowed, f, select.group_by, 0)
    ||| occurs_in_opt(Sought::Windowed, f, select.having)
    ||| occurs_in_terms(Sought::Windowed, f, select.order_by, 0)
}

/// The first misuse of a window-only function among the outputs from `k` on.
pub open spec fn misused_output(
    f: FunctionsView,
    outputs: Seq<(ExprView, Seq<char>)>,
    k: int,
) -> Option<Seq<char>>
    decreases outputs.len() - k,
{
    if k < 0 || k >= outputs.len() {
        None
    } else {
        match misused(f, outputs[k].0) {
            Some(m) => Some(m),
            None => misused_output(f, outputs, k + 1),
        }
    }
}

fn any_output(what: Sought, functions: &Functions, outputs: &Vec<Output>) -> (r: bool)
    ensures
        r == occurs_in_outputs(what, functions@, outputs_view(outputs@), 0),
{
    let ghost os = outputs_view(outputs@);
    for k in 0..outputs.len()
        invariant
            os == outputs_view(outputs@),
            occurs_in_outputs(what, functions@, os, 0) == occurs_in_outputs(
                what,
                functions@,
                os,
                k as int,
            ),
    {
        assert(os[k as int] == (outputs@[k as int].0@, outputs@[k as int].1@));
        if crate::walk::contains(&outputs[k].0, what, functions) {
            return true;
        }
    }
    false
}

fn any_term(what: Sought, functions: &Functions, terms: &Vec<OrderingTerm>) -> (r: bool)
    ensures
        r == occurs_in_terms(what, functions@, ordering_terms_view(terms@), 0),
{
    let ghost ts = ordering_terms_view(terms@);
    for k in 0..terms.len()
        invariant
            ts == ordering_terms_view(terms@),
            occurs_in_terms(what, functions@, ts, 0) == occurs_in_terms(
                what,
                functions@,
                ts,
                k as int,
            ),
    {
        assert(ts[k as int] == terms@[k as int]@);
        if crate::walk::contains(&terms[k].expr, what, functions) {
            return true;
        }
    }
    false
}

fn any_key(what: Sought, functions: &Functions, keys: &Vec<Expr>) -> (r: bool)
    ensures
        r == occurs_in_keys(what, functions@, exprs_view(keys@), 0),
{
    let ghost ks = exprs_view(keys@);
    for k in 0..keys.len()
        invariant
            ks == exprs_view(keys@),
            occurs_in_keys(what, functions@, ks, 0) == occurs_in_keys(
                what,
                functions@,
                ks,
                k as int,
            ),
    {
        assert(ks[k as int] == keys@[k as int]@);
        if crate::walk::contains(&keys[k], what, functions) {
            return true;
        }
    }
    false
}

fn any_opt(what: Sought, functions: &Functions, e: &Option<Expr>) -> (r: bool)
    ensures
        r == occurs_in_opt(what, functions@, opt_expr_view(*e)),
{
    match e {
        None => false,
        Some(x) => crate::walk::contains(x, what, functions),
    }
}

/// Whether the query has a `GROUP BY` clause, or an aggregate among its outputs.
pub fn is_aggregate_query(select: &SelectStmt, outputs: &Vec<Output>, functions: &Functions) -> (r:
    bool)
    ensures
        r == aggregates(select@.group_by, outputs_view(outputs@), functions@),
{
    reveal(aggregates);
    select.group_by.len() > 0 || any_output(Sought::Aggregate, functions, outputs)
}

/// Whether the query calls a function with an `OVER` clause.
pub fn has_window_function_query(
    select: &SelectStmt,
    outputs: &Vec<Output>,
    functions: &Functions,
) -> (r: bool)
    ensures
        r == has_windows(select@, outputs_view(outputs@), functions@),
{
    reveal(has_windows);
    any_output(Sought::Windowed, functions, outputs) || any_opt(
        Sought::Windowed,
        functions,
        &select.where_clause,
    ) || any_key(Sought::Windowed, functions, &select.group_by) || any_opt(Sought::Windowed, functions, &select.having) || any_term(
        Sought::Windowed,
        functions,
        &select.order_by,
    )
}

fn check_outputs(outputs: &Vec<Output>, functions: &Functions) -> (r: Result<(), Error>)
    ensures
        match r {
            Ok(_) => misused_output(functions@, outputs_view(outputs@), 0) is None,
            Err(m) => misused_output(functions@, outputs_view(outputs@), 0) == Some(m@),
        },
{
    let ghost os = outputs_view(outputs@);
    for k in 0..outputs.len()
        invariant
            os == outputs_view(outputs@),
            misused_output(functions@, os, 0) == misused_output(functions@, os, k as int),
    {
        assert(os[k as int] == (outputs@[k as int].0@, outputs@[k as int].1@));
        if let Err(err) = check_no_window_only_without_over(&outputs[k].0, functions) {
            return Err(err);
        }
    }
    Ok(())
}

/// Why a `SELECT` is refused before its columns are looked at.
pub open spec fn unsupported(select: SelectStmtView) -> Option<Seq<char>> {
    if select.compound.len() > 0 {
        Some("compound SELECT (UNION/INTERSECT/EXCEPT) is not supported by the executor yet"@)
    } else if select.distinct && select.order_by.len() > 0 {
        Some("DISTINCT with ORDER BY is not supported yet (M6.8)"@)
    } else {
        None
    }
}

/// Refuse what is out of scope.
pub fn reject_unsupported(select: &SelectStmt) -> (r: Result<(), Error>)
    ensures
        match r {
            Ok(_) => unsupported(select@) is None,
            Err(m) => unsupported(select@) == Some(m@),
        },
{
    if select.compound.len() > 0 {
        return Err(
            Error::lit(
                "compound SELECT (UNION/INTERSECT/EXCEPT) is not supported by the executor yet",
            ),
        );
    }
    if select.distinct && select.order_by.len() > 0 {
        return Err(Error::lit("DISTINCT with ORDER BY is not supported yet (M6.8)"));
    }
    Ok(())
}

/// Why a `SELECT` with these outputs is refused.
#[verifier::opaque]
pub open spec fn refused(
    select: SelectStmtView,
    outputs: Seq<(ExprView, Seq<char>)>,
    f: FunctionsView,
) -> Option<Seq<char>> {
    if select.having is Some && !aggregates(select.group_by, outputs, f) {
        Some("HAVING clause on a non-aggregate query"@)
    } else if has_windows(select, outputs, f) {
        Some("window functions are not yet supported (M11.7: codegen driver pending)"@)
    } else {
        misused_output(f, outputs, 0)
    }
}

fn check_select(select: &SelectStmt, outputs: &Vec<Output>, functions: &Functions) -> (r: Result<
    (),
    Error,
>)
    ensures
        match r {
            Ok(_) => refused(select@, outputs_view(outputs@), functions@) is None,
            Err(m) => refused(select@, outputs_view(outputs@), functions@) == Some(m@),
        },
{
    reveal(refused);
    if select.having.is_some() && !is_aggregate_query(select, outputs, functions) {
        return Err(Error::lit("HAVING clause on a non-aggregate query"));
    }
    if has_window_function_query(select, outputs, functions) {
        return Err(
            Error::lit("window functions are not yet supported (M11.7: codegen driver pending)"),
        );
    }
    check_outputs(outputs, functions)
}

// ---- The program ----

/// The program of a `SELECT` over one table: an aggregate query, the scan of an index, or the
/// scan of the table.
#[verifier::opaque]
pub open spec fn gen_over_table(
    select: SelectStmtView,
    t: TableView,
    indexes: Seq<IndexView>,
    outputs: Seq<(ExprView, Seq<char>)>,
    limit: Option<i64>,
    offset: i64,
    f: FunctionsView,
) -> Asm {
    if aggregates(select.group_by, outputs, f) {
        gen_aggregate(select, t, outputs, limit, offset, f)
    } else {
        match chosen_plan(select, t, indexes, None, false) {
            Ok(Some(plan)) => gen_indexed(select, t, plan, outputs, limit, offset, f),
            _ => gen_scan(select, t, outputs, limit, offset, f),
        }
    }
}

/// The program of a `SELECT` that is not compound, or why there is none.
#[verifier::opaque]
pub open spec fn gen_select(
    select: SelectStmtView,
    table: Option<TableView>,
    indexes: Seq<IndexView>,
    f: FunctionsView,
) -> Asm {
    match unsupported(select) {
        Some(m) => Asm::start().fail(m),
        None => match expansion(select, table) {
            Err(m) => Asm::start().fail(m),
            Ok(outputs) => match refused(select, outputs, f) {
                Some(m) => Asm::start().fail(m),
                None => match limits(select.limit, select.offset) {
                    Err(m) => Asm::start().fail(m),
                    Ok((limit, offset)) => if select.values.len() > 0 {
                        gen_values(select, outputs, limit, offset, f)
                    } else {
                        match table {
                            Some(t) => gen_over_table(
                                select,
                                t,
                                indexes,
                                outputs,
                                limit,
                                offset,
                                f,
                            ),
                            None => gen_constant(select, outputs, limit, offset, f),
                        }
                    },
                },
            },
        },
    }
}

fn compile_over_table(
    select: &SelectStmt,
    t: &Table,
    indexes: &[IndexObject],
    outputs: &Vec<Output>,
    limit: Option<i64>,
    offset: i64,
    functions: &Functions,
) -> (r: Result<Program, Error>)
    requires
        t@.wf(),
    ensures
        built(
            r,
            gen_over_table(
                select@,
                t@,
                indexes_view(indexes@),
                outputs_view(outputs@),
                limit,
                offset,
                functions@,
            ),
        ),
{
    reveal(gen_over_table);
    if is_aggregate_query(select, outputs, functions) {
        return compile_aggregate(select, t, outputs, limit, offset, functions);
    }
    match pick_index(select, t, indexes, None, false) {
        Ok(Some(plan)) => compile_indexed_select(
            select,
            t,
            &plan,
            outputs,
            limit,
            offset,
            functions,
        ),
        _ => compile_scan(select, t, outputs, limit, offset, functions),
    }
}

/// The names of the output columns.
pub fn output_names(outputs: &Vec<Output>) -> (r: Vec<String>)
    ensures
        names_view(r@) == titles_of(outputs_view(outputs@)),
{
    let ghost want = titles_of(outputs_view(outputs@));
    let mut r: Vec<String> = Vec::new();
    for k in 0..outputs.len()
        invariant
            want == titles_of(outputs_view(outputs@)),
            names_view(r@) == want.take(k as int),
    {
        let ghost before = names_view(r@);
        let n = outputs[k].1.clone();
        r.push(n);
        assert(names_view(r@) =~= before.push(n@));
        assert(want.take(k + 1) =~= want.take(k as int).push(want[k as int]));
    }
    assert(want.take(outputs@.len() as int) =~= want);
    r
}

/// The outcome of compiling a query: its program and the names of its columns.
pub open spec fn query_outcome(
    r: Result<(Program, Vec<String>), Error>,
    script: Asm,
    names: Seq<Seq<char>>,
) -> bool {
    match r {
        Ok(x) => script.err is None && x.0@ == script.program() && names_view(x.1@) == names,
        Err(e) => script.err == Some(e@),
    }
}

/// The names of the output columns of a `SELECT`.
pub open spec fn select_names(select: SelectStmtView, table: Option<TableView>) -> Seq<Seq<char>> {
    match expansion(select, table) {
        Ok(outputs) => titles_of(outputs),
        Err(_) => Seq::empty(),
    }
}

/// Compile a `SELECT` that is not compound. `table` is the table of its `FROM` clause, if it has
/// one, and `indexes` are the indexes on it.
pub fn compile_simple(
    select: &SelectStmt,
    table: Option<&Table>,
    indexes: &[IndexObject],
    functions: &Functions,
) -> (r: Result<(Program, Vec<String>), Error>)
    requires
        table matches Some(t) ==> t@.wf(),
    ensures
        query_outcome(
            r,
            gen_select(select@, opt_table_view(table), indexes_view(indexes@), functions@),
            select_names(select@, opt_table_view(table)),
        ),
{
    broadcast use crate::builder::asm_fail;

    reveal(gen_select);
    assert(select@.values == expr_rows_view(select.values@));
    if let Err(err) = reject_unsupported(select) {
        return Err(err);
    }
    let outputs = match expand_columns(select, table) {
        Ok(v) => v,
        Err(err) => {
            return Err(err);
        },
    };
    if let Err(err) = check_select(select, &outputs, functions) {
        return Err(err);
    }
    let names = output_names(&outputs);
    let (limit, offset) = match eval_limit_offset(select) {
        Ok(v) => v,
        Err(err) => {
            return Err(err);
        },
    };
    let program = if select.values.len() > 0 {
        compile_values(select, &outputs, limit, offset, functions)
    } else {
        match table {
            Some(t) => compile_over_table(
                select,
                t,
                indexes,
                &outputs,
                limit,
                offset,
                functions,
            ),
            None => compile_constant(select, &outputs, limit, offset, functions),
        }
    };
    match program {
        Ok(p) => Ok((p, names)),
        Err(err) => Err(err),
    }
}

} // verus!
