//! Aggregate queries.
//!
//! Without a `GROUP BY` clause one scan feeds the accumulators and one row is put out at the
//! end. With one, the rows go through a sorter that brings each group together; a change of the
//! group key puts the finished group out and resets the accumulators. With an `ORDER BY` clause
//! the rows that would be put out go through a second sorter.
use vstd::prelude::*;

use crate::ast::{
    exprs_view, function_args_view, opt_expr_view, ordering_terms_view, Expr, ExprView,
    FunctionArgs, FunctionArgsView, OrderingTerm, OrderingTermView, SelectStmt, SelectStmtView,
};
use crate::builder::{reg_at, reg_off, Asm, ProgramBuilder};
use crate::columns::{order_expr, outputs_view, resolve_order_term, Output};
use crate::emit::{
    begin, built, compile_list, emit_columns, emit_copies, emit_limit, emit_offset, emit_sort_tail,
    end, gen_columns, gen_copies, gen_epilogue, gen_limit, gen_offset, gen_open, gen_skip,
    gen_sort_tail, gen_stop, key_info_of, limit_reg, offset_reg, open_table, order_key_info,
    prologue,
};
use crate::expr::gen_expr_list;
use crate::rewrite::{
    call_from, calls_view, collect_aggregates, find_call, aggregates_in, rewrite, rewritten,
    Accumulators, AggCall, AggCallView, Rule, RuleView,
};
use crate::schema::{Functions, FunctionsView, Table, TableView};
use crate::scope::{emitted, over_table, steady, table_ctx, Ctx, CtxView};
use crate::scan::{
    compile_filter, distinct_stuck, emit_distinct, gen_distinct, gen_filter, group_select,
};
use crate::text::{cat4, cat2, decimal_u64, int_text, Error};
use crate::vdbe::{ascending, AggregateKind, KeyField, Opcode, P4, P4View, Program};
use crate::walk::{arg_count, arg_count_of};

verus! {

broadcast use group_select;

// ---- Analysis ----

/// The calls `acc`, then those of the outputs from `k` on.
pub open spec fn output_calls(
    acc: Seq<AggCallView>,
    outputs: Seq<(ExprView, Seq<char>)>,
    f: FunctionsView,
    k: int,
) -> Seq<AggCallView>
    decreases outputs.len() - k,
{
    if k < 0 || k >= outputs.len() {
        acc
    } else {
        output_calls(acc + aggregates_in(f, outputs[k].0), outputs, f, k + 1)
    }
}

/// The calls `acc`, then those of `calls` from `k` on that share no accumulator with an earlier
/// one.
pub open spec fn distinct_calls(acc: Seq<AggCallView>, calls: Seq<AggCallView>, k: int) -> Seq<
    AggCallView,
>
    decreases calls.len() - k,
{
    if k < 0 || k >= calls.len() {
        acc
    } else if call_from(acc, calls[k], 0) is Some {
        distinct_calls(acc, calls, k + 1)
    } else {
        distinct_calls(acc.push(calls[k]), calls, k + 1)
    }
}

/// The aggregate calls of the outputs and the `HAVING` clause, each once.
#[verifier::opaque]
pub open spec fn query_calls(
    outputs: Seq<(ExprView, Seq<char>)>,
    having: Option<ExprView>,
    f: FunctionsView,
) -> Seq<AggCallView> {
    let a = output_calls(Seq::empty(), outputs, f, 0);
    let all = match having {
        None => a,
        Some(h) => a + aggregates_in(f, h),
    };
    distinct_calls(Seq::empty(), all, 0)
}

fn find_calls(outputs: &Vec<Output>, having: &Option<Expr>, functions: &Functions) -> (r: Vec<
    AggCall,
>)
    ensures
        calls_view(r@) == query_calls(
            outputs_view(outputs@),
            opt_expr_view(*having),
            functions@,
        ),
{
    reveal(query_calls);
    let mut all: Vec<AggCall> = Vec::new();
    assert(calls_view(all@) =~= Seq::empty());
    let ghost os = outputs_view(outputs@);
    let ghost want = output_calls(Seq::empty(), os, functions@, 0);
    for k in 0..outputs.len()
        invariant
            os == outputs_view(outputs@),
            output_calls(calls_view(all@), os, functions@, k as int) == want,
    {
        assert(os[k as int] == (outputs@[k as int].0@, outputs@[k as int].1@));
        collect_aggregates(&outputs[k].0, functions, &mut all);
    }
    if let Some(h) = having {
        collect_aggregates(h, functions, &mut all);
    }
    let ghost av = calls_view(all@);
    let mut out: Vec<AggCall> = Vec::new();
    assert(calls_view(out@) =~= Seq::empty());
    let ghost want2 = distinct_calls(Seq::empty(), av, 0);
    for k in 0..all.len()
        invariant
            av == calls_view(all@),
            distinct_calls(calls_view(out@), av, k as int) == want2,
    {
        assert(av[k as int] == all@[k as int]@);
        if find_call(&out, &all[k]).is_none() {
            let ghost before = calls_view(out@);
            let c = all[k].clone();
            out.push(c);
            assert(calls_view(out@) =~= before.push(c@));
        }
    }
    out
}

/// The kind of each call from `k` on after `acc`, or the first call that is no aggregate.
pub open spec fn kinds_from(
    acc: Seq<AggregateKind>,
    calls: Seq<AggCallView>,
    f: FunctionsView,
    k: int,
) -> Result<Seq<AggregateKind>, Seq<char>>
    decreases calls.len() - k,
{
    if k < 0 || k >= calls.len() {
        Ok(acc)
    } else {
        match f.aggregate(calls[k].name, arg_count(calls[k].args)) {
            Some(kind) => kinds_from(acc.push(kind), calls, f, k + 1),
            None => Err(
                "no such aggregate: "@ + calls[k].name + "("@ + int_text(arg_count(calls[k].args))
                    + ")"@,
            ),
        }
    }
}

fn find_kinds(calls: &Vec<AggCall>, functions: &Functions) -> (r: Result<Vec<AggregateKind>, Error>)
    ensures
        match r {
            Ok(v) => kinds_from(Seq::empty(), calls_view(calls@), functions@, 0) == Ok::<
                Seq<AggregateKind>,
                Seq<char>,
            >(v@) && v@.len() == calls@.len(),
            Err(m) => kinds_from(Seq::empty(), calls_view(calls@), functions@, 0) == Err::<
                Seq<AggregateKind>,
                Seq<char>,
            >(m@),
        },
{
    let ghost cs = calls_view(calls@);
    let mut out: Vec<AggregateKind> = Vec::new();
    assert(out@ =~= Seq::empty());
    let ghost want = kinds_from(Seq::empty(), cs, functions@, 0);
    for k in 0..calls.len()
        invariant
            cs == calls_view(calls@),
            out@.len() == k,
            want == kinds_from(Seq::empty(), cs, functions@, 0),
            kinds_from(out@, cs, functions@, k as int) == want,
    {
        assert(cs[k as int] == calls@[k as int]@);
        let n: usize = arg_count_of(&calls[k].args);
        match functions.aggregate(calls[k].name.as_str(), n) {
            Some(kind) => {
                out.push(kind);
            },
            None => {
                let head = cat4(
                    "no such aggregate: ",
                    calls[k].name.as_str(),
                    "(",
                    decimal_u64(n as u64).as_str(),
                );
                return Err(Error::msg(cat2(head.as_str(), ")")));
            },
        }
    }
    Ok(out)
}

/// An expression as the output pass computes it: from the accumulators and the group key.
pub open spec fn output_form(rule: RuleView, e: ExprView) -> ExprView {
    match rewritten(rule, e) {
        Ok(x) => x,
        Err(_) => e,
    }
}

/// Rewrite an expression for the output pass.
pub fn rewrite_projection_expr(rule: &Rule, e: &Expr) -> (r: Expr)
    ensures
        r@ == output_form(rule@, e@),
{
    match rewrite(rule, e) {
        Ok(x) => x,
        Err(_) => e.clone(),
    }
}

/// The output columns as the output pass computes them.
pub open spec fn output_forms(rule: RuleView, outputs: Seq<(ExprView, Seq<char>)>) -> Seq<ExprView> {
    Seq::new(outputs.len(), |i: int| output_form(rule, outputs[i].0))
}

fn rewrite_outputs(rule: &Rule, outputs: &Vec<Output>) -> (r: Vec<Expr>)
    ensures
        exprs_view(r@) == output_forms(rule@, outputs_view(outputs@)),
{
    let ghost want = output_forms(rule@, outputs_view(outputs@));
    let mut out: Vec<Expr> = Vec::new();
    for k in 0..outputs.len()
        invariant
            want == output_forms(rule@, outputs_view(outputs@)),
            exprs_view(out@) == want.take(k as int),
    {
        let ghost before = exprs_view(out@);
        let x = rewrite_projection_expr(rule, &outputs[k].0);
        out.push(x);
        assert(exprs_view(out@) =~= before.push(x@));
        assert(want.take(k + 1) =~= want.take(k as int).push(want[k as int]));
    }
    assert(want.take(outputs@.len() as int) =~= want);
    out
}

/// The sort keys `acc`, then those of the terms from `k` on as the output pass computes them.
pub open spec fn order_forms(
    acc: Seq<ExprView>,
    rule: RuleView,
    terms: Seq<OrderingTermView>,
    outputs: Seq<(ExprView, Seq<char>)>,
    k: int,
) -> Result<Seq<ExprView>, Seq<char>>
    decreases terms.len() - k,
{
    if k < 0 || k >= terms.len() {
        Ok(acc)
    } else {
        match order_expr(terms[k].expr, outputs) {
            Err(m) => Err(m),
            Ok(e) => order_forms(acc.push(output_form(rule, e)), rule, terms, outputs, k + 1),
        }
    }
}

fn rewrite_order(rule: &Rule, terms: &Vec<OrderingTerm>, outputs: &Vec<Output>) -> (r: Result<
    Vec<Expr>,
    Error,
>)
    ensures
        match r {
            Ok(v) => order_forms(
                Seq::empty(),
                rule@,
                ordering_terms_view(terms@),
                outputs_view(outputs@),
                0,
            ) == Ok::<Seq<ExprView>, Seq<char>>(exprs_view(v@)),
            Err(m) => order_forms(
                Seq::empty(),
                rule@,
                ordering_terms_view(terms@),
                outputs_view(outputs@),
                0,
            ) == Err::<Seq<ExprView>, Seq<char>>(m@),
        },
{
    let ghost ts = ordering_terms_view(terms@);
    let ghost os = outputs_view(outputs@);
    let mut out: Vec<Expr> = Vec::new();
    assert(exprs_view(out@) =~= Seq::empty());
    let ghost want = order_forms(Seq::empty(), rule@, ts, os, 0);
    for k in 0..terms.len()
        invariant
            ts == ordering_terms_view(terms@),
            os == outputs_view(outputs@),
            want == order_forms(Seq::empty(), rule@, ts, os, 0),
            order_forms(exprs_view(out@), rule@, ts, os, k as int) == want,
    {
        assert(ts[k as int] == terms@[k as int]@);
        match resolve_order_term(&terms[k], outputs) {
            Err(m) => {
                return Err(m);
            },
            Ok(e) => {
                let ghost before = exprs_view(out@);
                let x = rewrite_projection_expr(rule, &e);
                out.push(x);
                assert(exprs_view(out@) =~= before.push(x@));
            },
        }
    }
    Ok(out)
}

// ---- The plan of an aggregate query ----

/// An aggregate query with its accumulators in registers: `base` is that of the first
/// accumulator, and `key_base` the first that holds the key of the group in hand.
pub struct AggPlan {
    pub calls: Vec<AggCall>,
    pub kinds: Vec<AggregateKind>,
    pub base: i32,
    pub key_base: i32,
    pub outputs: Vec<Expr>,
    pub having: Option<Expr>,
    pub order: Vec<Expr>,
}

/// The mathematical value of an [`AggPlan`].
pub ghost struct AggPlanView {
    pub calls: Seq<AggCallView>,
    pub kinds: Seq<AggregateKind>,
    pub base: i32,
    pub key_base: i32,
    pub outputs: Seq<ExprView>,
    pub having: Option<ExprView>,
    pub order: Seq<ExprView>,
}

impl View for AggPlan {
    type V = AggPlanView;

    open spec fn view(&self) -> AggPlanView {
        AggPlanView {
            calls: calls_view(self.calls@),
            kinds: self.kinds@,
            base: self.base,
            key_base: self.key_base,
            outputs: exprs_view(self.outputs@),
            having: opt_expr_view(self.having),
            order: exprs_view(self.order@),
        }
    }
}

/// The arguments of a call.
pub open spec fn call_args(c: AggCallView) -> Seq<ExprView> {
    match c.args {
        FunctionArgsView::Star => Seq::empty(),
        FunctionArgsView::List(v) => v,
    }
}

/// The accumulators from the `k`-th on are fed with the row in hand.
pub open spec fn gen_steps(s: Asm, p: AggPlanView, ctx: CtxView, k: int) -> Asm
    decreases p.calls.len() - k,
{
    if s.err is Some || k < 0 || k >= p.calls.len() {
        s
    } else {
        let args = call_args(p.calls[k]);
        let at = if p.calls[k].args is Star {
            0
        } else {
            s.next_reg
        };
        let s = if p.calls[k].args is Star {
            s
        } else {
            gen_expr_list(s.take_regs(args.len() as i32), args, at, ctx, 0)
        };
        gen_steps(
            s.emit_p45(
                Opcode::AggStep,
                0,
                at,
                reg_at(p.base, k),
                P4View::FuncDef(p.kinds[k]),
                args.len() as u8,
            ),
            p,
            ctx,
            k + 1,
        )
    }
}

fn compile_steps(b: &mut ProgramBuilder, p: &AggPlan, ctx: Ctx) -> (r: Result<(), Error>)
    requires
        p.kinds@.len() == p.calls@.len(),
    ensures
        emitted(r, final(b)@, gen_steps(old(b)@, p@, ctx@, 0)),
        r is Ok ==> steady(old(b)@, final(b)@),
{
    let ghost pv = p@;
    let ghost want = gen_steps(b@, pv, ctx@, 0);
    for k in 0..p.calls.len()
        invariant
            pv == p@,
            p.kinds@.len() == p.calls@.len(),
            want == gen_steps(old(b)@, pv, ctx@, 0),
            gen_steps(b@, pv, ctx@, k as int) == want,
            steady(old(b)@, b@),
    {
        reveal_with_fuel(gen_steps, 2);
        assert(pv.calls[k as int] == p.calls@[k as int]@);
        let kind = p.kinds[k];
        let mut at: i32 = 0;
        let mut n: u8 = 0;
        match &p.calls[k].args {
            FunctionArgs::Star => {
                assert(function_args_view(p.calls@[k as int].args) == FunctionArgsView::Star);
            },
            FunctionArgs::List(v) => {
                assert(function_args_view(p.calls@[k as int].args) == FunctionArgsView::List(
                    exprs_view(v@),
                ));
                n = v.len() as u8;
                at = b.alloc_regs(v.len() as i32);
                if let Err(err) = compile_list(b, v, at, ctx) {
                    return Err(err);
                }
            },
        }
        b.emit_p45(Opcode::AggStep, 0, at, reg_off(p.base, k), P4::FuncDef(kind), n);
    }
    Ok(())
}

/// The accumulators from the `k`-th on are turned into their results.
pub open spec fn gen_finals(s: Asm, p: AggPlanView, k: int) -> Asm
    decreases p.kinds.len() - k,
{
    if s.err is Some || k < 0 || k >= p.kinds.len() {
        s
    } else {
        gen_finals(
            s.emit_p4(Opcode::AggFinal, reg_at(p.base, k), 0, 0, P4View::FuncDef(p.kinds[k])),
            p,
            k + 1,
        )
    }
}

fn emit_finals(b: &mut ProgramBuilder, p: &AggPlan)
    ensures
        final(b)@ == gen_finals(old(b)@, p@, 0),
        steady(old(b)@, final(b)@),
{
    let ghost pv = p@;
    let ghost want = gen_finals(b@, pv, 0);
    for k in 0..p.kinds.len()
        invariant
            pv == p@,
            gen_finals(b@, pv, k as int) == want,
            steady(old(b)@, b@),
    {
        b.emit_p4(Opcode::AggFinal, reg_off(p.base, k), 0, 0, P4::FuncDef(p.kinds[k]));
    }
}

/// The row in the registers from `row` on goes into the sorter behind its sort keys.
#[verifier::opaque]
pub open spec fn gen_sort_row(
    s: Asm,
    order: Seq<ExprView>,
    row: i32,
    ncol: i32,
    sorter: i32,
    ctx: CtxView,
) -> Asm {
    let norder = order.len() as i32;
    let width = norder.wrapping_add(ncol);
    let block = s.next_reg;
    let s = gen_expr_list(s.take_regs(width), order, block, ctx, 0);
    let s = gen_copies(s, row, block.wrapping_add(norder), ncol as int, 0);
    let rec = s.next_reg;
    s.take_regs(1).emit(Opcode::MakeRecord, block, width, rec).emit(
        Opcode::SorterInsert,
        sorter,
        rec,
        0,
    )
}

pub broadcast proof fn sort_row_stuck(
    s: Asm,
    order: Seq<ExprView>,
    row: i32,
    ncol: i32,
    sorter: i32,
    ctx: CtxView,
)
    requires
        s.err is Some,
    ensures
        #![trigger gen_sort_row(s, order, row, ncol, sorter, ctx)]
        gen_sort_row(s, order, row, ncol, sorter, ctx) == s,
{
    reveal(gen_sort_row);
}

fn compile_sort_row(
    b: &mut ProgramBuilder,
    order: &Vec<Expr>,
    row: i32,
    ncol: i32,
    sorter: i32,
    ctx: Ctx,
) -> (r: Result<(), Error>)
    ensures
        emitted(
            r,
            final(b)@,
            gen_sort_row(old(b)@, exprs_view(order@), row, ncol, sorter, ctx@),
        ),
        r is Ok ==> steady(old(b)@, final(b)@),
{
    reveal(gen_sort_row);
    let norder: i32 = order.len() as i32;
    let width: i32 = norder.wrapping_add(ncol);
    let block: i32 = b.alloc_regs(width);
    if let Err(err) = compile_list(b, order, block, ctx) {
        return Err(err);
    }
    emit_copies(b, row, block.wrapping_add(norder), ncol);
    let rec: i32 = b.alloc_reg();
    b.emit(Opcode::MakeRecord, block, width, rec);
    b.emit(Opcode::SorterInsert, sorter, rec, 0);
    Ok(())
}

// ---- Without GROUP BY ----

/// The scan of the table, the results of the accumulators, and the one row.
#[verifier::opaque]
pub open spec fn gen_one_group(
    s: Asm,
    p: AggPlanView,
    condition: Option<ExprView>,
    ordered: bool,
    limit: Option<i32>,
    offset: Option<i32>,
    ctx: CtxView,
) -> Asm {
    let ncol = p.outputs.len() as i32;
    let norder = p.order.len() as i32;
    let end_scan = s.fresh();
    let s = s.label().jump(Opcode::Rewind, 0, end_scan, 0);
    let top = s.fresh();
    let s = s.label().bind(top);
    let next = s.fresh();
    let s = gen_filter(s.label(), condition, next, ctx);
    let s = gen_steps(s, p, ctx, 0).bind(next).jump(Opcode::Next, 0, top, 0).bind(end_scan);
    let s = gen_finals(s, p, 0);
    let end = s.fresh();
    let s = gen_filter(s.label(), p.having, end, ctx);
    let result = s.next_reg;
    let s = gen_expr_list(s.take_regs(ncol), p.outputs, result, ctx, 0);
    (if ordered {
        gen_sort_tail(
            gen_sort_row(s, p.order, result, ncol, 1, ctx),
            1,
            norder,
            ncol,
            limit,
            offset,
            end,
        )
    } else {
        gen_stop(
            gen_skip(s, offset, end).emit(Opcode::ResultRow, result, ncol, 0),
            limit,
            end,
        )
    }).bind(end).emit(Opcode::Halt, 0, 0, 0)
}

fn compile_one_group(
    b: &mut ProgramBuilder,
    p: &AggPlan,
    condition: &Option<Expr>,
    ordered: bool,
    limit_reg: Option<i32>,
    offset_reg: Option<i32>,
    ctx: Ctx,
) -> (r: Result<(), Error>)
    requires
        p.kinds@.len() == p.calls@.len(),
    ensures
        emitted(
            r,
            final(b)@,
            gen_one_group(
                old(b)@,
                p@,
                opt_expr_view(*condition),
                ordered,
                limit_reg,
                offset_reg,
                ctx@,
            ),
        ),
        r is Ok ==> steady(old(b)@, final(b)@),
{
    broadcast use sort_row_stuck;

    reveal(gen_one_group);
    let ncol: i32 = p.outputs.len() as i32;
    let norder: i32 = p.order.len() as i32;
    let end_scan = b.new_label();
    b.emit_jump(Opcode::Rewind, 0, end_scan, 0);
    let scan_top = b.new_label();
    b.resolve(scan_top);
    let scan_next = b.new_label();
    if let Err(err) = compile_filter(b, condition, scan_next, ctx) {
        return Err(err);
    }
    if let Err(err) = compile_steps(b, p, ctx) {
        return Err(err);
    }
    b.resolve(scan_next);
    b.emit_jump(Opcode::Next, 0, scan_top, 0);
    b.resolve(end_scan);
    emit_finals(b, p);
    let emit_end = b.new_label();
    if let Err(err) = compile_filter(b, &p.having, emit_end, ctx) {
        return Err(err);
    }
    let result_reg: i32 = b.alloc_regs(ncol);
    if let Err(err) = compile_list(b, &p.outputs, result_reg, ctx) {
        return Err(err);
    }
    if ordered {
        if let Err(err) = compile_sort_row(b, &p.order, result_reg, ncol, 1, ctx) {
            return Err(err);
        }
        emit_sort_tail(b, 1, norder, ncol, limit_reg, offset_reg, emit_end);
    } else {
        if let Some(oreg) = offset_reg {
            b.emit_jump(Opcode::IfPos, oreg, emit_end, 1);
        }
        b.emit(Opcode::ResultRow, result_reg, ncol, 0);
        if let Some(lreg) = limit_reg {
            b.emit_jump(Opcode::DecrJumpZero, lreg, emit_end, 0);
        }
    }
    b.resolve(emit_end);
    b.emit(Opcode::Halt, 0, 0, 0);
    Ok(())
}

// ---- With GROUP BY ----

/// The number of arguments of the first `n` calls.
pub open spec fn args_before(calls: Seq<AggCallView>, n: int) -> i32
    decreases n,
{
    if n <= 0 || n > calls.len() {
        0
    } else {
        args_before(calls, n - 1).wrapping_add(call_args(calls[n - 1]).len() as i32)
    }
}

/// The arguments of the calls from the `k`-th on, one after the other from register `at` on.
pub open spec fn gen_all_args(s: Asm, calls: Seq<AggCallView>, at: i32, ctx: CtxView, k: int) -> Asm
    decreases calls.len() - k,
{
    if s.err is Some || k < 0 || k >= calls.len() {
        s
    } else {
        gen_all_args(
            gen_expr_list(
                s,
                call_args(calls[k]),
                at.wrapping_add(args_before(calls, k)),
                ctx,
                0,
            ),
            calls,
            at,
            ctx,
            k + 1,
        )
    }
}

fn compile_all_args(b: &mut ProgramBuilder, calls: &Vec<AggCall>, at: i32, ctx: Ctx) -> (r: Result<
    (),
    Error,
>)
    ensures
        emitted(r, final(b)@, gen_all_args(old(b)@, calls_view(calls@), at, ctx@, 0)),
        r is Ok ==> steady(old(b)@, final(b)@),
{
    let ghost cs = calls_view(calls@);
    let ghost want = gen_all_args(b@, cs, at, ctx@, 0);
    let mut before: i32 = 0;
    for k in 0..calls.len()
        invariant
            cs == calls_view(calls@),
            before == args_before(cs, k as int),
            want == gen_all_args(old(b)@, cs, at, ctx@, 0),
            gen_all_args(b@, cs, at, ctx@, k as int) == want,
            steady(old(b)@, b@),
    {
        reveal_with_fuel(gen_all_args, 2);
        assert(cs[k as int] == calls@[k as int]@);
        match &calls[k].args {
            FunctionArgs::Star => {
                assert(function_args_view(calls@[k as int].args) == FunctionArgsView::Star);
                before = before.wrapping_add(0);
            },
            FunctionArgs::List(v) => {
                assert(function_args_view(calls@[k as int].args) == FunctionArgsView::List(
                    exprs_view(v@),
                ));
                if let Err(err) = compile_list(b, v, at.wrapping_add(before), ctx) {
                    return Err(err);
                }
                before = before.wrapping_add(v.len() as i32);
            },
        }
    }
    Ok(())
}

fn count_args(calls: &Vec<AggCall>) -> (r: i32)
    ensures
        r == args_before(calls_view(calls@), calls@.len() as int),
{
    let ghost cs = calls_view(calls@);
    let mut n: i32 = 0;
    for k in 0..calls.len()
        invariant
            cs == calls_view(calls@),
            n == args_before(cs, k as int),
    {
        assert(cs[k as int] == calls@[k as int]@);
        match &calls[k].args {
            FunctionArgs::Star => {
                n = n.wrapping_add(0);
            },
            FunctionArgs::List(v) => {
                n = n.wrapping_add(v.len() as i32);
            },
        }
    }
    n
}

/// The accumulators from the `k`-th on are fed from the sorted row in hand.
pub open spec fn gen_sorted_steps(s: Asm, p: AggPlanView, nkey: i32, k: int) -> Asm
    decreases p.calls.len() - k,
{
    if s.err is Some || k < 0 || k >= p.calls.len() {
        s
    } else {
        let n = call_args(p.calls[k]).len() as i32;
        let at = s.next_reg;
        let s = s.take_regs(
            if n > 1 {
                n
            } else {
                1
            },
        );
        let s = gen_columns(
            s,
            1,
            nkey.wrapping_add(args_before(p.calls, k)),
            at,
            n as int,
            0,
        );
        gen_sorted_steps(
            s.emit_p45(
                Opcode::AggStep,
                0,
                at,
                reg_at(p.base, k),
                P4View::FuncDef(p.kinds[k]),
                call_args(p.calls[k]).len() as u8,
            ),
            p,
            nkey,
            k + 1,
        )
    }
}

fn emit_sorted_steps(b: &mut ProgramBuilder, p: &AggPlan, nkey: i32)
    requires
        p.kinds@.len() == p.calls@.len(),
    ensures
        final(b)@ == gen_sorted_steps(old(b)@, p@, nkey, 0),
        steady(old(b)@, final(b)@),
{
    let ghost pv = p@;
    let ghost want = gen_sorted_steps(b@, pv, nkey, 0);
    let mut before: i32 = 0;
    for k in 0..p.calls.len()
        invariant
            pv == p@,
            p.kinds@.len() == p.calls@.len(),
            before == args_before(pv.calls, k as int),
            gen_sorted_steps(b@, pv, nkey, k as int) == want,
            steady(old(b)@, b@),
    {
        assert(pv.calls[k as int] == p.calls@[k as int]@);
        let len: usize = arg_count_of(&p.calls[k].args);
        assert(call_args(pv.calls[k as int]).len() == len);
        let n: i32 = len as i32;
        let width: i32 = if n > 1 {
            n
        } else {
            1
        };
        let at: i32 = b.alloc_regs(width);
        emit_columns(b, 1, nkey.wrapping_add(before), at, n);
        b.emit_p45(
            Opcode::AggStep,
            0,
            at,
            reg_off(p.base, k),
            P4::FuncDef(p.kinds[k]),
            len as u8,
        );
        before = before.wrapping_add(n);
    }
}

/// How group keys compare: ascending, byte by byte.
pub open spec fn group_key_info(n: nat) -> Seq<KeyField> {
    Seq::new(n, |i: int| ascending())
}

fn ascending_keys(n: usize) -> (r: Vec<KeyField>)
    ensures
        r@ == group_key_info(n as nat),
{
    let mut r: Vec<KeyField> = Vec::new();
    for i in 0..n
        invariant
            r@ == group_key_info(i as nat),
    {
        r.push(KeyField::asc_binary());
        assert(r@ =~= group_key_info((i + 1) as nat));
    }
    r
}

/// The scan of the table into the group sorter on cursor 1: the group key, then the arguments of
/// the aggregates.
#[verifier::opaque]
pub open spec fn gen_group_scan(
    s: Asm,
    p: AggPlanView,
    keys: Seq<ExprView>,
    condition: Option<ExprView>,
    ctx: CtxView,
) -> Asm {
    let nkey = keys.len() as i32;
    let width = nkey.wrapping_add(args_before(p.calls, p.calls.len() as int));
    let s = s.emit_p4(
        Opcode::SorterOpen,
        1,
        width,
        0,
        P4View::KeyInfo(group_key_info(keys.len())),
    ).note_cursor(1);
    let end_scan = s.fresh();
    let s = s.label().jump(Opcode::Rewind, 0, end_scan, 0);
    let top = s.fresh();
    let s = s.label().bind(top);
    let next = s.fresh();
    let s = gen_filter(s.label(), condition, next, ctx);
    let block = s.next_reg;
    let s = gen_expr_list(s.take_regs(width), keys, block, ctx, 0);
    let s = gen_all_args(s, p.calls, block.wrapping_add(nkey), ctx, 0);
    let rec = s.next_reg;
    s.take_regs(1).emit(Opcode::MakeRecord, block, width, rec).emit(
        Opcode::SorterInsert,
        1,
        rec,
        0,
    ).bind(next).jump(Opcode::Next, 0, top, 0).bind(end_scan)
}

fn compile_group_scan(
    b: &mut ProgramBuilder,
    p: &AggPlan,
    keys: &Vec<Expr>,
    condition: &Option<Expr>,
    ctx: Ctx,
) -> (r: Result<(), Error>)
    ensures
        emitted(
            r,
            final(b)@,
            gen_group_scan(old(b)@, p@, exprs_view(keys@), opt_expr_view(*condition), ctx@),
        ),
        r is Ok ==> steady(old(b)@, final(b)@),
{
    reveal(gen_group_scan);
    let nkey: i32 = keys.len() as i32;
    let width: i32 = nkey.wrapping_add(count_args(&p.calls));
    b.emit_p4(Opcode::SorterOpen, 1, width, 0, P4::KeyInfo(ascending_keys(keys.len())));
    b.note_cursor(1);
    let end_scan = b.new_label();
    b.emit_jump(Opcode::Rewind, 0, end_scan, 0);
    let scan_top = b.new_label();
    b.resolve(scan_top);
    let scan_next = b.new_label();
    if let Err(err) = compile_filter(b, condition, scan_next, ctx) {
        return Err(err);
    }
    let block: i32 = b.alloc_regs(width);
    if let Err(err) = compile_list(b, keys, block, ctx) {
        return Err(err);
    }
    if let Err(err) = compile_all_args(b, &p.calls, block.wrapping_add(nkey), ctx) {
        return Err(err);
    }
    let rec: i32 = b.alloc_reg();
    b.emit(Opcode::MakeRecord, block, width, rec);
    b.emit(Opcode::SorterInsert, 1, rec, 0);
    b.resolve(scan_next);
    b.emit_jump(Opcode::Next, 0, scan_top, 0);
    b.resolve(end_scan);
    Ok(())
}

/// The walk of the sorted rows, and the two subroutines it calls: one that puts the group in
/// hand out, and one that resets the accumulators.
#[verifier::opaque]
pub open spec fn gen_group_walk(
    s: Asm,
    p: AggPlanView,
    nkeys: nat,
    ordered: bool,
    distinct: bool,
    limit: Option<i32>,
    offset: Option<i32>,
    ctx: CtxView,
) -> Asm {
    let ncol = p.outputs.len() as i32;
    let norder = p.order.len() as i32;
    let nkey = nkeys as i32;
    let amem = p.key_base;
    let last = nkey.wrapping_sub(1);
    let flag = s.next_reg;
    let s = s.take_regs(1).emit(Opcode::Integer, 0, flag, 0).emit(
        Opcode::Null,
        amem,
        amem.wrapping_add(nkey).wrapping_sub(1),
        0,
    );
    let bmem = s.next_reg;
    let s = s.take_regs(nkey);
    let end = s.fresh();
    let s = s.label();
    let output = s.fresh();
    let s = s.label();
    let output_ret = s.next_reg;
    let s = s.take_regs(1);
    let reset = s.fresh();
    let s = s.label();
    let reset_ret = s.next_reg;
    let s = s.take_regs(1).jump(Opcode::Gosub, reset_ret, reset, 0);
    let s = if distinct {
        s.emit_p4(Opcode::OpenEphemeral, 2, ncol, 0, P4View::KeyInfo(Seq::empty())).note_cursor(2)
    } else {
        s
    };
    let s = s.jump(Opcode::SorterSort, 1, end, 0);
    let top = s.fresh();
    let s = s.label().bind(top).emit(Opcode::SorterData, 1, 0, 0);
    let s = gen_columns(s, 1, 0, bmem, nkey as int, 0);
    let same = s.fresh();
    let s = s.label();
    let changed = s.fresh();
    let s = s.label().emit_p4(
        Opcode::Compare,
        amem,
        bmem,
        nkey,
        P4View::KeyInfo(group_key_info(nkeys)),
    ).jump3(Opcode::Jump, changed, same, changed);
    let s = s.bind(changed).jump(Opcode::Gosub, output_ret, output, 0).emit(
        Opcode::Copy,
        bmem,
        amem,
        last,
    ).jump(Opcode::Gosub, reset_ret, reset, 0);
    let s = gen_sorted_steps(s.bind(same), p, nkey, 0).emit(Opcode::Integer, 1, flag, 0).jump(
        Opcode::SorterNext,
        1,
        top,
        0,
    ).jump(Opcode::Gosub, output_ret, output, 0);
    let s = if ordered {
        gen_sort_tail(s, 2, norder, ncol, limit, offset, end)
    } else {
        s
    };
    let s = s.jump(Opcode::Goto, 0, end, 0).bind(output);
    let skip = s.fresh();
    let s = s.label().jump(Opcode::IfNot, flag, skip, 1);
    let s = gen_filter(gen_finals(s, p, 0), p.having, skip, ctx);
    let result = s.next_reg;
    let s = gen_expr_list(s.take_regs(ncol), p.outputs, result, ctx, 0);
    let s = gen_distinct(s, distinct, 2, skip, result, ncol);
    let s = if ordered {
        gen_sort_row(s, p.order, result, ncol, 2, ctx)
    } else {
        let row_end = s.fresh();
        let s = gen_skip(s.label(), offset, row_end).emit(Opcode::ResultRow, result, ncol, 0);
        gen_stop(s, limit, end).bind(row_end)
    };
    s.bind(skip).emit(Opcode::Return, output_ret, 0, 0).bind(reset).emit(
        Opcode::Integer,
        0,
        flag,
        0,
    ).emit(Opcode::Return, reset_ret, 0, 0).bind(end).emit(Opcode::Halt, 0, 0, 0)
}

fn compile_group_walk(
    b: &mut ProgramBuilder,
    p: &AggPlan,
    nkeys: usize,
    ordered: bool,
    distinct: bool,
    limit_reg: Option<i32>,
    offset_reg: Option<i32>,
    ctx: Ctx,
) -> (r: Result<(), Error>)
    requires
        p.kinds@.len() == p.calls@.len(),
    ensures
        emitted(
            r,
            final(b)@,
            gen_group_walk(
                old(b)@,
                p@,
                nkeys as nat,
                ordered,
                distinct,
                limit_reg,
                offset_reg,
                ctx@,
            ),
        ),
        r is Ok ==> steady(old(b)@, final(b)@),
{
    broadcast use {sort_row_stuck, distinct_stuck};

    reveal(gen_group_walk);
    let ncol: i32 = p.outputs.len() as i32;
    let norder: i32 = p.order.len() as i32;
    let nkey: i32 = nkeys as i32;
    let i_amem: i32 = p.key_base;
    let i_use_flag: i32 = b.alloc_reg();
    b.emit(Opcode::Integer, 0, i_use_flag, 0);
    b.emit(Opcode::Null, i_amem, i_amem.wrapping_add(nkey).wrapping_sub(1), 0);
    let i_bmem: i32 = b.alloc_regs(nkey);
    let addr_end = b.new_label();
    let addr_output_row = b.new_label();
    let reg_output_row: i32 = b.alloc_reg();
    let addr_reset = b.new_label();
    let reg_reset: i32 = b.alloc_reg();
    b.emit_jump(Opcode::Gosub, reg_reset, addr_reset, 0);
    if distinct {
        let keys: Vec<KeyField> = Vec::new();
        assert(keys@ =~= Seq::empty());
        b.emit_p4(Opcode::OpenEphemeral, 2, ncol, 0, P4::KeyInfo(keys));
        b.note_cursor(2);
    }
    b.emit_jump(Opcode::SorterSort, 1, addr_end, 0);
    let loop_top = b.new_label();
    b.resolve(loop_top);
    b.emit(Opcode::SorterData, 1, 0, 0);
    emit_columns(b, 1, 0, i_bmem, nkey);
    let addr_step_only = b.new_label();
    let addr_group_changed = b.new_label();
    b.emit_p4(Opcode::Compare, i_amem, i_bmem, nkey, P4::KeyInfo(ascending_keys(nkeys)));
    b.emit_jump3(Opcode::Jump, addr_group_changed, addr_step_only, addr_group_changed);
    b.resolve(addr_group_changed);
    b.emit_jump(Opcode::Gosub, reg_output_row, addr_output_row, 0);
    b.emit(Opcode::Copy, i_bmem, i_amem, nkey.wrapping_sub(1));
    b.emit_jump(Opcode::Gosub, reg_reset, addr_reset, 0);
    b.resolve(addr_step_only);
    emit_sorted_steps(b, p, nkey);
    b.emit(Opcode::Integer, 1, i_use_flag, 0);
    b.emit_jump(Opcode::SorterNext, 1, loop_top, 0);
    b.emit_jump(Opcode::Gosub, reg_output_row, addr_output_row, 0);
    if ordered {
        emit_sort_tail(b, 2, norder, ncol, limit_reg, offset_reg, addr_end);
    }
    b.emit_jump(Opcode::Goto, 0, addr_end, 0);
    b.resolve(addr_output_row);
    let output_skip = b.new_label();
    b.emit_jump(Opcode::IfNot, i_use_flag, output_skip, 1);
    emit_finals(b, p);
    if let Err(err) = compile_filter(b, &p.having, output_skip, ctx) {
        return Err(err);
    }
    let result_reg: i32 = b.alloc_regs(ncol);
    if let Err(err) = compile_list(b, &p.outputs, result_reg, ctx) {
        return Err(err);
    }
    emit_distinct(b, distinct, 2, output_skip, result_reg, ncol);
    if ordered {
        if let Err(err) = compile_sort_row(b, &p.order, result_reg, ncol, 2, ctx) {
            return Err(err);
        }
    } else {
        let row_end = b.new_label();
        if let Some(oreg) = offset_reg {
            b.emit_jump(Opcode::IfPos, oreg, row_end, 1);
        }
        b.emit(Opcode::ResultRow, result_reg, ncol, 0);
        if let Some(lreg) = limit_reg {
            b.emit_jump(Opcode::DecrJumpZero, lreg, addr_end, 0);
        }
        b.resolve(row_end);
    }
    b.resolve(output_skip);
    b.emit(Opcode::Return, reg_output_row, 0, 0);
    b.resolve(addr_reset);
    b.emit(Opcode::Integer, 0, i_use_flag, 0);
    b.emit(Opcode::Return, reg_reset, 0, 0);
    b.resolve(addr_end);
    b.emit(Opcode::Halt, 0, 0, 0);
    Ok(())
}

/// The rule that turns an expression into one over the accumulators and the group key.
pub open spec fn output_rule(
    calls: Seq<AggCallView>,
    base: i32,
    keys: Seq<ExprView>,
    key_base: i32,
    functions: FunctionsView,
) -> RuleView {
    RuleView::GroupOutput { calls, base, functions, keys, key_base }
}

/// The program of an aggregate query, once its accumulators have registers.
#[verifier::opaque]
pub open spec fn gen_grouped(
    s: Asm,
    select: SelectStmtView,
    table: TableView,
    p: AggPlanView,
    limit: Option<i32>,
    offset: Option<i32>,
    ctx: CtxView,
) -> Asm {
    let ncol = p.outputs.len() as i32;
    let nkey = select.group_by.len() as i32;
    let ordered = select.order_by.len() > 0;
    let sorter: i32 = if nkey > 0 {
        2
    } else {
        1
    };
    let s = gen_open(s, Opcode::OpenRead, 0, table);
    let s = if ordered {
        s.emit_p4(
            Opcode::SorterOpen,
            sorter,
            (select.order_by.len() as i32).wrapping_add(ncol),
            0,
            P4View::KeyInfo(order_key_info(select.order_by)),
        ).note_cursor(sorter)
    } else {
        s
    };
    if nkey == 0 {
        gen_one_group(s, p, select.where_clause, ordered, limit, offset, ctx)
    } else {
        gen_group_walk(
            gen_group_scan(s, p, select.group_by, select.where_clause, ctx),
            p,
            select.group_by.len(),
            ordered,
            select.distinct,
            limit,
            offset,
            ctx,
        )
    }
}

/// `n` registers, if any are asked for.
pub open spec fn gen_some_regs(s: Asm, n: i32) -> Asm {
    if n > 0 {
        s.take_regs(n)
    } else {
        s
    }
}

/// The first of those registers.
pub open spec fn some_regs(s: Asm, n: i32) -> i32 {
    if n > 0 {
        s.next_reg
    } else {
        0
    }
}

/// The program of an aggregate query.
#[verifier::opaque]
pub open spec fn gen_aggregate(
    select: SelectStmtView,
    table: TableView,
    outputs: Seq<(ExprView, Seq<char>)>,
    limit: Option<i64>,
    offset: i64,
    functions: FunctionsView,
) -> Asm {
    let calls = query_calls(outputs, select.having, functions);
    match kinds_from(Seq::empty(), calls, functions, 0) {
        Err(m) => prologue().fail(m),
        Ok(kinds) => if limit == Some(0i64) {
            gen_epilogue(prologue().emit(Opcode::Halt, 0, 0, 0))
        } else {
            let nkey = select.group_by.len() as i32;
            let n_agg = calls.len() as i32;
            let s0 = prologue();
            let s1 = gen_limit(s0, limit);
            let s2 = gen_offset(s1, offset);
            let base = some_regs(s2, n_agg);
            let s3 = gen_some_regs(s2, n_agg);
            let key_base = some_regs(s3, nkey);
            let s4 = gen_some_regs(s3, nkey);
            let rule = output_rule(calls, base, select.group_by, key_base, functions);
            match order_forms(Seq::empty(), rule, select.order_by, outputs, 0) {
                Err(m) => s4.fail(m),
                Ok(order) => {
                    let p = AggPlanView {
                        calls,
                        kinds,
                        base,
                        key_base,
                        outputs: output_forms(rule, outputs),
                        having: match select.having {
                            None => None,
                            Some(h) => Some(output_form(rule, h)),
                        },
                        order,
                    };
                    gen_epilogue(
                        gen_grouped(
                            s4,
                            select,
                            table,
                            p,
                            limit_reg(s0, limit),
                            offset_reg(s1, offset),
                            table_ctx(table, 0, functions),
                        ),
                    )
                },
            }
        },
    }
}

fn compile_grouped(
    b: &mut ProgramBuilder,
    select: &SelectStmt,
    table: &Table,
    p: &AggPlan,
    limit_reg: Option<i32>,
    offset_reg: Option<i32>,
    ctx: Ctx,
) -> (r: Result<(), Error>)
    requires
        p.kinds@.len() == p.calls@.len(),
    ensures
        emitted(
            r,
            final(b)@,
            gen_grouped(old(b)@, select@, table@, p@, limit_reg, offset_reg, ctx@),
        ),
        r is Ok ==> steady(old(b)@, final(b)@),
{
    reveal(gen_grouped);
    assert(select@.order_by == ordering_terms_view(select.order_by@));
    assert(select@.group_by == exprs_view(select.group_by@));
    let ncol: i32 = p.outputs.len() as i32;
    let nkey: i32 = select.group_by.len() as i32;
    let ordered = select.order_by.len() > 0;
    let sorter: i32 = if nkey > 0 {
        2
    } else {
        1
    };
    open_table(b, Opcode::OpenRead, 0, table);
    if ordered {
        b.emit_p4(
            Opcode::SorterOpen,
            sorter,
            (select.order_by.len() as i32).wrapping_add(ncol),
            0,
            P4::KeyInfo(key_info_of(&select.order_by)),
        );
        b.note_cursor(sorter);
    }
    if nkey == 0 {
        return compile_one_group(
            b,
            p,
            &select.where_clause,
            ordered,
            limit_reg,
            offset_reg,
            ctx,
        );
    }
    if let Err(err) = compile_group_scan(b, p, &select.group_by, &select.where_clause, ctx) {
        proof {
            broadcast use group_walk_stuck;
        }
        return Err(err);
    }
    compile_group_walk(
        b,
        p,
        select.group_by.len(),
        ordered,
        select.distinct,
        limit_reg,
        offset_reg,
        ctx,
    )
}

pub broadcast proof fn group_walk_stuck(
    s: Asm,
    p: AggPlanView,
    nkeys: nat,
    ordered: bool,
    distinct: bool,
    limit: Option<i32>,
    offset: Option<i32>,
    ctx: CtxView,
)
    requires
        s.err is Some,
    ensures
        #![trigger gen_group_walk(s, p, nkeys, ordered, distinct, limit, offset, ctx)]
        gen_group_walk(s, p, nkeys, ordered, distinct, limit, offset, ctx) == s,
{
    broadcast use {sort_row_stuck, distinct_stuck};

    reveal(gen_group_walk);
}

fn rewrite_having(rule: &Rule, having: &Option<Expr>) -> (r: Option<Expr>)
    ensures
        opt_expr_view(r) == (match opt_expr_view(*having) {
            None => None,
            Some(h) => Some(output_form(rule@, h)),
        }),
{
    match having {
        None => None,
        Some(h) => Some(rewrite_projection_expr(rule, h)),
    }
}

fn alloc_some(b: &mut ProgramBuilder, n: i32) -> (r: i32)
    ensures
        final(b)@ == gen_some_regs(old(b)@, n),
        r == some_regs(old(b)@, n),
        steady(old(b)@, final(b)@),
{
    if n > 0 {
        b.alloc_regs(n)
    } else {
        0
    }
}

/// Compile an aggregate query.
pub fn compile_aggregate(
    select: &SelectStmt,
    table: &Table,
    outputs: &Vec<Output>,
    limit: Option<i64>,
    offset: i64,
    functions: &Functions,
) -> (r: Result<Program, Error>)
    ensures
        built(
            r,
            gen_aggregate(select@, table@, outputs_view(outputs@), limit, offset, functions@),
        ),
{
    reveal(gen_aggregate);
    assert(select@.having == opt_expr_view(select.having));
    assert(select@.order_by == ordering_terms_view(select.order_by@));
    assert(select@.group_by == exprs_view(select.group_by@));
    let (mut b, setup, after_init) = begin();
    let calls = find_calls(outputs, &select.having, functions);
    let kinds = match find_kinds(&calls, functions) {
        Ok(k) => k,
        Err(m) => {
            return Err(m);
        },
    };
    if let Some(n) = limit {
        if n == 0 {
            b.emit(Opcode::Halt, 0, 0, 0);
            return Ok(end(b, setup, after_init));
        }
    }
    let nkey: i32 = select.group_by.len() as i32;
    let n_agg: i32 = calls.len() as i32;
    let lreg = emit_limit(&mut b, limit);
    let oreg = emit_offset(&mut b, offset);
    let base: i32 = alloc_some(&mut b, n_agg);
    let key_base: i32 = alloc_some(&mut b, nkey);
    let rule = Rule::GroupOutput(
        Accumulators { calls: &calls, base, functions },
        &select.group_by,
        key_base,
    );
    assert(rule@ == output_rule(
        calls_view(calls@),
        base,
        select@.group_by,
        key_base,
        functions@,
    ));
    let order = match rewrite_order(&rule, &select.order_by, outputs) {
        Ok(v) => v,
        Err(m) => {
            return Err(m);
        },
    };
    let new_outputs = rewrite_outputs(&rule, outputs);
    let having = rewrite_having(&rule, &select.having);
    let p = AggPlan { calls, kinds, base, key_base, outputs: new_outputs, having, order };
    let ctx = over_table(table, 0, functions);
    if let Err(err) = compile_grouped(&mut b, select, table, &p, lreg, oreg, ctx) {
        return Err(err);
    }
    Ok(end(b, setup, after_init))
}

} // verus!
