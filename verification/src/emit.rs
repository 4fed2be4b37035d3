//! Pieces of code that several statements share: the frame of a program, row counters, lists of
//! expressions and columns, sort keys, and the output of a sorter.
use vstd::prelude::*;

use crate::ast::{exprs_view, ordering_terms_view, Expr, ExprView, OrderingTerm, OrderingTermView};
use crate::builder::{lemma_fresh_instruction, reg_at, reg_off, Asm, Label, ProgramBuilder};
use crate::columns::{exprs_of, order_expr, outputs_view, resolve_order_term, Output};
use crate::expr::{compile_expr, emit_constant, gen_expr, gen_expr_list, gen_int, group_expr};
use crate::schema::{Table, TableView};
use crate::scope::{emitted, heads_for, steady, Ctx, CtxView};
use crate::text::Error;
use crate::vdbe::{Collation, InstView, KeyField, Opcode, P4, P4View, Program};

verus! {

broadcast use group_expr;

// ---- The frame of a program ----

/// The program that a script ends in, or its error.
pub open spec fn built(r: Result<Program, Error>, want: Asm) -> bool {
    match r {
        Ok(p) => want.err is None && p@ == want.program(),
        Err(e) => want.err == Some(e@),
    }
}

/// The label of the setup code at the end of a program.
#[verifier::opaque]
pub open spec fn setup_label() -> int {
    Asm::start().fresh()
}

/// The state after the first instruction, which jumps to the setup code.
#[verifier::opaque]
pub open spec fn prologue() -> Asm {
    Asm::start().label().jump(Opcode::Init, 0, Asm::start().fresh(), 0)
}

/// The setup code starts a transaction and goes back to the body.
#[verifier::opaque]
pub open spec fn gen_epilogue(s: Asm) -> Asm {
    s.bind(setup_label()).emit(Opcode::Transaction, 0, 0, 0).emit(
        Opcode::Goto,
        0,
        prologue().here(),
        0,
    )
}

/// The setup code of a program that touches no table: it goes back to the body.
#[verifier::opaque]
pub open spec fn gen_bare_epilogue(s: Asm) -> Asm {
    s.bind(setup_label()).emit(Opcode::Goto, 0, prologue().here(), 0)
}

pub broadcast proof fn epilogue_stuck(s: Asm)
    requires
        s.err is Some,
    ensures
        #![trigger gen_epilogue(s)]
        gen_epilogue(s) == s,
{
    reveal(gen_epilogue);
}

pub broadcast proof fn bare_epilogue_stuck(s: Asm)
    requires
        s.err is Some,
    ensures
        #![trigger gen_bare_epilogue(s)]
        gen_bare_epilogue(s) == s,
{
    reveal(gen_bare_epilogue);
}

/// Start a program: the builder, the label of the setup code, and the address of the body.
pub fn begin() -> (r: (ProgramBuilder, Label, i32))
    ensures
        r.0@ == prologue(),
        r.1.id() == setup_label(),
        r.2 == prologue().here(),
        prologue().wf(),
        0 <= setup_label() < prologue().fresh(),
        forall|l: int| #[trigger] prologue().owes(l) ==> l == setup_label(),
{
    reveal(prologue);
    reveal(setup_label);
    let mut b = ProgramBuilder::new();
    let setup = b.new_label();
    b.emit_jump(Opcode::Init, 0, setup, 0);
    let after_init: i32 = b.cur_addr();
    (b, setup, after_init)
}

/// Finish a program with its setup code.
pub fn end(b: ProgramBuilder, setup: Label, after_init: i32) -> (p: Program)
    requires
        setup.id() == setup_label(),
        after_init == prologue().here(),
        b@.wf(),
        0 <= setup_label() < b@.fresh(),
        forall|l: int| #[trigger] b@.owes(l) ==> l == setup_label(),
    ensures
        gen_epilogue(b@).err is None,
        p@ == gen_epilogue(b@).program(),
{
    reveal(gen_epilogue);
    let mut b = b;
    b.resolve(setup);
    b.emit(Opcode::Transaction, 0, 0, 0);
    b.emit(Opcode::Goto, 0, after_init, 0);
    b.finish()
}

/// Finish a program that touches no table.
pub fn end_bare(b: ProgramBuilder, setup: Label, after_init: i32) -> (p: Program)
    requires
        setup.id() == setup_label(),
        after_init == prologue().here(),
        b@.wf(),
        0 <= setup_label() < b@.fresh(),
        forall|l: int| #[trigger] b@.owes(l) ==> l == setup_label(),
    ensures
        gen_bare_epilogue(b@).err is None,
        p@ == gen_bare_epilogue(b@).program(),
{
    reveal(gen_bare_epilogue);
    let mut b = b;
    b.resolve(setup);
    b.emit(Opcode::Goto, 0, after_init, 0);
    b.finish()
}

/// The setup code of a program starts a transaction and goes back to the instruction after the
/// first one.
pub proof fn law_setup_goes_back(s: Asm)
    requires
        s.err is None,
        s.wf(),
    ensures
        ({
            let code = gen_epilogue(s).program().code;
            let n = s.code.len() as int;
            &&& code.len() == n + 2
            &&& code[n] == plain(Opcode::Transaction, 0, 0, 0)
            &&& code[n + 1] == plain(Opcode::Goto, 0, 1, 0)
        }),
        ({
            let code = gen_bare_epilogue(s).program().code;
            let n = s.code.len() as int;
            &&& code.len() == n + 1
            &&& code[n] == plain(Opcode::Goto, 0, 1, 0)
        }),
{
    reveal(gen_epilogue);
    reveal(gen_bare_epilogue);
    reveal(prologue);
    reveal(Asm::program);
    let n = s.code.len() as int;
    lemma_fresh_instruction(s, n);
    lemma_fresh_instruction(s, n + 1);
    assert(gen_epilogue(s).fixups == s.fixups && gen_bare_epilogue(s).fixups == s.fixups) by {
        reveal(Asm::append);
        reveal(Asm::bind);
    }
    assert(prologue().here() == 1);
}

/// An instruction without a `p4` operand and without flags.
pub open spec fn plain(opcode: Opcode, p1: i32, p2: i32, p3: i32) -> InstView {
    InstView { opcode, p1, p2, p3, p4: P4View::Unused, p5: 0 }
}

/// The program of a query that puts out nothing.
#[verifier::opaque]
pub open spec fn gen_nothing() -> Asm {
    gen_epilogue(prologue().emit(Opcode::Halt, 0, 0, 0))
}

/// A program that puts out nothing.
pub fn empty_program() -> (p: Program)
    ensures
        gen_nothing().err is None,
        p@ == gen_nothing().program(),
{
    reveal(gen_nothing);
    let (mut b, setup, after_init) = begin();
    b.emit(Opcode::Halt, 0, 0, 0);
    end(b, setup, after_init)
}

// ---- Constants and counters ----

/// A constant in a register of its own.
#[verifier::opaque]
pub open spec fn gen_const(s: Asm, n: i64) -> Asm {
    gen_int(s.take_regs(1), n, s.next_reg)
}

/// Load a constant into a fresh register and return it.
pub fn emit_int(b: &mut ProgramBuilder, n: i64) -> (r: i32)
    ensures
        final(b)@ == gen_const(old(b)@, n),
        r == old(b)@.next_reg,
        steady(old(b)@, final(b)@),
{
    reveal(gen_const);
    let r: i32 = b.alloc_reg();
    emit_constant(b, n, r);
    r
}

/// The counter of a row limit, if there is one.
#[verifier::opaque]
pub open spec fn gen_limit(s: Asm, limit: Option<i64>) -> Asm {
    match limit {
        Some(n) => if n > 0 {
            gen_const(s, n)
        } else {
            s
        },
        None => s,
    }
}

/// The register of that counter.
#[verifier::opaque]
pub open spec fn limit_reg(s: Asm, limit: Option<i64>) -> Option<i32> {
    match limit {
        Some(n) => if n > 0 {
            Some(s.next_reg)
        } else {
            None
        },
        None => None,
    }
}

/// The counter of the rows to skip, if there are any.
#[verifier::opaque]
pub open spec fn gen_offset(s: Asm, offset: i64) -> Asm {
    if offset > 0 {
        gen_const(s, offset)
    } else {
        s
    }
}

/// The register of that counter.
#[verifier::opaque]
pub open spec fn offset_reg(s: Asm, offset: i64) -> Option<i32> {
    if offset > 0 {
        Some(s.next_reg)
    } else {
        None
    }
}

/// Set up the counter of a row limit. Returns its register.
pub fn emit_limit(b: &mut ProgramBuilder, limit: Option<i64>) -> (r: Option<i32>)
    ensures
        final(b)@ == gen_limit(old(b)@, limit),
        r == limit_reg(old(b)@, limit),
        steady(old(b)@, final(b)@),
{
    reveal(gen_limit);
    reveal(limit_reg);
    if let Some(n) = limit {
        if n > 0 {
            return Some(emit_int(b, n));
        }
    }
    None
}

/// Set up the counter of the rows to skip. Returns its register.
pub fn emit_offset(b: &mut ProgramBuilder, offset: i64) -> (r: Option<i32>)
    ensures
        final(b)@ == gen_offset(old(b)@, offset),
        r == offset_reg(old(b)@, offset),
        steady(old(b)@, final(b)@),
{
    reveal(gen_offset);
    reveal(offset_reg);
    if offset > 0 {
        Some(emit_int(b, offset))
    } else {
        None
    }
}

/// A jump taken while the counter, if there is one, is positive.
pub open spec fn gen_skip(s: Asm, counter: Option<i32>, d: int) -> Asm {
    match counter {
        Some(r) => s.jump(Opcode::IfPos, r, d, 1),
        None => s,
    }
}

/// A jump taken when the counter, if there is one, has run out.
pub open spec fn gen_stop(s: Asm, counter: Option<i32>, d: int) -> Asm {
    match counter {
        Some(r) => s.jump(Opcode::DecrJumpZero, r, d, 0),
        None => s,
    }
}

// ---- Lists ----

/// The columns `from`, `from + 1` and so on of a cursor into the registers from `to` on, from
/// the `k`-th to the `n`-th.
pub open spec fn gen_columns(s: Asm, cursor: i32, from: i32, to: i32, n: int, k: int) -> Asm
    decreases n - k,
{
    if s.err is Some || k >= n {
        s
    } else {
        gen_columns(
            s.emit(Opcode::Column, cursor, reg_at(from, k), reg_at(to, k)),
            cursor,
            from,
            to,
            n,
            k + 1,
        )
    }
}

/// Read `n` columns of a cursor into consecutive registers.
pub fn emit_columns(b: &mut ProgramBuilder, cursor: i32, from: i32, to: i32, n: i32)
    ensures
        final(b)@ == gen_columns(old(b)@, cursor, from, to, n as int, 0),
        steady(old(b)@, final(b)@),
{
    let ghost want = gen_columns(b@, cursor, from, to, n as int, 0);
    let mut k: i32 = 0;
    while k < n
        invariant
            0 <= k,
            k <= n || k == 0,
            gen_columns(b@, cursor, from, to, n as int, k as int) == want,
            steady(old(b)@, b@),
        decreases n - k,
    {
        b.emit(Opcode::Column, cursor, from.wrapping_add(k), to.wrapping_add(k));
        k = k + 1;
    }
}

/// The registers `from`, `from + 1` and so on copied to those from `to` on, from the `k`-th to
/// the `n`-th.
pub open spec fn gen_copies(s: Asm, from: i32, to: i32, n: int, k: int) -> Asm
    decreases n - k,
{
    if s.err is Some || k >= n {
        s
    } else {
        gen_copies(
            s.emit(Opcode::SCopy, reg_at(from, k), reg_at(to, k), 0),
            from,
            to,
            n,
            k + 1,
        )
    }
}

/// Copy `n` consecutive registers.
pub fn emit_copies(b: &mut ProgramBuilder, from: i32, to: i32, n: i32)
    ensures
        final(b)@ == gen_copies(old(b)@, from, to, n as int, 0),
        steady(old(b)@, final(b)@),
{
    let ghost want = gen_copies(b@, from, to, n as int, 0);
    let mut k: i32 = 0;
    while k < n
        invariant
            0 <= k,
            k <= n || k == 0,
            gen_copies(b@, from, to, n as int, k as int) == want,
            steady(old(b)@, b@),
        decreases n - k,
    {
        b.emit(Opcode::SCopy, from.wrapping_add(k), to.wrapping_add(k), 0);
        k = k + 1;
    }
}

/// Compute each output column into its own register after `base`.
pub fn compile_outputs(b: &mut ProgramBuilder, outputs: &Vec<Output>, base: i32, ctx: Ctx) -> (r:
    Result<(), Error>)
    ensures
        emitted(
            r,
            final(b)@,
            gen_expr_list(old(b)@, exprs_of(outputs_view(outputs@)), base, ctx@, 0),
        ),
        r is Ok ==> steady(old(b)@, final(b)@),
{
    let ghost es = exprs_of(outputs_view(outputs@));
    let ghost want = gen_expr_list(b@, es, base, ctx@, 0);
    for k in 0..outputs.len()
        invariant
            es == exprs_of(outputs_view(outputs@)),
            gen_expr_list(b@, es, base, ctx@, k as int) == want,
            want == gen_expr_list(old(b)@, es, base, ctx@, 0),
            steady(old(b)@, b@),
    {
        proof {
            reveal_with_fuel(gen_expr_list, 2);
            assert(es[k as int] == outputs@[k as int].0@);
        }
        if let Err(err) = compile_expr(b, &outputs[k].0, reg_off(base, k), ctx) {
            return Err(err);
        }
    }
    Ok(())
}

/// Compute each expression into its own register after `base`.
pub fn compile_list(b: &mut ProgramBuilder, es: &Vec<Expr>, base: i32, ctx: Ctx) -> (r: Result<
    (),
    Error,
>)
    ensures
        emitted(r, final(b)@, gen_expr_list(old(b)@, exprs_view(es@), base, ctx@, 0)),
        r is Ok ==> steady(old(b)@, final(b)@),
{
    let ghost want = gen_expr_list(b@, exprs_view(es@), base, ctx@, 0);
    for k in 0..es.len()
        invariant
            gen_expr_list(b@, exprs_view(es@), base, ctx@, k as int) == want,
            want == gen_expr_list(old(b)@, exprs_view(es@), base, ctx@, 0),
            steady(old(b)@, b@),
    {
        proof {
            reveal_with_fuel(gen_expr_list, 2);
            assert(exprs_view(es@)[k as int] == es@[k as int]@);
        }
        if let Err(err) = compile_expr(b, &es[k], reg_off(base, k), ctx) {
            return Err(err);
        }
    }
    Ok(())
}

// ---- Sorting ----

/// How sort keys compare: in the order written, byte by byte.
pub open spec fn order_key_info(terms: Seq<OrderingTermView>) -> Seq<KeyField> {
    Seq::new(
        terms.len(),
        |i: int| KeyField { desc: terms[i].desc, collation: Collation::Binary },
    )
}

/// How the sort key of some terms compares.
pub fn key_info_of(terms: &Vec<OrderingTerm>) -> (r: Vec<KeyField>)
    ensures
        r@ == order_key_info(ordering_terms_view(terms@)),
{
    let mut r: Vec<KeyField> = Vec::new();
    let ghost all = order_key_info(ordering_terms_view(terms@));
    for i in 0..terms.len()
        invariant
            all == order_key_info(ordering_terms_view(terms@)),
            r@ == all.take(i as int),
    {
        assert(ordering_terms_view(terms@)[i as int] == terms@[i as int]@);
        r.push(KeyField { desc: terms[i].desc, collation: Collation::Binary });
        assert(all.take(i + 1) =~= all.take(i as int).push(all[i as int]));
    }
    assert(all.take(terms@.len() as int) =~= all);
    r
}

/// The sort keys from the `k`-th on, each into its own register after `base`.
pub open spec fn gen_order_keys(
    s: Asm,
    terms: Seq<OrderingTermView>,
    outputs: Seq<(ExprView, Seq<char>)>,
    base: i32,
    ctx: CtxView,
    k: int,
) -> Asm
    decreases terms.len() - k,
{
    if s.err is Some || k < 0 || k >= terms.len() {
        s
    } else {
        gen_order_keys(
            match order_expr(terms[k].expr, outputs) {
                Err(m) => s.fail(m),
                Ok(e) => gen_expr(s, e, reg_at(base, k), ctx),
            },
            terms,
            outputs,
            base,
            ctx,
            k + 1,
        )
    }
}

/// Compile the sort key of some terms.
pub fn compile_order_keys(
    b: &mut ProgramBuilder,
    terms: &Vec<OrderingTerm>,
    outputs: &Vec<Output>,
    base: i32,
    ctx: Ctx,
) -> (r: Result<(), Error>)
    ensures
        emitted(
            r,
            final(b)@,
            gen_order_keys(
                old(b)@,
                ordering_terms_view(terms@),
                outputs_view(outputs@),
                base,
                ctx@,
                0,
            ),
        ),
        r is Ok ==> steady(old(b)@, final(b)@),
{
    let ghost ts = ordering_terms_view(terms@);
    let ghost os = outputs_view(outputs@);
    let ghost want = gen_order_keys(b@, ts, os, base, ctx@, 0);
    for k in 0..terms.len()
        invariant
            ts == ordering_terms_view(terms@),
            os == outputs_view(outputs@),
            gen_order_keys(b@, ts, os, base, ctx@, k as int) == want,
            want == gen_order_keys(old(b)@, ts, os, base, ctx@, 0),
            steady(old(b)@, b@),
    {
        proof {
            reveal_with_fuel(gen_order_keys, 2);
            assert(ts[k as int] == terms@[k as int]@);
        }
        match resolve_order_term(&terms[k], outputs) {
            Err(err) => {
                return Err(err);
            },
            Ok(e) => {
                if let Err(err) = compile_expr(b, &e, reg_off(base, k), ctx) {
                    return Err(err);
                }
            },
        }
    }
    Ok(())
}

/// The rows of a sorter in order: `norder` sort keys, then the `ncol` columns that are put out.
/// The code leaves for label `end` when the sorter is empty or the limit is reached.
#[verifier::opaque]
pub open spec fn gen_sort_tail(
    s: Asm,
    sorter: i32,
    norder: i32,
    ncol: i32,
    limit: Option<i32>,
    offset: Option<i32>,
    end: int,
) -> Asm {
    let s = s.jump(Opcode::SorterSort, sorter, end, 0);
    let top = s.here();
    let next = s.fresh();
    let s = s.label().emit(Opcode::SorterData, sorter, 0, 0);
    let s = gen_skip(s, offset, next);
    let result = s.next_reg;
    let s = gen_columns(s.take_regs(ncol), sorter, norder, result, ncol as int, 0);
    let s = s.emit(Opcode::ResultRow, result, ncol, 0);
    gen_stop(s, limit, end).bind(next).emit(Opcode::SorterNext, sorter, top, 0)
}

pub broadcast proof fn sort_tail_stuck(
    s: Asm,
    sorter: i32,
    norder: i32,
    ncol: i32,
    limit: Option<i32>,
    offset: Option<i32>,
    end: int,
)
    requires
        s.err is Some,
    ensures
        #![trigger gen_sort_tail(s, sorter, norder, ncol, limit, offset, end)]
        gen_sort_tail(s, sorter, norder, ncol, limit, offset, end) == s,
{
    reveal(gen_sort_tail);
}

/// Put out the rows of a sorter in order.
pub fn emit_sort_tail(
    b: &mut ProgramBuilder,
    sorter: i32,
    norder: i32,
    ncol: i32,
    limit_reg: Option<i32>,
    offset_reg: Option<i32>,
    end_label: Label,
)
    requires
        end_label.id() < old(b)@.fresh(),
    ensures
        final(b)@ == gen_sort_tail(
            old(b)@,
            sorter,
            norder,
            ncol,
            limit_reg,
            offset_reg,
            end_label.id(),
        ),
        heads_for(old(b)@, final(b)@, end_label.id()),
{
    reveal(gen_sort_tail);
    b.emit_jump(Opcode::SorterSort, sorter, end_label, 0);
    let out_top: i32 = b.cur_addr();
    let sort_next = b.new_label();
    b.emit(Opcode::SorterData, sorter, 0, 0);
    if let Some(oreg) = offset_reg {
        b.emit_jump(Opcode::IfPos, oreg, sort_next, 1);
    }
    let result_reg: i32 = b.alloc_regs(ncol);
    emit_columns(b, sorter, norder, result_reg, ncol);
    b.emit(Opcode::ResultRow, result_reg, ncol, 0);
    if let Some(lreg) = limit_reg {
        b.emit_jump(Opcode::DecrJumpZero, lreg, end_label, 0);
    }
    b.resolve(sort_next);
    b.emit(Opcode::SorterNext, sorter, out_top, 0);
}

// ---- Opening tables ----

/// The `p4` operand of the instruction that opens a table: how its rows compare, or how many
/// columns they have.
#[verifier::opaque]
pub open spec fn table_operand(t: TableView) -> P4View {
    if t.without_rowid {
        P4View::KeyInfo(t.key_info())
    } else {
        P4View::Int(t.columns.len() as i64)
    }
}

/// The operand that an instruction opening a table carries.
pub fn table_operand_of(t: &Table) -> (r: P4)
    ensures
        r@ == table_operand(t@),
{
    reveal(table_operand);
    if t.without_rowid {
        P4::KeyInfo(t.without_rowid_key_info())
    } else {
        P4::Int(t.columns.len() as i64)
    }
}

/// A table opened on a cursor.
#[verifier::opaque]
pub open spec fn gen_open(s: Asm, opcode: Opcode, cursor: i32, t: TableView) -> Asm {
    s.emit_p4(opcode, cursor, t.rootpage as i32, 0, table_operand(t)).note_cursor(cursor)
}

pub broadcast proof fn open_stuck(s: Asm, opcode: Opcode, cursor: i32, t: TableView)
    requires
        s.err is Some,
    ensures
        #![trigger gen_open(s, opcode, cursor, t)]
        gen_open(s, opcode, cursor, t) == s,
{
    reveal(gen_open);
}

/// Open a table on a cursor.
pub fn open_table(b: &mut ProgramBuilder, opcode: Opcode, cursor: i32, t: &Table)
    ensures
        final(b)@ == gen_open(old(b)@, opcode, cursor, t@),
        steady(old(b)@, final(b)@),
{
    reveal(gen_open);
    let p4 = table_operand_of(t);
    b.emit_p4(opcode, cursor, t.rootpage as i32, 0, p4);
    b.note_cursor(cursor);
}

pub broadcast group group_emit {
    group_expr,
    epilogue_stuck,
    bare_epilogue_stuck,
    sort_tail_stuck,
    open_stuck,
}

} // verus!
