//! Compound queries: `UNION`, `UNION ALL`, `INTERSECT` and `EXCEPT`.
//!
//! `UNION ALL` of two arms without an `ORDER BY` runs one arm after the other. Everything else
//! is a merge of two coroutines that yield their rows in key order. The keys are the columns that
//! the `ORDER BY` names and behind them all others from left to right, so that rows are taken for
//! equal only where all their columns are. Where a term of the `ORDER BY` stands for no column,
//! the arms compute it in a column of its own and the rows are sorted at the end. A compound of
//! three or more arms is read from the left: all arms but the last form the left side of the last
//! operator.
use vstd::prelude::*;

use crate::ast::{
    arms_view, expr_rows_view, exprs_view, from_items_view, names_view, opt_name_view,
    ordering_terms_view, result_columns_view, CompoundOperator, Expr, ExprView, Literal,
    LiteralView, NullsOrder, OrderingTerm, OrderingTermView, ResultColumn, ResultColumnView,
    SelectStmt, SelectStmtView,
};
use crate::builder::{Asm, Label, ProgramBuilder};
use crate::columns::{
    eval_limit_offset, expand_columns, expansion, limits, opt_table_view, outputs_view, Output,
};
use crate::emit::{
    begin, built, emit_columns, emit_limit, emit_offset, emit_sort_tail, empty_program, end,
    gen_columns, gen_epilogue, gen_limit, gen_nothing, gen_offset, gen_sort_tail, group_emit,
    key_info_of, limit_reg, offset_reg, order_key_info, prologue,
};
use crate::inline::{
    gen_inline, gen_redirect, gen_room, halt_from, halt_of, inline_code, make_room, redirect, Place,
    PlaceView, Sink, SinkView,
};
use crate::merge::{
    emit_coroutine, emit_merge_control, gen_coroutine, gen_merge, gen_merge_regs, merge_regs,
    take_merge_regs,
};
use crate::schema::{
    indexes_view, Functions, FunctionsView, IndexObject, IndexView, Table, TableView,
};
use crate::scope::{emitted, heads_for, steady};
use crate::select::{compile_simple, gen_select, output_names, select_names};
use crate::text::{cat2, cat3, decimal_u64, eq_ignore_case, eq_nocase, int_text, Error};
use crate::vdbe::{Opcode, P4, P4View, Program, ProgramView};

verus! {

broadcast use group_emit;

// ---- Two arms one after the other ----

/// Emission that may leave jumps to label `d`, if it is given, behind.
pub open spec fn heads_on(s0: Asm, s1: Asm, d: Option<int>) -> bool {
    match d {
        Some(l) => heads_for(s0, s1, l),
        None => steady(s0, s1),
    }
}

/// An arm of a chain. Its rows pass the shared counters; when the limit is reached the whole
/// program ends. At its end the code goes on at `next`, or ends.
#[verifier::opaque]
pub open spec fn gen_chain_arm(
    s: Asm,
    p: ProgramView,
    limit: Option<i32>,
    offset: Option<i32>,
    next: Option<int>,
    missing: Seq<char>,
) -> Asm {
    match halt_from(p.code, 0) {
        None => s.fail(missing),
        Some(halt) => {
            let stop = s.fresh();
            let place = PlaceView {
                regs: s.next_reg.wrapping_sub(1),
                cursors: s.next_cursor,
                stand_in: None,
                sink: SinkView::Rows { limit, offset, stop, next },
            };
            let s = gen_room(s.label(), p);
            let (t, map) = gen_inline(s, seq![0i32], p.code, halt, halt + 1, place, 1);
            let t = t.bind(stop);
            let t = if limit is Some {
                t.emit(Opcode::Halt, 0, 0, 0)
            } else {
                t
            };
            gen_redirect(t, s.code.len() as int, map, halt, t.here().wrapping_sub(1))
        },
    }
}

/// The number of an optional label.
pub open spec fn opt_label(l: Option<Label>) -> Option<int> {
    match l {
        Some(x) => Some(x.id()),
        None => None,
    }
}

fn emit_chain_arm(
    b: &mut ProgramBuilder,
    p: &Program,
    limit_reg: Option<i32>,
    offset_reg: Option<i32>,
    next: Option<Label>,
    missing: &str,
) -> (r: Result<(), Error>)
    requires
        next matches Some(l) ==> 0 <= l.id() < old(b)@.fresh(),
    ensures
        emitted(
            r,
            final(b)@,
            gen_chain_arm(old(b)@, p@, limit_reg, offset_reg, opt_label(next), missing@),
        ),
        r is Ok ==> heads_on(old(b)@, final(b)@, opt_label(next)),
{
    reveal(gen_chain_arm);
    let halt: usize = match halt_of(p) {
        Some(h) => h,
        None => {
            return Err(Error::lit(missing));
        },
    };
    let regs: i32 = b.next_reg().wrapping_sub(1);
    let cursors: i32 = b.next_cursor();
    let stop = b.new_label();
    let place = Place {
        regs,
        cursors,
        stand_in: None,
        sink: Sink::Rows { limit: limit_reg, offset: offset_reg, stop, next },
    };
    assert(place@.sink == SinkView::Rows {
        limit: limit_reg,
        offset: offset_reg,
        stop: stop.id(),
        next: opt_label(next),
    });
    make_room(b, p);
    let from: usize = b.insts_len();
    let map = inline_code(b, p, halt, halt + 1, &place);
    b.resolve(stop);
    if limit_reg.is_some() {
        b.emit(Opcode::Halt, 0, 0, 0);
    }
    let last: i32 = b.cur_addr().wrapping_sub(1);
    redirect(b, from, &map, halt, last);
    Ok(())
}

/// What compiling a query comes to: a program or an error.
pub open spec fn outcome_of(s: Asm) -> Result<ProgramView, Seq<char>> {
    match s.err {
        Some(m) => Err(m),
        None => Ok(s.program()),
    }
}

/// `UNION ALL` of two arms.
#[verifier::opaque]
pub open spec fn gen_chain(
    lead: Result<ProgramView, Seq<char>>,
    trail: Result<ProgramView, Seq<char>>,
    limit: Option<i64>,
    offset: i64,
) -> Asm {
    if limit == Some(0i64) {
        gen_nothing()
    } else {
        let s = prologue();
        let lreg = limit_reg(s, limit);
        let s = gen_limit(s, limit);
        let oreg = offset_reg(s, offset);
        let s = gen_offset(s, offset);
        match lead {
            Err(m) => s.fail(m),
            Ok(p) => {
                let next = s.fresh();
                let s = gen_chain_arm(
                    s.label(),
                    p,
                    lreg,
                    oreg,
                    Some(next),
                    "leading arm program has no Halt"@,
                ).bind(next);
                if s.err is Some {
                    s
                } else {
                    match trail {
                        Err(m) => s.fail(m),
                        Ok(q) => gen_epilogue(
                            gen_chain_arm(
                                s,
                                q,
                                lreg,
                                oreg,
                                None,
                                "trailing arm program has no Halt"@,
                            ),
                        ),
                    }
                }
            },
        }
    }
}

/// The value of an outcome of compiling part of a query.
pub open spec fn part(r: Result<Program, Error>) -> Result<ProgramView, Seq<char>> {
    match r {
        Ok(p) => Ok(p@),
        Err(e) => Err(e@),
    }
}

/// Join the programs of two arms.
pub fn chain_programs(
    lead: Result<Program, Error>,
    trail: Result<Program, Error>,
    limit: Option<i64>,
    offset: i64,
) -> (r: Result<Program, Error>)
    ensures
        built(r, gen_chain(part(lead), part(trail), limit, offset)),
{
    reveal(gen_chain);
    if limit == Some(0i64) {
        return Ok(empty_program());
    }
    let (mut b, setup, after_init) = begin();
    let lreg = emit_limit(&mut b, limit);
    let oreg = emit_offset(&mut b, offset);
    let p = match lead {
        Ok(p) => p,
        Err(err) => {
            return Err(err);
        },
    };
    let next = b.new_label();
    if let Err(err) = emit_chain_arm(
        &mut b,
        &p,
        lreg,
        oreg,
        Some(next),
        "leading arm program has no Halt",
    ) {
        return Err(err);
    }
    b.resolve(next);
    let q = match trail {
        Ok(q) => q,
        Err(err) => {
            return Err(err);
        },
    };
    if let Err(err) = emit_chain_arm(
        &mut b,
        &q,
        lreg,
        oreg,
        None,
        "trailing arm program has no Halt",
    ) {
        return Err(err);
    }
    Ok(end(b, setup, after_init))
}

// ---- Merging two sides ----

/// The column that a merge key names by its position, counted from 0.
pub open spec fn place_of(term: OrderingTermView) -> i32 {
    match term.expr {
        ExprView::Literal(LiteralView::Integer(n)) => #[verifier::truncate] ((n - 1) as i32),
        _ => 0,
    }
}

/// The columns that the merge keys name.
pub open spec fn places_of(terms: Seq<OrderingTermView>) -> Seq<i32> {
    Seq::new(terms.len(), |i: int| place_of(terms[i]))
}

fn key_places(terms: &Vec<OrderingTerm>) -> (r: Vec<i32>)
    ensures
        r@ == places_of(ordering_terms_view(terms@)),
{
    let ghost ts = ordering_terms_view(terms@);
    let mut r: Vec<i32> = Vec::new();
    for i in 0..terms.len()
        invariant
            ts == ordering_terms_view(terms@),
            r@.len() == i,
            forall|j: int| 0 <= j < i ==> #[trigger] r@[j] == place_of(ts[j]),
    {
        assert(ts[i as int] == terms@[i as int]@);
        let place: i32 = match &terms[i].expr {
            Expr::Literal(Literal::Integer(n)) => #[verifier::truncate]
            ((*n as i128 - 1) as i32),
            _ => 0,
        };
        r.push(place);
    }
    assert(r@ =~= places_of(ts));
    r
}

/// The merge of two programs that put out their rows in key order. The first `keep` columns tell
/// rows apart.
#[verifier::opaque]
pub open spec fn gen_two_sides(
    lead: Result<ProgramView, Seq<char>>,
    trail: Result<ProgramView, Seq<char>>,
    op: CompoundOperator,
    ncol: i32,
    keep: i32,
    terms: Seq<OrderingTermView>,
    limit: Option<i64>,
    offset: i64,
) -> Asm {
    match lead {
        Err(m) => Asm::start().fail(m),
        Ok(p) => match trail {
            Err(m) => Asm::start().fail(m),
            Ok(q) => if limit == Some(0i64) {
                gen_nothing()
            } else {
                let s = prologue();
                let lreg = limit_reg(s, limit);
                let s = gen_limit(s, limit);
                let oreg = offset_reg(s, offset);
                let s = gen_offset(s, offset);
                let regs = merge_regs(s, op, ncol, keep, places_of(terms));
                let s = gen_merge_regs(s, op, ncol, places_of(terms));
                let after_a = s.fresh();
                let s = gen_coroutine(
                    s.label(),
                    p,
                    regs.addr_a,
                    regs.block_a,
                    ncol,
                    after_a,
                    "leading arm program has no Halt"@,
                );
                if s.err is Some {
                    s
                } else {
                    let after_b = s.fresh();
                    let s = gen_coroutine(
                        s.label().bind(after_a),
                        q,
                        regs.addr_b,
                        regs.block_b,
                        ncol,
                        after_b,
                        "trailing arm program has no Halt"@,
                    );
                    if s.err is Some {
                        s
                    } else {
                        gen_epilogue(
                            gen_merge(
                                s,
                                op,
                                ncol,
                                places_of(terms),
                                order_key_info(terms),
                                regs,
                                lreg,
                                oreg,
                                after_b,
                            ),
                        )
                    }
                }
            },
        },
    }
}

/// Merge the programs of two arms.
pub fn merge_programs(
    lead: Result<Program, Error>,
    trail: Result<Program, Error>,
    op: CompoundOperator,
    ncol: i32,
    keep: i32,
    terms: &Vec<OrderingTerm>,
    limit: Option<i64>,
    offset: i64,
) -> (r: Result<Program, Error>)
    ensures
        built(
            r,
            gen_two_sides(
                part(lead),
                part(trail),
                op,
                ncol,
                keep,
                ordering_terms_view(terms@),
                limit,
                offset,
            ),
        ),
{
    broadcast use crate::builder::asm_fail;

    reveal(gen_two_sides);
    let p = match lead {
        Ok(p) => p,
        Err(err) => {
            return Err(err);
        },
    };
    let q = match trail {
        Ok(q) => q,
        Err(err) => {
            return Err(err);
        },
    };
    if limit == Some(0i64) {
        return Ok(empty_program());
    }
    let (mut b, setup, after_init) = begin();
    let lreg = emit_limit(&mut b, limit);
    let oreg = emit_offset(&mut b, offset);
    let places = key_places(terms);
    let regs = take_merge_regs(&mut b, op, ncol, keep, &places);
    let after_a = b.new_label();
    if let Err(err) = emit_coroutine(
        &mut b,
        &p,
        regs.addr_a,
        regs.block_a,
        ncol,
        after_a,
        "leading arm program has no Halt",
    ) {
        return Err(err);
    }
    let after_b = b.new_label();
    b.resolve(after_a);
    if let Err(err) = emit_coroutine(
        &mut b,
        &q,
        regs.addr_b,
        regs.block_b,
        ncol,
        after_b,
        "trailing arm program has no Halt",
    ) {
        return Err(err);
    }
    let keys = key_info_of(terms);
    emit_merge_control(&mut b, op, ncol, &places, keys, &regs, lreg, oreg, after_b);
    Ok(end(b, setup, after_init))
}

/// The rows of a program sorted: each goes into the sorter behind its keys.
#[verifier::opaque]
pub open spec fn gen_sorted_side(
    s: Asm,
    p: ProgramView,
    sorter: i32,
    ncol: i32,
    terms: Seq<OrderingTermView>,
) -> Asm {
    match halt_from(p.code, 0) {
        None => s.fail("left sub-compound program has no Halt"@),
        Some(halt) => {
            let regs = s.next_reg.wrapping_sub(1);
            let cursors = s.next_cursor;
            let s = gen_room(s, p);
            let place = PlaceView {
                regs,
                cursors,
                stand_in: None,
                sink: SinkView::Sorter { sorter, block: s.next_reg, ncol, places: places_of(terms) },
            };
            let s = s.take_regs((terms.len() as i32).wrapping_add(ncol));
            let (t, map) = gen_inline(s, seq![0i32], p.code, halt, halt, place, 1);
            gen_redirect(t, s.code.len() as int, map, halt, t.here())
        },
    }
}

fn emit_sorted_side(
    b: &mut ProgramBuilder,
    p: &Program,
    sorter: i32,
    ncol: i32,
    terms: &Vec<OrderingTerm>,
) -> (r: Result<(), Error>)
    ensures
        emitted(
            r,
            final(b)@,
            gen_sorted_side(old(b)@, p@, sorter, ncol, ordering_terms_view(terms@)),
        ),
        r is Ok ==> steady(old(b)@, final(b)@),
{
    reveal(gen_sorted_side);
    let halt: usize = match halt_of(p) {
        Some(h) => h,
        None => {
            return Err(Error::lit("left sub-compound program has no Halt"));
        },
    };
    let regs: i32 = b.next_reg().wrapping_sub(1);
    let cursors: i32 = b.next_cursor();
    make_room(b, p);
    let from: usize = b.insts_len();
    let block: i32 = b.alloc_regs((terms.len() as i32).wrapping_add(ncol));
    let places = key_places(terms);
    let place = Place {
        regs,
        cursors,
        stand_in: None,
        sink: Sink::Sorter { sorter, block, ncol, places: &places },
    };
    let map = inline_code(b, p, halt, halt, &place);
    let last: i32 = b.cur_addr();
    redirect(b, from, &map, halt, last);
    Ok(())
}

/// The coroutine that yields the rows of a sorter.
#[verifier::opaque]
pub open spec fn gen_sorter_coroutine(
    s: Asm,
    sorter: i32,
    nkey: i32,
    reg: i32,
    block: i32,
    ncol: i32,
    after: int,
) -> Asm {
    let s = s.jump(Opcode::InitCoroutine, reg, after, s.here().wrapping_add(1));
    let done = s.fresh();
    let s = s.label().jump(Opcode::SorterSort, sorter, done, 0);
    let top = s.here();
    let s = gen_columns(
        s.emit(Opcode::SorterData, sorter, 0, 0),
        sorter,
        nkey,
        block,
        ncol as int,
        0,
    );
    s.emit(Opcode::Yield, reg, 0, 0).emit(Opcode::SorterNext, sorter, top, 0).bind(done).emit(
        Opcode::EndCoroutine,
        reg,
        0,
        0,
    )
}

fn emit_sorter_coroutine(
    b: &mut ProgramBuilder,
    sorter: i32,
    nkey: i32,
    reg: i32,
    block: i32,
    ncol: i32,
    after: Label,
)
    requires
        after.id() < old(b)@.fresh(),
    ensures
        final(b)@ == gen_sorter_coroutine(
            old(b)@,
            sorter,
            nkey,
            reg,
            block,
            ncol,
            after.id(),
        ),
        heads_for(old(b)@, final(b)@, after.id()),
{
    reveal(gen_sorter_coroutine);
    let entry: i32 = b.cur_addr().wrapping_add(1);
    b.emit_jump(Opcode::InitCoroutine, reg, after, entry);
    let done = b.new_label();
    b.emit_jump(Opcode::SorterSort, sorter, done, 0);
    let top: i32 = b.cur_addr();
    b.emit(Opcode::SorterData, sorter, 0, 0);
    emit_columns(b, sorter, nkey, block, ncol);
    b.emit(Opcode::Yield, reg, 0, 0);
    b.emit(Opcode::SorterNext, sorter, top, 0);
    b.resolve(done);
    b.emit(Opcode::EndCoroutine, reg, 0, 0);
}

/// The merge of a compound on the left, whose rows are sorted first, with an arm on the right,
/// which puts out its rows in key order.
#[verifier::opaque]
pub open spec fn gen_last_side(
    left: Result<ProgramView, Seq<char>>,
    right: Result<ProgramView, Seq<char>>,
    op: CompoundOperator,
    ncol: i32,
    keep: i32,
    terms: Seq<OrderingTermView>,
    limit: Option<i64>,
    offset: i64,
) -> Asm {
    let nkey = terms.len() as i32;
    match left {
        Err(m) => Asm::start().fail(m),
        Ok(p) => if limit == Some(0i64) {
            gen_nothing()
        } else {
            let s = prologue();
            let lreg = limit_reg(s, limit);
            let s = gen_limit(s, limit);
            let oreg = offset_reg(s, offset);
            let s = gen_offset(s, offset);
            let sorter = s.next_cursor;
            let s = s.emit_p4(
                Opcode::SorterOpen,
                sorter,
                nkey.wrapping_add(ncol),
                0,
                P4View::KeyInfo(order_key_info(terms)),
            ).note_cursor(sorter);
            let s = gen_sorted_side(s, p, sorter, ncol, terms);
            if s.err is Some {
                s
            } else {
                let regs = merge_regs(s, op, ncol, keep, places_of(terms));
                let s = gen_merge_regs(s, op, ncol, places_of(terms));
                let after_a = s.fresh();
                let s = gen_sorter_coroutine(
                    s.label(),
                    sorter,
                    nkey,
                    regs.addr_a,
                    regs.block_a,
                    ncol,
                    after_a,
                );
                match right {
                    Err(m) => s.fail(m),
                    Ok(q) => {
                        let after_b = s.fresh();
                        let s = gen_coroutine(
                            s.label().bind(after_a),
                            q,
                            regs.addr_b,
                            regs.block_b,
                            ncol,
                            after_b,
                            "rightmost arm program has no Halt"@,
                        );
                        if s.err is Some {
                            s
                        } else {
                            gen_epilogue(
                                gen_merge(
                                    s,
                                    op,
                                    ncol,
                                    places_of(terms),
                                    order_key_info(terms),
                                    regs,
                                    lreg,
                                    oreg,
                                    after_b,
                                ),
                            )
                        }
                    },
                }
            }
        },
    }
}

/// Merge the program of a compound with that of the arm to its right.
pub fn merge_last_arm(
    left: Result<Program, Error>,
    right: Result<Program, Error>,
    op: CompoundOperator,
    ncol: i32,
    keep: i32,
    terms: &Vec<OrderingTerm>,
    limit: Option<i64>,
    offset: i64,
) -> (r: Result<Program, Error>)
    ensures
        built(
            r,
            gen_last_side(
                part(left),
                part(right),
                op,
                ncol,
                keep,
                ordering_terms_view(terms@),
                limit,
                offset,
            ),
        ),
{
    broadcast use crate::builder::asm_fail;

    reveal(gen_last_side);
    let p = match left {
        Ok(p) => p,
        Err(err) => {
            return Err(err);
        },
    };
    if limit == Some(0i64) {
        return Ok(empty_program());
    }
    let (mut b, setup, after_init) = begin();
    let lreg = emit_limit(&mut b, limit);
    let oreg = emit_offset(&mut b, offset);
    let nkey: i32 = terms.len() as i32;
    let sorter: i32 = b.next_cursor();
    b.emit_p4(
        Opcode::SorterOpen,
        sorter,
        nkey.wrapping_add(ncol),
        0,
        P4::KeyInfo(key_info_of(terms)),
    );
    b.note_cursor(sorter);
    if let Err(err) = emit_sorted_side(&mut b, &p, sorter, ncol, terms) {
        return Err(err);
    }
    let places = key_places(terms);
    let regs = take_merge_regs(&mut b, op, ncol, keep, &places);
    let after_a = b.new_label();
    emit_sorter_coroutine(&mut b, sorter, nkey, regs.addr_a, regs.block_a, ncol, after_a);
    let q = match right {
        Ok(q) => q,
        Err(err) => {
            return Err(err);
        },
    };
    let after_b = b.new_label();
    b.resolve(after_a);
    if let Err(err) = emit_coroutine(
        &mut b,
        &q,
        regs.addr_b,
        regs.block_b,
        ncol,
        after_b,
        "rightmost arm program has no Halt",
    ) {
        return Err(err);
    }
    let keys = key_info_of(terms);
    emit_merge_control(&mut b, op, ncol, &places, keys, &regs, lreg, oreg, after_b);
    Ok(end(b, setup, after_init))
}

// ---- Sorting the rows of a compound ----

/// The rows of a program, which has `width` columns, put out in the order of the given columns;
/// the first `ncol` columns are put out.
#[verifier::opaque]
pub open spec fn gen_resorted(
    inner: Result<ProgramView, Seq<char>>,
    width: i32,
    ncol: i32,
    terms: Seq<OrderingTermView>,
    limit: Option<i64>,
    offset: i64,
) -> Asm {
    let nkey = terms.len() as i32;
    match inner {
        Err(m) => Asm::start().fail(m),
        Ok(p) => if limit == Some(0i64) {
            gen_nothing()
        } else {
            let s = prologue();
            let lreg = limit_reg(s, limit);
            let s = gen_limit(s, limit);
            let oreg = offset_reg(s, offset);
            let s = gen_offset(s, offset);
            let sorter = s.next_cursor;
            let s = s.emit_p4(
                Opcode::SorterOpen,
                sorter,
                nkey.wrapping_add(width),
                0,
                P4View::KeyInfo(order_key_info(terms)),
            ).note_cursor(sorter);
            let s = gen_sorted_side(s, p, sorter, width, terms);
            if s.err is Some {
                s
            } else {
                let end = s.fresh();
                gen_epilogue(
                    gen_sort_tail(s.label(), sorter, nkey, ncol, lreg, oreg, end).bind(end).emit(
                        Opcode::Halt,
                        0,
                        0,
                        0,
                    ),
                )
            }
        },
    }
}

/// Sort the rows of a program.
pub fn sort_program(
    inner: Result<Program, Error>,
    width: i32,
    ncol: i32,
    terms: &Vec<OrderingTerm>,
    limit: Option<i64>,
    offset: i64,
) -> (r: Result<Program, Error>)
    ensures
        built(
            r,
            gen_resorted(
                part(inner),
                width,
                ncol,
                ordering_terms_view(terms@),
                limit,
                offset,
            ),
        ),
{
    broadcast use crate::builder::asm_fail;

    reveal(gen_resorted);
    let p = match inner {
        Ok(p) => p,
        Err(err) => {
            return Err(err);
        },
    };
    if limit == Some(0i64) {
        return Ok(empty_program());
    }
    let (mut b, setup, after_init) = begin();
    let lreg = emit_limit(&mut b, limit);
    let oreg = emit_offset(&mut b, offset);
    let nkey: i32 = terms.len() as i32;
    let sorter: i32 = b.next_cursor();
    b.emit_p4(
        Opcode::SorterOpen,
        sorter,
        nkey.wrapping_add(width),
        0,
        P4::KeyInfo(key_info_of(terms)),
    );
    b.note_cursor(sorter);
    if let Err(err) = emit_sorted_side(&mut b, &p, sorter, width, terms) {
        return Err(err);
    }
    let end_out = b.new_label();
    emit_sort_tail(&mut b, sorter, nkey, ncol, lreg, oreg, end_out);
    b.resolve(end_out);
    b.emit(Opcode::Halt, 0, 0, 0);
    Ok(end(b, setup, after_init))
}

// ---- The arms of a query ----

/// What the `FROM` clause of an arm stands for: its table, the indexes on it, and the same for
/// the arms of an arm that is a compound itself.
pub struct Source {
    pub table: Option<Table>,
    pub indexes: Vec<IndexObject>,
    pub arms: Vec<Result<Source, Error>>,
}

/// The mathematical value of a [`Source`].
pub ghost struct SourceView {
    pub table: Option<TableView>,
    pub indexes: Seq<IndexView>,
    pub arms: Seq<Result<SourceView, Seq<char>>>,
}

/// The mathematical value of a [`Source`].
pub open spec fn source_view(x: Source) -> SourceView
    decreases x,
{
    SourceView {
        table: match x.table {
            Some(t) => Some(t@),
            None => None,
        },
        indexes: indexes_view(x.indexes@),
        arms: sources_view(x.arms@),
    }
}

/// The mathematical values of some sources.
pub open spec fn sources_view(s: Seq<Result<Source, Error>>) -> Seq<Result<SourceView, Seq<char>>>
    decreases s,
{
    Seq::new(
        s.len(),
        |i: int|
            if 0 <= i < s.len() {
                match s[i] {
                    Ok(x) => Ok(source_view(x)),
                    Err(e) => Err(e@),
                }
            } else {
                arbitrary()
            },
    )
}

/// Every table among the sources is well-formed.
pub open spec fn sources_wf(s: Seq<Result<SourceView, Seq<char>>>) -> bool
    decreases s,
{
    forall|i: int|
        0 <= i < s.len() ==> match #[trigger] s[i] {
            Ok(x) => (x.table matches Some(t) ==> t.wf()) && sources_wf(x.arms),
            Err(_) => true,
        }
}

/// The source of arm `k`, as far as the arm reads a table: none, an error in finding it, or its
/// table, indexes and arms.
pub open spec fn arm_source(
    arm: SelectStmtView,
    sources: Seq<Result<SourceView, Seq<char>>>,
    k: int,
) -> Result<SourceView, Seq<char>> {
    let none = SourceView { table: None, indexes: Seq::empty(), arms: Seq::empty() };
    if arm.values.len() > 0 || arm.from.len() == 0 {
        if 0 <= k < sources.len() && sources[k] is Ok {
            Ok(SourceView { arms: sources[k]->Ok_0.arms, ..none })
        } else {
            Ok(none)
        }
    } else if 0 <= k < sources.len() {
        match sources[k] {
            Err(m) => Err(m),
            Ok(x) => if x.table is Some {
                Ok(x)
            } else {
                Ok(SourceView { arms: x.arms, ..none })
            },
        }
    } else {
        Ok(none)
    }
}

/// The name of an operator.
pub open spec fn operator_name(op: CompoundOperator) -> Seq<char> {
    match op {
        CompoundOperator::UnionAll => "UNION ALL"@,
        CompoundOperator::Union => "UNION"@,
        CompoundOperator::Intersect => "INTERSECT"@,
        CompoundOperator::Except => "EXCEPT"@,
    }
}

/// The name of an operator.
pub fn name_of_operator(op: CompoundOperator) -> (r: &'static str)
    ensures
        r@ == operator_name(op),
{
    match op {
        CompoundOperator::UnionAll => "UNION ALL",
        CompoundOperator::Union => "UNION",
        CompoundOperator::Intersect => "INTERSECT",
        CompoundOperator::Except => "EXCEPT",
    }
}

/// What is wrong with the arms from the `k`-th on, if anything: every arm has `ncol` columns.
pub open spec fn arms_error(
    arms: Seq<(CompoundOperator, SelectStmtView)>,
    sources: Seq<Result<SourceView, Seq<char>>>,
    ncol: nat,
    k: int,
) -> Option<Seq<char>>
    decreases arms.len() - k,
{
    if k < 0 || k >= arms.len() {
        None
    } else {
        match arm_source(arms[k].1, sources, k) {
            Err(m) => Some(m),
            Ok(x) => match expansion(arms[k].1, x.table) {
                Err(m) => Some(m),
                Ok(outputs) => if outputs.len() != ncol {
                    Some(
                        "SELECTs to the left and right of "@ + operator_name(arms[k].0)
                            + " do not have the same number of result columns"@,
                    )
                } else {
                    arms_error(arms, sources, ncol, k + 1)
                },
            },
        }
    }
}

/// The number that stands for column `i` in a sort term.
pub open spec fn nth(i: int) -> i64 {
    #[verifier::truncate]
    ((i + 1) as i64)
}

/// The number that stands for column `i` in a sort term.
fn ordinal(i: usize) -> (r: i64)
    ensures
        r == nth(i as int),
{
    #[verifier::truncate]
    ((i as i128 + 1) as i64)
}

/// The first output column from the `i`-th on with the given name.
pub open spec fn title_place(outputs: Seq<(ExprView, Seq<char>)>, name: Seq<char>, i: int) -> Option<
    int,
>
    decreases outputs.len() - i,
{
    if i < 0 || i >= outputs.len() {
        None
    } else if eq_nocase(outputs[i].1, name) {
        Some(i)
    } else {
        title_place(outputs, name, i + 1)
    }
}

/// The first output column from the `i`-th on that is the given expression.
pub open spec fn value_place(outputs: Seq<(ExprView, Seq<char>)>, e: ExprView, i: int) -> Option<
    int,
>
    decreases outputs.len() - i,
{
    if i < 0 || i >= outputs.len() {
        None
    } else if outputs[i].0 == e {
        Some(i)
    } else {
        value_place(outputs, e, i + 1)
    }
}

/// The output column, counted from 1, that a sort term of a compound stands for: the one that a
/// number counts to, the one that a bare name names, or the one that is the same expression. A
/// collation does not change the column. A number that counts to no column is an error, and any
/// other term that stands for none is a value that each arm computes.
pub open spec fn order_place(e: ExprView, outputs: Seq<(ExprView, Seq<char>)>) -> Result<
    Option<i64>,
    Seq<char>,
>
    decreases e,
{
    match e {
        ExprView::Literal(LiteralView::Integer(n)) => if 1 <= n <= outputs.len() {
            Ok(Some(n))
        } else {
            Err(
                "ORDER BY term out of range - should be between 1 and "@ + int_text(
                    outputs.len() as int,
                ),
            )
        },
        ExprView::Collate { expr, .. } => order_place(*expr, outputs),
        _ => {
            let named = match e {
                ExprView::Column { schema, table: None, name } => title_place(outputs, name, 0),
                _ => None,
            };
            match named {
                Some(i) => Ok(Some(nth(i))),
                None => match value_place(outputs, e, 0) {
                    Some(i) => Ok(Some(nth(i))),
                    None => Ok(None),
                },
            }
        },
    }
}

/// A merge key: the column at position `n`, counted from 1, in ascending order.
pub open spec fn plain_term(n: int) -> OrderingTermView {
    OrderingTermView {
        expr: ExprView::Literal(LiteralView::Integer(nth(n - 1))),
        desc: false,
        nulls: None,
    }
}

/// Sort terms with their columns by position, and the values that are to stand behind the
/// columns of the result for those that stand for none of them.
pub ghost struct PlacedTerms {
    pub terms: Seq<OrderingTermView>,
    pub extras: Seq<ExprView>,
}

/// The first `k` sort terms with their columns by position.
pub open spec fn placed_terms(
    order_by: Seq<OrderingTermView>,
    outputs: Seq<(ExprView, Seq<char>)>,
    k: int,
) -> Result<PlacedTerms, Seq<char>>
    decreases k,
{
    if k <= 0 || k > order_by.len() {
        Ok(PlacedTerms { terms: Seq::empty(), extras: Seq::empty() })
    } else {
        let term = order_by[k - 1];
        match placed_terms(order_by, outputs, k - 1) {
            Err(m) => Err(m),
            Ok(p) => match order_place(term.expr, outputs) {
                Err(m) => Err(m),
                Ok(Some(n)) => Ok(PlacedTerms { terms: p.terms.push(at_place(term, n)), ..p }),
                Ok(None) => Ok(
                    PlacedTerms {
                        terms: p.terms.push(
                            at_place(term, nth((outputs.len() + p.extras.len()) as int)),
                        ),
                        extras: p.extras.push(term.expr),
                    },
                ),
            },
        }
    }
}

/// A sort term on the column at position `n`.
pub open spec fn at_place(term: OrderingTermView, n: i64) -> OrderingTermView {
    OrderingTermView { expr: ExprView::Literal(LiteralView::Integer(n)), ..term }
}

/// One of the keys is the column at position `n`.
pub open spec fn has_key(ts: Seq<OrderingTermView>, n: int) -> bool {
    exists|i: int|
        0 <= i < ts.len() && #[trigger] ts[i].expr == ExprView::Literal(
            LiteralView::Integer(nth(n - 1)),
        )
}

/// The keys followed by those of the first `k` columns that are not among them.
pub open spec fn completed(ts: Seq<OrderingTermView>, k: int) -> Seq<OrderingTermView>
    decreases k,
{
    if k <= 0 {
        ts
    } else if has_key(ts, k) {
        completed(ts, k - 1)
    } else {
        completed(ts, k - 1).push(plain_term(k))
    }
}

proof fn lemma_completed(ts: Seq<OrderingTermView>, i: int, k: int)
    requires
        0 <= i < k,
    ensures
        has_key(completed(ts, k), i + 1),
    decreases k,
{
    let all = completed(ts, k);
    lemma_completed_prefix(ts, k);
    if has_key(ts, i + 1) {
        let j = choose|j: int|
            0 <= j < ts.len() && #[trigger] ts[j].expr == ExprView::Literal(
                LiteralView::Integer(nth(i)),
            );
        assert(all[j].expr == ts[j].expr);
    } else if i == k - 1 {
        assert(all.last() == plain_term(k));
        assert(all[all.len() - 1].expr == ExprView::Literal(LiteralView::Integer(nth(i))));
    } else {
        lemma_completed(ts, i, k - 1);
        let less = completed(ts, k - 1);
        let j = choose|j: int|
            0 <= j < less.len() && #[trigger] less[j].expr == ExprView::Literal(
                LiteralView::Integer(nth(i)),
            );
        assert(all[j].expr == less[j].expr);
    }
}

proof fn lemma_completed_prefix(ts: Seq<OrderingTermView>, k: int)
    ensures
        ts.len() <= completed(ts, k).len(),
        forall|j: int| 0 <= j < ts.len() ==> #[trigger] completed(ts, k)[j] == ts[j],
    decreases k,
{
    if k > 0 {
        lemma_completed_prefix(ts, k - 1);
    }
}

proof fn lemma_placed(
    order_by: Seq<OrderingTermView>,
    outputs: Seq<(ExprView, Seq<char>)>,
    k: int,
    n: int,
)
    requires
        0 <= k < n <= order_by.len(),
        placed_terms(order_by, outputs, n) is Ok,
    ensures
        ({
            let p = placed_terms(order_by, outputs, n)->Ok_0;
            let q = placed_terms(order_by, outputs, k)->Ok_0;
            &&& p.terms.len() == n
            &&& placed_terms(order_by, outputs, k) is Ok
            &&& order_place(order_by[k].expr, outputs) is Ok
            &&& p.terms[k] == at_place(
                order_by[k],
                match order_place(order_by[k].expr, outputs)->Ok_0 {
                    Some(m) => m,
                    None => nth((outputs.len() + q.extras.len()) as int),
                },
            )
            &&& order_place(order_by[k].expr, outputs) == Ok::<Option<i64>, Seq<char>>(None)
                ==> q.extras.len() < p.extras.len() && p.extras[q.extras.len() as int]
                == order_by[k].expr
        }),
    decreases n,
{
    assert(placed_terms(order_by, outputs, 0) == Ok::<PlacedTerms, Seq<char>>(
        PlacedTerms { terms: Seq::empty(), extras: Seq::empty() },
    ));
    if n > 1 {
        lemma_placed(order_by, outputs, if k < n - 1 { k } else { 0 }, n - 1);
    }
}

/// The rows of a compound go by the sort terms of the query, in their directions: each on the
/// column that it stands for, or on the value of its own that stands behind the columns.
pub proof fn law_sort_terms_have_their_columns(
    order_by: Seq<OrderingTermView>,
    outputs: Seq<(ExprView, Seq<char>)>,
    k: int,
)
    requires
        placed_terms(order_by, outputs, order_by.len() as int) is Ok,
        0 <= k < order_by.len(),
        outputs.len() + order_by.len() <= i32::MAX,
    ensures
        ({
            let p = placed_terms(order_by, outputs, order_by.len() as int)->Ok_0;
            let at = place_of(p.terms[k]);
            &&& k < p.terms.len()
            &&& p.terms[k].desc == order_by[k].desc
            &&& match order_place(order_by[k].expr, outputs) {
                Ok(Some(n)) => p.terms[k].expr == ExprView::Literal(LiteralView::Integer(n)),
                Ok(None) => outputs.len() <= at < outputs.len() + p.extras.len()
                    && p.extras[at - outputs.len()] == order_by[k].expr,
                Err(_) => false,
            }
        }),
{
    lemma_placed(order_by, outputs, k, order_by.len() as int);
    lemma_extras(order_by, outputs, order_by.len() as int);
}

/// No more values are added than there are sort terms.
pub proof fn lemma_extras(
    order_by: Seq<OrderingTermView>,
    outputs: Seq<(ExprView, Seq<char>)>,
    n: int,
)
    requires
        0 <= n <= order_by.len(),
        placed_terms(order_by, outputs, n) is Ok,
    ensures
        placed_terms(order_by, outputs, n)->Ok_0.extras.len() <= n,
    decreases n,
{
    if n > 0 {
        lemma_extras(order_by, outputs, n - 1);
    }
}

/// The keys of a merge begin with the given ones and hold every column that tells rows apart, so
/// that rows with equal keys are equal rows.
pub proof fn law_merge_keys_cover_the_row(placed: Seq<OrderingTermView>, keep: int, i: int)
    requires
        0 <= i < keep <= i32::MAX,
    ensures
        placed.is_prefix_of(completed(placed, keep)),
        places_of(completed(placed, keep)).contains(i as i32),
{
    let ts = completed(placed, keep);
    lemma_completed_prefix(placed, keep);
    assert(placed =~= ts.subrange(0, placed.len() as int));
    lemma_completed(placed, i, keep);
    let j = choose|j: int|
        0 <= j < ts.len() && #[trigger] ts[j].expr == ExprView::Literal(
            LiteralView::Integer(nth(i)),
        );
    assert(places_of(ts)[j] == i as i32);
}

/// A query with further result columns in each of its arms.
pub open spec fn widened(select: SelectStmtView, extras: Seq<ExprView>) -> SelectStmtView
    decreases select,
{
    SelectStmtView {
        columns: if select.values.len() > 0 {
            select.columns
        } else {
            select.columns + Seq::new(
                extras.len(),
                |i: int| ResultColumnView::Expr { expr: extras[i], alias: None },
            )
        },
        values: Seq::new(select.values.len(), |i: int| select.values[i] + extras),
        compound: widened_arms(select.compound, extras),
        ..select
    }
}

/// Arms with further result columns.
pub open spec fn widened_arms(
    arms: Seq<(CompoundOperator, SelectStmtView)>,
    extras: Seq<ExprView>,
) -> Seq<(CompoundOperator, SelectStmtView)>
    decreases arms,
{
    Seq::new(
        arms.len(),
        |i: int|
            if 0 <= i < arms.len() {
                (arms[i].0, widened(arms[i].1, extras))
            } else {
                arbitrary()
            },
    )
}

/// The query without its order and its limits.
pub open spec fn unordered(select: SelectStmtView) -> SelectStmtView {
    SelectStmtView { order_by: Seq::empty(), limit: None, offset: None, ..select }
}

/// The first arm on its own, in the given order.
pub open spec fn first_arm(select: SelectStmtView, terms: Seq<OrderingTermView>) -> SelectStmtView {
    SelectStmtView {
        compound: Seq::empty(),
        order_by: terms,
        limit: None,
        offset: None,
        ..select
    }
}

/// An arm in the given order.
pub open spec fn ordered_arm(arm: SelectStmtView, terms: Seq<OrderingTermView>) -> SelectStmtView {
    SelectStmtView { order_by: terms, limit: None, offset: None, ..arm }
}

/// All arms but the last.
pub open spec fn without_last(select: SelectStmtView) -> SelectStmtView {
    SelectStmtView {
        compound: select.compound.drop_last(),
        order_by: Seq::empty(),
        limit: None,
        offset: None,
        ..select
    }
}

/// How many arms the first `n` arms hold in all, those of their own arms included.
pub open spec fn arm_count(arms: Seq<(CompoundOperator, SelectStmtView)>, n: int) -> nat
    decreases arms, n,
{
    if n <= 0 || n > arms.len() {
        0
    } else {
        arm_count(arms, n - 1) + 1 + arm_count(
            arms[n - 1].1.compound,
            arms[n - 1].1.compound.len() as int,
        )
    }
}

/// How many arms a query holds.
pub open spec fn arms_in(select: SelectStmtView) -> nat {
    arm_count(select.compound, select.compound.len() as int)
}

proof fn lemma_arm_count(arms: Seq<(CompoundOperator, SelectStmtView)>, k: int, n: int)
    requires
        0 <= k < n <= arms.len(),
    ensures
        arms_in(arms[k].1) < arm_count(arms, n),
    decreases n,
{
    if k < n - 1 {
        lemma_arm_count(arms, k, n - 1);
    }
}

proof fn lemma_arm_count_prefix(
    arms: Seq<(CompoundOperator, SelectStmtView)>,
    rest: Seq<(CompoundOperator, SelectStmtView)>,
    n: int,
)
    requires
        0 <= n <= arms.len(),
        n <= rest.len(),
        forall|i: int| 0 <= i < n ==> arms[i] == rest[i],
    ensures
        arm_count(arms, n) == arm_count(rest, n),
    decreases n,
{
    if n > 0 {
        lemma_arm_count_prefix(arms, rest, n - 1);
    }
}

/// Each part of a compound holds fewer arms than the compound.
pub proof fn lemma_fewer_arms(select: SelectStmtView)
    requires
        select.compound.len() > 0,
    ensures
        arms_in(without_last(select)) < arms_in(select),
        forall|k: int, terms: Seq<OrderingTermView>|
            0 <= k < select.compound.len() ==> arms_in(
                #[trigger] ordered_arm(select.compound[k].1, terms),
            ) < arms_in(select),
        forall|k: int|
            0 <= k < select.compound.len() ==> arms_in((#[trigger] select.compound[k]).1) < arms_in(
                select,
            ),
{
    let n = select.compound.len() as int;
    lemma_arm_count_prefix(select.compound.drop_last(), select.compound, n - 1);
    assert forall|k: int| 0 <= k < n implies arms_in((#[trigger] select.compound[k]).1) < arms_in(
        select,
    ) by {
        lemma_arm_count(select.compound, k, n);
    }
    assert forall|k: int, terms: Seq<OrderingTermView>| 0 <= k < n implies arms_in(
        #[trigger] ordered_arm(select.compound[k].1, terms),
    ) < arms_in(select) by {
        lemma_arm_count(select.compound, k, n);
    }
}

proof fn lemma_widened_count(
    arms: Seq<(CompoundOperator, SelectStmtView)>,
    extras: Seq<ExprView>,
    n: int,
)
    requires
        0 <= n <= arms.len(),
    ensures
        arm_count(widened_arms(arms, extras), n) == arm_count(arms, n),
    decreases arms, n,
{
    if n > 0 {
        lemma_widened_count(arms, extras, n - 1);
        let inner = arms[n - 1].1.compound;
        lemma_widened_count(inner, extras, inner.len() as int);
    }
}

/// Further result columns add no arms.
pub proof fn lemma_widened(select: SelectStmtView, extras: Seq<ExprView>)
    ensures
        arms_in(widened(unordered(select), extras)) == arms_in(select),
        widened(unordered(select), extras).order_by.len() == 0,
{
    lemma_widened_count(select.compound, extras, select.compound.len() as int);
}

/// What a query compiles to.
pub open spec fn compiled(
    select: SelectStmtView,
    table: Option<TableView>,
    indexes: Seq<IndexView>,
    sources: Seq<Result<SourceView, Seq<char>>>,
    f: FunctionsView,
) -> Result<ProgramView, Seq<char>> {
    compiled_by(select, table, indexes, sources, f, None)
}

/// What a query compiles to whose rows are told apart by their first `keep` columns, or by all.
///
/// Where a sort term stands for no column of the result, each arm computes its value in a column
/// behind those of the result, and the rows of the compound are sorted at the end.
pub open spec fn compiled_by(
    select: SelectStmtView,
    table: Option<TableView>,
    indexes: Seq<IndexView>,
    sources: Seq<Result<SourceView, Seq<char>>>,
    f: FunctionsView,
    keep: Option<usize>,
) -> Result<ProgramView, Seq<char>>
    decreases arms_in(select), select.order_by.len(), 0int,
{
    let n = select.compound.len() as int;
    if n == 0 {
        outcome_of(gen_select(select, table, indexes, f))
    } else {
        proof {
            lemma_fewer_arms(select);
        }
        match expansion(select, table) {
            Err(m) => Err(m),
            Ok(outputs) => match arms_error(select.compound, sources, outputs.len(), 0) {
                Some(m) => Err(m),
                None => match limits(select.limit, select.offset) {
                    Err(m) => Err(m),
                    Ok((limit, offset)) => {
                        let ncol = outputs.len() as i32;
                        let op = select.compound[n - 1].0;
                        let last = select.compound[n - 1].1;
                        if n == 1 && op == CompoundOperator::UnionAll && select.order_by.len()
                            == 0 && keep is None {
                            let lead = outcome_of(
                                gen_select(
                                    first_arm(select, select.order_by),
                                    table,
                                    indexes,
                                    f,
                                ),
                            );
                            let trail = compiled_arm(last, sources, n - 1, f, None, None);
                            outcome_of(gen_chain(lead, trail, limit, offset))
                        } else {
                            match placed_terms(
                                select.order_by,
                                outputs,
                                select.order_by.len() as int,
                            ) {
                                Err(m) => Err(m),
                                Ok(p) => if p.extras.len() > 0 {
                                    proof {
                                        lemma_extras(
                                            select.order_by,
                                            outputs,
                                            select.order_by.len() as int,
                                        );
                                        lemma_widened(select, p.extras);
                                    }
                                    let inner = compiled_by(
                                        widened(unordered(select), p.extras),
                                        table,
                                        indexes,
                                        sources,
                                        f,
                                        Some(outputs.len() as usize),
                                    );
                                    outcome_of(
                                        gen_resorted(
                                            inner,
                                            ncol.wrapping_add(p.extras.len() as i32),
                                            ncol,
                                            p.terms,
                                            limit,
                                            offset,
                                        ),
                                    )
                                } else {
                                    let kept = match keep {
                                        Some(k) => k,
                                        None => outputs.len() as usize,
                                    };
                                    let terms = completed(p.terms, kept as int);
                                    let right = compiled_arm(
                                        last,
                                        sources,
                                        n - 1,
                                        f,
                                        Some(terms),
                                        keep,
                                    );
                                    if n == 1 {
                                        let left = outcome_of(
                                            gen_select(first_arm(select, terms), table, indexes, f),
                                        );
                                        outcome_of(
                                            gen_two_sides(
                                                left,
                                                right,
                                                op,
                                                ncol,
                                                kept as i32,
                                                terms,
                                                limit,
                                                offset,
                                            ),
                                        )
                                    } else {
                                        let left = compiled_by(
                                            without_last(select),
                                            table,
                                            indexes,
                                            sources,
                                            f,
                                            keep,
                                        );
                                        outcome_of(
                                            gen_last_side(
                                                left,
                                                right,
                                                op,
                                                ncol,
                                                kept as i32,
                                                terms,
                                                limit,
                                                offset,
                                            ),
                                        )
                                    }
                                },
                            }
                        }
                    },
                },
            },
        }
    }
}

/// What an arm compiles to, in the order given if there is one.
pub open spec fn compiled_arm(
    arm: SelectStmtView,
    sources: Seq<Result<SourceView, Seq<char>>>,
    k: int,
    f: FunctionsView,
    terms: Option<Seq<OrderingTermView>>,
    keep: Option<usize>,
) -> Result<ProgramView, Seq<char>>
    decreases
            arms_in(arm),
            (match terms {
                Some(ts) => ts.len(),
                None => arm.order_by.len(),
            }),
            1int,
{
    let arm1 = match terms {
        Some(ts) => ordered_arm(arm, ts),
        None => arm,
    };
    match arm_source(arm, sources, k) {
        Err(m) => Err(m),
        Ok(x) => compiled_by(arm1, x.table, x.indexes, x.arms, f, keep),
    }
}

// ---- Compiling ----

/// An outcome of compiling a query: its program and the names of its columns, or an error.
pub open spec fn gives_query(
    r: Result<(Program, Vec<String>), Error>,
    want: Result<ProgramView, Seq<char>>,
    names: Seq<Seq<char>>,
) -> bool {
    match r {
        Ok(x) => want == Ok::<ProgramView, Seq<char>>(x.0@) && names_view(x.1@) == names,
        Err(e) => want == Err::<ProgramView, Seq<char>>(e@),
    }
}

/// Find the output column that a sort term stands for.
fn find_place(e: &Expr, outputs: &Vec<Output>) -> (r: Result<Option<i64>, Error>)
    ensures
        match r {
            Ok(n) => order_place(e@, outputs_view(outputs@)) == Ok::<Option<i64>, Seq<char>>(n),
            Err(m) => order_place(e@, outputs_view(outputs@)) == Err::<Option<i64>, Seq<char>>(
                m@,
            ),
        },
    decreases e,
{
    let ghost outs = outputs_view(outputs@);
    if let Expr::Literal(Literal::Integer(n)) = e {
        let n: i64 = *n;
        if n >= 1 && n as u64 <= outputs.len() as u64 {
            return Ok(Some(n));
        }
        return Err(
            Error::msg(
                cat2(
                    "ORDER BY term out of range - should be between 1 and ",
                    decimal_u64(outputs.len() as u64).as_str(),
                ),
            ),
        );
    }
    if let Expr::Collate { expr, .. } = e {
        return find_place(expr, outputs);
    }
    if let Expr::Column { schema, table: None, name } = e {
        for i in 0..outputs.len()
            invariant
                outs == outputs_view(outputs@),
                e@ == (ExprView::Column {
                    schema: opt_name_view(*schema),
                    table: None,
                    name: name@,
                }),
                title_place(outs, name@, 0) == title_place(outs, name@, i as int),
        {
            assert(outs[i as int] == (outputs@[i as int].0@, outputs@[i as int].1@));
            if eq_ignore_case(outputs[i].1.as_str(), name.as_str()) {
                return Ok(Some(ordinal(i)));
            }
        }
    }
    for i in 0..outputs.len()
        invariant
            outs == outputs_view(outputs@),
            !(e@ matches ExprView::Literal(LiteralView::Integer(_))),
            !(e@ is Collate),
            e@ matches ExprView::Column { table: None, name, .. } ==> title_place(outs, name, 0)
                is None,
            value_place(outs, e@, 0) == value_place(outs, e@, i as int),
    {
        assert(outs[i as int] == (outputs@[i as int].0@, outputs@[i as int].1@));
        if outputs[i].0.same(e) {
            return Ok(Some(ordinal(i)));
        }
    }
    Ok(None)
}

/// Whether one of the keys is the column at position `n`.
fn names_column(terms: &Vec<OrderingTerm>, n: i64) -> (r: bool)
    ensures
        r == exists|i: int|
            0 <= i < terms@.len() && (#[trigger] ordering_terms_view(terms@)[i]).expr
                == ExprView::Literal(LiteralView::Integer(n)),
{
    let ghost ts = ordering_terms_view(terms@);
    for i in 0..terms.len()
        invariant
            ts == ordering_terms_view(terms@),
            forall|j: int|
                0 <= j < i ==> #[trigger] ts[j].expr != ExprView::Literal(LiteralView::Integer(n)),
    {
        assert(ts[i as int] == terms@[i as int]@);
        if let Expr::Literal(Literal::Integer(m)) = &terms[i].expr {
            if *m == n {
                assert(ts[i as int].expr == ExprView::Literal(LiteralView::Integer(n)));
                return true;
            }
        }
    }
    false
}

/// The key that the column at position `n` is, with the direction of a sort term.
fn position_term(n: i64, desc: bool, nulls: Option<NullsOrder>) -> (r: OrderingTerm)
    ensures
        r@ == (OrderingTermView {
            expr: ExprView::Literal(LiteralView::Integer(n)),
            desc,
            nulls,
        }),
{
    let r = OrderingTerm { expr: Expr::Literal(Literal::Integer(n)), desc, nulls };
    assert(r@.expr == ExprView::Literal(LiteralView::Integer(n)));
    r
}

/// Append a key to some keys.
fn add_term(terms: &mut Vec<OrderingTerm>, term: OrderingTerm)
    ensures
        ordering_terms_view(final(terms)@) == ordering_terms_view(old(terms)@).push(term@),
{
    let ghost before = terms@;
    terms.push(term);
    assert(ordering_terms_view(terms@) =~= ordering_terms_view(before).push(term@));
}

/// The number that stands for the `j`-th column behind `n` columns in a sort term.
fn ordinal_behind(n: usize, j: usize) -> (r: i64)
    ensures
        r == nth(n + j),
{
    #[verifier::truncate]
    ((n as i128 + j as i128 + 1) as i64)
}

/// The sort terms of a compound with their columns by position, and the values of those that
/// stand for no column.
spec fn placed_view(r: (Vec<OrderingTerm>, Vec<Expr>)) -> PlacedTerms {
    PlacedTerms { terms: ordering_terms_view(r.0@), extras: exprs_view(r.1@) }
}

/// Put the sort terms of a compound on the columns that they stand for.
fn place_terms(order_by: &Vec<OrderingTerm>, outputs: &Vec<Output>) -> (r: Result<
    (Vec<OrderingTerm>, Vec<Expr>),
    Error,
>)
    ensures
        ({
            let obs = ordering_terms_view(order_by@);
            let want = placed_terms(obs, outputs_view(outputs@), obs.len() as int);
            match r {
                Ok(x) => want == Ok::<PlacedTerms, Seq<char>>(placed_view(x)),
                Err(e) => want == Err::<PlacedTerms, Seq<char>>(e@),
            }
        }),
{
    let ghost obs = ordering_terms_view(order_by@);
    let ghost outs = outputs_view(outputs@);
    let mut placed: Vec<OrderingTerm> = Vec::new();
    let mut extras: Vec<Expr> = Vec::new();
    assert(ordering_terms_view(placed@) =~= Seq::empty());
    assert(exprs_view(extras@) =~= Seq::empty());
    for i in 0..order_by.len()
        invariant
            obs == ordering_terms_view(order_by@),
            outs == outputs_view(outputs@),
            obs.len() == order_by@.len(),
            placed_terms(obs, outs, i as int) == Ok::<PlacedTerms, Seq<char>>(
                placed_view((placed, extras)),
            ),
    {
        let term = &order_by[i];
        assert(obs[i as int] == term@);
        match find_place(&term.expr, outputs) {
            Ok(Some(n)) => {
                add_term(&mut placed, position_term(n, term.desc, term.nulls));
            },
            Ok(None) => {
                assert(exprs_view(extras@).len() == extras@.len());
                let n: i64 = ordinal_behind(outputs.len(), extras.len());
                add_term(&mut placed, position_term(n, term.desc, term.nulls));
                let ghost before = extras@;
                let e = term.expr.clone();
                extras.push(e);
                assert(exprs_view(extras@) =~= exprs_view(before).push(e@));
            },
            Err(err) => {
                proof {
                    lemma_placing_fails(obs, outs, i + 1, obs.len() as int);
                }
                return Err(err);
            },
        }
    }
    Ok((placed, extras))
}

/// Add the keys of all columns that are not among the keys.
fn complete_terms(placed: &Vec<OrderingTerm>, ncol: usize) -> (r: Vec<OrderingTerm>)
    ensures
        ordering_terms_view(r@) == completed(ordering_terms_view(placed@), ncol as int),
{
    let ghost ts = ordering_terms_view(placed@);
    let mut r = clone_terms(placed);
    for k in 0..ncol
        invariant
            ts == ordering_terms_view(placed@),
            ordering_terms_view(r@) == completed(ts, k as int),
    {
        let n: i64 = ordinal(k);
        let named = names_column(placed, n);
        assert(named == has_key(ts, k + 1));
        if !named {
            add_term(&mut r, position_term(n, false, None));
        }
    }
    r
}

/// Add result columns to each arm of a query.
fn widen(select: &SelectStmt, extras: &Vec<Expr>) -> (r: SelectStmt)
    ensures
        r@ == widened(select@, exprs_view(extras@)),
    decreases select,
{
    let ghost want = widened(select@, exprs_view(extras@));
    let mut r = select.clone();
    assert(r@.values == expr_rows_view(r.values@));
    assert(select@.values == expr_rows_view(select.values@));
    assert(select@.compound == arms_view(select.compound@));
    r.values = widen_rows(&select.values, extras);
    if select.values.len() == 0 {
        r.columns = widen_columns(&select.columns, extras);
    }
    let mut arms: Vec<(CompoundOperator, SelectStmt)> = Vec::new();
    for i in 0..select.compound.len()
        invariant
            select@.compound == arms_view(select.compound@),
            arms@.len() == i,
            forall|j: int|
                0 <= j < i ==> (#[trigger] arms@[j]).0 == select@.compound[j].0 && arms@[j].1@
                    == widened(select@.compound[j].1, exprs_view(extras@)),
        decreases select.compound.len() - i,
    {
        let ghost before = arms@;
        let x = widen(&select.compound[i].1, extras);
        arms.push((select.compound[i].0, x));
    }
    assert(arms_view(arms@) =~= widened_arms(select@.compound, exprs_view(extras@)));
    r.compound = arms;
    assert(r@ == want);
    r
}

fn widen_rows(rows: &Vec<Vec<Expr>>, extras: &Vec<Expr>) -> (r: Vec<Vec<Expr>>)
    ensures
        expr_rows_view(r@) == Seq::new(
            rows@.len(),
            |i: int| expr_rows_view(rows@)[i] + exprs_view(extras@),
        ),
{
    let ghost ex = exprs_view(extras@);
    let mut r: Vec<Vec<Expr>> = Vec::new();
    for i in 0..rows.len()
        invariant
            ex == exprs_view(extras@),
            r@.len() == i,
            forall|j: int|
                0 <= j < i ==> exprs_view((#[trigger] r@[j])@) == exprs_view(rows@[j]@) + ex,
    {
        let mut row: Vec<Expr> = Vec::new();
        append_exprs(&mut row, &rows[i]);
        append_exprs(&mut row, extras);
        assert(exprs_view(row@) =~= exprs_view(rows@[i as int]@) + ex);
        r.push(row);
    }
    assert(expr_rows_view(r@) =~= Seq::new(
        rows@.len(),
        |i: int| expr_rows_view(rows@)[i] + exprs_view(extras@),
    ));
    r
}

fn append_exprs(out: &mut Vec<Expr>, more: &Vec<Expr>)
    ensures
        exprs_view(final(out)@) == exprs_view(old(out)@) + exprs_view(more@),
{
    let ghost first = exprs_view(out@);
    assert(first + exprs_view(more@).take(0) =~= first);
    for i in 0..more.len()
        invariant
            exprs_view(out@) == first + exprs_view(more@).take(i as int),
    {
        let ghost before = out@;
        let e = more[i].clone();
        out.push(e);
        assert(exprs_view(out@) =~= exprs_view(before).push(e@));
        assert(exprs_view(more@).take(i + 1) =~= exprs_view(more@).take(i as int).push(e@));
        assert(exprs_view(out@) =~= first + exprs_view(more@).take(i + 1));
    }
    assert(exprs_view(more@).take(more@.len() as int) =~= exprs_view(more@));
}

fn widen_columns(columns: &Vec<ResultColumn>, extras: &Vec<Expr>) -> (r: Vec<ResultColumn>)
    ensures
        result_columns_view(r@) == result_columns_view(columns@) + Seq::new(
            exprs_view(extras@).len(),
            |i: int| ResultColumnView::Expr { expr: exprs_view(extras@)[i], alias: None },
        ),
{
    let mut r: Vec<ResultColumn> = Vec::new();
    for i in 0..columns.len()
        invariant
            r@.len() == i,
            forall|j: int| 0 <= j < i ==> (#[trigger] r@[j])@ == columns@[j]@,
    {
        r.push(columns[i].clone());
    }
    let ghost n = columns@.len() as int;
    for i in 0..extras.len()
        invariant
            n == columns@.len(),
            r@.len() == n + i,
            forall|j: int| 0 <= j < n ==> (#[trigger] r@[j])@ == columns@[j]@,
            forall|j: int|
                n <= j < n + i ==> (#[trigger] r@[j])@ == (ResultColumnView::Expr {
                    expr: extras@[j - n]@,
                    alias: None,
                }),
    {
        let c = ResultColumn::Expr { expr: extras[i].clone(), alias: None };
        assert(c@ == (ResultColumnView::Expr { expr: extras@[i as int]@, alias: None }));
        r.push(c);
    }
    assert(result_columns_view(r@) =~= result_columns_view(columns@) + Seq::new(
        exprs_view(extras@).len(),
        |i: int| ResultColumnView::Expr { expr: exprs_view(extras@)[i], alias: None },
    ));
    r
}

proof fn lemma_placing_fails(
    order_by: Seq<OrderingTermView>,
    outputs: Seq<(ExprView, Seq<char>)>,
    i: int,
    k: int,
)
    requires
        0 <= i <= k <= order_by.len(),
        placed_terms(order_by, outputs, i) is Err,
    ensures
        placed_terms(order_by, outputs, k) == placed_terms(order_by, outputs, i),
    decreases k,
{
    if i < k {
        lemma_placing_fails(order_by, outputs, i, k - 1);
    }
}

fn clone_terms(terms: &Vec<OrderingTerm>) -> (r: Vec<OrderingTerm>)
    ensures
        ordering_terms_view(r@) == ordering_terms_view(terms@),
{
    let mut r: Vec<OrderingTerm> = Vec::new();
    for i in 0..terms.len()
        invariant
            r@.len() == i,
            forall|j: int| 0 <= j < i ==> (#[trigger] r@[j])@ == terms@[j]@,
    {
        r.push(terms[i].clone());
    }
    assert(ordering_terms_view(r@) =~= ordering_terms_view(terms@));
    r
}

fn check_arms(select: &SelectStmt, sources: &[Result<Source, Error>], ncol: usize) -> (r: Result<
    (),
    Error,
>)
    ensures
        match r {
            Ok(_) => arms_error(select@.compound, sources_view(sources@), ncol as nat, 0) is None,
            Err(e) => arms_error(select@.compound, sources_view(sources@), ncol as nat, 0) == Some(
                e@,
            ),
        },
{
    let ghost arms = select@.compound;
    let ghost sv = sources_view(sources@);
    assert(arms == arms_view(select.compound@));
    for k in 0..select.compound.len()
        invariant
            arms == select@.compound,
            arms == arms_view(select.compound@),
            sv == sources_view(sources@),
            arms_error(arms, sv, ncol as nat, 0) == arms_error(arms, sv, ncol as nat, k as int),
    {
        assert(arms[k as int] == (select.compound@[k as int].0, select.compound@[k as int].1@));
        let arm = &select.compound[k].1;
        assert(arm@.values == expr_rows_view(arm.values@));
        assert(arm@.from == from_items_view(arm.from@));
        let mut table: Option<&Table> = None;
        if arm.values.len() == 0 && arm.from.len() > 0 && k < sources.len() {
            assert(sv[k as int] == match sources@[k as int] {
                Ok(x) => Ok::<SourceView, Seq<char>>(source_view(x)),
                Err(e) => Err(e@),
            });
            match &sources[k] {
                Err(err) => {
                    return Err(err.clone());
                },
                Ok(x) => {
                    table = match &x.table {
                        Some(t) => Some(t),
                        None => None,
                    };
                },
            }
        }
        assert(arm_source(arm@, sv, k as int) matches Ok(x) && x.table == opt_table_view(table));
        match expand_columns(arm, table) {
            Err(err) => {
                return Err(err);
            },
            Ok(outputs) => {
                if outputs.len() != ncol {
                    return Err(
                        Error::msg(
                            cat3(
                                "SELECTs to the left and right of ",
                                name_of_operator(select.compound[k].0),
                                " do not have the same number of result columns",
                            ),
                        ),
                    );
                }
            },
        }
    }
    Ok(())
}

fn just_program(r: Result<(Program, Vec<String>), Error>) -> (p: Result<Program, Error>)
    ensures
        match r {
            Ok(x) => p == Ok::<Program, Error>(x.0),
            Err(e) => p == Err::<Program, Error>(e),
        },
{
    match r {
        Ok(x) => Ok(x.0),
        Err(e) => Err(e),
    }
}

/// Compile a query. `table` is the table of its `FROM` clause, if it has one, `indexes` are the
/// indexes on it, and `sources` are what the further arms of a compound read.
pub fn compile(
    select: &SelectStmt,
    table: Option<&Table>,
    indexes: &[IndexObject],
    sources: &[Result<Source, Error>],
    functions: &Functions,
) -> (r: Result<(Program, Vec<String>), Error>)
    requires
        table matches Some(t) ==> t@.wf(),
        sources_wf(sources_view(sources@)),
    ensures
        gives_query(
            r,
            compiled(
                select@,
                opt_table_view(table),
                indexes_view(indexes@),
                sources_view(sources@),
                functions@,
            ),
            select_names(select@, opt_table_view(table)),
        ),
{
    compile_by(select, table, indexes, sources, functions, None)
}

/// Compile a query whose rows are told apart by their first `keep` columns, or by all.
fn compile_by(
    select: &SelectStmt,
    table: Option<&Table>,
    indexes: &[IndexObject],
    sources: &[Result<Source, Error>],
    functions: &Functions,
    keep: Option<usize>,
) -> (r: Result<(Program, Vec<String>), Error>)
    requires
        table matches Some(t) ==> t@.wf(),
        sources_wf(sources_view(sources@)),
    ensures
        gives_query(
            r,
            compiled_by(
                select@,
                opt_table_view(table),
                indexes_view(indexes@),
                sources_view(sources@),
                functions@,
                keep,
            ),
            select_names(select@, opt_table_view(table)),
        ),
    decreases arms_in(select@), select@.order_by.len(), 1int,
{
    assert(select@.compound == arms_view(select.compound@));
    if select.compound.len() > 0 {
        compile_compound_by(select, table, indexes, sources, functions, keep)
    } else {
        compile_simple(select, table, indexes, functions)
    }
}

/// Compile arm `k`, in the order given if there is one.
fn compile_arm(
    arm: &SelectStmt,
    sources: &[Result<Source, Error>],
    k: usize,
    functions: &Functions,
    terms: Option<&Vec<OrderingTerm>>,
    keep: Option<usize>,
) -> (r: Result<Program, Error>)
    requires
        sources_wf(sources_view(sources@)),
    ensures
        part(r) == compiled_arm(
            arm@,
            sources_view(sources@),
            k as int,
            functions@,
            match terms {
                Some(ts) => Some(ordering_terms_view(ts@)),
                None => None,
            },
            keep,
        ),
    decreases
            arms_in(arm@),
            (match terms {
                Some(ts) => ordering_terms_view(ts@).len(),
                None => arm@.order_by.len(),
            }),
            2int,
{
    let ghost sv = sources_view(sources@);
    let mut arm1 = arm.clone();
    if let Some(ts) = terms {
        arm1.order_by = clone_terms(ts);
        arm1.limit = None;
        arm1.offset = None;
        assert(arm1@ == ordered_arm(arm@, ordering_terms_view(ts@)));
    }
    assert(arms_in(arm1@) == arms_in(arm@));
    assert(arm@.values == expr_rows_view(arm.values@));
    assert(arm@.from == from_items_view(arm.from@));
    let no_indexes: Vec<IndexObject> = Vec::new();
    let no_sources: Vec<Result<Source, Error>> = Vec::new();
    assert(indexes_view(no_indexes@) =~= Seq::empty());
    assert(sources_view(no_sources@) =~= Seq::empty());
    let reads = arm.values.len() == 0 && arm.from.len() > 0;
    if k < sources.len() {
        assert(sv[k as int] == match sources@[k as int] {
            Ok(x) => Ok::<SourceView, Seq<char>>(source_view(x)),
            Err(e) => Err(e@),
        });
        match &sources[k] {
            Err(err) => {
                if reads {
                    return Err(err.clone());
                }
                just_program(
                    compile_by(
                        &arm1,
                        None,
                        no_indexes.as_slice(),
                        no_sources.as_slice(),
                        functions,
                        keep,
                    ),
                )
            },
            Ok(x) => {
                if reads {
                    if let Some(t) = &x.table {
                        return just_program(
                            compile_by(
                                &arm1,
                                Some(t),
                                x.indexes.as_slice(),
                                x.arms.as_slice(),
                                functions,
                                keep,
                            ),
                        );
                    }
                }
                just_program(
                    compile_by(
                        &arm1,
                        None,
                        no_indexes.as_slice(),
                        x.arms.as_slice(),
                        functions,
                        keep,
                    ),
                )
            },
        }
    } else {
        just_program(
            compile_by(
                        &arm1,
                        None,
                        no_indexes.as_slice(),
                        no_sources.as_slice(),
                        functions,
                        keep,
                    ),
        )
    }
}

/// Compile a compound query.
pub fn compile_compound(
    select: &SelectStmt,
    table: Option<&Table>,
    indexes: &[IndexObject],
    sources: &[Result<Source, Error>],
    functions: &Functions,
) -> (r: Result<(Program, Vec<String>), Error>)
    requires
        table matches Some(t) ==> t@.wf(),
        sources_wf(sources_view(sources@)),
    ensures
        select@.compound.len() == 0 ==> r is Err && r->Err_0@
            == "compile_compound called on a non-compound SELECT"@,
        select@.compound.len() > 0 ==> gives_query(
            r,
            compiled(
                select@,
                opt_table_view(table),
                indexes_view(indexes@),
                sources_view(sources@),
                functions@,
            ),
            select_names(select@, opt_table_view(table)),
        ),
{
    assert(select@.compound == arms_view(select.compound@));
    if select.compound.len() == 0 {
        return Err(Error::lit("compile_compound called on a non-compound SELECT"));
    }
    compile_compound_by(select, table, indexes, sources, functions, None)
}

/// Compile a compound query whose rows are told apart by their first `keep` columns, or by all.
fn compile_compound_by(
    select: &SelectStmt,
    table: Option<&Table>,
    indexes: &[IndexObject],
    sources: &[Result<Source, Error>],
    functions: &Functions,
    keep: Option<usize>,
) -> (r: Result<(Program, Vec<String>), Error>)
    requires
        table matches Some(t) ==> t@.wf(),
        sources_wf(sources_view(sources@)),
        select@.compound.len() > 0,
    ensures
        gives_query(
            r,
            compiled_by(
                select@,
                opt_table_view(table),
                indexes_view(indexes@),
                sources_view(sources@),
                functions@,
                keep,
            ),
            select_names(select@, opt_table_view(table)),
        ),
    decreases arms_in(select@), select@.order_by.len(), 0int,
{
    let n: usize = select.compound.len();
    let ghost tv = opt_table_view(table);
    let ghost ix = indexes_view(indexes@);
    let ghost sv = sources_view(sources@);
    assert(select@.compound == arms_view(select.compound@));
    assert(select@.order_by == ordering_terms_view(select.order_by@));
    proof {
        lemma_fewer_arms(select@);
    }
    let outputs = match expand_columns(select, table) {
        Ok(v) => v,
        Err(err) => {
            return Err(err);
        },
    };
    let names = output_names(&outputs);
    if let Err(err) = check_arms(select, sources, outputs.len()) {
        return Err(err);
    }
    let (limit, offset) = match eval_limit_offset(select) {
        Ok(v) => v,
        Err(err) => {
            return Err(err);
        },
    };
    let ncol: i32 = outputs.len() as i32;
    let op = select.compound[n - 1].0;
    let last = &select.compound[n - 1].1;
    assert(select@.compound[n - 1] == (op, last@));
    let chain = n == 1 && op == CompoundOperator::UnionAll && select.order_by.len() == 0
        && keep.is_none();
    let program = if chain {
        let mut lead_arm = select.clone();
        lead_arm.compound = Vec::new();
        lead_arm.limit = None;
        lead_arm.offset = None;
        assert(arms_view(lead_arm.compound@) =~= Seq::empty());
        assert(lead_arm@ == first_arm(select@, select@.order_by));
        let lead = just_program(compile_simple(&lead_arm, table, indexes, functions));
        assert(part(lead) == outcome_of(
            gen_select(first_arm(select@, select@.order_by), tv, ix, functions@),
        ));
        let trail = compile_arm(last, sources, n - 1, functions, None, None);
        chain_programs(lead, trail, limit, offset)
    } else {
        let (placed, extras) = match place_terms(&select.order_by, &outputs) {
            Ok(x) => x,
            Err(err) => {
                return Err(err);
            },
        };
        assert(exprs_view(extras@).len() == extras@.len());
        if extras.len() > 0 {
            let mut bare = select.clone();
            bare.order_by = Vec::new();
            bare.limit = None;
            bare.offset = None;
            assert(ordering_terms_view(bare.order_by@) =~= Seq::empty());
            assert(bare@ == unordered(select@));
            let wide = widen(&bare, &extras);
            proof {
                lemma_extras(
                    select@.order_by,
                    outputs_view(outputs@),
                    select@.order_by.len() as int,
                );
                lemma_widened(select@, exprs_view(extras@));
            }
            let inner = just_program(
                compile_by(&wide, table, indexes, sources, functions, Some(outputs.len())),
            );
            let sorted = sort_program(
                inner,
                ncol.wrapping_add(extras.len() as i32),
                ncol,
                &placed,
                limit,
                offset,
            );
            return match sorted {
                Ok(p) => Ok((p, names)),
                Err(err) => Err(err),
            };
        }
        let kept: usize = match keep {
            Some(k) => k,
            None => outputs.len(),
        };
        let terms = complete_terms(&placed, kept);
        let ghost ts = ordering_terms_view(terms@);
        let right = compile_arm(last, sources, n - 1, functions, Some(&terms), keep);
        if n == 1 {
            let mut lead_arm = select.clone();
            lead_arm.compound = Vec::new();
            lead_arm.order_by = clone_terms(&terms);
            lead_arm.limit = None;
            lead_arm.offset = None;
            assert(arms_view(lead_arm.compound@) =~= Seq::empty());
            assert(lead_arm@ == first_arm(select@, ts));
            let lead = just_program(compile_simple(&lead_arm, table, indexes, functions));
            assert(part(lead) == outcome_of(gen_select(first_arm(select@, ts), tv, ix, functions@)));
            merge_programs(lead, right, op, ncol, kept as i32, &terms, limit, offset)
        } else {
            let mut left_select = select.clone();
            assert(arms_view(left_select.compound@) == select@.compound);
            assert(arms_view(left_select.compound@).len() == n);
            left_select.compound.truncate(n - 1);
            left_select.order_by = Vec::new();
            left_select.limit = None;
            left_select.offset = None;
            assert(arms_view(left_select.compound@) =~= select@.compound.drop_last());
            assert(ordering_terms_view(left_select.order_by@) =~= Seq::empty());
            assert(left_select@ == without_last(select@));
            let left = just_program(
                compile_by(&left_select, table, indexes, sources, functions, keep),
            );
            merge_last_arm(left, right, op, ncol, kept as i32, &terms, limit, offset)
        }
    };
    match program {
        Ok(p) => Ok((p, names)),
        Err(err) => Err(err),
    }
}

} // verus!
