//! What stays of a program that is put inline in another.
//!
//! Every instruction of the program before its end stands in the other one, in the same order:
//! its registers and cursors are moved, its jumps lead to where their targets stand, and a jump to
//! the end leads behind it.
use vstd::prelude::*;

use crate::ast::SelectStmtView;
use crate::builder::{group_asm, reg_at, Asm};
use crate::columns::{expansion, limits, titles_of};
use crate::compound::compiled;
use crate::emit::{gen_copies, gen_epilogue, prologue};
use crate::inline::{
    gen_inline, gen_nulls, gen_query, gen_redirect, gen_room, gen_row, gen_step, halt_from, least,
    opens, redirected, settled, PlaceView, SinkView,
};
use crate::machine::{group_neat, lemma_neat_start, lemma_unpatched, neat};
use crate::recursive::{
    cte_table, gen_recursive, recursive_cte, recursive_outcome, setup_query, source_table,
    step_query, CURRENT_CURSOR, QUEUE_CURSOR, RESULT_CURSOR,
};
use crate::schema::{FunctionsView, TableView};
use crate::vdbe::{InstView, Opcode, ProgramView};

verus! {

broadcast use group_asm;

// ---- Code without labels ----

/// `t` is `s` with instructions without labelled operands behind it.
#[verifier::opaque]
pub open spec fn lengthens(s: Asm, t: Asm) -> bool {
    s.err is None ==> {
        &&& t.err is None
        &&& t.fixups == s.fixups
        &&& t.labels == s.labels
        &&& s.code.len() <= t.code.len()
        &&& forall|i: int| 0 <= i < s.code.len() ==> #[trigger] t.code[i] == s.code[i]
    }
}

pub broadcast proof fn lengthens_self(s: Asm)
    ensures
        #[trigger] lengthens(s, s),
{
    reveal(lengthens);
}

pub broadcast proof fn lengthens_append(s: Asm, t: Asm, inst: InstView)
    requires
        lengthens(s, t),
    ensures
        #[trigger] lengthens(s, t.append(inst)),
{
    reveal(lengthens);
    reveal(Asm::append);
}

pub broadcast proof fn lengthens_take_regs(s: Asm, t: Asm, n: i32)
    requires
        lengthens(s, t),
    ensures
        #[trigger] lengthens(s, t.take_regs(n)),
{
    reveal(lengthens);
    reveal(Asm::take_regs);
}

pub broadcast proof fn lengthens_note_cursor(s: Asm, t: Asm, c: i32)
    requires
        lengthens(s, t),
    ensures
        #[trigger] lengthens(s, t.note_cursor(c)),
{
    reveal(lengthens);
    reveal(Asm::note_cursor);
}

pub broadcast group group_lengthens {
    lengthens_self,
    lengthens_append,
    lengthens_take_regs,
    lengthens_note_cursor,
}

proof fn lemma_lengthens_through(s: Asm, t: Asm, u: Asm)
    requires
        lengthens(s, t),
        lengthens(t, u),
    ensures
        lengthens(s, u),
{
    reveal(lengthens);
    if s.err is None {
        assert forall|i: int| 0 <= i < s.code.len() implies #[trigger] u.code[i] == s.code[i] by {
            assert(t.code[i] == s.code[i]);
        }
    }
}

proof fn lemma_copies_lengthen(s: Asm, from: i32, to: i32, n: int, k: int)
    ensures
        lengthens(s, gen_copies(s, from, to, n, k)),
    decreases n - k,
{
    broadcast use group_lengthens;

    if s.err is Some || k >= n {
    } else {
        let s1 = s.emit(Opcode::SCopy, reg_at(from, k), reg_at(to, k), 0);
        lemma_copies_lengthen(s1, from, to, n, k + 1);
        lemma_lengthens_through(s, s1, gen_copies(s1, from, to, n, k + 1));
    }
}

proof fn lemma_nulls_lengthen(s: Asm, to: i32, n: int, k: int)
    ensures
        lengthens(s, gen_nulls(s, to, n, k)),
    decreases n - k,
{
    broadcast use group_lengthens;

    if s.err is Some || k >= n {
    } else {
        let s1 = s.emit(Opcode::Null, 0, reg_at(to, k), 0);
        lemma_nulls_lengthen(s1, to, n, k + 1);
        lemma_lengthens_through(s, s1, gen_nulls(s1, to, n, k + 1));
    }
}

/// The sink takes no label.
pub open spec fn unlabelled(sink: SinkView) -> bool {
    sink is Output || sink is Queue
}

proof fn lemma_step_lengthens(s: Asm, inst: InstView, halt: int, place: PlaceView)
    requires
        unlabelled(place.sink),
    ensures
        lengthens(s, gen_step(s, inst, halt, place)),
{
    broadcast use group_lengthens;

    reveal(gen_step);
    reveal(gen_row);
    match place.sink {
        SinkView::Queue { cursor, ncol } => {
            let from = inst.p1.wrapping_add(place.regs);
            let block = s.next_reg;
            let s0 = s.take_regs(ncol);
            let n = least(inst.p2, ncol) as int;
            lemma_copies_lengthen(s0, from, block, n, 0);
            let s1 = gen_copies(s0, from, block, n, 0);
            lemma_lengthens_through(s, s0, s1);
            lemma_nulls_lengthen(s1, block, ncol as int, inst.p2 as int);
            lemma_lengthens_through(s, s1, gen_nulls(s1, block, ncol as int, inst.p2 as int));
        },
        _ => {},
    }
}

proof fn lemma_inline_lengthens(
    s: Asm,
    map: Seq<i32>,
    code: Seq<InstView>,
    halt: int,
    last: int,
    place: PlaceView,
    k: int,
)
    requires
        unlabelled(place.sink),
    ensures
        lengthens(s, gen_inline(s, map, code, halt, last, place, k).0),
    decreases last - k,
{
    broadcast use group_lengthens;

    if k < 0 || k >= last {
    } else {
        let s1 = gen_step(s, code[k], halt, place);
        lemma_step_lengthens(s, code[k], halt, place);
        lemma_inline_lengthens(s1, map.push(s.here()), code, halt, last, place, k + 1);
        lemma_lengthens_through(
            s,
            s1,
            gen_inline(s1, map.push(s.here()), code, halt, last, place, k + 1).0,
        );
    }
}

/// A query put inline adds instructions behind what is there, and no labelled operands.
pub proof fn lemma_query_lengthens(
    s: Asm,
    p: ProgramView,
    sink: SinkView,
    stand_in: Option<i32>,
    missing: Seq<char>,
)
    requires
        unlabelled(sink),
        s.err is None,
        gen_query(s, p, sink, stand_in, missing).err is None,
    ensures
        lengthens(s, gen_query(s, p, sink, stand_in, missing)),
{
    broadcast use group_lengthens;

    reveal(gen_query);
    reveal(gen_room);
    reveal(gen_redirect);
    reveal(Asm::with_code);
    let halt = halt_from(p.code, 0)->0;
    let place = PlaceView {
        regs: s.next_reg.wrapping_sub(1),
        cursors: s.next_cursor,
        stand_in,
        sink,
    };
    let s0 = gen_room(s, p);
    assert(lengthens(s, s0));
    lemma_inline_lengthens(s0, seq![0i32], p.code, halt, halt, place, 1);
    let (t, map) = gen_inline(s0, seq![0i32], p.code, halt, halt, place, 1);
    lemma_lengthens_through(s, s0, t);
    assert(s0.code == s.code);
    let u = gen_redirect(t, s0.code.len() as int, map, halt, t.here());
    assert(lengthens(s, u)) by {
        reveal(lengthens);
        assert forall|i: int| 0 <= i < s.code.len() implies #[trigger] u.code[i] == s.code[i] by {
            assert(t.code[i] == s.code[i]);
        }
    }
}

// ---- Where the instructions come to stand ----

/// The instruction is left out: the cursor that stands in for the first one is open already.
pub open spec fn left_out(inst: InstView, place: PlaceView) -> bool {
    place.stand_in is Some && opens(inst.opcode)
}

/// The instructions of `guest` before address `halt`, but for the first, stand in `code` one after
/// the other: that of address `j` at `map[j]`, and what comes behind them at `end`.
pub open spec fn embeds(
    code: Seq<InstView>,
    guest: Seq<InstView>,
    place: PlaceView,
    map: Seq<i32>,
    halt: int,
    end: int,
) -> bool {
    &&& 1 <= halt < guest.len()
    &&& map.len() == halt
    &&& 0 <= end <= code.len()
    &&& forall|j: int| 1 <= j < halt ==> 0 <= #[trigger] map[j] <= end
    &&& forall|j: int|
        1 <= j < halt ==> (if j + 1 < halt {
            map[j + 1] as int
        } else {
            end
        }) == (#[trigger] map[j]) + (if left_out(guest[j], place) {
            0int
        } else {
            1
        })
    &&& forall|j: int|
        1 <= j < halt && !left_out(guest[j], place) ==> code[#[trigger] map[j] as int]
            == redirected(settled(guest[j], place), map, halt, end as i32)
}

proof fn lemma_inline_places(
    s: Asm,
    map: Seq<i32>,
    code: Seq<InstView>,
    halt: int,
    last: int,
    place: PlaceView,
    k: int,
)
    requires
        place.sink is Output,
        s.err is None,
        1 <= k <= last,
        map.len() == k,
        gen_inline(s, map, code, halt, last, place, k).0.code.len() <= i32::MAX,
    ensures
        ({
            let (t, m) = gen_inline(s, map, code, halt, last, place, k);
            &&& m.len() == last
            &&& forall|j: int| 0 <= j < k ==> #[trigger] m[j] == map[j]
            &&& k < last ==> m[k] == s.code.len()
            &&& k == last ==> t == s
            &&& forall|j: int| k <= j < last ==> s.code.len() <= #[trigger] m[j] <= t.code.len()
            &&& forall|j: int|
                k <= j < last ==> (if j + 1 < last {
                    m[j + 1] as int
                } else {
                    t.code.len() as int
                }) == (#[trigger] m[j]) + (if left_out(code[j], place) {
                    0int
                } else {
                    1
                })
            &&& forall|j: int|
                k <= j < last && !left_out(code[j], place) ==> t.code[#[trigger] m[j] as int]
                    == settled(code[j], place)
        }),
    decreases last - k,
{
    if k < last {
        let s1 = gen_step(s, code[k], halt, place);
        let map1 = map.push(s.here());
        lemma_step_lengthens(s, code[k], halt, place);
        lemma_inline_lengthens(s1, map1, code, halt, last, place, k + 1);
        let (t, m) = gen_inline(s1, map1, code, halt, last, place, k + 1);
        reveal(lengthens);
        lemma_inline_places(s1, map1, code, halt, last, place, k + 1);
        reveal(gen_step);
        reveal(gen_row);
        assert(m[k] == map1[k]);
        assert(map1[k] == s.code.len());
        assert(s1.code.len() == s.code.len() + (if left_out(code[k], place) {
            0int
        } else {
            1
        }));
        assert forall|j: int| 0 <= j < k implies #[trigger] m[j] == map[j] by {
            assert(m[j] == map1[j]);
        }
        assert forall|j: int|
            k <= j < last && !left_out(code[j], place) implies t.code[#[trigger] m[j] as int]
            == settled(code[j], place) by {
            if j == k {
                assert(s1.code[s.code.len() as int] == settled(code[k], place));
                assert(t.code[s.code.len() as int] == s1.code[s.code.len() as int]);
            }
        }
    }
}

pub proof fn lemma_halt_from(code: Seq<InstView>, i: int)
    requires
        0 <= i,
    ensures
        halt_from(code, i) matches Some(h) ==> i <= h < code.len() && code[h].opcode
            == Opcode::Halt,
    decreases code.len() - i,
{
    if i < code.len() && code[i].opcode != Opcode::Halt {
        lemma_halt_from(code, i + 1);
    }
}

/// The place that a query put inline at `s` gets.
pub open spec fn place_at(s: Asm, stand_in: Option<i32>) -> PlaceView {
    PlaceView {
        regs: s.next_reg.wrapping_sub(1),
        cursors: s.next_cursor,
        stand_in,
        sink: SinkView::Output,
    }
}

/// A query put inline, with its rows put out as they are, stands in the code whole.
pub proof fn law_query_is_embedded(
    s: Asm,
    p: ProgramView,
    stand_in: Option<i32>,
    missing: Seq<char>,
) -> (map: Seq<i32>)
    requires
        s.err is None,
        gen_query(s, p, SinkView::Output, stand_in, missing).err is None,
        gen_query(s, p, SinkView::Output, stand_in, missing).code.len() <= i32::MAX,
        p.code.len() > 0,
        p.code[0].opcode != Opcode::Halt,
    ensures
        ({
            let t = gen_query(s, p, SinkView::Output, stand_in, missing);
            let halt = halt_from(p.code, 0);
            &&& halt is Some
            &&& embeds(
                t.code,
                p.code,
                place_at(s, stand_in),
                map,
                halt->0,
                t.code.len() as int,
            )
            &&& halt->0 > 1 ==> map[1] == s.code.len()
        }),
{
    broadcast use group_lengthens;

    reveal(gen_query);
    reveal(gen_room);
    reveal(gen_redirect);
    reveal(Asm::with_code);
    lemma_halt_from(p.code, 0);
    let halt = halt_from(p.code, 0)->0;
    let place = place_at(s, stand_in);
    let s0 = gen_room(s, p);
    assert(s0.err is None && s0.code == s.code);
    lemma_inline_lengthens(s0, seq![0i32], p.code, halt, halt, place, 1);
    let (t, map) = gen_inline(s0, seq![0i32], p.code, halt, halt, place, 1);
    assert(t.err is None) by {
        reveal(lengthens);
    }
    let u = gen_redirect(t, s0.code.len() as int, map, halt, t.here());
    assert(u.code.len() == t.code.len());
    lemma_inline_places(s0, seq![0i32], p.code, halt, halt, place, 1);
    assert forall|j: int|
        1 <= j < halt && !left_out(p.code[j], place) implies u.code[#[trigger] map[j] as int]
        == redirected(settled(p.code[j], place), map, halt, u.code.len() as i32) by {
        assert(t.code[map[j] as int] == settled(p.code[j], place));
    }
    map
}

// ---- The outer query over a recursive expression ----

proof fn lemma_lengthened_neat(s: Asm, t: Asm)
    requires
        lengthens(s, t),
        s.err is None,
        neat(s),
    ensures
        neat(t),
        t.err is None,
{
    reveal(lengthens);
    reveal(neat);
}

/// The program of a query over a recursive expression holds the program of the outer query whole,
/// reading the result in place of its table, and ends behind it.
#[verifier::rlimit(50)]
proof fn lemma_outer_is_embedded(
    setup: ProgramView,
    step: ProgramView,
    outer: ProgramView,
    ncol: i32,
) -> (r: (PlaceView, Seq<i32>, int))
    requires
        gen_recursive(Ok(setup), Ok(step), Ok(outer), ncol).err is None,
        gen_recursive(Ok(setup), Ok(step), Ok(outer), ncol).code.len() <= i32::MAX,
        outer.code.len() > 0,
        outer.code[0].opcode != Opcode::Halt,
    ensures
        ({
            let code = gen_recursive(Ok(setup), Ok(step), Ok(outer), ncol).program().code;
            &&& halt_from(outer.code, 0) is Some
            &&& embeds(code, outer.code, r.0, r.1, halt_from(outer.code, 0)->0, r.2)
            &&& r.0.stand_in == Some(RESULT_CURSOR)
            &&& r.2 < code.len()
            &&& code[r.2].opcode == Opcode::Halt
        }),
{
    broadcast use {group_neat, group_lengthens};

    reveal(gen_recursive);
    reveal(prologue);
    reveal(gen_epilogue);
    lemma_neat_start();
    let big = gen_recursive(Ok(setup), Ok(step), Ok(outer), ncol);
    let queue = SinkView::Queue { cursor: QUEUE_CURSOR, ncol };
    let s0 = prologue().emit(Opcode::OpenEphemeral, RESULT_CURSOR, ncol, 0).note_cursor(
        RESULT_CURSOR,
    ).emit(Opcode::OpenEphemeral, QUEUE_CURSOR, ncol, 0).note_cursor(QUEUE_CURSOR);
    let row = s0.next_reg;
    let s1 = s0.take_regs(1).emit(Opcode::OpenPseudo, CURRENT_CURSOR, row, ncol).note_cursor(
        CURRENT_CURSOR,
    );
    assert(s1.err is None && neat(s1));
    let m1 = "sub-program has no Halt"@;
    let s2 = gen_query(s1, setup, queue, None, m1);
    assert(s2.err is None);
    lemma_query_lengthens(s1, setup, queue, None, m1);
    lemma_lengthened_neat(s1, s2);
    let top = s2.fresh();
    let done = s2.label().fresh();
    let s3 = s2.label().label().bind(top).jump(Opcode::Rewind, QUEUE_CURSOR, done, 0).emit(
        Opcode::NullRow,
        CURRENT_CURSOR,
        0,
        0,
    ).emit(Opcode::RowData, QUEUE_CURSOR, row, 0).emit(Opcode::Delete, QUEUE_CURSOR, 0, 0);
    let rowid = s3.next_reg;
    let s4 = s3.take_regs(1).emit(Opcode::NewRowid, RESULT_CURSOR, rowid, 0).emit(
        Opcode::Insert,
        RESULT_CURSOR,
        row,
        rowid,
    );
    assert(s4.err is None && neat(s4));
    let m2 = "recursive sub-program has no Halt"@;
    let s5 = gen_query(s4, step, queue, Some(CURRENT_CURSOR), m2);
    assert(s5.err is None);
    lemma_query_lengthens(s4, step, queue, Some(CURRENT_CURSOR), m2);
    lemma_lengthened_neat(s4, s5);
    let s6 = s5.jump(Opcode::Goto, 0, top, 0).bind(done);
    assert(neat(s6) && s6.err is None);
    let m3 = "outer sub-program has no Halt"@;
    let s7 = gen_query(s6, outer, SinkView::Output, Some(RESULT_CURSOR), m3);
    let s8 = s7.emit(Opcode::Halt, 0, 0, 0);
    assert(big == gen_epilogue(s8));
    assert(s7.err is None);
    lemma_query_lengthens(s6, outer, SinkView::Output, Some(RESULT_CURSOR), m3);
    lemma_lengthened_neat(s6, s7);
    assert(s7.fixups == s6.fixups) by {
        reveal(lengthens);
    }
    let e = s7.code.len() as int;
    assert(big.code.len() == e + 3);
    let map = law_query_is_embedded(s6, outer, Some(RESULT_CURSOR), m3);
    let place = place_at(s6, Some(RESULT_CURSOR));
    let halt = halt_from(outer.code, 0)->0;
    assert(big.fixups == s6.fixups) by {
        reveal(Asm::append);
        reveal(Asm::bind);
    }
    assert forall|i: int| s6.code.len() <= i < big.code.len() implies big.program().code[i]
        == big.code[i] by {
        reveal(neat);
        lemma_unpatched(big, i);
    }
    assert forall|i: int| 0 <= i < e implies big.code[i] == s7.code[i] by {}
    assert forall|j: int| 1 <= j < halt implies s6.code.len() <= #[trigger] map[j] by {
        lemma_map_rises(s7.code, outer.code, place, map, halt, e, 1, j);
    }
    assert(big.program().code.len() == big.code.len()) by {
        reveal(Asm::program);
    }
    assert(big.code[e].opcode == Opcode::Halt);
    assert(s6.code.len() <= e) by {
        reveal(lengthens);
    }
    (place, map, e)
}

proof fn lemma_map_rises(
    code: Seq<InstView>,
    guest: Seq<InstView>,
    place: PlaceView,
    map: Seq<i32>,
    halt: int,
    end: int,
    i: int,
    j: int,
)
    requires
        embeds(code, guest, place, map, halt, end),
        1 <= i <= j < halt,
    ensures
        map[i] <= map[j],
    decreases j - i,
{
    if i < j {
        lemma_map_rises(code, guest, place, map, halt, end, i, j - 1);
        assert(map[j - 1] <= map[j - 1 + 1]);
    }
}

/// Two queries are the same but for their `WITH` clauses.
pub open spec fn alike_but_for_with(a: SelectStmtView, b: SelectStmtView) -> bool {
    &&& a.distinct == b.distinct
    &&& a.columns == b.columns
    &&& a.from == b.from
    &&& a.where_clause == b.where_clause
    &&& a.group_by == b.group_by
    &&& a.having == b.having
    &&& a.compound == b.compound
    &&& a.order_by == b.order_by
    &&& a.limit == b.limit
    &&& a.offset == b.offset
    &&& a.window_clause == b.window_clause
    &&& a.values == b.values
}

/// The program of a query over a recursive expression holds whole the program of the same query
/// without its `WITH` clause over a plain table: with its conditions, its groups, its order and
/// its limits. It reads the result of the expression in place of the table, and the program ends
/// behind it. The columns are named alike.
pub proof fn law_outer_query_runs_whole(
    outer: SelectStmtView,
    plain: SelectStmtView,
    table: Option<TableView>,
    f: FunctionsView,
) -> (r: (TableView, ProgramView, PlaceView, Seq<i32>, int))
    requires
        plain.with_clause is None,
        alike_but_for_with(outer, plain),
        recursive_outcome(outer, table, f) is Ok,
        limits(outer.limit, outer.offset)->Ok_0.0 != Some(0i64),
        recursive_outcome(outer, table, f)->Ok_0.0.code.len() <= i32::MAX,
    ensures
        ({
            let (t, o, place, map, end) = r;
            let (p, names) = recursive_outcome(outer, table, f)->Ok_0;
            &&& recursive_cte(outer) is Ok
            &&& t.name == recursive_cte(outer)->Ok_0.name
            &&& compiled(plain, Some(t), Seq::empty(), Seq::empty(), f) == Ok::<
                ProgramView,
                Seq<char>,
            >(o)
            &&& expansion(plain, Some(t)) matches Ok(outputs) && names == titles_of(outputs)
            &&& o.code.len() > 0 && o.code[0].opcode != Opcode::Halt ==> {
                &&& halt_from(o.code, 0) is Some
                &&& embeds(p.code, o.code, place, map, halt_from(o.code, 0)->0, end)
                &&& place.stand_in == Some(RESULT_CURSOR)
                &&& end < p.code.len()
                &&& p.code[end].opcode == Opcode::Halt
            }
        }),
{
    let cte = recursive_cte(outer)->Ok_0;
    let source = source_table(setup_query(cte))->Ok_0;
    let table = if source is Some {
        table
    } else {
        None
    };
    let outputs = expansion(setup_query(cte), table)->Ok_0;
    let names = if cte.columns.len() > 0 {
        cte.columns
    } else {
        titles_of(outputs)
    };
    let t = cte_table(cte.name, names);
    assert(plain == SelectStmtView { with_clause: None, ..outer });
    let setup = compiled(setup_query(cte), table, Seq::empty(), Seq::empty(), f);
    let step = compiled(step_query(cte), Some(t), Seq::empty(), Seq::empty(), f);
    let o = compiled(plain, Some(t), Seq::empty(), Seq::empty(), f);
    let n = names.len() as i32;
    let s = gen_recursive(setup, step, o, n);
    assert(s.err is None);
    assert(setup is Ok && step is Ok && o is Ok) by {
        reveal(gen_recursive);
        reveal(prologue);
    }
    assert(s.program().code.len() == s.code.len()) by {
        reveal(Asm::program);
    }
    let o = o->Ok_0;
    if o.code.len() > 0 && o.code[0].opcode != Opcode::Halt {
        let (place, map, end) = lemma_outer_is_embedded(setup->Ok_0, step->Ok_0, o, n);
        (t, o, place, map, end)
    } else {
        (t, o, arbitrary(), arbitrary(), 0)
    }
}

} // verus!
