//! Queries over a recursive common table expression.
//!
//! The body of the expression is `setup UNION [ALL] step`. The rows of the setup query go into a
//! queue. As long as the queue has a row, the row moves to the result, and the step query runs
//! over that one row and adds its rows to the queue. At the end the outer query scans the result.
use vstd::prelude::*;

use crate::ast::{
    arms_view, ctes_view, expr_rows_view, from_items_view, names_view, opt_name_view, opt_with_view,
    CompoundOperator, Cte, CteView, SelectStmt, SelectStmtView, TableOrJoin, TableOrJoinView,
};
use crate::builder::Asm;
use crate::columns::{
    eval_limit_offset, expand_columns, expansion, limits, opt_table_view, titles_of,
};
use crate::compound::{compile, compiled, outcome_of, part, sources_view, Source};
use crate::cte::{body_refers, is_recursive, is_recursive_cte_body, recursive};
use crate::emit::{
    begin, built, empty_program, end, gen_epilogue, gen_nothing, group_emit, prologue,
};
use crate::inline::{gen_query, inline_query, Sink, SinkView};
use crate::schema::{
    columns_view, indexes_view, Column, ColumnView, Functions, FunctionsView, IndexObject, Table,
    TableView,
};
use crate::select::output_names;
use crate::text::{cat2, eq_ignore_case, eq_nocase, Error};
use crate::vdbe::{Affinity, Collation, Opcode, Program, ProgramView};

verus! {

broadcast use group_emit;

/// The cursor of the result.
pub const RESULT_CURSOR: i32 = 10;

/// The cursor of the queue.
pub const QUEUE_CURSOR: i32 = 11;

/// The cursor of the row that the step query runs over.
pub const CURRENT_CURSOR: i32 = 12;

// ---- The program ----

/// The program of a query over a recursive expression with `ncol` columns, from those of its
/// setup query, its step query and the outer query.
#[verifier::opaque]
pub open spec fn gen_recursive(
    setup: Result<ProgramView, Seq<char>>,
    step: Result<ProgramView, Seq<char>>,
    outer: Result<ProgramView, Seq<char>>,
    ncol: i32,
) -> Asm {
    let s = prologue().emit(Opcode::OpenEphemeral, RESULT_CURSOR, ncol, 0).note_cursor(
        RESULT_CURSOR,
    ).emit(Opcode::OpenEphemeral, QUEUE_CURSOR, ncol, 0).note_cursor(QUEUE_CURSOR);
    let row = s.next_reg;
    let s = s.take_regs(1).emit(Opcode::OpenPseudo, CURRENT_CURSOR, row, ncol).note_cursor(
        CURRENT_CURSOR,
    );
    let queue = SinkView::Queue { cursor: QUEUE_CURSOR, ncol };
    match setup {
        Err(m) => s.fail(m),
        Ok(p) => {
            let s = gen_query(s, p, queue, None, "sub-program has no Halt"@);
            if s.err is Some {
                s
            } else {
                let top = s.fresh();
                let done = s.label().fresh();
                let s = s.label().label().bind(top).jump(Opcode::Rewind, QUEUE_CURSOR, done, 0).emit(
                    Opcode::NullRow,
                    CURRENT_CURSOR,
                    0,
                    0,
                ).emit(Opcode::RowData, QUEUE_CURSOR, row, 0).emit(
                    Opcode::Delete,
                    QUEUE_CURSOR,
                    0,
                    0,
                );
                let rowid = s.next_reg;
                let s = s.take_regs(1).emit(Opcode::NewRowid, RESULT_CURSOR, rowid, 0).emit(
                    Opcode::Insert,
                    RESULT_CURSOR,
                    row,
                    rowid,
                );
                match step {
                    Err(m) => s.fail(m),
                    Ok(q) => {
                        let s = gen_query(
                            s,
                            q,
                            queue,
                            Some(CURRENT_CURSOR),
                            "recursive sub-program has no Halt"@,
                        );
                        if s.err is Some {
                            s
                        } else {
                            let s = s.jump(Opcode::Goto, 0, top, 0).bind(done);
                            match outer {
                                Err(m) => s.fail(m),
                                Ok(o) => gen_epilogue(
                                    gen_query(
                                        s,
                                        o,
                                        SinkView::Output,
                                        Some(RESULT_CURSOR),
                                        "outer sub-program has no Halt"@,
                                    ).emit(Opcode::Halt, 0, 0, 0),
                                ),
                            }
                        }
                    },
                }
            }
        },
    }
}

/// Put the programs of the setup query, the step query and the outer query together.
pub fn recursive_program(
    setup: Result<Program, Error>,
    step: Result<Program, Error>,
    outer: Result<Program, Error>,
    ncol: i32,
) -> (r: Result<Program, Error>)
    ensures
        built(r, gen_recursive(part(setup), part(step), part(outer), ncol)),
{
    reveal(gen_recursive);
    let (mut b, setup_code, after_init) = begin();
    b.emit(Opcode::OpenEphemeral, RESULT_CURSOR, ncol, 0);
    b.note_cursor(RESULT_CURSOR);
    b.emit(Opcode::OpenEphemeral, QUEUE_CURSOR, ncol, 0);
    b.note_cursor(QUEUE_CURSOR);
    let row: i32 = b.alloc_reg();
    b.emit(Opcode::OpenPseudo, CURRENT_CURSOR, row, ncol);
    b.note_cursor(CURRENT_CURSOR);
    let queue = Sink::Queue { cursor: QUEUE_CURSOR, ncol };
    let p = match setup {
        Ok(p) => p,
        Err(err) => {
            return Err(err);
        },
    };
    if let Err(err) = inline_query(&mut b, &p, queue, None, "sub-program has no Halt") {
        return Err(err);
    }
    let top = b.new_label();
    let done = b.new_label();
    b.resolve(top);
    b.emit_jump(Opcode::Rewind, QUEUE_CURSOR, done, 0);
    b.emit(Opcode::NullRow, CURRENT_CURSOR, 0, 0);
    b.emit(Opcode::RowData, QUEUE_CURSOR, row, 0);
    b.emit(Opcode::Delete, QUEUE_CURSOR, 0, 0);
    let rowid: i32 = b.alloc_reg();
    b.emit(Opcode::NewRowid, RESULT_CURSOR, rowid, 0);
    b.emit(Opcode::Insert, RESULT_CURSOR, row, rowid);
    let q = match step {
        Ok(q) => q,
        Err(err) => {
            return Err(err);
        },
    };
    if let Err(err) = inline_query(
        &mut b,
        &q,
        queue,
        Some(CURRENT_CURSOR),
        "recursive sub-program has no Halt",
    ) {
        return Err(err);
    }
    b.emit_jump(Opcode::Goto, 0, top, 0);
    b.resolve(done);
    let o = match outer {
        Ok(o) => o,
        Err(err) => {
            return Err(err);
        },
    };
    if let Err(err) = inline_query(
        &mut b,
        &o,
        Sink::Output,
        Some(RESULT_CURSOR),
        "outer sub-program has no Halt",
    ) {
        return Err(err);
    }
    b.emit(Opcode::Halt, 0, 0, 0);
    Ok(end(b, setup_code, after_init))
}

// ---- The parts of the query ----

/// A `FROM` clause is the one table with the given name.
pub open spec fn scans_only(from: Seq<TableOrJoinView>, name: Seq<char>) -> bool {
    from.len() == 1 && from[0] is Table && from[0]->Table_0.schema is None && eq_nocase(
        from[0]->Table_0.name,
        name,
    )
}

/// The first expression from the `i`-th on that refers to itself.
pub open spec fn self_reference(ctes: Seq<CteView>, i: int) -> Option<int>
    decreases ctes.len() - i,
{
    if i < 0 || i >= ctes.len() {
        None
    } else if body_refers(ctes[i].query, ctes[i].name) {
        Some(i)
    } else {
        self_reference(ctes, i + 1)
    }
}

/// The recursive expression of a query, if it has a form that is supported.
pub open spec fn recursive_cte(outer: SelectStmtView) -> Result<CteView, Seq<char>> {
    match outer.with_clause {
        None => Err("compile_recursive called without a WITH clause"@),
        Some(w) => if !recursive(w) {
            Err("compile_recursive called without a recursive CTE"@)
        } else {
            match self_reference(w.ctes, 0) {
                None => Err("no recursive CTE found in a WITH RECURSIVE clause"@),
                Some(i) => {
                    let cte = w.ctes[i];
                    if cte.query.compound.len() != 1 {
                        Err(
                            "recursive CTE body must be a 2-arm compound (setup UNION [ALL] recursive)"@,
                        )
                    } else if cte.query.compound[0].0 != CompoundOperator::UnionAll
                        && cte.query.compound[0].0 != CompoundOperator::Union {
                        Err(
                            "recursive CTE body must use UNION or UNION ALL (INTERSECT/EXCEPT not supported)"@,
                        )
                    } else if cte.query.compound[0].1.from.len() != 1 {
                        Err(
                            "recursive CTE arm must scan the CTE name (joins in the recursive arm are not supported)"@,
                        )
                    } else if !scans_only(cte.query.compound[0].1.from, cte.name) {
                        Err(
                            "recursive CTE arm must scan the CTE name as its single FROM entry"@,
                        )
                    } else {
                        Ok(cte)
                    }
                },
            }
        },
    }
}

/// The setup query.
pub open spec fn setup_query(cte: CteView) -> SelectStmtView {
    SelectStmtView { compound: Seq::empty(), ..cte.query }
}

/// The step query.
pub open spec fn step_query(cte: CteView) -> SelectStmtView {
    SelectStmtView { with_clause: None, ..cte.query.compound[0].1 }
}

/// The name of the table that a query reads, if it reads one.
pub open spec fn source_table(s: SelectStmtView) -> Result<Option<Seq<char>>, Seq<char>> {
    if s.values.len() > 0 || s.from.len() == 0 {
        Ok(None)
    } else if s.from.len() == 1 && s.from[0] is Table {
        Ok(Some(s.from[0]->Table_0.name))
    } else {
        Err(
            "recursive CTE setup/recursive arm FROM must be a single real table or a constant/VALUES SELECT"@,
        )
    }
}

/// The table that the setup query of a query reads, if it reads one.
pub open spec fn setup_table_name(outer: SelectStmtView) -> Result<Option<Seq<char>>, Seq<char>> {
    match recursive_cte(outer) {
        Err(m) => Err(m),
        Ok(cte) => source_table(setup_query(cte)),
    }
}

/// A column without a type.
pub open spec fn untyped_column(name: Seq<char>) -> ColumnView {
    ColumnView {
        name,
        affinity: Affinity::Blob,
        collation: Collation::Binary,
        notnull: false,
        pk: false,
        default: None,
    }
}

/// The table that stands for the expression.
pub open spec fn cte_table(name: Seq<char>, columns: Seq<Seq<char>>) -> TableView {
    TableView {
        name,
        rootpage: 0,
        columns: Seq::new(columns.len(), |i: int| untyped_column(columns[i])),
        rowid_alias: None,
        without_rowid: false,
        pk_columns: Seq::empty(),
    }
}

/// What a query over a recursive expression compiles to: its program and the names of its
/// columns. `table` is the table that the setup query reads.
pub open spec fn recursive_outcome(
    outer: SelectStmtView,
    table: Option<TableView>,
    f: FunctionsView,
) -> Result<(ProgramView, Seq<Seq<char>>), Seq<char>> {
    match recursive_cte(outer) {
        Err(m) => Err(m),
        Ok(cte) => match source_table(setup_query(cte)) {
            Err(m) => Err(m),
            Ok(source) => if source is Some && table is None {
                Err("no such table: "@ + source->0)
            } else {
                let table = if source is Some {
                    table
                } else {
                    None
                };
                match expansion(setup_query(cte), table) {
                    Err(m) => Err(m),
                    Ok(outputs) => {
                        let names = if cte.columns.len() > 0 {
                            cte.columns
                        } else {
                            titles_of(outputs)
                        };
                        recursive_program_of(outer, cte, names, table, f)
                    },
                }
            },
        },
    }
}

/// The same, once the names of the expression's columns are known.
pub open spec fn recursive_program_of(
    outer: SelectStmtView,
    cte: CteView,
    names: Seq<Seq<char>>,
    table: Option<TableView>,
    f: FunctionsView,
) -> Result<(ProgramView, Seq<Seq<char>>), Seq<char>> {
    let t = cte_table(cte.name, names);
    let bare = SelectStmtView { with_clause: None, ..outer };
    if outer.from.len() != 1 {
        Err(
            "outer query over a recursive CTE must scan the CTE as its single FROM entry (joins not supported)"@,
        )
    } else if !scans_only(outer.from, cte.name) {
        Err("outer query over a recursive CTE must scan the CTE name"@)
    } else {
        match expansion(bare, Some(t)) {
            Err(m) => Err(m),
            Ok(outputs) => match limits(outer.limit, outer.offset) {
                Err(m) => Err(m),
                Ok((limit, offset)) => {
                    let s = if limit == Some(0i64) {
                        gen_nothing()
                    } else {
                        gen_recursive(
                            compiled(setup_query(cte), table, Seq::empty(), Seq::empty(), f),
                            compiled(step_query(cte), Some(t), Seq::empty(), Seq::empty(), f),
                            compiled(bare, Some(t), Seq::empty(), Seq::empty(), f),
                            names.len() as i32,
                        )
                    };
                    match outcome_of(s) {
                        Err(m) => Err(m),
                        Ok(p) => Ok((p, titles_of(outputs))),
                    }
                },
            },
        }
    }
}

// ---- Compiling ----

/// A compiled query over a common table expression.
#[derive(Debug)]
pub struct CompiledCte {
    pub program: Program,
    pub column_names: Vec<String>,
}

fn scans_name(from: &Vec<TableOrJoin>, name: &str) -> (r: bool)
    ensures
        r == scans_only(from_items_view(from@), name@),
{
    if from.len() != 1 {
        return false;
    }
    assert(from_items_view(from@)[0] == from@[0]@);
    match &from[0] {
        TableOrJoin::Table(t) => {
            assert(from@[0]@ == TableOrJoinView::Table(t@));
            assert(t@.schema == opt_name_view(t.schema));
            t.schema.is_none() && eq_ignore_case(t.name.as_str(), name)
        },
        _ => false,
    }
}

fn find_recursive_cte<'a>(outer: &'a SelectStmt) -> (r: Result<&'a Cte, Error>)
    ensures
        match r {
            Ok(c) => recursive_cte(outer@) == Ok::<CteView, Seq<char>>(c@),
            Err(e) => recursive_cte(outer@) == Err::<CteView, Seq<char>>(e@),
        },
{
    assert(outer@.with_clause == opt_with_view(outer.with_clause));
    let with = match &outer.with_clause {
        None => {
            return Err(Error::lit("compile_recursive called without a WITH clause"));
        },
        Some(w) => w,
    };
    assert(outer@.with_clause == Some(with@));
    assert(with@.ctes == ctes_view(with.ctes@));
    if !is_recursive(with) {
        return Err(Error::lit("compile_recursive called without a recursive CTE"));
    }
    let n: usize = with.ctes.len();
    let mut i: usize = 0;
    while i < n && !is_recursive_cte_body(&with.ctes[i].query, with.ctes[i].name.as_str())
        invariant
            i <= n,
            n == with.ctes@.len(),
            with@.ctes == ctes_view(with.ctes@),
            self_reference(with@.ctes, 0) == self_reference(with@.ctes, i as int),
        decreases n - i,
    {
        assert(with@.ctes[i as int] == with.ctes@[i as int]@);
        i = i + 1;
    }
    if i == n {
        return Err(Error::lit("no recursive CTE found in a WITH RECURSIVE clause"));
    }
    let cte = &with.ctes[i];
    assert(with@.ctes[i as int] == cte@);
    assert(cte@.query == cte.query@);
    assert(cte.query@.compound == arms_view(cte.query.compound@));
    if cte.query.compound.len() != 1 {
        return Err(
            Error::lit("recursive CTE body must be a 2-arm compound (setup UNION [ALL] recursive)"),
        );
    }
    let op = cte.query.compound[0].0;
    let arm = &cte.query.compound[0].1;
    assert(cte@.query.compound[0] == (op, arm@));
    assert(arm@.from == from_items_view(arm.from@));
    if op != CompoundOperator::UnionAll && op != CompoundOperator::Union {
        return Err(
            Error::lit(
                "recursive CTE body must use UNION or UNION ALL (INTERSECT/EXCEPT not supported)",
            ),
        );
    }
    if arm.from.len() != 1 {
        return Err(
            Error::lit(
                "recursive CTE arm must scan the CTE name (joins in the recursive arm are not supported)",
            ),
        );
    }
    if !scans_name(&arm.from, cte.name.as_str()) {
        return Err(
            Error::lit("recursive CTE arm must scan the CTE name as its single FROM entry"),
        );
    }
    Ok(cte)
}

fn resolve_source_table(select: &SelectStmt) -> (r: Result<Option<String>, Error>)
    ensures
        match r {
            Ok(n) => source_table(select@) == Ok::<Option<Seq<char>>, Seq<char>>(opt_name_view(n)),
            Err(e) => source_table(select@) == Err::<Option<Seq<char>>, Seq<char>>(e@),
        },
{
    assert(select@.values == expr_rows_view(select.values@));
    assert(select@.from == from_items_view(select.from@));
    if select.values.len() > 0 || select.from.len() == 0 {
        return Ok(None);
    }
    if select.from.len() == 1 {
        assert(select@.from[0] == select.from@[0]@);
        if let TableOrJoin::Table(t) = &select.from[0] {
            assert(select@.from[0] == TableOrJoinView::Table(t@));
            return Ok(Some(t.name.clone()));
        }
    }
    Err(
        Error::lit(
            "recursive CTE setup/recursive arm FROM must be a single real table or a constant/VALUES SELECT",
        ),
    )
}

fn setup_of(cte: &Cte) -> (r: SelectStmt)
    ensures
        r@ == setup_query(cte@),
{
    let mut setup = cte.query.clone();
    setup.compound = Vec::new();
    assert(arms_view(setup.compound@) =~= Seq::empty());
    assert(setup@ == setup_query(cte@));
    setup
}

/// The name of the table that the setup query of a query over a recursive expression reads, if
/// it reads one: the table to hand to [`compile_recursive`].
pub fn setup_source(outer: &SelectStmt) -> (r: Result<Option<String>, Error>)
    ensures
        match r {
            Ok(n) => setup_table_name(outer@) == Ok::<Option<Seq<char>>, Seq<char>>(
                opt_name_view(n),
            ),
            Err(e) => setup_table_name(outer@) == Err::<Option<Seq<char>>, Seq<char>>(e@),
        },
{
    match find_recursive_cte(outer) {
        Err(err) => Err(err),
        Ok(cte) => resolve_source_table(&setup_of(cte)),
    }
}

fn table_of(name: &String, names: &Vec<String>) -> (r: Table)
    ensures
        r@ == cte_table(name@, names_view(names@)),
        r@.wf(),
{
    let ghost want = cte_table(name@, names_view(names@));
    let mut columns: Vec<Column> = Vec::new();
    for i in 0..names.len()
        invariant
            columns@.len() == i,
            forall|j: int| 0 <= j < i ==> (#[trigger] columns@[j])@ == untyped_column(names@[j]@),
    {
        columns.push(
            Column {
                name: names[i].clone(),
                affinity: Affinity::Blob,
                collation: Collation::Binary,
                notnull: false,
                pk: false,
                default: None,
            },
        );
        assert(columns@[i as int]@ == untyped_column(names@[i as int]@));
    }
    assert(columns_view(columns@) =~= want.columns);
    let r = Table {
        name: name.clone(),
        rootpage: 0,
        columns,
        rowid_alias: None,
        without_rowid: false,
        pk_columns: Vec::new(),
    };
    assert(r@.pk_columns =~= want.pk_columns);
    r
}

fn compile_part(select: &SelectStmt, table: Option<&Table>, functions: &Functions) -> (r: Result<
    Program,
    Error,
>)
    requires
        table matches Some(t) ==> t@.wf(),
    ensures
        part(r) == compiled(
            select@,
            opt_table_view(table),
            Seq::empty(),
            Seq::empty(),
            functions@,
        ),
{
    let indexes: Vec<IndexObject> = Vec::new();
    let sources: Vec<Result<Source, Error>> = Vec::new();
    assert(indexes_view(indexes@) =~= Seq::empty());
    assert(sources_view(sources@) =~= Seq::empty());
    match compile(select, table, indexes.as_slice(), sources.as_slice(), functions) {
        Ok(x) => Ok(x.0),
        Err(err) => Err(err),
    }
}

/// Compile a query over a recursive common table expression. `setup_table` is the table that
/// [`setup_source`] names.
pub fn compile_recursive(
    outer: &SelectStmt,
    setup_table: Option<&Table>,
    functions: &Functions,
) -> (r: Result<CompiledCte, Error>)
    requires
        setup_table matches Some(t) ==> t@.wf(),
    ensures
        match r {
            Ok(c) => recursive_outcome(outer@, opt_table_view(setup_table), functions@) == Ok::<
                (ProgramView, Seq<Seq<char>>),
                Seq<char>,
            >((c.program@, names_view(c.column_names@))),
            Err(e) => recursive_outcome(outer@, opt_table_view(setup_table), functions@) == Err::<
                (ProgramView, Seq<Seq<char>>),
                Seq<char>,
            >(e@),
        },
{
    let cte = match find_recursive_cte(outer) {
        Ok(c) => c,
        Err(err) => {
            return Err(err);
        },
    };
    let setup = setup_of(cte);
    let source = match resolve_source_table(&setup) {
        Ok(n) => n,
        Err(err) => {
            return Err(err);
        },
    };
    let mut table: Option<&Table> = None;
    if let Some(name) = &source {
        match setup_table {
            Some(t) => {
                table = Some(t);
            },
            None => {
                return Err(Error::msg(cat2("no such table: ", name.as_str())));
            },
        }
    }
    let setup_outputs = match expand_columns(&setup, table) {
        Ok(v) => v,
        Err(err) => {
            return Err(err);
        },
    };
    assert(cte@.columns == names_view(cte.columns@));
    let names = if cte.columns.len() > 0 {
        clone_names(&cte.columns)
    } else {
        output_names(&setup_outputs)
    };
    compile_over_cte(outer, cte, &setup, &names, table, functions)
}

fn clone_names(names: &Vec<String>) -> (r: Vec<String>)
    ensures
        names_view(r@) == names_view(names@),
{
    let mut r: Vec<String> = Vec::new();
    for i in 0..names.len()
        invariant
            r@.len() == i,
            forall|j: int| 0 <= j < i ==> (#[trigger] r@[j])@ == names@[j]@,
    {
        r.push(names[i].clone());
    }
    assert(names_view(r@) =~= names_view(names@));
    r
}

fn compile_over_cte(
    outer: &SelectStmt,
    cte: &Cte,
    setup: &SelectStmt,
    names: &Vec<String>,
    table: Option<&Table>,
    functions: &Functions,
) -> (r: Result<CompiledCte, Error>)
    requires
        table matches Some(t) ==> t@.wf(),
        setup@ == setup_query(cte@),
        cte@.query.compound.len() == 1,
    ensures
        match r {
            Ok(c) => recursive_program_of(
                outer@,
                cte@,
                names_view(names@),
                opt_table_view(table),
                functions@,
            ) == Ok::<(ProgramView, Seq<Seq<char>>), Seq<char>>(
                (c.program@, names_view(c.column_names@)),
            ),
            Err(e) => recursive_program_of(
                outer@,
                cte@,
                names_view(names@),
                opt_table_view(table),
                functions@,
            ) == Err::<(ProgramView, Seq<Seq<char>>), Seq<char>>(e@),
        },
{
    let t = table_of(&cte.name, names);
    let mut bare = outer.clone();
    bare.with_clause = None;
    assert(bare@ == SelectStmtView { with_clause: None, ..outer@ });
    assert(outer@.from == from_items_view(outer.from@));
    if outer.from.len() != 1 {
        return Err(
            Error::lit(
                "outer query over a recursive CTE must scan the CTE as its single FROM entry (joins not supported)",
            ),
        );
    }
    if !scans_name(&outer.from, cte.name.as_str()) {
        return Err(Error::lit("outer query over a recursive CTE must scan the CTE name"));
    }
    let outputs = match expand_columns(&bare, Some(&t)) {
        Ok(v) => v,
        Err(err) => {
            return Err(err);
        },
    };
    let column_names = output_names(&outputs);
    let (limit, _) = match eval_limit_offset(&bare) {
        Ok(v) => v,
        Err(err) => {
            return Err(err);
        },
    };
    if limit == Some(0i64) {
        return Ok(CompiledCte { program: empty_program(), column_names });
    }
    assert(cte@.query == cte.query@);
    assert(cte.query@.compound == arms_view(cte.query.compound@));
    let mut step = cte.query.compound[0].1.clone();
    assert(cte@.query.compound[0].1 == step@);
    step.with_clause = None;
    assert(step@ == step_query(cte@));
    let setup_program = compile_part(setup, table, functions);
    let step_program = compile_part(&step, Some(&t), functions);
    let outer_program = compile_part(&bare, Some(&t), functions);
    match recursive_program(setup_program, step_program, outer_program, names.len() as i32) {
        Ok(program) => Ok(CompiledCte { program, column_names }),
        Err(err) => Err(err),
    }
}

} // verus!
