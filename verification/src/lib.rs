//! A code generator for SQL: it turns the syntax tree of a statement into a program for a virtual
//! machine with registers and cursors, and chooses the index that a query reads.
//!
//! The syntax tree is in [`ast`] and [`stmt`], the catalog that a statement is compiled against in
//! [`schema`], and the machine's instructions in [`vdbe`]. A program is laid out with the
//! [`builder`], whose state has a mathematical value, [`builder::Asm`]. What each statement
//! compiles to is stated as a function to that value: the `gen_` functions. The contract of a
//! compiling function says that it gives the program which that function spells, or the error that
//! it ends in; every jump of a finished program goes to the place of its label.
//!
//! What those programs do is stated apart from how they are spelled. [`machine`] says what the
//! instructions do, and [`meaning`] what an expression stands for; the laws relate the two.
//! [`rows`], [`sorting`], [`seeking`], [`totals`], [`groups`], [`grouping`], [`joining`] and
//! [`merging`] say which rows a query puts out, [`storing`] and [`deleting`] what becomes of a
//! table and of its indexes, and [`embedding`] what stays of a program that is put inline.
use vstd::prelude::*;

pub mod aggregate;
pub mod alter;
pub mod ast;
pub mod builder;
pub mod catalog;
pub mod columns;
pub mod compound;
pub mod cost;
pub mod create;
pub mod cte;
pub mod delete;
pub mod deleting;
pub mod drop_index;
pub mod drop_table;
pub mod embedding;
pub mod emit;
pub mod expr;
pub mod flatten;
pub mod grouping;
pub mod groups;
pub mod index;
pub mod index_planner;
pub mod indexed;
pub mod inline;
pub mod insert;
pub mod join;
pub mod join_using;
pub mod joining;
pub mod like;
pub mod machine;
pub mod meaning;
pub mod merge;
pub mod merging;
pub mod plan;
pub mod recursive;
pub mod render;
pub mod resolve;
pub mod returning;
pub mod rewrite;
pub mod rows;
pub mod scan;
pub mod schema;
pub mod scope;
pub mod seeking;
pub mod select;
pub mod sorting;
pub mod stmt;
pub mod storing;
pub mod text;
pub mod totals;
pub mod vdbe;
pub mod walk;

pub use alter::{compile_alter_add_column, compile_alter_rename_table};
pub use create::compile_create_table;
pub use delete::compile_delete;
pub use index::compile_create_index;
pub use insert::compile_insert;
pub use plan::select_index_plan_info;

use ast::SelectStmt;
use columns::opt_table_view;
use compound::{compiled, gives_query, sources_view, sources_wf, Source};
use drop_index::{gen_drop_index, gen_drop_index_noop};
use drop_table::gen_drop_table;
use emit::built;
use schema::{indexes_view, Functions, IndexObject, Table};
use select::select_names;
use stmt::{DropIndexStmt, DropTableStmt};
use text::Error;
use vdbe::Program;

verus! {

/// Compile a query to its program and the names of its result columns. `table` is the table of its
/// `FROM` clause, if it has one, `indexes` are the indexes on it, and `sources` are what the
/// further arms of a compound read.
pub fn compile_select(
    select: &SelectStmt,
    table: Option<&Table>,
    indexes: &[IndexObject],
    sources: &[Result<Source, Error>],
    functions: &Functions,
) -> (r: Result<(Program, Vec<String>), Error>)
    requires
        table matches Some(t) ==> t@.wf(),
        sources_wf(sources_view(sources@)),
    ensures
        gives_query(
            r,
            compiled(
                select@,
                opt_table_view(table),
                indexes_view(indexes@),
                sources_view(sources@),
                functions@,
            ),
            select_names(select@, opt_table_view(table)),
        ),
{
    compound::compile(select, table, indexes, sources, functions)
}

/// Compile a `DROP TABLE` statement. `resolved_table` is the table of that name, if there is one,
/// and `current_schema_cookie` the schema cookie before the statement runs.
pub fn compile_drop_table(
    drop: &DropTableStmt,
    current_schema_cookie: u32,
    resolved_table: Option<&Table>,
) -> (r: Result<Program, Error>)
    ensures
        built(
            r,
            gen_drop_table(
                drop@,
                drop@.if_exists,
                current_schema_cookie,
                opt_table_view(resolved_table),
            ),
        ),
{
    drop_table::compile_drop_table(drop, drop.if_exists, current_schema_cookie, resolved_table)
}

/// Compile a `DROP INDEX` statement. `index` is the index of that name; without one the program
/// does nothing. `schema_rowid` is the rowid of the catalog row of the index.
pub fn compile_drop_index(
    drop: &DropIndexStmt,
    index: Option<&IndexObject>,
    current_schema_cookie: u32,
    schema_rowid: i64,
) -> (r: Result<Program, Error>)
    ensures
        match index {
            Some(ix) => built(
                r,
                gen_drop_index(drop@, ix@, current_schema_cookie, schema_rowid),
            ),
            None => built(r, gen_drop_index_noop()),
        },
{
    match index {
        Some(ix) => drop_index::compile_drop_index(
            drop,
            ix,
            current_schema_cookie,
            schema_rowid,
        ),
        None => Ok(drop_index::compile_drop_index_noop()),
    }
}

} // verus!
