# sqlgen

A code generator for SQL, verified with Verus. It turns the syntax tree of a statement into a
program for a virtual machine with registers and cursors, and chooses the index that a query
reads.

Covered are `SELECT` (scans, indexes, aggregates, joins of two tables, compounds, common table
expressions, the flattening of subqueries), `INSERT` and `DELETE` with index maintenance and
`RETURNING`, `CREATE` and `DROP` of tables and indexes, two forms of `ALTER TABLE`, and the check
that every column name resolves.

## Layout

- `src/ast.rs`, `src/stmt.rs`: the syntax trees, and their mathematical values.
- `src/schema.rs`: tables, indexes and the registered functions.
- `src/vdbe.rs`, `src/builder.rs`: instructions, and the builder that lays them out.
- `src/scope.rs`, `src/expr.rs`, `src/emit.rs`: expressions, and what statements share.
- `src/select.rs`, `src/scan.rs`, `src/indexed.rs`, `src/aggregate.rs`, `src/join.rs`,
  `src/compound.rs`, `src/merge.rs`, `src/recursive.rs`: queries.
- `src/index_planner.rs`, `src/like.rs`, `src/cost.rs`, `src/plan.rs`: the choice of an index, and
  the text of plans.
- `src/cte.rs`, `src/flatten.rs`, `src/join_using.rs`, `src/rewrite.rs`, `src/walk.rs`: rewriting
  of syntax trees.
- `src/insert.rs`, `src/delete.rs`, `src/returning.rs`, `src/create.rs`, `src/index.rs`,
  `src/drop_table.rs`, `src/drop_index.rs`, `src/alter.rs`, `src/catalog.rs`: statements that
  change the database.
- `src/resolve.rs`: name resolution.

## Contracts

The builder's state has a mathematical value, `Asm`. For each kind of statement a `gen_` function
spells the instructions as a value of that type, and the contract of the compiling function says
that the program is the one spelled, or the error the one that the spelling ends in. Proof
functions whose names begin with `law_` state what holds across functions.

## Tests

`tests/` compares programs instruction by instruction, and `tests/machine.rs` runs them on a small
machine and compares the rows that come out.
