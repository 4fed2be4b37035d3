//! What the plan of a query says: the rows for a compound query, and the index that a query reads.
use vstd::prelude::*;

use crate::ast::{
    arms_view, expr_rows_view, from_items_view, names_view, ordering_terms_view, CompoundOperator,
    SelectStmt, SelectStmtView, TableOrJoin,
};
use crate::columns::opt_table_view;
use crate::compound::{name_of_operator, operator_name};
use crate::index_planner::{
    chosen_plan, keys_view, pick_index, pinned_keys, IndexPlan, IndexPlanView,
};
use crate::schema::{indexes_view, IndexObject, IndexView, Table, TableView};
use crate::scope::opt_str_view;
use crate::text::{cat2, cat3, decimal, decimal_u64, owned};
use crate::vdbe::{Value, ValueView};

verus! {

/// Rows of values.
pub open spec fn rows_view(rows: Seq<Vec<Value>>) -> Seq<Seq<ValueView>> {
    Seq::new(rows.len(), |i: int| row_view(rows[i]@))
}

/// A row of values.
pub open spec fn row_view(row: Seq<Value>) -> Seq<ValueView> {
    Seq::new(row.len(), |i: int| row[i]@)
}

/// A row of a plan: its number, the number of the row that it belongs to, a column that is
/// always 0, and what it says.
pub open spec fn plan_row(id: i64, parent: i64, detail: Seq<char>) -> Seq<ValueView> {
    seq![
        ValueView::Int(id),
        ValueView::Int(parent),
        ValueView::Int(0),
        ValueView::Text(detail),
    ]
}

/// How the first arm is read.
pub open spec fn scan_text(table: Option<Seq<char>>) -> Seq<char> {
    match table {
        Some(n) => "SCAN "@ + n,
        None => "SCAN CONSTANT ROW"@,
    }
}

/// How another arm is read.
pub open spec fn arm_scan_text(arm: SelectStmtView) -> Seq<char> {
    if arm.values.len() == 1 {
        "SCAN CONSTANT ROW"@
    } else if arm.values.len() > 1 {
        "SCAN "@ + decimal(arm.values.len()) + "-ROW VALUES CLAUSE"@
    } else if arm.from.len() > 0 && arm.from[0] is Table {
        "SCAN "@ + arm.from[0]->Table_0.name
    } else {
        "SCAN CONSTANT ROW"@
    }
}

/// The plan of a compound query over the given table.
pub open spec fn compound_plan(select: SelectStmtView, table: Option<Seq<char>>) -> Seq<
    Seq<ValueView>,
> {
    let name = operator_name(select.compound.last().0);
    let (op, arm) = select.compound[0];
    if select.order_by.len() > 0 {
        seq![
            plan_row(1, 0, "MERGE ("@ + name + ")"@),
            plan_row(2, 1, "LEFT"@),
            plan_row(3, 2, scan_text(table)),
            plan_row(4, 2, "USE TEMP B-TREE FOR ORDER BY"@),
            plan_row(5, 1, "RIGHT"@),
            plan_row(6, 5, arm_scan_text(arm)),
            plan_row(7, 5, "USE TEMP B-TREE FOR ORDER BY"@),
        ]
    } else {
        seq![
            plan_row(1, 0, "COMPOUND QUERY"@),
            plan_row(2, 1, "LEFT-MOST SUBQUERY"@),
            plan_row(3, 2, scan_text(table)),
            plan_row(
                4,
                1,
                if op != CompoundOperator::UnionAll {
                    name + " USING TEMP B-TREE"@
                } else {
                    name
                },
            ),
            plan_row(5, 4, arm_scan_text(arm)),
        ]
    }
}

fn push_row(rows: &mut Vec<Vec<Value>>, id: i64, parent: i64, detail: String)
    ensures
        rows_view(final(rows)@) == rows_view(old(rows)@).push(plan_row(id, parent, detail@)),
{
    let ghost text = detail@;
    let mut row: Vec<Value> = Vec::new();
    row.push(Value::Int(id));
    row.push(Value::Int(parent));
    row.push(Value::Int(0));
    row.push(Value::Text(detail));
    assert(row_view(row@) =~= plan_row(id, parent, text));
    rows.push(row);
    assert(rows_view(rows@) =~= rows_view(old(rows)@).push(plan_row(id, parent, text)));
}

fn scan_detail(table_name: Option<&str>) -> (r: String)
    ensures
        r@ == scan_text(opt_str_view(table_name)),
{
    match table_name {
        Some(n) => cat2("SCAN ", n),
        None => owned("SCAN CONSTANT ROW"),
    }
}

fn scan_detail_for_arm(arm: &SelectStmt) -> (r: String)
    ensures
        r@ == arm_scan_text(arm@),
{
    assert(arm@.values == expr_rows_view(arm.values@));
    assert(arm@.from == from_items_view(arm.from@));
    if arm.values.len() > 0 {
        if arm.values.len() == 1 {
            return owned("SCAN CONSTANT ROW");
        }
        return cat3("SCAN ", decimal_u64(arm.values.len() as u64).as_str(), "-ROW VALUES CLAUSE");
    }
    if arm.from.len() > 0 {
        assert(arm@.from[0] == arm.from@[0]@);
        if let TableOrJoin::Table(t) = &arm.from[0] {
            return cat2("SCAN ", t.name.as_str());
        }
    }
    owned("SCAN CONSTANT ROW")
}

/// The rows of `EXPLAIN QUERY PLAN` for a compound query.
pub fn explain_compound_rows(select: &SelectStmt, table_name: Option<&str>) -> (r: Vec<Vec<Value>>)
    requires
        select@.compound.len() > 0,
    ensures
        rows_view(r@) == compound_plan(select@, opt_str_view(table_name)),
{
    let n: usize = select.compound.len();
    assert(select@.compound == arms_view(select.compound@));
    assert(select@.order_by == ordering_terms_view(select.order_by@));
    assert(select@.compound[0] == (select.compound@[0].0, select.compound@[0].1@));
    assert(select@.compound.last().0 == select.compound@[n - 1].0);
    let name = name_of_operator(select.compound[n - 1].0);
    let op = select.compound[0].0;
    let arm = &select.compound[0].1;
    let mut rows: Vec<Vec<Value>> = Vec::new();
    assert(rows_view(rows@) =~= Seq::empty());
    if select.order_by.len() > 0 {
        push_row(&mut rows, 1, 0, cat3("MERGE (", name, ")"));
        push_row(&mut rows, 2, 1, owned("LEFT"));
        push_row(&mut rows, 3, 2, scan_detail(table_name));
        push_row(&mut rows, 4, 2, owned("USE TEMP B-TREE FOR ORDER BY"));
        push_row(&mut rows, 5, 1, owned("RIGHT"));
        push_row(&mut rows, 6, 5, scan_detail_for_arm(arm));
        push_row(&mut rows, 7, 5, owned("USE TEMP B-TREE FOR ORDER BY"));
    } else {
        push_row(&mut rows, 1, 0, owned("COMPOUND QUERY"));
        push_row(&mut rows, 2, 1, owned("LEFT-MOST SUBQUERY"));
        push_row(&mut rows, 3, 2, scan_detail(table_name));
        let detail = if op != CompoundOperator::UnionAll {
            cat2(name, " USING TEMP B-TREE")
        } else {
            owned(name)
        };
        push_row(&mut rows, 4, 1, detail);
        push_row(&mut rows, 5, 4, scan_detail_for_arm(arm));
    }
    assert(rows_view(rows@) =~= compound_plan(select@, opt_str_view(table_name)));
    rows
}

/// What the plan of a query says of the index that it reads.
#[derive(Debug)]
pub struct IndexPlanInfo {
    pub index_name: String,
    /// The index holds every column that the query reads.
    pub covering: bool,
    /// Some column is pinned to one value.
    pub has_where_equality: bool,
    /// The columns that are pinned, in the order of the index.
    pub equality_columns: Vec<String>,
    /// The index order is the order that is asked for.
    pub order_by_satisfied: bool,
}

/// The mathematical value of an [`IndexPlanInfo`].
pub ghost struct IndexPlanInfoView {
    pub index_name: Seq<char>,
    pub covering: bool,
    pub has_where_equality: bool,
    pub equality_columns: Seq<Seq<char>>,
    pub order_by_satisfied: bool,
}

impl View for IndexPlanInfo {
    type V = IndexPlanInfoView;

    open spec fn view(&self) -> IndexPlanInfoView {
        IndexPlanInfoView {
            index_name: self.index_name@,
            covering: self.covering,
            has_where_equality: self.has_where_equality,
            equality_columns: names_view(self.equality_columns@),
            order_by_satisfied: self.order_by_satisfied,
        }
    }
}

/// What is said of a plan.
pub open spec fn info_of(p: IndexPlanView) -> IndexPlanInfoView {
    let keys = pinned_keys(p.range, p.range.len() as int);
    IndexPlanInfoView {
        index_name: p.index.name,
        covering: p.covering,
        has_where_equality: keys.len() > 0,
        equality_columns: Seq::new(keys.len(), |i: int| keys[i].column),
        order_by_satisfied: p.order_by_satisfied,
    }
}

/// What is said of the index that a query reads; `None` if it reads none.
pub open spec fn index_info(
    select: SelectStmtView,
    table: Option<TableView>,
    indexes: Seq<IndexView>,
) -> Option<IndexPlanInfoView> {
    match table {
        None => None,
        Some(t) => match chosen_plan(select, t, indexes, None, false) {
            Ok(Some(p)) => Some(info_of(p)),
            _ => None,
        },
    }
}

fn describe(plan: &IndexPlan) -> (r: IndexPlanInfo)
    ensures
        r@ == info_of(plan@),
{
    let keys = plan.equality_values();
    let ghost ks = pinned_keys(plan@.range, plan@.range.len() as int);
    let ghost want = info_of(plan@).equality_columns;
    let mut columns: Vec<String> = Vec::new();
    assert(keys_view(keys@).len() == keys@.len());
    for k in 0..keys.len()
        invariant
            ks == keys_view(keys@),
            want.len() == ks.len(),
            forall|i: int| 0 <= i < ks.len() ==> #[trigger] want[i] == ks[i].column,
            columns@.len() == k,
            forall|i: int| 0 <= i < k ==> (#[trigger] columns@[i])@ == want[i],
    {
        assert(ks[k as int] == keys@[k as int]@);
        columns.push(keys[k].column.clone());
    }
    assert(names_view(columns@) =~= want);
    IndexPlanInfo {
        index_name: plan.index.name.clone(),
        covering: plan.covering,
        has_where_equality: keys.len() > 0,
        equality_columns: columns,
        order_by_satisfied: plan.order_by_satisfied,
    }
}

/// What the plan of a query says of the index that it reads; `None` if it reads none.
pub fn select_index_plan_info(
    select: &SelectStmt,
    table: Option<&Table>,
    indexes: &[IndexObject],
) -> (r: Option<IndexPlanInfo>)
    ensures
        match r {
            Some(x) => index_info(select@, opt_table_view(table), indexes_view(indexes@)) == Some(
                x@,
            ),
            None => index_info(select@, opt_table_view(table), indexes_view(indexes@)) is None,
        },
{
    let t = match table {
        Some(t) => t,
        None => {
            return None;
        },
    };
    match pick_index(select, t, indexes, None, false) {
        Ok(Some(p)) => Some(describe(&p)),
        _ => None,
    }
}

} // verus!
