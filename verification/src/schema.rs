//! Tables, indexes and functions as the catalog describes them.
use vstd::prelude::*;

use crate::ast::{opt_expr_view, Expr, ExprView};
use crate::text::{cat2, cat3, cat4, eq_ignore_case, eq_nocase, owned, Error};
use crate::vdbe::{Affinity, AggregateKind, Collation, KeyField};
use vstd::string::*;

verus! {

/// A stored column of a table.
#[derive(Debug)]
pub struct Column {
    pub name: String,
    pub affinity: Affinity,
    pub collation: Collation,
    pub notnull: bool,
    pub pk: bool,
    /// The `DEFAULT` expression.
    pub default: Option<Expr>,
}

/// The mathematical value of a [`Column`].
pub ghost struct ColumnView {
    pub name: Seq<char>,
    pub affinity: Affinity,
    pub collation: Collation,
    pub notnull: bool,
    pub pk: bool,
    pub default: Option<ExprView>,
}

impl View for Column {
    type V = ColumnView;

    open spec fn view(&self) -> ColumnView {
        ColumnView {
            name: self.name@,
            affinity: self.affinity,
            collation: self.collation,
            notnull: self.notnull,
            pk: self.pk,
            default: opt_expr_view(self.default),
        }
    }
}

/// A table.
#[derive(Debug)]
pub struct Table {
    pub name: String,
    pub rootpage: u32,
    pub columns: Vec<Column>,
    /// The `INTEGER PRIMARY KEY` column, whose value is the rowid.
    pub rowid_alias: Option<usize>,
    pub without_rowid: bool,
    /// The primary-key columns of a `WITHOUT ROWID` table, each with its `DESC` flag.
    pub pk_columns: Vec<(usize, bool)>,
}

/// The mathematical value of a [`Table`].
pub ghost struct TableView {
    pub name: Seq<char>,
    pub rootpage: u32,
    pub columns: Seq<ColumnView>,
    pub rowid_alias: Option<usize>,
    pub without_rowid: bool,
    pub pk_columns: Seq<(usize, bool)>,
}

/// The mathematical values of some columns.
pub open spec fn columns_view(s: Seq<Column>) -> Seq<ColumnView> {
    Seq::new(s.len(), |i: int| s[i]@)
}

impl View for Table {
    type V = TableView;

    open spec fn view(&self) -> TableView {
        TableView {
            name: self.name@,
            rootpage: self.rootpage,
            columns: columns_view(self.columns@),
            rowid_alias: self.rowid_alias,
            without_rowid: self.without_rowid,
            pk_columns: self.pk_columns@,
        }
    }
}

/// What a column name denotes.
#[derive(Clone, Copy, PartialEq, Eq, Structural, Debug)]
pub enum ColumnRef {
    /// The rowid, by one of its names or through its alias column.
    Rowid,
    /// The stored column with this index.
    Index(usize),
}

/// The first column from index `i` on that has the given name.
pub open spec fn column_from(cols: Seq<ColumnView>, name: Seq<char>, i: int) -> Option<usize>
    decreases cols.len() - i,
{
    if i < 0 || i >= cols.len() {
        None
    } else if eq_nocase(cols[i].name, name) {
        Some(i as usize)
    } else {
        column_from(cols, name, i + 1)
    }
}

/// The position of column `c` among the primary-key columns from index `i` on.
pub open spec fn pk_from(pk: Seq<(usize, bool)>, c: usize, i: int) -> Option<usize>
    decreases pk.len() - i,
{
    if i < 0 || i >= pk.len() {
        None
    } else if pk[i].0 == c {
        Some(i as usize)
    } else {
        pk_from(pk, c, i + 1)
    }
}

/// The number of columns below `n` that are not primary-key columns.
pub open spec fn plain_below(pk: Seq<(usize, bool)>, n: int) -> nat
    decreases n,
{
    if n <= 0 {
        0
    } else {
        plain_below(pk, n - 1) + (if pk_from(pk, (n - 1) as usize, 0) is None {
            1nat
        } else {
            0
        })
    }
}

/// The text is one of the names of the rowid.
pub open spec fn is_rowid_name(name: Seq<char>) -> bool {
    eq_nocase(name, "rowid"@) || eq_nocase(name, "_rowid_"@) || eq_nocase(name, "oid"@)
}

impl TableView {
    /// The alias and the primary-key columns are columns of the table.
    pub open spec fn wf(self) -> bool {
        &&& self.columns.len() <= usize::MAX
        &&& self.rowid_alias matches Some(a) ==> a < self.columns.len()
        &&& forall|k: int|
            0 <= k < self.pk_columns.len() ==> (#[trigger] self.pk_columns[k]).0
                < self.columns.len()
    }

    /// The index of the first column with the given name, whatever its case.
    pub open spec fn column_index(self, name: Seq<char>) -> Option<usize> {
        column_from(self.columns, name, 0)
    }

    /// What the given column name denotes: a column of the table by preference, else the rowid.
    pub open spec fn resolve(self, name: Seq<char>) -> Option<ColumnRef> {
        match self.column_index(name) {
            Some(i) => if self.rowid_alias == Some(i) {
                Some(ColumnRef::Rowid)
            } else {
                Some(ColumnRef::Index(i))
            },
            None => if !self.without_rowid && is_rowid_name(name) {
                Some(ColumnRef::Rowid)
            } else {
                None
            },
        }
    }

    /// Where column `i` of a `WITHOUT ROWID` table is stored: the primary-key columns come
    /// first, in key order, then the others, in table order.
    pub open spec fn storage_index(self, i: usize) -> int {
        match pk_from(self.pk_columns, i, 0) {
            Some(k) => k as int,
            None => (self.pk_columns.len() + plain_below(self.pk_columns, i as int)) as int,
        }
    }

    /// The number of values in a stored row of a `WITHOUT ROWID` table.
    pub open spec fn storage_width(self) -> int {
        (self.pk_columns.len() + plain_below(self.pk_columns, self.columns.len() as int)) as int
    }

    /// How the rows of a `WITHOUT ROWID` table compare.
    pub open spec fn key_info(self) -> Seq<KeyField> {
        Seq::new(
            self.pk_columns.len(),
            |i: int| KeyField { desc: self.pk_columns[i].1, collation: Collation::Binary },
        )
    }

    /// A table without columns, for expressions that stand outside any table.
    pub open spec fn nothing() -> TableView {
        TableView {
            name: Seq::empty(),
            rootpage: 0,
            columns: Seq::empty(),
            rowid_alias: None,
            without_rowid: false,
            pk_columns: Seq::empty(),
        }
    }
}

/// There are at most `n` plain columns below `n`.
pub proof fn lemma_plain_below(pk: Seq<(usize, bool)>, n: int)
    requires
        0 <= n,
    ensures
        plain_below(pk, n) <= n,
    decreases n,
{
    if n > 0 {
        lemma_plain_below(pk, n - 1);
    }
}

/// The number of plain columns grows by one at each plain column.
proof fn lemma_plain_grows(pk: Seq<(usize, bool)>, i: int, n: int)
    requires
        0 <= i < n,
    ensures
        plain_below(pk, i) + (if pk_from(pk, i as usize, 0) is None {
            1nat
        } else {
            0
        }) <= plain_below(pk, n),
    decreases n - i,
{
    if i + 1 < n {
        lemma_plain_grows(pk, i, n - 1);
    }
}

proof fn lemma_pk_from(pk: Seq<(usize, bool)>, c: usize, i: int)
    requires
        0 <= i,
        pk.len() <= usize::MAX,
    ensures
        pk_from(pk, c, i) matches Some(k) ==> i <= k < pk.len() && pk[k as int].0 == c,
    decreases pk.len() - i,
{
    if i < pk.len() && pk[i].0 != c {
        lemma_pk_from(pk, c, i + 1);
    }
}

/// Each column of a `WITHOUT ROWID` table has a place of its own in a stored row.
pub proof fn law_columns_stored_apart(t: TableView, i: usize, j: usize)
    requires
        t.wf(),
        t.pk_columns.len() <= usize::MAX,
        i < t.columns.len(),
        j < t.columns.len(),
    ensures
        0 <= t.storage_index(i) < t.storage_width(),
        i != j ==> t.storage_index(i) != t.storage_index(j),
{
    let n = t.columns.len() as int;
    lemma_pk_from(t.pk_columns, i, 0);
    lemma_pk_from(t.pk_columns, j, 0);
    lemma_plain_grows(t.pk_columns, i as int, n);
    if i < j {
        lemma_plain_grows(t.pk_columns, i as int, j as int);
    } else if j < i {
        lemma_plain_grows(t.pk_columns, j as int, i as int);
    }
}

/// A column that is found is one of the columns, and carries the name.
pub proof fn lemma_column_from(cols: Seq<ColumnView>, name: Seq<char>, i: int)
    requires
        0 <= i,
        cols.len() <= usize::MAX,
    ensures
        column_from(cols, name, i) matches Some(k) ==> i <= k < cols.len() && eq_nocase(
            cols[k as int].name,
            name,
        ),
    decreases cols.len() - i,
{
    if i < cols.len() && !eq_nocase(cols[i].name, name) {
        lemma_column_from(cols, name, i + 1);
    }
}

impl Table {
    /// A table without columns, for expressions that stand outside any table.
    pub fn nothing() -> (r: Table)
        ensures
            r@ == TableView::nothing(),
            r@.wf(),
    {
        let r = Table {
            name: String::new(),
            rootpage: 0,
            columns: Vec::new(),
            rowid_alias: None,
            without_rowid: false,
            pk_columns: Vec::new(),
        };
        assert(r@.columns =~= Seq::empty());
        r
    }

    /// The index of the first column with the given name, whatever its case.
    pub fn column_index(&self, name: &str) -> (r: Option<usize>)
        ensures
            r == self@.column_index(name@),
            r matches Some(i) ==> i < self@.columns.len(),
    {
        for i in 0..self.columns.len()
            invariant
                column_from(self@.columns, name@, i as int) == self@.column_index(name@),
        {
            if eq_ignore_case(self.columns[i].name.as_str(), name) {
                return Some(i);
            }
        }
        None
    }

    /// What the given column name denotes.
    pub fn resolve_column(&self, name: &str) -> (r: Option<ColumnRef>)
        ensures
            r == self@.resolve(name@),
            r matches Some(ColumnRef::Index(i)) ==> i < self@.columns.len(),
    {
        match self.column_index(name) {
            Some(i) => {
                let is_alias: bool = match self.rowid_alias {
                    Some(a) => a == i,
                    None => false,
                };
                if is_alias {
                    Some(ColumnRef::Rowid)
                } else {
                    Some(ColumnRef::Index(i))
                }
            },
            None => {
                if !self.without_rowid && (eq_ignore_case(name, "rowid") || eq_ignore_case(
                    name,
                    "_rowid_",
                ) || eq_ignore_case(name, "oid")) {
                    Some(ColumnRef::Rowid)
                } else {
                    None
                }
            },
        }
    }

    /// The position of column `c` among the primary-key columns.
    pub fn pk_position(&self, c: usize) -> (r: Option<usize>)
        ensures
            r == pk_from(self@.pk_columns, c, 0),
    {
        for i in 0..self.pk_columns.len()
            invariant
                pk_from(self@.pk_columns, c, i as int) == pk_from(self@.pk_columns, c, 0),
        {
            if self.pk_columns[i].0 == c {
                return Some(i);
            }
        }
        None
    }

    /// Where column `i` of a `WITHOUT ROWID` table is stored, as an instruction operand.
    pub fn without_rowid_storage_index(&self, i: usize) -> (r: i32)
        requires
            i < self@.columns.len(),
        ensures
            r == self@.storage_index(i) as i32,
    {
        match self.pk_position(i) {
            Some(k) => k as i32,
            None => {
                let mut n: u64 = 0;
                for c in 0..i
                    invariant
                        n == plain_below(self@.pk_columns, c as int),
                        n <= c,
                {
                    if self.pk_position(c).is_none() {
                        n = n + 1;
                    }
                }
                let total: u128 = self.pk_columns.len() as u128 + n as u128;
                total as i32
            },
        }
    }

    /// The number of values in a stored row of a `WITHOUT ROWID` table, as an instruction operand.
    pub fn without_rowid_storage_width(&self) -> (r: i32)
        ensures
            r == self@.storage_width() as i32,
    {
        let mut n: u64 = 0;
        for c in 0..self.columns.len()
            invariant
                n == plain_below(self@.pk_columns, c as int),
                n <= c,
        {
            if self.pk_position(c).is_none() {
                n = n + 1;
            }
        }
        let total: u128 = self.pk_columns.len() as u128 + n as u128;
        total as i32
    }

    /// How the rows of a `WITHOUT ROWID` table compare.
    pub fn without_rowid_key_info(&self) -> (r: Vec<KeyField>)
        ensures
            r@ == self@.key_info(),
    {
        let mut r: Vec<KeyField> = Vec::new();
        for i in 0..self.pk_columns.len()
            invariant
                r@.len() == i,
                forall|j: int| 0 <= j < i ==> r@[j] == self@.key_info()[j],
        {
            r.push(KeyField { desc: self.pk_columns[i].1, collation: Collation::Binary });
        }
        assert(r@ =~= self@.key_info());
        r
    }
}

/// A column of an index: a column of the table, or an expression.
#[derive(Debug)]
pub struct IndexColumn {
    pub name: String,
    pub desc: bool,
    pub collation: Collation,
    /// The indexed expression, for a column that is not a plain column of the table.
    pub expr: Option<Expr>,
}

/// The mathematical value of an [`IndexColumn`].
pub ghost struct IndexColumnView {
    pub name: Seq<char>,
    pub desc: bool,
    pub collation: Collation,
    pub expr: Option<ExprView>,
}

impl View for IndexColumn {
    type V = IndexColumnView;

    open spec fn view(&self) -> IndexColumnView {
        IndexColumnView {
            name: self.name@,
            desc: self.desc,
            collation: self.collation,
            expr: opt_expr_view(self.expr),
        }
    }
}

impl IndexColumn {
    /// Whether the column is an expression.
    pub fn is_expression(&self) -> (r: bool)
        ensures
            r == self@.expr is Some,
    {
        self.expr.is_some()
    }
}

/// An index.
#[derive(Debug)]
pub struct IndexObject {
    pub name: String,
    pub rootpage: u32,
    pub columns: Vec<IndexColumn>,
    pub unique: bool,
    /// The predicate of a partial index.
    pub where_clause: Option<Expr>,
}

/// The mathematical value of an [`IndexObject`].
pub ghost struct IndexView {
    pub name: Seq<char>,
    pub rootpage: u32,
    pub columns: Seq<IndexColumnView>,
    pub unique: bool,
    pub where_clause: Option<ExprView>,
}

/// The mathematical values of some index columns.
pub open spec fn index_columns_view(s: Seq<IndexColumn>) -> Seq<IndexColumnView> {
    Seq::new(s.len(), |i: int| s[i]@)
}

/// The mathematical values of some indexes.
pub open spec fn indexes_view(s: Seq<IndexObject>) -> Seq<IndexView> {
    Seq::new(s.len(), |i: int| s[i]@)
}

impl View for IndexObject {
    type V = IndexView;

    open spec fn view(&self) -> IndexView {
        IndexView {
            name: self.name@,
            rootpage: self.rootpage,
            columns: index_columns_view(self.columns@),
            unique: self.unique,
            where_clause: opt_expr_view(self.where_clause),
        }
    }
}

/// `table.col, table.col, ...` for the index columns from `i` on.
pub open spec fn key_column_list(cols: Seq<IndexColumnView>, table: Seq<char>, i: int) -> Seq<char>
    decreases cols.len() - i,
{
    if i < 0 || i >= cols.len() {
        Seq::empty()
    } else {
        (if i == 0 {
            ""@
        } else {
            ", "@
        }) + table + "."@ + cols[i].name + key_column_list(cols, table, i + 1)
    }
}

/// Some index column from `i` on is an expression.
pub open spec fn has_expression(cols: Seq<IndexColumnView>, i: int) -> bool
    decreases cols.len() - i,
{
    i >= 0 && i < cols.len() && (cols[i].expr is Some || has_expression(cols, i + 1))
}

/// The message for an index column that the table does not have.
pub open spec fn unknown_index_column(ix: IndexView, j: int, t: TableView) -> Seq<char> {
    "index "@ + ix.name + " references unknown column "@ + ix.columns[j].name + " on table "@
        + t.name
}

/// The table columns that the plain index columns from `j` on denote, in index order, after
/// `acc`; or the message for the first one that the table does not have.
pub open spec fn plain_columns_from(
    ix: IndexView,
    t: TableView,
    acc: Seq<usize>,
    j: int,
) -> Result<Seq<usize>, Seq<char>>
    decreases ix.columns.len() - j,
{
    if j < 0 || j >= ix.columns.len() {
        Ok(acc)
    } else if ix.columns[j].expr is Some {
        plain_columns_from(ix, t, acc, j + 1)
    } else {
        match t.column_index(ix.columns[j].name) {
            Some(c) => plain_columns_from(ix, t, acc.push(c), j + 1),
            None => Err(unknown_index_column(ix, j, t)),
        }
    }
}

impl IndexView {
    /// The table columns that the plain index columns denote, in index order.
    pub open spec fn table_columns(self, t: TableView) -> Result<Seq<usize>, Seq<char>> {
        plain_columns_from(self, t, Seq::empty(), 0)
    }

    /// How the keys of the index compare, field by field.
    pub open spec fn key_info(self) -> Seq<KeyField> {
        Seq::new(
            self.columns.len(),
            |i: int| KeyField { desc: self.columns[i].desc, collation: self.columns[i].collation },
        )
    }

    /// What a duplicate key in a unique index is reported as; `None` for an index without columns.
    pub open spec fn unique_message(self, t: TableView) -> Option<Seq<char>> {
        if self.columns.len() == 0 {
            None
        } else if has_expression(self.columns, 0) {
            Some("UNIQUE constraint failed: index '"@ + self.name + "'"@)
        } else {
            Some("UNIQUE constraint failed: "@ + key_column_list(self.columns, t.name, 0))
        }
    }
}

impl Clone for IndexColumn {
    fn clone(&self) -> (r: IndexColumn)
        ensures
            r@ == self@,
    {
        IndexColumn {
            name: self.name.clone(),
            desc: self.desc,
            collation: self.collation,
            expr: match &self.expr {
                None => None,
                Some(e) => Some(e.clone()),
            },
        }
    }
}

impl Clone for IndexObject {
    fn clone(&self) -> (r: IndexObject)
        ensures
            r@ == self@,
    {
        let mut columns: Vec<IndexColumn> = Vec::new();
        for i in 0..self.columns.len()
            invariant
                columns@.len() == i,
                forall|j: int| 0 <= j < i ==> (#[trigger] columns@[j])@ == self.columns@[j]@,
        {
            columns.push(self.columns[i].clone());
        }
        assert(index_columns_view(columns@) =~= index_columns_view(self.columns@));
        IndexObject {
            name: self.name.clone(),
            rootpage: self.rootpage,
            columns,
            unique: self.unique,
            where_clause: match &self.where_clause {
                None => None,
                Some(e) => Some(e.clone()),
            },
        }
    }
}

impl IndexObject {
    /// The number of key fields, not counting the trailing rowid.
    pub fn nkey_fields(&self) -> (r: usize)
        ensures
            r == self@.columns.len(),
    {
        self.columns.len()
    }

    /// How the keys of the index compare, field by field.
    pub fn key_info(&self) -> (r: Vec<KeyField>)
        ensures
            r@ == self@.key_info(),
    {
        let mut r: Vec<KeyField> = Vec::new();
        for i in 0..self.columns.len()
            invariant
                r@.len() == i,
                forall|j: int| 0 <= j < i ==> r@[j] == self@.key_info()[j],
        {
            r.push(KeyField { desc: self.columns[i].desc, collation: self.columns[i].collation });
        }
        assert(r@ =~= self@.key_info());
        r
    }

    /// The message for an index column that the table does not have.
    pub fn unknown_column(&self, j: usize, table: &Table) -> (r: Error)
        requires
            j < self@.columns.len(),
        ensures
            r@ == unknown_index_column(self@, j as int, table@),
    {
        let mut m: String = cat4(
            "index ",
            self.name.as_str(),
            " references unknown column ",
            self.columns[j].name.as_str(),
        );
        m.append(" on table ");
        m.append(table.name.as_str());
        Error::msg(m)
    }

    /// The table columns that the plain index columns denote, in index order.
    pub fn table_column_indices(&self, table: &Table) -> (r: Result<Vec<usize>, Error>)
        ensures
            match r {
                Ok(v) => self@.table_columns(table@) == Ok::<Seq<usize>, Seq<char>>(v@),
                Err(e) => self@.table_columns(table@) == Err::<Seq<usize>, Seq<char>>(e@),
            },
            r matches Ok(v) ==> forall|k: int|
                0 <= k < v@.len() ==> (#[trigger] v@[k]) < table@.columns.len(),
    {
        let mut v: Vec<usize> = Vec::new();
        assert(v@ =~= Seq::empty());
        for j in 0..self.columns.len()
            invariant
                plain_columns_from(self@, table@, v@, j as int) == self@.table_columns(table@),
                forall|k: int| 0 <= k < v@.len() ==> (#[trigger] v@[k]) < table@.columns.len(),
        {
            assert(self@.columns[j as int] == self.columns@[j as int]@);
            if !self.columns[j].is_expression() {
                match table.column_index(self.columns[j].name.as_str()) {
                    Some(c) => {
                        v.push(c);
                    },
                    None => {
                        return Err(self.unknown_column(j, table));
                    },
                }
            }
        }
        Ok(v)
    }

    /// What a duplicate key in a unique index is reported as; `None` for an index without columns.
    pub fn unique_constraint_message(&self, table: &Table) -> (r: Option<String>)
        ensures
            match r {
                None => self@.unique_message(table@) is None,
                Some(m) => self@.unique_message(table@) == Some(m@),
            },
    {
        if self.columns.len() == 0 {
            return None;
        }
        let mut list: String = owned("UNIQUE constraint failed: ");
        let ghost prefix = list@;
        for j in 0..self.columns.len()
            invariant
                has_expression(self@.columns, 0) == has_expression(self@.columns, j as int),
                self.columns@.len() > 0,
                prefix == "UNIQUE constraint failed: "@,
                list@ + key_column_list(self@.columns, table@.name, j as int) =~= prefix
                    + key_column_list(self@.columns, table@.name, 0),
        {
            assert(self@.columns[j as int] == self.columns@[j as int]@);
            if self.columns[j].is_expression() {
                return Some(cat3("UNIQUE constraint failed: index '", self.name.as_str(), "'"));
            }
            let ghost before = list@;
            if j > 0 {
                list.append(", ");
            } else {
                list.append("");
            }
            list.append(table.name.as_str());
            list.append(".");
            list.append(self.columns[j].name.as_str());
            assert(list@ + key_column_list(self@.columns, table@.name, j + 1) =~= before
                + key_column_list(self@.columns, table@.name, j as int));
        }
        assert(key_column_list(self@.columns, table@.name, self@.columns.len() as int)
            =~= Seq::empty());
        assert(list@ =~= prefix + key_column_list(self@.columns, table@.name, 0));
        Some(list)
    }
}

/// A scalar function that statements may call.
#[derive(Debug)]
pub struct FuncSig {
    pub name: String,
    /// The number of arguments; `None` for a function that takes any number.
    pub n_args: Option<usize>,
}

/// An aggregate or window function that statements may call.
#[derive(Debug)]
pub struct AggSig {
    pub name: String,
    pub n_args: usize,
    /// The function only makes sense with an `OVER` clause.
    pub window_only: bool,
    pub kind: AggregateKind,
}

/// The functions that statements may call.
#[derive(Debug)]
pub struct Functions {
    pub scalars: Vec<FuncSig>,
    pub aggregates: Vec<AggSig>,
}

/// The mathematical value of a [`FuncSig`].
pub ghost struct FuncSigView {
    pub name: Seq<char>,
    pub n_args: Option<usize>,
}

/// The mathematical value of an [`AggSig`].
pub ghost struct AggSigView {
    pub name: Seq<char>,
    pub n_args: usize,
    pub window_only: bool,
    pub kind: AggregateKind,
}

/// The mathematical value of a [`Functions`].
pub ghost struct FunctionsView {
    pub scalars: Seq<FuncSigView>,
    pub aggregates: Seq<AggSigView>,
}

impl View for Functions {
    type V = FunctionsView;

    open spec fn view(&self) -> FunctionsView {
        FunctionsView {
            scalars: Seq::new(
                self.scalars@.len(),
                |i: int| FuncSigView {
                    name: self.scalars@[i].name@,
                    n_args: self.scalars@[i].n_args,
                },
            ),
            aggregates: Seq::new(
                self.aggregates@.len(),
                |i: int| AggSigView {
                    name: self.aggregates@[i].name@,
                    n_args: self.aggregates@[i].n_args,
                    window_only: self.aggregates@[i].window_only,
                    kind: self.aggregates@[i].kind,
                },
            ),
        }
    }
}

/// No functions at all.
pub open spec fn no_functions() -> FunctionsView {
    FunctionsView { scalars: Seq::empty(), aggregates: Seq::empty() }
}

impl FuncSigView {
    /// The function has the given name.
    pub open spec fn named(self, name: Seq<char>) -> bool {
        eq_nocase(self.name, name)
    }

    /// The function takes `n` arguments.
    pub open spec fn takes(self, n: int) -> bool {
        self.n_args matches Some(k) ==> k == n
    }
}

impl FunctionsView {
    /// There is a scalar function of this name.
    pub open spec fn knows(self, name: Seq<char>) -> bool {
        exists|i: int| 0 <= i < self.scalars.len() && (#[trigger] self.scalars[i]).named(name)
    }

    /// There is a scalar function of this name that takes `n` arguments.
    pub open spec fn accepts(self, name: Seq<char>, n: int) -> bool {
        exists|i: int|
            0 <= i < self.scalars.len() && (#[trigger] self.scalars[i]).named(name)
                && self.scalars[i].takes(n)
    }

    /// Why a call of `name` with `n` arguments is not a scalar function call; `None` if it is one.
    pub open spec fn call_error(self, name: Seq<char>, n: int) -> Option<Seq<char>> {
        if self.accepts(name, n) {
            None
        } else if self.knows(name) {
            Some("wrong number of arguments to function "@ + name + "()"@)
        } else {
            Some("no such function: "@ + name)
        }
    }

    /// The first aggregate or window function, from `i` on, with this name and arity.
    pub open spec fn aggregate_from(self, name: Seq<char>, n: int, i: int) -> Option<AggregateKind>
        decreases self.aggregates.len() - i,
    {
        if i < 0 || i >= self.aggregates.len() {
            None
        } else if eq_nocase(self.aggregates[i].name, name) && self.aggregates[i].n_args == n {
            Some(self.aggregates[i].kind)
        } else {
            self.aggregate_from(name, n, i + 1)
        }
    }

    /// The aggregate or window function with this name and arity.
    pub open spec fn aggregate(self, name: Seq<char>, n: int) -> Option<AggregateKind> {
        self.aggregate_from(name, n, 0)
    }

    /// A call of `name` with `n` arguments, without an `OVER` clause, is an aggregate call.
    pub open spec fn is_aggregate(self, name: Seq<char>, n: int) -> bool {
        exists|i: int|
            0 <= i < self.aggregates.len() && eq_nocase(
                (#[trigger] self.aggregates[i]).name,
                name,
            ) && self.aggregates[i].n_args == n && !self.aggregates[i].window_only
    }

    /// `name` is a function that needs an `OVER` clause.
    pub open spec fn is_window_only(self, name: Seq<char>) -> bool {
        exists|i: int|
            0 <= i < self.aggregates.len() && eq_nocase(
                (#[trigger] self.aggregates[i]).name,
                name,
            ) && self.aggregates[i].window_only
    }
}

impl Functions {
    /// No functions at all.
    pub fn none() -> (r: Functions)
        ensures
            r@ == no_functions(),
    {
        let r = Functions { scalars: Vec::new(), aggregates: Vec::new() };
        assert(r@.scalars =~= Seq::empty());
        assert(r@.aggregates =~= Seq::empty());
        r
    }

    /// Check that `name` with `n` arguments is a call of a scalar function.
    pub fn check(&self, name: &str, n: usize) -> (r: Result<(), Error>)
        ensures
            match r {
                Ok(_) => self@.call_error(name@, n as int) is None,
                Err(e) => self@.call_error(name@, n as int) == Some(e@),
            },
    {
        let mut known: bool = false;
        for i in 0..self.scalars.len()
            invariant
                known ==> self@.knows(name@),
                !known ==> forall|j: int|
                    0 <= j < i ==> !(#[trigger] self@.scalars[j]).named(name@),
                forall|j: int|
                    0 <= j < i ==> !((#[trigger] self@.scalars[j]).named(name@)
                        && self@.scalars[j].takes(n as int)),
        {
            assert(self@.scalars[i as int].name == self.scalars@[i as int].name@);
            if eq_ignore_case(self.scalars[i].name.as_str(), name) {
                assert(self@.scalars[i as int].named(name@));
                known = true;
                let fits: bool = match self.scalars[i].n_args {
                    None => true,
                    Some(k) => k == n,
                };
                if fits {
                    return Ok(());
                }
            }
        }
        if known {
            Err(Error::msg(cat3("wrong number of arguments to function ", name, "()")))
        } else {
            Err(Error::msg(cat2("no such function: ", name)))
        }
    }

    /// The aggregate or window function with this name and arity.
    pub fn aggregate(&self, name: &str, n: usize) -> (r: Option<AggregateKind>)
        ensures
            r == self@.aggregate(name@, n as int),
    {
        for i in 0..self.aggregates.len()
            invariant
                self@.aggregate_from(name@, n as int, i as int) == self@.aggregate(
                    name@,
                    n as int,
                ),
        {
            if eq_ignore_case(self.aggregates[i].name.as_str(), name) && self.aggregates[i].n_args
                == n {
                return Some(self.aggregates[i].kind);
            }
        }
        None
    }

    /// Whether a call without an `OVER` clause is an aggregate call.
    pub fn is_aggregate_call(&self, name: &str, n: usize) -> (r: bool)
        ensures
            r == self@.is_aggregate(name@, n as int),
    {
        for i in 0..self.aggregates.len()
            invariant
                forall|j: int|
                    0 <= j < i ==> !(eq_nocase((#[trigger] self@.aggregates[j]).name, name@)
                        && self@.aggregates[j].n_args == n && !self@.aggregates[j].window_only),
        {
            assert(self@.aggregates[i as int].name == self.aggregates@[i as int].name@);
            if eq_ignore_case(self.aggregates[i].name.as_str(), name) && self.aggregates[i].n_args
                == n && !self.aggregates[i].window_only {
                return true;
            }
        }
        false
    }

    /// Whether a function needs an `OVER` clause.
    pub fn is_window_only_name(&self, name: &str) -> (r: bool)
        ensures
            r == self@.is_window_only(name@),
    {
        for i in 0..self.aggregates.len()
            invariant
                forall|j: int|
                    0 <= j < i ==> !(eq_nocase((#[trigger] self@.aggregates[j]).name, name@)
                        && self@.aggregates[j].window_only),
        {
            assert(self@.aggregates[i as int].name == self.aggregates@[i as int].name@);
            if eq_ignore_case(self.aggregates[i].name.as_str(), name)
                && self.aggregates[i].window_only {
                return true;
            }
        }
        false
    }
}

/// The collation that a name denotes.
pub open spec fn collation_named(name: Seq<char>) -> Option<Collation> {
    if eq_nocase(name, "binary"@) {
        Some(Collation::Binary)
    } else if eq_nocase(name, "nocase"@) {
        Some(Collation::NoCase)
    } else if eq_nocase(name, "rtrim"@) {
        Some(Collation::RTrim)
    } else {
        None
    }
}

impl Collation {
    /// The collation that a name denotes.
    pub fn from_name(name: &str) -> (r: Option<Collation>)
        ensures
            r == collation_named(name@),
    {
        if eq_ignore_case(name, "binary") {
            Some(Collation::Binary)
        } else if eq_ignore_case(name, "nocase") {
            Some(Collation::NoCase)
        } else if eq_ignore_case(name, "rtrim") {
            Some(Collation::RTrim)
        } else {
            None
        }
    }
}

} // verus!
