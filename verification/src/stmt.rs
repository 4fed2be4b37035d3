//! The statements that change a database.
use vstd::prelude::*;

use crate::ast::{
    expr_rows_view, names_view, opt_expr_view, opt_name_view, ordering_terms_view,
    result_columns_view, Expr, ExprView, OrderingTerm, OrderingTermView, ResultColumn,
    ResultColumnView, SelectStmt, SelectStmtView,
};
use crate::vdbe::Collation;

verus! {

/// The mathematical value of an optional list of result columns.
pub open spec fn opt_columns_view(o: Option<Vec<ResultColumn>>) -> Option<Seq<ResultColumnView>> {
    match o {
        Some(v) => Some(result_columns_view(v@)),
        None => None,
    }
}

/// A `DELETE` statement.
#[derive(Debug)]
pub struct DeleteStmt {
    pub schema: Option<String>,
    pub name: String,
    pub where_clause: Option<Expr>,
    pub order_by: Vec<OrderingTerm>,
    pub limit: Option<Expr>,
    pub offset: Option<Expr>,
    pub returning: Option<Vec<ResultColumn>>,
}

/// The mathematical value of a [`DeleteStmt`].
pub ghost struct DeleteView {
    pub schema: Option<Seq<char>>,
    pub name: Seq<char>,
    pub where_clause: Option<ExprView>,
    pub order_by: Seq<OrderingTermView>,
    pub limit: Option<ExprView>,
    pub offset: Option<ExprView>,
    pub returning: Option<Seq<ResultColumnView>>,
}

impl View for DeleteStmt {
    type V = DeleteView;

    open spec fn view(&self) -> DeleteView {
        DeleteView {
            schema: opt_name_view(self.schema),
            name: self.name@,
            where_clause: opt_expr_view(self.where_clause),
            order_by: ordering_terms_view(self.order_by@),
            limit: opt_expr_view(self.limit),
            offset: opt_expr_view(self.offset),
            returning: opt_columns_view(self.returning),
        }
    }
}

/// Where the rows of an `INSERT` come from.
#[derive(Debug)]
pub enum InsertSource {
    Values(Vec<Vec<Expr>>),
    Select(Box<SelectStmt>),
    DefaultValues,
}

/// The mathematical value of an [`InsertSource`].
pub ghost enum InsertSourceView {
    Values(Seq<Seq<ExprView>>),
    Select(SelectStmtView),
    DefaultValues,
}

impl View for InsertSource {
    type V = InsertSourceView;

    open spec fn view(&self) -> InsertSourceView {
        match *self {
            InsertSource::Values(rows) => InsertSourceView::Values(expr_rows_view(rows@)),
            InsertSource::Select(s) => InsertSourceView::Select((*s)@),
            InsertSource::DefaultValues => InsertSourceView::DefaultValues,
        }
    }
}

/// An `INSERT` statement.
#[derive(Debug)]
pub struct InsertStmt {
    pub name: String,
    /// The columns that values are given for; empty for all of them.
    pub columns: Vec<String>,
    pub source: InsertSource,
    pub returning: Option<Vec<ResultColumn>>,
}

/// The mathematical value of an [`InsertStmt`].
pub ghost struct InsertView {
    pub name: Seq<char>,
    pub columns: Seq<Seq<char>>,
    pub source: InsertSourceView,
    pub returning: Option<Seq<ResultColumnView>>,
}

impl View for InsertStmt {
    type V = InsertView;

    open spec fn view(&self) -> InsertView {
        InsertView {
            name: self.name@,
            columns: names_view(self.columns@),
            source: self.source@,
            returning: opt_columns_view(self.returning),
        }
    }
}

/// A constraint on a column.
#[derive(Debug)]
pub enum ColumnConstraint {
    PrimaryKey,
    NotNull,
    Unique,
    Default(Expr),
    Check(Expr),
    Collate(String),
}

/// The mathematical value of a [`ColumnConstraint`].
pub ghost enum ColumnConstraintView {
    PrimaryKey,
    NotNull,
    Unique,
    Default(ExprView),
    Check(ExprView),
    Collate(Seq<char>),
}

impl View for ColumnConstraint {
    type V = ColumnConstraintView;

    open spec fn view(&self) -> ColumnConstraintView {
        match self {
            ColumnConstraint::PrimaryKey => ColumnConstraintView::PrimaryKey,
            ColumnConstraint::NotNull => ColumnConstraintView::NotNull,
            ColumnConstraint::Unique => ColumnConstraintView::Unique,
            ColumnConstraint::Default(e) => ColumnConstraintView::Default(e@),
            ColumnConstraint::Check(e) => ColumnConstraintView::Check(e@),
            ColumnConstraint::Collate(c) => ColumnConstraintView::Collate(c@),
        }
    }
}

/// The mathematical values of some constraints.
pub open spec fn constraints_view(s: Seq<ColumnConstraint>) -> Seq<ColumnConstraintView> {
    Seq::new(s.len(), |i: int| s[i]@)
}

/// A column as a statement declares it.
#[derive(Debug)]
pub struct ColumnDef {
    pub name: String,
    /// The declared type.
    pub ty: Option<String>,
    pub constraints: Vec<ColumnConstraint>,
}

/// The mathematical value of a [`ColumnDef`].
pub ghost struct ColumnDefView {
    pub name: Seq<char>,
    pub ty: Option<Seq<char>>,
    pub constraints: Seq<ColumnConstraintView>,
}

impl View for ColumnDef {
    type V = ColumnDefView;

    open spec fn view(&self) -> ColumnDefView {
        ColumnDefView {
            name: self.name@,
            ty: opt_name_view(self.ty),
            constraints: constraints_view(self.constraints@),
        }
    }
}

/// The mathematical values of some column definitions.
pub open spec fn column_defs_view(s: Seq<ColumnDef>) -> Seq<ColumnDefView> {
    Seq::new(s.len(), |i: int| s[i]@)
}

/// A `CREATE TABLE` statement.
#[derive(Debug)]
pub struct CreateTable {
    pub name: String,
    pub temporary: bool,
    pub columns: Vec<ColumnDef>,
}

/// The mathematical value of a [`CreateTable`].
pub ghost struct CreateTableView {
    pub name: Seq<char>,
    pub temporary: bool,
    pub columns: Seq<ColumnDefView>,
}

impl View for CreateTable {
    type V = CreateTableView;

    open spec fn view(&self) -> CreateTableView {
        CreateTableView {
            name: self.name@,
            temporary: self.temporary,
            columns: column_defs_view(self.columns@),
        }
    }
}

/// A column of a `CREATE INDEX` statement.
#[derive(Debug)]
pub struct IndexedColumn {
    pub name: String,
    pub desc: bool,
    /// The collation of a `COLLATE` clause.
    pub collation: Option<Collation>,
    /// The indexed expression, for a column that is not a plain column of the table.
    pub expr: Option<Expr>,
}

/// The mathematical value of an [`IndexedColumn`].
pub ghost struct IndexedColumnView {
    pub name: Seq<char>,
    pub desc: bool,
    pub collation: Option<Collation>,
    pub expr: Option<ExprView>,
}

impl View for IndexedColumn {
    type V = IndexedColumnView;

    open spec fn view(&self) -> IndexedColumnView {
        IndexedColumnView {
            name: self.name@,
            desc: self.desc,
            collation: self.collation,
            expr: opt_expr_view(self.expr),
        }
    }
}

/// The mathematical values of some columns.
pub open spec fn indexed_columns_view(s: Seq<IndexedColumn>) -> Seq<IndexedColumnView> {
    Seq::new(s.len(), |i: int| s[i]@)
}

/// A `CREATE INDEX` statement.
#[derive(Debug)]
pub struct CreateIndex {
    pub schema: Option<String>,
    pub name: String,
    pub table: String,
    pub unique: bool,
    pub columns: Vec<IndexedColumn>,
    pub where_clause: Option<Expr>,
}

/// The mathematical value of a [`CreateIndex`].
pub ghost struct CreateIndexView {
    pub schema: Option<Seq<char>>,
    pub name: Seq<char>,
    pub table: Seq<char>,
    pub unique: bool,
    pub columns: Seq<IndexedColumnView>,
    pub where_clause: Option<ExprView>,
}

impl View for CreateIndex {
    type V = CreateIndexView;

    open spec fn view(&self) -> CreateIndexView {
        CreateIndexView {
            schema: opt_name_view(self.schema),
            name: self.name@,
            table: self.table@,
            unique: self.unique,
            columns: indexed_columns_view(self.columns@),
            where_clause: opt_expr_view(self.where_clause),
        }
    }
}

/// A `DROP TABLE` statement.
#[derive(Debug)]
pub struct DropTableStmt {
    pub name: String,
    pub if_exists: bool,
}

/// The mathematical value of a [`DropTableStmt`].
pub ghost struct DropTableView {
    pub name: Seq<char>,
    pub if_exists: bool,
}

impl View for DropTableStmt {
    type V = DropTableView;

    open spec fn view(&self) -> DropTableView {
        DropTableView { name: self.name@, if_exists: self.if_exists }
    }
}

/// A `DROP INDEX` statement.
#[derive(Debug)]
pub struct DropIndexStmt {
    pub schema: Option<String>,
    pub name: String,
    pub if_exists: bool,
}

/// The mathematical value of a [`DropIndexStmt`].
pub ghost struct DropIndexView {
    pub schema: Option<Seq<char>>,
    pub name: Seq<char>,
    pub if_exists: bool,
}

impl View for DropIndexStmt {
    type V = DropIndexView;

    open spec fn view(&self) -> DropIndexView {
        DropIndexView {
            schema: opt_name_view(self.schema),
            name: self.name@,
            if_exists: self.if_exists,
        }
    }
}

/// What an `ALTER TABLE` statement does.
#[derive(Debug)]
pub enum AlterAction {
    RenameTo(String),
    AddColumn(ColumnDef),
}

/// The mathematical value of an [`AlterAction`].
pub ghost enum AlterActionView {
    RenameTo(Seq<char>),
    AddColumn(ColumnDefView),
}

impl View for AlterAction {
    type V = AlterActionView;

    open spec fn view(&self) -> AlterActionView {
        match self {
            AlterAction::RenameTo(n) => AlterActionView::RenameTo(n@),
            AlterAction::AddColumn(c) => AlterActionView::AddColumn(c@),
        }
    }
}

/// An `ALTER TABLE` statement.
#[derive(Debug)]
pub struct AlterTableStmt {
    pub schema: Option<String>,
    pub name: String,
    pub action: AlterAction,
}

/// The mathematical value of an [`AlterTableStmt`].
pub ghost struct AlterTableView {
    pub schema: Option<Seq<char>>,
    pub name: Seq<char>,
    pub action: AlterActionView,
}

impl View for AlterTableStmt {
    type V = AlterTableView;

    open spec fn view(&self) -> AlterTableView {
        AlterTableView {
            schema: opt_name_view(self.schema),
            name: self.name@,
            action: self.action@,
        }
    }
}

} // verus!
