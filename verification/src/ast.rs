//! The statements that the code generator takes: expressions, `SELECT` bodies and their parts.
//!
//! Every type has a view that replaces strings and vectors by sequences, so that contracts
//! speak of what a tree holds and not of how it is stored. `clone` keeps the view; `same_expr`
//! and its companions decide whether two views are equal.
use vstd::prelude::*;

use crate::text::{clone_bytes, same_bytes, same_text};

verus! {

/// A prefix operator.
#[derive(Clone, Copy, PartialEq, Eq, Structural, Debug)]
pub enum UnaryOp {
    Negate,
    Positive,
    Not,
    BitNot,
}

/// An infix operator.
#[derive(Clone, Copy, PartialEq, Eq, Structural, Debug)]
pub enum BinaryOp {
    Or,
    And,
    Eq,
    Ne,
    Lt,
    Le,
    Gt,
    Ge,
    Add,
    Sub,
    Mul,
    Div,
    Mod,
    Concat,
    Is,
    IsNot,
    Like,
    Glob,
    Regexp,
    Match,
    BitAnd,
    BitOr,
    ShiftLeft,
    ShiftRight,
    JsonExtract,
    JsonExtractText,
}

/// The operator between two arms of a compound `SELECT`.
#[derive(Clone, Copy, PartialEq, Eq, Structural, Debug)]
pub enum CompoundOperator {
    UnionAll,
    Union,
    Intersect,
    Except,
}

/// How two entries of a `FROM` clause are joined.
#[derive(Clone, Copy, PartialEq, Eq, Structural, Debug)]
pub enum JoinOp {
    Cross,
    Inner,
    Left,
    LeftOuter,
    Right,
    RightOuter,
    Full,
    FullOuter,
    Natural,
    NaturalLeft,
    NaturalRight,
    NaturalFull,
}

/// Where NULLs sort.
#[derive(Clone, Copy, PartialEq, Eq, Structural, Debug)]
pub enum NullsOrder {
    First,
    Last,
}

/// A floating-point number: its IEEE 754 bits and the texts it renders as.
#[derive(Debug)]
pub struct Real {
    /// The double-precision bit pattern.
    pub bits: u64,
    /// The rendering of the number with 15 significant digits.
    pub text: String,
    /// The shortest rendering that reads back as the number.
    pub shortest: String,
}

/// A literal value.
#[derive(Debug)]
pub enum Literal {
    Null,
    Integer(i64),
    Real(Real),
    Text(String),
    Blob(Vec<u8>),
    Bool(bool),
}

/// The argument list of a function call.
#[derive(Debug)]
pub enum FunctionArgs {
    /// `f(*)`
    Star,
    /// `f(a, b, ...)`
    List(Vec<Expr>),
}

/// One term of an `ORDER BY` clause.
#[derive(Debug)]
pub struct OrderingTerm {
    pub expr: Expr,
    pub desc: bool,
    /// `NULLS FIRST` / `NULLS LAST`, when written.
    pub nulls: Option<NullsOrder>,
}

/// The definition of a window (`OVER (...)`).
#[derive(Debug)]
pub struct Window {
    pub partition_by: Vec<Expr>,
    pub order_by: Vec<OrderingTerm>,
}

/// An expression.
#[allow(inconsistent_fields)]
#[derive(Debug)]
pub enum Expr {
    Literal(Literal),
    /// A column reference, optionally qualified.
    Column { schema: Option<String>, table: Option<String>, name: String },
    Unary { op: UnaryOp, expr: Box<Expr> },
    Binary { op: BinaryOp, left: Box<Expr>, right: Box<Expr> },
    /// A function call, an aggregate call, or (with `over`) a window-function call.
    Function { name: String, distinct: bool, args: FunctionArgs, filter: Option<Box<Expr>>, over: Option<Window> },
    /// A bind parameter (`?`, `?1`, `:name`).
    BindParam(String),
    Between { expr: Box<Expr>, low: Box<Expr>, high: Box<Expr>, negated: bool },
    /// `expr [NOT] IN (a, b, ...)`
    In { expr: Box<Expr>, values: Vec<Expr>, negated: bool },
    /// `expr [NOT] IN (SELECT ...)`
    InSubquery { expr: Box<Expr>, subquery: Box<SelectStmt>, negated: bool },
    Exists(Box<SelectStmt>),
    Subquery(Box<SelectStmt>),
    Cast { expr: Box<Expr>, ty: String },
    Case { base: Option<Box<Expr>>, when_then: Vec<(Expr, Expr)>, else_expr: Option<Box<Expr>> },
    Collate { expr: Box<Expr>, collation: String },
    IsDistinctFrom { left: Box<Expr>, right: Box<Expr>, negated: bool },
    /// A row value `(a, b, ...)`.
    Row(Vec<Expr>),
    /// The register that holds an aggregate result or a group key; made by the aggregate code generator.
    AggRef(i32),
    /// `left` unless it is NULL, else `right`; made by the `USING` / `NATURAL` rewrite.
    Coalesce2 { left: Box<Expr>, right: Box<Expr> },
}

/// One entry of a result-column list.
#[derive(Debug)]
pub enum ResultColumn {
    /// `*`
    Star,
    /// `table.*`
    TableStar(String),
    /// `expr [AS alias]`
    Expr { expr: Expr, alias: Option<String> },
}

/// A named table in a `FROM` clause.
#[derive(Debug)]
pub struct TableRef {
    pub schema: Option<String>,
    pub name: String,
    pub alias: Option<String>,
}

/// The constraint of a join.
#[derive(Debug)]
pub enum JoinConstraint {
    On(Expr),
    Using(Vec<String>),
}

/// A join of everything to the left with one more table.
#[derive(Debug)]
pub struct Join {
    pub op: JoinOp,
    pub left: Box<TableOrJoin>,
    pub right: TableRef,
    pub constraint: Option<JoinConstraint>,
}

/// One entry of a `FROM` clause.
#[derive(Debug)]
pub enum TableOrJoin {
    Table(TableRef),
    Subquery { query: Box<SelectStmt>, alias: String },
    Join(Join),
}

/// One common table expression of a `WITH` clause.
#[derive(Debug)]
pub struct Cte {
    pub name: String,
    /// The declared column names; empty when none are written.
    pub columns: Vec<String>,
    pub query: SelectStmt,
}

/// A `WITH` clause.
#[derive(Debug)]
pub struct WithClause {
    pub recursive: bool,
    pub ctes: Vec<Cte>,
}

/// A `SELECT` statement.
#[derive(Debug)]
pub struct SelectStmt {
    pub distinct: bool,
    pub columns: Vec<ResultColumn>,
    pub from: Vec<TableOrJoin>,
    pub where_clause: Option<Expr>,
    pub group_by: Vec<Expr>,
    pub having: Option<Expr>,
    /// The further arms of a compound `SELECT`, each with the operator before it.
    pub compound: Vec<(CompoundOperator, SelectStmt)>,
    pub order_by: Vec<OrderingTerm>,
    pub limit: Option<Expr>,
    pub offset: Option<Expr>,
    pub with_clause: Option<WithClause>,
    pub window_clause: Vec<Window>,
    /// The rows of a `VALUES` body; empty for any other `SELECT`.
    pub values: Vec<Vec<Expr>>,
}

/// The mathematical value of a [`Real`].
pub ghost struct RealView {
    pub bits: u64,
    pub text: Seq<char>,
    pub shortest: Seq<char>,
}

/// The mathematical value of a [`Literal`].
pub ghost enum LiteralView {
    Null,
    Integer(i64),
    Real(RealView),
    Text(Seq<char>),
    Blob(Seq<u8>),
    Bool(bool),
}

/// The mathematical value of a [`FunctionArgs`].
pub ghost enum FunctionArgsView {
    Star,
    List(Seq<ExprView>),
}

/// The mathematical value of a [`OrderingTerm`].
pub ghost struct OrderingTermView {
    pub expr: ExprView,
    pub desc: bool,
    pub nulls: Option<NullsOrder>,
}

/// The mathematical value of a [`Window`].
pub ghost struct WindowView {
    pub partition_by: Seq<ExprView>,
    pub order_by: Seq<OrderingTermView>,
}

/// The mathematical value of a [`Expr`].
#[allow(inconsistent_fields)]
pub ghost enum ExprView {
    Literal(LiteralView),
    Column { schema: Option<Seq<char>>, table: Option<Seq<char>>, name: Seq<char> },
    Unary { op: UnaryOp, expr: Box<ExprView> },
    Binary { op: BinaryOp, left: Box<ExprView>, right: Box<ExprView> },
    Function { name: Seq<char>, distinct: bool, args: FunctionArgsView, filter: Option<Box<ExprView>>, over: Option<WindowView> },
    BindParam(Seq<char>),
    Between { expr: Box<ExprView>, low: Box<ExprView>, high: Box<ExprView>, negated: bool },
    In { expr: Box<ExprView>, values: Seq<ExprView>, negated: bool },
    InSubquery { expr: Box<ExprView>, subquery: Box<SelectStmtView>, negated: bool },
    Exists(Box<SelectStmtView>),
    Subquery(Box<SelectStmtView>),
    Cast { expr: Box<ExprView>, ty: Seq<char> },
    Case { base: Option<Box<ExprView>>, when_then: Seq<(ExprView, ExprView)>, else_expr: Option<Box<ExprView>> },
    Collate { expr: Box<ExprView>, collation: Seq<char> },
    IsDistinctFrom { left: Box<ExprView>, right: Box<ExprView>, negated: bool },
    Row(Seq<ExprView>),
    AggRef(i32),
    Coalesce2 { left: Box<ExprView>, right: Box<ExprView> },
}

/// The mathematical value of a [`ResultColumn`].
pub ghost enum ResultColumnView {
    Star,
    TableStar(Seq<char>),
    Expr { expr: ExprView, alias: Option<Seq<char>> },
}

/// The mathematical value of a [`TableRef`].
pub ghost struct TableRefView {
    pub schema: Option<Seq<char>>,
    pub name: Seq<char>,
    pub alias: Option<Seq<char>>,
}

/// The mathematical value of a [`JoinConstraint`].
pub ghost enum JoinConstraintView {
    On(ExprView),
    Using(Seq<Seq<char>>),
}

/// The mathematical value of a [`Join`].
pub ghost struct JoinView {
    pub op: JoinOp,
    pub left: Box<TableOrJoinView>,
    pub right: TableRefView,
    pub constraint: Option<JoinConstraintView>,
}

/// The mathematical value of a [`TableOrJoin`].
pub ghost enum TableOrJoinView {
    Table(TableRefView),
    Subquery { query: Box<SelectStmtView>, alias: Seq<char> },
    Join(JoinView),
}

/// The mathematical value of a [`Cte`].
pub ghost struct CteView {
    pub name: Seq<char>,
    pub columns: Seq<Seq<char>>,
    pub query: SelectStmtView,
}

/// The mathematical value of a [`WithClause`].
pub ghost struct WithClauseView {
    pub recursive: bool,
    pub ctes: Seq<CteView>,
}

/// The mathematical value of a [`SelectStmt`].
pub ghost struct SelectStmtView {
    pub distinct: bool,
    pub columns: Seq<ResultColumnView>,
    pub from: Seq<TableOrJoinView>,
    pub where_clause: Option<ExprView>,
    pub group_by: Seq<ExprView>,
    pub having: Option<ExprView>,
    pub compound: Seq<(CompoundOperator, SelectStmtView)>,
    pub order_by: Seq<OrderingTermView>,
    pub limit: Option<ExprView>,
    pub offset: Option<ExprView>,
    pub with_clause: Option<WithClauseView>,
    pub window_clause: Seq<WindowView>,
    pub values: Seq<Seq<ExprView>>,
}

/// The mathematical value of a [`Real`].
pub open spec fn real_view(x: Real) -> RealView
    decreases x,
{
    RealView {
        bits: x.bits,
        text: x.text@,
        shortest: x.shortest@,
    }
}

/// The mathematical value of a [`Literal`].
pub open spec fn literal_view(x: Literal) -> LiteralView
    decreases x,
{
    match x {
        Literal::Null => LiteralView::Null,
        Literal::Integer(a0) => LiteralView::Integer(a0),
        Literal::Real(a0) => LiteralView::Real(real_view(a0)),
        Literal::Text(a0) => LiteralView::Text(a0@),
        Literal::Blob(a0) => LiteralView::Blob(a0@),
        Literal::Bool(a0) => LiteralView::Bool(a0),
    }
}

/// The mathematical value of a [`FunctionArgs`].
pub open spec fn function_args_view(x: FunctionArgs) -> FunctionArgsView
    decreases x,
{
    match x {
        FunctionArgs::Star => FunctionArgsView::Star,
        FunctionArgs::List(a0) => FunctionArgsView::List(exprs_view(a0@)),
    }
}

/// The mathematical value of an [`OrderingTerm`].
pub open spec fn ordering_term_view(x: OrderingTerm) -> OrderingTermView
    decreases x,
{
    OrderingTermView {
        expr: expr_view(x.expr),
        desc: x.desc,
        nulls: x.nulls,
    }
}

/// The mathematical value of a [`Window`].
pub open spec fn window_view(x: Window) -> WindowView
    decreases x,
{
    WindowView {
        partition_by: exprs_view(x.partition_by@),
        order_by: ordering_terms_view(x.order_by@),
    }
}

/// The mathematical value of an [`Expr`].
pub open spec fn expr_view(x: Expr) -> ExprView
    decreases x,
{
    match x {
        Expr::Literal(a0) => ExprView::Literal(literal_view(a0)),
        Expr::Column { schema, table, name } => ExprView::Column {
            schema: opt_name_view(schema),
            table: opt_name_view(table),
            name: name@,
        },
        Expr::Unary { op, expr } => ExprView::Unary {
            op,
            expr: Box::new(expr_view(*expr)),
        },
        Expr::Binary { op, left, right } => ExprView::Binary {
            op,
            left: Box::new(expr_view(*left)),
            right: Box::new(expr_view(*right)),
        },
        Expr::Function { name, distinct, args, filter, over } => ExprView::Function {
            name: name@,
            distinct,
            args: function_args_view(args),
            filter: opt_box_expr_view(filter),
            over: opt_window_view(over),
        },
        Expr::BindParam(a0) => ExprView::BindParam(a0@),
        Expr::Between { expr, low, high, negated } => ExprView::Between {
            expr: Box::new(expr_view(*expr)),
            low: Box::new(expr_view(*low)),
            high: Box::new(expr_view(*high)),
            negated,
        },
        Expr::In { expr, values, negated } => ExprView::In {
            expr: Box::new(expr_view(*expr)),
            values: exprs_view(values@),
            negated,
        },
        Expr::InSubquery { expr, subquery, negated } => ExprView::InSubquery {
            expr: Box::new(expr_view(*expr)),
            subquery: Box::new(select_stmt_view(*subquery)),
            negated,
        },
        Expr::Exists(a0) => ExprView::Exists(Box::new(select_stmt_view(*a0))),
        Expr::Subquery(a0) => ExprView::Subquery(Box::new(select_stmt_view(*a0))),
        Expr::Cast { expr, ty } => ExprView::Cast {
            expr: Box::new(expr_view(*expr)),
            ty: ty@,
        },
        Expr::Case { base, when_then, else_expr } => ExprView::Case {
            base: opt_box_expr_view(base),
            when_then: expr_pairs_view(when_then@),
            else_expr: opt_box_expr_view(else_expr),
        },
        Expr::Collate { expr, collation } => ExprView::Collate {
            expr: Box::new(expr_view(*expr)),
            collation: collation@,
        },
        Expr::IsDistinctFrom { left, right, negated } => ExprView::IsDistinctFrom {
            left: Box::new(expr_view(*left)),
            right: Box::new(expr_view(*right)),
            negated,
        },
        Expr::Row(a0) => ExprView::Row(exprs_view(a0@)),
        Expr::AggRef(a0) => ExprView::AggRef(a0),
        Expr::Coalesce2 { left, right } => ExprView::Coalesce2 {
            left: Box::new(expr_view(*left)),
            right: Box::new(expr_view(*right)),
        },
    }
}

/// The mathematical value of a [`ResultColumn`].
pub open spec fn result_column_view(x: ResultColumn) -> ResultColumnView
    decreases x,
{
    match x {
        ResultColumn::Star => ResultColumnView::Star,
        ResultColumn::TableStar(a0) => ResultColumnView::TableStar(a0@),
        ResultColumn::Expr { expr, alias } => ResultColumnView::Expr {
            expr: expr_view(expr),
            alias: opt_name_view(alias),
        },
    }
}

/// The mathematical value of a [`TableRef`].
pub open spec fn table_ref_view(x: TableRef) -> TableRefView
    decreases x,
{
    TableRefView {
        schema: opt_name_view(x.schema),
        name: x.name@,
        alias: opt_name_view(x.alias),
    }
}

/// The mathematical value of a [`JoinConstraint`].
pub open spec fn join_constraint_view(x: JoinConstraint) -> JoinConstraintView
    decreases x,
{
    match x {
        JoinConstraint::On(a0) => JoinConstraintView::On(expr_view(a0)),
        JoinConstraint::Using(a0) => JoinConstraintView::Using(names_view(a0@)),
    }
}

/// The mathematical value of a [`Join`].
pub open spec fn join_view(x: Join) -> JoinView
    decreases x,
{
    JoinView {
        op: x.op,
        left: Box::new(table_or_join_view(*x.left)),
        right: table_ref_view(x.right),
        constraint: opt_constraint_view(x.constraint),
    }
}

/// The mathematical value of a [`TableOrJoin`].
pub open spec fn table_or_join_view(x: TableOrJoin) -> TableOrJoinView
    decreases x,
{
    match x {
        TableOrJoin::Table(a0) => TableOrJoinView::Table(table_ref_view(a0)),
        TableOrJoin::Subquery { query, alias } => TableOrJoinView::Subquery {
            query: Box::new(select_stmt_view(*query)),
            alias: alias@,
        },
        TableOrJoin::Join(a0) => TableOrJoinView::Join(join_view(a0)),
    }
}

/// The mathematical value of a [`Cte`].
pub open spec fn cte_view(x: Cte) -> CteView
    decreases x,
{
    CteView {
        name: x.name@,
        columns: names_view(x.columns@),
        query: select_stmt_view(x.query),
    }
}

/// The mathematical value of a [`WithClause`].
pub open spec fn with_clause_view(x: WithClause) -> WithClauseView
    decreases x,
{
    WithClauseView {
        recursive: x.recursive,
        ctes: ctes_view(x.ctes@),
    }
}

/// The mathematical value of a [`SelectStmt`].
pub open spec fn select_stmt_view(x: SelectStmt) -> SelectStmtView
    decreases x,
{
    SelectStmtView {
        distinct: x.distinct,
        columns: result_columns_view(x.columns@),
        from: from_items_view(x.from@),
        where_clause: opt_expr_view(x.where_clause),
        group_by: exprs_view(x.group_by@),
        having: opt_expr_view(x.having),
        compound: arms_view(x.compound@),
        order_by: ordering_terms_view(x.order_by@),
        limit: opt_expr_view(x.limit),
        offset: opt_expr_view(x.offset),
        with_clause: opt_with_view(x.with_clause),
        window_clause: windows_view(x.window_clause@),
        values: expr_rows_view(x.values@),
    }
}

/// The mathematical values of some expressions.
pub open spec fn exprs_view(s: Seq<Expr>) -> Seq<ExprView>
    decreases s,
{
    Seq::new(s.len(), |i: int| if 0 <= i < s.len() { expr_view(s[i]) } else { arbitrary() })
}

/// The mathematical values of some sort terms.
pub open spec fn ordering_terms_view(s: Seq<OrderingTerm>) -> Seq<OrderingTermView>
    decreases s,
{
    Seq::new(s.len(), |i: int| if 0 <= i < s.len() { ordering_term_view(s[i]) } else { arbitrary() })
}

/// The mathematical value of an optional name.
pub open spec fn opt_name_view(o: Option<String>) -> Option<Seq<char>>
    decreases o,
{
    match o {
        None => None,
        Some(x) => Some(x@),
    }
}

/// The mathematical value of an optional boxed expression.
pub open spec fn opt_box_expr_view(o: Option<Box<Expr>>) -> Option<Box<ExprView>>
    decreases o,
{
    match o {
        None => None,
        Some(x) => Some(Box::new(expr_view(*x))),
    }
}

/// The mathematical value of an optional window.
pub open spec fn opt_window_view(o: Option<Window>) -> Option<WindowView>
    decreases o,
{
    match o {
        None => None,
        Some(x) => Some(window_view(x)),
    }
}

/// The mathematical values of some pairs of expressions.
pub open spec fn expr_pairs_view(s: Seq<(Expr, Expr)>) -> Seq<(ExprView, ExprView)>
    decreases s,
{
    Seq::new(s.len(), |i: int| if 0 <= i < s.len() { (expr_view(s[i].0), expr_view(s[i].1)) } else { arbitrary() })
}

/// The mathematical values of some names.
pub open spec fn names_view(s: Seq<String>) -> Seq<Seq<char>>
    decreases s,
{
    Seq::new(s.len(), |i: int| if 0 <= i < s.len() { s[i]@ } else { arbitrary() })
}

/// The mathematical value of an optional join constraint.
pub open spec fn opt_constraint_view(o: Option<JoinConstraint>) -> Option<JoinConstraintView>
    decreases o,
{
    match o {
        None => None,
        Some(x) => Some(join_constraint_view(x)),
    }
}

/// The mathematical values of some common table expressions.
pub open spec fn ctes_view(s: Seq<Cte>) -> Seq<CteView>
    decreases s,
{
    Seq::new(s.len(), |i: int| if 0 <= i < s.len() { cte_view(s[i]) } else { arbitrary() })
}

/// The mathematical values of some result columns.
pub open spec fn result_columns_view(s: Seq<ResultColumn>) -> Seq<ResultColumnView>
    decreases s,
{
    Seq::new(s.len(), |i: int| if 0 <= i < s.len() { result_column_view(s[i]) } else { arbitrary() })
}

/// The mathematical values of the items of a `FROM` clause.
pub open spec fn from_items_view(s: Seq<TableOrJoin>) -> Seq<TableOrJoinView>
    decreases s,
{
    Seq::new(s.len(), |i: int| if 0 <= i < s.len() { table_or_join_view(s[i]) } else { arbitrary() })
}

/// The mathematical value of an optional expression.
pub open spec fn opt_expr_view(o: Option<Expr>) -> Option<ExprView>
    decreases o,
{
    match o {
        None => None,
        Some(x) => Some(expr_view(x)),
    }
}

/// The mathematical values of the arms of a compound query.
pub open spec fn arms_view(s: Seq<(CompoundOperator, SelectStmt)>) -> Seq<(CompoundOperator, SelectStmtView)>
    decreases s,
{
    Seq::new(s.len(), |i: int| if 0 <= i < s.len() { (s[i].0, select_stmt_view(s[i].1)) } else { arbitrary() })
}

/// The mathematical value of an optional `WITH` clause.
pub open spec fn opt_with_view(o: Option<WithClause>) -> Option<WithClauseView>
    decreases o,
{
    match o {
        None => None,
        Some(x) => Some(with_clause_view(x)),
    }
}

/// The mathematical values of some windows.
pub open spec fn windows_view(s: Seq<Window>) -> Seq<WindowView>
    decreases s,
{
    Seq::new(s.len(), |i: int| if 0 <= i < s.len() { window_view(s[i]) } else { arbitrary() })
}

/// The mathematical values of some rows of expressions.
pub open spec fn expr_rows_view(s: Seq<Vec<Expr>>) -> Seq<Seq<ExprView>>
    decreases s,
{
    Seq::new(s.len(), |i: int| if 0 <= i < s.len() { exprs_view(s[i]@) } else { arbitrary() })
}

impl View for Real {
    type V = RealView;

    open spec fn view(&self) -> RealView {
        real_view(*self)
    }
}

impl View for Literal {
    type V = LiteralView;

    open spec fn view(&self) -> LiteralView {
        literal_view(*self)
    }
}

impl View for FunctionArgs {
    type V = FunctionArgsView;

    open spec fn view(&self) -> FunctionArgsView {
        function_args_view(*self)
    }
}

impl View for OrderingTerm {
    type V = OrderingTermView;

    open spec fn view(&self) -> OrderingTermView {
        ordering_term_view(*self)
    }
}

impl View for Window {
    type V = WindowView;

    open spec fn view(&self) -> WindowView {
        window_view(*self)
    }
}

impl View for Expr {
    type V = ExprView;

    open spec fn view(&self) -> ExprView {
        expr_view(*self)
    }
}

impl View for ResultColumn {
    type V = ResultColumnView;

    open spec fn view(&self) -> ResultColumnView {
        result_column_view(*self)
    }
}

impl View for TableRef {
    type V = TableRefView;

    open spec fn view(&self) -> TableRefView {
        table_ref_view(*self)
    }
}

impl View for JoinConstraint {
    type V = JoinConstraintView;

    open spec fn view(&self) -> JoinConstraintView {
        join_constraint_view(*self)
    }
}

impl View for Join {
    type V = JoinView;

    open spec fn view(&self) -> JoinView {
        join_view(*self)
    }
}

impl View for TableOrJoin {
    type V = TableOrJoinView;

    open spec fn view(&self) -> TableOrJoinView {
        table_or_join_view(*self)
    }
}

impl View for Cte {
    type V = CteView;

    open spec fn view(&self) -> CteView {
        cte_view(*self)
    }
}

impl View for WithClause {
    type V = WithClauseView;

    open spec fn view(&self) -> WithClauseView {
        with_clause_view(*self)
    }
}

impl View for SelectStmt {
    type V = SelectStmtView;

    open spec fn view(&self) -> SelectStmtView {
        select_stmt_view(*self)
    }
}

fn clone_real(x: &Real) -> (r: Real)
    ensures
        real_view(r) == real_view(*x),
    decreases x,
{
    Real {
        bits: x.bits,
        text: x.text.clone(),
        shortest: x.shortest.clone(),
    }
}

fn clone_literal(x: &Literal) -> (r: Literal)
    ensures
        literal_view(r) == literal_view(*x),
    decreases x,
{
    match x {
        Literal::Null => Literal::Null,
        Literal::Integer(a0) => Literal::Integer(*a0),
        Literal::Real(a0) => Literal::Real(clone_real(a0)),
        Literal::Text(a0) => Literal::Text(a0.clone()),
        Literal::Blob(a0) => Literal::Blob(clone_bytes(a0)),
        Literal::Bool(a0) => Literal::Bool(*a0),
    }
}

fn clone_function_args(x: &FunctionArgs) -> (r: FunctionArgs)
    ensures
        function_args_view(r) == function_args_view(*x),
    decreases x,
{
    match x {
        FunctionArgs::Star => FunctionArgs::Star,
        FunctionArgs::List(a0) => FunctionArgs::List(clone_exprs(a0)),
    }
}

fn clone_ordering_term(x: &OrderingTerm) -> (r: OrderingTerm)
    ensures
        ordering_term_view(r) == ordering_term_view(*x),
    decreases x,
{
    OrderingTerm {
        expr: clone_expr(&x.expr),
        desc: x.desc,
        nulls: x.nulls,
    }
}

fn clone_window(x: &Window) -> (r: Window)
    ensures
        window_view(r) == window_view(*x),
    decreases x,
{
    Window {
        partition_by: clone_exprs(&x.partition_by),
        order_by: clone_ordering_terms(&x.order_by),
    }
}

fn clone_expr(x: &Expr) -> (r: Expr)
    ensures
        expr_view(r) == expr_view(*x),
    decreases x,
{
    match x {
        Expr::Literal(a0) => Expr::Literal(clone_literal(a0)),
        Expr::Column { schema, table, name } => Expr::Column {
            schema: clone_opt_name(schema),
            table: clone_opt_name(table),
            name: name.clone(),
        },
        Expr::Unary { op, expr } => Expr::Unary {
            op: *op,
            expr: Box::new(clone_expr(expr)),
        },
        Expr::Binary { op, left, right } => Expr::Binary {
            op: *op,
            left: Box::new(clone_expr(left)),
            right: Box::new(clone_expr(right)),
        },
        Expr::Function { name, distinct, args, filter, over } => Expr::Function {
            name: name.clone(),
            distinct: *distinct,
            args: clone_function_args(args),
            filter: clone_opt_box_expr(filter),
            over: clone_opt_window(over),
        },
        Expr::BindParam(a0) => Expr::BindParam(a0.clone()),
        Expr::Between { expr, low, high, negated } => Expr::Between {
            expr: Box::new(clone_expr(expr)),
            low: Box::new(clone_expr(low)),
            high: Box::new(clone_expr(high)),
            negated: *negated,
        },
        Expr::In { expr, values, negated } => Expr::In {
            expr: Box::new(clone_expr(expr)),
            values: clone_exprs(values),
            negated: *negated,
        },
        Expr::InSubquery { expr, subquery, negated } => Expr::InSubquery {
            expr: Box::new(clone_expr(expr)),
            subquery: Box::new(clone_select_stmt(subquery)),
            negated: *negated,
        },
        Expr::Exists(a0) => Expr::Exists(Box::new(clone_select_stmt(a0))),
        Expr::Subquery(a0) => Expr::Subquery(Box::new(clone_select_stmt(a0))),
        Expr::Cast { expr, ty } => Expr::Cast {
            expr: Box::new(clone_expr(expr)),
            ty: ty.clone(),
        },
        Expr::Case { base, when_then, else_expr } => Expr::Case {
            base: clone_opt_box_expr(base),
            when_then: clone_expr_pairs(when_then),
            else_expr: clone_opt_box_expr(else_expr),
        },
        Expr::Collate { expr, collation } => Expr::Collate {
            expr: Box::new(clone_expr(expr)),
            collation: collation.clone(),
        },
        Expr::IsDistinctFrom { left, right, negated } => Expr::IsDistinctFrom {
            left: Box::new(clone_expr(left)),
            right: Box::new(clone_expr(right)),
            negated: *negated,
        },
        Expr::Row(a0) => Expr::Row(clone_exprs(a0)),
        Expr::AggRef(a0) => Expr::AggRef(*a0),
        Expr::Coalesce2 { left, right } => Expr::Coalesce2 {
            left: Box::new(clone_expr(left)),
            right: Box::new(clone_expr(right)),
        },
    }
}

fn clone_result_column(x: &ResultColumn) -> (r: ResultColumn)
    ensures
        result_column_view(r) == result_column_view(*x),
    decreases x,
{
    match x {
        ResultColumn::Star => ResultColumn::Star,
        ResultColumn::TableStar(a0) => ResultColumn::TableStar(a0.clone()),
        ResultColumn::Expr { expr, alias } => ResultColumn::Expr {
            expr: clone_expr(expr),
            alias: clone_opt_name(alias),
        },
    }
}

fn clone_table_ref(x: &TableRef) -> (r: TableRef)
    ensures
        table_ref_view(r) == table_ref_view(*x),
    decreases x,
{
    TableRef {
        schema: clone_opt_name(&x.schema),
        name: x.name.clone(),
        alias: clone_opt_name(&x.alias),
    }
}

fn clone_join_constraint(x: &JoinConstraint) -> (r: JoinConstraint)
    ensures
        join_constraint_view(r) == join_constraint_view(*x),
    decreases x,
{
    match x {
        JoinConstraint::On(a0) => JoinConstraint::On(clone_expr(a0)),
        JoinConstraint::Using(a0) => JoinConstraint::Using(clone_names(a0)),
    }
}

fn clone_join(x: &Join) -> (r: Join)
    ensures
        join_view(r) == join_view(*x),
    decreases x,
{
    Join {
        op: x.op,
        left: Box::new(clone_table_or_join(&x.left)),
        right: clone_table_ref(&x.right),
        constraint: clone_opt_constraint(&x.constraint),
    }
}

fn clone_table_or_join(x: &TableOrJoin) -> (r: TableOrJoin)
    ensures
        table_or_join_view(r) == table_or_join_view(*x),
    decreases x,
{
    match x {
        TableOrJoin::Table(a0) => TableOrJoin::Table(clone_table_ref(a0)),
        TableOrJoin::Subquery { query, alias } => TableOrJoin::Subquery {
            query: Box::new(clone_select_stmt(query)),
            alias: alias.clone(),
        },
        TableOrJoin::Join(a0) => TableOrJoin::Join(clone_join(a0)),
    }
}

fn clone_cte(x: &Cte) -> (r: Cte)
    ensures
        cte_view(r) == cte_view(*x),
    decreases x,
{
    Cte {
        name: x.name.clone(),
        columns: clone_names(&x.columns),
        query: clone_select_stmt(&x.query),
    }
}

fn clone_with_clause(x: &WithClause) -> (r: WithClause)
    ensures
        with_clause_view(r) == with_clause_view(*x),
    decreases x,
{
    WithClause {
        recursive: x.recursive,
        ctes: clone_ctes(&x.ctes),
    }
}

fn clone_select_stmt(x: &SelectStmt) -> (r: SelectStmt)
    ensures
        select_stmt_view(r) == select_stmt_view(*x),
    decreases x,
{
    SelectStmt {
        distinct: x.distinct,
        columns: clone_result_columns(&x.columns),
        from: clone_from_items(&x.from),
        where_clause: clone_opt_expr(&x.where_clause),
        group_by: clone_exprs(&x.group_by),
        having: clone_opt_expr(&x.having),
        compound: clone_arms(&x.compound),
        order_by: clone_ordering_terms(&x.order_by),
        limit: clone_opt_expr(&x.limit),
        offset: clone_opt_expr(&x.offset),
        with_clause: clone_opt_with(&x.with_clause),
        window_clause: clone_windows(&x.window_clause),
        values: clone_expr_rows(&x.values),
    }
}

fn clone_exprs(v: &Vec<Expr>) -> (r: Vec<Expr>)
    ensures
        exprs_view(r@) == exprs_view(v@),
    decreases v,
{
    let mut r: Vec<Expr> = Vec::new();
    for i in 0..v.len()
        invariant
            r@.len() == i,
            forall|j: int| 0 <= j < i ==> expr_view((#[trigger] r@[j])) == expr_view(v@[j]),
    {
        proof {
            assert(decreases_to!(*v => v@[i as int]));
        }
        r.push(clone_expr(&v[i]));
    }
    assert(exprs_view(r@) =~= exprs_view(v@));
    r
}

fn clone_ordering_terms(v: &Vec<OrderingTerm>) -> (r: Vec<OrderingTerm>)
    ensures
        ordering_terms_view(r@) == ordering_terms_view(v@),
    decreases v,
{
    let mut r: Vec<OrderingTerm> = Vec::new();
    for i in 0..v.len()
        invariant
            r@.len() == i,
            forall|j: int| 0 <= j < i ==> ordering_term_view((#[trigger] r@[j])) == ordering_term_view(v@[j]),
    {
        proof {
            assert(decreases_to!(*v => v@[i as int]));
        }
        r.push(clone_ordering_term(&v[i]));
    }
    assert(ordering_terms_view(r@) =~= ordering_terms_view(v@));
    r
}

fn clone_opt_name(o: &Option<String>) -> (r: Option<String>)
    ensures
        opt_name_view(r) == opt_name_view(*o),
    decreases o,
{
    match o {
        None => None,
        Some(x) => Some(x.clone()),
    }
}

fn clone_opt_box_expr(o: &Option<Box<Expr>>) -> (r: Option<Box<Expr>>)
    ensures
        opt_box_expr_view(r) == opt_box_expr_view(*o),
    decreases o,
{
    match o {
        None => None,
        Some(x) => Some(Box::new(clone_expr(x))),
    }
}

fn clone_opt_window(o: &Option<Window>) -> (r: Option<Window>)
    ensures
        opt_window_view(r) == opt_window_view(*o),
    decreases o,
{
    match o {
        None => None,
        Some(x) => Some(clone_window(x)),
    }
}

fn clone_expr_pairs(v: &Vec<(Expr, Expr)>) -> (r: Vec<(Expr, Expr)>)
    ensures
        expr_pairs_view(r@) == expr_pairs_view(v@),
    decreases v,
{
    let mut r: Vec<(Expr, Expr)> = Vec::new();
    for i in 0..v.len()
        invariant
            r@.len() == i,
            forall|j: int| 0 <= j < i ==> (expr_view((#[trigger] r@[j]).0), expr_view(r@[j].1)) == (expr_view(v@[j].0), expr_view(v@[j].1)),
    {
        proof {
            assert(decreases_to!(*v => v@[i as int]));
        }
        r.push((clone_expr(&v[i].0), clone_expr(&v[i].1)));
    }
    assert(expr_pairs_view(r@) =~= expr_pairs_view(v@));
    r
}

fn clone_names(v: &Vec<String>) -> (r: Vec<String>)
    ensures
        names_view(r@) == names_view(v@),
    decreases v,
{
    let mut r: Vec<String> = Vec::new();
    for i in 0..v.len()
        invariant
            r@.len() == i,
            forall|j: int| 0 <= j < i ==> (#[trigger] r@[j])@ == v@[j]@,
    {
        proof {
            assert(decreases_to!(*v => v@[i as int]));
        }
        r.push(v[i].clone());
    }
    assert(names_view(r@) =~= names_view(v@));
    r
}

fn clone_opt_constraint(o: &Option<JoinConstraint>) -> (r: Option<JoinConstraint>)
    ensures
        opt_constraint_view(r) == opt_constraint_view(*o),
    decreases o,
{
    match o {
        None => None,
        Some(x) => Some(clone_join_constraint(x)),
    }
}

fn clone_ctes(v: &Vec<Cte>) -> (r: Vec<Cte>)
    ensures
        ctes_view(r@) == ctes_view(v@),
    decreases v,
{
    let mut r: Vec<Cte> = Vec::new();
    for i in 0..v.len()
        invariant
            r@.len() == i,
            forall|j: int| 0 <= j < i ==> cte_view((#[trigger] r@[j])) == cte_view(v@[j]),
    {
        proof {
            assert(decreases_to!(*v => v@[i as int]));
        }
        r.push(clone_cte(&v[i]));
    }
    assert(ctes_view(r@) =~= ctes_view(v@));
    r
}

fn clone_result_columns(v: &Vec<ResultColumn>) -> (r: Vec<ResultColumn>)
    ensures
        result_columns_view(r@) == result_columns_view(v@),
    decreases v,
{
    let mut r: Vec<ResultColumn> = Vec::new();
    for i in 0..v.len()
        invariant
            r@.len() == i,
            forall|j: int| 0 <= j < i ==> result_column_view((#[trigger] r@[j])) == result_column_view(v@[j]),
    {
        proof {
            assert(decreases_to!(*v => v@[i as int]));
        }
        r.push(clone_result_column(&v[i]));
    }
    assert(result_columns_view(r@) =~= result_columns_view(v@));
    r
}

fn clone_from_items(v: &Vec<TableOrJoin>) -> (r: Vec<TableOrJoin>)
    ensures
        from_items_view(r@) == from_items_view(v@),
    decreases v,
{
    let mut r: Vec<TableOrJoin> = Vec::new();
    for i in 0..v.len()
        invariant
            r@.len() == i,
            forall|j: int| 0 <= j < i ==> table_or_join_view((#[trigger] r@[j])) == table_or_join_view(v@[j]),
    {
        proof {
            assert(decreases_to!(*v => v@[i as int]));
        }
        r.push(clone_table_or_join(&v[i]));
    }
    assert(from_items_view(r@) =~= from_items_view(v@));
    r
}

fn clone_opt_expr(o: &Option<Expr>) -> (r: Option<Expr>)
    ensures
        opt_expr_view(r) == opt_expr_view(*o),
    decreases o,
{
    match o {
        None => None,
        Some(x) => Some(clone_expr(x)),
    }
}

fn clone_arms(v: &Vec<(CompoundOperator, SelectStmt)>) -> (r: Vec<(CompoundOperator, SelectStmt)>)
    ensures
        arms_view(r@) == arms_view(v@),
    decreases v,
{
    let mut r: Vec<(CompoundOperator, SelectStmt)> = Vec::new();
    for i in 0..v.len()
        invariant
            r@.len() == i,
            forall|j: int| 0 <= j < i ==> ((#[trigger] r@[j]).0, select_stmt_view(r@[j].1)) == (v@[j].0, select_stmt_view(v@[j].1)),
    {
        proof {
            assert(decreases_to!(*v => v@[i as int]));
        }
        r.push((v[i].0, clone_select_stmt(&v[i].1)));
    }
    assert(arms_view(r@) =~= arms_view(v@));
    r
}

fn clone_opt_with(o: &Option<WithClause>) -> (r: Option<WithClause>)
    ensures
        opt_with_view(r) == opt_with_view(*o),
    decreases o,
{
    match o {
        None => None,
        Some(x) => Some(clone_with_clause(x)),
    }
}

fn clone_windows(v: &Vec<Window>) -> (r: Vec<Window>)
    ensures
        windows_view(r@) == windows_view(v@),
    decreases v,
{
    let mut r: Vec<Window> = Vec::new();
    for i in 0..v.len()
        invariant
            r@.len() == i,
            forall|j: int| 0 <= j < i ==> window_view((#[trigger] r@[j])) == window_view(v@[j]),
    {
        proof {
            assert(decreases_to!(*v => v@[i as int]));
        }
        r.push(clone_window(&v[i]));
    }
    assert(windows_view(r@) =~= windows_view(v@));
    r
}

fn clone_expr_rows(v: &Vec<Vec<Expr>>) -> (r: Vec<Vec<Expr>>)
    ensures
        expr_rows_view(r@) == expr_rows_view(v@),
    decreases v,
{
    let mut r: Vec<Vec<Expr>> = Vec::new();
    for i in 0..v.len()
        invariant
            r@.len() == i,
            forall|j: int| 0 <= j < i ==> exprs_view((#[trigger] r@[j])@) == exprs_view(v@[j]@),
    {
        proof {
            assert(decreases_to!(*v => v@[i as int]));
        }
        r.push(clone_exprs(&v[i]));
    }
    assert(expr_rows_view(r@) =~= expr_rows_view(v@));
    r
}

impl Clone for Real {
    /// A copy with the same value.
    fn clone(&self) -> (r: Self)
        ensures
            r@ == self@,
    {
        clone_real(self)
    }
}

impl Clone for Literal {
    /// A copy with the same value.
    fn clone(&self) -> (r: Self)
        ensures
            r@ == self@,
    {
        clone_literal(self)
    }
}

impl Clone for FunctionArgs {
    /// A copy with the same value.
    fn clone(&self) -> (r: Self)
        ensures
            r@ == self@,
    {
        clone_function_args(self)
    }
}

impl Clone for OrderingTerm {
    /// A copy with the same value.
    fn clone(&self) -> (r: Self)
        ensures
            r@ == self@,
    {
        clone_ordering_term(self)
    }
}

impl Clone for Window {
    /// A copy with the same value.
    fn clone(&self) -> (r: Self)
        ensures
            r@ == self@,
    {
        clone_window(self)
    }
}

impl Clone for Expr {
    /// A copy with the same value.
    fn clone(&self) -> (r: Self)
        ensures
            r@ == self@,
    {
        clone_expr(self)
    }
}

impl Clone for ResultColumn {
    /// A copy with the same value.
    fn clone(&self) -> (r: Self)
        ensures
            r@ == self@,
    {
        clone_result_column(self)
    }
}

impl Clone for TableRef {
    /// A copy with the same value.
    fn clone(&self) -> (r: Self)
        ensures
            r@ == self@,
    {
        clone_table_ref(self)
    }
}

impl Clone for JoinConstraint {
    /// A copy with the same value.
    fn clone(&self) -> (r: Self)
        ensures
            r@ == self@,
    {
        clone_join_constraint(self)
    }
}

impl Clone for Join {
    /// A copy with the same value.
    fn clone(&self) -> (r: Self)
        ensures
            r@ == self@,
    {
        clone_join(self)
    }
}

impl Clone for TableOrJoin {
    /// A copy with the same value.
    fn clone(&self) -> (r: Self)
        ensures
            r@ == self@,
    {
        clone_table_or_join(self)
    }
}

impl Clone for Cte {
    /// A copy with the same value.
    fn clone(&self) -> (r: Self)
        ensures
            r@ == self@,
    {
        clone_cte(self)
    }
}

impl Clone for WithClause {
    /// A copy with the same value.
    fn clone(&self) -> (r: Self)
        ensures
            r@ == self@,
    {
        clone_with_clause(self)
    }
}

impl Clone for SelectStmt {
    /// A copy with the same value.
    fn clone(&self) -> (r: Self)
        ensures
            r@ == self@,
    {
        clone_select_stmt(self)
    }
}

fn same_real(a: &Real, b: &Real) -> (r: bool)
    ensures
        r == (real_view(*a) == real_view(*b)),
    decreases a,
{
    a.bits == b.bits && same_text(&a.text, &b.text) && same_text(&a.shortest, &b.shortest)
}

fn same_literal(a: &Literal, b: &Literal) -> (r: bool)
    ensures
        r == (literal_view(*a) == literal_view(*b)),
    decreases a,
{
    match (a, b) {
        (Literal::Null, Literal::Null) => true,
        (Literal::Integer(a0), Literal::Integer(b0)) => *a0 == *b0,
        (Literal::Real(a0), Literal::Real(b0)) => same_real(a0, b0),
        (Literal::Text(a0), Literal::Text(b0)) => same_text(a0, b0),
        (Literal::Blob(a0), Literal::Blob(b0)) => same_bytes(a0, b0),
        (Literal::Bool(a0), Literal::Bool(b0)) => *a0 == *b0,
        _ => false,
    }
}

fn same_function_args(a: &FunctionArgs, b: &FunctionArgs) -> (r: bool)
    ensures
        r == (function_args_view(*a) == function_args_view(*b)),
    decreases a,
{
    match (a, b) {
        (FunctionArgs::Star, FunctionArgs::Star) => true,
        (FunctionArgs::List(a0), FunctionArgs::List(b0)) => same_exprs(a0, b0),
        _ => false,
    }
}

fn same_ordering_term(a: &OrderingTerm, b: &OrderingTerm) -> (r: bool)
    ensures
        r == (ordering_term_view(*a) == ordering_term_view(*b)),
    decreases a,
{
    same_expr(&a.expr, &b.expr) && a.desc == b.desc && same_opt(&a.nulls, &b.nulls)
}

fn same_window(a: &Window, b: &Window) -> (r: bool)
    ensures
        r == (window_view(*a) == window_view(*b)),
    decreases a,
{
    same_exprs(&a.partition_by, &b.partition_by) && same_ordering_terms(&a.order_by, &b.order_by)
}

fn same_expr(a: &Expr, b: &Expr) -> (r: bool)
    ensures
        r == (expr_view(*a) == expr_view(*b)),
    decreases a,
{
    match (a, b) {
        (Expr::Literal(a0), Expr::Literal(b0)) => same_literal(a0, b0),
        (Expr::Column { schema: a0, table: a1, name: a2 }, Expr::Column { schema: b0, table: b1, name: b2 }) => same_opt_name(a0, b0) && same_opt_name(a1, b1) && same_text(a2, b2),
        (Expr::Unary { op: a0, expr: a1 }, Expr::Unary { op: b0, expr: b1 }) => *a0 == *b0 && same_expr(a1, b1),
        (Expr::Binary { op: a0, left: a1, right: a2 }, Expr::Binary { op: b0, left: b1, right: b2 }) => *a0 == *b0 && same_expr(a1, b1) && same_expr(a2, b2),
        (Expr::Function { name: a0, distinct: a1, args: a2, filter: a3, over: a4 }, Expr::Function { name: b0, distinct: b1, args: b2, filter: b3, over: b4 }) => same_text(a0, b0) && *a1 == *b1 && same_function_args(a2, b2) && same_opt_box_expr(a3, b3) && same_opt_window(a4, b4),
        (Expr::BindParam(a0), Expr::BindParam(b0)) => same_text(a0, b0),
        (Expr::Between { expr: a0, low: a1, high: a2, negated: a3 }, Expr::Between { expr: b0, low: b1, high: b2, negated: b3 }) => same_expr(a0, b0) && same_expr(a1, b1) && same_expr(a2, b2) && *a3 == *b3,
        (Expr::In { expr: a0, values: a1, negated: a2 }, Expr::In { expr: b0, values: b1, negated: b2 }) => same_expr(a0, b0) && same_exprs(a1, b1) && *a2 == *b2,
        (Expr::InSubquery { expr: a0, subquery: a1, negated: a2 }, Expr::InSubquery { expr: b0, subquery: b1, negated: b2 }) => same_expr(a0, b0) && same_select_stmt(a1, b1) && *a2 == *b2,
        (Expr::Exists(a0), Expr::Exists(b0)) => same_select_stmt(a0, b0),
        (Expr::Subquery(a0), Expr::Subquery(b0)) => same_select_stmt(a0, b0),
        (Expr::Cast { expr: a0, ty: a1 }, Expr::Cast { expr: b0, ty: b1 }) => same_expr(a0, b0) && same_text(a1, b1),
        (Expr::Case { base: a0, when_then: a1, else_expr: a2 }, Expr::Case { base: b0, when_then: b1, else_expr: b2 }) => same_opt_box_expr(a0, b0) && same_expr_pairs(a1, b1) && same_opt_box_expr(a2, b2),
        (Expr::Collate { expr: a0, collation: a1 }, Expr::Collate { expr: b0, collation: b1 }) => same_expr(a0, b0) && same_text(a1, b1),
        (Expr::IsDistinctFrom { left: a0, right: a1, negated: a2 }, Expr::IsDistinctFrom { left: b0, right: b1, negated: b2 }) => same_expr(a0, b0) && same_expr(a1, b1) && *a2 == *b2,
        (Expr::Row(a0), Expr::Row(b0)) => same_exprs(a0, b0),
        (Expr::AggRef(a0), Expr::AggRef(b0)) => *a0 == *b0,
        (Expr::Coalesce2 { left: a0, right: a1 }, Expr::Coalesce2 { left: b0, right: b1 }) => same_expr(a0, b0) && same_expr(a1, b1),
        _ => false,
    }
}

fn same_result_column(a: &ResultColumn, b: &ResultColumn) -> (r: bool)
    ensures
        r == (result_column_view(*a) == result_column_view(*b)),
    decreases a,
{
    match (a, b) {
        (ResultColumn::Star, ResultColumn::Star) => true,
        (ResultColumn::TableStar(a0), ResultColumn::TableStar(b0)) => same_text(a0, b0),
        (ResultColumn::Expr { expr: a0, alias: a1 }, ResultColumn::Expr { expr: b0, alias: b1 }) => same_expr(a0, b0) && same_opt_name(a1, b1),
        _ => false,
    }
}

fn same_table_ref(a: &TableRef, b: &TableRef) -> (r: bool)
    ensures
        r == (table_ref_view(*a) == table_ref_view(*b)),
    decreases a,
{
    same_opt_name(&a.schema, &b.schema) && same_text(&a.name, &b.name) && same_opt_name(&a.alias, &b.alias)
}

fn same_join_constraint(a: &JoinConstraint, b: &JoinConstraint) -> (r: bool)
    ensures
        r == (join_constraint_view(*a) == join_constraint_view(*b)),
    decreases a,
{
    match (a, b) {
        (JoinConstraint::On(a0), JoinConstraint::On(b0)) => same_expr(a0, b0),
        (JoinConstraint::Using(a0), JoinConstraint::Using(b0)) => same_names(a0, b0),
        _ => false,
    }
}

fn same_join(a: &Join, b: &Join) -> (r: bool)
    ensures
        r == (join_view(*a) == join_view(*b)),
    decreases a,
{
    a.op == b.op && same_table_or_join(&a.left, &b.left) && same_table_ref(&a.right, &b.right) && same_opt_constraint(&a.constraint, &b.constraint)
}

fn same_table_or_join(a: &TableOrJoin, b: &TableOrJoin) -> (r: bool)
    ensures
        r == (table_or_join_view(*a) == table_or_join_view(*b)),
    decreases a,
{
    match (a, b) {
        (TableOrJoin::Table(a0), TableOrJoin::Table(b0)) => same_table_ref(a0, b0),
        (TableOrJoin::Subquery { query: a0, alias: a1 }, TableOrJoin::Subquery { query: b0, alias: b1 }) => same_select_stmt(a0, b0) && same_text(a1, b1),
        (TableOrJoin::Join(a0), TableOrJoin::Join(b0)) => same_join(a0, b0),
        _ => false,
    }
}

fn same_cte(a: &Cte, b: &Cte) -> (r: bool)
    ensures
        r == (cte_view(*a) == cte_view(*b)),
    decreases a,
{
    same_text(&a.name, &b.name) && same_names(&a.columns, &b.columns) && same_select_stmt(&a.query, &b.query)
}

fn same_with_clause(a: &WithClause, b: &WithClause) -> (r: bool)
    ensures
        r == (with_clause_view(*a) == with_clause_view(*b)),
    decreases a,
{
    a.recursive == b.recursive && same_ctes(&a.ctes, &b.ctes)
}

fn same_select_stmt(a: &SelectStmt, b: &SelectStmt) -> (r: bool)
    ensures
        r == (select_stmt_view(*a) == select_stmt_view(*b)),
    decreases a,
{
    a.distinct == b.distinct && same_result_columns(&a.columns, &b.columns) && same_from_items(&a.from, &b.from) && same_opt_expr(&a.where_clause, &b.where_clause) && same_exprs(&a.group_by, &b.group_by) && same_opt_expr(&a.having, &b.having) && same_arms(&a.compound, &b.compound) && same_ordering_terms(&a.order_by, &b.order_by) && same_opt_expr(&a.limit, &b.limit) && same_opt_expr(&a.offset, &b.offset) && same_opt_with(&a.with_clause, &b.with_clause) && same_windows(&a.window_clause, &b.window_clause) && same_expr_rows(&a.values, &b.values)
}

fn same_exprs(a: &Vec<Expr>, b: &Vec<Expr>) -> (r: bool)
    ensures
        r == (exprs_view(a@) == exprs_view(b@)),
    decreases a,
{
    if a.len() != b.len() {
        assert(exprs_view(a@).len() != exprs_view(b@).len());
        return false;
    }
    for i in 0..a.len()
        invariant
            a@.len() == b@.len(),
            forall|j: int| 0 <= j < i ==> expr_view((#[trigger] a@[j])) == expr_view(b@[j]),
    {
        proof {
            assert(decreases_to!(*a => a@[i as int]));
        }
        if !(same_expr(&a[i], &b[i])) {
            assert(exprs_view(a@)[i as int] != exprs_view(b@)[i as int]);
            return false;
        }
    }
    assert(exprs_view(a@) =~= exprs_view(b@));
    true
}

fn same_ordering_terms(a: &Vec<OrderingTerm>, b: &Vec<OrderingTerm>) -> (r: bool)
    ensures
        r == (ordering_terms_view(a@) == ordering_terms_view(b@)),
    decreases a,
{
    if a.len() != b.len() {
        assert(ordering_terms_view(a@).len() != ordering_terms_view(b@).len());
        return false;
    }
    for i in 0..a.len()
        invariant
            a@.len() == b@.len(),
            forall|j: int| 0 <= j < i ==> ordering_term_view((#[trigger] a@[j])) == ordering_term_view(b@[j]),
    {
        proof {
            assert(decreases_to!(*a => a@[i as int]));
        }
        if !(same_ordering_term(&a[i], &b[i])) {
            assert(ordering_terms_view(a@)[i as int] != ordering_terms_view(b@)[i as int]);
            return false;
        }
    }
    assert(ordering_terms_view(a@) =~= ordering_terms_view(b@));
    true
}

fn same_opt_name(a: &Option<String>, b: &Option<String>) -> (r: bool)
    ensures
        r == (opt_name_view(*a) == opt_name_view(*b)),
    decreases a,
{
    match (a, b) {
        (None, None) => true,
        (Some(x), Some(y)) => same_text(x, y),
        _ => false,
    }
}

fn same_opt_box_expr(a: &Option<Box<Expr>>, b: &Option<Box<Expr>>) -> (r: bool)
    ensures
        r == (opt_box_expr_view(*a) == opt_box_expr_view(*b)),
    decreases a,
{
    match (a, b) {
        (None, None) => true,
        (Some(x), Some(y)) => same_expr(x, y),
        _ => false,
    }
}

fn same_opt_window(a: &Option<Window>, b: &Option<Window>) -> (r: bool)
    ensures
        r == (opt_window_view(*a) == opt_window_view(*b)),
    decreases a,
{
    match (a, b) {
        (None, None) => true,
        (Some(x), Some(y)) => same_window(x, y),
        _ => false,
    }
}

fn same_expr_pairs(a: &Vec<(Expr, Expr)>, b: &Vec<(Expr, Expr)>) -> (r: bool)
    ensures
        r == (expr_pairs_view(a@) == expr_pairs_view(b@)),
    decreases a,
{
    if a.len() != b.len() {
        assert(expr_pairs_view(a@).len() != expr_pairs_view(b@).len());
        return false;
    }
    for i in 0..a.len()
        invariant
            a@.len() == b@.len(),
            forall|j: int| 0 <= j < i ==> (expr_view((#[trigger] a@[j]).0), expr_view(a@[j].1)) == (expr_view(b@[j].0), expr_view(b@[j].1)),
    {
        proof {
            assert(decreases_to!(*a => a@[i as int]));
        }
        if !(same_expr(&a[i].0, &b[i].0) && same_expr(&a[i].1, &b[i].1)) {
            assert(expr_pairs_view(a@)[i as int] != expr_pairs_view(b@)[i as int]);
            return false;
        }
    }
    assert(expr_pairs_view(a@) =~= expr_pairs_view(b@));
    true
}

fn same_names(a: &Vec<String>, b: &Vec<String>) -> (r: bool)
    ensures
        r == (names_view(a@) == names_view(b@)),
    decreases a,
{
    if a.len() != b.len() {
        assert(names_view(a@).len() != names_view(b@).len());
        return false;
    }
    for i in 0..a.len()
        invariant
            a@.len() == b@.len(),
            forall|j: int| 0 <= j < i ==> (#[trigger] a@[j])@ == b@[j]@,
    {
        proof {
            assert(decreases_to!(*a => a@[i as int]));
        }
        if !(same_text(&a[i], &b[i])) {
            assert(names_view(a@)[i as int] != names_view(b@)[i as int]);
            return false;
        }
    }
    assert(names_view(a@) =~= names_view(b@));
    true
}

fn same_opt_constraint(a: &Option<JoinConstraint>, b: &Option<JoinConstraint>) -> (r: bool)
    ensures
        r == (opt_constraint_view(*a) == opt_constraint_view(*b)),
    decreases a,
{
    match (a, b) {
        (None, None) => true,
        (Some(x), Some(y)) => same_join_constraint(x, y),
        _ => false,
    }
}

fn same_ctes(a: &Vec<Cte>, b: &Vec<Cte>) -> (r: bool)
    ensures
        r == (ctes_view(a@) == ctes_view(b@)),
    decreases a,
{
    if a.len() != b.len() {
        assert(ctes_view(a@).len() != ctes_view(b@).len());
        return false;
    }
    for i in 0..a.len()
        invariant
            a@.len() == b@.len(),
            forall|j: int| 0 <= j < i ==> cte_view((#[trigger] a@[j])) == cte_view(b@[j]),
    {
        proof {
            assert(decreases_to!(*a => a@[i as int]));
        }
        if !(same_cte(&a[i], &b[i])) {
            assert(ctes_view(a@)[i as int] != ctes_view(b@)[i as int]);
            return false;
        }
    }
    assert(ctes_view(a@) =~= ctes_view(b@));
    true
}

fn same_result_columns(a: &Vec<ResultColumn>, b: &Vec<ResultColumn>) -> (r: bool)
    ensures
        r == (result_columns_view(a@) == result_columns_view(b@)),
    decreases a,
{
    if a.len() != b.len() {
        assert(result_columns_view(a@).len() != result_columns_view(b@).len());
        return false;
    }
    for i in 0..a.len()
        invariant
            a@.len() == b@.len(),
            forall|j: int| 0 <= j < i ==> result_column_view((#[trigger] a@[j])) == result_column_view(b@[j]),
    {
        proof {
            assert(decreases_to!(*a => a@[i as int]));
        }
        if !(same_result_column(&a[i], &b[i])) {
            assert(result_columns_view(a@)[i as int] != result_columns_view(b@)[i as int]);
            return false;
        }
    }
    assert(result_columns_view(a@) =~= result_columns_view(b@));
    true
}

fn same_from_items(a: &Vec<TableOrJoin>, b: &Vec<TableOrJoin>) -> (r: bool)
    ensures
        r == (from_items_view(a@) == from_items_view(b@)),
    decreases a,
{
    if a.len() != b.len() {
        assert(from_items_view(a@).len() != from_items_view(b@).len());
        return false;
    }
    for i in 0..a.len()
        invariant
            a@.len() == b@.len(),
            forall|j: int| 0 <= j < i ==> table_or_join_view((#[trigger] a@[j])) == table_or_join_view(b@[j]),
    {
        proof {
            assert(decreases_to!(*a => a@[i as int]));
        }
        if !(same_table_or_join(&a[i], &b[i])) {
            assert(from_items_view(a@)[i as int] != from_items_view(b@)[i as int]);
            return false;
        }
    }
    assert(from_items_view(a@) =~= from_items_view(b@));
    true
}

fn same_opt_expr(a: &Option<Expr>, b: &Option<Expr>) -> (r: bool)
    ensures
        r == (opt_expr_view(*a) == opt_expr_view(*b)),
    decreases a,
{
    match (a, b) {
        (None, None) => true,
        (Some(x), Some(y)) => same_expr(x, y),
        _ => false,
    }
}

fn same_arms(a: &Vec<(CompoundOperator, SelectStmt)>, b: &Vec<(CompoundOperator, SelectStmt)>) -> (r: bool)
    ensures
        r == (arms_view(a@) == arms_view(b@)),
    decreases a,
{
    if a.len() != b.len() {
        assert(arms_view(a@).len() != arms_view(b@).len());
        return false;
    }
    for i in 0..a.len()
        invariant
            a@.len() == b@.len(),
            forall|j: int| 0 <= j < i ==> ((#[trigger] a@[j]).0, select_stmt_view(a@[j].1)) == (b@[j].0, select_stmt_view(b@[j].1)),
    {
        proof {
            assert(decreases_to!(*a => a@[i as int]));
        }
        if !(a[i].0 == b[i].0 && same_select_stmt(&a[i].1, &b[i].1)) {
            assert(arms_view(a@)[i as int] != arms_view(b@)[i as int]);
            return false;
        }
    }
    assert(arms_view(a@) =~= arms_view(b@));
    true
}

fn same_opt_with(a: &Option<WithClause>, b: &Option<WithClause>) -> (r: bool)
    ensures
        r == (opt_with_view(*a) == opt_with_view(*b)),
    decreases a,
{
    match (a, b) {
        (None, None) => true,
        (Some(x), Some(y)) => same_with_clause(x, y),
        _ => false,
    }
}

fn same_windows(a: &Vec<Window>, b: &Vec<Window>) -> (r: bool)
    ensures
        r == (windows_view(a@) == windows_view(b@)),
    decreases a,
{
    if a.len() != b.len() {
        assert(windows_view(a@).len() != windows_view(b@).len());
        return false;
    }
    for i in 0..a.len()
        invariant
            a@.len() == b@.len(),
            forall|j: int| 0 <= j < i ==> window_view((#[trigger] a@[j])) == window_view(b@[j]),
    {
        proof {
            assert(decreases_to!(*a => a@[i as int]));
        }
        if !(same_window(&a[i], &b[i])) {
            assert(windows_view(a@)[i as int] != windows_view(b@)[i as int]);
            return false;
        }
    }
    assert(windows_view(a@) =~= windows_view(b@));
    true
}

fn same_expr_rows(a: &Vec<Vec<Expr>>, b: &Vec<Vec<Expr>>) -> (r: bool)
    ensures
        r == (expr_rows_view(a@) == expr_rows_view(b@)),
    decreases a,
{
    if a.len() != b.len() {
        assert(expr_rows_view(a@).len() != expr_rows_view(b@).len());
        return false;
    }
    for i in 0..a.len()
        invariant
            a@.len() == b@.len(),
            forall|j: int| 0 <= j < i ==> exprs_view((#[trigger] a@[j])@) == exprs_view(b@[j]@),
    {
        proof {
            assert(decreases_to!(*a => a@[i as int]));
        }
        if !(same_exprs(&a[i], &b[i])) {
            assert(expr_rows_view(a@)[i as int] != expr_rows_view(b@)[i as int]);
            return false;
        }
    }
    assert(expr_rows_view(a@) =~= expr_rows_view(b@));
    true
}

fn same_opt(a: &Option<NullsOrder>, b: &Option<NullsOrder>) -> (r: bool)
    ensures
        r == (*a == *b),
{
    match (a, b) {
        (None, None) => true,
        (Some(x), Some(y)) => *x == *y,
        _ => false,
    }
}

impl Expr {
    /// Whether the two expressions are the same tree.
    pub fn same(&self, other: &Expr) -> (r: bool)
        ensures
            r == (self@ == other@),
    {
        same_expr(self, other)
    }
}

impl FunctionArgs {
    /// Whether the two argument lists are the same.
    pub fn same(&self, other: &FunctionArgs) -> (r: bool)
        ensures
            r == (self@ == other@),
    {
        same_function_args(self, other)
    }
}

} // verus!
