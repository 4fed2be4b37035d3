//! The index planner: which index a single-table `SELECT` reads, and how.
//!
//! An index helps in three ways. Conditions on its leading columns narrow the scan to a range of
//! it. Its order can be the order that is asked for. And where it holds every column that the
//! query reads, the table itself need not be read.
use vstd::prelude::*;

use crate::ast::{
    from_items_view, opt_expr_view, opt_name_view, ordering_terms_view, result_columns_view,
    BinaryOp, Expr, ExprView, Literal, LiteralView, NullsOrder, OrderingTerm, OrderingTermView,
    ResultColumn, ResultColumnView, SelectStmt, SelectStmtView, UnaryOp,
};
use crate::expr::{negate_bits, negated_bits};
use crate::like::{
    collect_like_opts, conjuncts, flatten_and, like_opts_view, opt_like_view, where_like_ranges,
    LikeOpt, LikeOptView,
};
use crate::schema::{
    index_columns_view, indexes_view, IndexColumn, IndexColumnView, IndexObject, IndexView, Table,
    TableView,
};
use crate::text::{cat2, clone_bytes, eq_ignore_case, eq_nocase, Error};
use crate::vdbe::{Value, ValueView};
use crate::walk::{lemma_operand, operands, operands_of, refs_view};

verus! {

/// A comparison of an indexed column with a constant.
#[derive(Clone, Copy, PartialEq, Eq, Structural, Debug)]
pub enum RangeOp {
    /// `col = const`
    Eq,
    /// `col > const`
    Gt,
    /// `col >= const`
    Ge,
    /// `col < const`
    Lt,
    /// `col <= const`
    Le,
    /// `col IS NULL`
    IsNull,
}

/// The comparison as a query plan shows it. A bound is shown without saying whether it is
/// included.
pub open spec fn token_of(op: RangeOp) -> Seq<char> {
    match op {
        RangeOp::Eq | RangeOp::IsNull => "="@,
        RangeOp::Gt | RangeOp::Ge => ">"@,
        RangeOp::Lt | RangeOp::Le => "<"@,
    }
}

/// The comparison pins the column to one value.
pub open spec fn pins(op: RangeOp) -> bool {
    op == RangeOp::Eq || op == RangeOp::IsNull
}

impl RangeOp {
    /// The comparison as a query plan shows it.
    pub fn detail_token(self) -> (r: &'static str)
        ensures
            r@ == token_of(self),
    {
        match self {
            RangeOp::Eq | RangeOp::IsNull => "=",
            RangeOp::Gt | RangeOp::Ge => ">",
            RangeOp::Lt | RangeOp::Le => "<",
        }
    }

    /// Whether the comparison pins the column to one value, so that the next index column can
    /// be constrained too.
    pub fn is_equality(self) -> (r: bool)
        ensures
            r == pins(self),
    {
        match self {
            RangeOp::Eq | RangeOp::IsNull => true,
            _ => false,
        }
    }
}

/// One condition on an indexed column.
#[derive(Debug)]
pub struct RangeKey {
    pub column: String,
    pub op: RangeOp,
    pub value: Value,
}

/// The mathematical value of a [`RangeKey`].
pub ghost struct RangeKeyView {
    pub column: Seq<char>,
    pub op: RangeOp,
    pub value: ValueView,
}

impl View for RangeKey {
    type V = RangeKeyView;

    open spec fn view(&self) -> RangeKeyView {
        RangeKeyView { column: self.column@, op: self.op, value: self.value@ }
    }
}

impl Clone for RangeKey {
    fn clone(&self) -> (r: RangeKey)
        ensures
            r@ == self@,
    {
        RangeKey { column: self.column.clone(), op: self.op, value: self.value.clone() }
    }
}

/// The mathematical values of some conditions.
pub open spec fn keys_view(s: Seq<RangeKey>) -> Seq<RangeKeyView> {
    Seq::new(s.len(), |i: int| s[i]@)
}

/// How a query reads an index.
#[derive(Debug)]
pub struct IndexPlan {
    pub index: IndexObject,
    /// The conditions on the leading columns of the index: any number of columns pinned to one
    /// value, then at most one column with a lower bound, an upper bound or both.
    pub range: Vec<RangeKey>,
    /// The index order is the order that is asked for.
    pub order_by_satisfied: bool,
    /// The index holds every column that the query reads.
    pub covering: bool,
    /// A hint asks for the index, and its rows still have to be sorted.
    pub needs_sorter: bool,
    /// The pattern match behind the range, if there is one.
    pub like_opt: Option<LikeOpt>,
}

/// The mathematical value of an [`IndexPlan`].
pub ghost struct IndexPlanView {
    pub index: IndexView,
    pub range: Seq<RangeKeyView>,
    pub order_by_satisfied: bool,
    pub covering: bool,
    pub needs_sorter: bool,
    pub like_opt: Option<LikeOptView>,
}

impl View for IndexPlan {
    type V = IndexPlanView;

    open spec fn view(&self) -> IndexPlanView {
        IndexPlanView {
            index: self.index@,
            range: keys_view(self.range@),
            order_by_satisfied: self.order_by_satisfied,
            covering: self.covering,
            needs_sorter: self.needs_sorter,
            like_opt: opt_like_view(self.like_opt),
        }
    }
}

/// The number of leading conditions that pin their column.
pub open spec fn pinned_from(range: Seq<RangeKeyView>, k: int) -> int
    decreases range.len() - k,
{
    if 0 <= k < range.len() && pins(range[k].op) {
        pinned_from(range, k + 1)
    } else {
        k
    }
}

/// What bounds a column: it is pinned, or it has a lower or an upper bound.
#[derive(Clone, Copy, PartialEq, Eq, Structural, Debug)]
pub enum Bound {
    Pinned,
    Lower,
    Upper,
}

/// The comparison is a bound of that kind.
pub open spec fn is_bound(op: RangeOp, bound: Bound) -> bool {
    match bound {
        Bound::Pinned => pins(op),
        Bound::Lower => op == RangeOp::Gt || op == RangeOp::Ge,
        Bound::Upper => op == RangeOp::Lt || op == RangeOp::Le,
    }
}

fn bounds(op: RangeOp, bound: Bound) -> (r: bool)
    ensures
        r == is_bound(op, bound),
{
    match bound {
        Bound::Pinned => op.is_equality(),
        Bound::Lower => op == RangeOp::Gt || op == RangeOp::Ge,
        Bound::Upper => op == RangeOp::Lt || op == RangeOp::Le,
    }
}

/// The first condition from `k` on that is a bound of that kind.
pub open spec fn bound_from(range: Seq<RangeKeyView>, bound: Bound, k: int) -> Option<int>
    decreases range.len() - k,
{
    if k < 0 || k >= range.len() {
        None
    } else if is_bound(range[k].op, bound) {
        Some(k)
    } else {
        bound_from(range, bound, k + 1)
    }
}

/// The conditions among the first `n` that pin their column.
pub open spec fn pinned_keys(range: Seq<RangeKeyView>, n: int) -> Seq<RangeKeyView>
    decreases n,
{
    if n <= 0 || n > range.len() {
        Seq::empty()
    } else if pins(range[n - 1].op) {
        pinned_keys(range, n - 1).push(range[n - 1])
    } else {
        pinned_keys(range, n - 1)
    }
}

fn find_bound(range: &Vec<RangeKey>, bound: Bound) -> (r: Option<usize>)
    ensures
        match r {
            Some(i) => i < range@.len() && bound_from(keys_view(range@), bound, 0) == Some(i as int),
            None => bound_from(keys_view(range@), bound, 0) is None,
        },
{
    for k in 0..range.len()
        invariant
            bound_from(keys_view(range@), bound, 0) == bound_from(
                keys_view(range@),
                bound,
                k as int,
            ),
    {
        assert(keys_view(range@)[k as int] == range@[k as int]@);
        if bounds(range[k].op, bound) {
            return Some(k);
        }
    }
    None
}

fn count_pinned(range: &Vec<RangeKey>) -> (r: usize)
    ensures
        r == pinned_from(keys_view(range@), 0),
        r <= range@.len(),
{
    let mut k: usize = 0;
    while k < range.len()
        invariant
            k <= range@.len(),
            pinned_from(keys_view(range@), 0) == pinned_from(keys_view(range@), k as int),
        decreases range@.len() - k,
    {
        assert(keys_view(range@)[k as int] == range@[k as int]@);
        if !range[k].op.is_equality() {
            return k;
        }
        k = k + 1;
    }
    k
}

impl IndexPlan {
    /// The number of leading conditions that pin their column.
    pub fn eq_prefix_len(&self) -> (r: usize)
        ensures
            r == pinned_from(self@.range, 0),
    {
        count_pinned(&self.range)
    }

    /// Whether the scan is narrowed at all.
    pub fn has_where_constraint(&self) -> (r: bool)
        ensures
            r == (self@.range.len() > 0),
    {
        self.range.len() > 0
    }

    /// Whether some column is pinned.
    pub fn has_where_equality(&self) -> (r: bool)
        ensures
            r == (bound_from(self@.range, Bound::Pinned, 0) is Some),
    {
        find_bound(&self.range, Bound::Pinned).is_some()
    }

    /// The lower bound of the range, if it has one.
    pub fn lower_bound(&self) -> (r: Option<&RangeKey>)
        ensures
            match r {
                Some(k) => bound_from(self@.range, Bound::Lower, 0) matches Some(i) && k@
                    == self@.range[i],
                None => bound_from(self@.range, Bound::Lower, 0) is None,
            },
    {
        match find_bound(&self.range, Bound::Lower) {
            Some(i) => {
                assert(self@.range[i as int] == self.range@[i as int]@);
                Some(&self.range[i])
            },
            None => None,
        }
    }

    /// The upper bound of the range, if it has one.
    pub fn upper_bound(&self) -> (r: Option<&RangeKey>)
        ensures
            match r {
                Some(k) => bound_from(self@.range, Bound::Upper, 0) matches Some(i) && k@
                    == self@.range[i],
                None => bound_from(self@.range, Bound::Upper, 0) is None,
            },
    {
        match find_bound(&self.range, Bound::Upper) {
            Some(i) => {
                assert(self@.range[i as int] == self.range@[i as int]@);
                Some(&self.range[i])
            },
            None => None,
        }
    }

    /// The conditions that pin their column, in index order.
    pub fn equality_values(&self) -> (r: Vec<RangeKey>)
        ensures
            keys_view(r@) == pinned_keys(self@.range, self@.range.len() as int),
    {
        let mut out: Vec<RangeKey> = Vec::new();
        let ghost all = self@.range;
        assert(keys_view(out@) =~= pinned_keys(all, 0));
        for k in 0..self.range.len()
            invariant
                all == keys_view(self.range@),
                keys_view(out@) == pinned_keys(all, k as int),
        {
            assert(all[k as int] == self.range@[k as int]@);
            if self.range[k].op.is_equality() {
                let ghost before = keys_view(out@);
                let key = self.range[k].clone();
                out.push(key);
                assert(keys_view(out@) =~= before.push(key@));
            }
        }
        out
    }
}

// ---- Conditions ----

/// The value of a literal.
pub open spec fn literal_value(lit: LiteralView) -> ValueView {
    match lit {
        LiteralView::Null => ValueView::Null,
        LiteralView::Integer(n) => ValueView::Int(n),
        LiteralView::Real(r) => ValueView::Real(r.bits),
        LiteralView::Text(s) => ValueView::Text(s),
        LiteralView::Blob(b) => ValueView::Blob(b),
        LiteralView::Bool(b) => ValueView::Int(
            if b {
                1
            } else {
                0
            },
        ),
    }
}

/// The value of a literal.
pub fn literal_to_value(lit: &Literal) -> (r: Value)
    ensures
        r@ == literal_value(lit@),
{
    match lit {
        Literal::Null => Value::Null,
        Literal::Integer(n) => Value::Int(*n),
        Literal::Real(r) => Value::Real(r.bits),
        Literal::Text(s) => Value::Text(s.clone()),
        Literal::Blob(b) => Value::Blob(clone_bytes(b)),
        Literal::Bool(b) => Value::Int(
            if *b {
                1
            } else {
                0
            },
        ),
    }
}

/// The value of a constant; a bind parameter counts as NULL.
pub open spec fn constant_value(e: ExprView) -> Option<ValueView>
    decreases e,
{
    match e {
        ExprView::Literal(lit) => Some(literal_value(lit)),
        ExprView::BindParam(_) => Some(ValueView::Null),
        ExprView::Unary { op, expr } => if op == UnaryOp::Negate {
            match constant_value(*expr) {
                Some(ValueView::Int(i)) => Some(
                    ValueView::Int(
                        if i == i64::MIN {
                            i
                        } else {
                            (-i) as i64
                        },
                    ),
                ),
                Some(ValueView::Real(r)) => Some(ValueView::Real(negated_bits(r))),
                _ => None,
            }
        } else {
            None
        },
        _ => None,
    }
}

/// The mathematical value of an optional value.
pub open spec fn opt_value_view(o: Option<Value>) -> Option<ValueView> {
    match o {
        None => None,
        Some(v) => Some(v@),
    }
}

/// The value of a constant expression: a literal, or a number with its sign changed. A parameter
/// counts as NULL.
pub fn const_value(e: &Expr) -> (r: Option<Value>)
    ensures
        opt_value_view(r) == constant_value(e@),
    decreases e,
{
    match e {
        Expr::Literal(lit) => Some(literal_to_value(lit)),
        Expr::BindParam(_) => Some(Value::Null),
        Expr::Unary { op, expr } => if *op == UnaryOp::Negate {
            match const_value(expr) {
                Some(Value::Int(i)) => if i == i64::MIN {
                    Some(Value::Int(i))
                } else {
                    Some(Value::Int(-i))
                },
                Some(Value::Real(r)) => Some(Value::Real(negate_bits(r))),
                _ => None,
            }
        } else {
            None
        },
        _ => None,
    }
}

/// The name of the column that an expression is.
pub open spec fn column_of(e: ExprView) -> Option<Seq<char>> {
    match e {
        ExprView::Column { schema, table, name } => Some(name),
        _ => None,
    }
}

/// The column that an expression refers to, if it is a column.
pub fn column_name(e: &Expr) -> (r: Option<String>)
    ensures
        opt_name_view(r) == column_of(e@),
{
    match e {
        Expr::Column { schema, table, name } => Some(name.clone()),
        _ => None,
    }
}

/// The column and the other side of a comparison, the column being on either side.
pub open spec fn sides(left: ExprView, right: ExprView) -> Option<(Seq<char>, ExprView)> {
    match column_of(left) {
        Some(c) => Some((c, right)),
        None => match column_of(right) {
            Some(c) => Some((c, left)),
            None => None,
        },
    }
}

/// The bound that a comparison operator puts on its column.
pub open spec fn plain_bound(op: BinaryOp) -> Option<RangeOp> {
    match op {
        BinaryOp::Eq => Some(RangeOp::Eq),
        BinaryOp::Gt => Some(RangeOp::Gt),
        BinaryOp::Ge => Some(RangeOp::Ge),
        BinaryOp::Lt => Some(RangeOp::Lt),
        BinaryOp::Le => Some(RangeOp::Le),
        _ => None,
    }
}

/// The condition that a term puts on a column: a comparison of the column with a constant.
/// `IS NOT NULL` bounds the column by NULL, and `= NULL` is no condition.
#[verifier::opaque]
pub open spec fn range_key(e: ExprView) -> Option<RangeKeyView> {
    match e {
        ExprView::Binary { op, left, right } => if op == BinaryOp::Is {
            match sides(*left, *right) {
                None => None,
                Some((column, other)) => match constant_value(other) {
                    None => None,
                    Some(value) => Some(
                        RangeKeyView {
                            column,
                            op: if value is Null {
                                RangeOp::IsNull
                            } else {
                                RangeOp::Eq
                            },
                            value,
                        },
                    ),
                },
            }
        } else if op == BinaryOp::IsNot {
            match (column_of(*left), constant_value(*right)) {
                (Some(column), Some(ValueView::Null)) => Some(
                    RangeKeyView { column, op: RangeOp::Gt, value: ValueView::Null },
                ),
                _ => None,
            }
        } else {
            match plain_bound(op) {
                None => None,
                Some(bound) => match sides(*left, *right) {
                    None => None,
                    Some((column, other)) => match constant_value(other) {
                        None => None,
                        Some(value) => if value is Null && bound == RangeOp::Eq {
                            None
                        } else {
                            let op = if column_of(*left) is Some {
                                bound
                            } else {
                                mirrored(bound)
                            };
                            Some(RangeKeyView { column, op, value })
                        },
                    },
                },
            }
        },
        _ => None,
    }
}

/// The mathematical value of an optional condition.
pub open spec fn opt_key_view(o: Option<RangeKey>) -> Option<RangeKeyView> {
    match o {
        None => None,
        Some(k) => Some(k@),
    }
}

fn plain_bound_of(op: BinaryOp) -> (r: Option<RangeOp>)
    ensures
        r == plain_bound(op),
{
    match op {
        BinaryOp::Eq => Some(RangeOp::Eq),
        BinaryOp::Gt => Some(RangeOp::Gt),
        BinaryOp::Ge => Some(RangeOp::Ge),
        BinaryOp::Lt => Some(RangeOp::Lt),
        BinaryOp::Le => Some(RangeOp::Le),
        _ => None,
    }
}

/// The comparison with its sides exchanged.
pub open spec fn mirrored(op: RangeOp) -> RangeOp {
    match op {
        RangeOp::Gt => RangeOp::Lt,
        RangeOp::Ge => RangeOp::Le,
        RangeOp::Lt => RangeOp::Gt,
        RangeOp::Le => RangeOp::Ge,
        RangeOp::Eq => RangeOp::Eq,
        RangeOp::IsNull => RangeOp::IsNull,
    }
}

fn mirror(op: RangeOp) -> (r: RangeOp)
    ensures
        r == mirrored(op),
{
    match op {
        RangeOp::Gt => RangeOp::Lt,
        RangeOp::Ge => RangeOp::Le,
        RangeOp::Lt => RangeOp::Gt,
        RangeOp::Le => RangeOp::Ge,
        RangeOp::Eq => RangeOp::Eq,
        RangeOp::IsNull => RangeOp::IsNull,
    }
}

/// The comparison operator with its sides exchanged.
pub open spec fn exchanged(op: BinaryOp) -> BinaryOp {
    match op {
        BinaryOp::Gt => BinaryOp::Lt,
        BinaryOp::Ge => BinaryOp::Le,
        BinaryOp::Lt => BinaryOp::Gt,
        BinaryOp::Le => BinaryOp::Ge,
        _ => op,
    }
}

/// A comparison puts the same condition on its column whichever side the column stands on.
pub proof fn law_condition_either_way(op: BinaryOp, column: ExprView, value: ExprView)
    requires
        column is Column,
        value !is Column,
        plain_bound(op) is Some,
    ensures
        range_key(ExprView::Binary { op, left: Box::new(column), right: Box::new(value) })
            == range_key(
            ExprView::Binary {
                op: exchanged(op),
                left: Box::new(value),
                right: Box::new(column),
            },
        ),
{
    reveal(range_key);
}

fn split_sides<'a>(left: &'a Expr, right: &'a Expr) -> (r: Option<(String, &'a Expr)>)
    ensures
        match r {
            Some((c, o)) => sides(left@, right@) == Some((c@, o@)),
            None => sides(left@, right@) is None,
        },
{
    match column_name(left) {
        Some(c) => Some((c, right)),
        None => match column_name(right) {
            Some(c) => Some((c, left)),
            None => None,
        },
    }
}

/// The condition that a term puts on a column.
pub fn as_range_key(e: &Expr) -> (r: Option<RangeKey>)
    ensures
        opt_key_view(r) == range_key(e@),
{
    reveal(range_key);
    if let Expr::Binary { op, left, right } = e {
        if *op == BinaryOp::Is {
            return match split_sides(left, right) {
                None => None,
                Some((column, other)) => match const_value(other) {
                    None => None,
                    Some(Value::Null) => Some(
                        RangeKey { column, op: RangeOp::IsNull, value: Value::Null },
                    ),
                    Some(value) => Some(RangeKey { column, op: RangeOp::Eq, value }),
                },
            };
        }
        if *op == BinaryOp::IsNot {
            return match const_value(right) {
                Some(Value::Null) => match column_name(left) {
                    Some(column) => Some(
                        RangeKey { column, op: RangeOp::Gt, value: Value::Null },
                    ),
                    None => None,
                },
                _ => None,
            };
        }
        if let Some(bound) = plain_bound_of(*op) {
            let op: RangeOp = if column_name(left).is_some() {
                bound
            } else {
                mirror(bound)
            };
            return match split_sides(left, right) {
                None => None,
                Some((column, other)) => match const_value(other) {
                    None => None,
                    Some(Value::Null) => if bound == RangeOp::Eq {
                        None
                    } else {
                        Some(RangeKey { column, op, value: Value::Null })
                    },
                    Some(value) => Some(RangeKey { column, op, value }),
                },
            };
        }
    }
    None
}

/// The condition, if there is a value for it.
pub open spec fn bound_key(column: Seq<char>, op: RangeOp, value: Option<ValueView>) -> Seq<
    RangeKeyView,
> {
    match value {
        None => Seq::empty(),
        Some(value) => seq![RangeKeyView { column, op, value }],
    }
}

/// The conditions that a conjunction puts on columns, in order. A `BETWEEN` is a lower and an
/// upper bound; `IS NOT NULL` is none.
pub open spec fn range_keys(e: ExprView) -> Seq<RangeKeyView>
    decreases e,
{
    match e {
        ExprView::Binary { op, left, right } if op == BinaryOp::And => range_keys(*left)
            + range_keys(*right),
        ExprView::Between { expr, low, high, negated } if !negated => match column_of(*expr) {
            None => Seq::empty(),
            Some(c) => bound_key(c, RangeOp::Ge, constant_value(*low)) + bound_key(
                c,
                RangeOp::Le,
                constant_value(*high),
            ),
        },
        ExprView::Binary { op, left, right } if op == BinaryOp::IsNot => Seq::empty(),
        _ => match range_key(e) {
            None => Seq::empty(),
            Some(k) => seq![k],
        },
    }
}

fn push_bound(out: &mut Vec<RangeKey>, column: &String, op: RangeOp, value: Option<Value>)
    ensures
        keys_view(final(out)@) == keys_view(old(out)@) + bound_key(
            column@,
            op,
            opt_value_view(value),
        ),
{
    let ghost before = keys_view(out@);
    match value {
        None => {
            assert(before + Seq::<RangeKeyView>::empty() =~= before);
        },
        Some(value) => {
            let key = RangeKey { column: column.clone(), op, value };
            out.push(key);
            assert(keys_view(out@) =~= before + seq![key@]);
        },
    }
}

/// Append the conditions of a conjunction to `out`.
pub fn flatten_and_collect_range(e: &Expr, out: &mut Vec<RangeKey>)
    ensures
        keys_view(final(out)@) == keys_view(old(out)@) + range_keys(e@),
    decreases e,
{
    let ghost before = keys_view(out@);
    match e {
        Expr::Binary { op, left, right } if *op == BinaryOp::And => {
            flatten_and_collect_range(left, out);
            flatten_and_collect_range(right, out);
            assert(keys_view(out@) =~= before + range_keys(e@));
        },
        Expr::Between { expr, low, high, negated } if !*negated => {
            if let Some(c) = column_name(expr) {
                push_bound(out, &c, RangeOp::Ge, const_value(low));
                push_bound(out, &c, RangeOp::Le, const_value(high));
            }
            assert(keys_view(out@) =~= before + range_keys(e@));
        },
        Expr::Binary { op, left, right } if *op == BinaryOp::IsNot => {
            assert(keys_view(out@) =~= before + range_keys(e@));
        },
        other => {
            if let Some(key) = as_range_key(other) {
                out.push(key);
                assert(keys_view(out@) =~= before + seq![key@]);
            } else {
                assert(keys_view(out@) =~= before + range_keys(e@));
            }
        },
    }
}

/// The bounds of the pattern matches from `k` on, after `keys`.
pub open spec fn with_likes(keys: Seq<RangeKeyView>, opts: Seq<LikeOptView>, k: int) -> Seq<
    RangeKeyView,
>
    decreases opts.len() - k,
{
    if k < 0 || k >= opts.len() {
        keys
    } else {
        let o = opts[k];
        let lower = keys.push(
            RangeKeyView { column: o.column, op: RangeOp::Ge, value: ValueView::Text(o.prefix) },
        );
        with_likes(
            match o.upper {
                None => lower,
                Some(u) => lower.push(
                    RangeKeyView { column: o.column, op: RangeOp::Lt, value: ValueView::Text(u) },
                ),
            },
            opts,
            k + 1,
        )
    }
}

/// All conditions that a `WHERE` clause puts on columns, those of its pattern matches last.
#[verifier::opaque]
pub open spec fn conditions(w: Option<ExprView>, likes: Seq<LikeOptView>) -> Seq<RangeKeyView> {
    with_likes(
        match w {
            None => Seq::empty(),
            Some(e) => range_keys(e),
        },
        likes,
        0,
    )
}

fn collect_conditions(w: &Option<Expr>, likes: &Vec<LikeOpt>) -> (r: Vec<RangeKey>)
    ensures
        keys_view(r@) == conditions(opt_expr_view(*w), like_opts_view(likes@)),
{
    reveal(conditions);
    let mut out: Vec<RangeKey> = Vec::new();
    assert(keys_view(out@) =~= Seq::empty());
    if let Some(e) = w {
        assert(keys_view(out@) + range_keys(e@) =~= range_keys(e@));
        flatten_and_collect_range(e, &mut out);
    }
    let ghost ls = like_opts_view(likes@);
    let ghost want = with_likes(keys_view(out@), ls, 0);
    for k in 0..likes.len()
        invariant
            ls == like_opts_view(likes@),
            with_likes(keys_view(out@), ls, k as int) == want,
    {
        assert(ls[k as int] == likes@[k as int]@);
        let ghost before = keys_view(out@);
        let lower = RangeKey {
            column: likes[k].column.clone(),
            op: RangeOp::Ge,
            value: Value::Text(likes[k].prefix.clone()),
        };
        out.push(lower);
        assert(keys_view(out@) =~= before.push(lower@));
        if let Some(u) = &likes[k].upper {
            let ghost before = keys_view(out@);
            let upper = RangeKey {
                column: likes[k].column.clone(),
                op: RangeOp::Lt,
                value: Value::Text(u.clone()),
            };
            out.push(upper);
            assert(keys_view(out@) =~= before.push(upper@));
        }
    }
    out
}

// ---- The range of an index ----

/// The first condition from `k` on that bounds the column called `name` that way.
pub open spec fn condition_from(
    keys: Seq<RangeKeyView>,
    name: Seq<char>,
    bound: Bound,
    k: int,
) -> Option<RangeKeyView>
    decreases keys.len() - k,
{
    if k < 0 || k >= keys.len() {
        None
    } else if eq_nocase(keys[k].column, name) && is_bound(keys[k].op, bound) {
        Some(keys[k])
    } else {
        condition_from(keys, name, bound, k + 1)
    }
}

fn find_condition(keys: &Vec<RangeKey>, name: &str, bound: Bound) -> (r: Option<RangeKey>)
    ensures
        opt_key_view(r) == condition_from(keys_view(keys@), name@, bound, 0),
{
    for k in 0..keys.len()
        invariant
            condition_from(keys_view(keys@), name@, bound, 0) == condition_from(
                keys_view(keys@),
                name@,
                bound,
                k as int,
            ),
    {
        assert(keys_view(keys@)[k as int] == keys@[k as int]@);
        if eq_ignore_case(keys[k].column.as_str(), name) && bounds(keys[k].op, bound) {
            return Some(keys[k].clone());
        }
    }
    None
}

/// An optional condition as a list.
pub open spec fn opt_key_list(o: Option<RangeKeyView>) -> Seq<RangeKeyView> {
    match o {
        None => Seq::empty(),
        Some(k) => seq![k],
    }
}

/// The range `acc`, then the conditions on the index columns from `k` on: columns that are
/// pinned, then one that is bounded. A column that the table does not have ends the range.
pub open spec fn range_from(
    acc: Seq<RangeKeyView>,
    cols: Seq<IndexColumnView>,
    t: TableView,
    keys: Seq<RangeKeyView>,
    k: int,
) -> Seq<RangeKeyView>
    decreases cols.len() - k,
{
    if k < 0 || k >= cols.len() || t.column_index(cols[k].name) is None {
        acc
    } else {
        match condition_from(keys, cols[k].name, Bound::Pinned, 0) {
            Some(key) => range_from(acc.push(key), cols, t, keys, k + 1),
            None => acc + opt_key_list(condition_from(keys, cols[k].name, Bound::Lower, 0))
                + opt_key_list(condition_from(keys, cols[k].name, Bound::Upper, 0)),
        }
    }
}

/// The conditions on the leading columns of an index; empty when there are none.
pub fn find_index_range_prefix(index: &IndexObject, table: &Table, constraints: &Vec<RangeKey>) -> (r:
    Vec<RangeKey>)
    ensures
        keys_view(r@) == range_from(
            Seq::empty(),
            index@.columns,
            table@,
            keys_view(constraints@),
            0,
        ),
{
    let mut acc: Vec<RangeKey> = Vec::new();
    let ghost cols = index@.columns;
    let ghost keys = keys_view(constraints@);
    assert(keys_view(acc@) =~= Seq::empty());
    let ghost want = range_from(Seq::empty(), cols, table@, keys, 0);
    for k in 0..index.columns.len()
        invariant
            cols == index_columns_view(index.columns@),
            cols == index@.columns,
            keys == keys_view(constraints@),
            want == range_from(Seq::empty(), cols, table@, keys, 0),
            range_from(keys_view(acc@), cols, table@, keys, k as int) == want,
    {
        assert(cols[k as int] == index.columns@[k as int]@);
        let name = index.columns[k].name.as_str();
        if table.column_index(name).is_none() {
            return acc;
        }
        let ghost before = keys_view(acc@);
        if let Some(key) = find_condition(constraints, name, Bound::Pinned) {
            acc.push(key);
            assert(keys_view(acc@) =~= before.push(key@));
        } else {
            let low = find_condition(constraints, name, Bound::Lower);
            let high = find_condition(constraints, name, Bound::Upper);
            let ghost lv = opt_key_view(low);
            let ghost hv = opt_key_view(high);
            if let Some(key) = low {
                acc.push(key);
            }
            assert(keys_view(acc@) =~= before + opt_key_list(lv));
            let ghost mid = keys_view(acc@);
            if let Some(key) = high {
                acc.push(key);
            }
            assert(keys_view(acc@) =~= mid + opt_key_list(hv));
            return acc;
        }
    }
    acc
}

// ---- ORDER BY ----

/// NULLs sort where they do by default: first in ascending order, last in descending order.
pub open spec fn default_nulls(term: OrderingTermView) -> bool {
    match term.nulls {
        None => true,
        Some(NullsOrder::First) => !term.desc,
        Some(NullsOrder::Last) => term.desc,
    }
}

/// Whether a sort term puts NULL where its direction does by itself.
pub fn nulls_is_default(term: &OrderingTerm) -> (r: bool)
    ensures
        r == default_nulls(term@),
{
    match term.nulls {
        None => true,
        Some(NullsOrder::First) => !term.desc,
        Some(NullsOrder::Last) => term.desc,
    }
}

/// The column of the table that a term sorts by.
pub open spec fn sort_column(term: OrderingTermView, t: TableView) -> Option<Seq<char>> {
    match column_of(term.expr) {
        Some(name) => if t.column_index(name) is Some {
            Some(name)
        } else {
            None
        },
        None => None,
    }
}

/// The column of the table that a sort term sorts by, if it is one.
pub fn order_by_column_name(term: &OrderingTerm, table: &Table) -> (r: Option<String>)
    ensures
        opt_name_view(r) == sort_column(term@, table@),
{
    match column_name(&term.expr) {
        Some(name) => if table.column_index(name.as_str()).is_some() {
            Some(name)
        } else {
            None
        },
        None => None,
    }
}

/// A forward walk of the index column is in the order of the term.
pub open spec fn term_fits(term: OrderingTermView, col: IndexColumnView, t: TableView) -> bool {
    match sort_column(term, t) {
        None => false,
        Some(name) => eq_nocase(name, col.name) && term.desc == col.desc && default_nulls(term),
    }
}

/// A forward walk of the index is in the order of the terms, once `pinned` leading columns are
/// pinned.
#[verifier::opaque]
pub open spec fn order_fits(
    terms: Seq<OrderingTermView>,
    cols: Seq<IndexColumnView>,
    t: TableView,
    pinned: int,
) -> bool {
    &&& terms.len() > 0
    &&& pinned + terms.len() <= cols.len()
    &&& forall|i: int| 0 <= i < terms.len() ==> term_fits(#[trigger] terms[i], cols[pinned + i], t)
}

fn fits_column(term: &OrderingTerm, col: &IndexColumn, table: &Table) -> (r: bool)
    ensures
        r == term_fits(term@, col@, table@),
{
    match order_by_column_name(term, table) {
        None => false,
        Some(name) => eq_ignore_case(name.as_str(), col.name.as_str()) && term.desc == col.desc
            && nulls_is_default(term),
    }
}

/// Whether the index order is the order that is asked for.
pub fn order_by_matches_index(
    order_by: &Vec<OrderingTerm>,
    index: &IndexObject,
    table: &Table,
    prefix_len: usize,
) -> (r: bool)
    ensures
        r == order_fits(
            ordering_terms_view(order_by@),
            index@.columns,
            table@,
            prefix_len as int,
        ),
{
    reveal(order_fits);
    let ghost terms = ordering_terms_view(order_by@);
    let ghost cols = index@.columns;
    if order_by.len() == 0 {
        return false;
    }
    let ncols: usize = index.columns.len();
    if order_by.len() > ncols || prefix_len > ncols - order_by.len() {
        return false;
    }
    for i in 0..order_by.len()
        invariant
            terms == ordering_terms_view(order_by@),
            cols == index_columns_view(index.columns@),
            cols == index@.columns,
            terms.len() > 0,
            terms.len() == order_by@.len(),
            ncols == index.columns@.len(),
            ncols == cols.len(),
            prefix_len + terms.len() <= ncols,
            forall|j: int|
                0 <= j < i ==> term_fits(#[trigger] terms[j], cols[prefix_len + j], table@),
    {
        assert(terms[i as int] == order_by@[i as int]@);
        assert(cols[prefix_len + i] == index.columns@[prefix_len + i]@);
        let fits = fits_column(&order_by[i], &index.columns[prefix_len + i], table);
        if !fits {
            reveal(order_fits);
            assert(!term_fits(terms[i as int], cols[prefix_len + i], table@));
            return false;
        }
    }
    true
}

// ---- Referenced columns ----

/// The columns with one more, if it is not there yet.
pub open spec fn with_column(cols: Seq<usize>, i: usize) -> Seq<usize> {
    if cols.contains(i) {
        cols
    } else {
        cols.push(i)
    }
}

/// The columns `acc`, then those of the table that `e` refers to, each once.
pub open spec fn columns_in(acc: Seq<usize>, e: ExprView, t: TableView) -> Seq<usize>
    decreases e, operands(e).len() + 1,
{
    match e {
        ExprView::Column { schema, table, name } => match t.column_index(name) {
            Some(i) => with_column(acc, i),
            None => acc,
        },
        _ => columns_from(acc, e, t, 0),
    }
}

/// The columns `acc`, then those that the operands of `e` from the `k`-th on refer to.
pub open spec fn columns_from(acc: Seq<usize>, e: ExprView, t: TableView, k: int) -> Seq<usize>
    decreases e, operands(e).len() - k,
{
    if 0 <= k < operands(e).len() {
        proof {
            lemma_operand(e, k);
        }
        columns_from(columns_in(acc, operands(e)[k], t), e, t, k + 1)
    } else {
        acc
    }
}

/// The columns `acc`, then all columns of the table from `k` on.
pub open spec fn all_columns_from(acc: Seq<usize>, n: int, k: int) -> Seq<usize>
    decreases n - k,
{
    if k < 0 || k >= n {
        acc
    } else {
        all_columns_from(with_column(acc, k as usize), n, k + 1)
    }
}

/// The columns `acc`, then those that the result columns from `k` on refer to.
pub open spec fn result_columns_from(
    acc: Seq<usize>,
    cols: Seq<ResultColumnView>,
    t: TableView,
    k: int,
) -> Seq<usize>
    decreases cols.len() - k,
{
    if k < 0 || k >= cols.len() {
        acc
    } else {
        result_columns_from(
            match cols[k] {
                ResultColumnView::Expr { expr, alias } => columns_in(acc, expr, t),
                _ => all_columns_from(acc, t.columns.len() as int, 0),
            },
            cols,
            t,
            k + 1,
        )
    }
}

/// The columns `acc`, then those that the terms from `k` on refer to.
pub open spec fn term_columns_from(
    acc: Seq<usize>,
    terms: Seq<OrderingTermView>,
    t: TableView,
    k: int,
) -> Seq<usize>
    decreases terms.len() - k,
{
    if k < 0 || k >= terms.len() {
        acc
    } else {
        term_columns_from(columns_in(acc, terms[k].expr, t), terms, t, k + 1)
    }
}

/// The result columns are `*` and nothing else.
pub open spec fn stars_only(cols: Seq<ResultColumnView>) -> bool {
    cols.len() > 0 && forall|k: int| 0 <= k < cols.len() ==> !((#[trigger] cols[k]) is Expr)
}

/// The columns of the table that a query reads; none for a query that reads no table, and none
/// for one that puts out just `*`, which is not analyzed.
#[verifier::opaque]
pub open spec fn referenced(select: SelectStmtView, t: TableView) -> Seq<usize> {
    if select.from.len() == 0 || stars_only(select.columns) {
        Seq::empty()
    } else {
        let a = result_columns_from(Seq::empty(), select.columns, t, 0);
        let b = match select.where_clause {
            None => a,
            Some(w) => columns_in(a, w, t),
        };
        term_columns_from(b, select.order_by, t, 0)
    }
}

fn add_column(cols: &mut Vec<usize>, i: usize)
    ensures
        final(cols)@ == with_column(old(cols)@, i),
{
    for k in 0..cols.len()
        invariant
            cols@ == old(cols)@,
            forall|j: int| 0 <= j < k ==> cols@[j] != i,
    {
        if cols[k] == i {
            return ;
        }
    }
    cols.push(i);
}

/// Append the columns of the table that an expression refers to.
pub fn collect_columns(e: &Expr, table: &Table, cols: &mut Vec<usize>)
    ensures
        final(cols)@ == columns_in(old(cols)@, e@, table@),
    decreases e,
{
    if let Expr::Column { schema, table: q, name } = e {
        if let Some(i) = table.column_index(name.as_str()) {
            add_column(cols, i);
        }
        return ;
    }
    let es = operands_of(e);
    let ghost want = columns_in(cols@, e@, table@);
    for k in 0..es.len()
        invariant
            refs_view(es@) == operands(e@),
            es@.len() == operands(e@).len(),
            forall|i: int| 0 <= i < es@.len() ==> decreases_to!(*e => *(#[trigger] es@[i])),
            columns_from(cols@, e@, table@, k as int) == want,
    {
        assert(refs_view(es@)[k as int] == es@[k as int]@);
        assert(decreases_to!(*e => *es@[k as int]));
        collect_columns(es[k], table, cols);
    }
}

fn collect_result_columns(columns: &Vec<ResultColumn>, table: &Table, cols: &mut Vec<usize>)
    ensures
        final(cols)@ == result_columns_from(
            old(cols)@,
            result_columns_view(columns@),
            table@,
            0,
        ),
{
    let ghost rcs = result_columns_view(columns@);
    let ghost want = result_columns_from(cols@, rcs, table@, 0);
    for k in 0..columns.len()
        invariant
            rcs == result_columns_view(columns@),
            result_columns_from(cols@, rcs, table@, k as int) == want,
    {
        assert(rcs[k as int] == columns@[k as int]@);
        match &columns[k] {
            ResultColumn::Expr { expr, alias } => {
                collect_columns(expr, table, cols);
            },
            _ => {
                let n: usize = table.columns.len();
                let ghost all = all_columns_from(cols@, n as int, 0);
                for i in 0..n
                    invariant
                        all_columns_from(cols@, n as int, i as int) == all,
                {
                    add_column(cols, i);
                }
            },
        }
    }
}

fn puts_out_stars(columns: &Vec<ResultColumn>) -> (r: bool)
    ensures
        r == stars_only(result_columns_view(columns@)),
{
    let ghost rcs = result_columns_view(columns@);
    for k in 0..columns.len()
        invariant
            rcs == result_columns_view(columns@),
            forall|j: int| 0 <= j < k ==> !((#[trigger] rcs[j]) is Expr),
    {
        assert(rcs[k as int] == columns@[k as int]@);
        if let ResultColumn::Expr { expr, alias } = &columns[k] {
            assert(rcs[k as int] is Expr);
            return false;
        }
    }
    columns.len() > 0
}

/// The columns of the table that a query reads; none for one that puts out just `*`.
pub fn collect_referenced_columns(select: &SelectStmt, table: &Table) -> (r: Vec<usize>)
    ensures
        r@ == referenced(select@, table@),
{
    reveal(referenced);
    let mut cols: Vec<usize> = Vec::new();
    assert(cols@ =~= Seq::empty());
    assert(select@.from == from_items_view(select.from@));
    assert(select@.columns == result_columns_view(select.columns@));
    if select.from.len() == 0 || puts_out_stars(&select.columns) {
        return cols;
    }
    collect_result_columns(&select.columns, table, &mut cols);
    if let Some(w) = &select.where_clause {
        collect_columns(w, table, &mut cols);
    }
    let ghost terms = ordering_terms_view(select.order_by@);
    assert(select@.order_by == terms);
    let ghost want = term_columns_from(cols@, terms, table@, 0);
    for k in 0..select.order_by.len()
        invariant
            terms == ordering_terms_view(select.order_by@),
            term_columns_from(cols@, terms, table@, k as int) == want,
    {
        assert(terms[k as int] == select.order_by@[k as int]@);
        collect_columns(&select.order_by[k].expr, table, &mut cols);
    }
    cols
}

/// One of the plain index columns from `j` on is column `c` of the table.
pub open spec fn holds_from(cols: Seq<IndexColumnView>, t: TableView, c: usize, j: int) -> bool
    decreases cols.len() - j,
{
    0 <= j < cols.len() && ((cols[j].expr is None && t.column_index(cols[j].name) == Some(c))
        || holds_from(cols, t, c, j + 1))
}

/// Every referenced column is held by the index, as a plain column or as the rowid.
#[verifier::opaque]
pub open spec fn covers(cols: Seq<IndexColumnView>, t: TableView, refs: Seq<usize>) -> bool {
    forall|k: int|
        0 <= k < refs.len() ==> t.rowid_alias == Some(#[trigger] refs[k]) || holds_from(
            cols,
            t,
            refs[k],
            0,
        )
}

fn holds(index: &IndexObject, table: &Table, c: usize) -> (r: bool)
    ensures
        r == holds_from(index@.columns, table@, c, 0),
{
    let ghost cols = index@.columns;
    for j in 0..index.columns.len()
        invariant
            cols == index_columns_view(index.columns@),
            cols == index@.columns,
            holds_from(cols, table@, c, 0) == holds_from(cols, table@, c, j as int),
    {
        assert(cols[j as int] == index.columns@[j as int]@);
        if !index.columns[j].is_expression() {
            if let Some(i) = table.column_index(index.columns[j].name.as_str()) {
                if i == c {
                    return true;
                }
            }
        }
    }
    false
}

/// Whether the index holds every referenced column.
pub fn index_covers(index: &IndexObject, table: &Table, refs: &Vec<usize>) -> (r: bool)
    ensures
        r == covers(index@.columns, table@, refs@),
{
    reveal(covers);
    for k in 0..refs.len()
        invariant
            forall|i: int|
                0 <= i < k ==> table@.rowid_alias == Some(#[trigger] refs@[i]) || holds_from(
                    index@.columns,
                    table@,
                    refs@[i],
                    0,
                ),
    {
        let c: usize = refs[k];
        let is_alias = match table.rowid_alias {
            Some(a) => a == c,
            None => false,
        };
        if !is_alias && !holds(index, table, c) {
            reveal(covers);
            assert(refs@[k as int] == c);
            return false;
        }
    }
    true
}

/// The number of plain columns among the first `n` index columns.
pub open spec fn plain_count(cols: Seq<IndexColumnView>, n: int) -> nat
    decreases n,
{
    if n <= 0 || n > cols.len() {
        0
    } else {
        plain_count(cols, n - 1) + (if cols[n - 1].expr is None {
            1nat
        } else {
            0nat
        })
    }
}

/// Whether the index has fewer plain columns than the table has columns.
pub fn index_strictly_smaller_than_table(index: &IndexObject, table: &Table) -> (r: bool)
    ensures
        r == (plain_count(index@.columns, index@.columns.len() as int) < table@.columns.len()),
{
    let ghost cols = index@.columns;
    let mut n: usize = 0;
    for j in 0..index.columns.len()
        invariant
            cols == index_columns_view(index.columns@),
            cols == index@.columns,
            n == plain_count(cols, j as int),
            n <= j,
    {
        assert(cols[j as int] == index.columns@[j as int]@);
        assert(plain_count(cols, j + 1) == plain_count(cols, j as int) + (
        if cols[j as int].expr is None {
            1nat
        } else {
            0nat
        }));
        if !index.columns[j].is_expression() {
            n = n + 1;
        }
    }
    n < table.columns.len()
}

// ---- Plans ----

/// The predicate of a partial index is one of the terms of the `WHERE` clause.
#[verifier::opaque]
pub open spec fn usable(predicate: Option<ExprView>, w: Option<ExprView>) -> bool {
    match predicate {
        None => true,
        Some(p) => match w {
            None => false,
            Some(e) => conjuncts(e).contains(p),
        },
    }
}

/// Whether the index holds every row that the condition lets through.
pub fn partial_index_usable(index: &IndexObject, w: &Option<Expr>) -> (r: bool)
    ensures
        r == usable(index@.where_clause, opt_expr_view(*w)),
{
    reveal(usable);
    match &index.where_clause {
        None => true,
        Some(p) => match w {
            None => false,
            Some(e) => {
                let mut terms: Vec<Expr> = Vec::new();
                assert(crate::ast::exprs_view(terms@) + conjuncts(e@) =~= conjuncts(e@));
                flatten_and(e, &mut terms);
                let ghost ts = crate::ast::exprs_view(terms@);
                for k in 0..terms.len()
                    invariant
                        ts == crate::ast::exprs_view(terms@),
                        ts == conjuncts(e@),
                        forall|i: int| 0 <= i < k ==> (#[trigger] ts[i]) != p@,
                        index@.where_clause == Some(p@),
                        opt_expr_view(*w) == Some(e@),
                {
                    assert(ts[k as int] == terms@[k as int]@);
                    if terms[k].same(p) {
                        reveal(usable);
                        assert(ts[k as int] == p@);
                        return true;
                    }
                }
                false
            },
        },
    }
}

/// The pattern match behind a range of the index: the first one, from `k` on, on the leading
/// column of the index whose lower bound is in the range.
pub open spec fn like_behind(
    opts: Seq<LikeOptView>,
    cols: Seq<IndexColumnView>,
    range: Seq<RangeKeyView>,
    k: int,
) -> Option<LikeOptView>
    decreases opts.len() - k,
{
    if k < 0 || k >= opts.len() {
        None
    } else if cols.len() > 0 && cols[0].expr is None && eq_nocase(cols[0].name, opts[k].column)
        && has_lower_from(range, opts[k].column, 0) {
        Some(opts[k])
    } else {
        like_behind(opts, cols, range, k + 1)
    }
}

/// One of the conditions from `i` on is an included lower bound of the column.
pub open spec fn has_lower_from(range: Seq<RangeKeyView>, column: Seq<char>, i: int) -> bool
    decreases range.len() - i,
{
    0 <= i < range.len() && ((eq_nocase(range[i].column, column) && range[i].op == RangeOp::Ge)
        || has_lower_from(range, column, i + 1))
}

/// The plan for one index.
#[verifier::opaque]
pub open spec fn plan_of(
    select: SelectStmtView,
    ix: IndexView,
    t: TableView,
    keys: Seq<RangeKeyView>,
    refs: Seq<usize>,
    likes: Seq<LikeOptView>,
    forced: bool,
) -> IndexPlanView {
    if !forced && !usable(ix.where_clause, select.where_clause) {
        IndexPlanView {
            index: ix,
            range: Seq::empty(),
            order_by_satisfied: false,
            covering: false,
            needs_sorter: false,
            like_opt: None,
        }
    } else {
        let range = range_from(Seq::empty(), ix.columns, t, keys, 0);
        let ordered = order_fits(select.order_by, ix.columns, t, pinned_from(range, 0));
        IndexPlanView {
            index: ix,
            range,
            order_by_satisfied: ordered,
            covering: refs.len() > 0 && covers(ix.columns, t, refs),
            needs_sorter: forced && select.order_by.len() > 0 && !ordered,
            like_opt: like_behind(likes, ix.columns, range, 0),
        }
    }
}

fn has_lower(range: &Vec<RangeKey>, column: &str) -> (r: bool)
    ensures
        r == has_lower_from(keys_view(range@), column@, 0),
{
    for i in 0..range.len()
        invariant
            has_lower_from(keys_view(range@), column@, 0) == has_lower_from(
                keys_view(range@),
                column@,
                i as int,
            ),
    {
        assert(keys_view(range@)[i as int] == range@[i as int]@);
        if eq_ignore_case(range[i].column.as_str(), column) && range[i].op == RangeOp::Ge {
            return true;
        }
    }
    false
}

fn find_like(opts: &Vec<LikeOpt>, index: &IndexObject, range: &Vec<RangeKey>) -> (r: Option<LikeOpt>)
    ensures
        opt_like_view(r) == like_behind(
            like_opts_view(opts@),
            index@.columns,
            keys_view(range@),
            0,
        ),
{
    let ghost os = like_opts_view(opts@);
    let ghost cols = index@.columns;
    let ghost rv = keys_view(range@);
    for k in 0..opts.len()
        invariant
            os == like_opts_view(opts@),
            cols == index_columns_view(index.columns@),
            cols == index@.columns,
            rv == keys_view(range@),
            like_behind(os, cols, rv, 0) == like_behind(os, cols, rv, k as int),
    {
        assert(os[k as int] == opts@[k as int]@);
        if index.columns.len() > 0 {
            assert(cols[0] == index.columns@[0]@);
            if !index.columns[0].is_expression() && eq_ignore_case(
                index.columns[0].name.as_str(),
                opts[k].column.as_str(),
            ) && has_lower(range, opts[k].column.as_str()) {
                return Some(opts[k].clone());
            }
        }
    }
    None
}

fn plan_for_index(
    select: &SelectStmt,
    index: &IndexObject,
    table: &Table,
    constraints: &Vec<RangeKey>,
    refs: &Vec<usize>,
    likes: &Vec<LikeOpt>,
    forced: bool,
) -> (r: IndexPlan)
    ensures
        r@ == plan_of(
            select@,
            index@,
            table@,
            keys_view(constraints@),
            refs@,
            like_opts_view(likes@),
            forced,
        ),
{
    reveal(plan_of);
    assert(select@.where_clause == opt_expr_view(select.where_clause));
    assert(select@.order_by == ordering_terms_view(select.order_by@));
    if !forced && !partial_index_usable(index, &select.where_clause) {
        let range: Vec<RangeKey> = Vec::new();
        assert(keys_view(range@) =~= Seq::empty());
        return IndexPlan {
            index: index.clone(),
            range,
            order_by_satisfied: false,
            covering: false,
            needs_sorter: false,
            like_opt: None,
        };
    }
    let range = find_index_range_prefix(index, table, constraints);
    let pinned: usize = count_pinned(&range);
    let ordered = order_by_matches_index(&select.order_by, index, table, pinned);
    let covering = refs.len() > 0 && index_covers(index, table, refs);
    let like_opt = find_like(likes, index, &range);
    IndexPlan {
        index: index.clone(),
        range,
        order_by_satisfied: ordered,
        covering,
        needs_sorter: forced && select.order_by.len() > 0 && !ordered,
        like_opt,
    }
}

/// The plan is worth more than another: more conditions, then covering, then ordered.
pub open spec fn worth_more(p: IndexPlanView, b: IndexPlanView) -> bool {
    ||| p.range.len() > b.range.len()
    ||| p.range.len() == b.range.len() && p.covering && !b.covering
    ||| p.range.len() == b.range.len() && p.covering == b.covering && p.order_by_satisfied
        && !b.order_by_satisfied
}

/// The plan as it would be used, if the index is any help.
pub open spec fn candidate(
    p: IndexPlanView,
    select: SelectStmtView,
    t: TableView,
    refs: Seq<usize>,
) -> Option<IndexPlanView> {
    if !(p.range.len() > 0 || p.order_by_satisfied || (p.covering && refs.len() > 0 && plain_count(
        p.index.columns,
        p.index.columns.len() as int,
    ) < t.columns.len())) {
        None
    } else if select.order_by.len() > 0 && !p.order_by_satisfied && p.range.len() == 0 {
        None
    } else {
        Some(p)
    }
}

/// The best of `best` and the plans for the indexes from `k` on; the last of equals.
pub open spec fn best_from(
    best: Option<IndexPlanView>,
    select: SelectStmtView,
    indexes: Seq<IndexView>,
    t: TableView,
    keys: Seq<RangeKeyView>,
    refs: Seq<usize>,
    likes: Seq<LikeOptView>,
    k: int,
) -> Option<IndexPlanView>
    decreases indexes.len() - k,
{
    if k < 0 || k >= indexes.len() {
        best
    } else {
        let next = if !usable(indexes[k].where_clause, select.where_clause) {
            best
        } else {
            match candidate(
                plan_of(select, indexes[k], t, keys, refs, likes, false),
                select,
                t,
                refs,
            ) {
                None => best,
                Some(p) => if best matches Some(b) && worth_more(b, p) {
                    best
                } else {
                    Some(p)
                },
            }
        };
        best_from(next, select, indexes, t, keys, refs, likes, k + 1)
    }
}

/// The first index from `k` on with the given name.
pub open spec fn index_named(indexes: Seq<IndexView>, name: Seq<char>, k: int) -> Option<int>
    decreases indexes.len() - k,
{
    if k < 0 || k >= indexes.len() {
        None
    } else if eq_nocase(indexes[k].name, name) {
        Some(k)
    } else {
        index_named(indexes, name, k + 1)
    }
}

/// What a query says about the use of indexes.
#[derive(Debug)]
pub enum IndexedBy {
    /// `INDEXED BY name`: read this index.
    Index(String),
    /// `NOT INDEXED`: read none.
    NotIndexed,
}

/// The mathematical value of an [`IndexedBy`].
pub ghost enum IndexedByView {
    Index(Seq<char>),
    NotIndexed,
}

/// The mathematical value of an optional hint.
pub open spec fn hint_view(h: Option<&IndexedBy>) -> Option<IndexedByView> {
    match h {
        None => None,
        Some(IndexedBy::Index(n)) => Some(IndexedByView::Index(n@)),
        Some(IndexedBy::NotIndexed) => Some(IndexedByView::NotIndexed),
    }
}

/// The plan that is chosen for a query, if an index is to be read. A query that names an index
/// that does not exist is refused.
#[verifier::opaque]
pub open spec fn chosen_plan(
    select: SelectStmtView,
    t: TableView,
    indexes: Seq<IndexView>,
    hint: Option<IndexedByView>,
    case_sensitive: bool,
) -> Result<Option<IndexPlanView>, Seq<char>> {
    let likes = where_like_ranges(select.where_clause, t, case_sensitive);
    let keys = conditions(select.where_clause, likes);
    let refs = referenced(select, t);
    match hint {
        Some(IndexedByView::Index(name)) => match index_named(indexes, name, 0) {
            None => Err("no such index: "@ + name),
            Some(k) => if select.from.len() != 1 {
                Ok(None)
            } else {
                Ok(Some(plan_of(select, indexes[k], t, keys, refs, likes, true)))
            },
        },
        Some(IndexedByView::NotIndexed) => Ok(None),
        None => if select.from.len() != 1 {
            Ok(None)
        } else {
            Ok(best_from(None, select, indexes, t, keys, refs, likes, 0))
        },
    }
}

/// The plan that an index offers a query, if it is any help.
pub open spec fn offered(
    select: SelectStmtView,
    ix: IndexView,
    t: TableView,
    case_sensitive: bool,
) -> Option<IndexPlanView> {
    let likes = where_like_ranges(select.where_clause, t, case_sensitive);
    let keys = conditions(select.where_clause, likes);
    let refs = referenced(select, t);
    if !usable(ix.where_clause, select.where_clause) {
        None
    } else {
        candidate(plan_of(select, ix, t, keys, refs, likes, false), select, t, refs)
    }
}

/// Every index from `k` on offers less than the plan `p`, if it offers a plan at all.
pub open spec fn stands_from(
    p: Option<IndexPlanView>,
    select: SelectStmtView,
    indexes: Seq<IndexView>,
    t: TableView,
    case_sensitive: bool,
    k: int,
) -> bool {
    forall|j: int|
        k <= j < indexes.len() && (#[trigger] offered(select, indexes[j], t, case_sensitive)) is Some
            ==> p is Some && worth_more(p->0, offered(select, indexes[j], t, case_sensitive)->0)
}

proof fn lemma_best(
    best: Option<IndexPlanView>,
    select: SelectStmtView,
    indexes: Seq<IndexView>,
    t: TableView,
    case_sensitive: bool,
    k: int,
)
    requires
        0 <= k,
    ensures
        ({
            let likes = where_like_ranges(select.where_clause, t, case_sensitive);
            let keys = conditions(select.where_clause, likes);
            let refs = referenced(select, t);
            let r = best_from(best, select, indexes, t, keys, refs, likes, k);
            &&& best is Some ==> r is Some && !worth_more(best->0, r->0)
            &&& forall|i: int|
                k <= i < indexes.len() && (#[trigger] offered(
                    select,
                    indexes[i],
                    t,
                    case_sensitive,
                )) is Some ==> r is Some && !worth_more(
                    offered(select, indexes[i], t, case_sensitive)->0,
                    r->0,
                )
            &&& (r == best && stands_from(r, select, indexes, t, case_sensitive, k)) || exists|
                i: int,
            |
                k <= i < indexes.len() && #[trigger] offered(
                    select,
                    indexes[i],
                    t,
                    case_sensitive,
                ) == r && stands_from(r, select, indexes, t, case_sensitive, i + 1)
        }),
    decreases indexes.len() - k,
{
    let likes = where_like_ranges(select.where_clause, t, case_sensitive);
    let keys = conditions(select.where_clause, likes);
    let refs = referenced(select, t);
    if k < indexes.len() {
        let here = offered(select, indexes[k], t, case_sensitive);
        let next = match here {
            None => best,
            Some(p) => if best matches Some(b) && worth_more(b, p) {
                best
            } else {
                Some(p)
            },
        };
        lemma_best(next, select, indexes, t, case_sensitive, k + 1);
        let r = best_from(best, select, indexes, t, keys, refs, likes, k);
        assert(r == best_from(next, select, indexes, t, keys, refs, likes, k + 1));
    }
}

/// No index offers a better plan than the one that is chosen: a better plan uses more conditions,
/// or as many and covers the query where the other does not, or is its equal in both and gives the
/// order where the other does not.
pub proof fn law_chosen_plan_unbeaten(
    select: SelectStmtView,
    t: TableView,
    indexes: Seq<IndexView>,
    case_sensitive: bool,
    i: int,
)
    requires
        select.from.len() == 1,
        0 <= i < indexes.len(),
        offered(select, indexes[i], t, case_sensitive) is Some,
    ensures
        chosen_plan(select, t, indexes, None, case_sensitive) matches Ok(Some(b)) && !worth_more(
            offered(select, indexes[i], t, case_sensitive)->0,
            b,
        ),
{
    reveal(chosen_plan);
    lemma_best(None, select, indexes, t, case_sensitive, 0);
}

/// The plan that is chosen without a hint is one that an index offers, and every index behind that
/// one offers less: of equal plans the one of the later index is chosen.
pub proof fn law_chosen_plan_offered(
    select: SelectStmtView,
    t: TableView,
    indexes: Seq<IndexView>,
    case_sensitive: bool,
)
    ensures
        chosen_plan(select, t, indexes, None, case_sensitive) matches Ok(Some(b)) ==> exists|i: int|
            0 <= i < indexes.len() && #[trigger] offered(select, indexes[i], t, case_sensitive)
                == Some(b) && stands_from(Some(b), select, indexes, t, case_sensitive, i + 1),
{
    reveal(chosen_plan);
    lemma_best(None, select, indexes, t, case_sensitive, 0);
}

/// `range` is a run of conditions that pin the leading columns of an index one by one, then at
/// most one lower and one upper bound on the column behind them.
pub open spec fn well_shaped(range: Seq<RangeKeyView>, cols: Seq<IndexColumnView>) -> bool {
    let p = pinned_from(range, 0);
    &&& p <= cols.len()
    &&& forall|i: int|
        0 <= i < p ==> pins((#[trigger] range[i]).op) && eq_nocase(range[i].column, cols[i].name)
    &&& range.len() <= p + 2
    &&& range.len() > p ==> p < cols.len()
    &&& forall|i: int|
        p <= i < range.len() ==> !pins((#[trigger] range[i]).op) && eq_nocase(
            range[i].column,
            cols[p].name,
        )
    &&& range.len() == p + 2 ==> is_bound(range[p].op, Bound::Lower) && is_bound(
        range[p + 1].op,
        Bound::Upper,
    )
}

proof fn lemma_condition(keys: Seq<RangeKeyView>, name: Seq<char>, bound: Bound, k: int)
    ensures
        condition_from(keys, name, bound, k) matches Some(key) ==> eq_nocase(key.column, name)
            && is_bound(key.op, bound),
    decreases keys.len() - k,
{
    if 0 <= k < keys.len() {
        lemma_condition(keys, name, bound, k + 1);
    }
}

proof fn lemma_pinned(range: Seq<RangeKeyView>, p: int, k: int)
    requires
        0 <= k <= p <= range.len(),
        forall|i: int| k <= i < p ==> pins((#[trigger] range[i]).op),
        p < range.len() ==> !pins(range[p].op),
    ensures
        pinned_from(range, k) == p,
    decreases p - k,
{
    if k < p {
        lemma_pinned(range, p, k + 1);
    }
}

proof fn lemma_range(
    acc: Seq<RangeKeyView>,
    cols: Seq<IndexColumnView>,
    t: TableView,
    keys: Seq<RangeKeyView>,
)
    requires
        acc.len() <= cols.len(),
        forall|i: int|
            0 <= i < acc.len() ==> pins((#[trigger] acc[i]).op) && eq_nocase(
                acc[i].column,
                cols[i].name,
            ),
    ensures
        well_shaped(range_from(acc, cols, t, keys, acc.len() as int), cols),
    decreases cols.len() - acc.len(),
{
    let k = acc.len() as int;
    let r = range_from(acc, cols, t, keys, k);
    if k >= cols.len() || t.column_index(cols[k].name) is None {
        lemma_pinned(r, k, 0);
    } else {
        lemma_condition(keys, cols[k].name, Bound::Pinned, 0);
        lemma_condition(keys, cols[k].name, Bound::Lower, 0);
        lemma_condition(keys, cols[k].name, Bound::Upper, 0);
        match condition_from(keys, cols[k].name, Bound::Pinned, 0) {
            Some(key) => {
                lemma_range(acc.push(key), cols, t, keys);
            },
            None => {
                lemma_pinned(r, k, 0);
            },
        }
    }
}

/// The range of a chosen plan pins leading columns of its index and then bounds at most one
/// column, from below, from above or both: past a bounded column the order is not known.
pub proof fn law_range_shape(
    select: SelectStmtView,
    t: TableView,
    indexes: Seq<IndexView>,
    hint: Option<IndexedByView>,
    case_sensitive: bool,
)
    ensures
        chosen_plan(select, t, indexes, hint, case_sensitive) matches Ok(Some(p)) ==> well_shaped(
            p.range,
            p.index.columns,
        ),
{
    reveal(chosen_plan);
    reveal(plan_of);
    let likes = where_like_ranges(select.where_clause, t, case_sensitive);
    let keys = conditions(select.where_clause, likes);
    assert forall|ix: IndexView| #[trigger]
        well_shaped(range_from(Seq::empty(), ix.columns, t, keys, 0), ix.columns) by {
        lemma_range(Seq::empty(), ix.columns, t, keys);
    }
    assert forall|ix: IndexView| well_shaped(Seq::empty(), #[trigger] ix.columns) by {
        lemma_pinned(Seq::empty(), 0, 0);
    }
    if hint is None {
        lemma_best(None, select, indexes, t, case_sensitive, 0);
    }
}

/// A plan that no hint asks for is never marked as one whose rows are to be sorted, and it helps:
/// it narrows the scan, gives the order, or reads the index alone.
pub proof fn law_chosen_plan_helps(
    select: SelectStmtView,
    t: TableView,
    indexes: Seq<IndexView>,
    case_sensitive: bool,
)
    ensures
        chosen_plan(select, t, indexes, None, case_sensitive) matches Ok(Some(p)) ==> {
            &&& !p.needs_sorter
            &&& p.range.len() > 0 || p.order_by_satisfied || p.covering
            &&& p.order_by_satisfied ==> order_fits(
                select.order_by,
                p.index.columns,
                t,
                pinned_from(p.range, 0),
            )
            &&& p.covering ==> covers(p.index.columns, t, referenced(select, t))
        },
{
    reveal(chosen_plan);
    reveal(plan_of);
    lemma_best(None, select, indexes, t, case_sensitive, 0);
}

/// The mathematical value of an optional plan.
pub open spec fn opt_plan_view(o: Option<IndexPlan>) -> Option<IndexPlanView> {
    match o {
        None => None,
        Some(p) => Some(p@),
    }
}

fn is_better(p: &IndexPlan, b: &IndexPlan) -> (r: bool)
    ensures
        r == worth_more(p@, b@),
{
    let n: usize = b.range.len();
    p.range.len() > n || (p.range.len() == n && p.covering && !b.covering) || (p.range.len() == n
        && p.covering == b.covering && p.order_by_satisfied && !b.order_by_satisfied)
}

fn as_candidate(p: IndexPlan, select: &SelectStmt, table: &Table, refs: &Vec<usize>) -> (r: Option<
    IndexPlan,
>)
    ensures
        opt_plan_view(r) == candidate(p@, select@, table@, refs@),
{
    assert(select@.order_by == ordering_terms_view(select.order_by@));
    if !(p.range.len() > 0 || p.order_by_satisfied || (p.covering && refs.len() > 0
        && index_strictly_smaller_than_table(&p.index, table))) {
        return None;
    }
    if select.order_by.len() > 0 && !p.order_by_satisfied && p.range.len() == 0 {
        return None;
    }
    Some(p)
}

fn find_index(indexes: &[IndexObject], name: &str) -> (r: Option<usize>)
    ensures
        match r {
            Some(k) => k < indexes@.len() && index_named(indexes_view(indexes@), name@, 0) == Some(
                k as int,
            ),
            None => index_named(indexes_view(indexes@), name@, 0) is None,
        },
{
    for k in 0..indexes.len()
        invariant
            index_named(indexes_view(indexes@), name@, 0) == index_named(
                indexes_view(indexes@),
                name@,
                k as int,
            ),
    {
        assert(indexes_view(indexes@)[k as int] == indexes@[k as int]@);
        if eq_ignore_case(indexes[k].name.as_str(), name) {
            return Some(k);
        }
    }
    None
}

fn pick_best(
    select: &SelectStmt,
    indexes: &[IndexObject],
    table: &Table,
    constraints: &Vec<RangeKey>,
    refs: &Vec<usize>,
    likes: &Vec<LikeOpt>,
) -> (r: Option<IndexPlan>)
    ensures
        opt_plan_view(r) == best_from(
            None,
            select@,
            indexes_view(indexes@),
            table@,
            keys_view(constraints@),
            refs@,
            like_opts_view(likes@),
            0,
        ),
{
    let ghost ixs = indexes_view(indexes@);
    let ghost keys = keys_view(constraints@);
    let ghost ls = like_opts_view(likes@);
    let ghost sv = select@;
    let mut best: Option<IndexPlan> = None;
    let ghost want = best_from(None, sv, ixs, table@, keys, refs@, ls, 0);
    for k in 0..indexes.len()
        invariant
            ixs == indexes_view(indexes@),
            keys == keys_view(constraints@),
            ls == like_opts_view(likes@),
            sv == select@,
            sv.where_clause == opt_expr_view(select.where_clause),
            best_from(opt_plan_view(best), sv, ixs, table@, keys, refs@, ls, k as int) == want,
    {
        assert(ixs[k as int] == indexes@[k as int]@);
        if partial_index_usable(&indexes[k], &select.where_clause) {
            let plan = plan_for_index(select, &indexes[k], table, constraints, refs, likes, false);
            if let Some(p) = as_candidate(plan, select, table, refs) {
                let keep = match &best {
                    Some(b) => is_better(b, &p),
                    None => false,
                };
                if !keep {
                    best = Some(p);
                }
            }
        }
    }
    best
}

/// Choose the index that a query reads, if any.
pub fn pick_index(
    select: &SelectStmt,
    table: &Table,
    indexes: &[IndexObject],
    hint: Option<&IndexedBy>,
    case_sensitive_like: bool,
) -> (r: Result<Option<IndexPlan>, Error>)
    ensures
        match r {
            Ok(p) => chosen_plan(
                select@,
                table@,
                indexes_view(indexes@),
                hint_view(hint),
                case_sensitive_like,
            ) == Ok::<Option<IndexPlanView>, Seq<char>>(opt_plan_view(p)),
            Err(m) => chosen_plan(
                select@,
                table@,
                indexes_view(indexes@),
                hint_view(hint),
                case_sensitive_like,
            ) == Err::<Option<IndexPlanView>, Seq<char>>(m@),
        },
{
    reveal(chosen_plan);
    assert(select@.from.len() == select.from@.len());
    assert(select@.where_clause == opt_expr_view(select.where_clause));
    let forced: Option<usize> = match hint {
        Some(IndexedBy::Index(name)) => match find_index(indexes, name.as_str()) {
            None => {
                return Err(Error::msg(cat2("no such index: ", name.as_str())));
            },
            Some(k) => Some(k),
        },
        Some(IndexedBy::NotIndexed) => {
            return Ok(None);
        },
        None => None,
    };
    if select.from.len() != 1 {
        return Ok(None);
    }
    let likes = collect_like_opts(&select.where_clause, table, case_sensitive_like);
    let constraints = collect_conditions(&select.where_clause, &likes);
    let refs = collect_referenced_columns(select, table);
    match forced {
        Some(k) => {
            assert(indexes_view(indexes@)[k as int] == indexes@[k as int]@);
            Ok(
                Some(
                    plan_for_index(
                        select,
                        &indexes[k],
                        table,
                        &constraints,
                        &refs,
                        &likes,
                        true,
                    ),
                ),
            )
        },
        None => Ok(pick_best(select, indexes, table, &constraints, &refs, &likes)),
    }
}

} // verus!
