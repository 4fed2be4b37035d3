//! What expressions mean, and that their code computes it.
//!
//! [`value`] is the value of an expression in a row, by the rules of the language: operators take
//! the values of their operands, comparisons with NULL are unknown, and `AND`, `OR` and `NOT`
//! follow the three-valued tables. [`law_expression_code`] and [`law_jump_code`] relate it to the
//! instructions that an expression compiles to.
use vstd::prelude::*;

use crate::ast::{BinaryOp, ExprView, FunctionArgsView, LiteralView, UnaryOp};
use crate::builder::{group_asm, reg_at, Asm};
use crate::expr::{
    gen_between, gen_binary, gen_call, gen_coalesce, gen_comparison_jump, gen_expr, gen_expr_list,
    gen_jump, gen_literal, gen_logic_jump, gen_operator, gen_range, gen_range_jump, gen_unary,
    gen_value_jump, json_path, negated_bits,
};
use crate::machine::{
    and3, block, compared, field, group_grows, group_settled, grows, lemma_grows_neat,
    lemma_grows_through, lemma_reaches_self, lemma_reaches_step, lemma_reaches_through,
    lemma_settles_early, neat, not3, nth, or3, place, reaches, rowid_of, run, same_value, settles,
    truth, truth_value, State, Val, Values,
};
use crate::returning::row_ctx;
use crate::schema::{column_from, ColumnRef, ColumnView, FunctionsView, TableView};
use crate::scope::{between_affinity, comparison_p4, gen_column, joint_affinity, table_ctx, CtxView};
use crate::vdbe::{
    affinity_bits, Affinity, InstView, Opcode, P4View, P5_JUMPIFNULL, P5_NULLEQ, P5_STOREP2,
};

verus! {

broadcast use group_asm;

// ---- The meaning of expressions ----

/// What the names of an expression stand for.
pub ghost struct Env {
    pub m: Values,
    /// The tables in scope: they decide the affinity and the collation of comparisons.
    pub ctx: CtxView,
    /// The value of a column, by its qualifier and its name.
    pub column: spec_fn(Option<Seq<char>>, Seq<char>) -> Val,
    /// The value in a register that an expression refers to.
    pub slot: spec_fn(i32) -> Val,
}

/// The value of a literal.
pub open spec fn literal_value(lit: LiteralView) -> Val {
    match lit {
        LiteralView::Null => Val::Null,
        LiteralView::Integer(n) => Val::Int(n),
        LiteralView::Real(r) => Val::Real(r.bits),
        LiteralView::Text(t) => Val::Text(t),
        LiteralView::Blob(b) => Val::Blob(b),
        LiteralView::Bool(b) => Val::Int(
            if b {
                1
            } else {
                0
            },
        ),
    }
}

/// The operator compares its operands.
pub open spec fn is_comparison(op: BinaryOp) -> bool {
    op == BinaryOp::Eq || op == BinaryOp::Ne || op == BinaryOp::Lt || op == BinaryOp::Le || op
        == BinaryOp::Gt || op == BinaryOp::Ge || op == BinaryOp::Is || op == BinaryOp::IsNot
}

/// The truth of a comparison. `IS` and `IS NOT` take NULL for a value like any other; any other
/// comparison with NULL is unknown.
pub open spec fn comparison(m: Values, op: BinaryOp, l: Val, r: Val, p4: P4View, aff: u8) -> Option<
    bool,
> {
    let sign = (m.order)(l, r, p4, aff);
    if op == BinaryOp::Is {
        Some(same_value(m, l, r, p4, aff))
    } else if op == BinaryOp::IsNot {
        Some(!same_value(m, l, r, p4, aff))
    } else if l is Null || r is Null {
        None
    } else if op == BinaryOp::Eq {
        Some(sign == 0)
    } else if op == BinaryOp::Ne {
        Some(sign != 0)
    } else if op == BinaryOp::Lt {
        Some(sign < 0)
    } else if op == BinaryOp::Le {
        Some(sign <= 0)
    } else if op == BinaryOp::Gt {
        Some(sign > 0)
    } else {
        Some(sign >= 0)
    }
}

/// The truth of `x BETWEEN lo AND hi`: of `x >= lo AND x <= hi`.
pub open spec fn within(m: Values, x: Val, lo: Val, hi: Val, negated: bool, aff: u8) -> Option<
    bool,
> {
    let t = and3(
        comparison(m, BinaryOp::Ge, x, lo, P4View::Unused, aff),
        comparison(m, BinaryOp::Le, x, hi, P4View::Unused, aff),
    );
    if negated {
        not3(t)
    } else {
        t
    }
}

/// The value of an expression.
pub open spec fn value(e: ExprView, env: Env) -> Val
    decreases e, 0int,
{
    match e {
        ExprView::Literal(lit) => literal_value(lit),
        ExprView::Column { schema, table, name } => (env.column)(table, name),
        ExprView::Unary { op, expr } => match op {
            UnaryOp::Negate => match *expr {
                ExprView::Literal(LiteralView::Integer(n)) => if n == i64::MIN {
                    (env.m.arith)(BinaryOp::Sub, Val::Int(0), Val::Int(n))
                } else {
                    Val::Int((-n) as i64)
                },
                ExprView::Literal(LiteralView::Real(r)) => Val::Real(negated_bits(r.bits)),
                _ => (env.m.arith)(BinaryOp::Sub, Val::Int(0), value(*expr, env)),
            },
            UnaryOp::Positive => value(*expr, env),
            UnaryOp::Not => truth_value(not3(truth(env.m, value(*expr, env)))),
            UnaryOp::BitNot => (env.m.bit_not)(value(*expr, env)),
        },
        ExprView::Binary { op, left, right } => {
            let l = value(*left, env);
            let r = value(*right, env);
            match op {
                BinaryOp::And => truth_value(and3(truth(env.m, l), truth(env.m, r))),
                BinaryOp::Or => truth_value(or3(truth(env.m, l), truth(env.m, r))),
                BinaryOp::Like => (env.m.call)("like"@, seq![r, l]),
                BinaryOp::Glob => (env.m.call)("glob"@, seq![r, l]),
                BinaryOp::JsonExtract => (env.m.call)(
                    "_json_arrow"@,
                    seq![l, path_value(*right, r)],
                ),
                BinaryOp::JsonExtractText => (env.m.call)(
                    "_json_arrow_text"@,
                    seq![l, path_value(*right, r)],
                ),
                _ => if is_comparison(op) {
                    truth_value(
                        comparison(
                            env.m,
                            op,
                            l,
                            r,
                            comparison_p4(*left, *right, env.ctx),
                            affinity_bits(joint_affinity(*left, *right, env.ctx.table)),
                        ),
                    )
                } else {
                    (env.m.arith)(op, l, r)
                },
            }
        },
        ExprView::Function { name, distinct, args, filter, over } => match args {
            FunctionArgsView::Star => Val::Null,
            FunctionArgsView::List(es) => (env.m.call)(name, values_from(es, env, 0)),
        },
        ExprView::Between { expr, low, high, negated } => truth_value(
            within(
                env.m,
                value(*expr, env),
                value(*low, env),
                value(*high, env),
                negated,
                affinity_bits(between_affinity(*expr, *low, *high, env.ctx.table)),
            ),
        ),
        ExprView::Collate { expr, collation } => value(*expr, env),
        ExprView::AggRef(reg) => (env.slot)(reg),
        ExprView::Coalesce2 { left, right } => if value(*left, env) is Null {
            value(*right, env)
        } else {
            value(*left, env)
        },
        _ => Val::Null,
    }
}

/// The values of `es[k..]`.
pub open spec fn values_from(es: Seq<ExprView>, env: Env, k: int) -> Seq<Val>
    decreases es, es.len() - k,
{
    if k < 0 || k >= es.len() {
        Seq::empty()
    } else {
        seq![value(es[k], env)] + values_from(es, env, k + 1)
    }
}

/// The path that the right operand of `->` gives: a literal is brought into the form of a path.
pub open spec fn path_value(e: ExprView, v: Val) -> Val {
    match json_path(e) {
        Some(p) => Val::Text(p),
        None => v,
    }
}

/// A jump on a condition is taken: the condition has the truth value asked for, or is unknown
/// where the unknown jumps too.
pub open spec fn taken(t: Option<bool>, when_true: bool, when_null: bool) -> bool {
    match t {
        Some(b) => b == when_true,
        None => when_null,
    }
}

/// A row is kept: there is no condition, or it is true.
pub open spec fn kept(condition: Option<ExprView>, env: Env) -> bool {
    match condition {
        Some(e) => truth(env.m, value(e, env)) == Some(true),
        None => true,
    }
}

// ---- How much room an expression takes ----

/// A bound on the registers that the code of an expression takes.
pub open spec fn weight(e: ExprView) -> nat
    decreases e, 0int,
{
    match e {
        ExprView::Unary { op, expr } => 2 + weight(*expr),
        ExprView::Binary { op, left, right } => 2 + weight(*left) + weight(*right),
        ExprView::Function { name, distinct, args, filter, over } => match args {
            FunctionArgsView::Star => 0,
            FunctionArgsView::List(es) => es.len() + weight_from(es, 0),
        },
        ExprView::Between { expr, low, high, negated } => 3 + weight(*expr) + weight(*low) + weight(
            *high,
        ),
        ExprView::Collate { expr, collation } => weight(*expr),
        ExprView::Coalesce2 { left, right } => weight(*left) + weight(*right),
        _ => 0,
    }
}

/// The same, for `es[k..]`.
pub open spec fn weight_from(es: Seq<ExprView>, k: int) -> nat
    decreases es, es.len() - k,
{
    if k < 0 || k >= es.len() {
        0
    } else {
        weight(es[k]) + weight_from(es, k + 1)
    }
}

/// No call in the expression has more arguments than an instruction can count, and the registers
/// that it refers to are below `lo`.
pub open spec fn tame(e: ExprView, lo: int) -> bool
    decreases e, 0int,
{
    match e {
        ExprView::Unary { op, expr } => tame(*expr, lo),
        ExprView::Binary { op, left, right } => tame(*left, lo) && tame(*right, lo),
        ExprView::Function { name, distinct, args, filter, over } => match args {
            FunctionArgsView::Star => true,
            FunctionArgsView::List(es) => es.len() <= u8::MAX && tame_from(es, lo, 0),
        },
        ExprView::Between { expr, low, high, negated } => tame(*expr, lo) && tame(*low, lo) && tame(
            *high,
            lo,
        ),
        ExprView::Collate { expr, collation } => tame(*expr, lo),
        ExprView::Coalesce2 { left, right } => tame(*left, lo) && tame(*right, lo),
        ExprView::AggRef(reg) => reg < lo,
        _ => true,
    }
}

/// The same, for `es[k..]`.
pub open spec fn tame_from(es: Seq<ExprView>, lo: int, k: int) -> bool
    decreases es, es.len() - k,
{
    if k < 0 || k >= es.len() {
        true
    } else {
        tame(es[k], lo) && tame_from(es, lo, k + 1)
    }
}

/// What is tame below one register is tame below any higher one.
pub proof fn lemma_tame_higher(e: ExprView, lo: int, hi: int)
    requires
        tame(e, lo),
        lo <= hi,
    ensures
        tame(e, hi),
    decreases e, 0int,
{
    match e {
        ExprView::Unary { op, expr } => lemma_tame_higher(*expr, lo, hi),
        ExprView::Binary { op, left, right } => {
            lemma_tame_higher(*left, lo, hi);
            lemma_tame_higher(*right, lo, hi);
        },
        ExprView::Function { name, distinct, args, filter, over } => {
            if let FunctionArgsView::List(es) = args {
                assert(decreases_to!(e => args));
                assert(decreases_to!(args => es));
                lemma_tame_list_higher(es, lo, hi, 0);
            }
        },
        ExprView::Between { expr, low, high, negated } => {
            lemma_tame_higher(*expr, lo, hi);
            lemma_tame_higher(*low, lo, hi);
            lemma_tame_higher(*high, lo, hi);
        },
        ExprView::Collate { expr, collation } => lemma_tame_higher(*expr, lo, hi),
        ExprView::Coalesce2 { left, right } => {
            lemma_tame_higher(*left, lo, hi);
            lemma_tame_higher(*right, lo, hi);
        },
        _ => {},
    }
}

proof fn lemma_tame_list_higher(es: Seq<ExprView>, lo: int, hi: int, k: int)
    requires
        tame_from(es, lo, k),
        lo <= hi,
    ensures
        tame_from(es, hi, k),
    decreases es, es.len() - k,
{
    if 0 <= k < es.len() {
        lemma_tame_higher(es[k], lo, hi);
        lemma_tame_list_higher(es, lo, hi, k + 1);
    }
}

// ---- The code of an expression grows the program ----

/// `t` is what the code of an expression of weight `w` makes of `s`.
pub open spec fn follows(s: Asm, t: Asm, w: nat) -> bool {
    &&& grows(s, t)
    &&& t.err is None && 0 <= s.next_reg && s.next_reg + w <= i32::MAX ==> s.next_reg <= t.next_reg
        <= s.next_reg + w
}

pub proof fn lemma_take(s: Asm, n: i32)
    requires
        s.err is None,
    ensures
        0 <= n && s.next_reg + n <= i32::MAX ==> s.take_regs(n).next_reg == s.next_reg + n,
        grows(s, s.take_regs(n)),
{
    broadcast use group_grows;

    reveal(Asm::take_regs);
}

proof fn lemma_column_follows(
    s: Asm,
    q: Option<Seq<char>>,
    name: Seq<char>,
    target: i32,
    ctx: CtxView,
)
    ensures
        follows(s, gen_column(s, q, name, target, ctx), 0),
{
    broadcast use group_grows;

    reveal(gen_column);
}

proof fn lemma_literal_follows(s: Asm, lit: LiteralView, target: i32)
    ensures
        follows(s, gen_literal(s, lit, target), 0),
{
    broadcast use group_grows;

    reveal(gen_literal);
}

/// The code of an expression only adds to the program.
pub proof fn lemma_expr_follows(s: Asm, e: ExprView, target: i32, ctx: CtxView)
    ensures
        follows(s, gen_expr(s, e, target, ctx), weight(e)),
    decreases e, 1int,
{
    broadcast use group_grows;

    reveal(gen_expr);
    if s.err is None {
        match e {
            ExprView::Literal(lit) => lemma_literal_follows(s, lit, target),
            ExprView::Column { schema, table, name } => {
                lemma_column_follows(s, table, name, target, ctx)
            },
            ExprView::Unary { op, expr } => lemma_unary_follows(s, e, target, ctx),
            ExprView::Binary { op, left, right } => lemma_binary_follows(s, e, target, ctx),
            ExprView::Function { name, distinct, args, filter, over } => {
                lemma_call_follows(s, e, target, ctx)
            },
            ExprView::Between { expr, low, high, negated } => {
                lemma_range_follows(s, e, target, ctx)
            },
            ExprView::Collate { expr, collation } => lemma_expr_follows(s, *expr, target, ctx),
            ExprView::Coalesce2 { left, right } => lemma_coalesce_follows(s, e, target, ctx),
            _ => {},
        }
    }
}

pub proof fn lemma_fresh_grows(s: Asm, t: Asm)
    requires
        grows(s, t),
        t.err is None,
    ensures
        s.err is None,
        s.fresh() <= t.fresh(),
        s.code.len() <= t.code.len(),
        forall|l: int| 0 <= l < s.fresh() ==> #[trigger] t.bound(l) == s.bound(l),
{
    reveal(grows);
    reveal(Asm::fresh);
    reveal(Asm::bound);
    assert forall|l: int| 0 <= l < s.fresh() implies #[trigger] t.bound(l) == s.bound(l) by {
        assert(t.labels.take(s.labels.len() as int)[l] == t.labels[l]);
    }
}

pub proof fn lemma_list_follows(s: Asm, es: Seq<ExprView>, base: i32, ctx: CtxView, k: int)
    ensures
        follows(s, gen_expr_list(s, es, base, ctx, k), weight_from(es, k)),
    decreases es, es.len() - k,
{
    reveal(gen_expr);
    broadcast use group_grows;

    if s.err is Some || k < 0 || k >= es.len() {
    } else {
        let s1 = gen_expr(s, es[k], reg_at(base, k), ctx);
        lemma_expr_follows(s, es[k], reg_at(base, k), ctx);
        lemma_list_follows(s1, es, base, ctx, k + 1);
        lemma_grows_through(s, s1, gen_expr_list(s1, es, base, ctx, k + 1));
        if gen_expr_list(s1, es, base, ctx, k + 1).err is None {
            lemma_fresh_grows(s1, gen_expr_list(s1, es, base, ctx, k + 1));
        }
    }
}

proof fn lemma_call_follows(s: Asm, e: ExprView, target: i32, ctx: CtxView)
    requires
        s.err is None,
    ensures
        e is Function ==> follows(s, gen_call(s, e, target, ctx), weight(e)),
    decreases e, 0int,
{
    broadcast use group_grows;

    reveal(gen_expr);
    match e {
        ExprView::Function { name, distinct, args, filter, over } => match args {
            FunctionArgsView::Star => {},
            FunctionArgsView::List(es) => {
                let n = es.len() as i32;
                let s1 = s.take_regs(n);
                lemma_take(s, n);
                lemma_list_follows(s1, es, s.next_reg, ctx, 0);
                let s2 = gen_expr_list(s1, es, s.next_reg, ctx, 0);
                lemma_grows_through(s, s1, s2);
                assert(follows(s, s2, weight(e)));
            },
        },
        _ => {},
    }
}

proof fn lemma_coalesce_follows(s: Asm, e: ExprView, target: i32, ctx: CtxView)
    requires
        s.err is None,
    ensures
        e is Coalesce2 ==> follows(s, gen_coalesce(s, e, target, ctx), weight(e)),
    decreases e, 0int,
{
    broadcast use group_grows;

    reveal(gen_expr);
    match e {
        ExprView::Coalesce2 { left, right } => {
            let s1 = gen_expr(s, *left, target, ctx);
            let l = s1.fresh();
            let s2 = s1.label().jump(Opcode::NotNull, target, l, 0);
            let s3 = gen_expr(s2, *right, target, ctx);
            lemma_expr_follows(s, *left, target, ctx);
            lemma_expr_follows(s2, *right, target, ctx);
            assert(follows(s, s2, weight(*left)));
            lemma_follows_through(s, s2, s3, weight(*left), weight(*right));
            if s3.err is None {
                lemma_fresh_grows(s2, s3);
                lemma_fresh_grows(s, s1);
            }
        },
        _ => {},
    }
}

proof fn lemma_unary_follows(s: Asm, e: ExprView, target: i32, ctx: CtxView)
    requires
        s.err is None,
    ensures
        e is Unary ==> follows(s, gen_unary(s, e, target, ctx), weight(e)),
    decreases e, 0int,
{
    reveal(gen_expr);
    broadcast use group_grows;

    match e {
        ExprView::Unary { op, expr } => {
            let tmp = s.next_reg;
            let s1 = s.take_regs(1);
            lemma_take(s, 1);
            lemma_expr_follows(s1, *expr, tmp, ctx);
            lemma_expr_follows(s, *expr, target, ctx);
            let s2 = gen_expr(s1, *expr, tmp, ctx);
            lemma_grows_through(s, s1, s2);
            if s2.err is None {
                lemma_take(s2, 1);
            }
            match crate::expr::negated_literal(*expr) {
                Some(lit) => lemma_literal_follows(s, lit, target),
                None => {},
            }
        },
        _ => {},
    }
}

pub proof fn lemma_follows_through(s: Asm, t: Asm, u: Asm, w: nat, x: nat)
    requires
        follows(s, t, w),
        follows(t, u, x),
    ensures
        follows(s, u, w + x),
{
    lemma_grows_through(s, t, u);
    if u.err is None {
        lemma_fresh_grows(t, u);
    }
}

/// An operand in a register of its own.
pub open spec fn gen_operand(s: Asm, e: ExprView, ctx: CtxView) -> Asm {
    gen_expr(s.take_regs(1), e, s.next_reg, ctx)
}

proof fn lemma_operand_follows(s: Asm, e: ExprView, ctx: CtxView)
    ensures
        follows(s, gen_operand(s, e, ctx), 1 + weight(e)),
    decreases e, 2int,
{
    broadcast use group_grows;

    if s.err is None {
        lemma_take(s, 1);
    }
    lemma_expr_follows(s.take_regs(1), e, s.next_reg, ctx);
    assert(grows(s, s.take_regs(1)));
    assert(follows(s, s.take_regs(1), 1));
    lemma_follows_through(s, s.take_regs(1), gen_operand(s, e, ctx), 1, weight(e));
}

proof fn lemma_binary_follows(s: Asm, e: ExprView, target: i32, ctx: CtxView)
    requires
        s.err is None,
    ensures
        e is Binary ==> follows(s, gen_binary(s, e, target, ctx), weight(e)),
    decreases e, 0int,
{
    reveal(gen_expr);
    broadcast use group_grows;

    match e {
        ExprView::Binary { op, left, right } => {
            let start = s.next_reg;
            let s2 = s.take_regs(2);
            lemma_take(s, 2);
            assert(follows(s, s2, 2));
            if op == BinaryOp::Like || op == BinaryOp::Glob {
                lemma_expr_follows(s2, *right, start, ctx);
                let s3 = gen_expr(s2, *right, start, ctx);
                lemma_follows_through(s, s2, s3, 2, weight(*right));
                lemma_expr_follows(s3, *left, reg_at(start, 1), ctx);
                let s4 = gen_expr(s3, *left, reg_at(start, 1), ctx);
                lemma_follows_through(s, s3, s4, 2 + weight(*right), weight(*left));
            } else if op == BinaryOp::JsonExtract || op == BinaryOp::JsonExtractText {
                lemma_expr_follows(s2, *left, start, ctx);
                let s3 = gen_expr(s2, *left, start, ctx);
                lemma_follows_through(s, s2, s3, 2, weight(*left));
                lemma_expr_follows(s3, *right, reg_at(start, 1), ctx);
                let s4 = gen_expr(s3, *right, reg_at(start, 1), ctx);
                lemma_follows_through(s, s3, s4, 2 + weight(*left), weight(*right));
            } else if op == BinaryOp::Regexp || op == BinaryOp::Match {
            } else {
                let rl = s.next_reg;
                let s1 = gen_operand(s, *left, ctx);
                let rr = s1.next_reg;
                let s2 = gen_operand(s1, *right, ctx);
                lemma_operand_follows(s, *left, ctx);
                lemma_operand_follows(s1, *right, ctx);
                lemma_follows_through(s, s1, s2, 1 + weight(*left), 1 + weight(*right));
                reveal(gen_operator);
            }
        },
        _ => {},
    }
}

proof fn lemma_three_follow(s: Asm, a: ExprView, b: ExprView, c: ExprView, ctx: CtxView)
    requires
        follows(s, gen_operand(s, a, ctx), 1 + weight(a)),
        follows(
            gen_operand(s, a, ctx),
            gen_operand(gen_operand(s, a, ctx), b, ctx),
            1 + weight(b),
        ),
        follows(
            gen_operand(gen_operand(s, a, ctx), b, ctx),
            gen_operand(gen_operand(gen_operand(s, a, ctx), b, ctx), c, ctx),
            1 + weight(c),
        ),
    ensures
        follows(
            s,
            gen_operand(gen_operand(gen_operand(s, a, ctx), b, ctx), c, ctx),
            3 + weight(a) + weight(b) + weight(c),
        ),
{
    let s1 = gen_operand(s, a, ctx);
    let s2 = gen_operand(s1, b, ctx);
    let s3 = gen_operand(s2, c, ctx);
    lemma_follows_through(s, s1, s2, 1 + weight(a), 1 + weight(b));
    lemma_follows_through(s, s2, s3, 2 + weight(a) + weight(b), 1 + weight(c));
}

proof fn lemma_between_follows(
    s: Asm,
    r: i32,
    lo: i32,
    hi: i32,
    aff: Option<crate::vdbe::Affinity>,
    negated: bool,
    target: i32,
)
    ensures
        follows(s, gen_between(s, r, lo, hi, aff, negated, target), 0),
{
    broadcast use group_grows;

    reveal(gen_between);
}

proof fn lemma_range_follows(s: Asm, e: ExprView, target: i32, ctx: CtxView)
    requires
        s.err is None,
    ensures
        e is Between ==> follows(s, gen_range(s, e, target, ctx), weight(e)),
    decreases e, 0int,
{
    reveal(gen_expr);
    match e {
        ExprView::Between { expr, low, high, negated } => {
            let s1 = gen_operand(s, *expr, ctx);
            let s2 = gen_operand(s1, *low, ctx);
            let s3 = gen_operand(s2, *high, ctx);
            lemma_operand_follows(s, *expr, ctx);
            lemma_operand_follows(s1, *low, ctx);
            lemma_operand_follows(s2, *high, ctx);
            lemma_three_follow(s, *expr, *low, *high, ctx);
            let aff = between_affinity(*expr, *low, *high, ctx.table);
            lemma_between_follows(s3, s.next_reg, s1.next_reg, s2.next_reg, aff, negated, target);
            lemma_follows_through(
                s,
                s3,
                gen_between(s3, s.next_reg, s1.next_reg, s2.next_reg, aff, negated, target),
                weight(e),
                0,
            );
        },
        _ => {},
    }
}

proof fn lemma_logic_follows(
    s: Asm,
    e: ExprView,
    d: int,
    when_true: bool,
    when_null: bool,
    ctx: CtxView,
)
    requires
        s.err is None,
    ensures
        e matches ExprView::Binary { op, left, right } && (op == BinaryOp::And || op
            == BinaryOp::Or) ==> follows(
            s,
            gen_logic_jump(s, e, d, when_true, when_null, ctx),
            1 + weight(e),
        ),
    decreases e, 0int,
{
    broadcast use group_grows;

    reveal(gen_jump);
    match e {
        ExprView::Binary { op, left, right } => {
            if when_true == (op == BinaryOp::Or) {
                let s1 = gen_jump(s, *left, d, when_true, when_null, ctx);
                lemma_jump_follows(s, *left, d, when_true, when_null, ctx);
                lemma_jump_follows(s1, *right, d, when_true, when_null, ctx);
                lemma_follows_through(
                    s,
                    s1,
                    gen_jump(s1, *right, d, when_true, when_null, ctx),
                    1 + weight(*left),
                    1 + weight(*right),
                );
            } else {
                let d2 = s.fresh();
                let s1 = gen_jump(s.label(), *left, d2, !when_true, !when_null, ctx);
                lemma_jump_follows(s.label(), *left, d2, !when_true, !when_null, ctx);
                let s2 = gen_jump(s1, *right, d, when_true, when_null, ctx);
                lemma_jump_follows(s1, *right, d, when_true, when_null, ctx);
                assert(follows(s, s.label(), 0));
                lemma_follows_through(s, s.label(), s1, 0, 1 + weight(*left));
                lemma_follows_through(s, s1, s2, 1 + weight(*left), 1 + weight(*right));
                assert(follows(s, s2.bind(d2), 1 + weight(e)));
            }
        },
        _ => {},
    }
}

/// The code of a jump only adds to the program.
pub proof fn lemma_jump_follows(
    s: Asm,
    e: ExprView,
    d: int,
    when_true: bool,
    when_null: bool,
    ctx: CtxView,
)
    ensures
        follows(s, gen_jump(s, e, d, when_true, when_null, ctx), 1 + weight(e)),
    decreases e, 1int,
{
    broadcast use group_grows;

    reveal(gen_jump);
    if s.err is None {
        match e {
            ExprView::Binary { op, left, right } => if op == BinaryOp::And || op == BinaryOp::Or {
                lemma_logic_follows(s, e, d, when_true, when_null, ctx);
            } else if crate::expr::comparison_op(op) is Some {
                reveal(gen_comparison_jump);
                let s1 = gen_operand(s, *left, ctx);
                let s2 = gen_operand(s1, *right, ctx);
                lemma_operand_follows(s, *left, ctx);
                lemma_operand_follows(s1, *right, ctx);
                lemma_follows_through(s, s1, s2, 1 + weight(*left), 1 + weight(*right));
            } else {
                reveal(gen_value_jump);
                lemma_operand_follows(s, e, ctx);
            },
            ExprView::Unary { op, expr } => if op == UnaryOp::Not {
                lemma_jump_follows(s, *expr, d, !when_true, when_null, ctx);
            } else {
                reveal(gen_value_jump);
                lemma_operand_follows(s, e, ctx);
            },
            ExprView::Between { expr, low, high, negated } => {
                reveal(gen_range_jump);
                let s1 = gen_operand(s, *expr, ctx);
                let s2 = gen_operand(s1, *low, ctx);
                let s3 = gen_operand(s2, *high, ctx);
                lemma_operand_follows(s, *expr, ctx);
                lemma_operand_follows(s1, *low, ctx);
                lemma_operand_follows(s2, *high, ctx);
                lemma_three_follow(s, *expr, *low, *high, ctx);
                if s3.err is None {
                    lemma_fresh_grows(s, s3);
                }
            },
            _ => {
                reveal(gen_value_jump);
                lemma_operand_follows(s, e, ctx);
            },
        }
    }
}

// ---- The code of an expression computes its value ----

/// `b` differs from `a` at most in the address of the next instruction, in register `t` and in
/// registers from `n` on.
pub open spec fn same_but(a: State, b: State, n: i32, t: i32) -> bool {
    &&& b == (State { pc: b.pc, regs: b.regs, ..a })
    &&& forall|r: i32| r < n && r != t ==> #[trigger] b.regs[r] == a.regs[r]
}

/// `b` differs from `a` at most in the address of the next instruction and in registers from `n`
/// on.
pub open spec fn agrees(a: State, b: State, n: i32) -> bool {
    &&& b == (State { pc: b.pc, regs: b.regs, ..a })
    &&& forall|r: i32| r < n ==> #[trigger] b.regs[r] == a.regs[r]
}

/// The code of a column, laid out after `s`, brings the value of the column.
pub open spec fn brings_column(
    env: Env,
    big: Asm,
    s: Asm,
    q: Option<Seq<char>>,
    name: Seq<char>,
    target: i32,
    st: State,
) -> bool {
    let t = gen_column(s, q, name, target, env.ctx);
    neat(s) && settles(t, big) && st.pc == s.code.len() && !st.halted ==> reaches(
        env.m,
        big.program().code,
        st,
        State {
            pc: t.code.len() as int,
            regs: st.regs.insert(target, (env.column)(q, name)),
            ..st
        },
    )
}

/// In `st`, and while nothing below register `lo` changes, the columns that the program `big`
/// reads have the values that `env` gives them, and so have the registers below `lo`.
pub open spec fn serves(env: Env, big: Asm, lo: i32, st: State) -> bool {
    &&& forall|r: i32| r < lo ==> #[trigger] st.regs[r] == (env.slot)(r)
    &&& forall|s: Asm, q: Option<Seq<char>>, name: Seq<char>, target: i32, now: State|
        target >= lo && agrees(st, now, lo) ==> #[trigger] brings_column(
            env,
            big,
            s,
            q,
            name,
            target,
            now,
        )
}

pub proof fn lemma_serves_on(env: Env, big: Asm, lo: i32, a: State, b: State)
    requires
        serves(env, big, lo, a),
        agrees(a, b, lo),
    ensures
        serves(env, big, lo, b),
{
    assert forall|s: Asm, q: Option<Seq<char>>, name: Seq<char>, target: i32, now: State|
        target >= lo && agrees(b, now, lo) implies #[trigger] brings_column(
        env,
        big,
        s,
        q,
        name,
        target,
        now,
    ) by {
        assert(agrees(a, now, lo)) by {
            assert forall|r: i32| r < lo implies #[trigger] now.regs[r] == a.regs[r] by {
                assert(b.regs[r] == a.regs[r]);
            }
        }
    }
    assert forall|r: i32| r < lo implies #[trigger] b.regs[r] == (env.slot)(r) by {
        assert(a.regs[r] == (env.slot)(r));
    }
}

/// What serves one reader serves another that gives the columns the same values.
pub proof fn lemma_serves_like(e: Env, like: Env, big: Asm, lo: i32, st: State)
    requires
        serves(e, big, lo, st),
        like.m == e.m,
        like.ctx == e.ctx,
        forall|q: Option<Seq<char>>, name: Seq<char>|
            #[trigger] (like.column)(q, name) == (e.column)(q, name),
        forall|r: i32| r < lo ==> #[trigger] st.regs[r] == (like.slot)(r),
    ensures
        serves(like, big, lo, st),
{
    assert forall|s: Asm, q: Option<Seq<char>>, name: Seq<char>, target: i32, now: State|
        target >= lo && agrees(st, now, lo) implies #[trigger] brings_column(
        like,
        big,
        s,
        q,
        name,
        target,
        now,
    ) by {
        assert(brings_column(e, big, s, q, name, target, now));
        assert((like.column)(q, name) == (e.column)(q, name));
    }
}

/// One instruction further.
pub proof fn lemma_advance(m: Values, code: Seq<InstView>, a: State, b: State, inst: InstView)
    requires
        reaches(m, code, a, b),
        !b.halted,
        0 <= b.pc < code.len(),
        code[b.pc] == inst,
    ensures
        reaches(m, code, a, run(m, inst, b)),
{
    lemma_reaches_step(m, code, a, b);
}

/// What [`law_expression_code`] asks of where an expression is computed.
pub open spec fn ready(env: Env, big: Asm, lo: i32, s: Asm, e: ExprView, st: State) -> bool {
    &&& neat(s)
    &&& st.pc == s.code.len()
    &&& !st.halted
    &&& serves(env, big, lo, st)
    &&& 0 <= lo <= s.next_reg
    &&& s.next_reg + weight(e) <= i32::MAX
    &&& tame(e, lo as int)
}

/// The code has run: the machine is behind it, with the value of `e` in `target`.
pub open spec fn computed(
    env: Env,
    big: Asm,
    s: Asm,
    t: Asm,
    e: ExprView,
    target: i32,
    st: State,
    st2: State,
) -> bool {
    &&& reaches(env.m, big.program().code, st, st2)
    &&& st2.pc == t.code.len()
    &&& st2.regs[target] == value(e, env)
    &&& same_but(st, st2, s.next_reg, target)
}

proof fn lemma_flags(a: u8)
    requires
        a <= 5,
    ensures
        a & 0x0f == a,
        a & P5_NULLEQ == 0,
        a & P5_STOREP2 == 0,
        a & P5_JUMPIFNULL == 0,
        (a | 0) == a,
        (a | P5_STOREP2) & 0x0f == a,
        (a | P5_STOREP2) & P5_NULLEQ == 0,
        (a | P5_STOREP2) & P5_STOREP2 != 0,
        ((a | P5_STOREP2) | P5_NULLEQ) & 0x0f == a,
        ((a | P5_STOREP2) | P5_NULLEQ) & P5_NULLEQ != 0,
        ((a | P5_STOREP2) | P5_NULLEQ) & P5_STOREP2 != 0,
        (a | P5_NULLEQ) & 0x0f == a,
        (a | P5_NULLEQ) & P5_NULLEQ != 0,
        (a | P5_NULLEQ) & P5_STOREP2 == 0,
        (a | P5_JUMPIFNULL) & 0x0f == a,
        (a | P5_JUMPIFNULL) & P5_NULLEQ == 0,
        (a | P5_JUMPIFNULL) & P5_STOREP2 == 0,
        (a | P5_JUMPIFNULL) & P5_JUMPIFNULL != 0,
        (a | P5_JUMPIFNULL) & !P5_JUMPIFNULL == a,
{
    assert(a <= 5 ==> a & 0x0f == a && a & 0x80 == 0 && a & 0x20 == 0 && a & 0x10 == 0 && (a | 0)
        == a && (a | 0x20) & 0x0f == a && (a | 0x20) & 0x80 == 0 && (a | 0x20) & 0x20 != 0 && ((a
        | 0x20) | 0x80) & 0x0f == a && ((a | 0x20) | 0x80) & 0x80 != 0 && ((a | 0x20) | 0x80) & 0x20
        != 0 && (a | 0x80) & 0x0f == a && (a | 0x80) & 0x80 != 0 && (a | 0x80) & 0x20 == 0 && (a
        | 0x10) & 0x0f == a && (a | 0x10) & 0x80 == 0 && (a | 0x10) & 0x20 == 0 && (a | 0x10) & 0x10
        != 0 && (a | 0x10) & !0x10u8 == a) by (bit_vector);
}

proof fn lemma_literal_code(
    s: Asm,
    lit: LiteralView,
    target: i32,
    m: Values,
    big: Asm,
    st: State,
) -> (st2: State)
    requires
        neat(s),
        settles(gen_literal(s, lit, target), big),
        st.pc == s.code.len(),
        !st.halted,
    ensures
        reaches(m, big.program().code, st, st2),
        st2 == (State {
            pc: gen_literal(s, lit, target).code.len() as int,
            regs: st.regs.insert(target, literal_value(lit)),
            ..st
        }),
{
    broadcast use group_settled;

    reveal(gen_literal);
    reveal(run);
    let code = big.program().code;
    let inst = code[st.pc];
    lemma_reaches_self(m, code, st);
    lemma_advance(m, code, st, st, inst);
    run(m, inst, st)
}

/// The code of an expression, run from its start, ends behind its last instruction with the value
/// of the expression in the target register. Besides that register it changes only registers that
/// were free before.
pub proof fn law_expression_code(
    s: Asm,
    e: ExprView,
    target: i32,
    env: Env,
    big: Asm,
    lo: i32,
    st: State,
) -> (st2: State)
    requires
        settles(gen_expr(s, e, target, env.ctx), big),
        ready(env, big, lo, s, e, st),
        lo <= target < s.next_reg,
    ensures
        computed(env, big, s, gen_expr(s, e, target, env.ctx), e, target, st, st2),
    decreases e, 2int,
{
    broadcast use group_settled;

    reveal(gen_expr);
    let code = big.program().code;
    let m = env.m;
    match e {
        ExprView::Literal(lit) => lemma_literal_code(s, lit, target, m, big, st),
        ExprView::Column { schema, table, name } => {
            assert(brings_column(env, big, s, table, name, target, st));
            State {
                pc: gen_expr(s, e, target, env.ctx).code.len() as int,
                regs: st.regs.insert(target, (env.column)(table, name)),
                ..st
            }
        },
        ExprView::Unary { op, expr } => lemma_unary_code(s, e, target, env, big, lo, st),
        ExprView::Binary { op, left, right } => {
            lemma_binary_code(s, e, target, env, big, lo, st)
        },
        ExprView::Function { name, distinct, args, filter, over } => {
            lemma_call_code(s, e, target, env, big, lo, st)
        },
        ExprView::Between { expr, low, high, negated } => {
            lemma_range_code(s, e, target, env, big, lo, st)
        },
        ExprView::Collate { expr, collation } => {
            law_expression_code(s, *expr, target, env, big, lo, st)
        },
        ExprView::AggRef(reg) => {
            reveal(run);
            lemma_reaches_self(m, code, st);
            lemma_advance(m, code, st, st, code[st.pc]);
            run(m, code[st.pc], st)
        },
        ExprView::Coalesce2 { left, right } => {
            lemma_coalesce_code(s, e, target, env, big, lo, st)
        },
        _ => {
            reveal(settles);
            st
        },
    }
}

/// An operand in a register of its own.
proof fn lemma_operand_code(
    s: Asm,
    e: ExprView,
    env: Env,
    big: Asm,
    lo: i32,
    st: State,
) -> (st2: State)
    requires
        settles(gen_operand(s, e, env.ctx), big),
        ready(env, big, lo, s, e, st),
        s.next_reg + 1 + weight(e) <= i32::MAX,
    ensures
        reaches(env.m, big.program().code, st, st2),
        st2.pc == gen_operand(s, e, env.ctx).code.len(),
        st2.regs[s.next_reg] == value(e, env),
        agrees(st, st2, s.next_reg),
        settles(s, big),
        neat(gen_operand(s, e, env.ctx)),
        serves(env, big, lo, st2),
        s.next_reg < gen_operand(s, e, env.ctx).next_reg <= s.next_reg + 1 + weight(e),
    decreases e, 3int,
{
    broadcast use {group_settled, group_grows};

    let t = gen_operand(s, e, env.ctx);
    let s1 = s.take_regs(1);
    assert(t.err is None) by {
        reveal(settles);
    }
    lemma_expr_follows(s1, e, s.next_reg, env.ctx);
    lemma_settles_early(s1, t, big);
    assert(s.err is None);
    lemma_take(s, 1);
    lemma_grows_neat(s1, t);
    let st2 = law_expression_code(s1, e, s.next_reg, env, big, lo, st);
    lemma_serves_on(env, big, lo, st, st2);
    st2
}

proof fn lemma_unary_code(
    s: Asm,
    e: ExprView,
    target: i32,
    env: Env,
    big: Asm,
    lo: i32,
    st: State,
) -> (st2: State)
    requires
        e is Unary,
        settles(gen_unary(s, e, target, env.ctx), big),
        ready(env, big, lo, s, e, st),
        lo <= target < s.next_reg,
    ensures
        computed(env, big, s, gen_unary(s, e, target, env.ctx), e, target, st, st2),
    decreases e, 0int,
{
    broadcast use group_settled;

    reveal(gen_expr);
    reveal(run);
    let code = big.program().code;
    let m = env.m;
    let ctx = env.ctx;
    match e {
        ExprView::Unary { op, expr } => {
            let s1 = gen_operand(s, *expr, ctx);
            match op {
                UnaryOp::Negate => match crate::expr::negated_literal(*expr) {
                    Some(lit) => lemma_literal_code(s, lit, target, m, big, st),
                    None => {
                        let zero = s1.next_reg;
                        let s2 = s1.take_regs(1);
                        let i1 = InstView {
                            opcode: Opcode::Integer,
                            p1: 0,
                            p2: zero,
                            p3: 0,
                            p4: P4View::Unused,
                            p5: 0,
                        };
                        let s3 = s2.append(i1);
                        assert(settles(s3, big));
                        assert(settles(s1, big));
                        let a = lemma_operand_code(s, *expr, env, big, lo, st);
                        lemma_advance(m, code, st, a, code[a.pc]);
                        let b = run(m, code[a.pc], a);
                        lemma_advance(m, code, st, b, code[b.pc]);
                        run(m, code[b.pc], b)
                    },
                },
                UnaryOp::Positive => law_expression_code(s, *expr, target, env, big, lo, st),
                _ => {
                    assert(settles(s1, big));
                    let a = lemma_operand_code(s, *expr, env, big, lo, st);
                    lemma_advance(m, code, st, a, code[a.pc]);
                    run(m, code[a.pc], a)
                },
            }
        },
        _ => st,
    }
}

proof fn lemma_coalesce_code(
    s: Asm,
    e: ExprView,
    target: i32,
    env: Env,
    big: Asm,
    lo: i32,
    st: State,
) -> (st2: State)
    requires
        e is Coalesce2,
        settles(gen_coalesce(s, e, target, env.ctx), big),
        ready(env, big, lo, s, e, st),
        lo <= target < s.next_reg,
    ensures
        computed(env, big, s, gen_coalesce(s, e, target, env.ctx), e, target, st, st2),
    decreases e, 0int,
{
    broadcast use group_settled;

    reveal(gen_expr);
    reveal(run);
    let code = big.program().code;
    let m = env.m;
    let ctx = env.ctx;
    match e {
        ExprView::Coalesce2 { left, right } => {
            let s1 = gen_expr(s, *left, target, ctx);
            let l = s1.fresh();
            let s2 = s1.label().jump(Opcode::NotNull, target, l, 0);
            let s3 = gen_expr(s2, *right, target, ctx);
            let t = s3.bind(l);
            assert(t.err is None) by {
                reveal(settles);
            }
            lemma_expr_follows(s, *left, target, ctx);
            lemma_expr_follows(s2, *right, target, ctx);
            lemma_fresh_grows(s2, s3);
            lemma_fresh_grows(s, s1);
            assert(!s2.bound(l));
            assert(settles(s3, big));
            lemma_settles_early(s2, s3, big);
            lemma_settles_early(s, s1, big);
            lemma_grows_neat(s, s1);
            let a = law_expression_code(s, *left, target, env, big, lo, st);
            lemma_serves_on(env, big, lo, st, a);
            lemma_advance(m, code, st, a, code[a.pc]);
            let b = run(m, code[a.pc], a);
            if value(*left, env) is Null {
                lemma_serves_on(env, big, lo, st, b);
                let c = law_expression_code(s2, *right, target, env, big, lo, b);
                lemma_reaches_through(m, code, st, b, c);
                c
            } else {
                b
            }
        },
        _ => st,
    }
}

pub proof fn lemma_list_code(
    s: Asm,
    es: Seq<ExprView>,
    base: i32,
    env: Env,
    big: Asm,
    lo: i32,
    st: State,
    k: int,
) -> (st2: State)
    requires
        settles(gen_expr_list(s, es, base, env.ctx, k), big),
        neat(s),
        st.pc == s.code.len(),
        !st.halted,
        serves(env, big, lo, st),
        0 <= lo <= base,
        base + es.len() <= s.next_reg,
        s.next_reg + weight_from(es, k) <= i32::MAX,
        tame_from(es, lo as int, k),
        0 <= k <= es.len(),
        forall|j: int| 0 <= j < k ==> st.regs[#[trigger] nth(base, j)] == value(es[j], env),
    ensures
        reaches(env.m, big.program().code, st, st2),
        st2.pc == gen_expr_list(s, es, base, env.ctx, k).code.len(),
        agrees(st, st2, base),
        neat(gen_expr_list(s, es, base, env.ctx, k)),
        forall|j: int| 0 <= j < es.len() ==> st2.regs[#[trigger] nth(base, j)] == value(es[j], env),
        forall|r: i32| base + es.len() <= r < s.next_reg ==> #[trigger] st2.regs[r] == st.regs[r],
    decreases es, es.len() - k,
{
    reveal(gen_expr);
    let code = big.program().code;
    let m = env.m;
    let ctx = env.ctx;
    assert(gen_expr_list(s, es, base, ctx, k).err is None) by {
        reveal(settles);
    }
    if k >= es.len() {
        lemma_reaches_self(m, code, st);
        st
    } else {
        let r = reg_at(base, k);
        let s1 = gen_expr(s, es[k], r, ctx);
        let t = gen_expr_list(s1, es, base, ctx, k + 1);
        lemma_expr_follows(s, es[k], r, ctx);
        lemma_list_follows(s1, es, base, ctx, k + 1);
        lemma_settles_early(s1, t, big);
        lemma_fresh_grows(s1, t);
        lemma_grows_neat(s, s1);
        let a = law_expression_code(s, es[k], r, env, big, lo, st);
        lemma_serves_on(env, big, lo, st, a);
        assert forall|j: int| 0 <= j < k + 1 implies a.regs[#[trigger] nth(base, j)] == value(
            es[j],
            env,
        ) by {
            if j < k {
                assert(st.regs[nth(base, j)] == value(es[j], env));
            }
        }
        let b = lemma_list_code(s1, es, base, env, big, lo, a, k + 1);
        lemma_reaches_through(m, code, st, a, b);
        b
    }
}

pub proof fn lemma_values_from(es: Seq<ExprView>, env: Env, k: int)
    requires
        0 <= k <= es.len(),
    ensures
        values_from(es, env, k).len() == es.len() - k,
        forall|j: int|
            0 <= j < es.len() - k ==> #[trigger] values_from(es, env, k)[j] == value(
                es[k + j],
                env,
            ),
    decreases es.len() - k,
{
    if k < es.len() {
        lemma_values_from(es, env, k + 1);
        assert forall|j: int| 0 <= j < es.len() - k implies #[trigger] values_from(es, env, k)[j]
            == value(es[k + j], env) by {
            if j > 0 {
                assert(values_from(es, env, k)[j] == values_from(es, env, k + 1)[j - 1]);
            }
        }
    }
}

proof fn lemma_call_code(
    s: Asm,
    e: ExprView,
    target: i32,
    env: Env,
    big: Asm,
    lo: i32,
    st: State,
) -> (st2: State)
    requires
        e is Function,
        settles(gen_call(s, e, target, env.ctx), big),
        ready(env, big, lo, s, e, st),
        lo <= target < s.next_reg,
    ensures
        computed(env, big, s, gen_call(s, e, target, env.ctx), e, target, st, st2),
    decreases e, 0int,
{
    broadcast use group_settled;

    reveal(gen_expr);
    reveal(run);
    let code = big.program().code;
    let m = env.m;
    assert(gen_call(s, e, target, env.ctx).err is None) by {
        reveal(settles);
    }
    match e {
        ExprView::Function { name, distinct, args, filter, over } => match args {
            FunctionArgsView::Star => st,
            FunctionArgsView::List(es) => {
                let n = es.len() as i32;
                let start = s.next_reg;
                let s1 = s.take_regs(n);
                let s2 = gen_expr_list(s1, es, start, env.ctx, 0);
                assert(settles(s2, big));
                lemma_list_follows(s1, es, start, env.ctx, 0);
                lemma_settles_early(s1, s2, big);
                lemma_take(s, n);
                assert(settles(s, big));
                let a = lemma_list_code(s1, es, start, env, big, lo, st, 0);
                lemma_advance(m, code, st, a, code[a.pc]);
                let b = run(m, code[a.pc], a);
                lemma_values_from(es, env, 0);
                assert(block(a, start, es.len() as int) =~= values_from(es, env, 0));
                b
            },
        },
        _ => st,
    }
}

proof fn lemma_binary_code(
    s: Asm,
    e: ExprView,
    target: i32,
    env: Env,
    big: Asm,
    lo: i32,
    st: State,
) -> (st2: State)
    requires
        e is Binary,
        settles(gen_binary(s, e, target, env.ctx), big),
        ready(env, big, lo, s, e, st),
        lo <= target < s.next_reg,
    ensures
        computed(env, big, s, gen_binary(s, e, target, env.ctx), e, target, st, st2),
    decreases e, 1int,
{
    broadcast use group_settled;

    reveal(gen_expr);
    reveal(run);
    let code = big.program().code;
    let m = env.m;
    let ctx = env.ctx;
    assert(gen_binary(s, e, target, env.ctx).err is None) by {
        reveal(settles);
    }
    match e {
        ExprView::Binary { op, left, right } => {
            if op == BinaryOp::Like || op == BinaryOp::Glob || op == BinaryOp::JsonExtract || op
                == BinaryOp::JsonExtractText {
                lemma_two_code(s, e, target, env, big, lo, st)
            } else if op == BinaryOp::Regexp || op == BinaryOp::Match {
                st
            } else {
                let rl = s.next_reg;
                let s1 = gen_operand(s, *left, ctx);
                let rr = s1.next_reg;
                let s2 = gen_operand(s1, *right, ctx);
                reveal(gen_operator);
                assert(settles(s2, big));
                lemma_operand_follows(s, *left, ctx);
                lemma_operand_follows(s1, *right, ctx);
                lemma_settles_early(s1, s2, big);
                let a = lemma_operand_code(s, *left, env, big, lo, st);
                let b = lemma_operand_code(s1, *right, env, big, lo, a);
                lemma_reaches_through(m, code, st, a, b);
                lemma_flags(affinity_bits(joint_affinity(*left, *right, ctx.table)));
                lemma_advance(m, code, st, b, code[b.pc]);
                run(m, code[b.pc], b)
            }
        },
        _ => st,
    }
}

/// The operators that call a function of two arguments.
proof fn lemma_two_code(
    s: Asm,
    e: ExprView,
    target: i32,
    env: Env,
    big: Asm,
    lo: i32,
    st: State,
) -> (st2: State)
    requires
        e matches ExprView::Binary { op, left, right } && (op == BinaryOp::Like || op
            == BinaryOp::Glob || op == BinaryOp::JsonExtract || op == BinaryOp::JsonExtractText),
        settles(gen_binary(s, e, target, env.ctx), big),
        ready(env, big, lo, s, e, st),
        lo <= target < s.next_reg,
    ensures
        computed(env, big, s, gen_binary(s, e, target, env.ctx), e, target, st, st2),
    decreases e, 0int,
{
    broadcast use group_settled;

    reveal(gen_expr);
    reveal(run);
    let code = big.program().code;
    let m = env.m;
    let ctx = env.ctx;
    assert(gen_binary(s, e, target, env.ctx).err is None) by {
        reveal(settles);
    }
    match e {
        ExprView::Binary { op, left, right } => {
            let like = op == BinaryOp::Like || op == BinaryOp::Glob;
            let x = if like {
                *right
            } else {
                *left
            };
            let y = if like {
                *left
            } else {
                *right
            };
            let start = s.next_reg;
            let next = reg_at(start, 1);
            let s1 = s.take_regs(2);
            let s2 = gen_expr(s1, x, start, ctx);
            lemma_expr_follows(s1, x, start, ctx);
            lemma_take(s, 2);
            let s3 = gen_expr(s2, y, next, ctx);
            lemma_expr_follows(s2, y, next, ctx);
            assert(next == nth(start, 1));
            if like || json_path(y) is None {
                assert(settles(s3, big));
                lemma_settles_early(s2, s3, big);
                lemma_settles_early(s1, s2, big);
                lemma_grows_neat(s1, s2);
                lemma_grows_neat(s2, s3);
                let a = law_expression_code(s1, x, start, env, big, lo, st);
                lemma_serves_on(env, big, lo, st, a);
                let b = law_expression_code(s2, y, next, env, big, lo, a);
                lemma_reaches_through(m, code, st, a, b);
                lemma_advance(m, code, st, b, code[b.pc]);
                assert(block(b, start, 2) =~= seq![value(x, env), value(y, env)]);
                run(m, code[b.pc], b)
            } else {
                assert(settles(s2, big));
                lemma_settles_early(s1, s2, big);
                lemma_grows_neat(s1, s2);
                let a = law_expression_code(s1, x, start, env, big, lo, st);
                lemma_advance(m, code, st, a, code[a.pc]);
                let b = run(m, code[a.pc], a);
                lemma_advance(m, code, st, b, code[b.pc]);
                assert(block(b, start, 2) =~= seq![value(x, env), Val::Text(json_path(y)->0)]);
                run(m, code[b.pc], b)
            }
        },
        _ => st,
    }
}

proof fn lemma_between_code(
    s: Asm,
    r: i32,
    lo: i32,
    hi: i32,
    aff: Option<crate::vdbe::Affinity>,
    negated: bool,
    target: i32,
    m: Values,
    big: Asm,
    st: State,
) -> (st2: State)
    requires
        settles(gen_between(s, r, lo, hi, aff, negated, target), big),
        neat(s),
        st.pc == s.code.len(),
        !st.halted,
    ensures
        settles(s, big),
        reaches(m, big.program().code, st, st2),
        st2 == (State {
            pc: gen_between(s, r, lo, hi, aff, negated, target).code.len() as int,
            regs: st.regs.insert(
                target,
                truth_value(
                    within(m, st.regs[r], st.regs[lo], st.regs[hi], negated, affinity_bits(aff)),
                ),
            ),
            ..st
        }),
{
    broadcast use group_settled;

    reveal(gen_between);
    reveal(run);
    let code = big.program().code;
    let bits = affinity_bits(aff);
    lemma_flags(bits);
    let x = st.regs[r];
    lemma_reaches_self(m, code, st);
    let i0 = code[st.pc];
    let n = st.pc;
    lemma_advance(m, code, st, st, code[st.pc]);
    let a = run(m, code[st.pc], st);
    if x is Null {
        lemma_advance(m, code, st, a, code[a.pc]);
        run(m, code[a.pc], a)
    } else {
        lemma_advance(m, code, st, a, code[a.pc]);
        let b = run(m, code[a.pc], a);
        if b.pc != n + 2 {
            lemma_advance(m, code, st, b, code[b.pc]);
            let c = run(m, code[b.pc], b);
            lemma_advance(m, code, st, c, code[c.pc]);
            run(m, code[c.pc], c)
        } else {
            lemma_advance(m, code, st, b, code[b.pc]);
            let c = run(m, code[b.pc], b);
            if c.pc != n + 3 {
                lemma_advance(m, code, st, c, code[c.pc]);
                let d = run(m, code[c.pc], c);
                lemma_advance(m, code, st, d, code[d.pc]);
                run(m, code[d.pc], d)
            } else {
                lemma_advance(m, code, st, c, code[c.pc]);
                let d = run(m, code[c.pc], c);
                lemma_advance(m, code, st, d, code[d.pc]);
                let f = run(m, code[d.pc], d);
                if d.pc != n + 4 {
                    f
                } else {
                    lemma_advance(m, code, st, f, code[f.pc]);
                    let g = run(m, code[f.pc], f);
                    if f.pc != n + 5 {
                        g
                    } else {
                        lemma_advance(m, code, st, g, code[g.pc]);
                        run(m, code[g.pc], g)
                    }
                }
            }
        }
    }
}

proof fn lemma_range_code(
    s: Asm,
    e: ExprView,
    target: i32,
    env: Env,
    big: Asm,
    lo: i32,
    st: State,
) -> (st2: State)
    requires
        e is Between,
        settles(gen_range(s, e, target, env.ctx), big),
        ready(env, big, lo, s, e, st),
        lo <= target < s.next_reg,
    ensures
        computed(env, big, s, gen_range(s, e, target, env.ctx), e, target, st, st2),
    decreases e, 0int,
{
    reveal(gen_expr);
    let code = big.program().code;
    let m = env.m;
    let ctx = env.ctx;
    match e {
        ExprView::Between { expr, low, high, negated } => {
            let s1 = gen_operand(s, *expr, ctx);
            let s2 = gen_operand(s1, *low, ctx);
            let s3 = gen_operand(s2, *high, ctx);
            let aff = between_affinity(*expr, *low, *high, ctx.table);
            lemma_operand_follows(s, *expr, ctx);
            lemma_operand_follows(s1, *low, ctx);
            lemma_operand_follows(s2, *high, ctx);
            let t = gen_between(s3, s.next_reg, s1.next_reg, s2.next_reg, aff, negated, target);
            assert(t.err is None) by {
                reveal(settles);
            }
            lemma_between_follows(s3, s.next_reg, s1.next_reg, s2.next_reg, aff, negated, target);
            lemma_settles_early(s3, t, big);
            lemma_settles_early(s2, s3, big);
            lemma_settles_early(s1, s2, big);
            let a = lemma_operand_code(s, *expr, env, big, lo, st);
            let b = lemma_operand_code(s1, *low, env, big, lo, a);
            lemma_reaches_through(m, code, st, a, b);
            let c = lemma_operand_code(s2, *high, env, big, lo, b);
            lemma_reaches_through(m, code, st, b, c);
            let d = lemma_between_code(
                s3,
                s.next_reg,
                s1.next_reg,
                s2.next_reg,
                aff,
                negated,
                target,
                m,
                big,
                c,
            );
            lemma_reaches_through(m, code, st, c, d);
            d
        },
        _ => st,
    }
}

// ---- The code of a jump decides by the truth of the condition ----

/// The code of a jump has run: the machine is at the label if the jump is taken, else behind the
/// code. It has changed only registers that were free before.
pub open spec fn decided(
    env: Env,
    big: Asm,
    s: Asm,
    t: Asm,
    d: int,
    jumps: bool,
    st: State,
    st2: State,
) -> bool {
    &&& reaches(env.m, big.program().code, st, st2)
    &&& st2.pc == (if jumps {
        place(big, d)
    } else {
        t.code.len() as int
    })
    &&& agrees(st, st2, s.next_reg)
}

/// The code of a jump on a condition, run from its start, goes to the label exactly when the
/// condition has the truth value asked for, or is unknown where the unknown jumps too; else it
/// ends behind its last instruction. The truth of the condition is that of its [`value`], in which
/// `AND`, `OR` and `NOT` follow the three-valued tables.
pub proof fn law_jump_code(
    s: Asm,
    e: ExprView,
    d: int,
    when_true: bool,
    when_null: bool,
    env: Env,
    big: Asm,
    lo: i32,
    st: State,
) -> (st2: State)
    requires
        settles(gen_jump(s, e, d, when_true, when_null, env.ctx), big),
        ready(env, big, lo, s, e, st),
        s.next_reg + 1 + weight(e) <= i32::MAX,
        0 <= d < s.fresh(),
    ensures
        decided(
            env,
            big,
            s,
            gen_jump(s, e, d, when_true, when_null, env.ctx),
            d,
            taken(truth(env.m, value(e, env)), when_true, when_null),
            st,
            st2,
        ),
    decreases e, 1int,
{
    broadcast use group_settled;

    reveal(gen_jump);
    let m = env.m;
    let ctx = env.ctx;
    let code = big.program().code;
    assert(s.err is None) by {
        lemma_jump_follows(s, e, d, when_true, when_null, ctx);
        reveal(settles);
        lemma_fresh_grows(s, gen_jump(s, e, d, when_true, when_null, ctx));
    }
    match e {
        ExprView::Binary { op, left, right } => if op == BinaryOp::And || op == BinaryOp::Or {
            lemma_logic_code(s, e, d, when_true, when_null, env, big, lo, st)
        } else if crate::expr::comparison_op(op) is Some {
            lemma_comparison_code(s, e, d, when_true, when_null, env, big, lo, st)
        } else {
            lemma_value_jump_code(s, e, d, when_true, when_null, env, big, lo, st)
        },
        ExprView::Unary { op, expr } => if op == UnaryOp::Not {
            law_jump_code(s, *expr, d, !when_true, when_null, env, big, lo, st)
        } else {
            lemma_value_jump_code(s, e, d, when_true, when_null, env, big, lo, st)
        },
        ExprView::Between { expr, low, high, negated } => {
            lemma_range_jump_code(s, e, d, when_true, when_null, env, big, lo, st)
        },
        _ => lemma_value_jump_code(s, e, d, when_true, when_null, env, big, lo, st),
    }
}

proof fn lemma_value_jump_code(
    s: Asm,
    e: ExprView,
    d: int,
    when_true: bool,
    when_null: bool,
    env: Env,
    big: Asm,
    lo: i32,
    st: State,
) -> (st2: State)
    requires
        settles(gen_value_jump(s, e, d, when_true, when_null, env.ctx), big),
        ready(env, big, lo, s, e, st),
        s.next_reg + 1 + weight(e) <= i32::MAX,
    ensures
        decided(
            env,
            big,
            s,
            gen_value_jump(s, e, d, when_true, when_null, env.ctx),
            d,
            taken(truth(env.m, value(e, env)), when_true, when_null),
            st,
            st2,
        ),
{
    broadcast use group_settled;

    reveal(gen_value_jump);
    reveal(run);
    let code = big.program().code;
    let s1 = gen_operand(s, e, env.ctx);
    assert(settles(s1, big));
    let a = lemma_operand_code(s, e, env, big, lo, st);
    lemma_advance(env.m, code, st, a, code[a.pc]);
    run(env.m, code[a.pc], a)
}

proof fn lemma_comparison_code(
    s: Asm,
    e: ExprView,
    d: int,
    when_true: bool,
    when_null: bool,
    env: Env,
    big: Asm,
    lo: i32,
    st: State,
) -> (st2: State)
    requires
        e matches ExprView::Binary { op, left, right } && crate::expr::comparison_op(op) is Some
            && settles(
            gen_comparison_jump(s, op, *left, *right, d, when_true, when_null, env.ctx),
            big,
        ),
        ready(env, big, lo, s, e, st),
        s.next_reg + 1 + weight(e) <= i32::MAX,
    ensures
        e matches ExprView::Binary { op, left, right } && decided(
            env,
            big,
            s,
            gen_comparison_jump(s, op, *left, *right, d, when_true, when_null, env.ctx),
            d,
            taken(truth(env.m, value(e, env)), when_true, when_null),
            st,
            st2,
        ),
{
    broadcast use group_settled;

    reveal(gen_comparison_jump);
    reveal(run);
    let code = big.program().code;
    let m = env.m;
    let ctx = env.ctx;
    match e {
        ExprView::Binary { op, left, right } => {
            let s1 = gen_operand(s, *left, ctx);
            let s2 = gen_operand(s1, *right, ctx);
            assert(settles(s2, big));
            assert(s2.err is None) by {
                reveal(settles);
            }
            lemma_operand_follows(s1, *right, ctx);
            lemma_settles_early(s1, s2, big);
            let a = lemma_operand_code(s, *left, env, big, lo, st);
            let b = lemma_operand_code(s1, *right, env, big, lo, a);
            lemma_reaches_through(m, code, st, a, b);
            lemma_flags(affinity_bits(joint_affinity(*left, *right, ctx.table)));
            lemma_advance(m, code, st, b, code[b.pc]);
            run(m, code[b.pc], b)
        },
        _ => st,
    }
}

proof fn lemma_range_jump_code(
    s: Asm,
    e: ExprView,
    d: int,
    when_true: bool,
    when_null: bool,
    env: Env,
    big: Asm,
    lo: i32,
    st: State,
) -> (st2: State)
    requires
        e matches ExprView::Between { expr, low, high, negated } && settles(
            gen_range_jump(s, *expr, *low, *high, negated, d, when_true, when_null, env.ctx),
            big,
        ),
        ready(env, big, lo, s, e, st),
        s.next_reg + 1 + weight(e) <= i32::MAX,
    ensures
        e matches ExprView::Between { expr, low, high, negated } && decided(
            env,
            big,
            s,
            gen_range_jump(s, *expr, *low, *high, negated, d, when_true, when_null, env.ctx),
            d,
            taken(truth(env.m, value(e, env)), when_true, when_null),
            st,
            st2,
        ),
{
    broadcast use group_settled;

    reveal(gen_range_jump);
    reveal(run);
    let code = big.program().code;
    let m = env.m;
    let ctx = env.ctx;
    match e {
        ExprView::Between { expr, low, high, negated } => {
            let s1 = gen_operand(s, *expr, ctx);
            let s2 = gen_operand(s1, *low, ctx);
            let s3 = gen_operand(s2, *high, ctx);
            let t = gen_range_jump(
                s,
                *expr,
                *low,
                *high,
                negated,
                d,
                when_true,
                when_null,
                ctx,
            );
            assert(t.err is None) by {
                reveal(settles);
            }
            assert(!s3.bound(s3.fresh()));
            assert(settles(s3, big));
            lemma_operand_follows(s1, *low, ctx);
            lemma_operand_follows(s2, *high, ctx);
            lemma_settles_early(s2, s3, big);
            lemma_settles_early(s1, s2, big);
            let a = lemma_operand_code(s, *expr, env, big, lo, st);
            let b = lemma_operand_code(s1, *low, env, big, lo, a);
            lemma_reaches_through(m, code, st, a, b);
            let c = lemma_operand_code(s2, *high, env, big, lo, b);
            lemma_reaches_through(m, code, st, b, c);
            lemma_flags(affinity_bits(between_affinity(*expr, *low, *high, ctx.table)));
            lemma_advance(m, code, st, c, code[c.pc]);
            let f = run(m, code[c.pc], c);
            let below = compared(
                m,
                Opcode::Lt,
                value(*expr, env),
                value(*low, env),
                P4View::Unused,
                affinity_bits(between_affinity(*expr, *low, *high, ctx.table)),
            );
            if taken(below, true, when_null == (when_true == negated)) {
                f
            } else {
                lemma_advance(m, code, st, f, code[f.pc]);
                run(m, code[f.pc], f)
            }
        },
        _ => st,
    }
}

proof fn lemma_logic_code(
    s: Asm,
    e: ExprView,
    d: int,
    when_true: bool,
    when_null: bool,
    env: Env,
    big: Asm,
    lo: i32,
    st: State,
) -> (st2: State)
    requires
        e matches ExprView::Binary { op, left, right } && (op == BinaryOp::And || op
            == BinaryOp::Or),
        settles(gen_logic_jump(s, e, d, when_true, when_null, env.ctx), big),
        ready(env, big, lo, s, e, st),
        s.next_reg + 1 + weight(e) <= i32::MAX,
        0 <= d < s.fresh(),
        s.err is None,
    ensures
        decided(
            env,
            big,
            s,
            gen_logic_jump(s, e, d, when_true, when_null, env.ctx),
            d,
            taken(truth(env.m, value(e, env)), when_true, when_null),
            st,
            st2,
        ),
    decreases e, 0int,
{
    broadcast use group_settled;

    reveal(gen_jump);
    let code = big.program().code;
    let m = env.m;
    let ctx = env.ctx;
    let t = gen_logic_jump(s, e, d, when_true, when_null, ctx);
    assert(t.err is None) by {
        reveal(settles);
    }
    match e {
        ExprView::Binary { op, left, right } => {
            if when_true == (op == BinaryOp::Or) {
                let s1 = gen_jump(s, *left, d, when_true, when_null, ctx);
                lemma_jump_follows(s, *left, d, when_true, when_null, ctx);
                lemma_jump_follows(s1, *right, d, when_true, when_null, ctx);
                lemma_fresh_grows(s1, t);
                lemma_fresh_grows(s, s1);
                lemma_settles_early(s1, t, big);
                lemma_grows_neat(s, s1);
                let a = law_jump_code(s, *left, d, when_true, when_null, env, big, lo, st);
                if taken(truth(m, value(*left, env)), when_true, when_null) {
                    a
                } else {
                    lemma_serves_on(env, big, lo, st, a);
                    let b = law_jump_code(s1, *right, d, when_true, when_null, env, big, lo, a);
                    lemma_reaches_through(m, code, st, a, b);
                    b
                }
            } else {
                let d2 = s.fresh();
                let s0 = s.label();
                let s1 = gen_jump(s0, *left, d2, !when_true, !when_null, ctx);
                let s2 = gen_jump(s1, *right, d, when_true, when_null, ctx);
                lemma_jump_follows(s0, *left, d2, !when_true, !when_null, ctx);
                lemma_jump_follows(s1, *right, d, when_true, when_null, ctx);
                lemma_fresh_grows(s1, s2);
                lemma_fresh_grows(s0, s1);
                assert(!s0.bound(d2));
                assert(settles(s2, big));
                lemma_settles_early(s1, s2, big);
                lemma_settles_early(s0, s1, big);
                lemma_grows_neat(s0, s1);
                let a = law_jump_code(s0, *left, d2, !when_true, !when_null, env, big, lo, st);
                if taken(truth(m, value(*left, env)), !when_true, !when_null) {
                    a
                } else {
                    lemma_serves_on(env, big, lo, st, a);
                    let b = law_jump_code(s1, *right, d, when_true, when_null, env, big, lo, a);
                    lemma_reaches_through(m, code, st, a, b);
                    b
                }
            }
        },
        _ => st,
    }
}

// ---- Where the values of columns come from ----

/// Where column `i` stands in a row of a table.
pub open spec fn position(t: TableView, i: usize) -> int {
    if t.without_rowid {
        t.storage_index(i)
    } else {
        i as int
    }
}

/// The value of a column of the row that a cursor on the table is on.
pub open spec fn table_column(m: Values, t: TableView, st: State, cursor: i32, name: Seq<char>)
    -> Val {
    match t.resolve(name) {
        Some(ColumnRef::Rowid) => rowid_of(st, cursor),
        Some(ColumnRef::Index(i)) => {
            let v = field(st, cursor, position(t, i));
            if t.columns[i as int].affinity == Affinity::Real {
                (m.real)(v)
            } else {
                v
            }
        },
        None => Val::Null,
    }
}

/// The row that a cursor on a table is on.
pub open spec fn table_row(m: Values, t: TableView, f: FunctionsView, st: State, cursor: i32)
    -> Env {
    Env {
        m,
        ctx: table_ctx(t, cursor, f),
        column: |q: Option<Seq<char>>, name: Seq<char>| table_column(m, t, st, cursor, name),
        slot: |r: i32| st.regs[r],
    }
}

/// The columns of a table have positions that an instruction can name.
pub open spec fn narrow(t: TableView) -> bool {
    t.columns.len() > 0 && forall|i: usize|
        i < t.columns.len() ==> 0 <= #[trigger] position(t, i) <= i32::MAX
}

/// Code over a table reads the columns of the row that the cursor is on.
pub proof fn law_table_columns(
    m: Values,
    t: TableView,
    f: FunctionsView,
    cursor: i32,
    big: Asm,
    lo: i32,
    st: State,
)
    requires
        narrow(t),
    ensures
        serves(table_row(m, t, f, st, cursor), big, lo, st),
{
    let env = table_row(m, t, f, st, cursor);
    assert forall|s: Asm, q: Option<Seq<char>>, name: Seq<char>, target: i32, now: State|
        target >= lo && agrees(st, now, lo) implies #[trigger] brings_column(
        env,
        big,
        s,
        q,
        name,
        target,
        now,
    ) by {
        lemma_table_column(m, t, f, cursor, big, s, q, name, target, st, now);
    }
}

pub proof fn lemma_table_column(
    m: Values,
    t: TableView,
    f: FunctionsView,
    cursor: i32,
    big: Asm,
    s: Asm,
    q: Option<Seq<char>>,
    name: Seq<char>,
    target: i32,
    st: State,
    now: State,
)
    requires
        narrow(t),
        now == (State { pc: now.pc, regs: now.regs, ..st }),
    ensures
        brings_column(table_row(m, t, f, st, cursor), big, s, q, name, target, now),
{
    broadcast use group_settled;

    reveal(gen_column);
    reveal(table_ctx);
    reveal(run);
    let env = table_row(m, t, f, st, cursor);
    let code = big.program().code;
    let u = gen_column(s, q, name, target, env.ctx);
    if neat(s) && settles(u, big) && now.pc == s.code.len() && !now.halted {
        assert(u.err is None) by {
            reveal(settles);
        }
        let done = State {
            pc: u.code.len() as int,
            regs: now.regs.insert(target, (env.column)(q, name)),
            ..now
        };
        lemma_reaches_self(m, code, now);
        match t.resolve(name) {
            Some(ColumnRef::Rowid) => {
                lemma_advance(m, code, now, now, code[now.pc]);
            },
            Some(ColumnRef::Index(i)) => {
                lemma_column_in_table(t, name);
                assert(0 <= position(t, i) <= i32::MAX);
                let pos = position(t, i) as i32;
                let i0 = InstView {
                    opcode: Opcode::Column,
                    p1: cursor,
                    p2: pos,
                    p3: target,
                    p4: P4View::Unused,
                    p5: 0,
                };
                let s1 = s.append(i0);
                assert(settles(s1, big));
                lemma_advance(m, code, now, now, code[now.pc]);
                let a = run(m, code[now.pc], now);
                if t.columns[i as int].affinity == Affinity::Real {
                    lemma_advance(m, code, now, a, code[a.pc]);
                    assert(a.regs.insert(target, (m.real)(a.regs[target])) =~= done.regs);
                }
            },
            None => {},
        }
    }
}

pub proof fn lemma_column_in_table(t: TableView, name: Seq<char>)
    ensures
        t.column_index(name) matches Some(i) ==> i < t.columns.len(),
{
    lemma_column_from_bound(t.columns, name, 0);
}

proof fn lemma_column_from_bound(cs: Seq<ColumnView>, name: Seq<char>, k: int)
    ensures
        column_from(cs, name, k) matches Some(i) ==> i < cs.len() || cs.len() > usize::MAX,
    decreases cs.len() - k,
{
    if 0 <= k < cs.len() {
        lemma_column_from_bound(cs, name, k + 1);
    }
}

/// The value of a column of a row that is in the registers from `base` on. A row that holds no
/// alias of the rowid takes it from the cursor.
pub open spec fn register_column(t: TableView, st: State, cursor: i32, base: i32, name: Seq<char>)
    -> Val {
    match t.resolve(name) {
        Some(ColumnRef::Rowid) => match t.rowid_alias {
            Some(a) => st.regs[nth(base, a as int)],
            None => rowid_of(st, cursor),
        },
        Some(ColumnRef::Index(i)) => st.regs[nth(base, i as int)],
        None => Val::Null,
    }
}

/// The row that is in the registers from `base` on.
pub open spec fn register_row(
    m: Values,
    t: TableView,
    f: FunctionsView,
    st: State,
    cursor: i32,
    base: i32,
) -> Env {
    Env {
        m,
        ctx: row_ctx(t, cursor, base, f),
        column: |q: Option<Seq<char>>, name: Seq<char>|
            register_column(t, st, cursor, base, name),
        slot: |r: i32| st.regs[r],
    }
}

/// Code over a row in registers reads its columns there.
pub proof fn law_register_columns(
    m: Values,
    t: TableView,
    f: FunctionsView,
    cursor: i32,
    base: i32,
    big: Asm,
    lo: i32,
    st: State,
)
    requires
        0 < t.columns.len(),
        0 <= base,
        base + t.columns.len() <= lo,
        t.rowid_alias matches Some(a) ==> a < t.columns.len(),
    ensures
        serves(register_row(m, t, f, st, cursor, base), big, lo, st),
{
    let env = register_row(m, t, f, st, cursor, base);
    assert forall|s: Asm, q: Option<Seq<char>>, name: Seq<char>, target: i32, now: State|
        target >= lo && agrees(st, now, lo) implies #[trigger] brings_column(
        env,
        big,
        s,
        q,
        name,
        target,
        now,
    ) by {
        lemma_register_column(m, t, f, cursor, base, big, s, q, name, target, lo, st, now);
    }
}

proof fn lemma_register_column(
    m: Values,
    t: TableView,
    f: FunctionsView,
    cursor: i32,
    base: i32,
    big: Asm,
    s: Asm,
    q: Option<Seq<char>>,
    name: Seq<char>,
    target: i32,
    lo: i32,
    st: State,
    now: State,
)
    requires
        0 < t.columns.len(),
        0 <= base,
        base + t.columns.len() <= lo,
        t.rowid_alias matches Some(a) ==> a < t.columns.len(),
        agrees(st, now, lo),
    ensures
        brings_column(register_row(m, t, f, st, cursor, base), big, s, q, name, target, now),
{
    broadcast use group_settled;

    reveal(gen_column);
    reveal(row_ctx);
    reveal(run);
    let env = register_row(m, t, f, st, cursor, base);
    let code = big.program().code;
    let u = gen_column(s, q, name, target, env.ctx);
    if neat(s) && settles(u, big) && now.pc == s.code.len() && !now.halted {
        assert(u.err is None) by {
            reveal(settles);
        }
        lemma_reaches_self(m, code, now);
        lemma_column_in_table(t, name);
        match t.resolve(name) {
            Some(ColumnRef::Rowid) => {
                match t.rowid_alias {
                    Some(a) => {
                        assert(reg_at(base, a as int) == nth(base, a as int));
                        assert(now.regs[nth(base, a as int)] == st.regs[nth(base, a as int)]);
                    },
                    None => {},
                }
                lemma_advance(m, code, now, now, code[now.pc]);
            },
            Some(ColumnRef::Index(i)) => {
                assert(reg_at(base, i as int) == nth(base, i as int));
                assert(now.regs[nth(base, i as int)] == st.regs[nth(base, i as int)]);
                lemma_advance(m, code, now, now, code[now.pc]);
            },
            None => {},
        }
    }
}

} // verus!
