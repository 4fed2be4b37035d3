//! Expression code generation.
//!
//! Two entry points:
//! * [`compile_expr`] writes an expression's value into a target register;
//! * [`compile_jump`] compiles a boolean expression as a conditional jump, short-circuiting
//!   `AND` and `OR`.
//!
//! [`gen_expr`] and [`gen_jump`] say which instructions that takes.
use vstd::prelude::*;

use crate::ast::{
    expr_view, exprs_view, function_args_view, BinaryOp, Expr, ExprView, FunctionArgs,
    FunctionArgsView, Literal, LiteralView, Real, RealView, UnaryOp,
};
use crate::builder::{group_asm, reg_at, reg_off, Asm, Label, ProgramBuilder};
use crate::scope::{
    between_affinity, collation_operand, comparison_affinity, comparison_p4, compile_column,
    emitted, gen_column, heads_for, joint_affinity, name_ref, range_affinity, steady, Ctx, CtxView,
};
use crate::text::{cat2, cat3, chars_of, decimal_i64, int_text, owned, Error};
use crate::vdbe::{
    affinity_bits, aff_to_p5, Affinity, Opcode, P4, P4View, P5_JUMPIFNULL, P5_NULLEQ, P5_STOREP2,
};

verus! {

broadcast use group_asm;

// ---- Operators ----

/// The opcode of an arithmetic, bitwise or concatenation operator.
pub open spec fn arithmetic_op(op: BinaryOp) -> Option<Opcode> {
    match op {
        BinaryOp::Add => Some(Opcode::Add),
        BinaryOp::Sub => Some(Opcode::Subtract),
        BinaryOp::Mul => Some(Opcode::Multiply),
        BinaryOp::Div => Some(Opcode::Divide),
        BinaryOp::Mod => Some(Opcode::Remainder),
        BinaryOp::Concat => Some(Opcode::Concat),
        BinaryOp::BitAnd => Some(Opcode::BitAnd),
        BinaryOp::BitOr => Some(Opcode::BitOr),
        BinaryOp::ShiftLeft => Some(Opcode::ShiftLeft),
        BinaryOp::ShiftRight => Some(Opcode::ShiftRight),
        _ => None,
    }
}

/// The opcode of a comparison, and whether it treats NULL as an ordinary value.
pub open spec fn comparison_op(op: BinaryOp) -> Option<(Opcode, bool)> {
    match op {
        BinaryOp::Eq => Some((Opcode::Eq, false)),
        BinaryOp::Ne => Some((Opcode::Ne, false)),
        BinaryOp::Lt => Some((Opcode::Lt, false)),
        BinaryOp::Le => Some((Opcode::Le, false)),
        BinaryOp::Gt => Some((Opcode::Gt, false)),
        BinaryOp::Ge => Some((Opcode::Ge, false)),
        BinaryOp::Is => Some((Opcode::Eq, true)),
        BinaryOp::IsNot => Some((Opcode::Ne, true)),
        _ => None,
    }
}

/// The comparison that holds exactly when the given one does not.
pub open spec fn opposite(op: Opcode) -> Opcode {
    match op {
        Opcode::Eq => Opcode::Ne,
        Opcode::Ne => Opcode::Eq,
        Opcode::Lt => Opcode::Ge,
        Opcode::Ge => Opcode::Lt,
        Opcode::Le => Opcode::Gt,
        Opcode::Gt => Opcode::Le,
        other => other,
    }
}

/// The IEEE 754 bits of the negated number.
pub open spec fn negated_bits(bits: u64) -> u64 {
    if bits >= 0x8000_0000_0000_0000 {
        (bits - 0x8000_0000_0000_0000) as u64
    } else {
        (bits + 0x8000_0000_0000_0000) as u64
    }
}

/// The negation of a numeric literal; `None` for anything else and where it does not fit.
pub open spec fn negated_literal(e: ExprView) -> Option<LiteralView> {
    match e {
        ExprView::Literal(LiteralView::Integer(n)) => if n == i64::MIN {
            None
        } else {
            Some(LiteralView::Integer((-n) as i64))
        },
        ExprView::Literal(LiteralView::Real(r)) => Some(
            LiteralView::Real(
                RealView {
                    bits: negated_bits(r.bits),
                    text: "-"@ + r.text,
                    shortest: "-"@ + r.shortest,
                },
            ),
        ),
        _ => None,
    }
}

/// A constant integer into `target`.
pub open spec fn gen_int(s: Asm, n: i64, target: i32) -> Asm {
    if i32::MIN <= n <= i32::MAX {
        s.emit(Opcode::Integer, n as i32, target, 0)
    } else {
        s.emit_p4(Opcode::Int64, 0, target, 0, P4View::Int(n))
    }
}

/// A literal into `target`.
#[verifier::opaque]
pub open spec fn gen_literal(s: Asm, lit: LiteralView, target: i32) -> Asm {
    match lit {
        LiteralView::Null => s.emit(Opcode::Null, 0, target, 0),
        LiteralView::Integer(n) => gen_int(s, n, target),
        LiteralView::Real(r) => s.emit_p4(Opcode::Real, 0, target, 0, P4View::Real(r.bits)),
        LiteralView::Text(t) => s.emit_p4(Opcode::String8, 0, target, 0, P4View::Text(t)),
        LiteralView::Blob(b) => s.emit_p4(Opcode::Blob, 0, target, 0, P4View::Blob(b)),
        LiteralView::Bool(b) => s.emit(
            Opcode::Integer,
            if b {
                1
            } else {
                0
            },
            target,
            0,
        ),
    }
}

/// The path that a literal right operand of `->` or `->>` denotes: a path as it stands, a label
/// `x` as `$.x`, an index `n` as `$[n]`, and an index from the end as `$[#-k]`.
pub open spec fn json_path(e: ExprView) -> Option<Seq<char>> {
    match e {
        ExprView::Literal(LiteralView::Text(t)) => if t.len() > 0 && t[0] == '$' {
            Some(t)
        } else {
            Some("$."@ + t)
        },
        ExprView::Literal(LiteralView::Integer(n)) => if n >= 0 {
            Some("$["@ + int_text(n as int) + "]"@)
        } else if n == i64::MIN {
            None
        } else {
            Some("$[#-"@ + int_text(-n) + "]"@)
        },
        ExprView::Unary { op, expr } => if op == UnaryOp::Negate {
            match *expr {
                ExprView::Literal(LiteralView::Integer(k)) => Some(
                    "$[#-"@ + int_text(k as int) + "]"@,
                ),
                _ => None,
            }
        } else {
            None
        },
        _ => None,
    }
}

/// The function that `->` and `->>` call.
pub open spec fn json_function(op: BinaryOp) -> Seq<char> {
    if op == BinaryOp::JsonExtract {
        "_json_arrow"@
    } else {
        "_json_arrow_text"@
    }
}

/// The outcome of a `BETWEEN` test into `target`, from the registers of its three operands: that of
/// the conjunction of its two comparisons. A comparison that fails decides it; else it is NULL if
/// an operand is.
#[verifier::opaque]
pub open spec fn gen_between(
    s: Asm,
    r: i32,
    lo: i32,
    hi: i32,
    aff: Option<Affinity>,
    negated: bool,
    target: i32,
) -> Asm {
    let p5 = (affinity_bits(aff) | P5_JUMPIFNULL) & !P5_JUMPIFNULL;
    let dest_true = s.fresh();
    let s = s.label();
    let dest_false = s.fresh();
    let s = s.label();
    let dest_null = s.fresh();
    let s = s.label();
    let dest_end = s.fresh();
    let s = s.label();
    let out = if negated {
        dest_true
    } else {
        dest_false
    };
    let inside: i32 = if negated {
        0
    } else {
        1
    };
    let outside: i32 = if negated {
        1
    } else {
        0
    };
    s.jump(Opcode::IsNull, r, dest_null, 0)
        .jump_p45(Opcode::Lt, lo, out, r, P4View::Unused, p5)
        .jump_p45(Opcode::Gt, hi, out, r, P4View::Unused, p5)
        .jump(Opcode::IsNull, lo, dest_null, 0)
        .jump(Opcode::IsNull, hi, dest_null, 0)
        .emit(Opcode::Integer, inside, target, 0)
        .jump(Opcode::Goto, 0, dest_end, 0)
        .bind(out)
        .emit(Opcode::Integer, outside, target, 0)
        .jump(Opcode::Goto, 0, dest_end, 0)
        .bind(dest_null)
        .emit(Opcode::Null, 0, target, 0)
        .bind(dest_end)
}

// ---- Expressions ----

/// Why an expression has no code.
#[verifier::opaque]
pub open spec fn refusal(e: ExprView) -> Seq<char> {
    match e {
        ExprView::BindParam(_) => "bind parameters are not supported in M3a"@,
        ExprView::In { expr, values, negated } => "IN is not supported by the executor yet"@,
        ExprView::InSubquery { expr, subquery, negated } => {
            "subqueries are not supported by the executor yet"@
        },
        ExprView::Exists(_) => "subqueries are not supported by the executor yet"@,
        ExprView::Subquery(_) => "subqueries are not supported by the executor yet"@,
        ExprView::Cast { expr, ty } => "CAST is not supported by the executor yet"@,
        ExprView::Case { base, when_then, else_expr } => {
            "CASE is not supported by the executor yet"@
        },
        ExprView::IsDistinctFrom { left, right, negated } => {
            "IS DISTINCT FROM is not supported by the executor yet"@
        },
        _ => "row-value expressions are not supported by the executor yet"@,
    }
}

/// The value of `e` into `target`.
#[verifier::opaque]
pub open spec fn gen_expr(s: Asm, e: ExprView, target: i32, ctx: CtxView) -> Asm
    decreases e, 1int,
{
    if s.err is Some {
        s
    } else {
        match e {
            ExprView::Literal(lit) => gen_literal(s, lit, target),
            ExprView::Column { schema, table, name } => gen_column(s, table, name, target, ctx),
            ExprView::Unary { op, expr } => gen_unary(s, e, target, ctx),
            ExprView::Binary { op, left, right } => gen_binary(s, e, target, ctx),
            ExprView::Function { name, distinct, args, filter, over } => {
                gen_call(s, e, target, ctx)
            },
            ExprView::Between { expr, low, high, negated } => gen_range(s, e, target, ctx),
            ExprView::Collate { expr, collation } => gen_expr(s, *expr, target, ctx),
            ExprView::AggRef(reg) => s.emit(Opcode::SCopy, reg, target, 0),
            ExprView::Coalesce2 { left, right } => gen_coalesce(s, e, target, ctx),
            _ => s.fail(refusal(e)),
        }
    }
}

/// The arguments `es[k..]`, each into its own register after `base`.
pub open spec fn gen_expr_list(s: Asm, es: Seq<ExprView>, base: i32, ctx: CtxView, k: int) -> Asm
    decreases es, es.len() - k,
{
    if s.err is Some || k < 0 || k >= es.len() {
        s
    } else {
        gen_expr_list(gen_expr(s, es[k], reg_at(base, k), ctx), es, base, ctx, k + 1)
    }
}

/// The value of a prefix operator into `target`. A negated number is loaded as a constant.
pub open spec fn gen_unary(s: Asm, e: ExprView, target: i32, ctx: CtxView) -> Asm
    decreases e, 0int,
{
    match e {
        ExprView::Unary { op, expr } => {
            let tmp = s.next_reg;
            match op {
                UnaryOp::Negate => match negated_literal(*expr) {
                    Some(lit) => gen_literal(s, lit, target),
                    None => {
                        let s = gen_expr(s.take_regs(1), *expr, tmp, ctx);
                        let zero = s.next_reg;
                        s.take_regs(1).emit(Opcode::Integer, 0, zero, 0).emit(
                            Opcode::Subtract,
                            tmp,
                            zero,
                            target,
                        )
                    },
                },
                UnaryOp::Positive => gen_expr(s, *expr, target, ctx),
                UnaryOp::Not => gen_expr(s.take_regs(1), *expr, tmp, ctx).emit(
                    Opcode::Not,
                    tmp,
                    target,
                    0,
                ),
                UnaryOp::BitNot => gen_expr(s.take_regs(1), *expr, tmp, ctx).emit(
                    Opcode::BitNot,
                    tmp,
                    target,
                    0,
                ),
            }
        },
        _ => s,
    }
}

/// The last instruction of an infix operator, whose operands are in `rl` and `rr`.
#[verifier::opaque]
pub open spec fn gen_operator(
    s: Asm,
    op: BinaryOp,
    left: ExprView,
    right: ExprView,
    rl: i32,
    rr: i32,
    target: i32,
    ctx: CtxView,
) -> Asm {
    match arithmetic_op(op) {
        Some(opcode) => s.emit(opcode, rr, rl, target),
        None => match comparison_op(op) {
            Some((opcode, nulleq)) => {
                let flags = affinity_bits(joint_affinity(left, right, ctx.table)) | P5_STOREP2;
                s.emit_p45(
                    opcode,
                    rr,
                    target,
                    rl,
                    comparison_p4(left, right, ctx),
                    if nulleq {
                        flags | P5_NULLEQ
                    } else {
                        flags
                    },
                )
            },
            None => s.emit(
                if op == BinaryOp::And {
                    Opcode::And
                } else {
                    Opcode::Or
                },
                rl,
                rr,
                target,
            ),
        },
    }
}

/// The value of an infix operator into `target`.
pub open spec fn gen_binary(s: Asm, e: ExprView, target: i32, ctx: CtxView) -> Asm
    decreases e, 0int,
{
    match e {
        ExprView::Binary { op, left, right } => {
            if op == BinaryOp::Like || op == BinaryOp::Glob {
                // The pattern is the first argument.
                let start = s.next_reg;
                let s = gen_expr(s.take_regs(2), *right, start, ctx);
                let s = gen_expr(s, *left, reg_at(start, 1), ctx);
                let name = if op == BinaryOp::Like {
                    "like"@
                } else {
                    "glob"@
                };
                s.emit_p45(Opcode::Function, 0, start, target, P4View::Symbol(name), 2)
            } else if op == BinaryOp::JsonExtract || op == BinaryOp::JsonExtractText {
                let start = s.next_reg;
                let s = gen_expr(s.take_regs(2), *left, start, ctx);
                let s = match json_path(*right) {
                    Some(path) => s.emit_p4(
                        Opcode::String8,
                        0,
                        reg_at(start, 1),
                        0,
                        P4View::Text(path),
                    ),
                    None => gen_expr(s, *right, reg_at(start, 1), ctx),
                };
                s.emit_p45(
                    Opcode::Function,
                    0,
                    start,
                    target,
                    P4View::Symbol(json_function(op)),
                    2,
                )
            } else if op == BinaryOp::Regexp || op == BinaryOp::Match {
                s.fail("REGEXP / MATCH operators are not supported by the executor yet"@)
            } else {
                let rl = s.next_reg;
                let s = gen_expr(s.take_regs(1), *left, rl, ctx);
                let rr = s.next_reg;
                let s = gen_expr(s.take_regs(1), *right, rr, ctx);
                gen_operator(s, op, *left, *right, rl, rr, target, ctx)
            }
        },
        _ => s,
    }
}

/// The value of a scalar function call into `target`.
pub open spec fn gen_call(s: Asm, e: ExprView, target: i32, ctx: CtxView) -> Asm
    decreases e, 0int,
{
    match e {
        ExprView::Function { name, distinct, args, filter, over } => if distinct {
            s.fail("DISTINCT in function arguments is not supported in M3a"@)
        } else {
            match args {
                FunctionArgsView::Star => s.fail(name + "(*) is not supported in M3a"@),
                FunctionArgsView::List(es) => match ctx.functions.call_error(
                    name,
                    es.len() as int,
                ) {
                    Some(m) => s.fail(m),
                    None => {
                        let start = s.next_reg;
                        gen_expr_list(s.take_regs(es.len() as i32), es, start, ctx, 0).emit_p45(
                            Opcode::Function,
                            0,
                            start,
                            target,
                            P4View::Symbol(name),
                            es.len() as u8,
                        )
                    },
                },
            }
        },
        _ => s,
    }
}

/// The value of a `BETWEEN` into `target`.
pub open spec fn gen_range(s: Asm, e: ExprView, target: i32, ctx: CtxView) -> Asm
    decreases e, 0int,
{
    match e {
        ExprView::Between { expr, low, high, negated } => {
            let r = s.next_reg;
            let s = gen_expr(s.take_regs(1), *expr, r, ctx);
            let lo = s.next_reg;
            let s = gen_expr(s.take_regs(1), *low, lo, ctx);
            let hi = s.next_reg;
            let s = gen_expr(s.take_regs(1), *high, hi, ctx);
            let aff = between_affinity(*expr, *low, *high, ctx.table);
            gen_between(s, r, lo, hi, aff, negated, target)
        },
        _ => s,
    }
}

/// The left value unless it is NULL, else the right value, into `target`.
pub open spec fn gen_coalesce(s: Asm, e: ExprView, target: i32, ctx: CtxView) -> Asm
    decreases e, 0int,
{
    match e {
        ExprView::Coalesce2 { left, right } => {
            let s = gen_expr(s, *left, target, ctx);
            let not_null = s.fresh();
            let s = s.label().jump(Opcode::NotNull, target, not_null, 0);
            gen_expr(s, *right, target, ctx).bind(not_null)
        },
        _ => s,
    }
}

/// A jump to label `d` when `e` is true (`when_true`) or false, and also when it is NULL if
/// `when_null`.
#[verifier::opaque]
pub open spec fn gen_jump(
    s: Asm,
    e: ExprView,
    d: int,
    when_true: bool,
    when_null: bool,
    ctx: CtxView,
) -> Asm
    decreases e, 1int,
{
    if s.err is Some {
        s
    } else {
        match e {
            ExprView::Binary { op, left, right } if op == BinaryOp::And || op == BinaryOp::Or => {
                gen_logic_jump(s, e, d, when_true, when_null, ctx)
            },
            ExprView::Unary { op, expr } if op == UnaryOp::Not => gen_jump(
                s,
                *expr,
                d,
                !when_true,
                when_null,
                ctx,
            ),
            ExprView::Between { expr, low, high, negated } => {
                gen_range_jump(s, *expr, *low, *high, negated, d, when_true, when_null, ctx)
            },
            ExprView::Binary { op, left, right } if comparison_op(op) is Some => {
                gen_comparison_jump(s, op, *left, *right, d, when_true, when_null, ctx)
            },
            _ => gen_value_jump(s, e, d, when_true, when_null, ctx),
        }
    }
}

/// The jump of an `AND` or an `OR`. Where both sides must agree, the left side can only rule the
/// jump out.
pub open spec fn gen_logic_jump(
    s: Asm,
    e: ExprView,
    d: int,
    when_true: bool,
    when_null: bool,
    ctx: CtxView,
) -> Asm
    decreases e, 0int,
{
    match e {
        ExprView::Binary { op, left, right } => {
            if when_true == (op == BinaryOp::Or) {
                let s = gen_jump(s, *left, d, when_true, when_null, ctx);
                gen_jump(s, *right, d, when_true, when_null, ctx)
            } else {
                let d2 = s.fresh();
                let s = gen_jump(s.label(), *left, d2, !when_true, !when_null, ctx);
                gen_jump(s, *right, d, when_true, when_null, ctx).bind(d2)
            }
        },
        _ => s,
    }
}

/// The jump of a `BETWEEN`.
#[verifier::opaque]
pub open spec fn gen_range_jump(
    s: Asm,
    expr: ExprView,
    low: ExprView,
    high: ExprView,
    negated: bool,
    d: int,
    when_true: bool,
    when_null: bool,
    ctx: CtxView,
) -> Asm {
    let r = s.next_reg;
    let s = gen_expr(s.take_regs(1), expr, r, ctx);
    let lo = s.next_reg;
    let s = gen_expr(s.take_regs(1), low, lo, ctx);
    let hi = s.next_reg;
    let s = gen_expr(s.take_regs(1), high, hi, ctx);
    let aff = affinity_bits(between_affinity(expr, low, high, ctx.table));
    let p5 = aff | (if when_null {
        P5_JUMPIFNULL
    } else {
        0
    });
    let p5_short = aff | (if !when_null {
        P5_JUMPIFNULL
    } else {
        0
    });
    if when_true == negated {
        // Out of range on either side takes the jump.
        s.jump_p45(Opcode::Lt, lo, d, r, P4View::Unused, p5).jump_p45(
            Opcode::Gt,
            hi,
            d,
            r,
            P4View::Unused,
            p5,
        )
    } else {
        let d2 = s.fresh();
        s.label().jump_p45(Opcode::Lt, lo, d2, r, P4View::Unused, p5_short).jump_p45(
            Opcode::Le,
            hi,
            d,
            r,
            P4View::Unused,
            p5,
        ).bind(d2)
    }
}

/// The jump of a comparison: the comparison itself, or its opposite.
#[verifier::opaque]
pub open spec fn gen_comparison_jump(
    s: Asm,
    op: BinaryOp,
    left: ExprView,
    right: ExprView,
    d: int,
    when_true: bool,
    when_null: bool,
    ctx: CtxView,
) -> Asm {
    let (opcode, nulleq) = comparison_op(op)->0;
    let rl = s.next_reg;
    let s = gen_expr(s.take_regs(1), left, rl, ctx);
    let rr = s.next_reg;
    let s = gen_expr(s.take_regs(1), right, rr, ctx);
    let aff = affinity_bits(joint_affinity(left, right, ctx.table));
    s.jump_p45(
        if when_true {
            opcode
        } else {
            opposite(opcode)
        },
        rr,
        d,
        rl,
        comparison_p4(left, right, ctx),
        if nulleq {
            aff | P5_NULLEQ
        } else if when_null {
            aff | P5_JUMPIFNULL
        } else {
            aff
        },
    )
}

/// The jump of any other expression, on its value.
#[verifier::opaque]
pub open spec fn gen_value_jump(
    s: Asm,
    e: ExprView,
    d: int,
    when_true: bool,
    when_null: bool,
    ctx: CtxView,
) -> Asm {
    let r = s.next_reg;
    gen_expr(s.take_regs(1), e, r, ctx).jump(
        if when_true {
            Opcode::If
        } else {
            Opcode::IfNot
        },
        r,
        d,
        if when_null {
            1
        } else {
            0
        },
    )
}

fn arith_opcode(op: BinaryOp) -> (r: Option<Opcode>)
    ensures
        r == arithmetic_op(op),
{
    match op {
        BinaryOp::Add => Some(Opcode::Add),
        BinaryOp::Sub => Some(Opcode::Subtract),
        BinaryOp::Mul => Some(Opcode::Multiply),
        BinaryOp::Div => Some(Opcode::Divide),
        BinaryOp::Mod => Some(Opcode::Remainder),
        BinaryOp::Concat => Some(Opcode::Concat),
        BinaryOp::BitAnd => Some(Opcode::BitAnd),
        BinaryOp::BitOr => Some(Opcode::BitOr),
        BinaryOp::ShiftLeft => Some(Opcode::ShiftLeft),
        BinaryOp::ShiftRight => Some(Opcode::ShiftRight),
        _ => None,
    }
}

fn cmp_opcode(op: BinaryOp) -> (r: Option<(Opcode, bool)>)
    ensures
        r == comparison_op(op),
{
    match op {
        BinaryOp::Eq => Some((Opcode::Eq, false)),
        BinaryOp::Ne => Some((Opcode::Ne, false)),
        BinaryOp::Lt => Some((Opcode::Lt, false)),
        BinaryOp::Le => Some((Opcode::Le, false)),
        BinaryOp::Gt => Some((Opcode::Gt, false)),
        BinaryOp::Ge => Some((Opcode::Ge, false)),
        BinaryOp::Is => Some((Opcode::Eq, true)),
        BinaryOp::IsNot => Some((Opcode::Ne, true)),
        _ => None,
    }
}

fn negate_cmp(op: Opcode) -> (r: Opcode)
    ensures
        r == opposite(op),
{
    match op {
        Opcode::Eq => Opcode::Ne,
        Opcode::Ne => Opcode::Eq,
        Opcode::Lt => Opcode::Ge,
        Opcode::Ge => Opcode::Lt,
        Opcode::Le => Opcode::Gt,
        Opcode::Gt => Opcode::Le,
        other => other,
    }
}

/// Negating a comparison twice gives it back.
pub proof fn law_opposite_involution(op: Opcode)
    ensures
        opposite(opposite(op)) == op,
{
}

/// The IEEE 754 bits of the negated number.
pub fn negate_bits(bits: u64) -> (r: u64)
    ensures
        r == negated_bits(bits),
{
    if bits >= 0x8000_0000_0000_0000 {
        bits - 0x8000_0000_0000_0000
    } else {
        bits + 0x8000_0000_0000_0000
    }
}

fn const_negate(e: &Expr) -> (r: Option<Literal>)
    ensures
        match r {
            None => negated_literal(e@) is None,
            Some(lit) => negated_literal(e@) == Some(lit@),
        },
{
    match e {
        Expr::Literal(Literal::Integer(n)) => {
            if *n == i64::MIN {
                None
            } else {
                Some(Literal::Integer(-*n))
            }
        },
        Expr::Literal(Literal::Real(r)) => Some(
            Literal::Real(
                Real {
                    bits: negate_bits(r.bits),
                    text: cat2("-", r.text.as_str()),
                    shortest: cat2("-", r.shortest.as_str()),
                },
            ),
        ),
        _ => None,
    }
}

/// Emit a load of a constant integer into `target`.
pub fn emit_constant(b: &mut ProgramBuilder, n: i64, target: i32)
    ensures
        final(b)@ == gen_int(old(b)@, n, target),
        steady(old(b)@, final(b)@),
{
    if -2147483648 <= n && n <= 2147483647 {
        b.emit(Opcode::Integer, n as i32, target, 0);
    } else {
        b.emit_p4(Opcode::Int64, 0, target, 0, P4::Int(n));
    }
}

/// Emit a load of a literal into `target`.
pub fn compile_literal(b: &mut ProgramBuilder, lit: &Literal, target: i32)
    ensures
        final(b)@ == gen_literal(old(b)@, lit@, target),
        steady(old(b)@, final(b)@),
{
    reveal(gen_literal);
    match lit {
        Literal::Null => {
            b.emit(Opcode::Null, 0, target, 0);
        },
        Literal::Integer(n) => {
            emit_constant(b, *n, target);
        },
        Literal::Real(r) => {
            b.emit_p4(Opcode::Real, 0, target, 0, P4::Real(r.bits));
        },
        Literal::Text(t) => {
            b.emit_p4(Opcode::String8, 0, target, 0, P4::Text(t.clone()));
        },
        Literal::Blob(bytes) => {
            b.emit_p4(Opcode::Blob, 0, target, 0, P4::Blob(crate::text::clone_bytes(bytes)));
        },
        Literal::Bool(x) => {
            let n: i32 = if *x {
                1
            } else {
                0
            };
            b.emit(Opcode::Integer, n, target, 0);
        },
    }
}

/// The path that a literal right operand of `->` or `->>` denotes.
pub fn json_arrow_path_literal(right: &Expr) -> (r: Option<String>)
    ensures
        match r {
            None => json_path(right@) is None,
            Some(p) => json_path(right@) == Some(p@),
        },
{
    reveal_with_fuel(expr_view, 2);
    match right {
        Expr::Literal(Literal::Text(t)) => {
            let v = chars_of(t.as_str());
            if v.len() > 0 && v[0] == '$' {
                Some(t.clone())
            } else {
                Some(cat2("$.", t.as_str()))
            }
        },
        Expr::Literal(Literal::Integer(n)) => {
            if *n >= 0 {
                let d = decimal_i64(*n);
                Some(cat3("$[", d.as_str(), "]"))
            } else if *n == i64::MIN {
                None
            } else {
                let d = decimal_i64(-*n);
                Some(cat3("$[#-", d.as_str(), "]"))
            }
        },
        Expr::Unary { op, expr } => {
            if *op == UnaryOp::Negate {
                match &**expr {
                    Expr::Literal(Literal::Integer(k)) => {
                        let d = decimal_i64(*k);
                        Some(cat3("$[#-", d.as_str(), "]"))
                    },
                    _ => None,
                }
            } else {
                None
            }
        },
        _ => None,
    }
}

fn emit_between(
    b: &mut ProgramBuilder,
    r: i32,
    lo: i32,
    hi: i32,
    aff: Option<Affinity>,
    negated: bool,
    target: i32,
)
    ensures
        final(b)@ == gen_between(old(b)@, r, lo, hi, aff, negated, target),
        steady(old(b)@, final(b)@),
{
    reveal(gen_between);
    let p5: u8 = (aff_to_p5(aff) | P5_JUMPIFNULL) & !P5_JUMPIFNULL;
    let dest_true = b.new_label();
    let dest_false = b.new_label();
    let dest_null = b.new_label();
    let dest_end = b.new_label();
    let out = if negated {
        dest_true
    } else {
        dest_false
    };
    let inside: i32 = if negated {
        0
    } else {
        1
    };
    let outside: i32 = if negated {
        1
    } else {
        0
    };
    b.emit_jump(Opcode::IsNull, r, dest_null, 0);
    b.emit_jump_p45(Opcode::Lt, lo, out, r, P4::Unused, p5);
    b.emit_jump_p45(Opcode::Gt, hi, out, r, P4::Unused, p5);
    b.emit_jump(Opcode::IsNull, lo, dest_null, 0);
    b.emit_jump(Opcode::IsNull, hi, dest_null, 0);
    b.emit(Opcode::Integer, inside, target, 0);
    b.emit_jump(Opcode::Goto, 0, dest_end, 0);
    b.resolve(out);
    b.emit(Opcode::Integer, outside, target, 0);
    b.emit_jump(Opcode::Goto, 0, dest_end, 0);
    b.resolve(dest_null);
    b.emit(Opcode::Null, 0, target, 0);
    b.resolve(dest_end);
}

/// Nothing is emitted after an error.
pub broadcast proof fn expr_stuck(s: Asm, e: ExprView, target: i32, ctx: CtxView)
    requires
        s.err is Some,
    ensures
        #[trigger] gen_expr(s, e, target, ctx) == s,
{
    reveal(gen_expr);
}

/// Nothing is emitted after an error.
pub broadcast proof fn jump_stuck(
    s: Asm,
    e: ExprView,
    d: int,
    when_true: bool,
    when_null: bool,
    ctx: CtxView,
)
    requires
        s.err is Some,
    ensures
        #[trigger] gen_jump(s, e, d, when_true, when_null, ctx) == s,
{
    reveal(gen_jump);
}

pub broadcast group group_expr {
    group_asm,
    expr_stuck,
    jump_stuck,
}

fn compile_expr_list(b: &mut ProgramBuilder, es: &Vec<Expr>, base: i32, ctx: Ctx) -> (r: Result<
    (),
    Error,
>)
    ensures
        emitted(r, final(b)@, gen_expr_list(old(b)@, exprs_view(es@), base, ctx@, 0)),
        r is Ok ==> steady(old(b)@, final(b)@),
    decreases es, 0int,
{
    let ghost want = gen_expr_list(b@, exprs_view(es@), base, ctx@, 0);
    for k in 0..es.len()
        invariant
            gen_expr_list(b@, exprs_view(es@), base, ctx@, k as int) == want,
            want == gen_expr_list(old(b)@, exprs_view(es@), base, ctx@, 0),
            steady(old(b)@, b@),
    {
        proof {
            reveal_with_fuel(gen_expr_list, 2);
            reveal(gen_expr);
            assert(decreases_to!(*es => es@[k as int]));
            assert(exprs_view(es@)[k as int] == es@[k as int]@);
        }
        if let Err(err) = compile_expr(b, &es[k], reg_off(base, k), ctx) {
            return Err(err);
        }
    }
    Ok(())
}

/// Emit code computing `e` into register `target`.
pub fn compile_expr(b: &mut ProgramBuilder, e: &Expr, target: i32, ctx: Ctx) -> (r: Result<
    (),
    Error,
>)
    ensures
        emitted(r, final(b)@, gen_expr(old(b)@, e@, target, ctx@)),
        r is Ok ==> steady(old(b)@, final(b)@),
    decreases e, 1int,
{
    reveal(gen_expr);
    match e {
        Expr::Literal(lit) => {
            compile_literal(b, lit, target);
            Ok(())
        },
        Expr::Column { schema, table, name } => {
            compile_column(b, name_ref(table), name.as_str(), target, ctx)
        },
        Expr::Unary { op, expr } => compile_unary(b, e, target, ctx),
        Expr::Binary { op, left, right } => compile_binary(b, e, target, ctx),
        Expr::Function { name, distinct, args, filter, over } => compile_call(b, e, target, ctx),
        Expr::Between { expr, low, high, negated } => compile_range(b, e, target, ctx),
        Expr::Collate { expr, collation } => compile_expr(b, expr, target, ctx),
        Expr::AggRef(reg) => {
            b.emit(Opcode::SCopy, *reg, target, 0);
            Ok(())
        },
        Expr::Coalesce2 { left, right } => compile_coalesce(b, e, target, ctx),
        other => Err(Error::lit(refuse(other))),
    }
}

fn refuse(e: &Expr) -> (r: &'static str)
    ensures
        r@ == refusal(e@),
{
    reveal(refusal);
    match e {
        Expr::BindParam(_) => "bind parameters are not supported in M3a",
        Expr::In { expr, values, negated } => "IN is not supported by the executor yet",
        Expr::InSubquery { expr, subquery, negated } => {
            "subqueries are not supported by the executor yet"
        },
        Expr::Exists(_) => "subqueries are not supported by the executor yet",
        Expr::Subquery(_) => "subqueries are not supported by the executor yet",
        Expr::Cast { expr, ty } => "CAST is not supported by the executor yet",
        Expr::Case { base, when_then, else_expr } => "CASE is not supported by the executor yet",
        Expr::IsDistinctFrom { left, right, negated } => {
            "IS DISTINCT FROM is not supported by the executor yet"
        },
        _ => "row-value expressions are not supported by the executor yet",
    }
}

fn compile_unary(b: &mut ProgramBuilder, e: &Expr, target: i32, ctx: Ctx) -> (r: Result<(), Error>)
    requires
        e is Unary,
    ensures
        emitted(r, final(b)@, gen_unary(old(b)@, e@, target, ctx@)),
        r is Ok ==> steady(old(b)@, final(b)@),
    decreases e, 0int,
{
    reveal(gen_expr);
    if let Expr::Unary { op, expr } = e {
        match *op {
            UnaryOp::Negate => {
                if let Some(lit) = const_negate(expr) {
                    compile_literal(b, &lit, target);
                } else {
                    let tmp: i32 = b.alloc_reg();
                    if let Err(err) = compile_expr(b, expr, tmp, ctx) {
                        return Err(err);
                    }
                    let zero: i32 = b.alloc_reg();
                    b.emit(Opcode::Integer, 0, zero, 0);
                    b.emit(Opcode::Subtract, tmp, zero, target);
                }
                Ok(())
            },
            UnaryOp::Positive => compile_expr(b, expr, target, ctx),
            UnaryOp::Not => {
                let tmp: i32 = b.alloc_reg();
                if let Err(err) = compile_expr(b, expr, tmp, ctx) {
                    return Err(err);
                }
                b.emit(Opcode::Not, tmp, target, 0);
                Ok(())
            },
            UnaryOp::BitNot => {
                let tmp: i32 = b.alloc_reg();
                if let Err(err) = compile_expr(b, expr, tmp, ctx) {
                    return Err(err);
                }
                b.emit(Opcode::BitNot, tmp, target, 0);
                Ok(())
            },
        }
    } else {
        Ok(())
    }
}

fn emit_operator(
    b: &mut ProgramBuilder,
    op: BinaryOp,
    left: &Expr,
    right: &Expr,
    rl: i32,
    rr: i32,
    target: i32,
    ctx: Ctx,
)
    ensures
        final(b)@ == gen_operator(old(b)@, op, left@, right@, rl, rr, target, ctx@),
        steady(old(b)@, final(b)@),
{
    reveal(gen_operator);
    if let Some(opcode) = arith_opcode(op) {
        b.emit(opcode, rr, rl, target);
    } else if let Some((opcode, nulleq)) = cmp_opcode(op) {
        let aff = comparison_affinity(left, right, ctx);
        let mut p5: u8 = aff_to_p5(aff) | P5_STOREP2;
        if nulleq {
            p5 = p5 | P5_NULLEQ;
        }
        let p4 = collation_operand(left, right, ctx);
        b.emit_p45(opcode, rr, target, rl, p4, p5);
    } else {
        let opcode = if op == BinaryOp::And {
            Opcode::And
        } else {
            Opcode::Or
        };
        b.emit(opcode, rl, rr, target);
    }
}

fn compile_binary(b: &mut ProgramBuilder, e: &Expr, target: i32, ctx: Ctx) -> (r: Result<
    (),
    Error,
>)
    requires
        e is Binary,
    ensures
        emitted(r, final(b)@, gen_binary(old(b)@, e@, target, ctx@)),
        r is Ok ==> steady(old(b)@, final(b)@),
    decreases e, 0int,
{
    reveal(gen_expr);
    reveal_with_fuel(gen_binary, 2);
    if let Expr::Binary { op, left, right } = e {
        let op: BinaryOp = *op;
        if op == BinaryOp::Like || op == BinaryOp::Glob {
            let start: i32 = b.alloc_regs(2);
            if let Err(err) = compile_expr(b, right, start, ctx) {
                return Err(err);
            }
            if let Err(err) = compile_expr(b, left, reg_off(start, 1), ctx) {
                return Err(err);
            }
            let name = if op == BinaryOp::Like {
                owned("like")
            } else {
                owned("glob")
            };
            b.emit_p45(Opcode::Function, 0, start, target, P4::Symbol(name), 2);
            return Ok(());
        }
        if op == BinaryOp::JsonExtract || op == BinaryOp::JsonExtractText {
            let start: i32 = b.alloc_regs(2);
            if let Err(err) = compile_expr(b, left, start, ctx) {
                return Err(err);
            }
            if let Some(path) = json_arrow_path_literal(right) {
                b.emit_p4(Opcode::String8, 0, reg_off(start, 1), 0, P4::Text(path));
            } else {
                if let Err(err) = compile_expr(b, right, reg_off(start, 1), ctx) {
                    return Err(err);
                }
            }
            let name = if op == BinaryOp::JsonExtract {
                owned("_json_arrow")
            } else {
                owned("_json_arrow_text")
            };
            b.emit_p45(Opcode::Function, 0, start, target, P4::Symbol(name), 2);
            return Ok(());
        }
        if op == BinaryOp::Regexp || op == BinaryOp::Match {
            return Err(Error::lit("REGEXP / MATCH operators are not supported by the executor yet"));
        }
        let rl: i32 = b.alloc_reg();
        if let Err(err) = compile_expr(b, left, rl, ctx) {
            reveal(gen_operator);
            return Err(err);
        }
        let rr: i32 = b.alloc_reg();
        if let Err(err) = compile_expr(b, right, rr, ctx) {
            reveal(gen_operator);
            return Err(err);
        }
        emit_operator(b, op, left, right, rl, rr, target, ctx);
        Ok(())
    } else {
        Ok(())
    }
}

fn compile_call(b: &mut ProgramBuilder, e: &Expr, target: i32, ctx: Ctx) -> (r: Result<(), Error>)
    requires
        e is Function,
    ensures
        emitted(r, final(b)@, gen_call(old(b)@, e@, target, ctx@)),
        r is Ok ==> steady(old(b)@, final(b)@),
    decreases e, 0int,
{
    reveal(gen_expr);
    if let Expr::Function { name, distinct, args, filter, over } = e {
        if *distinct {
            return Err(Error::lit("DISTINCT in function arguments is not supported in M3a"));
        }
        match args {
            FunctionArgs::Star => Err(
                Error::msg(cat2(name.as_str(), "(*) is not supported in M3a")),
            ),
            FunctionArgs::List(es) => {
                assert(function_args_view(*args) == FunctionArgsView::List(exprs_view(es@)));
                if let Err(err) = ctx.functions.check(name.as_str(), es.len()) {
                    return Err(err);
                }
                let start: i32 = b.alloc_regs(es.len() as i32);
                if let Err(err) = compile_expr_list(b, es, start, ctx) {
                    return Err(err);
                }
                b.emit_p45(
                    Opcode::Function,
                    0,
                    start,
                    target,
                    P4::Symbol(name.clone()),
                    es.len() as u8,
                );
                Ok(())
            },
        }
    } else {
        Ok(())
    }
}

fn compile_range(b: &mut ProgramBuilder, e: &Expr, target: i32, ctx: Ctx) -> (r: Result<(), Error>)
    requires
        e is Between,
    ensures
        emitted(r, final(b)@, gen_range(old(b)@, e@, target, ctx@)),
        r is Ok ==> steady(old(b)@, final(b)@),
    decreases e, 0int,
{
    reveal(gen_expr);
    reveal_with_fuel(gen_range, 2);
    if let Expr::Between { expr, low, high, negated } = e {
        let r: i32 = b.alloc_reg();
        if let Err(err) = compile_expr(b, expr, r, ctx) {
            reveal(gen_between);
            return Err(err);
        }
        let lo: i32 = b.alloc_reg();
        if let Err(err) = compile_expr(b, low, lo, ctx) {
            reveal(gen_between);
            return Err(err);
        }
        let hi: i32 = b.alloc_reg();
        if let Err(err) = compile_expr(b, high, hi, ctx) {
            reveal(gen_between);
            return Err(err);
        }
        let aff = range_affinity(expr, low, high, ctx);
        emit_between(b, r, lo, hi, aff, *negated, target);
    }
    Ok(())
}

fn compile_coalesce(b: &mut ProgramBuilder, e: &Expr, target: i32, ctx: Ctx) -> (r: Result<
    (),
    Error,
>)
    requires
        e is Coalesce2,
    ensures
        emitted(r, final(b)@, gen_coalesce(old(b)@, e@, target, ctx@)),
        r is Ok ==> steady(old(b)@, final(b)@),
    decreases e, 0int,
{
    reveal(gen_expr);
    reveal_with_fuel(gen_coalesce, 2);
    if let Expr::Coalesce2 { left, right } = e {
        if let Err(err) = compile_expr(b, left, target, ctx) {
            return Err(err);
        }
        let not_null = b.new_label();
        b.emit_jump(Opcode::NotNull, target, not_null, 0);
        if let Err(err) = compile_expr(b, right, target, ctx) {
            return Err(err);
        }
        b.resolve(not_null);
    }
    Ok(())
}

/// Emit code that jumps to `label` when `e` is true (`jump_if_true`) or false (otherwise).
/// `jump_if_null` says whether a NULL result also takes the jump. A `WHERE` clause is compiled
/// with `jump_if_true = false` and `jump_if_null = true`: a NULL predicate skips the row.
pub fn compile_jump(
    b: &mut ProgramBuilder,
    e: &Expr,
    label: Label,
    jump_if_true: bool,
    jump_if_null: bool,
    ctx: Ctx,
) -> (r: Result<(), Error>)
    requires
        label.id() < old(b)@.fresh(),
    ensures
        emitted(
            r,
            final(b)@,
            gen_jump(old(b)@, e@, label.id(), jump_if_true, jump_if_null, ctx@),
        ),
        r is Ok ==> heads_for(old(b)@, final(b)@, label.id()),
    decreases e, 1int,
{
    reveal(gen_jump);
    match e {
        Expr::Binary { op, left, right } if *op == BinaryOp::And || *op == BinaryOp::Or => {
            compile_logic_jump(b, e, label, jump_if_true, jump_if_null, ctx)
        },
        Expr::Unary { op, expr } if *op == UnaryOp::Not => compile_jump(
            b,
            expr,
            label,
            !jump_if_true,
            jump_if_null,
            ctx,
        ),
        Expr::Between { expr, low, high, negated } => compile_range_jump(
            b,
            expr,
            low,
            high,
            *negated,
            label,
            jump_if_true,
            jump_if_null,
            ctx,
        ),
        Expr::Binary { op, left, right } if cmp_opcode(*op).is_some() => compile_comparison_jump(
            b,
            *op,
            left,
            right,
            label,
            jump_if_true,
            jump_if_null,
            ctx,
        ),
        other => compile_value_jump(b, other, label, jump_if_true, jump_if_null, ctx),
    }
}

fn compile_logic_jump(
    b: &mut ProgramBuilder,
    e: &Expr,
    label: Label,
    jump_if_true: bool,
    jump_if_null: bool,
    ctx: Ctx,
) -> (r: Result<(), Error>)
    requires
        label.id() < old(b)@.fresh(),
        e is Binary,
    ensures
        emitted(
            r,
            final(b)@,
            gen_logic_jump(old(b)@, e@, label.id(), jump_if_true, jump_if_null, ctx@),
        ),
        r is Ok ==> heads_for(old(b)@, final(b)@, label.id()),
    decreases e, 0int,
{
    reveal(gen_jump);
    reveal_with_fuel(gen_logic_jump, 2);
    if let Expr::Binary { op, left, right } = e {
        if jump_if_true == (*op == BinaryOp::Or) {
            if let Err(err) = compile_jump(b, left, label, jump_if_true, jump_if_null, ctx) {
                return Err(err);
            }
            if let Err(err) = compile_jump(b, right, label, jump_if_true, jump_if_null, ctx) {
                return Err(err);
            }
        } else {
            let d2 = b.new_label();
            if let Err(err) = compile_jump(b, left, d2, !jump_if_true, !jump_if_null, ctx) {
                return Err(err);
            }
            if let Err(err) = compile_jump(b, right, label, jump_if_true, jump_if_null, ctx) {
                return Err(err);
            }
            b.resolve(d2);
        }
    }
    Ok(())
}

fn compile_range_jump(
    b: &mut ProgramBuilder,
    expr: &Expr,
    low: &Expr,
    high: &Expr,
    negated: bool,
    label: Label,
    jump_if_true: bool,
    jump_if_null: bool,
    ctx: Ctx,
) -> (r: Result<(), Error>)
    requires
        label.id() < old(b)@.fresh(),
    ensures
        emitted(
            r,
            final(b)@,
            gen_range_jump(
                old(b)@,
                expr@,
                low@,
                high@,
                negated,
                label.id(),
                jump_if_true,
                jump_if_null,
                ctx@,
            ),
        ),
        r is Ok ==> heads_for(old(b)@, final(b)@, label.id()),
{
    broadcast use expr_stuck;

    reveal(gen_range_jump);
    let r: i32 = b.alloc_reg();
    if let Err(err) = compile_expr(b, expr, r, ctx) {
        return Err(err);
    }
    let lo: i32 = b.alloc_reg();
    if let Err(err) = compile_expr(b, low, lo, ctx) {
        return Err(err);
    }
    let hi: i32 = b.alloc_reg();
    if let Err(err) = compile_expr(b, high, hi, ctx) {
        return Err(err);
    }
    let aff = aff_to_p5(range_affinity(expr, low, high, ctx));
    let on_null: u8 = if jump_if_null {
        P5_JUMPIFNULL
    } else {
        0
    };
    let on_null_short: u8 = if !jump_if_null {
        P5_JUMPIFNULL
    } else {
        0
    };
    let p5: u8 = aff | on_null;
    let p5_short: u8 = aff | on_null_short;
    if jump_if_true == negated {
        b.emit_jump_p45(Opcode::Lt, lo, label, r, P4::Unused, p5);
        b.emit_jump_p45(Opcode::Gt, hi, label, r, P4::Unused, p5);
    } else {
        let d2 = b.new_label();
        b.emit_jump_p45(Opcode::Lt, lo, d2, r, P4::Unused, p5_short);
        b.emit_jump_p45(Opcode::Le, hi, label, r, P4::Unused, p5);
        b.resolve(d2);
    }
    Ok(())
}

fn compile_comparison_jump(
    b: &mut ProgramBuilder,
    op: BinaryOp,
    left: &Expr,
    right: &Expr,
    label: Label,
    jump_if_true: bool,
    jump_if_null: bool,
    ctx: Ctx,
) -> (r: Result<(), Error>)
    requires
        label.id() < old(b)@.fresh(),
        comparison_op(op) is Some,
    ensures
        emitted(
            r,
            final(b)@,
            gen_comparison_jump(
                old(b)@,
                op,
                left@,
                right@,
                label.id(),
                jump_if_true,
                jump_if_null,
                ctx@,
            ),
        ),
        r is Ok ==> heads_for(old(b)@, final(b)@, label.id()),
{
    broadcast use expr_stuck;

    reveal(gen_comparison_jump);
    let (opcode, nulleq) = cmp_opcode(op).unwrap();
    let rl: i32 = b.alloc_reg();
    if let Err(err) = compile_expr(b, left, rl, ctx) {
        return Err(err);
    }
    let rr: i32 = b.alloc_reg();
    if let Err(err) = compile_expr(b, right, rr, ctx) {
        return Err(err);
    }
    let aff = comparison_affinity(left, right, ctx);
    let emit_op = if jump_if_true {
        opcode
    } else {
        negate_cmp(opcode)
    };
    let mut p5: u8 = aff_to_p5(aff);
    if nulleq {
        p5 = p5 | P5_NULLEQ;
    } else if jump_if_null {
        p5 = p5 | P5_JUMPIFNULL;
    }
    let p4 = collation_operand(left, right, ctx);
    b.emit_jump_p45(emit_op, rr, label, rl, p4, p5);
    Ok(())
}

fn compile_value_jump(
    b: &mut ProgramBuilder,
    e: &Expr,
    label: Label,
    jump_if_true: bool,
    jump_if_null: bool,
    ctx: Ctx,
) -> (r: Result<(), Error>)
    requires
        label.id() < old(b)@.fresh(),
    ensures
        emitted(
            r,
            final(b)@,
            gen_value_jump(old(b)@, e@, label.id(), jump_if_true, jump_if_null, ctx@),
        ),
        r is Ok ==> heads_for(old(b)@, final(b)@, label.id()),
{
    broadcast use expr_stuck;

    reveal(gen_value_jump);
    let r: i32 = b.alloc_reg();
    if let Err(err) = compile_expr(b, e, r, ctx) {
        return Err(err);
    }
    let on_null: i32 = if jump_if_null {
        1
    } else {
        0
    };
    if jump_if_true {
        b.emit_jump(Opcode::If, r, label, on_null);
    } else {
        b.emit_jump(Opcode::IfNot, r, label, on_null);
    }
    Ok(())
}

} // verus!
