//! 32-bit integer semantics of the operators, and constant folding over the
//! symbol environment.
use vstd::prelude::*;
use crate::ast::{BinaryOp, Expr, UnaryOp};
use crate::env::{lookup_scopes, IdElement, IdTable, ScopeV};
use crate::error::CompileError;
use crate::ir::IrBinOp;

verus! {

pub open spec fn bool_val(b: bool) -> i32 {
    if b {
        1
    } else {
        0
    }
}

/// Truncating division as RV32 `div` computes it: `-1` for a zero divisor,
/// the dividend for `i32::MIN / -1`.
pub open spec fn div_val(a: i32, b: i32) -> i32 {
    match a.checked_div(b) {
        Some(q) => q,
        None => if b == 0 {
            -1i32
        } else {
            a
        },
    }
}

/// Remainder as RV32 `rem` computes it: the dividend for a zero divisor,
/// `0` for `i32::MIN % -1`.
pub open spec fn rem_val(a: i32, b: i32) -> i32 {
    match a.checked_rem(b) {
        Some(r) => r,
        None => if b == 0 {
            a
        } else {
            0
        },
    }
}

/// The value of a source binary operator on two 32-bit operands.
pub open spec fn binary_value(op: BinaryOp, a: i32, b: i32) -> i32 {
    match op {
        BinaryOp::Plus => a.wrapping_add(b),
        BinaryOp::Minus => a.wrapping_sub(b),
        BinaryOp::Multiply => a.wrapping_mul(b),
        BinaryOp::Divide => div_val(a, b),
        BinaryOp::Modulo => rem_val(a, b),
        BinaryOp::Less => bool_val(a < b),
        BinaryOp::LessOrEqual => bool_val(a <= b),
        BinaryOp::Greater => bool_val(a > b),
        BinaryOp::GreaterOrEqual => bool_val(a >= b),
        BinaryOp::Eq => bool_val(a == b),
        BinaryOp::Neq => bool_val(a != b),
        BinaryOp::And => bool_val(a != 0 && b != 0),
        BinaryOp::Or => bool_val(a != 0 || b != 0),
    }
}

/// The value of a source unary operator.
pub open spec fn unary_value(op: UnaryOp, a: i32) -> i32 {
    match op {
        UnaryOp::Plus => a,
        UnaryOp::Minus => 0i32.wrapping_sub(a),
        UnaryOp::Not => bool_val(a == 0),
    }
}

/// The value an IR opcode computes, as the RISC-V sequence for it does.
pub open spec fn ir_value(op: IrBinOp, a: i32, b: i32) -> i32 {
    match op {
        IrBinOp::Add => a.wrapping_add(b),
        IrBinOp::Sub => a.wrapping_sub(b),
        IrBinOp::Mul => a.wrapping_mul(b),
        IrBinOp::Div => div_val(a, b),
        IrBinOp::Mod => rem_val(a, b),
        IrBinOp::Eq => bool_val(a == b),
        IrBinOp::Ne => bool_val(a != b),
        IrBinOp::Lt => bool_val(a < b),
        IrBinOp::Le => bool_val(a <= b),
    }
}

/// The folded value of a constant expression under the scopes `sc`.
pub open spec fn const_value(sc: Seq<ScopeV>, e: Expr) -> Result<i32, CompileError>
    decreases e,
{
    match e {
        Expr::Number(n) => Ok(n),
        Expr::UnaryExpr(op, x) => match const_value(sc, *x) {
            Ok(v) => Ok(unary_value(op, v)),
            Err(er) => Err(er),
        },
        Expr::BinaryExpr(l, op, r) => match const_value(sc, *l) {
            Err(er) => Err(er),
            Ok(a) => match const_value(sc, *r) {
                Err(er) => Err(er),
                Ok(b) => Ok(binary_value(op, a, b)),
            },
        },
        Expr::LVal(name) => match lookup_scopes(sc, name@) {
            None => Err(CompileError::Undeclared),
            Some((IdElement::Var, _)) => Err(CompileError::NonConstant),
            Some((IdElement::Const(c), _)) => Ok(c),
        },
        Expr::Func(_, _) => Err(CompileError::NonConstant),
    }
}

pub fn bool_to_i32(b: bool) -> (r: i32)
    ensures
        r == bool_val(b),
{
    if b {
        1
    } else {
        0
    }
}

/// Evaluates a binary operator with RV32 semantics.
pub fn eval_binary(op: BinaryOp, a: i32, b: i32) -> (r: i32)
    ensures
        r == binary_value(op, a, b),
{
    match op {
        BinaryOp::Plus => a.wrapping_add(b),
        BinaryOp::Minus => a.wrapping_sub(b),
        BinaryOp::Multiply => a.wrapping_mul(b),
        BinaryOp::Divide => match a.checked_div(b) {
            Some(q) => q,
            None => if b == 0 {
                -1
            } else {
                a
            },
        },
        BinaryOp::Modulo => match a.checked_rem(b) {
            Some(q) => q,
            None => if b == 0 {
                a
            } else {
                0
            },
        },
        BinaryOp::Less => bool_to_i32(a < b),
        BinaryOp::LessOrEqual => bool_to_i32(a <= b),
        BinaryOp::Greater => bool_to_i32(a > b),
        BinaryOp::GreaterOrEqual => bool_to_i32(a >= b),
        BinaryOp::Eq => bool_to_i32(a == b),
        BinaryOp::Neq => bool_to_i32(a != b),
        BinaryOp::And => bool_to_i32(a != 0 && b != 0),
        BinaryOp::Or => bool_to_i32(a != 0 || b != 0),
    }
}

/// Folds a constant expression: numbers, operators, and names bound to
/// constants. A name bound to a variable, or a call, is not constant.
pub fn compute_expr(expr: &Expr, id_table: &IdTable) -> (r: Result<i32, CompileError>)
    ensures
        r == const_value(id_table@, *expr),
    decreases expr,
{
    match expr {
        Expr::Number(n) => Ok(*n),
        Expr::UnaryExpr(op, x) => {
            let v = compute_expr(x, id_table)?;
            match op {
                UnaryOp::Plus => Ok(v),
                UnaryOp::Minus => Ok(0i32.wrapping_sub(v)),
                UnaryOp::Not => Ok(bool_to_i32(v == 0)),
            }
        },
        Expr::BinaryExpr(l, op, r) => {
            let a = compute_expr(l, id_table)?;
            let b = compute_expr(r, id_table)?;
            Ok(eval_binary(*op, a, b))
        },
        Expr::LVal(name) => match id_table.get(name) {
            None => Err(CompileError::Undeclared),
            Some((IdElement::Var, _)) => Err(CompileError::NonConstant),
            Some((IdElement::Const(c), _)) => Ok(c),
        },
        Expr::Func(_, _) => Err(CompileError::NonConstant),
    }
}

} // verus!
