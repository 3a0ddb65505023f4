//! What the binary operators of the IR compute on 32-bit integers.
use vstd::prelude::*;
use koopa::ir::BinaryOp;
use crate::parser::error::CompileError;

verus! {

/// The 32-bit two's complement integer that `x` wraps to.
pub open spec fn wrap32(x: int) -> i32 {
    let m = x % 0x1_0000_0000;
    if m >= 0x8000_0000 {
        (m - 0x1_0000_0000) as i32
    } else {
        m as i32
    }
}

/// The quotient of `a` by `b`, rounded toward zero (`b` is not zero).
pub open spec fn trunc_div(a: int, b: int) -> int {
    if a >= 0 && b > 0 {
        a / b
    } else if a >= 0 {
        -(a / (-b))
    } else if b > 0 {
        -((-a) / b)
    } else {
        (-a) / (-b)
    }
}

/// The remainder that goes with [`trunc_div`]: it has the sign of `a`.
pub open spec fn trunc_rem(a: int, b: int) -> int {
    a - b * trunc_div(a, b)
}

/// `1` for true and `0` for false.
pub open spec fn truth(b: bool) -> i32 {
    if b {
        1
    } else {
        0
    }
}

/// The operators the compiler produces and can fold or select code for.
pub open spec fn supported(op: BinaryOp) -> bool {
    !(op is Xor || op is Shl || op is Shr || op is Sar)
}

/// The value of `a op b`.  Comparisons give 0 or 1; sums, differences and
/// products wrap; quotients round toward zero.  A zero divisor is an error,
/// and so is an operator outside the supported set.
pub open spec fn fold_binary(op: BinaryOp, a: i32, b: i32) -> Result<i32, CompileError> {
    match op {
        BinaryOp::NotEq => Ok(truth(a != b)),
        BinaryOp::Eq => Ok(truth(a == b)),
        BinaryOp::Gt => Ok(truth(a > b)),
        BinaryOp::Lt => Ok(truth(a < b)),
        BinaryOp::Ge => Ok(truth(a >= b)),
        BinaryOp::Le => Ok(truth(a <= b)),
        BinaryOp::Add => Ok(wrap32(a + b)),
        BinaryOp::Sub => Ok(wrap32(a - b)),
        BinaryOp::Mul => Ok(wrap32(a * b)),
        BinaryOp::Div => if b == 0 {
            Err(CompileError::DivisionByZero)
        } else {
            Ok(wrap32(trunc_div(a as int, b as int)))
        },
        BinaryOp::Mod => if b == 0 {
            Err(CompileError::DivisionByZero)
        } else {
            Ok(wrap32(trunc_rem(a as int, b as int)))
        },
        BinaryOp::And => Ok(a & b),
        BinaryOp::Or => Ok(a | b),
        _ => Err(CompileError::InvalidProgram),
    }
}

/// `1` if `b` holds, else `0`.
pub fn flag(b: bool) -> (r: i32)
    ensures
        r == truth(b),
{
    if b {
        1
    } else {
        0
    }
}

/// The truncated quotient of two 32-bit integers, wrapped to 32 bits.
pub fn wrapping_quotient(a: i32, b: i32) -> (q: i32)
    requires
        b != 0,
    ensures
        q == wrap32(trunc_div(a as int, b as int)),
{
    match a.checked_div(b) {
        Some(q) => q,
        None => {
            assert(a == i32::MIN && b == -1) by (nonlinear_arith)
                requires
                    b != 0,
                    a.checked_div(b) is None,
            ;
            i32::MIN
        },
    }
}

/// The remainder of the truncated division of two 32-bit integers.
pub fn wrapping_remainder(a: i32, b: i32) -> (r: i32)
    requires
        b != 0,
    ensures
        r == wrap32(trunc_rem(a as int, b as int)),
{
    match a.checked_rem(b) {
        Some(r) => {
            assert(r == trunc_rem(a as int, b as int)) by (nonlinear_arith)
                requires
                    b != 0,
                    a.checked_rem(b) == Some(r),
            ;
            r
        },
        None => 0,
    }
}

/// Folds `a op b` to a constant, or says why it has none.
pub fn fold(op: BinaryOp, a: i32, b: i32) -> (r: Result<i32, CompileError>)
    ensures
        r == fold_binary(op, a, b),
{
    match op {
        BinaryOp::NotEq => Ok(flag(a != b)),
        BinaryOp::Eq => Ok(flag(a == b)),
        BinaryOp::Gt => Ok(flag(a > b)),
        BinaryOp::Lt => Ok(flag(a < b)),
        BinaryOp::Ge => Ok(flag(a >= b)),
        BinaryOp::Le => Ok(flag(a <= b)),
        BinaryOp::Add => Ok(a.wrapping_add(b)),
        BinaryOp::Sub => Ok(a.wrapping_sub(b)),
        BinaryOp::Mul => Ok(a.wrapping_mul(b)),
        BinaryOp::Div => if b == 0 {
            Err(CompileError::DivisionByZero)
        } else {
            Ok(wrapping_quotient(a, b))
        },
        BinaryOp::Mod => if b == 0 {
            Err(CompileError::DivisionByZero)
        } else {
            Ok(wrapping_remainder(a, b))
        },
        BinaryOp::And => Ok(a & b),
        BinaryOp::Or => Ok(a | b),
        _ => Err(CompileError::InvalidProgram),
    }
}

} // verus!
