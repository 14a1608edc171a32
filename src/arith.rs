//! What a binary operator computes from its two operands.
use vstd::prelude::*;
use crate::space::OperatorType;

verus! {

pub open spec fn magnitude(a: int) -> int {
    if a < 0 {
        -a
    } else {
        a
    }
}

/// Quotient rounded toward zero, as integer division on machine integers does.
pub open spec fn trunc_div(a: int, b: int) -> int {
    let q = magnitude(a) / magnitude(b);
    if (a < 0) == (b < 0) {
        q
    } else {
        -q
    }
}

/// Remainder that takes the sign of the dividend.
pub open spec fn trunc_rem(a: int, b: int) -> int {
    let m = magnitude(a) % magnitude(b);
    if a < 0 {
        -m
    } else {
        m
    }
}

pub open spec fn is_binary(op: OperatorType) -> bool {
    !(op is Invert || op is Duplicate)
}

/// The result of a binary operator: 32-bit wrapping arithmetic, quotient and
/// remainder toward zero, bitwise and/or, and 1/0 for comparisons.
pub open spec fn binary_result(op: OperatorType, l: i32, r: i32) -> i32 {
    match op {
        OperatorType::Addition => l.wrapping_add(r),
        OperatorType::Subtraction => l.wrapping_sub(r),
        OperatorType::Multiplication => l.wrapping_mul(r),
        OperatorType::Division => trunc_div(l as int, r as int) as i32,
        OperatorType::Modulus => trunc_rem(l as int, r as int) as i32,
        OperatorType::And => l & r,
        OperatorType::Or => l | r,
        OperatorType::Equals => if l == r { 1 } else { 0 },
        OperatorType::LessThan => if l < r { 1 } else { 0 },
        OperatorType::GreaterThan => if l > r { 1 } else { 0 },
        _ => 0,
    }
}

/// A division or remainder by zero has no result.
pub open spec fn divides_by_zero(op: OperatorType, r: i32) -> bool {
    (op is Division || op is Modulus) && r == 0
}

/// Applies a binary operator; `None` exactly for a zero divisor.
pub fn apply_binary(op: OperatorType, l: i32, r: i32) -> (res: Option<i32>)
    requires
        is_binary(op),
    ensures
        res is None <==> divides_by_zero(op, r),
        res matches Some(v) ==> v == binary_result(op, l, r),
{
    match op {
        OperatorType::Addition => Some(l.wrapping_add(r)),
        OperatorType::Subtraction => Some(l.wrapping_sub(r)),
        OperatorType::Multiplication => Some(l.wrapping_mul(r)),
        OperatorType::Division | OperatorType::Modulus => {
            if r == 0 {
                return None;
            }
            let la: u64 = if l < 0 { (-(l as i64)) as u64 } else { l as u64 };
            let ra: u64 = if r < 0 { (-(r as i64)) as u64 } else { r as u64 };
            let v: i64 = if op == OperatorType::Division {
                let q = la / ra;
                if (l < 0) == (r < 0) { q as i64 } else { -(q as i64) }
            } else {
                let m = la % ra;
                if l < 0 { -(m as i64) } else { m as i64 }
            };
            Some(v as i32)
        },
        OperatorType::And => Some(l & r),
        OperatorType::Or => Some(l | r),
        OperatorType::Equals => Some(if l == r { 1 } else { 0 }),
        OperatorType::LessThan => Some(if l < r { 1 } else { 0 }),
        OperatorType::GreaterThan => Some(if l > r { 1 } else { 0 }),
        _ => Some(0),
    }
}

} // verus!
