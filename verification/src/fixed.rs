//! Fixed-point arithmetic: products of two counts brought back to scale.

use vstd::prelude::*;

verus! {


/// The quotient of `a` by a positive `b`, rounded toward zero.
pub open spec fn toward_zero(a: int, b: int) -> int {
    if a >= 0 {
        a / b
    } else {
        -((-a) / b)
    }
}

/// Whether `v` is in the signed 64-bit range.
pub open spec fn fits_i64(v: int) -> bool {
    i64::MIN <= v <= i64::MAX
}

/// The product of two fixed-point numbers brought back to scale:
/// `a * b / divisor`, rounded toward zero.
pub open spec fn scaled_product(a: int, b: int, divisor: int) -> int {
    toward_zero(a * b, divisor)
}

proof fn lemma_product_bound(a: int, b: int)
    by (nonlinear_arith)
    requires
        -0x8000_0000_0000_0000 <= a < 0x8000_0000_0000_0000,
        -0x8000_0000_0000_0000 <= b < 0x8000_0000_0000_0000,
    ensures
        -0x4000_0000_0000_0000_0000_0000_0000_0000 <= a * b
            <= 0x4000_0000_0000_0000_0000_0000_0000_0000,
{
}

/// Multiplies two fixed-point numbers and brings the product back to scale.
/// The product is formed exactly; the result is `None` where the scaled
/// product is out of the signed 64-bit range.
pub fn mul_div(a: i64, b: i64, divisor: i64) -> (r: Option<i64>)
    requires
        divisor > 0,
    ensures
        match r {
            Some(v) => v == scaled_product(a as int, b as int, divisor as int),
            None => !fits_i64(scaled_product(a as int, b as int, divisor as int)),
        },
{
    proof {
        lemma_product_bound(a as int, b as int);
    }
    let product: i128 = (a as i128) * (b as i128);
    let quotient: i128 = product / (divisor as i128);
    if quotient < i64::MIN as i128 || quotient > i64::MAX as i128 {
        None
    } else {
        Some(quotient as i64)
    }
}

} // verus!
