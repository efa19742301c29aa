//! Products, quotients and roots carried in 128 bits, so that what lies
//! between two scalars is rounded but never clamped. A wide value counts
//! units of `1 / ONE_RAW`, as the raw value of a scalar does.

use crate::scalar::{
    is_integer_root, lemma_magnitude_of_product, lemma_truncated_quotient_negated, magnitude,
    raw_magnitude, truncated_quotient, Scalar, ONE_RAW,
};
use vstd::prelude::*;

verus! {

/// The greatest magnitude that the product of two wide values may have
/// before it is divided by one.
pub const REACH: u128 = 0x7fff_ffff_ffff_ffff_ffff_ffff_ffff_ffff;

/// The product of two values that count units of `1 / ONE_RAW`, in the same
/// units, rounded toward zero.
pub open spec fn wide_product(x: int, y: int) -> int {
    truncated_quotient(x * y, ONE_RAW as int)
}

/// The quotient of two such values, in the same units, rounded toward zero.
pub open spec fn wide_quotient(x: int, y: int) -> int {
    truncated_quotient(x * ONE_RAW, y)
}

/// Whether the product of the magnitudes lies within reach.
pub open spec fn product_in_reach(x: int, y: int) -> bool {
    magnitude(x) * magnitude(y) <= REACH
}

/// The magnitude of a wide value.
pub fn wide_magnitude(v: i128) -> (m: u128)
    ensures
        m == magnitude(v as int),
{
    if v < 0 {
        if v == i128::MIN {
            0x8000_0000_0000_0000_0000_0000_0000_0000
        } else {
            (-v) as u128
        }
    } else {
        v as u128
    }
}

/// The wide value of a sign and a magnitude below `2^127`.
fn wide_signed(negative: bool, m: u128) -> (v: i128)
    requires
        m <= REACH,
    ensures
        v == (if negative {
            -(m as int)
        } else {
            m as int
        }),
{
    if negative {
        -(m as i128)
    } else {
        m as i128
    }
}

/// The product of two scalars as a wide value.
pub fn times_wide(x: Scalar, y: Scalar) -> (r: i128)
    ensures
        r == wide_product(x@, y@),
        magnitude(r as int) <= 0x4000_0000_0000_0000_0000_0000,
{
    let a: u128 = raw_magnitude(x.raw);
    let b: u128 = raw_magnitude(y.raw);
    assert(a * b <= 0x8000_0000_0000_0000 * 0x8000_0000_0000_0000) by (nonlinear_arith)
        requires
            a <= 0x8000_0000_0000_0000,
            b <= 0x8000_0000_0000_0000,
    ;
    proof {
        lemma_magnitude_of_product(x@, y@);
    }
    let q: u128 = (a * b) / 0x1_0000_0000;
    wide_signed((x.raw < 0) != (y.raw < 0), q)
}

/// The product of two wide values, where the product of their magnitudes
/// lies within reach, and nothing otherwise.
pub fn wide_times(x: i128, y: i128) -> (r: Option<i128>)
    ensures
        r == (if product_in_reach(x as int, y as int) {
            Some(wide_product(x as int, y as int) as i128)
        } else {
            None
        }),
        r matches Some(p) ==> p == wide_product(x as int, y as int) && magnitude(p as int)
            <= 0x8000_0000_0000_0000_0000_0000,
{
    let a: u128 = wide_magnitude(x);
    let b: u128 = wide_magnitude(y);
    if b != 0 && a > REACH / b {
        assert(a * b > REACH) by (nonlinear_arith)
            requires
                b > 0,
                a > REACH / b,
        ;
        return None;
    }
    assert(a * b <= REACH) by (nonlinear_arith)
        requires
            b == 0 || a <= REACH / b,
            a >= 0,
            b >= 0,
    ;
    proof {
        lemma_magnitude_of_product(x as int, y as int);
    }
    let q: u128 = (a * b) / 0x1_0000_0000;
    Some(wide_signed((x < 0) != (y < 0), q))
}

/// The greatest magnitude that a dividend may have, so that it can still be
/// widened by the fraction bits.
pub const DIVIDEND_REACH: u128 = 0x7fff_ffff_ffff_ffff_ffff_ffff;

/// The quotient of two wide values, where the divisor is not zero and the
/// dividend lies within reach, and nothing otherwise.
pub fn wide_over(x: i128, y: i128) -> (r: Option<i128>)
    ensures
        r == (if y != 0 && magnitude(x as int) <= DIVIDEND_REACH {
            Some(wide_quotient(x as int, y as int) as i128)
        } else {
            None
        }),
        r matches Some(q) ==> q == wide_quotient(x as int, y as int),
{
    let a: u128 = wide_magnitude(x);
    let b: u128 = wide_magnitude(y);
    if b == 0 || a > DIVIDEND_REACH {
        return None;
    }
    proof {
        lemma_magnitude_of_product(x as int, ONE_RAW as int);
    }
    let q: u128 = (a * 0x1_0000_0000) / b;
    assert(q <= a * 0x1_0000_0000) by (nonlinear_arith)
        requires
            q == (a * 0x1_0000_0000) / (b as int),
            b > 0,
            a >= 0,
    ;
    Some(wide_signed((x < 0) != (y < 0), q))
}

/// The integer square root of `n`.
pub fn integer_root_of(n: u128) -> (r: u128)
    ensures
        is_integer_root(n as int, r as int),
        r < 0x1_0000_0000_0000_0000,
{
    let mut low: u128 = 0;
    let mut high: u128 = 0x1_0000_0000_0000_0000;
    assert(low * low <= n < high * high) by (nonlinear_arith)
        requires
            low == 0,
            high == 0x1_0000_0000_0000_0000,
            n < 0x1_0000_0000_0000_0000_0000_0000_0000_0000,
    ;
    while high - low > 1
        invariant
            low < high <= 0x1_0000_0000_0000_0000,
            low * low <= n < high * high,
        decreases high - low,
    {
        let middle: u128 = low + (high - low) / 2;
        assert(middle * middle <= 0xffff_ffff_ffff_ffff * 0xffff_ffff_ffff_ffff)
            by (nonlinear_arith)
            requires
                middle <= 0xffff_ffff_ffff_ffff,
        ;
        if middle * middle <= n {
            low = middle;
        } else {
            high = middle;
        }
    }
    low
}

/// The wide product with a negated factor is the negated wide product.
pub proof fn lemma_wide_product_negated(x: int, y: int)
    ensures
        wide_product(x, -y) == -wide_product(x, y),
{
    assert(x * (-y) == -(x * y)) by (nonlinear_arith);
    lemma_truncated_quotient_negated(x * y, ONE_RAW as int);
}

} // verus!
