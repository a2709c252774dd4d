//! Integer arithmetic shared by the timing and congestion code.

use vstd::prelude::*;

verus! {

/// The smaller of two numbers.
pub open spec fn min_int(left: int, right: int) -> int {
    if left <= right {
        left
    } else {
        right
    }
}

/// The larger of two numbers.
pub open spec fn max_int(left: int, right: int) -> int {
    if left >= right {
        left
    } else {
        right
    }
}

/// A number clipped to the range of an unsigned 64-bit integer.
pub open spec fn clip64(value: int) -> u64 {
    if value <= 0 {
        0
    } else if value >= u64::MAX {
        u64::MAX
    } else {
        value as u64
    }
}

/// The smallest integer that is not below `dividend / divisor`.
pub open spec fn ceil_div(dividend: int, divisor: int) -> int {
    if dividend % divisor == 0 {
        dividend / divisor
    } else {
        dividend / divisor + 1
    }
}

/// The product of two 64-bit integers fits 128 bits.
pub proof fn lemma_product_fits(left: u64, right: u64)
    ensures
        0 <= left * right <= u64::MAX * u64::MAX,
        left * right <= u128::MAX,
{
    assert(0 <= left * right <= u64::MAX * u64::MAX) by (nonlinear_arith)
        requires
            0 <= left <= u64::MAX,
            0 <= right <= u64::MAX,
    ;
    assert(u64::MAX * u64::MAX <= u128::MAX) by (nonlinear_arith);
}

/// Returns the smaller of two integers.
pub fn min_u64(left: u64, right: u64) -> (smaller: u64)
    ensures
        smaller == min_int(left as int, right as int),
{
    if left <= right {
        left
    } else {
        right
    }
}

/// Returns the larger of two integers.
pub fn max_u64(left: u64, right: u64) -> (larger: u64)
    ensures
        larger == max_int(left as int, right as int),
{
    if left >= right {
        left
    } else {
        right
    }
}

/// Returns a wide integer clipped to 64 bits.
pub fn clip_u128(value: u128) -> (clipped: u64)
    ensures
        clipped == clip64(value as int),
{
    if value >= u64::MAX as u128 {
        u64::MAX
    } else {
        value as u64
    }
}

/// Returns the exact product of two 64-bit integers.
pub fn wide_product(left: u64, right: u64) -> (product: u128)
    ensures
        product == left * right,
{
    proof {
        lemma_product_fits(left, right);
    }
    left as u128 * right as u128
}

/// Returns the product of two integers, clipped to 64 bits.
pub fn saturating_product(left: u64, right: u64) -> (product: u64)
    ensures
        product == clip64(left * right),
{
    clip_u128(wide_product(left, right))
}

/// Returns the quotient of two wide integers rounded up.
pub fn ceil_div_u128(dividend: u128, divisor: u128) -> (quotient: u128)
    requires
        divisor > 0,
    ensures
        quotient == ceil_div(dividend as int, divisor as int),
{
    let quotient: u128 = dividend / divisor;
    if dividend % divisor == 0 {
        quotient
    } else {
        assert(quotient < u128::MAX) by (nonlinear_arith)
            requires
                quotient == dividend / divisor,
                dividend % divisor != 0,
                divisor > 0,
                dividend <= u128::MAX,
        ;
        quotient + 1
    }
}

} // verus!
