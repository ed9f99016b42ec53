//! Fixed-point arithmetic with eight decimals.
//!
//! A real number `x` is held as the integer `x × SCALE`. Products and
//! quotients are rounded down; every operation reports when its result
//! leaves the range of its integer type.

use vstd::prelude::*;

verus! {

/// Units in one whole: values carry eight decimals.
pub const SCALE: u64 = 100_000_000;

/// Basis points in one whole.
pub const BPS: u64 = 10_000;

pub open spec fn in_u64(x: int) -> bool {
    0 <= x <= u64::MAX
}

pub open spec fn in_i64(x: int) -> bool {
    i64::MIN <= x <= i64::MAX
}

/// Product of two fixed-point values, rounded down.
pub open spec fn fx_mul(a: int, b: int) -> int {
    a * b / (SCALE as int)
}

/// Quotient of two fixed-point values, rounded down.
pub open spec fn fx_div(a: int, b: int) -> int {
    a * (SCALE as int) / b
}

proof fn lemma_mul_u64_bound(a: u64, b: u64)
    ensures
        0 <= (a as int) * (b as int) <= (u64::MAX as int) * (u64::MAX as int),
        (u64::MAX as int) * (u64::MAX as int) < u128::MAX,
{
    assert(0 <= (a as int) * (b as int) <= (u64::MAX as int) * (u64::MAX as int)) by (nonlinear_arith);
}

/// Product of two non-negative fixed-point values, or `None` where it does
/// not fit in a `u64`.
pub fn mul_fx(a: u64, b: u64) -> (r: Option<u64>)
    ensures
        r == (if in_u64(fx_mul(a as int, b as int)) {
            Some(fx_mul(a as int, b as int) as u64)
        } else {
            None::<u64>
        }),
{
    proof {
        lemma_mul_u64_bound(a, b);
    }
    let p: u128 = (a as u128) * (b as u128);
    let q: u128 = p / (SCALE as u128);
    if q <= u64::MAX as u128 {
        Some(q as u64)
    } else {
        None
    }
}

/// Quotient of two non-negative fixed-point values, or `None` where it does
/// not fit in a `u64`.
pub fn div_fx(a: u64, b: u64) -> (r: Option<u64>)
    requires
        b > 0,
    ensures
        r == (if in_u64(fx_div(a as int, b as int)) {
            Some(fx_div(a as int, b as int) as u64)
        } else {
            None::<u64>
        }),
{
    proof {
        lemma_mul_u64_bound(a, SCALE);
    }
    let p: u128 = (a as u128) * (SCALE as u128);
    let q: u128 = p / (b as u128);
    if q <= u64::MAX as u128 {
        Some(q as u64)
    } else {
        None
    }
}

/// `a × n ÷ d` on integers, rounded down, or `None` where it does not fit
/// in a `u64`.
pub fn mul_div(a: u64, n: u64, d: u64) -> (r: Option<u64>)
    requires
        d > 0,
    ensures
        r == (if in_u64((a as int) * (n as int) / (d as int)) {
            Some(((a as int) * (n as int) / (d as int)) as u64)
        } else {
            None::<u64>
        }),
{
    proof {
        lemma_mul_u64_bound(a, n);
    }
    let p: u128 = (a as u128) * (n as u128);
    let q: u128 = p / (d as u128);
    if q <= u64::MAX as u128 {
        Some(q as u64)
    } else {
        None
    }
}

/// `x` as an `i64`, or `None` where it does not fit.
pub fn narrow_i64(x: i128) -> (r: Option<i64>)
    ensures
        r == (if in_i64(x as int) { Some(x as i64) } else { None::<i64> }),
{
    if i64::MIN as i128 <= x && x <= i64::MAX as i128 {
        Some(x as i64)
    } else {
        None
    }
}

/// A fraction in `[0, 1]` of a non-negative amount is at most that amount.
pub(crate) proof fn lemma_fraction_le(a: int, f: int)
    requires
        0 <= a,
        0 <= f <= SCALE,
    ensures
        0 <= fx_mul(a, f) <= a,
{
    assert(0 <= a * f <= a * (SCALE as int)) by (nonlinear_arith)
        requires
            0 <= a,
            0 <= f <= SCALE,
    ;
    vstd::arithmetic::div_mod::lemma_div_is_ordered(a * f, a * (SCALE as int), SCALE as int);
    vstd::arithmetic::div_mod::lemma_div_by_multiple(a, SCALE as int);
    vstd::arithmetic::div_mod::lemma_div_pos_is_pos(a * f, SCALE as int);
}

/// `a + b`, or `None` where it does not fit in a `u64`.
pub fn add_u64(a: u64, b: u64) -> (r: Option<u64>)
    ensures
        r == (if in_u64(a + b) { Some((a + b) as u64) } else { None::<u64> }),
{
    let s: u128 = a as u128 + b as u128;
    if s <= u64::MAX as u128 {
        Some(s as u64)
    } else {
        None
    }
}

} // verus!
