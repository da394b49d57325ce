//! The saturating fixed-point scalar.
//!
//! A value represents the rational `raw / SCALE`.  All operations saturate
//! symmetrically at `MAX_FX = -MIN_FX`, so every operation is total and its
//! result is pinned exactly by a spec function: `fxs_add`, `fxs_mul`, ... are
//! the mathematical definitions, and the executable `fx_add`, `fx_mul`, ...
//! are proved to return exactly those values.

use vstd::prelude::*;

verus! {

/// Number of raw units in 1.0.
pub const SCALE: i64 = 0x1_0000_0000;

/// Largest representable raw value; saturation is symmetric, so the smallest
/// is `-MAX_FX` (the machine value `i64::MIN` is never produced).
pub const MAX_FX: i64 = 0x7fff_ffff_ffff_ffff;

/// Saturate a mathematical integer into the symmetric raw range.
pub open spec fn sat(x: int) -> int {
    if x > MAX_FX {
        MAX_FX as int
    } else if x < -(MAX_FX as int) {
        -(MAX_FX as int)
    } else {
        x
    }
}

/// `sat` lands in the `i64` range, so it can be written back as a raw value.
pub open spec fn sat64(x: int) -> i64 {
    sat(x) as i64
}

pub open spec fn abs_of(x: int) -> int {
    if x < 0 {
        -x
    } else {
        x
    }
}

/// Division truncating toward zero (the hardware convention), for a positive
/// divisor.
pub open spec fn tdiv(a: int, b: int) -> int {
    if a >= 0 {
        a / b
    } else {
        -((-a) / b)
    }
}

/// Saturating fixed-point addition.
pub open spec fn fxs_add(a: i64, b: i64) -> i64 {
    sat64(a + b)
}

/// Saturating fixed-point subtraction.
pub open spec fn fxs_sub(a: i64, b: i64) -> i64 {
    sat64(a - b)
}

/// Saturating fixed-point negation.
pub open spec fn fxs_neg(a: i64) -> i64 {
    sat64(-a)
}

/// Saturating fixed-point absolute value.
pub open spec fn fxs_abs(a: i64) -> i64 {
    sat64(abs_of(a as int))
}

/// Saturating fixed-point multiplication: the exact product, rescaled by
/// `SCALE` truncating toward zero.
pub open spec fn fxs_mul(a: i64, b: i64) -> i64 {
    sat64(tdiv(a * b, SCALE as int))
}

/// Saturating fixed-point division (`b != 0`): the exact quotient scaled by
/// `SCALE`, truncating toward zero.
pub open spec fn fxs_div(a: i64, b: i64) -> i64 {
    if (a < 0) != (b < 0) {
        sat64(-(abs_of(a as int) * SCALE / abs_of(b as int)))
    } else {
        sat64(abs_of(a as int) * SCALE / abs_of(b as int))
    }
}

/// `r` is the integer square root of `n`.
pub open spec fn is_sqrt_of(n: int, r: int) -> bool {
    &&& 0 <= r
    &&& r * r <= n
    &&& n < (r + 1) * (r + 1)
}

/// The fixed-point square root: the integer square root of `x * SCALE`,
/// which represents `sqrt(x / SCALE)` in raw units; 0 for `x <= 0`.
pub open spec fn fxs_sqrt(x: i64) -> i64 {
    if x <= 0 {
        0
    } else {
        (choose|r: int| #[trigger] is_sqrt_of(x * SCALE, r)) as i64
    }
}

/// Saturate an `i128` intermediate into the raw range.
fn sat_i128(x: i128) -> (r: i64)
    ensures
        r == sat64(x as int),
{
    if x > MAX_FX as i128 {
        MAX_FX
    } else if x < -(MAX_FX as i128) {
        -MAX_FX
    } else {
        x as i64
    }
}

/// Magnitude of a raw value, exact even for `i64::MIN`.
fn mag_u128(a: i64) -> (m: u128)
    ensures
        m == abs_of(a as int),
{
    if a >= 0 {
        a as u128
    } else {
        (-(a as i128)) as u128
    }
}

/// Cap a nonnegative wide magnitude at `MAX_FX`.
fn cap_mag(q: u128) -> (r: i64)
    ensures
        0 <= r,
        r == sat64(q as int),
{
    if q > MAX_FX as u128 {
        MAX_FX
    } else {
        q as i64
    }
}

pub fn fx_add(a: i64, b: i64) -> (r: i64)
    ensures
        r == fxs_add(a, b),
{
    sat_i128(a as i128 + b as i128)
}

pub fn fx_sub(a: i64, b: i64) -> (r: i64)
    ensures
        r == fxs_sub(a, b),
{
    sat_i128(a as i128 - b as i128)
}

pub fn fx_neg(a: i64) -> (r: i64)
    ensures
        r == fxs_neg(a),
{
    sat_i128(-(a as i128))
}

pub fn fx_abs(a: i64) -> (r: i64)
    ensures
        r == fxs_abs(a),
        r >= 0,
{
    if a >= 0 {
        a
    } else {
        sat_i128(-(a as i128))
    }
}

/// The exact signed product of two raw magnitudes.
proof fn lemma_mul_sign_split(a: int, b: int)
    by (nonlinear_arith)
    ensures
        (a < 0) != (b < 0) ==> a * b == -(abs_of(a) * abs_of(b)),
        ((a < 0) == (b < 0)) ==> a * b == abs_of(a) * abs_of(b),
{
}

/// The product of two magnitudes below `2^64` fits in a `u128`.
proof fn lemma_mag_product_fits(ma: int, mb: int)
    by (nonlinear_arith)
    requires
        0 <= ma < 0x1_0000_0000_0000_0000,
        0 <= mb < 0x1_0000_0000_0000_0000,
    ensures
        ma * mb < 0x1_0000_0000_0000_0000_0000_0000_0000_0000,
{
}

pub fn fx_mul(a: i64, b: i64) -> (r: i64)
    ensures
        r == fxs_mul(a, b),
{
    let neg = (a < 0) != (b < 0);
    let ma = mag_u128(a);
    let mb = mag_u128(b);
    proof {
        lemma_mag_product_fits(ma as int, mb as int);
        lemma_mul_sign_split(a as int, b as int);
    }
    let p = ma * mb;
    let q = p / (SCALE as u128);
    let m = cap_mag(q);
    if neg {
        -m
    } else {
        m
    }
}

pub fn fx_div(a: i64, b: i64) -> (r: i64)
    requires
        b != 0,
    ensures
        r == fxs_div(a, b),
{
    let neg = (a < 0) != (b < 0);
    let ma = mag_u128(a);
    let mb = mag_u128(b);
    proof {
        lemma_mag_product_fits(ma as int, SCALE as int);
    }
    let p = ma * (SCALE as u128);
    let q = p / mb;
    let m = cap_mag(q);
    if neg {
        -m
    } else {
        m
    }
}

/// Integer square root of a wide magnitude below `2^96`, by bisection.
fn isqrt_u128(n: u128) -> (r: u128)
    requires
        n < 0x1_0000_0000_0000_0000_0000_0000,
    ensures
        is_sqrt_of(n as int, r as int),
        r < 0x1_0000_0000_0000,
{
    let mut lo: u128 = 0;
    let mut hi: u128 = 0x1_0000_0000_0000;
    proof {
        assert((0x1_0000_0000_0000 as int) * (0x1_0000_0000_0000 as int)
            == 0x1_0000_0000_0000_0000_0000_0000) by (nonlinear_arith);
    }
    while lo + 1 < hi
        invariant
            0 <= lo < hi <= 0x1_0000_0000_0000,
            lo * lo <= n,
            n < hi * hi,
        decreases hi - lo,
    {
        let mid = lo + (hi - lo) / 2;
        assert(lo < mid < hi);
        proof {
            lemma_mag_product_fits(mid as int, mid as int);
        }
        if mid * mid <= n {
            lo = mid;
        } else {
            hi = mid;
        }
    }
    assert(lo + 1 == hi);
    lo
}

pub fn fx_sqrt(x: i64) -> (r: i64)
    ensures
        r == fxs_sqrt(x),
        r >= 0,
        x > 0 ==> r > 0,
{
    if x <= 0 {
        0
    } else {
        proof {
            lemma_scaled_fits(x as int);
        }
        let n = (x as u128) * (SCALE as u128);
        let r = isqrt_u128(n);
        proof {
            let w = choose|w: int| #[trigger] is_sqrt_of(x * SCALE, w);
            assert(is_sqrt_of(x * SCALE, r as int));
            lemma_sqrt_unique(x * SCALE, r as int, w);
            assert(r as int * (r as int) >= 1 ==> r >= 1) by (nonlinear_arith);
            assert(n >= SCALE as int);
            assert(1 * 1 <= 1);
        }
        r as i64
    }
}

/// A raw value rescaled by `SCALE` stays below `2^96`.
proof fn lemma_scaled_fits(x: int)
    by (nonlinear_arith)
    requires
        0 < x < 0x8000_0000_0000_0000,
    ensures
        x * (SCALE as int) < 0x1_0000_0000_0000_0000_0000_0000,
        x * (SCALE as int) >= SCALE as int,
{
}

/// Two integer square roots of the same number are equal.
pub proof fn lemma_sqrt_unique(n: int, r1: int, r2: int)
    by (nonlinear_arith)
    requires
        is_sqrt_of(n, r1),
        is_sqrt_of(n, r2),
    ensures
        r1 == r2,
{
}

/// Clamp a raw value to an interval.
pub open spec fn fxs_clamp(x: i64, lo: i64, hi: i64) -> i64 {
    if x < lo {
        lo
    } else if x > hi {
        hi
    } else {
        x
    }
}

pub fn fx_clamp(x: i64, lo: i64, hi: i64) -> (r: i64)
    ensures
        r == fxs_clamp(x, lo, hi),
{
    if x < lo {
        lo
    } else if x > hi {
        hi
    } else {
        x
    }
}

/// A square never rescales to a negative value.
pub proof fn lemma_square_nonneg(a: i64)
    ensures
        fxs_mul(a, a) >= 0,
{
    lemma_mul_sign_split(a as int, a as int);
    assert(abs_of(a as int) * abs_of(a as int) >= 0) by (nonlinear_arith);
}

/// Exact division of a raw value by a positive plain integer, truncating
/// toward zero.
pub open spec fn fxs_divn(t: i64, n: i64) -> i64 {
    tdiv(t as int, n as int) as i64
}

pub fn fx_divn(t: i64, n: i64) -> (r: i64)
    requires
        n > 0,
    ensures
        r == fxs_divn(t, n),
{
    let m = mag_u128(t);
    let q = m / (n as u128);
    proof {
        vstd::arithmetic::div_mod::lemma_div_is_ordered_by_denominator(m as int, 1, n as int);
        vstd::arithmetic::div_mod::lemma_div_basics(m as int);
        vstd::arithmetic::div_mod::lemma_div_pos_is_pos(m as int, n as int);
    }
    if t >= 0 {
        q as i64
    } else {
        (-(q as i128)) as i64
    }
}

/// A product of nonnegative values never rescales to a negative value.
pub proof fn lemma_mul_nonneg(a: i64, b: i64)
    requires
        a >= 0,
        b >= 0,
    ensures
        fxs_mul(a, b) >= 0,
{
    lemma_mul_sign_split(a as int, b as int);
    assert(abs_of(a as int) * abs_of(b as int) >= 0) by (nonlinear_arith);
}

} // verus!
