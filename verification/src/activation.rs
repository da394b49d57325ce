//! Stateless scalar activation functions.
//!
//! Each activation gives a pure value function, its derivative evaluated at
//! the pre-activation value, and an optional declared output range.  The
//! bounded activations are algebraic sigmoids built from the fixed-point
//! primitives, so their values and derivatives are exactly specified; the
//! derivative of a bounded activation degrades to 0 (never an invalid value)
//! when the squared denominator saturates.

use vstd::prelude::*;
use crate::fx::{
    fx_abs, fx_add, fx_div, fx_divn, fx_mul, fxs_abs, fxs_add, fxs_div, fxs_divn, fxs_mul, MAX_FX,
    SCALE,
};

verus! {

/// One half, in raw units.
pub const HALF: i64 = 0x8000_0000;

/// The activation applied per output unit after the affine transform.
#[derive(Clone, Copy, PartialEq, Eq, Structural, Debug)]
pub enum Act {
    /// `y = x`, unbounded.
    Id,
    /// `y = max(0, x)`, bounded below by 0.
    ReLu,
    /// An increasing sigmoid onto `[0, 1]`: `y = 1/2 + x / (2 (1 + |x|))`.
    Sigmoid,
    /// The symmetric sigmoid onto `[-1, 1]`: `y = x / (1 + |x|)`.
    SigmoidSim,
    /// Same curve as [`Act::SigmoidSim`], but with no declared range.
    Tanh,
}

/// The denominator `1 + |x|` shared by the sigmoid family.
pub open spec fn sig_den(x: i64) -> i64 {
    fxs_add(SCALE, fxs_abs(x))
}

/// The symmetric sigmoid curve `x / (1 + |x|)`.
pub open spec fn sig_sym(x: i64) -> i64 {
    fxs_div(x, sig_den(x))
}

/// The derivative `1 / (1 + |x|)^2` of the symmetric sigmoid, with the
/// squared denominator saturating for very large inputs.
pub open spec fn sig_sym_deriv(x: i64) -> i64 {
    fxs_div(SCALE, fxs_mul(sig_den(x), sig_den(x)))
}

pub open spec fn spec_apply(a: Act, x: i64) -> i64 {
    match a {
        Act::Id => x,
        Act::ReLu => if x >= 0 {
            x
        } else {
            0
        },
        Act::Sigmoid => fxs_add(HALF, fxs_divn(sig_sym(x), 2)),
        Act::SigmoidSim => sig_sym(x),
        Act::Tanh => sig_sym(x),
    }
}

pub open spec fn spec_derivative(a: Act, x: i64) -> i64 {
    match a {
        Act::Id => SCALE,
        Act::ReLu => if x > 0 {
            SCALE
        } else {
            0
        },
        Act::Sigmoid => fxs_divn(sig_sym_deriv(x), 2),
        Act::SigmoidSim => sig_sym_deriv(x),
        Act::Tanh => sig_sym_deriv(x),
    }
}

/// Declared lower bound of the co-domain.
pub open spec fn spec_lo(a: Act) -> Option<i64> {
    match a {
        Act::Id => None,
        Act::ReLu => Some(0i64),
        Act::Sigmoid => Some(0i64),
        Act::SigmoidSim => Some((-SCALE) as i64),
        Act::Tanh => None,
    }
}

/// Declared upper bound of the co-domain.
pub open spec fn spec_hi(a: Act) -> Option<i64> {
    match a {
        Act::Id => None,
        Act::ReLu => None,
        Act::Sigmoid => Some(SCALE),
        Act::SigmoidSim => Some(SCALE),
        Act::Tanh => None,
    }
}

/// The sigmoid denominator is at least 1 and never negative.
pub proof fn lemma_sig_den_bounds(x: i64)
    ensures
        SCALE <= sig_den(x) <= MAX_FX,
{
}

/// The symmetric sigmoid stays within `[-1, 1]`.
pub proof fn lemma_sig_sym_bounds(x: i64)
    ensures
        -SCALE <= sig_sym(x) <= SCALE,
{
    lemma_sig_den_bounds(x);
    let a = abs_of_i64(x);
    let m = sig_den(x) as int;
    let s = SCALE as int;
    if a <= m {
        vstd::arithmetic::div_mod::lemma_div_is_ordered(a * s, m * s, m);
        assert(a * s <= m * s) by (nonlinear_arith)
            requires
                0 <= a <= m,
                0 <= s,
        ;
        assert(m * s == s * m) by (nonlinear_arith);
        vstd::arithmetic::div_mod::lemma_div_multiples_vanish(s, m);
    } else {
        // only `x == i64::MIN`: the magnitude exceeds the saturated
        // denominator by exactly one, and the quotient still lands on 1.
        assert(a == m + 1);
        assert(a * s == m * s + s) by (nonlinear_arith)
            requires
                a == m + 1,
        ;
        vstd::arithmetic::div_mod::lemma_div_multiples_vanish_fancy(s, s, m);
        assert(m * s == s * m) by (nonlinear_arith);
    }
    vstd::arithmetic::div_mod::lemma_div_pos_is_pos(a * s, m);
    assert(0 <= a * s) by (nonlinear_arith)
        requires
            0 <= a,
            0 <= s,
    ;
}

/// Shorthand used in the bound proofs.
spec fn abs_of_i64(x: i64) -> int {
    crate::fx::abs_of(x as int)
}

/// The squared sigmoid denominator is at least 1.
pub proof fn lemma_sig_den_sq_pos(x: i64)
    ensures
        SCALE <= fxs_mul(sig_den(x), sig_den(x)),
{
    lemma_sig_den_bounds(x);
    let m = sig_den(x) as int;
    assert(m * m >= m * (SCALE as int)) by (nonlinear_arith)
        requires
            SCALE as int <= m,
    ;
    assert(m * (SCALE as int) == (SCALE as int) * m) by (nonlinear_arith);
    vstd::arithmetic::div_mod::lemma_div_is_ordered((SCALE as int) * m, m * m, SCALE as int);
    vstd::arithmetic::div_mod::lemma_div_multiples_vanish(m, SCALE as int);
}

/// Every activation's value lies within its declared range.
pub proof fn lemma_apply_in_range(a: Act, x: i64)
    ensures
        spec_lo(a) matches Some(lo) ==> lo <= spec_apply(a, x),
        spec_hi(a) matches Some(hi) ==> spec_apply(a, x) <= hi,
{
    match a {
        Act::Sigmoid => {
            lemma_sig_sym_bounds(x);
        },
        Act::SigmoidSim => {
            lemma_sig_sym_bounds(x);
        },
        _ => {},
    }
}

impl Act {
    /// The activation value at `x`.
    pub fn apply(self, x: i64) -> (r: i64)
        ensures
            r == spec_apply(self, x),
    {
        match self {
            Act::Id => x,
            Act::ReLu => if x >= 0 {
                x
            } else {
                0
            },
            Act::Sigmoid => {
                let t = sym_exec(x);
                proof {
                    lemma_sig_sym_bounds(x);
                }
                let h = fx_divn(t, 2);
                fx_add(HALF, h)
            },
            Act::SigmoidSim => sym_exec(x),
            Act::Tanh => sym_exec(x),
        }
    }

    /// The derivative of the activation, evaluated at the pre-activation
    /// value `x`.
    pub fn derivative(self, x: i64) -> (r: i64)
        ensures
            r == spec_derivative(self, x),
    {
        match self {
            Act::Id => SCALE,
            Act::ReLu => if x > 0 {
                SCALE
            } else {
                0
            },
            Act::Sigmoid => fx_divn(sym_deriv_exec(x), 2),
            Act::SigmoidSim => sym_deriv_exec(x),
            Act::Tanh => sym_deriv_exec(x),
        }
    }

    /// The declared output range `(lower, upper)`.
    pub fn range(self) -> (r: (Option<i64>, Option<i64>))
        ensures
            r.0 == spec_lo(self),
            r.1 == spec_hi(self),
    {
        match self {
            Act::Id => (None, None),
            Act::ReLu => (Some(0), None),
            Act::Sigmoid => (Some(0), Some(SCALE)),
            Act::SigmoidSim => (Some(-SCALE), Some(SCALE)),
            Act::Tanh => (None, None),
        }
    }
}

/// The symmetric sigmoid curve.
fn sym_exec(x: i64) -> (r: i64)
    ensures
        r == sig_sym(x),
{
    let a = fx_abs(x);
    let d = fx_add(SCALE, a);
    proof {
        lemma_sig_den_bounds(x);
    }
    fx_div(x, d)
}

/// The symmetric sigmoid derivative.
fn sym_deriv_exec(x: i64) -> (r: i64)
    ensures
        r == sig_sym_deriv(x),
{
    let a = fx_abs(x);
    let d = fx_add(SCALE, a);
    let dd = fx_mul(d, d);
    proof {
        lemma_sig_den_sq_pos(x);
    }
    fx_div(SCALE, dd)
}

/// The identity activation.
#[derive(Clone, Copy, PartialEq, Eq, Structural, Debug)]
pub struct Id;

/// The rectified linear activation.
#[derive(Clone, Copy, PartialEq, Eq, Structural, Debug)]
pub struct ReLu;

/// The `[0, 1]` sigmoid activation.
#[derive(Clone, Copy, PartialEq, Eq, Structural, Debug)]
pub struct Sigmoid;

/// The `[-1, 1]` symmetric sigmoid activation.
#[derive(Clone, Copy, PartialEq, Eq, Structural, Debug)]
pub struct SigmoidSim;

/// The hyperbolic-tangent-shaped activation (no declared range).
#[derive(Clone, Copy, PartialEq, Eq, Structural, Debug)]
pub struct Tanh;

impl Id {
    pub fn new() -> (s: Self)
        ensures
            s == Id,
    {
        Id
    }

    /// The corresponding [`Act`] tag a layer stores.
    pub fn act(self) -> (a: Act)
        ensures
            a == Act::Id,
    {
        Act::Id
    }
}

impl ReLu {
    pub fn new() -> (s: Self)
        ensures
            s == ReLu,
    {
        ReLu
    }

    /// The corresponding [`Act`] tag a layer stores.
    pub fn act(self) -> (a: Act)
        ensures
            a == Act::ReLu,
    {
        Act::ReLu
    }
}

impl Sigmoid {
    pub fn new() -> (s: Self)
        ensures
            s == Sigmoid,
    {
        Sigmoid
    }

    /// The corresponding [`Act`] tag a layer stores.
    pub fn act(self) -> (a: Act)
        ensures
            a == Act::Sigmoid,
    {
        Act::Sigmoid
    }
}

impl SigmoidSim {
    pub fn new() -> (s: Self)
        ensures
            s == SigmoidSim,
    {
        SigmoidSim
    }

    /// The corresponding [`Act`] tag a layer stores.
    pub fn act(self) -> (a: Act)
        ensures
            a == Act::SigmoidSim,
    {
        Act::SigmoidSim
    }
}

impl Tanh {
    pub fn new() -> (s: Self)
        ensures
            s == Tanh,
    {
        Tanh
    }

    /// The corresponding [`Act`] tag a layer stores.
    pub fn act(self) -> (a: Act)
        ensures
            a == Act::Tanh,
    {
        Act::Tanh
    }
}

} // verus!
