//! Running reward statistics.
//!
//! The tracker keeps an exponentially filtered mean (gain one half) and a
//! slowly tracked variance of the samples it is fed; the difference between
//! a new sample and the mean before the update is the advantage signal used
//! to scale policy-gradient updates.

use vstd::prelude::*;
use crate::fx::{
    abs_of, fx_add, fx_divn, fx_mul, fx_sqrt, fx_sub, fxs_add, fxs_divn, fxs_mul, fxs_sqrt,
    fxs_sub, MAX_FX,
};

verus! {

/// The mean after absorbing one sample: it moves half the distance to the
/// sample.
pub open spec fn next_mean(mean: i64, sample: i64) -> i64 {
    fxs_add(mean, fxs_divn(fxs_sub(sample, mean), 2))
}

/// The variance after absorbing one squared deviation, with gain `1/10000`.
pub open spec fn next_var(var: i64, diff: i64) -> i64 {
    fxs_add(fxs_sub(var, fxs_divn(var, 10000)), fxs_divn(fxs_mul(diff, diff), 10000))
}

/// The mean after `n` updates with the constant sample `c`.
pub open spec fn mean_iter(mean: i64, c: i64, n: nat) -> i64
    decreases n,
{
    if n == 0 {
        mean
    } else {
        next_mean(mean_iter(mean, c, (n - 1) as nat), c)
    }
}

/// Running mean and variance of a reward stream.
pub struct Score {
    last: i64,
    diff: i64,
    mean: i64,
    var: i64,
}

impl Score {
    /// A tracker with no history: everything zero.
    pub fn new() -> (s: Score)
        ensures
            s.last() == 0,
            s.diff() == 0,
            s.mean() == 0,
            s.var() == 0,
    {
        Score { last: 0, diff: 0, mean: 0, var: 0 }
    }

    pub closed spec fn last(&self) -> i64 {
        self.last
    }

    pub closed spec fn diff(&self) -> i64 {
        self.diff
    }

    pub closed spec fn mean(&self) -> i64 {
        self.mean
    }

    pub closed spec fn var(&self) -> i64 {
        self.var
    }

    /// The last sample fed in.
    pub fn last_sample(&self) -> (r: i64)
        ensures
            r == self.last(),
    {
        self.last
    }

    /// The advantage of the last sample: sample minus the mean before it.
    pub fn last_diff(&self) -> (r: i64)
        ensures
            r == self.diff(),
    {
        self.diff
    }

    /// The filtered mean.
    pub fn mean_value(&self) -> (r: i64)
        ensures
            r == self.mean(),
    {
        self.mean
    }

    /// The square root of the tracked variance.
    pub fn sigma(&self) -> (r: i64)
        ensures
            r == fxs_sqrt(self.var()),
    {
        fx_sqrt(self.var)
    }

    /// Absorb one sample: returns `sample - mean`, moves the mean half the
    /// way to the sample, and nudges the variance toward the squared
    /// deviation with gain `1/10000`.
    pub fn update(&mut self, sample: i64) -> (d: i64)
        ensures
            d == fxs_sub(sample, old(self).mean()),
            final(self).diff() == d,
            final(self).last() == sample,
            final(self).mean() == next_mean(old(self).mean(), sample),
            final(self).var() == next_var(old(self).var(), d),
    {
        let d = fx_sub(sample, self.mean);
        self.diff = d;
        self.last = sample;
        self.mean = fx_add(self.mean, fx_divn(d, 2));
        self.var = fx_add(fx_sub(self.var, fx_divn(self.var, 10000)), fx_divn(fx_mul(d, d), 10000));
        d
    }
}

/// One update with sample `c` at least halves the distance of the mean to
/// `c` (up to the final raw unit), and keeps the mean in the safe range.
pub proof fn lemma_mean_update_halves(m: i64, c: i64)
    requires
        -(MAX_FX / 2) <= m <= MAX_FX / 2,
        -(MAX_FX / 2) <= c <= MAX_FX / 2,
    ensures
        2 * abs_of(c - next_mean(m, c)) <= abs_of(c - m) + 1,
        -(MAX_FX / 2) <= next_mean(m, c) <= MAX_FX / 2,
{
    let d = c - m;
    assert(fxs_sub(c, m) == d);
    let h = crate::fx::tdiv(d, 2);
    if d >= 0 {
        vstd::arithmetic::div_mod::lemma_fundamental_div_mod(d, 2);
        assert(0 <= h <= d);
    } else {
        vstd::arithmetic::div_mod::lemma_fundamental_div_mod(-d, 2);
        assert(d <= h <= 0);
    }
    assert(next_mean(m, c) == m + h);
}

/// Feeding the tracker a constant sample drives the mean to that value: the
/// distance after `n` updates is at most the initial distance divided by
/// `2^n`, plus one raw unit.  The advantage returned by the next update is
/// bounded by that same distance.
pub proof fn lemma_score_convergence(m: i64, c: i64, n: nat)
    requires
        -(MAX_FX / 2) <= m <= MAX_FX / 2,
        -(MAX_FX / 2) <= c <= MAX_FX / 2,
    ensures
        -(MAX_FX / 2) <= mean_iter(m, c, n) <= MAX_FX / 2,
        vstd::arithmetic::power2::pow2(n) * (abs_of(c - mean_iter(m, c, n)) - 1) <= abs_of(c - m),
    decreases n,
{
    vstd::arithmetic::power2::lemma_pow2_pos(n);
    if n == 0 {
        assert(vstd::arithmetic::power2::pow2(0) == 1) by {
            vstd::arithmetic::power2::lemma2_to64();
        }
    } else {
        let p = (n - 1) as nat;
        lemma_score_convergence(m, c, p);
        vstd::arithmetic::power2::lemma_pow2_pos(p);
        let mk = mean_iter(m, c, p);
        lemma_mean_update_halves(mk, c);
        let ak = abs_of(c - mk);
        let an = abs_of(c - mean_iter(m, c, n));
        let pk = vstd::arithmetic::power2::pow2(p) as int;
        assert(vstd::arithmetic::power2::pow2(n) == 2 * pk) by {
            vstd::arithmetic::power2::lemma_pow2_unfold(n);
        }
        assert(2 * an <= ak + 1);
        assert((2 * pk) * (an - 1) == pk * (2 * an - 2)) by (nonlinear_arith);
        assert(pk * (2 * an - 2) <= pk * (ak - 1)) by (nonlinear_arith)
            requires
                2 * an - 2 <= ak - 1,
                pk > 0,
        ;
    }
}

} // verus!
