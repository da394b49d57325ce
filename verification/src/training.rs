//! The uniform interface of a network stage.
//!
//! A stage is anything whose behaviour is the composition of a chain of
//! layers: a single [`crate::layer::Layer`] or a whole
//! [`crate::network::Network`].  Each trait method carries the same contract
//! for every implementor, stated against the stage's chain of
//! [`LayerModel`]s.

use vstd::prelude::*;
use crate::fx::SCALE;
use crate::model::{
    apply_models, chain_norm2, chain_param_count, chain_wf, fwd_models, fwd_out, normalized,
    reset_models, rescale_models, same_shape, upd_dout, upd_models, LayerModel, Shape,
};

verus! {

/// A stage's parameter store.
pub trait Weights: Sized {
    /// The chain of layers the stage stands for.
    spec fn model(&self) -> Seq<LayerModel>;

    /// The stage's composition tree, data stripped.
    spec fn shape(&self) -> Shape;

    /// Number of weight and bias entries.
    fn weights_len(&self) -> (n: usize)
        requires
            chain_wf(self.model()),
        ensures
            n == chain_param_count(self.model()),
    ;
}

/// A stage that can be evaluated forward.
pub trait Eval: Weights {
    fn input_len(&self) -> (n: usize)
        requires
            chain_wf(self.model()),
        ensures
            n == self.model()[0].ni,
    ;

    fn output_len(&self) -> (n: usize)
        requires
            chain_wf(self.model()),
        ensures
            n == self.model().last().no,
    ;

    /// One forward pass; the per-layer caches are overwritten, weights and
    /// gradients are untouched.
    fn forward(&mut self, input: &Vec<i64>) -> (out: Vec<i64>)
        requires
            chain_wf(old(self).model()),
            input@.len() == old(self).model()[0].ni,
        ensures
            final(self).model() == fwd_models(old(self).model(), input@),
            out@ == fwd_out(old(self).model(), input@),
            out@.len() == old(self).model().last().no,
            chain_wf(final(self).model()),
            same_shape(final(self).model(), old(self).model()),
            final(self).shape() == old(self).shape(),
    ;
}

/// A stage that can backpropagate a delta.
pub trait BackProp: Eval {
    /// One chain-rule step: blends the local gradient of the last forward
    /// pass into the accumulator with weight `relaxation`, and returns the
    /// delta for the preceding stage.
    fn update_gradient(&mut self, relaxation: i64, delta: &Vec<i64>) -> (dout: Vec<i64>)
        requires
            chain_wf(old(self).model()),
            0 < relaxation <= SCALE,
            delta@.len() == old(self).model().last().no,
        ensures
            final(self).model() == upd_models(old(self).model(), relaxation, delta@),
            dout@ == upd_dout(old(self).model(), relaxation, delta@),
            dout@.len() == old(self).model()[0].ni,
            chain_wf(final(self).model()),
            same_shape(final(self).model(), old(self).model()),
            final(self).shape() == old(self).shape(),
    ;
}

/// The operations on a stage's accumulated gradient.
pub trait Gradient: Weights {
    /// Zero the gradient accumulator.
    fn reset_gradient(&mut self)
        requires
            chain_wf(old(self).model()),
        ensures
            final(self).model() == reset_models(old(self).model()),
            chain_wf(final(self).model()),
            final(self).shape() == old(self).shape(),
    ;

    /// One gradient step in the ascent convention: `w += alpha * gradient`.
    fn apply_gradient(&mut self, alpha: i64)
        requires
            chain_wf(old(self).model()),
        ensures
            final(self).model() == apply_models(old(self).model(), alpha),
            chain_wf(final(self).model()),
            final(self).shape() == old(self).shape(),
    ;

    /// Multiply every gradient entry by `a`.
    fn rescale_gradient(&mut self, a: i64)
        requires
            chain_wf(old(self).model()),
        ensures
            final(self).model() == rescale_models(old(self).model(), a),
            chain_wf(final(self).model()),
            final(self).shape() == old(self).shape(),
    ;

    /// The squared sum of all gradient entries.
    fn norm2_gradient(&self) -> (n: i64)
        requires
            chain_wf(self.model()),
        ensures
            n == chain_norm2(self.model()),
            n >= 0,
    ;

    /// Add the other stage's gradient entry by entry.
    fn add_gradient(&mut self, rhs: &Self)
        requires
            chain_wf(old(self).model()),
            chain_wf(rhs.model()),
            same_shape(rhs.model(), old(self).model()),
            rhs.shape() == old(self).shape(),
        ensures
            final(self).model() == crate::model::add_models(old(self).model(), rhs.model()),
            chain_wf(final(self).model()),
            final(self).shape() == old(self).shape(),
    ;

    /// Rescale the gradient to unit norm; a zero gradient is left alone.
    fn normalize_gradient(&mut self)
        requires
            chain_wf(old(self).model()),
        ensures
            final(self).model() == normalized(old(self).model()),
            chain_wf(final(self).model()),
            final(self).shape() == old(self).shape(),
    ;
}

} // verus!
