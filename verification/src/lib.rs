//! A feed-forward neural-network and policy-gradient reinforcement-learning
//! toolkit over a saturating fixed-point scalar.
//!
//! Every value the library computes with is a signed 64-bit fixed-point
//! number with [`fx::SCALE`] fractional resolution, so all arithmetic is
//! exactly specified and every operation carries a proved contract.
//!
//! - [`fx`]: the scalar and its saturating operations.
//! - [`activation`]: identity, rectifier and sigmoid-family activations.
//! - [`model`]: the mathematical model a network is specified against.
//! - [`layer`]: one affine layer with activation, gradient accumulator and
//!   forward-pass caches.
//! - [`network`]: recursive composition of layers and supervised training.
//! - [`training`]: the uniform stage interface (forward, backpropagation,
//!   gradient operations).
//! - [`score`]: running reward statistics for baselines.
//! - [`reinforce`]: stochastic action sampling and the batched
//!   policy-gradient engine.
//! - [`rng`]: the seeded source of random words.

pub mod activation;
pub mod fx;
pub mod layer;
pub mod model;
pub mod network;
pub mod reinforce;
pub mod rng;
pub mod score;
pub mod training;

use vstd::prelude::*;

verus! {

} // verus!
