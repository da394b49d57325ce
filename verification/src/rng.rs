//! The source of randomness.
//!
//! Randomness enters the library only as raw 64-bit words drawn from a
//! seeded generator of the `rand` crate; everything computed from those
//! words is verified.  Nothing is promised about the words themselves: every
//! contract downstream holds for every possible drawing.

use vstd::prelude::*;

verus! {

#[verifier::external_type_specification]
#[verifier::external_body]
pub struct ExStdRng(rand::rngs::StdRng);

/// Relies on rand's `StdRng::seed_from_u64`: builds a deterministic
/// generator from a 64-bit seed.
#[verifier::external_body]
pub fn rng_from_seed(seed: u64) -> rand::rngs::StdRng {
    <rand::rngs::StdRng as rand::SeedableRng>::seed_from_u64(seed)
}

/// Relies on rand's `Rng::next_u64`: draws the generator's next 64-bit
/// word.  No property of the word is assumed.
#[verifier::external_body]
pub fn next_u64(rng: &mut rand::rngs::StdRng) -> u64 {
    rand::Rng::next_u64(rng)
}

/// A value drawn uniformly-at-raw from `[-bound, bound]`, reduced from one
/// 64-bit word.
pub fn next_symmetric(rng: &mut rand::rngs::StdRng, bound: i64) -> (r: i64)
    requires
        0 < bound <= 0x4000_0000_0000_0000,
    ensures
        -bound <= r <= bound,
{
    let span = 2 * (bound as u64) + 1;
    let word = next_u64(rng);
    let m = word % span;
    if m >= bound as u64 {
        (m - bound as u64) as i64
    } else {
        -((bound as u64 - m) as i64)
    }
}

} // verus!
