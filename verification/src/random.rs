//! The explicit source of randomness threaded through every stochastic
//! operation. Wrapping a concrete seeded generator keeps runs reproducible
//! for a fixed seed and keeps the rest of the library fully verified: the
//! contracts below state only what holds of every outcome of a draw.

use vstd::prelude::*;

verus! {

#[verifier::external_type_specification]
#[verifier::external_body]
pub struct ExStdRng(rand::rngs::StdRng);

/// A deterministic pseudo-random source, constructed from a seed and passed
/// explicitly to every stochastic operation.
pub struct RandomSource {
    rng: rand::rngs::StdRng,
}

impl RandomSource {
    /// Relies on rand's `SeedableRng::seed_from_u64`: builds a generator from
    /// a 64-bit seed.
    #[verifier::external_body]
    pub fn from_seed(seed: u64) -> RandomSource {
        RandomSource { rng: <rand::rngs::StdRng as rand::SeedableRng>::seed_from_u64(seed) }
    }

    /// Relies on rand's `Rng::gen_range`: returns a value uniform in
    /// `[0, bound)`; the call panics on an empty range, so `bound` must be
    /// positive.
    #[verifier::external_body]
    pub fn below_u64(&mut self, bound: u64) -> (r: u64)
        requires
            bound > 0,
        ensures
            r < bound,
    {
        rand::Rng::gen_range(&mut self.rng, 0..bound)
    }

    /// Relies on rand's `Rng::gen_range` at `u128`: returns a value uniform
    /// in `[0, bound)`; the call panics on an empty range.
    #[verifier::external_body]
    pub fn below_u128(&mut self, bound: u128) -> (r: u128)
        requires
            bound > 0,
        ensures
            r < bound,
    {
        rand::Rng::gen_range(&mut self.rng, 0..bound)
    }

    /// Relies on rand's `Rng::gen_range` at `usize`: returns a value uniform
    /// in `[0, bound)`; the call panics on an empty range.
    #[verifier::external_body]
    pub fn below_usize(&mut self, bound: usize) -> (r: usize)
        requires
            bound > 0,
        ensures
            r < bound,
    {
        rand::Rng::gen_range(&mut self.rng, 0..bound)
    }
}

} // verus!
