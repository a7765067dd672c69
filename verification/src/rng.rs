//! The randomness provider: a seedable source of uniform fixed-point
//! values, injected explicitly into every generator that jitters its
//! output.  Only the range of each draw is specified; no two draws are
//! related, which is exactly as much as randomness warrants.

use vstd::prelude::*;

verus! {

#[verifier::external_type_specification]
#[verifier::external_body]
pub struct ExStdRng(rand::rngs::StdRng);

/// Relies on rand::SeedableRng::seed_from_u64 for rand::rngs::StdRng:
/// builds a generator from a 64-bit seed.
#[verifier::external_body]
fn seed_std_rng(seed: u64) -> rand::rngs::StdRng {
    <rand::rngs::StdRng as rand::SeedableRng>::seed_from_u64(seed)
}

/// Relies on rand::Rng::gen_range over a half-open i64 range: returns a
/// value in `[lo, hi)` and panics only on an empty range, which the
/// precondition rules out.
#[verifier::external_body]
fn std_rng_range(rng: &mut rand::rngs::StdRng, lo: i64, hi: i64) -> (r: i64)
    requires
        lo < hi,
    ensures
        lo <= r < hi,
{
    rand::Rng::gen_range(rng, lo..hi)
}

/// A seedable randomness source handed by mutable reference into every
/// generator that needs jitter; pure generators take none.
pub struct RandomSource {
    rng: rand::rngs::StdRng,
}

impl RandomSource {
    /// A source determined by a seed, so that runs can be replayed.
    pub fn from_seed(seed: u64) -> RandomSource {
        RandomSource { rng: seed_std_rng(seed) }
    }

    /// The next value, uniform in `[lo, hi)`.
    pub fn next_in(&mut self, lo: i64, hi: i64) -> (r: i64)
        requires
            lo < hi,
        ensures
            lo <= r < hi,
    {
        std_rng_range(&mut self.rng, lo, hi)
    }

    /// The next fixed-point fraction, uniform in `[0, 1)`.
    pub fn next_unit(&mut self) -> (r: i64)
        ensures
            0 <= r < crate::fixed::ONE,
    {
        std_rng_range(&mut self.rng, 0, crate::fixed::ONE)
    }
}

} // verus!
