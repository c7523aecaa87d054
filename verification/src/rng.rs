//! The randomness source.
//!
//! Generation consumes a caller-supplied source of randomness. The source
//! wraps the standard generator of the `rand` crate; the single primitive
//! the verified code draws from it is a uniform value below a given bound.

use vstd::prelude::*;

verus! {

#[verifier::external_type_specification]
#[verifier::external_body]
pub struct ExStdRng(rand::rngs::StdRng);

/// A stream of random values, consumed sequentially by one generation
/// call at a time.
pub struct RandomSource {
    rng: rand::rngs::StdRng,
}

impl RandomSource {
    /// Relies on rand's `SeedableRng::seed_from_u64` for `StdRng`: builds
    /// the standard generator from a 64-bit seed; the stream it yields is
    /// a function of the seed alone. Suitable for tests, not for secrets.
    #[verifier::external_body]
    pub fn from_seed(seed: u64) -> RandomSource {
        RandomSource { rng: <rand::rngs::StdRng as rand::SeedableRng>::seed_from_u64(seed) }
    }

    /// Relies on `rand::make_rng` for `StdRng`: seeds the standard
    /// generator from the process-wide entropy source.
    #[verifier::external_body]
    pub fn from_entropy() -> RandomSource {
        RandomSource { rng: rand::make_rng() }
    }

    /// Relies on rand's `RngExt::random_range` over `0..n`: returns a
    /// uniform value below `n`. The call panics only on an empty range,
    /// which the precondition rules out.
    #[verifier::external_body]
    pub(crate) fn below(&mut self, n: u64) -> (r: u64)
        requires
            n >= 1,
        ensures
            r < n,
    {
        rand::RngExt::random_range(&mut self.rng, 0..n)
    }
}

/// Uniform index below `n`, as a `usize`.
pub fn below_index(src: &mut RandomSource, n: usize) -> (r: usize)
    requires
        n >= 1,
    ensures
        r < n,
{
    let r = src.below(n as u64);
    r as usize
}

} // verus!
