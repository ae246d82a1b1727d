//! The per-call random source that every randomised routine draws from.

use rand::rngs::OsRng;
use rand::rngs::StdRng;
use rand::Rng;
use rand::SeedableRng;
use vstd::prelude::*;

verus! {

/// `rand::rngs::StdRng`, the generator behind a random source. Its state is
/// carried through unseen.
#[verifier::external_type_specification]
#[verifier::external_body]
pub struct ExStdRng(StdRng);

/// A random source owned by one call chain. Two sources never share state, so
/// concurrent callers stay independent of each other.
pub struct RandomSource {
    rng: StdRng,
}

/// Calls `rand::SeedableRng::seed_from_u64` for `rand::rngs::StdRng`, which
/// stretches the seed to a full one and does not fail. The generator it
/// hands back is not described: nothing is claimed about it.
#[verifier::external_body]
fn std_rng_from_seed(seed: u64) -> (rng: StdRng) {
    StdRng::seed_from_u64(seed)
}

/// Calls `rand::SeedableRng::from_rng` for `rand::rngs::StdRng` with
/// `rand::rngs::OsRng` as the parent. `None` stands for the error that the
/// call reports when the operating system has no entropy to give. Nothing
/// is claimed about the result.
#[verifier::external_body]
fn std_rng_from_os() -> (rng: Option<StdRng>) {
    StdRng::from_rng(OsRng).ok()
}

/// Calls `rand::Rng::gen_range` on the half-open range `0..bound`. The call
/// panics on an empty range, which the precondition excludes. It samples by
/// rejection: it multiplies a random word by the width of the range, keeps
/// the high word of the product and draws again where the low word falls in
/// the biased zone. The high word is below the width, so the result lies in
/// the range, and that is all that is claimed of it.
#[verifier::external_body]
fn std_rng_below(rng: &mut StdRng, bound: usize) -> (r: usize)
    requires
        bound > 0,
    ensures
        r < bound,
{
    rng.gen_range(0..bound)
}

impl RandomSource {
    /// A source whose draws are a function of `seed` and of the order of the
    /// calls made on it.
    pub fn from_seed(seed: u64) -> (source: RandomSource) {
        RandomSource { rng: std_rng_from_seed(seed) }
    }

    /// A source seeded by the operating system, or `None` where the system
    /// cannot provide a seed.
    pub fn from_entropy() -> (source: Option<RandomSource>) {
        match std_rng_from_os() {
            Some(rng) => Some(RandomSource { rng }),
            None => None,
        }
    }

    /// Draws an index below `bound`.
    pub fn next_below(&mut self, bound: usize) -> (r: usize)
        requires
            bound > 0,
        ensures
            r < bound,
    {
        std_rng_below(&mut self.rng, bound)
    }
}

} // verus!
