use vstd::prelude::*;

use rand::{Rng, SeedableRng};
use rand_chacha::ChaCha12Rng;

verus! {

#[verifier::external_type_specification]
#[verifier::external_body]
pub struct ExChaCha12Rng(ChaCha12Rng);

/// Relies on rand_core's `SeedableRng::seed_from_u64` for rand_chacha's
/// `ChaCha12Rng`: the generator that `seed` determines.
#[verifier::external_body]
fn seeded(seed: u64) -> ChaCha12Rng {
    ChaCha12Rng::seed_from_u64(seed)
}

/// Relies on rand's `Rng::random_range` over `0..n`: a whole number drawn
/// uniformly below `n` (it panics on an empty range, which `requires` leaves out).
#[verifier::external_body]
fn random_below(rng: &mut ChaCha12Rng, n: u64) -> (r: u64)
    requires
        n > 0,
    ensures
        r < n,
{
    rng.random_range(0..n)
}

/// The one random stream of a run, seeded once.
pub struct SimRng {
    rng: ChaCha12Rng,
}

impl SimRng {
    pub fn new(seed: u64) -> (r: SimRng) {
        SimRng { rng: seeded(seed) }
    }

    /// A whole number drawn uniformly below `n`.
    pub fn below(&mut self, n: u64) -> (r: u64)
        requires
            n > 0,
        ensures
            r < n,
    {
        random_below(&mut self.rng, n)
    }
}

} // verus!
