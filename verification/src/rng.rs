//! The session's random source: an explicit pseudo-random generator, so
//! that callers (and tests) can seed it deterministically.

use vstd::prelude::*;
use rand::Rng;
use rand::SeedableRng;

verus! {

#[verifier::external_type_specification]
#[verifier::external_body]
pub struct ExStdRng(rand::rngs::StdRng);

/// A pseudo-random generator owned by the editor session and threaded
/// through generation and tweak calls.
pub struct RaceRng {
    rng: rand::rngs::StdRng,
}

impl RaceRng {
    /// Relies on rand's `StdRng::seed_from_u64`: builds a generator from a
    /// fixed seed. Nothing is promised of the values it will yield.
    #[verifier::external_body]
    pub fn seeded(seed: u64) -> (r: RaceRng) {
        RaceRng { rng: rand::rngs::StdRng::seed_from_u64(seed) }
    }

    /// Relies on rand's `StdRng::from_entropy`: builds a generator from the
    /// operating system's entropy source. It aborts if that source fails,
    /// like the rest of the unverified startup glue it serves.
    #[verifier::external_body]
    pub fn from_os_entropy() -> (r: RaceRng) {
        RaceRng { rng: rand::rngs::StdRng::from_entropy() }
    }

    /// Relies on rand's `Rng::gen_range`: returns a value of `0..n`,
    /// and panics only on an empty range, which the precondition rules out.
    #[verifier::external_body]
    pub(crate) fn gen_index(&mut self, n: usize) -> (r: usize)
        requires
            n > 0,
        ensures
            r < n,
    {
        self.rng.gen_range(0..n)
    }
}

} // verus!
