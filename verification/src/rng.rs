//! Seedable randomness for particle placement.
//!
//! Respawned particles are scattered with uniform draws.  The draws come
//! from `rand`'s `SmallRng`, held behind a seedable [`RandomSource`] so that
//! respawn trajectories are reproducible in tests.  Nothing is assumed of a
//! drawn value beyond its range, so everything proved about the simulation
//! holds whatever the generator returns.

use rand::rngs::SmallRng;
use rand::{Rng, SeedableRng};
use vstd::prelude::*;

verus! {

/// Declares rand's `SmallRng` so it can stand in a field: the generator's
/// state is opaque to the proofs.
#[verifier::external_type_specification]
#[verifier::external_body]
pub struct ExSmallRng(SmallRng);

/// Relies on rand's `SeedableRng::seed_from_u64`: builds a generator from a
/// seed; nothing is assumed about the values it will produce.
#[verifier::external_body]
fn small_rng_from_seed(seed: u64) -> SmallRng {
    SmallRng::seed_from_u64(seed)
}

/// Relies on rand's `SeedableRng::from_entropy`: builds a generator from
/// operating-system randomness, aborting if that source is unavailable;
/// nothing is assumed about the values it will produce.
#[verifier::external_body]
fn small_rng_from_entropy() -> SmallRng {
    SmallRng::from_entropy()
}

/// Relies on rand's `Rng::gen_range`: returns a value of the given half-open
/// range, and panics only when the range is empty, which the precondition
/// rules out.
#[verifier::external_body]
fn small_rng_range(rng: &mut SmallRng, lo: i64, hi: i64) -> (r: i64)
    requires
        lo < hi,
    ensures
        lo <= r < hi,
{
    rng.gen_range(lo..hi)
}

/// A seedable source of uniform draws.
pub struct RandomSource {
    rng: SmallRng,
}

impl RandomSource {
    /// A source that replays the same draws for the same seed.
    pub fn from_seed(seed: u64) -> RandomSource {
        RandomSource { rng: small_rng_from_seed(seed) }
    }

    /// A source seeded from operating-system randomness.
    pub fn from_entropy() -> RandomSource {
        RandomSource { rng: small_rng_from_entropy() }
    }

    /// A uniform draw from the half-open range `[lo, hi)`.
    pub fn draw(&mut self, lo: i64, hi: i64) -> (r: i64)
        requires
            lo < hi,
        ensures
            lo <= r < hi,
    {
        small_rng_range(&mut self.rng, lo, hi)
    }
}

} // verus!
