//! Random draws.

use rand::rand_core::UnwrapErr;
use rand::rngs::{StdRng, SysRng};
use rand::{RngExt, SeedableRng};
use vstd::prelude::*;

verus! {

/// A seeded generator of the `rand` crate.
#[verifier::external_type_specification]
#[verifier::external_body]
pub struct ExStdRng(StdRng);

/// `StdRng::seed_from_u64` makes a generator from a seed. The draws that follow
/// from a seed are not said here: the algorithm may change with the crate.
#[verifier::external_body]
fn seeded(seed: u64) -> (rng: StdRng) {
    StdRng::seed_from_u64(seed)
}

/// `RngExt::random_range` draws from an inclusive range, which must not be
/// empty; the draw lies in it. Which of the range it is, is left to the
/// generator.
#[verifier::external_body]
fn random_between(rng: &mut StdRng, low: u64, high: u64) -> (drawn: u64)
    requires
        low <= high,
    ensures
        low <= drawn <= high,
{
    rng.random_range(low..=high)
}

/// `RngExt::random_ratio` is true with a chance of `numerator` in
/// `denominator`: always at one, never at zero, and else as the generator has
/// it.
#[verifier::external_body]
fn random_chance(rng: &mut StdRng, numerator: u32, denominator: u32) -> (hit: bool)
    requires
        denominator > 0,
        numerator <= denominator,
    ensures
        numerator == denominator ==> hit,
        numerator == 0 ==> !hit,
{
    rng.random_ratio(numerator, denominator)
}

/// `RngExt::random_range` over the operating system's generator, `SysRng`,
/// draws from an inclusive range, which must not be empty. A system that cannot
/// supply random bytes ends the process.
#[verifier::external_body]
pub(crate) fn system_random_between(low: u64, high: u64) -> (drawn: u64)
    requires
        low <= high,
    ensures
        low <= drawn <= high,
{
    UnwrapErr(SysRng).random_range(low..=high)
}

/// A generator of jitter, with the seed that its stream of draws starts from.
pub struct JitterRng {
    rng: StdRng,
    seed: Ghost<u64>,
}

impl JitterRng {
    /// The seed of this generator's stream.
    pub closed spec fn seed(&self) -> u64 {
        self.seed@
    }

    /// A generator at the start of a seed's stream.
    pub fn new(seed: u64) -> (jitter: Self)
        ensures
            jitter.seed() == seed,
    {
        JitterRng { rng: seeded(seed), seed: Ghost(seed) }
    }

    /// Draws from `low` to `high`, both included, and moves on in the stream.
    pub fn range(&mut self, low: u64, high: u64) -> (drawn: u64)
        requires
            low <= high,
        ensures
            low <= drawn <= high,
            final(self).seed() == old(self).seed(),
    {
        random_between(&mut self.rng, low, high)
    }

    /// True with a chance of `numerator` in `denominator`; moves on in the
    /// stream.
    pub fn chance(&mut self, numerator: u32, denominator: u32) -> (hit: bool)
        requires
            denominator > 0,
            numerator <= denominator,
        ensures
            numerator == denominator ==> hit,
            numerator == 0 ==> !hit,
            final(self).seed() == old(self).seed(),
    {
        random_chance(&mut self.rng, numerator, denominator)
    }
}

} // verus!
