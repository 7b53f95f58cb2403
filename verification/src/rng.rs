//! The random numbers that placement and targeting draw.

use rand::rngs::ThreadRng;
use rand::Rng;
use vstd::prelude::*;

verus! {

/// The generator that each thread has for itself. Nothing is known of its
/// state.
#[verifier::external_type_specification]
#[verifier::external_body]
pub struct ExThreadRng(rand::rngs::ThreadRng);

/// How often a random choice is redrawn before the first choice that fits is
/// taken instead.
pub const DRAW_LIMIT: u32 = 10_000;

/// Where random choices come from. Placement and targeting draw from a
/// source that they are handed, so that a source with known draws can stand
/// in for chance.
pub trait RandomSource {
    /// A number that is at least zero and below `bound`. A source of chance
    /// gives each such number as often as any other.
    fn below(&mut self, bound: i32) -> (n: i32)
        requires
            0 < bound,
        ensures
            0 <= n < bound,
    ;

    /// Heads or tails. A source of chance gives either as often as the other.
    fn coin(&mut self) -> (heads: bool);
}

/// The calling thread's generator as a source of chance.
pub struct ThreadSource {
    rng: ThreadRng,
}

impl ThreadSource {
    /// A handle to the calling thread's generator.
    pub fn new() -> (source: ThreadSource) {
        ThreadSource { rng: thread_rng() }
    }
}

impl RandomSource for ThreadSource {
    fn below(&mut self, bound: i32) -> (n: i32) {
        random_range(&mut self.rng, 0, bound)
    }

    fn coin(&mut self) -> (heads: bool) {
        random_ratio(&mut self.rng, 1, 2)
    }
}

/// `rand::rng`, which hands out the calling thread's generator. It gives up
/// only where the system has no randomness to seed the generator with.
#[verifier::external_body]
fn thread_rng() -> ThreadRng {
    rand::rng()
}

/// `Rng::random_range` on the half-open range from `low` to `high`: some
/// number of the range. An empty range makes it panic, so there must be one.
#[verifier::external_body]
fn random_range(rng: &mut ThreadRng, low: i32, high: i32) -> (n: i32)
    requires
        low < high,
    ensures
        low <= n < high,
{
    rng.random_range(low..high)
}

/// `Rng::random_ratio`: `true` in `numerator` cases out of `denominator`.
/// It is always `true` where the two are equal and always `false` where
/// `numerator` is zero, and it panics on a ratio above one or on a zero
/// denominator.
#[verifier::external_body]
fn random_ratio(rng: &mut ThreadRng, numerator: u32, denominator: u32) -> (b: bool)
    requires
        0 < denominator,
        numerator <= denominator,
    ensures
        numerator == denominator ==> b,
        numerator == 0 ==> !b,
{
    rng.random_ratio(numerator, denominator)
}

} // verus!
