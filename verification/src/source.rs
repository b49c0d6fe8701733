//! The random source of one snowflake.
//!
//! A source is made from a seed once, at the start of a generation, and is
//! then handed down by reference to whoever draws next. It is never shared
//! between two snowflakes: draws that interleave would change both.

use rand::rngs::StdRng;
use rand::Rng;
use rand::SeedableRng;
use rand_xoshiro::Xoroshiro128PlusPlus;
use vstd::prelude::*;

verus! {

/// The generator that a seed is expanded with, `rand::rngs::StdRng`.
#[verifier::external_type_specification]
#[verifier::external_body]
pub struct ExStdRng(StdRng);

/// The generator that the draws come from,
/// `rand_xoshiro::Xoroshiro128PlusPlus`.
#[verifier::external_type_specification]
#[verifier::external_body]
pub struct ExXoroshiro128PlusPlus(Xoroshiro128PlusPlus);

/// Calls `SeedableRng::seed_from_u64` of `rand::rngs::StdRng`. Nothing is
/// claimed of the generator that comes back.
#[verifier::external_body]
fn expand_seed(seed: u64) -> StdRng {
    StdRng::seed_from_u64(seed)
}

/// Calls `SeedableRng::from_rng` of `Xoroshiro128PlusPlus`, which fills the
/// new generator's seed from `master`. The call fails only where `master`
/// fails to fill a buffer, and `StdRng` always fills it: so the result is
/// claimed to be there.
#[verifier::external_body]
fn fork_generator(master: StdRng) -> (forked: Option<Xoroshiro128PlusPlus>)
    ensures
        forked is Some,
{
    Xoroshiro128PlusPlus::from_rng(master).ok()
}

/// Calls `Rng::gen_range` of rand on the inclusive range `low..=high` of
/// `usize`. It panics on an empty range, which is left out here. The value
/// lies in the range; which one it is depends on the generator's state.
#[verifier::external_body]
fn draw_index(generator: &mut Xoroshiro128PlusPlus, low: usize, high: usize) -> (drawn: usize)
    requires
        low <= high,
    ensures
        low <= drawn <= high,
{
    generator.gen_range(low..=high)
}

/// Calls `Rng::gen_range` of rand on the inclusive range `low..=high` of
/// `i32`. It panics on an empty range, which is left out here. The value
/// lies in the range; which one it is depends on the generator's state.
#[verifier::external_body]
fn draw_small(generator: &mut Xoroshiro128PlusPlus, low: i32, high: i32) -> (drawn: i32)
    requires
        low <= high,
    ensures
        low <= drawn <= high,
{
    generator.gen_range(low..=high)
}

/// A reproducible stream of bounded random values.
///
/// The generator is public: reals are drawn from it directly, by the code
/// that turns commands into geometry.
pub struct RandomSource {
    pub generator: Xoroshiro128PlusPlus,
}

impl RandomSource {
    /// The source for `seed`. The seed is expanded by a master generator
    /// that the stream's own generator is then seeded from.
    pub fn new(seed: u64) -> (source: RandomSource) {
        let master = expand_seed(seed);
        match fork_generator(master) {
            Some(generator) => RandomSource { generator },
            None => {
                proof {
                    assert(false);
                }
                unreached()
            },
        }
    }

    /// Draws an integer from the closed range `low..=high`. A range whose
    /// bounds are out of order is a fault of the caller; the bounds are never
    /// swapped.
    pub fn uniform_int(&mut self, low: usize, high: usize) -> (drawn: usize)
        requires
            low <= high,
        ensures
            low <= drawn <= high,
    {
        draw_index(&mut self.generator, low, high)
    }

    /// Draws a small signed integer from the closed range `low..=high`.
    pub fn uniform_small(&mut self, low: i32, high: i32) -> (drawn: i32)
        requires
            low <= high,
        ensures
            low <= drawn <= high,
    {
        draw_small(&mut self.generator, low, high)
    }
}

} // verus!
