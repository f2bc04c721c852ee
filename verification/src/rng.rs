//! The pseudo-random stream that the per-block fill draws from: a fast
//! xoshiro generator seeded once per fill from the thread-local source.

use vstd::prelude::*;
use rand_xoshiro::rand_core::Rng;
use rand_xoshiro::rand_core::SeedableRng;

verus! {

use crate::color::Color;

/// Declares `rand_xoshiro::Xoshiro128Plus`, the generator state, as an
/// opaque outside type.
#[verifier::external_type_specification]
#[verifier::external_body]
pub struct ExXoshiro128Plus(rand_xoshiro::Xoshiro128Plus);

/// Relies on `rand_xoshiro::Xoshiro128Plus::seed_from_u64` (`SeedableRng`):
/// builds a generator state from a word-sized seed; never fails.
#[verifier::external_body]
fn xoshiro_from_seed(seed: u64) -> rand_xoshiro::Xoshiro128Plus {
    rand_xoshiro::Xoshiro128Plus::seed_from_u64(seed)
}

/// Relies on `rand_core::Rng::next_u32` for `Xoshiro128Plus`: advances
/// the generator and returns the next word of its stream; the generator
/// is infallible, so nothing is promised of the value drawn.
#[verifier::external_body]
fn xoshiro_next_u32(rng: &mut rand_xoshiro::Xoshiro128Plus) -> u32 {
    rng.next_u32()
}

/// Relies on `rand::random`: draws one word from the thread-local
/// generator; nothing is promised of the value drawn.
#[verifier::external_body]
fn random_seed() -> u64 {
    rand::random()
}

/// A fast, repeatable pseudo-random generator: one xoshiro128+ stream.
pub struct FastRepRand {
    rng: rand_xoshiro::Xoshiro128Plus,
}

impl FastRepRand {
    pub fn new(seed: u64) -> FastRepRand {
        FastRepRand { rng: xoshiro_from_seed(seed) }
    }

    /// One fresh generator, seeded from the thread-local source.
    pub fn from_entropy() -> FastRepRand {
        FastRepRand::new(random_seed())
    }

    /// The next word of the stream.
    pub fn next_u32(&mut self) -> u32 {
        xoshiro_next_u32(&mut self.rng)
    }
}

/// One pseudo-random color sample: an independent draw per channel.
pub fn color_random(rng: &mut FastRepRand) -> Color {
    let x = rng.next_u32();
    let y = rng.next_u32();
    let z = rng.next_u32();
    Color::new(x, y, z)
}

} // verus!
