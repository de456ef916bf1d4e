//! Randomness for draws, die rolls, and strategy coin-flips: one seeded
//! generator from the rand crate, threaded explicitly through every call
//! that needs it, behind trusted wrappers that state only what rand's
//! documentation promises of every outcome.

use vstd::prelude::*;

verus! {

#[verifier::external_type_specification]
#[verifier::external_body]
pub struct ExSmallRng(rand::rngs::SmallRng);

/// Relies on rand's SeedableRng::seed_from_u64: builds a generator whose
/// stream is determined by the seed alone.
#[verifier::external_body]
pub fn seed_rng(seed: u64) -> rand::rngs::SmallRng {
    <rand::rngs::SmallRng as rand::SeedableRng>::seed_from_u64(seed)
}

/// Relies on rand's Rng::gen_range over `0..len`: an index below `len`,
/// uniformly distributed. It panics on an empty range, which the
/// precondition rules out.
#[verifier::external_body]
pub fn rng_index(rng: &mut rand::rngs::SmallRng, len: usize) -> (i: usize)
    requires
        len > 0,
    ensures
        i < len,
{
    rand::Rng::gen_range(rng, 0..len)
}

/// Relies on rand's Rng::gen_range over `1..=6`: one face of a six-sided
/// die, uniformly distributed.
#[verifier::external_body]
pub fn rng_die(rng: &mut rand::rngs::SmallRng) -> (v: u8)
    ensures
        1 <= v <= 6,
{
    rand::Rng::gen_range(rng, 1..=6u8)
}

/// Relies on rand's Rng::gen_ratio: true with probability `num/den`. Its
/// documentation guarantees the result at the extreme ratios: always false
/// at 0, always true at 1. It panics when `den == 0` or `num > den`, which
/// the precondition rules out.
#[verifier::external_body]
pub fn rng_ratio(rng: &mut rand::rngs::SmallRng, num: u32, den: u32) -> (b: bool)
    requires
        0 < den,
        num <= den,
    ensures
        num == 0 ==> !b,
        num == den ==> b,
{
    rand::Rng::gen_ratio(rng, num, den)
}

} // verus!
