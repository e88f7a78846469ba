//! Random numbers, drawn from the `rand` crate.

use vstd::prelude::*;
use rand::{Rng, RngCore, SeedableRng};


verus! {

/// The thread-local generator of `rand`, seeded by the system.
#[verifier::external_type_specification]
#[verifier::external_body]
pub struct ExThreadRng(rand::rngs::ThreadRng);

/// Calls `rand::thread_rng`; nothing is known of the generator's state.
#[verifier::external_body]
pub(crate) fn thread_rng() -> rand::rngs::ThreadRng {
    rand::thread_rng()
}

/// Calls `Rng::gen_range(0..n)` on the generator. rand documents that the
/// result lies in the range and that an empty range panics, which
/// `requires` rules out; which value comes is left open.
#[verifier::external_body]
pub(crate) fn roll_below(rng: &mut rand::rngs::ThreadRng, n: u32) -> (r: u32)
    requires
        n > 0,
    ensures
        r < n,
{
    rng.gen_range(0..n)
}

/// The seedable standard generator of `rand`.
#[verifier::external_type_specification]
#[verifier::external_body]
pub struct ExStdRng(rand::rngs::StdRng);

/// Calls `StdRng::seed_from_u64`: a generator whose whole output stream is
/// fixed by `seed` (nothing is stated of the stream itself).
#[verifier::external_body]
pub(crate) fn seeded_rng(seed: u64) -> rand::rngs::StdRng {
    rand::rngs::StdRng::seed_from_u64(seed)
}


/// Calls `Rng::gen_range(0..n)` on a seeded generator; the result lies in
/// the range (an empty range panics in rand, which `requires` rules out).
#[verifier::external_body]
pub(crate) fn seeded_roll_below(rng: &mut rand::rngs::StdRng, n: u32) -> (r: u32)
    requires
        n > 0,
    ensures
        r < n,
{
    rng.gen_range(0..n)
}

/// Calls `RngCore::next_u32`: the next 32 random bits of the stream (any value).
#[verifier::external_body]
pub(crate) fn next_u32(rng: &mut rand::rngs::StdRng) -> u32 {
    rng.next_u32()
}

/// Calls `Rng::gen_range(lo..hi)` for `i32` on a seeded generator; the
/// result lies in the range (an empty range panics in rand).
#[verifier::external_body]
pub(crate) fn range_i32(rng: &mut rand::rngs::StdRng, lo: i32, hi: i32) -> (r: i32)
    requires
        lo < hi,
    ensures
        lo <= r < hi,
{
    rng.gen_range(lo..hi)
}

/// Calls `Rng::gen_range(lo..=hi)` for `i32` on a seeded generator; the
/// result lies in the range (an empty range panics in rand).
#[verifier::external_body]
pub(crate) fn range_i32_inclusive(rng: &mut rand::rngs::StdRng, lo: i32, hi: i32) -> (r: i32)
    requires
        lo <= hi,
    ensures
        lo <= r <= hi,
{
    rng.gen_range(lo..=hi)
}

/// Calls `Rng::gen_range(lo..hi)` for `usize` on a seeded generator; the
/// result lies in the range (an empty range panics in rand).
#[verifier::external_body]
pub(crate) fn range_usize(rng: &mut rand::rngs::StdRng, lo: usize, hi: usize) -> (r: usize)
    requires
        lo < hi,
    ensures
        lo <= r < hi,
{
    rng.gen_range(lo..hi)
}

/// Calls `Rng::gen_range(lo..=hi)` for `u32` on the thread generator; the
/// result lies in the range (an empty range panics in rand).
#[verifier::external_body]
pub(crate) fn thread_range_u32_inclusive(rng: &mut rand::rngs::ThreadRng, lo: u32, hi: u32) -> (r: u32)
    requires
        lo <= hi,
    ensures
        lo <= r <= hi,
{
    rng.gen_range(lo..=hi)
}

/// Calls `Rng::gen_ratio(num, den)` on the thread generator: true with
/// probability num / den; rand documents that it is always true when
/// num == den and always false when num == 0, and panics when num > den or
/// den == 0, which `requires` rules out.
#[verifier::external_body]
pub(crate) fn thread_ratio(rng: &mut rand::rngs::ThreadRng, num: u32, den: u32) -> (b: bool)
    requires
        0 < den,
        num <= den,
    ensures
        num == den ==> b,
        num == 0 ==> !b,
{
    rng.gen_ratio(num, den)
}

/// Calls `Rng::gen_ratio(num, den)` on a seeded generator (see
/// `thread_ratio`).
#[verifier::external_body]
pub(crate) fn seeded_ratio(rng: &mut rand::rngs::StdRng, num: u32, den: u32) -> (b: bool)
    requires
        0 < den,
        num <= den,
    ensures
        num == den ==> b,
        num == 0 ==> !b,
{
    rng.gen_ratio(num, den)
}

} // verus!
