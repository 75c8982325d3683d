use vstd::prelude::*;
use rand::Rng;
use rand::rngs::ThreadRng;

verus! {

/// `rand::rngs::ThreadRng`, the per-thread random generator; opaque here.
#[verifier::external_type_specification]
#[verifier::external_body]
pub struct ExThreadRng(rand::rngs::ThreadRng);

/// Calls `rand::thread_rng`, which hands out this thread's generator.
/// Nothing is stated of it.
#[verifier::external_body]
pub(crate) fn thread_rng() -> ThreadRng {
    rand::thread_rng()
}

/// Calls `Rng::gen_range` on the range `lo..=hi`. rand documents that the
/// value lies in the range and that an empty range panics (ruled out by
/// `requires`); which value comes is chance and is not stated.
#[verifier::external_body]
pub(crate) fn gen_range(rng: &mut ThreadRng, lo: usize, hi: usize) -> (r: usize)
    requires
        lo <= hi,
    ensures
        lo <= r <= hi,
{
    rng.gen_range(lo..=hi)
}

/// Calls `Rng::gen_ratio`: `true` with chance `numerator` in `denominator`.
/// rand documents that a zero numerator always gives `false`, a numerator
/// equal to the denominator always gives `true`, and that a zero
/// denominator or a numerator above it panics (ruled out by `requires`).
/// Any other outcome is chance and is not stated.
#[verifier::external_body]
pub(crate) fn gen_ratio(rng: &mut ThreadRng, numerator: u32, denominator: u32) -> (b: bool)
    requires
        0 < denominator,
        numerator <= denominator,
    ensures
        numerator == 0 ==> !b,
        numerator == denominator ==> b,
{
    rng.gen_ratio(numerator, denominator)
}

} // verus!
