//! The random source, and the two ways this library draws from it.
//!
//! Nothing here is proved: the contracts say what `rand` documents.

use vstd::prelude::*;
use rand::Rng;
use rand::rngs::StdRng;

verus! {

/// `rand::rngs::StdRng`, the generator that every drawing function takes.
/// Nothing is known of its state.
#[verifier::external_type_specification]
#[verifier::external_body]
pub struct ExStdRng(rand::rngs::StdRng);

/// `Rng::random_range` of `rand` on the half-open range `lo..hi` of `i64`.
/// It panics on an empty range, so `lo < hi` is asked for; what it returns lies
/// in the range. Which value comes is not stated.
#[verifier::external_body]
pub(crate) fn draw_in_range(rng: &mut StdRng, lo: i64, hi: i64) -> (r: i64)
    requires
        lo < hi,
    ensures
        lo <= r < hi,
{
    rng.random_range(lo..hi)
}

/// `Rng::random_range` of `rand` on the half-open range `0..n` of `usize`.
/// It panics on an empty range, so `n > 0` is asked for; what it returns lies
/// in the range. Which index comes is not stated.
#[verifier::external_body]
pub(crate) fn draw_index(rng: &mut StdRng, n: usize) -> (i: usize)
    requires
        n > 0,
    ensures
        i < n,
{
    rng.random_range(0..n)
}

} // verus!
