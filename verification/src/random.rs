//! The random draws the game logic makes, through `rand`'s `SmallRng`.
//!
//! Each draw is an outside call whose outcome depends on the generator's
//! state: the contracts below state only what holds of every outcome.

use rand::rngs::SmallRng;
use rand::seq::IndexedRandom;
use rand::RngExt;
use vstd::prelude::*;

use crate::geom::GridPos;

verus! {

/// `rand::rngs::SmallRng`, a small seedable generator; opaque to the proofs.
#[verifier::external_type_specification]
#[verifier::external_body]
pub struct ExSmallRng(SmallRng);

/// Calls `RngExt::random_range` with the exclusive `i32` range `lo..hi`.
/// Claimed: the value lies in `[lo, hi)`. rand panics on an empty range,
/// hence `lo < hi` is required. Which value comes back is left unsaid: it
/// depends on the generator's state.
#[verifier::external_body]
pub(crate) fn random_i32_in(rng: &mut SmallRng, lo: i32, hi: i32) -> (r: i32)
    requires
        lo < hi,
    ensures
        lo <= r < hi,
{
    rng.random_range(lo..hi)
}

/// Calls `RngExt::random_range` with the inclusive `u32` range `lo..=hi`.
/// Claimed: the value lies in `[lo, hi]`; an empty range (`lo > hi`) panics
/// in rand and is excluded. The value itself depends on the generator.
#[verifier::external_body]
pub(crate) fn random_u32_inclusive(rng: &mut SmallRng, lo: u32, hi: u32) -> (r: u32)
    requires
        lo <= hi,
    ensures
        lo <= r <= hi,
{
    rng.random_range(lo..=hi)
}

/// Calls `RngExt::random_range` with the exclusive `usize` range `0..n`.
/// Claimed: the value is below `n`; `n == 0` panics in rand and is excluded.
/// The value itself depends on the generator.
#[verifier::external_body]
pub(crate) fn random_index_below(rng: &mut SmallRng, n: usize) -> (r: usize)
    requires
        n > 0,
    ensures
        r < n,
{
    rng.random_range(0..n)
}

/// Calls `IndexedRandom::choose` on a slice of positions. Claimed, as its
/// source shows: `None` exactly for an empty slice, otherwise one of the
/// slice's elements (which one depends on the generator).
#[verifier::external_body]
pub(crate) fn choose_position(rng: &mut SmallRng, cells: &[GridPos]) -> (r: Option<GridPos>)
    ensures
        r is None <==> cells@.len() == 0,
        r matches Some(c) ==> cells@.contains(c),
{
    cells.choose(rng).copied()
}

} // verus!
