//! The game's random draws, from rand's small seeded generator.

use vstd::prelude::*;
use rand::rngs::SmallRng;
use crate::cell::Cell;

verus! {

#[verifier::external_type_specification]
#[verifier::external_body]
pub struct ExSmallRng(rand::rngs::SmallRng);

/// Relies on `SeedableRng::seed_from_u64`: a generator whose draws depend on
/// `seed` alone.
#[verifier::external_body]
pub(crate) fn rng_from_seed(seed: u64) -> SmallRng {
    <SmallRng as rand::SeedableRng>::seed_from_u64(seed)
}

/// Relies on `Rng::random_range` over `0..u32::MAX`: a value of that range.
#[verifier::external_body]
pub(crate) fn draw_pair_id(rng: &mut SmallRng) -> (r: u32)
    ensures
        r < u32::MAX,
{
    rand::Rng::random_range(rng, u32::MIN..u32::MAX)
}

/// Relies on `Rng::random_range` over `0..u8::MAX`: a value of that range.
#[verifier::external_body]
pub(crate) fn draw_rank(rng: &mut SmallRng) -> (r: u8)
    ensures
        r < u8::MAX,
{
    rand::Rng::random_range(rng, u8::MIN..u8::MAX)
}

/// Relies on `SliceRandom::shuffle`, which only swaps elements: the cells
/// come back in some order, each as often as before.
#[verifier::external_body]
pub(crate) fn shuffle_cells(cells: &mut Vec<Cell>, rng: &mut SmallRng)
    ensures
        final(cells)@.to_multiset() == old(cells)@.to_multiset(),
{
    rand::seq::SliceRandom::shuffle(cells.as_mut_slice(), rng)
}

} // verus!
