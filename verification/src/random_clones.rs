//! Random lending: coin flips drawn from the thread-local random number
//! generator decide, one by one, which of two handles is cloned into a
//! vector.

use crate::counted::{cells_after_clones, count_of, counts_positive, is_live, CellStore, MAX_REFCOUNT};
use crate::lending::{handle_ids, lend_clones, picked_ids, CellHandle};
use rand::rngs::ThreadRng;
use rand::Rng;
use vstd::prelude::*;

verus! {

#[verifier::external_type_specification]
#[verifier::external_body]
pub struct ExThreadRng(ThreadRng);

/// `rand::Rng::gen::<bool>` on the thread-local generator: a fair coin flip.
/// Nothing is claimed of the result, which is chance.
#[verifier::external_body]
fn coin_flip(rng: &mut ThreadRng) -> bool {
    rng.gen::<bool>()
}

/// `rand::Rng::gen_range` on the inclusive range `low..=high`: its
/// documentation promises a value in the range, and a panic on an empty
/// range, which `requires` excludes.
#[verifier::external_body]
fn gen_range_inclusive(rng: &mut ThreadRng, low: usize, high: usize) -> (r: usize)
    requires
        low <= high,
    ensures
        low <= r <= high,
{
    rng.gen_range(low..=high)
}

/// Draws how many clones a round of random lending makes: between one and
/// ten.
pub fn draw_round_count(rng: &mut ThreadRng) -> (r: usize)
    ensures
        1 <= r <= 10,
{
    gen_range_inclusive(rng, 1, 10)
}

/// Draws `rounds` coin flips.
pub fn draw_coin_flips(rng: &mut ThreadRng, rounds: usize) -> (flips: Vec<bool>)
    ensures
        flips@.len() == rounds,
{
    let mut flips: Vec<bool> = Vec::new();
    let mut k: usize = 0;
    while k < rounds
        invariant
            0 <= k <= rounds,
            flips@.len() == k,
        decreases rounds - k,
    {
        flips.push(coin_flip(rng));
        k = k + 1;
    }
    flips
}

/// Random lending: draws `rounds` coin flips and appends, for each, a clone
/// of `h` (heads) or of `w` (tails) to `vec`, as `lend_clones` does; the
/// flips drawn are returned.  A clone from a count above `MAX_REFCOUNT`
/// aborts, so `requires` leaves room for every round in both cells.
pub fn push_random_clones<H: CellHandle>(
    vec: &mut Vec<H>,
    h: &H,
    w: &H,
    store: &mut CellStore<H::Value>,
    rng: &mut ThreadRng,
    rounds: usize,
) -> (flips: Vec<bool>)
    requires
        is_live(old(store)@, h.cell()),
        is_live(old(store)@, w.cell()),
        count_of(old(store)@, h.cell()) + rounds <= MAX_REFCOUNT + 1,
        count_of(old(store)@, w.cell()) + rounds <= MAX_REFCOUNT + 1,
        old(vec)@.len() + rounds <= usize::MAX,
    ensures
        flips@.len() == rounds,
        final(vec)@.len() == old(vec)@.len() + rounds,
        final(vec)@.take(old(vec)@.len() as int) == old(vec)@,
        handle_ids(final(vec)@.skip(old(vec)@.len() as int)) == picked_ids(flips@, h.cell(), w.cell()),
        final(store)@ == cells_after_clones(old(store)@, picked_ids(flips@, h.cell(), w.cell())),
        counts_positive(old(store)@) ==> counts_positive(final(store)@),
{
    let flips = draw_coin_flips(rng, rounds);
    lend_clones(vec, h, w, store, &flips);
    flips
}

} // verus!
