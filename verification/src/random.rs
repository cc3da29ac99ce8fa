//! Randomness, from the `rand` crate. Nothing is known of a random outcome
//! but its shape; what the library does with it is proved for every outcome.

use vstd::prelude::*;
use rand::seq::{IteratorRandom, SliceRandom};
use rand::Rng;

verus! {

/// Twelve random bytes: `Rng::gen` on the thread-local generator of
/// `rand::thread_rng`. Nothing is claimed of the bytes.
#[verifier::external_body]
pub(crate) fn random_tail() -> (bytes: [u8; 12]) {
    rand::thread_rng().gen()
}

/// Picks `amount` of the candidates at random:
/// `IteratorRandom::choose_multiple`. Its source fills a reservoir with the
/// first `amount` items and lets each later item take the place of a random
/// one, so each item of the input is chosen at most once; which ones, and
/// in what order, is not claimed. It reserves room for `amount` items
/// before it looks at the candidates, so no more is asked for than there
/// are candidates.
#[verifier::external_body]
pub(crate) fn choose_multiple(candidates: Vec<usize>, amount: usize) -> (chosen: Vec<usize>)
    requires
        amount <= candidates@.len(),
    ensures
        chosen@.len() == amount,
        chosen@.to_multiset().subset_of(candidates@.to_multiset()),
{
    candidates.into_iter().choose_multiple(&mut rand::thread_rng(), amount)
}

/// Puts the items in a random order: `SliceRandom::shuffle`, which only
/// swaps items, so the same items are there afterwards.
#[verifier::external_body]
pub(crate) fn shuffle(items: &mut Vec<usize>)
    ensures
        final(items)@.to_multiset() == old(items)@.to_multiset(),
{
    items.shuffle(&mut rand::thread_rng());
}

} // verus!
