//! Trusted wrappers around the `rand` crate. Randomness only steers the
//! automatic decision policy, the shuffle, and decorative identifiers; the
//! contracts here state just what holds of every possible outcome.

use vstd::prelude::*;

use crate::card::Card;

verus! {

/// Relies on rand::Rng::gen_range over `0..bound`: a uniformly random
/// value below the bound. The range must be non-empty or the call panics.
#[verifier::external_body]
pub(crate) fn random_below(bound: usize) -> (r: usize)
    requires
        bound > 0,
    ensures
        r < bound,
{
    rand::Rng::gen_range(&mut rand::thread_rng(), 0..bound)
}

/// Relies on rand::Rng::gen_range over `lo..=hi`: a uniformly random
/// value in the inclusive range. The range must be non-empty or the call
/// panics.
#[verifier::external_body]
pub(crate) fn random_between(lo: u32, hi: u32) -> (r: u32)
    requires
        lo <= hi,
    ensures
        lo <= r <= hi,
{
    rand::Rng::gen_range(&mut rand::thread_rng(), lo..=hi)
}

/// Relies on rand::seq::SliceRandom::shuffle: a Fisher-Yates shuffle that
/// permutes the slice in place, so the cards it holds are preserved as a
/// multiset.
#[verifier::external_body]
pub(crate) fn shuffle_in_place(cards: &mut Vec<Card>)
    ensures
        final(cards)@.to_multiset() == old(cards)@.to_multiset(),
        final(cards)@.len() == old(cards)@.len(),
{
    let mut rng = rand::rngs::OsRng;
    rand::seq::SliceRandom::shuffle(cards.as_mut_slice(), &mut rng);
}

/// Relies on rand::Rng::gen for u64: a random identifier label, the given
/// prefix followed by a random number's digits. Beyond starting with the
/// prefix, nothing in the engine depends on the label's content.
#[verifier::external_body]
pub(crate) fn random_label(prefix: &str) -> (r: String)
    ensures
        r@.len() >= prefix@.len(),
        r@.take(prefix@.len() as int) == prefix@,
{
    format!("{}{}", prefix, rand::Rng::gen::<u64>(&mut rand::thread_rng()))
}

} // verus!
