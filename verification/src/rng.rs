//! The one place where the library touches the process entropy source.

use vstd::prelude::*;

verus! {

/// Shuffle `ids` in place with a thread-local generator.
///
/// Relies on `rand::seq::SliceRandom::shuffle` (driven by `rand::rng()`):
/// it permutes the slice in place, so the result holds the same elements
/// with the same multiplicities. Nothing more is promised of a random
/// outcome.
#[verifier::external_body]
pub(crate) fn shuffle_ids(ids: &mut Vec<usize>)
    ensures
        final(ids)@.to_multiset() == old(ids)@.to_multiset(),
{
    rand::seq::SliceRandom::shuffle(ids.as_mut_slice(), &mut rand::rng())
}

} // verus!
