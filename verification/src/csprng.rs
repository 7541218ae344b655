//! Trusted boundary to the operating system's cryptographically secure
//! random source, provided by the `rand` crate.
//!
//! All sampling that password generation performs goes through the two
//! functions here. Nothing is assumed about which values come back beyond
//! the bounds stated in their contracts: a drawn index lies inside the
//! requested range, and a shuffle rearranges the slice without adding or
//! losing elements.

use vstd::prelude::*;

use rand::Rng;
use rand::seq::SliceRandom;

verus! {

/// The OS-backed cryptographically secure random source of the `rand`
/// crate.
#[verifier::external_type_specification]
#[verifier::external_body]
pub struct ExOsRng(rand::rngs::OsRng);

/// Relies on rand's `Rng::gen_range`: the result is drawn from the given
/// range, so it is strictly below `bound`. The call panics on an empty
/// range, which the precondition rules out.
#[verifier::external_body]
pub(crate) fn draw_index(rng: &mut rand::rngs::OsRng, bound: usize) -> (i: usize)
    requires
        bound >= 1,
    ensures
        i < bound,
{
    rng.gen_range(0..bound)
}

/// Relies on rand's `SliceRandom::shuffle`: a Fisher-Yates pass swaps
/// elements in place, so the new contents are a rearrangement of the old
/// ones and nothing else.
#[verifier::external_body]
pub(crate) fn shuffle_chars(rng: &mut rand::rngs::OsRng, items: &mut Vec<char>)
    ensures
        final(items)@.to_multiset() == old(items)@.to_multiset(),
{
    items.as_mut_slice().shuffle(rng)
}

} // verus!
