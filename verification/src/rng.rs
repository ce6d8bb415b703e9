//! What the library has from the `rand` crate: the thread-local generator
//! and a uniform choice among the items of a list. Nothing here is proved:
//! each contract restates what `rand` documents.

use rand::rngs::ThreadRng;
use rand::seq::SliceRandom;
use vstd::prelude::*;

verus! {

/// `rand::rngs::ThreadRng`, a handle to the generator of the current thread.
/// Nothing is known of what it holds.
#[verifier::external_type_specification]
#[verifier::external_body]
pub struct ExThreadRng(ThreadRng);

/// `rand::thread_rng` hands out the generator of the current thread. Nothing
/// is claimed of it. (On first use in a thread it seeds itself from the
/// operating system and gives up if the system has no entropy to offer.)
pub assume_specification[ rand::thread_rng ]() -> ThreadRng;

/// `SliceRandom::choose` on the items of a vector: one of the items, picked
/// at random, or `None` where there is none to pick. Which item comes back
/// is left open.
#[verifier::external_body]
pub(crate) fn choose_one<'a, T>(items: &'a Vec<T>, rng: &mut ThreadRng) -> (chosen: Option<&'a T>)
    ensures
        chosen is None <==> items@.len() == 0,
        chosen matches Some(item) ==> items@.contains(*item),
{
    items.choose(rng)
}

} // verus!
