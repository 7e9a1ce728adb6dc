//! Drawing the positions of the mines at random.

use vstd::prelude::*;
use rand::seq::SliceRandom;

verus! {

/// Whether `chosen` picks items of `pool` without taking any place of `pool`
/// twice, as many as `amount` asks for or, if `pool` is shorter, all of them:
/// `chosen[k]` is the item at place `places[k]` of `pool`, for places that
/// are pairwise distinct.
pub open spec fn is_selection(pool: Seq<usize>, amount: nat, chosen: Seq<usize>) -> bool {
    &&& chosen.len() == (if amount <= pool.len() {
        amount
    } else {
        pool.len()
    })
    &&& exists|places: Seq<int>|
        #![auto]
        {
            &&& places.len() == chosen.len()
            &&& places.no_duplicates()
            &&& forall|k: int|
                0 <= k < places.len() ==> 0 <= #[trigger] places[k] < pool.len() && chosen[k]
                    == pool[places[k]]
        }
}

/// A selection from the list of the numbers below its length, each at its
/// own place, holds numbers below that length, none of them twice.
pub proof fn lemma_selection_of_indices(pool: Seq<usize>, amount: nat, chosen: Seq<usize>)
    requires
        is_selection(pool, amount, chosen),
        forall|k: int| 0 <= k < pool.len() ==> pool[k] == k,
    ensures
        chosen.no_duplicates(),
        forall|k: int| 0 <= k < chosen.len() ==> chosen[k] < pool.len(),
{
    let places = choose|places: Seq<int>|
        #![auto]
        {
            &&& places.len() == chosen.len()
            &&& places.no_duplicates()
            &&& forall|k: int|
                0 <= k < places.len() ==> 0 <= #[trigger] places[k] < pool.len() && chosen[k]
                    == pool[places[k]]
        };
    assert forall|k: int| 0 <= k < chosen.len() implies chosen[k] == places[k] by {
        assert(0 <= places[k] < pool.len());
    }
}

/// `rand::rngs::ThreadRng`, the handle of the random number generator of the
/// running thread. Nothing is known of what it holds.
#[verifier::external_type_specification]
#[verifier::external_body]
pub struct ExThreadRng(rand::rngs::ThreadRng);

/// `rand::thread_rng` hands out the generator of the running thread, which
/// the operating system seeds when the thread first asks for it; where the
/// system has no seed to give, the call does not return. Nothing is claimed
/// of the generator.
pub assume_specification[ rand::thread_rng ]() -> (rng: rand::rngs::ThreadRng);

/// `rand::seq::SliceRandom::choose_multiple` on the slice of `values`, its
/// items copied into a vector in the order in which they were drawn.
///
/// The claim is that of its documentation, "`amount` elements from the slice
/// at random, without repetition", with the limit that its code applies: of a
/// slice shorter than `amount` every element is drawn. No place of the slice
/// is drawn twice; which places are drawn, and in which order, is left open,
/// and so is how likely each outcome is. Slices longer than `u32::MAX` are
/// kept out, for which it samples in another way.
#[verifier::external_body]
pub(crate) fn choose_multiple(
    values: &Vec<usize>,
    rng: &mut rand::rngs::ThreadRng,
    amount: usize,
) -> (chosen: Vec<usize>)
    requires
        values@.len() <= u32::MAX,
    ensures
        is_selection(values@, amount as nat, chosen@),
{
    values.choose_multiple(rng, amount).copied().collect()
}

} // verus!
