//! Picking peers at random.

use rand::seq::IteratorRandom;
use vstd::prelude::*;

use crate::addr::SocketAddr;

verus! {

/// `chosen` are `amount` of the candidates, or all of them where there are not so many. A
/// candidate is chosen no more often than it is listed.
pub open spec fn is_selection(
    chosen: Seq<SocketAddr>,
    candidates: Seq<SocketAddr>,
    amount: int,
) -> bool {
    &&& chosen.len() == if amount <= candidates.len() {
        amount
    } else {
        candidates.len() as int
    }
    &&& chosen.to_multiset().subset_of(candidates.to_multiset())
}

/// Picks candidates with `rand`'s `IteratorRandom::choose_multiple` and the random number
/// generator of the thread.
///
/// Trusted: `amount` of the candidates are chosen, each at most as often as it is listed. Which
/// ones, and in which order, is left to chance. The call reserves room for `amount` candidates at
/// once, so no more are asked for than there are.
#[verifier::external_body]
fn choose_multiple(candidates: Vec<SocketAddr>, amount: usize) -> (chosen: Vec<SocketAddr>)
    requires
        amount <= candidates@.len(),
    ensures
        is_selection(chosen@, candidates@, amount as int),
{
    candidates.into_iter().choose_multiple(&mut rand::thread_rng(), amount)
}

/// Picks `amount` of the candidates at random, or all where there are not so many.
pub(crate) fn pick(candidates: Vec<SocketAddr>, amount: usize) -> (chosen: Vec<SocketAddr>)
    ensures
        is_selection(chosen@, candidates@, amount as int),
{
    let available: usize = candidates.len();
    choose_multiple(
        candidates,
        if amount <= available {
            amount
        } else {
            available
        },
    )
}

} // verus!
