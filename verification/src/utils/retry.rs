//! Retry decisions.

use vstd::prelude::*;

verus! {

/// An error that may or may not be worth retrying.
pub trait MaybeRetriable {
    /// Retrying may succeed.
    spec fn retriable(&self) -> bool;

    fn is_retriable(&self) -> (r: bool)
        ensures
            r == self.retriable();
}

/// Decides what follows a failed attempt, given the delay that the backoff offers next (none
/// when it has run out): retry after that delay if the error is retriable, else give up.
pub fn retry_after<E: MaybeRetriable, D>(err: &E, next_delay: Option<D>) -> (r: Option<D>)
    ensures
        r == if err.retriable() { next_delay } else { None },
{
    if err.is_retriable() {
        next_delay
    } else {
        None
    }
}

} // verus!
