//! A small option combinator used by detection call sites.
use vstd::prelude::*;

verus! {

/// Pair two optional values, present only when both are.
pub fn both_and_then<A, B>(option_a: Option<A>, option_b: Option<B>) -> (r: Option<(A, B)>)
    ensures
        option_a is Some && option_b is Some
            ==> r == Some((option_a->Some_0, option_b->Some_0)),
        !(option_a is Some && option_b is Some) ==> r is None,
{
    match (option_a, option_b) {
        (Some(a), Some(b)) => Some((a, b)),
        _ => None,
    }
}

} // verus!
