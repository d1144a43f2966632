//! Text comparison.

use vstd::prelude::*;

verus! {

/// Calls `==` of `str`: two strings are equal when they hold the same
/// characters in the same order.
#[verifier::external_body]
pub(crate) fn same_text(left: &str, right: &str) -> (same: bool)
    ensures
        same == (left@ == right@),
{
    left == right
}

} // verus!
