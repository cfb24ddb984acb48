//! The one random choice the game rules make: picking an element of a
//! non-empty list (a map for a new match, a start region for a ship).

use vstd::prelude::*;

verus! {

/// Relies on `rand::random_range` over `0..n`, which returns a value of
/// the range and panics only on an empty one. Only the bound is
/// promised: the draw is random.
#[verifier::external_body]
pub(crate) fn pick_index(n: usize) -> (r: usize)
    requires
        n >= 1,
    ensures
        r < n,
{
    rand::random_range(0..n)
}

} // verus!
