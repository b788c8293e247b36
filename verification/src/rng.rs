//! The one entry point for randomness.

use vstd::prelude::*;

verus! {

/// Relies on `rand::random_range` over `0..n`: a sample from the
/// half-open range, so `0 <= r < n`; `n > 0` keeps the range
/// non-empty (an empty range panics there).
#[verifier::external_body]
pub(crate) fn rand_below(n: i64) -> (r: i64)
    requires
        n > 0,
    ensures
        0 <= r < n,
{
    rand::random_range(0..n)
}

} // verus!
