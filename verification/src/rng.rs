//! The one place the library draws random numbers.

use vstd::prelude::*;

verus! {

/// Relies on `rand::random_range` over `0..n`: it samples uniformly from
/// that range, so the result is always below `n`; the range is nonempty,
/// so the call cannot panic. Nothing more is assumed of the draw.
#[verifier::external_body]
pub(crate) fn random_below(n: usize) -> (r: usize)
    requires
        n >= 1,
    ensures
        r < n,
{
    rand::random_range(0..n)
}

} // verus!
