//! The engine's only external dependency: a source of randomness for mine
//! placement.

use vstd::prelude::*;

verus! {

/// Relies on `rand::Rng::gen_range` over `rand::thread_rng()`: for the
/// non-empty range `0..n` it returns a uniformly distributed value of that
/// range.  Nothing beyond membership in the range can be promised of a
/// random draw, and that bound is all the placement algorithm needs.
#[verifier::external_body]
pub(crate) fn random_below(n: usize) -> (r: usize)
    requires
        n > 0,
    ensures
        r < n,
{
    rand::Rng::gen_range(&mut rand::thread_rng(), 0..n)
}

} // verus!
