//! Small helpers shared by the other modules.

use rand::Rng;
use vstd::prelude::*;

verus! {

/// The smaller of two coordinate codes.
pub fn min(a: i32, b: i32) -> (m: i32)
    ensures
        m == spec_min(a, b),
{
    if a < b {
        a
    } else {
        b
    }
}

/// The larger of two coordinate codes.
pub fn max(a: i32, b: i32) -> (m: i32)
    ensures
        m == spec_max(a, b),
{
    if a > b {
        a
    } else {
        b
    }
}

pub open spec fn spec_min(a: i32, b: i32) -> i32 {
    if a < b {
        a
    } else {
        b
    }
}

pub open spec fn spec_max(a: i32, b: i32) -> i32 {
    if a > b {
        a
    } else {
        b
    }
}

/// Draws an index below `n` from the thread's generator.
///
/// Trusted: this calls `rand::Rng::gen_range` on `rand::thread_rng()` with the
/// half-open range `0..n`.  The generator panics on an empty range, which the
/// precondition excludes, and otherwise returns a member of the range; which
/// member is left open, so two calls may differ.
#[verifier::external_body]
pub(crate) fn random_below(n: usize) -> (r: usize)
    requires
        n > 0,
    ensures
        r < n,
{
    rand::thread_rng().gen_range(0..n)
}

} // verus!
