//! The one place the engine touches the process's source of randomness.
use vstd::prelude::*;

verus! {

/// Relies on rand::random_range: a value drawn from `0..n`, which panics
/// only on an empty range; nothing more is assumed of the draw.
#[verifier::external_body]
pub(crate) fn rand_below(n: usize) -> (r: usize)
    requires
        n > 0,
    ensures
        r < n,
{
    rand::random_range(0..n)
}

} // verus!
