//! The one source of randomness: local content selection draws a uniform
//! index from the thread-local generator.

use vstd::prelude::*;

verus! {

/// Relies on rand::Rng::gen_range over a rand::thread_rng() generator:
/// for a non-empty half-open range starting at zero it returns a value
/// inside the range. Nothing more is assumed of the draw: callers are
/// verified for every value below `n`.
#[verifier::external_body]
pub(crate) fn random_below(n: usize) -> (r: usize)
    requires
        n >= 1,
    ensures
        r < n,
{
    rand::Rng::gen_range(&mut rand::thread_rng(), 0..n)
}

} // verus!
