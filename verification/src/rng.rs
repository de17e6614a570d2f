//! The game's one source of randomness.

use rand::Rng;
use vstd::prelude::*;

verus! {

/// Relies on rand::Rng::gen_range over the half-open range `0..n`, with
/// rand's thread-local generator: the sample lies below `n`. The range is
/// non-empty (`gen_range` panics on an empty range) since `n` is at least one.
#[verifier::external_body]
pub fn random_below(n: u64) -> (r: u64)
    requires
        n >= 1,
    ensures
        r < n,
{
    rand::thread_rng().gen_range(0..n)
}

} // verus!
