//! The library's two calls for chance.
//!
//! What is drawn, and with what odds, is said by the verified caller.

use rand::Rng;
use vstd::prelude::*;

verus! {

/// Calls `gen_range` of rand's `Rng` on the thread's generator with the range
/// from 0 up to, not including, `n`. The result lies in that range.
#[verifier::external_body]
pub(crate) fn random_below(n: usize) -> (r: usize)
    requires
        n > 0,
    ensures
        r < n,
{
    rand::thread_rng().gen_range(0..n)
}

/// Calls `gen_ratio` of rand's `Rng` on the thread's generator: a coin that
/// shows heads `numerator` times in `denominator`. Nothing is promised of the
/// outcome.
#[verifier::external_body]
pub(crate) fn coin(numerator: u32, denominator: u32) -> bool
    requires
        denominator > 0,
        numerator <= denominator,
{
    rand::thread_rng().gen_ratio(numerator, denominator)
}

} // verus!
