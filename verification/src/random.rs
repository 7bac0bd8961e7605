//! The one door to the random number generator.

use rand::Rng;
use vstd::prelude::*;

verus! {

/// Draws a number from the thread's generator, `rand::thread_rng`, with
/// `rand::Rng::gen_range`.
///
/// This is taken on trust, not proved: the generator answers with a number
/// that is at least `low` and less than `high`. It gives up where `low` is
/// not below `high`, which the precondition rules out, and where the
/// operating system has no randomness to seed it with, which nothing here
/// can rule out. Nothing more is known of the number: two draws from the
/// same range need not agree.
#[verifier::external_body]
pub(crate) fn random_between(low: usize, high: usize) -> (r: usize)
    requires
        low < high,
    ensures
        low <= r < high,
{
    rand::thread_rng().gen_range(low, high)
}

} // verus!
