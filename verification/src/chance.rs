//! The dice of the game. Everything random in the library comes through the
//! two functions of this module, which draw from the thread's generator of
//! the `rand` crate. Their contracts are taken on trust: they say what `rand`
//! documents of every draw, and nothing of which draw comes.
//!
//! The generator is seeded by the operating system the first time a thread
//! asks for it, and `rand` panics if the system cannot do that. No contract
//! here can rule that out.

use rand::Rng;
use vstd::prelude::*;

verus! {

/// Draws an index below `len` with `rand::thread_rng().gen_range(0..len)`.
///
/// Trusted: `Rng::gen_range` returns a value of the half-open range it is
/// given, and panics on an empty range, which `len > 0` rules out.
#[verifier::external_body]
pub(crate) fn random_index(len: usize) -> (index: usize)
    requires
        len > 0,
    ensures
        index < len,
{
    rand::thread_rng().gen_range(0..len)
}

/// Tosses a coin that comes up `true` `numerator` times in `denominator`,
/// with `rand::thread_rng().gen_ratio(numerator, denominator)`.
///
/// Trusted: `Rng::gen_ratio` panics when the denominator is zero or smaller
/// than the numerator, always returns `true` when the two are equal and
/// always `false` when the numerator is zero.
#[verifier::external_body]
pub(crate) fn random_ratio(numerator: u32, denominator: u32) -> (hit: bool)
    requires
        0 < denominator,
        numerator <= denominator,
    ensures
        numerator == denominator ==> hit,
        numerator == 0 ==> !hit,
{
    rand::thread_rng().gen_ratio(numerator, denominator)
}

} // verus!
