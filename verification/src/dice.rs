//! The random source. Every draw the simulation makes goes through a
//! generator that the caller owns, so a seeded generator replays a game.

use rand::rngs::StdRng;
use vstd::prelude::*;

verus! {

/// `rand::rngs::StdRng`, the generator the simulation draws from. Its state
/// is of no concern to the rules: a generator is only handed on to the draws
/// below.
#[verifier::external_type_specification]
#[verifier::external_body]
pub struct ExStdRng(StdRng);

/// Calls `rand::Rng::gen_range` with two `i32` bounds. The crate documents
/// that the value lies in `[low, high)` and that the call panics when
/// `low >= high`, which the precondition rules out.
#[verifier::external_body]
pub(crate) fn roll_range(rng: &mut StdRng, low: i32, high: i32) -> (r: i32)
    requires
        low < high,
    ensures
        low <= r < high,
{
    rand::Rng::gen_range(rng, low, high)
}

/// Calls `rand::Rng::gen` for `bool`: a fair coin. Nothing is claimed of the
/// outcome.
#[verifier::external_body]
pub(crate) fn roll_bool(rng: &mut StdRng) -> bool {
    rand::Rng::gen(rng)
}

} // verus!
