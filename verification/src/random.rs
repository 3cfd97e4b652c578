//! The random draws that placement and the computer opponent rely on.
//!
//! The generator comes from the `rand` crate. Nothing here is proved about
//! it: each item below states what is taken on trust, and the code that uses
//! a draw is verified for every value the draw may have.
//!
//! The generator is seeded from the operating system. If the system cannot
//! supply a seed, `rand` panics, when the handle is first made or when the
//! generator reseeds during a draw. No precondition can rule that out.

use vstd::prelude::*;
use rand::Rng;
use rand::rngs::ThreadRng;
use crate::cell::BOARD_SIZE;

verus! {

/// `rand::rngs::ThreadRng`, the handle to the thread-local generator. It is
/// carried through as an opaque value.
#[verifier::external_type_specification]
#[verifier::external_body]
pub struct ExThreadRng(ThreadRng);

/// `rand::rng` hands out a handle to the thread-local generator, which it
/// sets up on first use. Nothing is claimed about the handle.
pub assume_specification[ rand::rng ]() -> (generator: ThreadRng)
;

/// `Rng::random_range` on the half-open range `0..bound`. Trusted: the draw
/// is below `bound`. The call panics on an empty range, so `bound` must not
/// be zero. That each number below `bound` is as likely as any other is
/// what `rand` documents; no contract can say it.
#[verifier::external_body]
pub(crate) fn random_below(generator: &mut ThreadRng, bound: usize) -> (n: usize)
    requires
        bound > 0,
    ensures
        n < bound,
{
    generator.random_range(0..bound)
}

/// `Rng::random::<bool>`, which `rand` documents as a fair coin. Nothing is
/// claimed about the outcome.
#[verifier::external_body]
pub(crate) fn random_flag(generator: &mut ThreadRng) -> (flag: bool) {
    generator.random::<bool>()
}

/// The computer opponent's move: a square of the grid drawn at random, with
/// no regard to the state of any board or to earlier moves.
pub fn generate_opponent_move() -> (target: (usize, usize))
    ensures
        target.0 < BOARD_SIZE,
        target.1 < BOARD_SIZE,
{
    let mut generator = rand::rng();
    let row: usize = random_below(&mut generator, BOARD_SIZE);
    let col: usize = random_below(&mut generator, BOARD_SIZE);
    (row, col)
}

} // verus!
