//! The agent's source of chance: the thread-local generator of `rand`.
use crate::agent::Action;
use rand::seq::SliceRandom;
use rand::Rng;
use vstd::prelude::*;

verus! {

/// Draws a number below `bound` with `rand::Rng::gen_range` on
/// `rand::thread_rng()`, for the range from zero up to but not including
/// `bound`. Nothing is proved of the call. What is taken from its
/// documentation is that the number lies in the range that was asked for,
/// and that an empty range makes it panic, which `requires` excludes. Which
/// number comes is left open. The generator itself panics where the system
/// has no randomness to seed it with.
#[verifier::external_body]
pub(crate) fn roll(bound: u32) -> (r: u32)
    requires
        bound > 0,
    ensures
        r < bound,
{
    rand::thread_rng().gen_range(0..bound)
}

/// Picks one of `actions` with `rand::seq::SliceRandom::choose` on
/// `rand::thread_rng()`. Nothing is proved of the call; what is taken from
/// its source is that it answers `None` exactly for an empty slice and
/// otherwise hands out one element of the slice. Which one is left open.
#[verifier::external_body]
pub(crate) fn pick(actions: &[Action]) -> (r: Option<Action>)
    ensures
        r is None <==> actions@.len() == 0,
        r matches Some(a) ==> actions@.contains(a),
{
    actions.choose(&mut rand::thread_rng()).copied()
}

} // verus!
