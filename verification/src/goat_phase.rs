//! The end of a game: the goat is known and may make a noise.
use vstd::prelude::*;
use crate::id::PlayerIdx;

verus! {

/// The last phase of a game.
#[derive(Clone, Copy, PartialEq, Eq, Structural, Debug)]
pub struct GoatPhase {
    /// The loser of the game.
    pub goat: PlayerIdx,
    /// The noise that the goat made, once they have made one.
    pub noise: Option<usize>,
}

impl GoatPhase {
    pub fn new(goat: PlayerIdx) -> (r: GoatPhase)
        ensures
            r == (GoatPhase { goat, noise: None }),
    {
        GoatPhase { goat, noise: None }
    }
}

} // verus!
