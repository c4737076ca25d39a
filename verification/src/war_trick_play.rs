//! One card put into a war trick.
use vstd::prelude::*;
use crate::card::Card;
use crate::id::PlayerIdx;

verus! {

/// How a card came into a trick.
#[derive(Clone, Copy, PartialEq, Eq, Structural, Debug)]
pub enum WarPlayKind {
    /// Played from the hand, in turn.
    PlayHand,
    /// Played from the top of the deck, in turn.
    PlayTop,
    /// Discarded from the hand, out of turn.
    Slough,
}

/// A card in a trick, with the player who put it there and how.
#[derive(Clone, Copy, PartialEq, Eq, Structural, Debug)]
pub struct WarPlay {
    pub player: PlayerIdx,
    pub kind: WarPlayKind,
    pub card: Card,
}

impl WarPlay {
    pub fn new(player: PlayerIdx, kind: WarPlayKind, card: Card) -> (p: WarPlay)
        ensures
            p == (WarPlay { player, kind, card }),
    {
        WarPlay { player, kind, card }
    }

    pub fn player(self) -> (p: PlayerIdx)
        ensures
            p == self.player,
    {
        self.player
    }

    pub fn kind(self) -> (k: WarPlayKind)
        ensures
            k == self.kind,
    {
        self.kind
    }
}

} // verus!
