//! What a user asks of a game.
use vstd::prelude::*;
use crate::card::Card;
use crate::id::{PlayerIdx, UserId};

verus! {

/// A request of a user to a game.
#[derive(Clone, Copy, PartialEq, Eq, Structural, Hash, Debug)]
pub enum Action {
    Join { user_id: UserId },
    Leave { player: PlayerIdx },
    Start { num_decks: u8 },
    PlayCard { card: Card },
    PlayTop,
    Slough { card: Card },
    Draw,
    FinishTrick,
    PlayRun { lo: Card, hi: Card },
    PickUp,
    Goat { noise: usize },
}

} // verus!
