//! The ways in which an action can be refused.
use vstd::prelude::*;
use crate::card::Card;
use crate::id::{GameId, PlayerIdx, UserId};
use crate::rank::Rank;

verus! {

/// Why an action was refused. Each member holds what a message about it needs.
#[derive(Clone, Copy, PartialEq, Eq, Structural, Debug)]
pub enum GoatError {
    /// Drawing when only the trump is left in the deck.
    CannotDrawFromEmptyDeck,
    /// Drawing with three cards in hand.
    CannotDrawMoreThanThreeCards,
    /// Finishing a trick that has no winner yet.
    CannotFinishSloughingIncompleteTrick,
    /// Picking up from a trick without plays.
    CannotPickUpFromEmptyTrick,
    /// Playing the top of the deck when only the trump is left in it.
    CannotPlayFromEmptyDeck,
    /// A run that does not beat the top of the trick.
    CannotPlayRange { lo: Card },
    /// Sloughing after having finished the trick.
    CannotSloughOnEndedTrick,
    /// A slough of a card whose rank the trick does not admit.
    IllegalSlough { card: Card },
    /// An action that the phase of the game has no place for.
    InvalidAction,
    /// A game that the server does not know.
    InvalidGame { game_id: GameId },
    /// A start with fewer than one deck or more than three.
    InvalidNumberOfDecks,
    /// A start with fewer than three players or more than fifteen.
    InvalidNumberOfPlayers,
    /// A user who has no seat in the game.
    InvalidPlayer { user_id: UserId },
    /// Two cards that bound no run.
    InvalidRange { lo: Card, hi: Card },
    /// A play beside a card of the rank that leads the round.
    MustMatchRank { rank: Rank },
    /// A goat noise from a player who is not the goat.
    NoFreeShows,
    /// A card that is not in the hand.
    NotYourCard { card: Card },
    /// An action out of turn.
    NotYourTurn { player: PlayerIdx },
}

} // verus!
