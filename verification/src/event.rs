//! What happened in a game: the entries of its log.
use vstd::prelude::*;
use crate::card::Card;
use crate::cards::Cards;
use crate::id::{PlayerIdx, UserId};

verus! {

/// One entry of a game's log. The three redacted forms stand for a draw, an
/// offer and a receipt towards those who may not see the cards: they hold the
/// number of cards only.
#[allow(inconsistent_fields)]
#[derive(Clone, Copy, PartialEq, Eq, Structural, Debug)]
pub enum Event {
    Join { user_id: UserId },
    Leave { player: PlayerIdx },
    Start { num_decks: u8 },
    PlayCard { card: Card },
    PlayTop { card: Card },
    Slough { player: PlayerIdx, card: Card },
    Draw { player: PlayerIdx, card: Card },
    FinishTrick { player: PlayerIdx },
    RevealTrump { trump: Card },
    OfferDreck { player: PlayerIdx, dreck: Cards },
    ReceiveDreck { player: PlayerIdx, dreck: Cards },
    PlayRun { lo: Card, hi: Card },
    PickUp,
    Goat { noise: usize },
    RedactedDraw { player: PlayerIdx },
    RedactedOfferDreck { player: PlayerIdx, dreck: u8 },
    RedactedReceiveDreck { player: PlayerIdx, dreck: u8 },
}

impl Event {
    /// The player whose cards the event shows, where it shows cards that only
    /// that player may see.
    pub open spec fn subject(self) -> Option<PlayerIdx> {
        match self {
            Event::Draw { player, .. } => Some(player),
            Event::OfferDreck { player, .. } => Some(player),
            Event::ReceiveDreck { player, .. } => Some(player),
            _ => None,
        }
    }

    /// The event without the cards: the player and the number of cards are all
    /// that is left of a draw, an offer or a receipt. Other events are unchanged.
    pub open spec fn hidden(self) -> Event {
        match self {
            Event::Draw { player, .. } => Event::RedactedDraw { player },
            Event::OfferDreck { player, dreck } => Event::RedactedOfferDreck {
                player,
                dreck: dreck.spec_len() as u8,
            },
            Event::ReceiveDreck { player, dreck } => Event::RedactedReceiveDreck {
                player,
                dreck: dreck.spec_len() as u8,
            },
            _ => self,
        }
    }

    /// The event as `receiver` may see it: without the cards where it shows the
    /// cards of another player. A receiver without a seat sees every event whole.
    pub open spec fn spec_redact(self, receiver: Option<PlayerIdx>) -> Event {
        if receiver.is_some() && self.subject().is_some() && receiver != self.subject() {
            self.hidden()
        } else {
            self
        }
    }

    /// Whether the event names cards that only one player may see.
    pub open spec fn shows_cards(self) -> bool {
        self.subject().is_some()
    }

    /// The event as `receiver` may see it.
    pub fn redact(&self, receiver: Option<PlayerIdx>) -> (r: Event)
        ensures
            r == self.spec_redact(receiver),
    {
        let seat: PlayerIdx = match receiver {
            Some(p) => p,
            None => {
                return *self;
            },
        };
        match *self {
            Event::Draw { player, card } => {
                if seat != player {
                    Event::RedactedDraw { player }
                } else {
                    *self
                }
            },
            Event::OfferDreck { player, dreck } => {
                if seat != player {
                    Event::RedactedOfferDreck { player, dreck: dreck.len() as u8 }
                } else {
                    *self
                }
            },
            Event::ReceiveDreck { player, dreck } => {
                if seat != player {
                    Event::RedactedReceiveDreck { player, dreck: dreck.len() as u8 }
                } else {
                    *self
                }
            },
            _ => *self,
        }
    }
}

/// What a player sees of an event about another player's cards shows no card.
pub proof fn lemma_redact_shows_no_cards(e: Event, p: PlayerIdx)
    requires
        e.subject().is_some(),
        e.subject() != Some(p),
    ensures
        !e.spec_redact(Some(p)).shows_cards(),
        e.spec_redact(Some(p)) == e.hidden(),
{
}

/// Whether two events differ at most in the cards that they show: two draws by
/// one player, or two offers or two receipts of equally many cards by one
/// player.
pub open spec fn alike(e1: Event, e2: Event) -> bool {
    match (e1, e2) {
        (Event::Draw { player: a, .. }, Event::Draw { player: b, .. }) => a == b,
        (Event::OfferDreck { player: a, dreck: x }, Event::OfferDreck { player: b, dreck: y }) => a == b && x.spec_len()
            == y.spec_len(),
        (Event::ReceiveDreck { player: a, dreck: x }, Event::ReceiveDreck { player: b, dreck: y }) => a == b
            && x.spec_len() == y.spec_len(),
        _ => false,
    }
}

/// What a player sees of an event about another player's cards does not depend
/// on which cards they were: events that differ in the cards alone look alike.
pub proof fn lemma_redact_hides_cards(e1: Event, e2: Event, p: PlayerIdx)
    requires
        alike(e1, e2),
        e1.subject() != Some(p),
    ensures
        e1.spec_redact(Some(p)) == e2.spec_redact(Some(p)),
{
}

/// The player whose cards an event shows sees it whole, and so does a receiver
/// without a seat; an event that shows no cards is seen whole by all.
pub proof fn lemma_redact_keeps(e: Event, receiver: Option<PlayerIdx>)
    requires
        receiver.is_none() || e.subject().is_none() || receiver == e.subject(),
    ensures
        e.spec_redact(receiver) == e,
{
}

} // verus!
