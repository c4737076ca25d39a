//! The deck of the war phase: the server holds its cards, a client only their
//! number. The last card of a deck is the trump and is never handed out.
use vstd::prelude::*;
use crate::card::Card;

verus! {

/// A deck that knows how many cards can still be taken from it.
pub trait Deck {
    /// The number of cards that can still be taken: all but the trump.
    spec fn spec_remaining(&self) -> nat;

    fn cards_remaining(&self) -> (n: usize)
        ensures
            n == self.spec_remaining(),
    ;
}

impl Deck for Vec<Card> {
    open spec fn spec_remaining(&self) -> nat {
        if self@.len() == 0 {
            0
        } else {
            (self@.len() - 1) as nat
        }
    }

    fn cards_remaining(&self) -> (n: usize) {
        if self.len() == 0 {
            0
        } else {
            self.len() - 1
        }
    }
}

/// The deck as a client sees it: the number of cards that can still be taken.
#[derive(Clone, Copy, PartialEq, Eq, Structural, Debug)]
pub struct ClientDeck(pub u8);

impl ClientDeck {
    /// The deck of a game that starts with `num_decks` decks of fifty-two cards.
    pub fn new(num_decks: u8) -> (d: ClientDeck)
        requires
            1 <= num_decks <= 4,
        ensures
            d.0 == 52 * num_decks - 1,
    {
        ClientDeck(52 * num_decks - 1)
    }

    /// Takes one card from the deck.
    pub fn draw(&mut self)
        requires
            old(self).0 > 0,
        ensures
            final(self).0 == old(self).0 - 1,
    {
        self.0 = self.0 - 1;
    }
}

impl Deck for ClientDeck {
    open spec fn spec_remaining(&self) -> nat {
        self.0 as nat
    }

    fn cards_remaining(&self) -> (n: usize) {
        self.0 as usize
    }
}

} // verus!
