//! The hands of the rummy phase. The server holds each hand card by card; a
//! client holds of another player's hand the cards it has seen and the number
//! of those it has not.
use vstd::prelude::*;
use crate::card::{lemma_card_index, Card};
use crate::cards::Cards;
use crate::error::GoatError;

verus! {

/// What the rummy phase asks of a hand.
pub trait RummyHand: Sized {
    /// The number of cards in the hand.
    spec fn spec_len(&self) -> nat;

    /// What `check_can_play` answers for the run from `lo` to `hi`.
    spec fn can_play(&self, lo: Card, hi: Card) -> Result<(), GoatError>;

    /// Whether `cards` can be added to the hand.
    spec fn admits(&self, cards: Cards) -> bool;

    /// The hand with `cards` added.
    spec fn with_cards(&self, cards: Cards) -> Self;

    /// Whether `cards` can be taken from the hand.
    spec fn holds(&self, cards: Cards) -> bool;

    /// The hand with `cards` taken from it.
    spec fn without_cards(&self, cards: Cards) -> Self;

    /// A run that may be played can be taken from the hand.
    proof fn lemma_can_play_holds(&self, lo: Card, hi: Card)
        requires
            Cards::is_run(lo, hi),
            self.can_play(lo, hi).is_ok(),
        ensures
            self.holds(Cards::spec_range(lo, hi)),
    ;

    fn is_empty(&self) -> (b: bool)
        ensures
            b == (self.spec_len() == 0),
    ;

    fn len(&self) -> (n: usize)
        ensures
            n == self.spec_len(),
    ;

    /// Whether the hand can give the run from `lo` to `hi`, and the card that
    /// it lacks where it cannot.
    fn check_can_play(&self, lo: Card, hi: Card) -> (r: Result<(), GoatError>)
        requires
            Cards::is_run(lo, hi),
        ensures
            r == self.can_play(lo, hi),
    ;

    fn can_add(&self, cards: Cards) -> (b: bool)
        ensures
            b == self.admits(cards),
    ;

    fn can_remove(&self, cards: Cards) -> (b: bool)
        ensures
            b == self.holds(cards),
    ;

    fn add_cards(&mut self, cards: Cards)
        requires
            old(self).admits(cards),
        ensures
            *final(self) == old(self).with_cards(cards),
    ;

    fn remove_cards(&mut self, cards: Cards)
        requires
            old(self).holds(cards),
        ensures
            *final(self) == old(self).without_cards(cards),
    ;
}

/// Whether `c` is the lowest card of the run from `lo` to `hi` that `hand` lacks.
pub open spec fn is_lowest_missing(c: Card, hand: Cards, lo: Card, hi: Card) -> bool {
    &&& Cards::in_run(c, lo, hi)
    &&& !hand.has(c)
    &&& forall|x: Card| Cards::in_run(x, lo, hi) && !hand.has(x) ==> c.index() <= x.index()
}

/// The lowest card of the run from `lo` to `hi` that `hand` lacks.
pub open spec fn lowest_missing(hand: Cards, lo: Card, hi: Card) -> Card {
    choose|c: Card| is_lowest_missing(c, hand, lo, hi)
}

impl RummyHand for Cards {
    open spec fn spec_len(&self) -> nat {
        Cards::spec_len(*self)
    }

    open spec fn can_play(&self, lo: Card, hi: Card) -> Result<(), GoatError> {
        if self.includes(Cards::spec_range(lo, hi)) {
            Ok(())
        } else {
            Err(GoatError::NotYourCard { card: lowest_missing(*self, lo, hi) })
        }
    }

    open spec fn admits(&self, cards: Cards) -> bool {
        self.fits(cards)
    }

    open spec fn with_cards(&self, cards: Cards) -> Cards {
        self.plus(cards)
    }

    open spec fn holds(&self, cards: Cards) -> bool {
        self.includes(cards)
    }

    open spec fn without_cards(&self, cards: Cards) -> Cards {
        self.minus(cards)
    }

    proof fn lemma_can_play_holds(&self, lo: Card, hi: Card) {
    }

    fn is_empty(&self) -> (b: bool) {
        Cards::is_empty(*self)
    }

    fn len(&self) -> (n: usize) {
        Cards::len(*self)
    }

    fn check_can_play(&self, lo: Card, hi: Card) -> (r: Result<(), GoatError>) {
        let cards: Cards = Cards::range(lo, hi);
        let found: Cards = cards.common(*self);
        let missing: Cards = cards - found;
        if missing.is_empty() {
            proof {
                assert forall|c: Card| cards.count(c) <= self.count(c) by {
                    assert(missing.count(c) == 0);
                    assert(missing.count(c) == cards.count(c) - found.count(c));
                }
            }
            Ok(())
        } else {
            let card: Card = missing.min();
            proof {
                assert(missing.count(card) == cards.count(card) - found.count(card));
                assert(cards.count(card) == (if Cards::in_run(card, lo, hi) { 1nat } else { 0nat }));
                assert(!self.includes(cards));
                assert forall|x: Card| Cards::in_run(x, lo, hi) && !self.has(x) implies card.index() <= x.index() by {
                    assert(cards.count(x) == 1);
                    assert(missing.count(x) == cards.count(x) - found.count(x));
                    assert(missing.has(x));
                }
                assert(is_lowest_missing(card, *self, lo, hi));
                let m = lowest_missing(*self, lo, hi);
                assert(is_lowest_missing(m, *self, lo, hi));
                assert(m.index() == card.index());
                lemma_card_index(m);
                lemma_card_index(card);
            }
            Err(GoatError::NotYourCard { card })
        }
    }

    fn can_add(&self, cards: Cards) -> (b: bool) {
        Cards::can_add(*self, cards)
    }

    fn can_remove(&self, cards: Cards) -> (b: bool) {
        self.contains_all(cards)
    }

    fn add_cards(&mut self, cards: Cards) {
        *self = *self + cards;
    }

    fn remove_cards(&mut self, cards: Cards) {
        *self = *self - cards;
    }
}

/// A hand of which a client knows some cards and the number of the others.
#[derive(Clone, Copy, PartialEq, Eq, Structural, Debug)]
pub struct ClientRummyHand {
    /// The cards that the client has seen.
    pub known: Cards,
    /// The number of cards that it has not.
    pub unknown: u8,
}

impl ClientRummyHand {
    /// The number of cards of `cards` that must come from the unseen part of
    /// the hand, because the seen part lacks them.
    pub open spec fn shortfall(self, cards: Cards) -> nat {
        (cards.spec_len() - self.known.spec_meet(cards).spec_len()) as nat
    }
}

impl RummyHand for ClientRummyHand {
    open spec fn spec_len(&self) -> nat {
        self.known.spec_len() + self.unknown as nat
    }

    /// A client does not know the whole hand: it accepts a run where the cards
    /// that it has not seen can make up for those that it misses, and names
    /// the lowest card of the run where they cannot.
    open spec fn can_play(&self, lo: Card, hi: Card) -> Result<(), GoatError> {
        if self.shortfall(Cards::spec_range(lo, hi)) <= self.unknown {
            Ok(())
        } else {
            Err(GoatError::NotYourCard { card: lo })
        }
    }

    open spec fn admits(&self, cards: Cards) -> bool {
        self.known.fits(cards)
    }

    open spec fn with_cards(&self, cards: Cards) -> ClientRummyHand {
        ClientRummyHand { known: self.known.plus(cards), unknown: self.unknown }
    }

    open spec fn holds(&self, cards: Cards) -> bool {
        self.shortfall(cards) <= self.unknown
    }

    open spec fn without_cards(&self, cards: Cards) -> ClientRummyHand {
        ClientRummyHand {
            known: self.known.minus(self.known.spec_meet(cards)),
            unknown: (self.unknown - self.shortfall(cards)) as u8,
        }
    }

    proof fn lemma_can_play_holds(&self, lo: Card, hi: Card) {
    }

    fn is_empty(&self) -> (b: bool) {
        self.known.is_empty() && self.unknown == 0
    }

    fn len(&self) -> (n: usize) {
        self.known.len() + self.unknown as usize
    }

    fn check_can_play(&self, lo: Card, hi: Card) -> (r: Result<(), GoatError>) {
        if self.can_remove(Cards::range(lo, hi)) {
            Ok(())
        } else {
            Err(GoatError::NotYourCard { card: lo })
        }
    }

    fn can_add(&self, cards: Cards) -> (b: bool) {
        self.known.can_add(cards)
    }

    fn can_remove(&self, cards: Cards) -> (b: bool) {
        let common: Cards = self.known.common(cards);
        let missing: Cards = cards - common;
        missing.len() <= self.unknown as usize
    }

    fn add_cards(&mut self, cards: Cards) {
        self.known = self.known + cards;
    }

    fn remove_cards(&mut self, cards: Cards) {
        let common: Cards = self.known.common(cards);
        let missing: Cards = cards - common;
        self.known = self.known - common;
        self.unknown = self.unknown - missing.len() as u8;
    }
}

} // verus!
