//! What an embedder keeps of the plays of the rummy phase.
use vstd::prelude::*;
use crate::card::Card;
use crate::cards::Cards;
use crate::id::PlayerIdx;

verus! {

/// A record of the rummy phase. The phase tells it of each run played: `lead`
/// for the first run of a trick, `kill` for the run that fills it, `play` for
/// any other; and of each run picked up.
pub trait RummyHistory: Sized {
    /// Whether `after` is the record after a run was led.
    spec fn led(&self, after: Self, player: PlayerIdx, lo: Card, hi: Card) -> bool;

    /// Whether `after` is the record after a run was played on a trick.
    spec fn played(&self, after: Self, player: PlayerIdx, lo: Card, hi: Card) -> bool;

    /// Whether `after` is the record after a run filled a trick.
    spec fn killed(&self, after: Self, player: PlayerIdx, lo: Card, hi: Card) -> bool;

    /// Whether `after` is the record after a run was picked up.
    spec fn picked_up(&self, after: Self, player: PlayerIdx, lo: Card, hi: Card) -> bool;

    fn new(num_players: usize) -> Self;

    fn lead(&mut self, player: PlayerIdx, lo: Card, hi: Card)
        requires
            Cards::is_run(lo, hi),
        ensures
            old(self).led(*final(self), player, lo, hi),
    ;

    fn play(&mut self, player: PlayerIdx, lo: Card, hi: Card)
        requires
            Cards::is_run(lo, hi),
        ensures
            old(self).played(*final(self), player, lo, hi),
    ;

    fn kill(&mut self, player: PlayerIdx, lo: Card, hi: Card)
        requires
            Cards::is_run(lo, hi),
        ensures
            old(self).killed(*final(self), player, lo, hi),
    ;

    fn pick_up(&mut self, player: PlayerIdx, lo: Card, hi: Card)
        requires
            Cards::is_run(lo, hi),
        ensures
            old(self).picked_up(*final(self), player, lo, hi),
    ;
}

/// The record that keeps nothing.
impl RummyHistory for () {
    open spec fn led(&self, after: (), player: PlayerIdx, lo: Card, hi: Card) -> bool {
        true
    }

    open spec fn played(&self, after: (), player: PlayerIdx, lo: Card, hi: Card) -> bool {
        true
    }

    open spec fn killed(&self, after: (), player: PlayerIdx, lo: Card, hi: Card) -> bool {
        true
    }

    open spec fn picked_up(&self, after: (), player: PlayerIdx, lo: Card, hi: Card) -> bool {
        true
    }

    fn new(num_players: usize) -> () {
    }

    fn lead(&mut self, player: PlayerIdx, lo: Card, hi: Card) {
    }

    fn play(&mut self, player: PlayerIdx, lo: Card, hi: Card) {
    }

    fn kill(&mut self, player: PlayerIdx, lo: Card, hi: Card) {
    }

    fn pick_up(&mut self, player: PlayerIdx, lo: Card, hi: Card) {
    }
}

/// The set with a run added, where the run fits; the set itself where not.
pub open spec fn with_run(cards: Cards, lo: Card, hi: Card) -> Cards {
    if cards.fits(Cards::spec_range(lo, hi)) {
        cards.plus(Cards::spec_range(lo, hi))
    } else {
        cards
    }
}

/// The set without a run that it includes; the set itself where it does not.
pub open spec fn without_run(cards: Cards, lo: Card, hi: Card) -> Cards {
    if cards.includes(Cards::spec_range(lo, hi)) {
        cards.minus(Cards::spec_range(lo, hi))
    } else {
        cards
    }
}

/// The record of the cards that lie in tricks or have left the game with one:
/// each run played is added to it, each run picked up taken from it.
impl RummyHistory for Cards {
    open spec fn led(&self, after: Cards, player: PlayerIdx, lo: Card, hi: Card) -> bool {
        after == with_run(*self, lo, hi)
    }

    open spec fn played(&self, after: Cards, player: PlayerIdx, lo: Card, hi: Card) -> bool {
        after == with_run(*self, lo, hi)
    }

    open spec fn killed(&self, after: Cards, player: PlayerIdx, lo: Card, hi: Card) -> bool {
        after == with_run(*self, lo, hi)
    }

    open spec fn picked_up(&self, after: Cards, player: PlayerIdx, lo: Card, hi: Card) -> bool {
        after == without_run(*self, lo, hi)
    }

    /// A record in which no card has been played yet.
    fn new(num_players: usize) -> (r: Cards)
        ensures
            r == Cards::spec_none(),
    {
        Cards::none()
    }

    fn lead(&mut self, player: PlayerIdx, lo: Card, hi: Card) {
        let run: Cards = Cards::range(lo, hi);
        if self.can_add(run) {
            *self = *self + run;
        }
    }

    fn play(&mut self, player: PlayerIdx, lo: Card, hi: Card) {
        let run: Cards = Cards::range(lo, hi);
        if self.can_add(run) {
            *self = *self + run;
        }
    }

    fn kill(&mut self, player: PlayerIdx, lo: Card, hi: Card) {
        let run: Cards = Cards::range(lo, hi);
        if self.can_add(run) {
            *self = *self + run;
        }
    }

    fn pick_up(&mut self, player: PlayerIdx, lo: Card, hi: Card) {
        let run: Cards = Cards::range(lo, hi);
        if self.contains_all(run) {
            *self = *self - run;
        }
    }
}

} // verus!
