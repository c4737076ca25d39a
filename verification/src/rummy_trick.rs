//! A trick of the rummy phase: the runs played so far, each beating the one
//! before it. A player who cannot or will not beat the top picks up the lowest
//! connected run of the trick.
use vstd::prelude::*;
use crate::card::Card;
use crate::cards::Cards;
use crate::lists::{runs, runs_clone, runs_drain_front, runs_new, runs_push, runs_slice, RunList};
use crate::suit::Suit;

verus! {

/// A trick of the rummy phase.
#[derive(Debug)]
pub struct RummyTrick {
    plays: RunList,
    num_players: usize,
}

/// What a rummy trick holds: its runs, each from its lowest to its highest
/// card, and the number of plays that ends it.
pub struct RummyTrickView {
    pub plays: Seq<(Card, Card)>,
    pub num_players: nat,
}

/// Whether the run that starts with `next` goes on where the one that ends with
/// `top` stops: one suit, and the next rank.
pub open spec fn follows(top: Card, next: Card) -> bool {
    next.spec_suit() == top.spec_suit() && next.spec_rank().spec_idx() == top.spec_rank().spec_idx() + 1
}

/// The number of plays at the start of `plays` that make one run, given that
/// the first `n` of them do.
pub open spec fn connected(plays: Seq<(Card, Card)>, n: int) -> int
    decreases plays.len() - n,
{
    if 1 <= n < plays.len() && follows(plays[n - 1].1, plays[n].0) {
        connected(plays, n + 1)
    } else {
        n
    }
}

impl RummyTrickView {
    /// Every play of a trick is a run.
    pub open spec fn wf(self) -> bool {
        forall|i: int| 0 <= i < self.plays.len() ==> Cards::is_run((#[trigger] self.plays[i]).0, self.plays[i].1)
    }

    /// The highest card of the last run.
    pub open spec fn top_card(self) -> Option<Card> {
        if self.plays.len() == 0 {
            None
        } else {
            Some(self.plays.last().1)
        }
    }

    /// Whether a run that starts with `card` may be played: on an empty trick
    /// any; else one of the suit of the top and above it, or a trump on a top
    /// that is no trump.
    pub open spec fn can_play(self, card: Card, trump: Suit) -> bool {
        match self.top_card() {
            None => true,
            Some(c) => (card.spec_suit() == c.spec_suit() && card.spec_rank().spec_idx() > c.spec_rank().spec_idx()) || (
            card.spec_suit() == trump && c.spec_suit() != trump),
        }
    }

    /// The run that a player picks up: the plays at the start of the trick that
    /// make one run, from the lowest card of the first to the highest of the last.
    pub open spec fn picked(self) -> (Card, Card) {
        (self.plays[0].0, self.plays[connected(self.plays, 1) - 1].1)
    }

    /// The trick after a pick-up: without the plays that were picked up.
    pub open spec fn after_pick_up(self) -> RummyTrickView {
        RummyTrickView { plays: self.plays.subrange(connected(self.plays, 1), self.plays.len() as int), ..self }
    }

    /// The trick after the run from `lo` to `hi` has been played.
    pub open spec fn play(self, lo: Card, hi: Card) -> RummyTrickView {
        RummyTrickView { plays: self.plays.push((lo, hi)), ..self }
    }

    /// Whether the trick is full: it has as many plays as it takes to end it.
    pub open spec fn killed(self) -> bool {
        self.plays.len() == self.num_players
    }
}

/// The plays that make the first run of a trick are at least one and at most
/// all, each goes on where the one before stops, and together they are a run.
pub proof fn lemma_connected(plays: Seq<(Card, Card)>, n: int)
    requires
        1 <= n <= plays.len(),
        forall|i: int| 0 <= i < plays.len() ==> Cards::is_run((#[trigger] plays[i]).0, plays[i].1),
        forall|j: int| 1 <= j < n ==> follows(plays[j - 1].1, #[trigger] plays[j].0),
    ensures
        n <= connected(plays, n) <= plays.len(),
        forall|j: int| 1 <= j < connected(plays, n) ==> follows(plays[j - 1].1, #[trigger] plays[j].0),
        connected(plays, n) < plays.len() ==> !follows(plays[connected(plays, n) - 1].1, plays[connected(plays, n)].0),
    decreases plays.len() - n,
{
    if n < plays.len() && follows(plays[n - 1].1, plays[n].0) {
        lemma_connected(plays, n + 1);
    }
}

/// Plays of which each goes on where the one before stops make one run, from
/// the lowest card of the first to the highest of the last.
pub proof fn lemma_joined_run(plays: Seq<(Card, Card)>, n: int)
    requires
        1 <= n <= plays.len(),
        forall|i: int| 0 <= i < plays.len() ==> Cards::is_run((#[trigger] plays[i]).0, plays[i].1),
        forall|j: int| 1 <= j < n ==> follows(plays[j - 1].1, #[trigger] plays[j].0),
    ensures
        Cards::is_run(plays[0].0, plays[n - 1].1),
    decreases n,
{
    if n > 1 {
        lemma_joined_run(plays, n - 1);
        assert(follows(plays[n - 2].1, plays[n - 1].0));
        assert(Cards::is_run(plays[n - 1].0, plays[n - 1].1));
    } else {
        assert(Cards::is_run(plays[0].0, plays[0].1));
    }
}

impl View for RummyTrick {
    type V = RummyTrickView;

    closed spec fn view(&self) -> RummyTrickView {
        RummyTrickView { plays: runs(self.plays), num_players: self.num_players as nat }
    }
}

impl Clone for RummyTrick {
    fn clone(&self) -> (r: RummyTrick)
        ensures
            r@ == self@,
    {
        RummyTrick { plays: runs_clone(&self.plays), num_players: self.num_players }
    }
}

impl RummyTrick {
    /// Every play of the trick is a run.
    pub open spec fn wf(&self) -> bool {
        self@.wf()
    }

    /// An empty trick that `num_players` plays end.
    pub fn new(num_players: usize) -> (t: RummyTrick)
        ensures
            t@ == (RummyTrickView { plays: Seq::empty(), num_players: num_players as nat }),
            t.wf(),
    {
        RummyTrick { plays: runs_new(), num_players }
    }

    /// Whether every play of the trick is a run.
    pub fn check(&self) -> (b: bool)
        ensures
            b == self.wf(),
    {
        let plays: &[(Card, Card)] = runs_slice(&self.plays);
        let mut i: usize = 0;
        while i < plays.len()
            invariant
                i <= plays@.len(),
                plays@ == self@.plays,
                forall|k: int| 0 <= k < i ==> Cards::is_run((#[trigger] plays@[k]).0, plays@[k].1),
            decreases plays.len() - i,
        {
            let (lo, hi) = plays[i];
            if lo.suit() != hi.suit() || lo.rank().idx() > hi.rank().idx() {
                return false;
            }
            i = i + 1;
        }
        true
    }

    /// The number of plays in the trick.
    pub fn len(&self) -> (n: usize)
        ensures
            n == self@.plays.len(),
    {
        runs_slice(&self.plays).len()
    }

    /// The plays of the trick, in their order.
    pub fn plays(&self) -> (s: &[(Card, Card)])
        ensures
            s@ == self@.plays,
    {
        runs_slice(&self.plays)
    }

    /// The highest card of the last run.
    pub fn top_card(&self) -> (r: Option<Card>)
        ensures
            r == self@.top_card(),
    {
        let plays: &[(Card, Card)] = runs_slice(&self.plays);
        if plays.len() == 0 {
            None
        } else {
            Some(plays[plays.len() - 1].1)
        }
    }

    /// Whether a run that starts with `card` may be played when `trump` is the
    /// suit of the trump.
    pub fn can_play(&self, card: Card, trump: Suit) -> (b: bool)
        ensures
            b == self@.can_play(card, trump),
    {
        match self.top_card() {
            None => true,
            Some(c) => (card.suit() == c.suit() && card.rank().idx() > c.rank().idx()) || (card.suit() == trump
                && c.suit() != trump),
        }
    }

    /// Whether the trick has no plays.
    pub fn is_empty(&self) -> (b: bool)
        ensures
            b == (self@.plays.len() == 0),
    {
        runs_slice(&self.plays).len() == 0
    }

    /// The number of plays that ends the trick.
    pub fn num_players(&self) -> (n: usize)
        ensures
            n == self@.num_players,
    {
        self.num_players
    }

    /// The run that a pick-up would take, with the number of plays that make it.
    pub fn first_run(&self) -> (r: ((Card, Card), usize))
        requires
            self.wf(),
            self@.plays.len() > 0,
        ensures
            r.0 == self@.picked(),
            r.1 == connected(self@.plays, 1),
            1 <= r.1 <= self@.plays.len(),
            Cards::is_run(r.0.0, r.0.1),
    {
        let plays: &[(Card, Card)] = runs_slice(&self.plays);
        let lo: Card = plays[0].0;
        let mut hi: Card = plays[0].1;
        let mut shift: usize = 1;
        let mut done: bool = false;
        while !done && shift < plays.len()
            invariant
                1 <= shift <= plays@.len(),
                plays@ == self@.plays,
                self@.wf(),
                hi == plays@[shift - 1].1,
                connected(plays@, 1) == connected(plays@, shift as int),
                forall|j: int| 1 <= j < shift ==> follows(plays@[j - 1].1, #[trigger] plays@[j].0),
                done ==> connected(plays@, shift as int) == shift,
            decreases plays.len() - shift + (if done { 0int } else { 1int }),
        {
            let next: (Card, Card) = plays[shift];
            if next.0.suit() == hi.suit() && next.0.rank().idx() == hi.rank().idx() + 1 {
                hi = next.1;
                shift = shift + 1;
            } else {
                done = true;
            }
        }
        proof {
            lemma_joined_run(plays@, shift as int);
        }
        ((lo, hi), shift)
    }

    /// Takes the first connected run out of the trick and gives it back.
    pub fn pick_up(&mut self) -> (r: (Card, Card))
        requires
            old(self).wf(),
            old(self)@.plays.len() > 0,
        ensures
            r == old(self)@.picked(),
            final(self)@ == old(self)@.after_pick_up(),
            final(self).wf(),
            Cards::is_run(r.0, r.1),
    {
        let (range, shift) = self.first_run();
        runs_drain_front(&mut self.plays, shift);
        range
    }

    /// Puts the run from `lo` to `hi` on the trick. The answer is whether the
    /// trick is full with it.
    pub fn play(&mut self, lo: Card, hi: Card) -> (killed: bool)
        requires
            old(self).wf(),
            Cards::is_run(lo, hi),
        ensures
            final(self)@ == old(self)@.play(lo, hi),
            final(self).wf(),
            killed == final(self)@.killed(),
    {
        runs_push(&mut self.plays, (lo, hi));
        proof {
            let before = old(self)@.plays;
            let after = self@.plays;
            assert forall|i: int| 0 <= i < after.len() implies Cards::is_run((#[trigger] after[i]).0, after[i].1) by {
                if i < before.len() {
                    assert(after[i] == before[i]);
                }
            }
        }
        runs_slice(&self.plays).len() == self.num_players
    }
}

} // verus!
