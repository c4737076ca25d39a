//! The war phase: a deck, the hands, the piles that the players have won, and
//! the trick that is being played.
use vstd::prelude::*;
use crate::card::Card;
use crate::cards::{add_all, can_add_all, fits_all, plus_all, Cards};
use crate::deck::Deck;
use crate::error::GoatError;
use crate::id::PlayerIdx;
use crate::prev_trick::PreviousTrick;
use crate::rummy_hand::RummyHand;
use crate::rummy_history::RummyHistory;
use crate::rummy_phase::RummyPhase;
use crate::war_hand::WarHand;
use crate::war_trick::{lemma_init, lemma_seated, WarTrick, WarTrickView};
use crate::war_trick_play::{WarPlay, WarPlayKind};

verus! {

/// The war phase of a game.
#[derive(Debug)]
pub struct WarPhase<D, H, T> {
    /// The deck. Its last card is the trump and stays in it.
    pub deck: D,
    /// The hand of each seat.
    pub hands: Vec<H>,
    /// The cards that each seat has won.
    pub won: Vec<Cards>,
    /// The trick that is being played.
    pub trick: WarTrick,
    /// The trick before it.
    pub prev_trick: T,
}

/// Whether some seat of `seats` has an empty hand.
pub open spec fn some_empty<H: WarHand>(hands: Seq<H>, seats: Seq<PlayerIdx>) -> bool {
    exists|i: int| 0 <= i < seats.len() && (#[trigger] seats[i]).0 < hands.len() && hands[seats[i].0 as int].spec_len() == 0
}

/// Whether the cards that seat `seat` has put into the trick can be added one
/// by one to `hand`.
pub open spec fn admits_plays<R: RummyHand>(hand: R, plays: Seq<WarPlay>, seat: int) -> bool
    decreases plays.len(),
{
    if plays.len() == 0 {
        true
    } else if plays[0].player.0 == seat {
        hand.admits(Cards::single(plays[0].card)) && admits_plays(
            hand.with_cards(Cards::single(plays[0].card)),
            plays.drop_first(),
            seat,
        )
    } else {
        admits_plays(hand, plays.drop_first(), seat)
    }
}

/// The hand with the cards added that seat `seat` has put into the trick.
pub open spec fn with_plays<R: RummyHand>(hand: R, plays: Seq<WarPlay>, seat: int) -> R
    decreases plays.len(),
{
    if plays.len() == 0 {
        hand
    } else if plays[0].player.0 == seat {
        with_plays(hand.with_cards(Cards::single(plays[0].card)), plays.drop_first(), seat)
    } else {
        with_plays(hand, plays.drop_first(), seat)
    }
}

impl<D: Deck, H: WarHand, T: PreviousTrick> WarPhase<D, H, T> {
    /// What the phase keeps: between two and sixteen seats, a hand and a pile
    /// for each, and a trick among these seats.
    pub open spec fn wf(&self) -> bool {
        &&& 2 <= self.hands@.len() <= 16
        &&& self.won@.len() == self.hands@.len()
        &&& self.trick.wf()
        &&& self.trick@.seated(self.hands@.len())
    }

    /// Whether the phase is over: no card can be taken from the deck, and one
    /// of those who still have to play in this round has no card.
    pub open spec fn finished(&self) -> bool {
        self.deck.spec_remaining() == 0 && some_empty(self.hands@, self.trick@.remaining())
    }

    /// The cards of the trick, in the order in which they came into it.
    pub open spec fn trick_cards(&self) -> Seq<Card> {
        self.trick@.plays.map_values(|p: WarPlay| p.card)
    }

    /// The hand with which seat `i` begins the rummy phase: its pile, the cards
    /// of its hand, and the cards that it has put into the open trick.
    pub open spec fn rummy_hand(&self, i: int) -> H::RummyHand {
        with_plays(self.hands@[i].merged(self.won@[i]), self.trick@.plays, i)
    }

    /// Whether the hands for the rummy phase can be made: no card would be held
    /// more often than a hand can hold it.
    pub open spec fn can_switch(&self) -> bool {
        forall|i: int|
            0 <= i < self.hands@.len() ==> (#[trigger] self.hands@[i]).can_merge(self.won@[i]) && admits_plays(
                self.hands@[i].merged(self.won@[i]),
                self.trick@.plays,
                i,
            )
    }

    /// The seat that begins the rummy phase: the one that led the open trick,
    /// or the one that would lead it.
    pub open spec fn rummy_leader(&self) -> PlayerIdx {
        if self.trick@.plays.len() > 0 {
            self.trick@.plays[0].player
        } else {
            match self.trick@.next_player() {
                Some(p) => p,
                None => self.trick@.players[0],
            }
        }
    }

    /// Whether the phase keeps what every war phase keeps.
    pub fn check(&self) -> (b: bool)
        ensures
            b == self.wf(),
    {
        let n: usize = self.hands.len();
        2 <= n && n <= 16 && self.won.len() == n && self.trick.check(n)
    }

    /// Seat `player`, whose turn it is, plays `card` from the hand.
    pub fn play_from_hand(&mut self, player: PlayerIdx, card: Card)
        requires
            old(self).wf(),
            player.0 < old(self).hands@.len(),
            old(self).hands@[player.0 as int].holds(card),
        ensures
            final(self).wf(),
            final(self).trick@ == old(self).trick@.play(WarPlayKind::PlayHand, card),
            final(self).hands@ == old(self).hands@.update(
                player.0 as int,
                old(self).hands@[player.0 as int].without_card(card),
            ),
            final(self).deck == old(self).deck,
            final(self).won == old(self).won,
            final(self).prev_trick == old(self).prev_trick,
    {
        proof {
            lemma_seated(self.trick@, self.hands@.len(), WarPlayKind::PlayHand, card, player);
        }
        self.trick.play(WarPlayKind::PlayHand, card);
        let mut hand: H = self.hands.remove(player.idx());
        hand.remove_card(card);
        self.hands.insert(player.idx(), hand);
        assert(self.hands@ =~= old(self).hands@.update(player.0 as int, old(self).hands@[player.0 as int].without_card(card)));
    }

    /// The seat whose turn it is plays `card`, the top of the deck.
    pub fn play_from_top(&mut self, card: Card)
        requires
            old(self).wf(),
        ensures
            final(self).wf(),
            final(self).trick@ == old(self).trick@.play(WarPlayKind::PlayTop, card),
            final(self).hands == old(self).hands,
            final(self).deck == old(self).deck,
            final(self).won == old(self).won,
            final(self).prev_trick == old(self).prev_trick,
    {
        proof {
            lemma_seated(self.trick@, self.hands@.len(), WarPlayKind::PlayTop, card, PlayerIdx(0));
        }
        self.trick.play(WarPlayKind::PlayTop, card);
    }

    /// Seat `player` discards `card` from the hand into the trick.
    pub fn slough(&mut self, player: PlayerIdx, card: Card)
        requires
            old(self).wf(),
            player.0 < old(self).hands@.len(),
            old(self).hands@[player.0 as int].holds(card),
        ensures
            final(self).wf(),
            final(self).trick@ == old(self).trick@.slough(player, card),
            final(self).hands@ == old(self).hands@.update(
                player.0 as int,
                old(self).hands@[player.0 as int].without_card(card),
            ),
            final(self).deck == old(self).deck,
            final(self).won == old(self).won,
            final(self).prev_trick == old(self).prev_trick,
    {
        proof {
            lemma_seated(self.trick@, self.hands@.len(), WarPlayKind::Slough, card, player);
        }
        self.trick.slough(player, card);
        let mut hand: H = self.hands.remove(player.idx());
        hand.remove_card(card);
        self.hands.insert(player.idx(), hand);
        assert(self.hands@ =~= old(self).hands@.update(player.0 as int, old(self).hands@[player.0 as int].without_card(card)));
    }

    /// Whether the phase is over.
    pub fn is_finished(&self) -> (b: bool)
        requires
            self.wf(),
        ensures
            b == self.finished(),
    {
        let left: usize = self.deck.cards_remaining();
        if left != 0 {
            return false;
        }
        let remaining: Vec<PlayerIdx> = self.trick.remaining_players();
        let mut i: usize = 0;
        while i < remaining.len()
            invariant
                i <= remaining@.len(),
                remaining@ == self.trick@.remaining(),
                self.wf(),
                self.deck.spec_remaining() == 0,
                forall|k: int|
                    0 <= k < i ==> !((#[trigger] remaining@[k]).0 < self.hands@.len() && self.hands@[remaining@[k].0 as int].spec_len()
                        == 0),
            decreases remaining.len() - i,
        {
            let p: PlayerIdx = remaining[i];
            if p.idx() < self.hands.len() && self.hands[p.idx()].is_empty() {
                assert(remaining@[i as int].0 < self.hands@.len() && self.hands@[remaining@[i as int].0 as int].spec_len() == 0);
                assert(some_empty(self.hands@, remaining@));
                assert(self.deck.spec_remaining() == 0);
                return true;
            }
            i = i + 1;
        }
        false
    }

    /// Seat `player` acknowledges the end of the trick. A trick that has no
    /// winner can be ended only when the phase is over. When all have
    /// acknowledged, the answer is `true`; and if the trick has a winner, its
    /// cards go to the winner's pile and the winner leads a new trick. Where
    /// the pile cannot take the cards, the action is refused.
    pub fn finish_trick(&mut self, player: PlayerIdx) -> (r: Result<bool, GoatError>)
        requires
            old(self).wf(),
            player.0 < 16,
        ensures
            final(self).wf(),
            final(self).deck == old(self).deck,
            final(self).hands == old(self).hands,
            r is Err ==> *final(self) == *old(self),
            r == old(self).finish_result(player),
            r is Ok ==> final(self).trick@ == old(self).trick_after_finish(player),
            r is Ok ==> final(self).won@ == old(self).won_after_finish(player),
            r is Ok ==> final(self).prev_trick.held() == old(self).prev_after_finish(player),
    {
        let winner: Option<PlayerIdx> = self.trick.winner();
        if winner.is_none() && !self.is_finished() {
            return Err(GoatError::CannotFinishSloughingIncompleteTrick);
        }
        let complete: bool = self.trick.end_mask() & !(1u16 << player.0) == 0;
        proof {
            lemma_seated(self.trick@, self.hands@.len(), WarPlayKind::Slough, Card::TwoClubs, player);
        }
        if complete {
            if let Some(w) = winner {
                let cards: Vec<Card> = self.trick.cards();
                let pile: Cards = self.won[w.idx()];
                if !can_add_all(pile, &cards) {
                    return Err(GoatError::InvalidAction);
                }
                let sum: Cards = add_all(pile, &cards);
                let num_players: usize = self.hands.len();
                proof {
                    lemma_init(w, num_players as nat);
                }
                let mut trick: WarTrick = WarTrick::new(w, num_players);
                core::mem::swap(&mut self.trick, &mut trick);
                trick.end(player);
                self.won.set(w.idx(), sum);
                self.prev_trick.set(trick);
                return Ok(true);
            }
        }
        self.trick.end(player);
        Ok(complete)
    }

    /// What `finish_trick` answers.
    pub open spec fn finish_result(&self, player: PlayerIdx) -> Result<bool, GoatError> {
        let winner = self.trick@.winner();
        let complete = self.trick@.end(player).end_mask == 0;
        if winner.is_none() && !self.finished() {
            Err(GoatError::CannotFinishSloughingIncompleteTrick)
        } else if complete && winner.is_some() && !fits_all(self.won@[winner.unwrap().0 as int], self.trick_cards()) {
            Err(GoatError::InvalidAction)
        } else {
            Ok(complete)
        }
    }

    /// Whether `finish_trick` completes a trick that has a winner.
    pub open spec fn finish_awards(&self, player: PlayerIdx) -> bool {
        self.trick@.end(player).end_mask == 0 && self.trick@.winner().is_some()
    }

    /// The trick after `finish_trick` has succeeded: a new trick that the winner
    /// leads where the old one was completed and had a winner, else the old
    /// trick with one more acknowledgement.
    pub open spec fn trick_after_finish(&self, player: PlayerIdx) -> WarTrickView {
        if self.finish_awards(player) {
            WarTrickView::init(self.trick@.winner().unwrap(), self.hands@.len())
        } else {
            self.trick@.end(player)
        }
    }

    /// The piles after `finish_trick` has succeeded: the cards of a completed
    /// trick lie on the pile of its winner.
    pub open spec fn won_after_finish(&self, player: PlayerIdx) -> Seq<Cards> {
        if self.finish_awards(player) {
            let w = self.trick@.winner().unwrap().0 as int;
            self.won@.update(w, plus_all(self.won@[w], self.trick_cards()))
        } else {
            self.won@
        }
    }

    /// What the place for the previous trick holds after `finish_trick` has
    /// succeeded.
    pub open spec fn prev_after_finish(&self, player: PlayerIdx) -> Option<WarTrickView> {
        if self.finish_awards(player) {
            if T::keeps() {
                Some(self.trick@.end(player))
            } else {
                None
            }
        } else {
            self.prev_trick.held()
        }
    }

    /// The rummy phase that follows: each seat holds its pile, its hand and what
    /// it has put into the open trick; the seat that led that trick begins.
    /// There is none where a hand cannot hold its cards.
    pub fn switch_to_rummy<Hist: RummyHistory>(&self, trump: Card) -> (r: Result<RummyPhase<H::RummyHand, Hist>, GoatError>)
        requires
            self.wf(),
        ensures
            match r {
                Ok(rummy) => {
                    &&& self.can_switch()
                    &&& rummy.wf()
                    &&& rummy.hands@.len() == self.hands@.len()
                    &&& forall|i: int| 0 <= i < self.hands@.len() ==> #[trigger] rummy.hands@[i] == self.rummy_hand(i)
                    &&& rummy.trump == trump
                    &&& rummy.pick_ups == 0
                    &&& rummy.trick@ == (crate::rummy_trick::RummyTrickView {
                        plays: Seq::empty(),
                        num_players: crate::rummy_phase::count_holding(rummy.hands@),
                    })
                    &&& rummy.next == self.rummy_leader()
                },
                Err(e) => e == GoatError::InvalidAction && !self.can_switch(),
            },
    {
        let plays: &[WarPlay] = self.trick.plays();
        let n: usize = self.hands.len();
        let mut hands: Vec<H::RummyHand> = Vec::new();
        let mut i: usize = 0;
        while i < n
            invariant
                i <= n,
                n == self.hands@.len(),
                self.wf(),
                plays@ == self.trick@.plays,
                hands@.len() == i,
                forall|k: int|
                    0 <= k < i ==> (#[trigger] self.hands@[k]).can_merge(self.won@[k]) && admits_plays(
                        self.hands@[k].merged(self.won@[k]),
                        self.trick@.plays,
                        k,
                    ),
                forall|k: int| 0 <= k < i ==> #[trigger] hands@[k] == self.rummy_hand(k),
            decreases n - i,
        {
            let pile: Cards = self.won[i];
            if !self.hands[i].can_merge_into(pile) {
                return Err(GoatError::InvalidAction);
            }
            let mut hand: H::RummyHand = self.hands[i].merge_into_rummy_hand(pile);
            let ghost start = hand;
            let mut j: usize = 0;
            assert(plays@.subrange(0, plays@.len() as int) =~= plays@);
            while j < plays.len()
                invariant
                    j <= plays@.len(),
                    i < n,
                    n == self.hands@.len(),
                    plays@ == self.trick@.plays,
                    self.hands@[i as int].can_merge(self.won@[i as int]),
                    start == self.hands@[i as int].merged(self.won@[i as int]),
                    admits_plays(start, plays@, i as int) == admits_plays(hand, plays@.subrange(j as int, plays@.len() as int), i as int),
                    admits_plays(start, plays@, i as int) ==> with_plays(start, plays@, i as int) == with_plays(
                        hand,
                        plays@.subrange(j as int, plays@.len() as int),
                        i as int,
                    ),
                decreases plays.len() - j,
            {
                let play: WarPlay = plays[j];
                proof {
                    let rest = plays@.subrange(j as int, plays@.len() as int);
                    assert(rest[0] == play);
                    assert(rest.drop_first() =~= plays@.subrange(j as int + 1, plays@.len() as int));
                }
                if play.player.idx() == i {
                    let one: Cards = Cards::from(play.card);
                    if !hand.can_add(one) {
                        assert(!admits_plays(self.hands@[i as int].merged(self.won@[i as int]), self.trick@.plays, i as int));
                        return Err(GoatError::InvalidAction);
                    }
                    hand.add_cards(one);
                }
                j = j + 1;
            }
            hands.push(hand);
            i = i + 1;
        }
        let next: PlayerIdx = if plays.len() > 0 {
            plays[0].player
        } else {
            match self.trick.next_player() {
                Some(p) => p,
                None => match self.trick.winner() {
                    Some(w) => w,
                    None => PlayerIdx(0),
                },
            }
        };
        assert(next.0 < n) by {
            if plays@.len() > 0 {
                assert(self.trick@.plays[0].player.0 < n);
            } else {
                assert(self.trick@.players[self.trick@.next as int].0 < n);
                assert(self.trick@.players[0].0 < n);
            }
        }
        Ok(RummyPhase::new(hands, next, trump))
    }
}

} // verus!
