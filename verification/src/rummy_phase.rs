//! The rummy phase: the hands, the trick of runs that is being played, and the
//! trump. The last player who holds cards is the goat.
use vstd::prelude::*;
use crate::card::Card;
use crate::cards::Cards;
use crate::error::GoatError;
use crate::id::PlayerIdx;
use crate::rummy_hand::RummyHand;
use crate::rummy_history::RummyHistory;
use crate::rummy_trick::{RummyTrick, RummyTrickView};

verus! {

/// The rummy phase of a game.
#[derive(Debug)]
pub struct RummyPhase<H, Hist> {
    /// The hand of each seat.
    pub hands: Vec<H>,
    /// The trick that is being played.
    pub trick: RummyTrick,
    /// The seat whose turn it is.
    pub next: PlayerIdx,
    /// The trump.
    pub trump: Card,
    /// For each seat, in four bits, how often it has picked up since the last
    /// trick was filled; counted up to ten.
    pub pick_ups: u64,
    /// What the embedder keeps of the plays.
    pub history: Hist,
}

/// The number of hands that hold a card.
pub open spec fn count_holding<H: RummyHand>(hands: Seq<H>) -> nat
    decreases hands.len(),
{
    if hands.len() == 0 {
        0
    } else {
        count_holding(hands.drop_last()) + (if hands.last().spec_len() > 0 { 1nat } else { 0nat })
    }
}

/// The number of cards in all hands.
pub open spec fn total_len<H: RummyHand>(hands: Seq<H>) -> nat
    decreases hands.len(),
{
    if hands.len() == 0 {
        0
    } else {
        total_len(hands.drop_last()) + hands.last().spec_len()
    }
}

/// The first seat that holds a card, looking from seat `pos` on for `fuel`
/// seats and going round to seat 0 behind the last seat; the seat at which the
/// search stops where none of them holds a card.
pub open spec fn seek<H: RummyHand>(hands: Seq<H>, pos: int, fuel: nat) -> int
    decreases fuel,
{
    let p = if 0 <= pos < hands.len() { pos } else { 0 };
    if fuel == 0 || hands[p].spec_len() > 0 {
        p
    } else {
        seek(hands, p + 1, (fuel - 1) as nat)
    }
}

/// How often seat `seat` has picked up, as the packed counters say.
pub open spec fn pick_up_count(pick_ups: u64, seat: int) -> int {
    ((pick_ups >> ((4 * seat) as u64)) & 0xf) as int
}

/// The packed counters with that of `seat` raised by one, up to ten.
pub open spec fn raised(pick_ups: u64, seat: int) -> u64 {
    if pick_up_count(pick_ups, seat) < 10 {
        (pick_ups + (1u64 << ((4 * seat) as u64))) as u64
    } else {
        pick_ups
    }
}

/// Whether every seat that holds a card has picked up ten times.
pub open spec fn all_at_ten<H: RummyHand>(hands: Seq<H>, pick_ups: u64) -> bool {
    forall|i: int| 0 <= i < hands.len() && (#[trigger] hands[i]).spec_len() > 0 ==> pick_up_count(pick_ups, i) == 10
}

proof fn lemma_raise(x: u64, p: u64)
    by (bit_vector)
    requires
        p < 16,
        (x >> (4 * p) as u64) & 0xf < 15,
    ensures
        x + (1u64 << ((4 * p) as u64)) <= 0xffff_ffff_ffff_ffff,
{
}

/// The search for a seat that holds a card ends at a seat.
pub proof fn lemma_seek<H: RummyHand>(hands: Seq<H>, pos: int, fuel: nat)
    requires
        hands.len() > 0,
    ensures
        0 <= seek(hands, pos, fuel) < hands.len(),
    decreases fuel,
{
    let p = if 0 <= pos < hands.len() { pos } else { 0 };
    if !(fuel == 0 || hands[p].spec_len() > 0) {
        lemma_seek(hands, p + 1, (fuel - 1) as nat);
    }
}

/// The hands that hold a card are at most as many as the hands.
pub proof fn lemma_count_holding<H: RummyHand>(hands: Seq<H>)
    ensures
        count_holding(hands) <= hands.len(),
    decreases hands.len(),
{
    if hands.len() > 0 {
        lemma_count_holding(hands.drop_last());
    }
}

/// Where no hand before seat `n` holds a card, none of them counts.
pub proof fn lemma_none_holding<H: RummyHand>(hands: Seq<H>)
    requires
        forall|i: int| 0 <= i < hands.len() ==> (#[trigger] hands[i]).spec_len() == 0,
    ensures
        count_holding(hands) == 0,
    decreases hands.len(),
{
    if hands.len() > 0 {
        assert forall|i: int| 0 <= i < hands.drop_last().len() implies (#[trigger] hands.drop_last()[i]).spec_len() == 0 by {
            assert(hands.drop_last()[i] == hands[i]);
        }
        lemma_none_holding(hands.drop_last());
        assert(hands.last() == hands[hands.len() - 1]);
    }
}

/// One hand holds cards, and no other, exactly where the hands that hold cards
/// count one.
pub proof fn lemma_single_holder<H: RummyHand>(hands: Seq<H>)
    ensures
        count_holding(hands) == 1 <==> exists|i: int|
            0 <= i < hands.len() && (#[trigger] hands[i]).spec_len() > 0 && forall|j: int|
                0 <= j < hands.len() && j != i ==> (#[trigger] hands[j]).spec_len() == 0,
        count_holding(hands) == 0 <==> forall|j: int| 0 <= j < hands.len() ==> (#[trigger] hands[j]).spec_len() == 0,
    decreases hands.len(),
{
    if hands.len() > 0 {
        let rest = hands.drop_last();
        let n = hands.len() - 1;
        lemma_single_holder(rest);
        lemma_count_holding(rest);
        assert(hands.last() == hands[n]);
        assert forall|j: int| 0 <= j < rest.len() implies #[trigger] rest[j] == hands[j] by {}
        if count_holding(hands) == 0 {
            assert forall|j: int| 0 <= j < hands.len() implies (#[trigger] hands[j]).spec_len() == 0 by {
                if j < n {
                    assert(rest[j].spec_len() == 0);
                }
            }
        }
        if forall|j: int| 0 <= j < hands.len() ==> (#[trigger] hands[j]).spec_len() == 0 {
            lemma_none_holding(hands);
        }
        if count_holding(hands) == 1 {
            if hands[n].spec_len() > 0 {
                assert(count_holding(rest) == 0);
                assert forall|j: int| 0 <= j < hands.len() && j != n implies (#[trigger] hands[j]).spec_len() == 0 by {
                    assert(rest[j].spec_len() == 0);
                }
            } else {
                assert(count_holding(rest) == 1);
                let i = choose|i: int|
                    0 <= i < rest.len() && (#[trigger] rest[i]).spec_len() > 0 && forall|j: int|
                        0 <= j < rest.len() && j != i ==> (#[trigger] rest[j]).spec_len() == 0;
                assert(hands[i].spec_len() > 0);
                assert forall|j: int| 0 <= j < hands.len() && j != i implies (#[trigger] hands[j]).spec_len() == 0 by {
                    if j < n {
                        assert(rest[j].spec_len() == 0);
                    }
                }
            }
        }
        if exists|i: int|
            0 <= i < hands.len() && (#[trigger] hands[i]).spec_len() > 0 && forall|j: int|
                0 <= j < hands.len() && j != i ==> (#[trigger] hands[j]).spec_len() == 0 {
            let i = choose|i: int|
                0 <= i < hands.len() && (#[trigger] hands[i]).spec_len() > 0 && forall|j: int|
                    0 <= j < hands.len() && j != i ==> (#[trigger] hands[j]).spec_len() == 0;
            if i == n {
                assert forall|j: int| 0 <= j < rest.len() implies (#[trigger] rest[j]).spec_len() == 0 by {
                    assert(hands[j].spec_len() == 0);
                }
                lemma_none_holding(rest);
            } else {
                assert(rest[i].spec_len() > 0);
                assert forall|j: int| 0 <= j < rest.len() && j != i implies (#[trigger] rest[j]).spec_len() == 0 by {
                    assert(hands[j].spec_len() == 0);
                }
                assert(hands[n].spec_len() == 0);
            }
        }
    }
}

/// The search for a seat that holds a card finds one where, going round from
/// where it begins, one is within its reach.
pub proof fn lemma_seek_finds<H: RummyHand>(hands: Seq<H>, pos: int, fuel: nat, holder: int)
    requires
        0 <= holder < hands.len(),
        hands[holder].spec_len() > 0,
        ({
            let p = if 0 <= pos < hands.len() { pos } else { 0 };
            (if holder >= p { holder - p } else { holder + hands.len() - p }) <= fuel
        }),
    ensures
        hands[seek(hands, pos, fuel)].spec_len() > 0,
    decreases fuel,
{
    let p = if 0 <= pos < hands.len() { pos } else { 0 };
    if !(fuel == 0 || hands[p].spec_len() > 0) {
        lemma_seek_finds(hands, p + 1, (fuel - 1) as nat, holder);
    }
}

impl<H: RummyHand, Hist: RummyHistory> RummyPhase<H, Hist> {
    /// When a play has left cards in one hand alone, the phase is over, and the
    /// seat whose turn it then is holds that hand: it is the goat.
    pub proof fn lemma_last_holder(&self, lo: Card, hi: Card)
        requires
            self.wf(),
            count_holding(self.hands_after_play(lo, hi)) == 1,
        ensures
            0 <= self.next_after_play(lo, hi) < self.hands@.len(),
            self.hands_after_play(lo, hi)[self.next_after_play(lo, hi)].spec_len() > 0,
            forall|j: int|
                0 <= j < self.hands@.len() && j != self.next_after_play(lo, hi) ==> (#[trigger] self.hands_after_play(lo, hi)[j]).spec_len()
                    == 0,
    {
        let hands = self.hands_after_play(lo, hi);
        lemma_single_holder(hands);
        let i = choose|i: int|
            0 <= i < hands.len() && (#[trigger] hands[i]).spec_len() > 0 && forall|j: int|
                0 <= j < hands.len() && j != i ==> (#[trigger] hands[j]).spec_len() == 0;
        let from = if self.kills(lo, hi) { self.next.0 as int } else { self.next.0 + 1 };
        lemma_seek(hands, from, hands.len());
        lemma_seek_finds(hands, from, hands.len(), i);
        let found = seek(hands, from, hands.len());
        assert(found == i) by {
            if found != i {
                assert(hands[found].spec_len() == 0);
            }
        }
    }

    /// What the phase keeps: between one and sixteen seats, the turn with one
    /// of them, and a trick of runs.
    pub open spec fn wf(&self) -> bool {
        &&& 1 <= self.hands@.len() <= 16
        &&& self.next.0 < self.hands@.len()
        &&& self.trick.wf()
    }

    /// Whether the phase is over: one seat, and no more, holds cards.
    pub open spec fn finished(&self) -> bool {
        count_holding(self.hands@) == 1
    }

    /// What `play_run` answers.
    pub open spec fn play_result(&self, player: PlayerIdx, lo: Card, hi: Card) -> Result<(), GoatError> {
        if self.next != player {
            Err(GoatError::NotYourTurn { player })
        } else if !Cards::is_run(lo, hi) {
            Err(GoatError::InvalidRange { lo, hi })
        } else if self.hands@[player.0 as int].can_play(lo, hi) is Err {
            self.hands@[player.0 as int].can_play(lo, hi)
        } else if !self.trick@.can_play(lo, self.trump.spec_suit()) {
            Err(GoatError::CannotPlayRange { lo })
        } else {
            Ok(())
        }
    }

    /// The hands after the seat whose turn it is has played the run from `lo`
    /// to `hi`.
    pub open spec fn hands_after_play(&self, lo: Card, hi: Card) -> Seq<H> {
        self.hands@.update(
            self.next.0 as int,
            self.hands@[self.next.0 as int].without_cards(Cards::spec_range(lo, hi)),
        )
    }

    /// Whether the run from `lo` to `hi` fills the trick.
    pub open spec fn kills(&self, lo: Card, hi: Card) -> bool {
        self.trick@.play(lo, hi).killed()
    }

    /// The trick after the run from `lo` to `hi` has been played: a new one for
    /// those who still hold cards where the run filled it.
    pub open spec fn trick_after_play(&self, lo: Card, hi: Card) -> RummyTrickView {
        if self.kills(lo, hi) {
            RummyTrickView { plays: Seq::empty(), num_players: count_holding(self.hands_after_play(lo, hi)) }
        } else {
            self.trick@.play(lo, hi)
        }
    }

    /// The seat whose turn it is after the run from `lo` to `hi` has been
    /// played: who filled the trick leads the next, else the turn passes on;
    /// in both cases to the first seat from there that holds a card.
    pub open spec fn next_after_play(&self, lo: Card, hi: Card) -> int {
        let from = if self.kills(lo, hi) { self.next.0 as int } else { self.next.0 + 1 };
        seek(self.hands_after_play(lo, hi), from, self.hands@.len())
    }

    /// Whether `after` is the record after the run from `lo` to `hi` has been
    /// played: it was told of a run that filled the trick, of one that led it,
    /// or of another.
    pub open spec fn history_after_play(&self, after: Hist, lo: Card, hi: Card) -> bool {
        if self.kills(lo, hi) {
            self.history.killed(after, self.next, lo, hi)
        } else if self.trick@.plays.len() == 0 {
            self.history.led(after, self.next, lo, hi)
        } else {
            self.history.played(after, self.next, lo, hi)
        }
    }

    /// What `pick_up` answers: an error, or whether the game ends with this
    /// pick-up because every seat that holds cards has picked up ten times.
    pub open spec fn pick_up_result(&self, player: PlayerIdx) -> Result<bool, GoatError> {
        if self.next != player {
            Err(GoatError::NotYourTurn { player })
        } else if self.trick@.plays.len() == 0 {
            Err(GoatError::CannotPickUpFromEmptyTrick)
        } else if !self.hands@[player.0 as int].admits(self.picked()) {
            Err(GoatError::InvalidAction)
        } else {
            Ok(
                pick_up_count(self.pick_ups, player.0 as int) == 9 && all_at_ten(
                    self.hands_after_pick_up(),
                    raised(self.pick_ups, player.0 as int),
                ),
            )
        }
    }

    /// The cards that a pick-up takes from the trick.
    pub open spec fn picked(&self) -> Cards {
        Cards::spec_range(self.trick@.picked().0, self.trick@.picked().1)
    }

    /// The hands after the seat whose turn it is has picked up.
    pub open spec fn hands_after_pick_up(&self) -> Seq<H> {
        self.hands@.update(self.next.0 as int, self.hands@[self.next.0 as int].with_cards(self.picked()))
    }

    /// The trick after a pick-up: a new one where nothing is left of it.
    pub open spec fn trick_after_pick_up(&self) -> RummyTrickView {
        if self.trick@.after_pick_up().plays.len() == 0 {
            RummyTrickView { plays: Seq::empty(), num_players: count_holding(self.hands_after_pick_up()) }
        } else {
            self.trick@.after_pick_up()
        }
    }

    /// Whether the phase keeps what every rummy phase keeps.
    pub fn check(&self) -> (b: bool)
        ensures
            b == self.wf(),
    {
        let n: usize = self.hands.len();
        1 <= n && n <= 16 && self.next.idx() < n && self.trick.check()
    }

    /// A phase with the given hands, in which `next` begins.
    pub fn new(hands: Vec<H>, next: PlayerIdx, trump: Card) -> (r: Self)
        requires
            1 <= hands@.len() <= 16,
            next.0 < hands@.len(),
        ensures
            r.wf(),
            r.hands == hands,
            r.next == next,
            r.trump == trump,
            r.pick_ups == 0,
            r.trick@ == (RummyTrickView { plays: Seq::empty(), num_players: count_holding(hands@) }),
    {
        let num_players: usize = hands.len();
        let mut phase = RummyPhase {
            hands,
            trick: RummyTrick::new(0),
            next,
            trump,
            pick_ups: 0,
            history: Hist::new(num_players),
        };
        phase.reset_trick();
        phase
    }

    /// The number of hands that hold a card.
    pub fn holding(&self) -> (n: usize)
        ensures
            n == count_holding(self.hands@),
            n <= self.hands@.len(),
    {
        let mut n: usize = 0;
        let mut i: usize = 0;
        assert(self.hands@.subrange(0, 0) =~= Seq::<H>::empty());
        while i < self.hands.len()
            invariant
                i <= self.hands@.len(),
                n == count_holding(self.hands@.subrange(0, i as int)),
                n <= i,
            decreases self.hands.len() - i,
        {
            proof {
                let s = self.hands@.subrange(0, i as int + 1);
                assert(s.drop_last() =~= self.hands@.subrange(0, i as int));
                assert(s.last() == self.hands@[i as int]);
            }
            if !self.hands[i].is_empty() {
                n = n + 1;
            }
            i = i + 1;
        }
        assert(self.hands@.subrange(0, i as int) =~= self.hands@);
        n
    }

    /// The seat whose turn it is plays the run from `lo` to `hi`.
    pub fn play_run(&mut self, player: PlayerIdx, lo: Card, hi: Card) -> (r: Result<(), GoatError>)
        requires
            old(self).wf(),
        ensures
            final(self).wf(),
            r == old(self).play_result(player, lo, hi),
            r is Err ==> *final(self) == *old(self),
            r is Ok ==> {
                &&& final(self).hands@ == old(self).hands_after_play(lo, hi)
                &&& final(self).trick@ == old(self).trick_after_play(lo, hi)
                &&& final(self).next.0 == old(self).next_after_play(lo, hi)
                &&& final(self).pick_ups == (if old(self).kills(lo, hi) { 0 } else { old(self).pick_ups })
                &&& old(self).history_after_play(final(self).history, lo, hi)
                &&& final(self).trump == old(self).trump
            },
    {
        if self.next != player {
            return Err(GoatError::NotYourTurn { player });
        }
        if lo.suit() != hi.suit() || lo.rank().idx() > hi.rank().idx() {
            return Err(GoatError::InvalidRange { lo, hi });
        }
        match self.hands[player.idx()].check_can_play(lo, hi) {
            Err(e) => {
                return Err(e);
            },
            Ok(_) => {},
        }
        if !self.trick.can_play(lo, self.trump.suit()) {
            return Err(GoatError::CannotPlayRange { lo });
        }
        proof {
            self.hands@[player.0 as int].lemma_can_play_holds(lo, hi);
        }
        let was_empty: bool = self.trick.is_empty();
        let mut hand: H = self.hands.remove(player.idx());
        hand.remove_cards(Cards::range(lo, hi));
        self.hands.insert(player.idx(), hand);
        assert(self.hands@ =~= old(self).hands_after_play(lo, hi));
        let killed: bool = self.trick.play(lo, hi);
        if killed {
            self.history.kill(player, lo, hi);
            self.reset_trick();
            self.pick_ups = 0;
        } else {
            if was_empty {
                self.history.lead(player, lo, hi);
            } else {
                self.history.play(player, lo, hi);
            }
            self.next = PlayerIdx(self.next.0 + 1);
        }
        self.advance_leader();
        Ok(())
    }

    /// The seat whose turn it is takes the first connected run of the trick
    /// into the hand. The answer is whether the game ends with it, the seat
    /// being the goat: it has picked up ten times, and so has every other seat
    /// that holds cards.
    pub fn pick_up(&mut self, player: PlayerIdx) -> (r: Result<bool, GoatError>)
        requires
            old(self).wf(),
        ensures
            final(self).wf(),
            r == old(self).pick_up_result(player),
            r is Err ==> *final(self) == *old(self),
            r is Ok ==> {
                &&& final(self).hands@ == old(self).hands_after_pick_up()
                &&& final(self).trick@ == old(self).trick_after_pick_up()
                &&& final(self).next.0 == seek(old(self).hands_after_pick_up(), old(self).next.0 + 1, old(self).hands@.len())
                &&& final(self).pick_ups == raised(old(self).pick_ups, player.0 as int)
                &&& old(self).history.picked_up(final(self).history, player, old(self).trick@.picked().0, old(self).trick@.picked().1)
                &&& final(self).trump == old(self).trump
            },
    {
        if self.next != player {
            return Err(GoatError::NotYourTurn { player });
        }
        if self.trick.is_empty() {
            return Err(GoatError::CannotPickUpFromEmptyTrick);
        }
        let ((lo, hi), _) = self.trick.first_run();
        let run: Cards = Cards::range(lo, hi);
        if !self.hands[player.idx()].can_add(run) {
            return Err(GoatError::InvalidAction);
        }
        self.trick.pick_up();
        let mut hand: H = self.hands.remove(player.idx());
        hand.add_cards(run);
        self.hands.insert(player.idx(), hand);
        assert(self.hands@ =~= old(self).hands_after_pick_up());
        self.history.pick_up(player, lo, hi);
        if self.trick.is_empty() {
            self.reset_trick();
        }
        let complete: bool = self.increment_pick_ups(player);
        self.next = PlayerIdx(self.next.0 + 1);
        self.advance_leader();
        Ok(complete)
    }

    /// Whether the phase is over: one seat, and no more, holds cards.
    pub fn is_finished(&self) -> (b: bool)
        ensures
            b == self.finished(),
    {
        self.holding() == 1
    }

    /// Passes the turn on to the first seat that holds a card, from the seat
    /// whose turn it is and going round behind the last seat.
    pub fn advance_leader(&mut self)
        requires
            1 <= old(self).hands@.len() <= 16,
            old(self).next.0 <= old(self).hands@.len(),
        ensures
            final(self).next.0 == seek(old(self).hands@, old(self).next.0 as int, old(self).hands@.len()),
            final(self).next.0 < old(self).hands@.len(),
            final(self).hands == old(self).hands,
            final(self).trick == old(self).trick,
            final(self).trump == old(self).trump,
            final(self).pick_ups == old(self).pick_ups,
            final(self).history == old(self).history,
    {
        let n: usize = self.hands.len();
        let mut next: usize = self.next.idx();
        let mut fuel: usize = n;
        let mut done: bool = false;
        proof {
            lemma_seek(self.hands@, self.next.0 as int, n as nat);
        }
        while !done
            invariant
                n == self.hands@.len(),
                1 <= n <= 16,
                next <= n,
                fuel <= n,
                self.hands == old(self).hands,
                !done ==> seek(old(self).hands@, old(self).next.0 as int, n as nat) == seek(self.hands@, next as int, fuel as nat),
                done ==> next == seek(old(self).hands@, old(self).next.0 as int, n as nat),
            decreases fuel + (if done { 0int } else { 1int }),
        {
            if next == n {
                next = 0;
            }
            if fuel == 0 || !self.hands[next].is_empty() {
                done = true;
            } else {
                next = next + 1;
                fuel = fuel - 1;
            }
        }
        self.next = PlayerIdx(next as u8);
    }

    /// Whether all cards have come back to the hands after the dreck was dealt:
    /// with the trump, the hands then hold whole decks.
    pub fn finished_receiving_dreck(&self) -> (b: bool)
        ensures
            b == (total_len(self.hands@) % 52 == 51),
    {
        let mut sum: usize = 0;
        let mut i: usize = 0;
        assert(self.hands@.subrange(0, 0) =~= Seq::<H>::empty());
        while i < self.hands.len()
            invariant
                i <= self.hands@.len(),
                sum == total_len(self.hands@.subrange(0, i as int)) % 52,
            decreases self.hands.len() - i,
        {
            proof {
                let s = self.hands@.subrange(0, i as int + 1);
                assert(s.drop_last() =~= self.hands@.subrange(0, i as int));
                assert(s.last() == self.hands@[i as int]);
                vstd::arithmetic::div_mod::lemma_add_mod_noop(
                    total_len(s.drop_last()) as int,
                    self.hands@[i as int].spec_len() as int,
                    52,
                );
            }
            let len: usize = self.hands[i].len();
            sum = (sum + len % 52) % 52;
            i = i + 1;
        }
        assert(self.hands@.subrange(0, i as int) =~= self.hands@);
        sum == 51
    }

    /// Counts a pick-up of `player`, up to ten. The answer is whether it was
    /// the tenth and every seat that holds cards has picked up ten times.
    fn increment_pick_ups(&mut self, player: PlayerIdx) -> (complete: bool)
        requires
            player.0 < old(self).hands@.len() <= 16,
        ensures
            final(self).pick_ups == raised(old(self).pick_ups, player.0 as int),
            complete == (pick_up_count(old(self).pick_ups, player.0 as int) == 9 && all_at_ten(
                old(self).hands@,
                final(self).pick_ups,
            )),
            final(self).hands == old(self).hands,
            final(self).trick == old(self).trick,
            final(self).trump == old(self).trump,
            final(self).next == old(self).next,
            final(self).history == old(self).history,
    {
        let shift: u64 = 4 * (player.0 as u64);
        let count: u64 = (self.pick_ups >> shift) & 0xf;
        if count < 10 {
            proof {
                lemma_raise(self.pick_ups, player.0 as u64);
            }
            self.pick_ups = self.pick_ups + (1u64 << shift);
        }
        if count == 9 {
            let mut i: usize = 0;
            while i < self.hands.len()
                invariant
                    i <= self.hands@.len() <= 16,
                    self.pick_ups == raised(old(self).pick_ups, player.0 as int),
                    pick_up_count(old(self).pick_ups, player.0 as int) == 9,
                    self.hands == old(self).hands,
                    self.trick == old(self).trick,
                    self.trump == old(self).trump,
                    self.next == old(self).next,
                    self.history == old(self).history,
                    forall|k: int|
                        0 <= k < i && (#[trigger] self.hands@[k]).spec_len() > 0 ==> pick_up_count(self.pick_ups, k) == 10,
                decreases self.hands.len() - i,
            {
                let c: u64 = (self.pick_ups >> (4 * (i as u64))) & 0xf;
                if !self.hands[i].is_empty() && c != 10 {
                    assert(self.hands@[i as int].spec_len() > 0 && pick_up_count(self.pick_ups, i as int) != 10);
                    return false;
                }
                i = i + 1;
            }
            return true;
        }
        false
    }

    /// Begins a new trick for the seats that hold cards.
    pub fn reset_trick(&mut self)
        ensures
            final(self).trick@ == (RummyTrickView { plays: Seq::empty(), num_players: count_holding(old(self).hands@) }),
            final(self).trick.wf(),
            final(self).hands == old(self).hands,
            final(self).next == old(self).next,
            final(self).trump == old(self).trump,
            final(self).pick_ups == old(self).pick_ups,
            final(self).history == old(self).history,
    {
        let n: usize = self.holding();
        self.trick = RummyTrick::new(n);
    }
}

} // verus!
