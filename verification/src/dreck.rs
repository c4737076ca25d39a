//! The dreck: the twos, threes, fours and fives, and the six of trumps. When
//! the rummy phase begins and some hand holds fewer than six cards, all hands
//! give up their dreck, and it is dealt to the hands that were short.
use vstd::prelude::*;
use crate::card::Card;
use crate::cards::{add_all, can_add_all, fits_all, lemma_fits_single, lemma_named_sets, plus_all, Cards};
use crate::error::GoatError;
use crate::event::Event;
use crate::id::PlayerIdx;
use crate::lists::{dreck_order, seats, seats_new, seats_push, seats_slice, shuffle_dreck, SeatList};
use crate::rank::Rank;
use crate::rummy_phase::{count_holding, seek, RummyPhase};
use crate::rummy_trick::RummyTrickView;

verus! {

/// The cards that are dreck when `trump` is the trump.
pub open spec fn dreck_set(trump: Card) -> Cards {
    Cards::spec_common_dreck().plus(Cards::single(Card::spec_new(Rank::Six, trump.spec_suit())))
}

/// The seats whose hands hold fewer than six cards, in ascending order.
pub open spec fn takers(hands: Seq<Cards>) -> Seq<PlayerIdx>
    decreases hands.len(),
{
    if hands.len() == 0 {
        Seq::empty()
    } else if hands.last().spec_len() < 6 {
        takers(hands.drop_last()).push(PlayerIdx((hands.len() - 1) as u8))
    } else {
        takers(hands.drop_last())
    }
}

/// What each hand keeps when it gives up the cards of `set`.
pub open spec fn kept(hands: Seq<Cards>, set: Cards) -> Seq<Cards> {
    Seq::new(hands.len(), |i: int| hands[i].minus(hands[i].part(set)))
}

/// The events that tell of what each hand gives up, for the hands that give up
/// anything, in ascending order of the seats.
pub open spec fn offer_events(hands: Seq<Cards>, set: Cards) -> Seq<Event>
    decreases hands.len(),
{
    if hands.len() == 0 {
        Seq::empty()
    } else if hands.last().part(set) != Cards::spec_none() {
        offer_events(hands.drop_last(), set).push(
            Event::OfferDreck { player: PlayerIdx((hands.len() - 1) as u8), dreck: hands.last().part(set) },
        )
    } else {
        offer_events(hands.drop_last(), set)
    }
}

/// Whether what the hands give up can lie in one set.
pub open spec fn pot_fits(hands: Seq<Cards>, set: Cards) -> bool
    decreases hands.len(),
{
    if hands.len() == 0 {
        true
    } else {
        pot_fits(hands.drop_last(), set) && pot(hands.drop_last(), set).fits(hands.last().part(set))
    }
}

/// All that the hands give up.
pub open spec fn pot(hands: Seq<Cards>, set: Cards) -> Cards
    decreases hands.len(),
{
    if hands.len() == 0 {
        Cards::spec_none()
    } else {
        pot(hands.drop_last(), set).plus(hands.last().part(set))
    }
}

/// The number of cards that the first of `takers` seats gets of `cards` cards.
pub open spec fn share_len(cards: nat, takers: nat) -> nat {
    if takers == 0 {
        0
    } else {
        cards / takers
    }
}

/// Whether `cards` can be dealt to the seats of `order`: each seat in turn gets
/// its share off the front of the cards, and can hold it.
pub open spec fn deal_fits(hands: Seq<Cards>, order: Seq<PlayerIdx>, cards: Seq<Card>) -> bool
    decreases order.len(),
{
    if order.len() == 0 {
        true
    } else {
        let n = share_len(cards.len(), order.len()) as int;
        let share = cards.subrange(0, n);
        let p = order[0].0 as int;
        &&& p < hands.len()
        &&& fits_all(Cards::spec_none(), share)
        &&& hands[p].fits(plus_all(Cards::spec_none(), share))
        &&& deal_fits(
            hands.update(p, hands[p].plus(plus_all(Cards::spec_none(), share))),
            order.drop_first(),
            cards.subrange(n, cards.len() as int),
        )
    }
}

/// The hands after `cards` have been dealt to the seats of `order`.
pub open spec fn dealt(hands: Seq<Cards>, order: Seq<PlayerIdx>, cards: Seq<Card>) -> Seq<Cards>
    decreases order.len(),
{
    if order.len() == 0 {
        hands
    } else {
        let n = share_len(cards.len(), order.len()) as int;
        let share = cards.subrange(0, n);
        let p = order[0].0 as int;
        dealt(
            hands.update(p, hands[p].plus(plus_all(Cards::spec_none(), share))),
            order.drop_first(),
            cards.subrange(n, cards.len() as int),
        )
    }
}

/// The events that tell of what each seat of `order` gets of `cards`.
pub open spec fn deal_events(order: Seq<PlayerIdx>, cards: Seq<Card>) -> Seq<Event>
    decreases order.len(),
{
    if order.len() == 0 {
        Seq::empty()
    } else {
        let n = share_len(cards.len(), order.len()) as int;
        let share = cards.subrange(0, n);
        seq![Event::ReceiveDreck { player: order[0], dreck: plus_all(Cards::spec_none(), share) }] + deal_events(
            order.drop_first(),
            cards.subrange(n, cards.len() as int),
        )
    }
}

/// The six of trumps can be added to the common dreck.
pub proof fn lemma_dreck_set(trump: Card)
    ensures
        Cards::spec_common_dreck().fits(Cards::single(Card::spec_new(Rank::Six, trump.spec_suit()))),
{
    lemma_named_sets();
    let six = Card::spec_new(Rank::Six, trump.spec_suit());
    crate::card::lemma_card_new(Rank::Six, trump.spec_suit());
    lemma_fits_single(Cards::spec_common_dreck(), six);
}

/// The cards that are dreck when `trump` is the trump.
pub fn dreck_cards(trump: Card) -> (set: Cards)
    ensures
        set == dreck_set(trump),
{
    proof {
        lemma_dreck_set(trump);
        lemma_named_sets();
        crate::card::lemma_card_new(Rank::Six, trump.spec_suit());
    }
    Cards::common_dreck() + trump.with_rank(Rank::Six)
}

/// Deals `cards` to the seats of `order`: each seat in turn gets, off the front
/// of the cards, the cards that are left divided by the seats that are left.
/// The answer is the hands afterwards and the events that tell of it, or
/// nothing where a hand cannot hold its share.
pub fn deal_dreck(hands: &Vec<Cards>, order: &[PlayerIdx], cards: &Vec<Card>) -> (r: Option<(Vec<Cards>, Vec<Event>)>)
    ensures
        match r {
            Some((after, events)) => {
                &&& deal_fits(hands@, order@, cards@)
                &&& after@ == dealt(hands@, order@, cards@)
                &&& events@ == deal_events(order@, cards@)
                &&& after@.len() == hands@.len()
            },
            None => !deal_fits(hands@, order@, cards@),
        },
{
    let mut after: Vec<Cards> = hands.clone();
    let mut events: Vec<Event> = Vec::new();
    let mut k: usize = 0;
    let mut pos: usize = 0;
    proof {
        assert(order@.subrange(0, order@.len() as int) =~= order@);
        assert(cards@.subrange(0, cards@.len() as int) =~= cards@);
        assert(after@ =~= hands@);
    }
    while k < order.len()
        invariant
            k <= order@.len(),
            pos <= cards@.len(),
            after@.len() == hands@.len(),
            deal_fits(hands@, order@, cards@) == deal_fits(
                after@,
                order@.subrange(k as int, order@.len() as int),
                cards@.subrange(pos as int, cards@.len() as int),
            ),
            dealt(hands@, order@, cards@) == dealt(
                after@,
                order@.subrange(k as int, order@.len() as int),
                cards@.subrange(pos as int, cards@.len() as int),
            ),
            events@ + deal_events(
                order@.subrange(k as int, order@.len() as int),
                cards@.subrange(pos as int, cards@.len() as int),
            ) == deal_events(order@, cards@),
        decreases order.len() - k,
    {
        let left: usize = cards.len() - pos;
        let n: usize = left / (order.len() - k);
        let player: PlayerIdx = order[k];
        let ghost rest_order = order@.subrange(k as int, order@.len() as int);
        let ghost rest_cards = cards@.subrange(pos as int, cards@.len() as int);
        proof {
            assert(rest_order[0] == player);
            assert(rest_order.drop_first() =~= order@.subrange(k as int + 1, order@.len() as int));
            assert(rest_cards.subrange(n as int, rest_cards.len() as int) =~= cards@.subrange(
                (pos + n) as int,
                cards@.len() as int,
            ));
            assert(n <= left) by (nonlinear_arith)
                requires
                    n == left / ((order.len() - k) as usize),
                    order.len() - k >= 1,
            ;
        }
        let mut share: Vec<Card> = Vec::new();
        let mut j: usize = 0;
        while j < n
            invariant
                j <= n,
                pos + n <= cards.len(),
                share@ == cards@.subrange(pos as int, (pos + j) as int),
            decreases n - j,
        {
            share.push(cards[pos + j]);
            j = j + 1;
            assert(share@ =~= cards@.subrange(pos as int, (pos + j) as int));
        }
        assert(share@ =~= rest_cards.subrange(0, n as int));
        if player.idx() >= after.len() || !can_add_all(Cards::none(), &share) {
            return None;
        }
        let dreck: Cards = add_all(Cards::none(), &share);
        let hand: Cards = after[player.idx()];
        if !hand.can_add(dreck) {
            return None;
        }
        after.set(player.idx(), hand + dreck);
        let ghost before = events@;
        events.push(Event::ReceiveDreck { player, dreck });
        proof {
            assert(deal_events(rest_order, rest_cards) =~= seq![Event::ReceiveDreck { player, dreck }] + deal_events(
                rest_order.drop_first(),
                rest_cards.subrange(n as int, rest_cards.len() as int),
            ));
            assert(events@ + deal_events(
                order@.subrange(k as int + 1, order@.len() as int),
                cards@.subrange((pos + n) as int, cards@.len() as int),
            ) =~= before + deal_events(rest_order, rest_cards));
        }
        pos = pos + n;
        k = k + 1;
    }
    proof {
        assert(events@ + Seq::<Event>::empty() =~= events@);
    }
    Some((after, events))
}

impl RummyPhase<Cards, ()> {
    /// What `distribute_dreck` leaves where `cards`, a listing of all that the
    /// hands gave up, came back from the shuffle as `dealt_cards` for the seats
    /// `order`.
    pub open spec fn dreck_hands(&self, order: Seq<PlayerIdx>, dealt_cards: Seq<Card>) -> Seq<Cards> {
        let set = dreck_set(self.trump);
        let t = takers(self.hands@);
        if t.len() == 1 {
            kept(self.hands@, set).update(t[0].0 as int, kept(self.hands@, set)[t[0].0 as int].plus(pot(self.hands@, set)))
        } else {
            dealt(kept(self.hands@, set), order, dealt_cards)
        }
    }

    /// The events of `distribute_dreck`: what each hand gave up, then what each
    /// of the short hands got.
    pub open spec fn dreck_events(&self, order: Seq<PlayerIdx>, dealt_cards: Seq<Card>) -> Seq<Event> {
        let set = dreck_set(self.trump);
        let t = takers(self.hands@);
        if t.len() == 1 {
            offer_events(self.hands@, set).push(Event::ReceiveDreck { player: t[0], dreck: pot(self.hands@, set) })
        } else {
            offer_events(self.hands@, set) + deal_events(order, dealt_cards)
        }
    }

    /// Whether the dreck can be taken and dealt without a hand or the pot
    /// holding a card more than three times.
    pub open spec fn dreck_fits(&self, order: Seq<PlayerIdx>, dealt_cards: Seq<Card>) -> bool {
        let set = dreck_set(self.trump);
        let t = takers(self.hands@);
        &&& pot_fits(self.hands@, set)
        &&& if t.len() == 1 {
            kept(self.hands@, set)[t[0].0 as int].fits(pot(self.hands@, set))
        } else {
            deal_fits(kept(self.hands@, set), order, dealt_cards)
        }
    }

    /// Whether `after` and `after_events` are what `distribute_dreck` leaves of
    /// this phase and of `before_events` where `listing` lists all that the
    /// hands gave up, from the lowest card up: where several hands are short,
    /// the shuffle gives back the same seats and the same cards; it succeeded,
    /// as `ok` says, if and only if no set of cards had to hold a card more
    /// than three times, and then the hands hold what was dealt to them, the
    /// events tell of it, a new trick has begun and the turn is with a seat
    /// that holds cards.
    pub open spec fn dreck_done(
        &self,
        after: Self,
        before_events: Seq<Event>,
        after_events: Seq<Event>,
        ok: bool,
        seed: u64,
        listing: Seq<Card>,
    ) -> bool {
        let shuffled = dreck_order(takers(self.hands@), listing, seed ^ 1);
        &&& pot(self.hands@, dreck_set(self.trump)).is_listing(listing.reverse())
        &&& takers(self.hands@).len() != 1 ==> shuffled.0.to_multiset() == takers(self.hands@).to_multiset()
            && shuffled.1.to_multiset() == listing.to_multiset()
        &&& ok == self.dreck_fits(shuffled.0, shuffled.1)
        &&& ok ==> {
            &&& after.hands@ == self.dreck_hands(shuffled.0, shuffled.1)
            &&& after_events == before_events + self.dreck_events(shuffled.0, shuffled.1)
            &&& after.trick@ == (RummyTrickView { plays: Seq::empty(), num_players: count_holding(after.hands@) })
            &&& after.next.0 == seek(after.hands@, self.next.0 as int, self.hands@.len())
        }
    }

    /// The seats whose hands hold fewer than six cards.
    pub fn short_hands(&self) -> (list: SeatList)
        requires
            self.hands@.len() <= 16,
        ensures
            seats(list) == takers(self.hands@),
            forall|i: int| 0 <= i < seats(list).len() ==> (#[trigger] seats(list)[i]).0 < self.hands@.len(),
    {
        let mut list: SeatList = seats_new();
        let mut i: usize = 0;
        assert(self.hands@.subrange(0, 0) =~= Seq::<Cards>::empty());
        while i < self.hands.len()
            invariant
                i <= self.hands@.len() <= 16,
                seats(list) == takers(self.hands@.subrange(0, i as int)),
                forall|k: int| 0 <= k < seats(list).len() ==> (#[trigger] seats(list)[k]).0 < i,
            decreases self.hands.len() - i,
        {
            proof {
                let s = self.hands@.subrange(0, i as int + 1);
                assert(s.drop_last() =~= self.hands@.subrange(0, i as int));
                assert(s.last() == self.hands@[i as int]);
            }
            if self.hands[i].len() < 6 {
                let ghost before = seats(list);
                seats_push(&mut list, PlayerIdx(i as u8));
                assert forall|k: int| 0 <= k < seats(list).len() implies (#[trigger] seats(list)[k]).0 < i + 1 by {
                    if k < before.len() {
                        assert(seats(list)[k] == before[k]);
                    }
                }
            }
            i = i + 1;
        }
        assert(self.hands@.subrange(0, i as int) =~= self.hands@);
        list
    }

    /// Takes the dreck out of all hands and deals it to the hands that hold
    /// fewer than six cards, adding to `events` what each hand gave and got;
    /// then begins a new trick and passes the turn to a seat that holds cards.
    /// Nothing happens where no hand is short. One short hand gets all the
    /// dreck. Several get it dealt, seats and dreck shuffled by a generator
    /// made of `seed` with its lowest bit flipped. Where a set of cards would
    /// hold a card more than three times, nothing is changed and the answer is
    /// an error.
    pub fn distribute_dreck(&mut self, events: &mut Vec<Event>, seed: u64) -> (r: Result<(), GoatError>)
        requires
            old(self).wf(),
        ensures
            final(self).wf(),
            final(self).hands@.len() == old(self).hands@.len(),
            final(self).trump == old(self).trump,
            final(self).pick_ups == old(self).pick_ups,
            r is Err ==> *final(self) == *old(self) && final(events)@ == old(events)@ && r == Err::<(), GoatError>(
                GoatError::InvalidAction,
            ),
            takers(old(self).hands@).len() == 0 ==> r is Ok && *final(self) == *old(self) && final(events)@ == old(events)@,
            takers(old(self).hands@).len() > 0 && !pot_fits(old(self).hands@, dreck_set(old(self).trump)) ==> r is Err,
            takers(old(self).hands@).len() > 0 && pot_fits(old(self).hands@, dreck_set(old(self).trump)) ==> exists|listing: Seq<Card>| #[trigger]
                old(self).dreck_done(*final(self), old(events)@, final(events)@, r is Ok, seed, listing),
    {
        let mut order: SeatList = self.short_hands();
        if seats_slice(&order).len() == 0 {
            return Ok(());
        }
        let set: Cards = dreck_cards(self.trump);
        let n: usize = self.hands.len();
        let mut hands: Vec<Cards> = Vec::new();
        let mut offers: Vec<Event> = Vec::new();
        let mut all: Cards = Cards::none();
        let mut i: usize = 0;
        let mut fits: bool = true;
        proof {
            assert(self.hands@.subrange(0, 0) =~= Seq::<Cards>::empty());
        }
        while i < n && fits
            invariant
                i <= n,
                n == self.hands@.len(),
                n <= 16,
                set == dreck_set(self.trump),
                hands@.len() == i,
                forall|k: int| 0 <= k < i ==> #[trigger] hands@[k] == kept(self.hands@, set)[k],
                fits ==> offers@ == offer_events(self.hands@.subrange(0, i as int), set),
                fits ==> pot_fits(self.hands@.subrange(0, i as int), set),
                fits ==> all == pot(self.hands@.subrange(0, i as int), set),
                !fits ==> !pot_fits(self.hands@, set),
            decreases n - i + (if fits { 1int } else { 0int }),
        {
            proof {
                let s = self.hands@.subrange(0, i as int + 1);
                assert(s.drop_last() =~= self.hands@.subrange(0, i as int));
                assert(s.last() == self.hands@[i as int]);
            }
            let mut hand: Cards = self.hands[i];
            let dreck: Cards = hand.take_all(set);
            if !all.can_add(dreck) {
                proof {
                    lemma_pot_fits_prefix(self.hands@, set, i as int + 1);
                }
                fits = false;
            } else {
                if !dreck.is_empty() {
                    offers.push(Event::OfferDreck { player: PlayerIdx(i as u8), dreck });
                }
                all = all + dreck;
                hands.push(hand);
                i = i + 1;
            }
        }
        if !fits {
            return Err(GoatError::InvalidAction);
        }
        let listing: Vec<Card> = all.cards().collect_ascending();
        let ghost listed = listing@;
        let ghost old_order = seats(order);
        proof {
            assert(self.hands@.subrange(0, n as int) =~= self.hands@);
            assert(hands@ =~= kept(self.hands@, set));
        }
        let outcome: Option<(Vec<Cards>, Vec<Event>)> = if seats_slice(&order).len() == 1 {
            let player: PlayerIdx = seats_slice(&order)[0];
            let hand: Cards = hands[player.idx()];
            if hand.can_add(all) {
                let mut after: Vec<Cards> = hands;
                after.set(player.idx(), hand + all);
                let mut received: Vec<Event> = Vec::new();
                received.push(Event::ReceiveDreck { player, dreck: all });
                Some((after, received))
            } else {
                None
            }
        } else {
            let mut cards: Vec<Card> = listing;
            shuffle_dreck(&mut order, &mut cards, seed ^ 1);
            deal_dreck(&hands, seats_slice(&order), &cards)
        };
        let ghost shuffled = dreck_order(old_order, listed, seed ^ 1);
        match outcome {
            None => {
                let r: Result<(), GoatError> = Err(GoatError::InvalidAction);
                assert(!self.dreck_fits(shuffled.0, shuffled.1));
                assert(old(self).dreck_done(*self, old(events)@, events@, r is Ok, seed, listed));
                r
            },
            Some((after, received)) => {
                assert(self.dreck_fits(shuffled.0, shuffled.1));
                assert(after@ =~= self.dreck_hands(shuffled.0, shuffled.1));
                let mut k: usize = 0;
                let ghost start = events@;
                while k < offers.len()
                    invariant
                        k <= offers@.len(),
                        events@ == start + offers@.subrange(0, k as int),
                    decreases offers.len() - k,
                {
                    events.push(offers[k]);
                    k = k + 1;
                    assert(events@ =~= start + offers@.subrange(0, k as int));
                }
                let mut m: usize = 0;
                while m < received.len()
                    invariant
                        m <= received@.len(),
                        events@ == start + offers@ + received@.subrange(0, m as int),
                    decreases received.len() - m,
                {
                    events.push(received[m]);
                    m = m + 1;
                    assert(events@ =~= start + offers@ + received@.subrange(0, m as int));
                }
                proof {
                    assert(offers@.subrange(0, offers@.len() as int) =~= offers@);
                    assert(received@.subrange(0, received@.len() as int) =~= received@);
                    assert(events@ =~= start + (offers@ + received@));
                    assert(offers@ + received@ =~= self.dreck_events(shuffled.0, shuffled.1));
                }
                self.hands = after;
                self.reset_trick();
                self.advance_leader();
                let r: Result<(), GoatError> = Ok(());
                assert(old(self).dreck_done(*self, old(events)@, events@, r is Ok, seed, listed));
                r
            },
        }
    }
}

/// Where what the hands give up can lie in one set, so can what the first of
/// them give up.
pub proof fn lemma_pot_fits_prefix(hands: Seq<Cards>, set: Cards, n: int)
    requires
        0 <= n <= hands.len(),
    ensures
        pot_fits(hands, set) ==> pot_fits(hands.subrange(0, n), set),
    decreases hands.len(),
{
    if n < hands.len() {
        lemma_pot_fits_prefix(hands.drop_last(), set, n);
        assert(hands.drop_last().subrange(0, n) =~= hands.subrange(0, n));
    } else {
        assert(hands.subrange(0, n) =~= hands);
    }
}

} // verus!
