//! The end of the war on a client: the acknowledgement that ends the war
//! adds to the log the reveal of the trump and what each hand gives and gets
//! of the dreck, and a client that is sent these events, each as its receiver
//! may see it, holds the rummy that the server holds once it has applied them
//! all.
use vstd::prelude::*;
use crate::action::Action;
use crate::card::Card;
use crate::cards::{
    lemma_cards_equal, lemma_includes_len, lemma_len_bound, lemma_minus, lemma_named_sets, lemma_part, lemma_plus, plus_all, Cards,
};
use crate::client_game::{ClientGame, ClientPhase, ClientWar};
use crate::dreck::{deal_events, deal_fits, dealt, dreck_set, kept, offer_events, pot, share_len, takers};
use crate::event::Event;
use crate::id::{PlayerIdx, UserId};
use crate::lists::dreck_order;
use crate::mirror::{
    lemma_same_count, lemma_same_seek, lemma_seen_lens, lemma_seen_with, lemma_seen_without, lemma_war_finish, mirrors, rummy_mirrors,
    rummy_seen, same_lens, sees, war_mirrors, war_seen,
};
use crate::prev_trick::PreviousTrick;
use crate::rummy_hand::{ClientRummyHand, RummyHand};
use crate::rummy_history::RummyHistory;
use crate::rummy_phase::{count_holding, seek, total_len};
use crate::rummy_trick::RummyTrickView;
use crate::server::redacted;
use crate::server_game::{ServerGame, ServerRummy, ServerWar};
use crate::tally::{all_wf, sound};
use crate::war_hand::{ClientWarHand, WarHand};
use crate::war_phase::{admits_plays, with_plays};
use crate::war_trick_play::WarPlay;

verus! {

/// Whether `states` are the games that a client holds while it is sent
/// `events` one by one: each game is what `apply` makes of the one before it
/// and the event, as far as `apply` accepts the event.
pub open spec fn chain<T: PreviousTrick, Hist: RummyHistory>(states: Seq<ClientGame<T, Hist>>, events: Seq<Event>) -> bool {
    &&& states.len() == events.len() + 1
    &&& forall|i: int|
        0 <= i < events.len() && (#[trigger] states[i]).apply_result(events[i]) is Ok ==> states[i].applied(events[i], states[i + 1])
}

/// Whether the game of a client is at rummy with these players, with what its
/// receiver may know of these hands, this trick and turn, this trump and
/// these pick-ups.
pub open spec fn at_rummy<T: PreviousTrick, Hist: RummyHistory>(
    game: ClientGame<T, Hist>,
    receiver: Option<PlayerIdx>,
    players: Seq<UserId>,
    hands: Seq<Cards>,
    trick: RummyTrickView,
    next: int,
    trump: Card,
    pick_ups: u64,
) -> bool {
    &&& game.players@ == players
    &&& game.phase matches ClientPhase::Rummy(c)
    &&& c.hands@.len() == hands.len()
    &&& forall|i: int| 0 <= i < hands.len() ==> rummy_seen(sees(receiver, i), #[trigger] hands[i], c.hands@[i])
    &&& c.trick@ == trick
    &&& c.next.0 == next
    &&& c.trump == trump
    &&& c.pick_ups == pick_ups
}

/// Hands that hold equally many cards hold equally many in all.
pub proof fn lemma_same_total<A: RummyHand, B: RummyHand>(a: Seq<A>, b: Seq<B>)
    requires
        same_lens(a, b),
    ensures
        total_len(a) == total_len(b),
    decreases a.len(),
{
    if a.len() > 0 {
        assert(same_lens(a.drop_last(), b.drop_last())) by {
            assert forall|i: int| 0 <= i < a.drop_last().len() implies (#[trigger] a.drop_last()[i]).spec_len() == b.drop_last()[i].spec_len() by {
                assert(a.drop_last()[i] == a[i]);
                assert(b.drop_last()[i] == b[i]);
            }
        }
        lemma_same_total(a.drop_last(), b.drop_last());
        assert(a.last() == a[a.len() - 1]);
        assert(b.last() == b[b.len() - 1]);
    }
}

/// What a client knows of a hand takes up the plays of its seat as the hand
/// does: the cards that it knows stay cards of the hand, and as many stay
/// unknown.
pub proof fn lemma_known_plays(hand: Cards, known: Cards, unknown: u8, plays: Seq<WarPlay>, seat: int)
    requires
        hand.wf(),
        known.wf(),
        hand.includes(known),
        admits_plays(hand, plays, seat),
    ensures
        admits_plays(ClientRummyHand { known, unknown }, plays, seat),
        with_plays(ClientRummyHand { known, unknown }, plays, seat) == (ClientRummyHand {
            known: with_plays(known, plays, seat),
            unknown,
        }),
        with_plays(known, plays, seat).wf(),
        with_plays(hand, plays, seat).wf(),
        with_plays(hand, plays, seat).includes(with_plays(known, plays, seat)),
        with_plays(hand, plays, seat).spec_len() + known.spec_len() == with_plays(known, plays, seat).spec_len() + hand.spec_len(),
    decreases plays.len(),
{
    if plays.len() > 0 {
        if plays[0].player.0 == seat {
            let one = Cards::single(plays[0].card);
            crate::cards::lemma_single_counts(plays[0].card);
            assert(known.fits(one));
            lemma_plus(hand, one);
            lemma_plus(known, one);
            assert((ClientRummyHand { known, unknown }).with_cards(one) == (ClientRummyHand { known: known.plus(one), unknown }));
            assert(hand.plus(one).includes(known.plus(one)));
            lemma_known_plays(hand.plus(one), known.plus(one), unknown, plays.drop_first(), seat);
        } else {
            lemma_known_plays(hand, known, unknown, plays.drop_first(), seat);
        }
    }
}

/// Where the client holds the war of the server and the server can make the
/// hands for the rummy, so can the client, and it then holds of each what its
/// receiver may know.
pub proof fn lemma_switch<T: PreviousTrick>(receiver: Option<PlayerIdx>, s: ServerWar, c: ClientWar<T>)
    requires
        war_mirrors(receiver, s, c),
        all_wf(s.won@),
        s.won@.len() == s.hands@.len(),
        s.can_switch(),
    ensures
        c.can_switch(),
        forall|i: int| 0 <= i < s.hands@.len() ==> rummy_seen(sees(receiver, i), #[trigger] s.rummy_hand(i), c.rummy_hand(i)),
        c.rummy_leader() == s.rummy_leader(),
{
    assert forall|i: int| 0 <= i < s.hands@.len() implies rummy_seen(sees(receiver, i), #[trigger] s.rummy_hand(i), c.rummy_hand(i))
        && c.hands@[i].can_merge(c.won@[i]) && admits_plays(c.hands@[i].merged(c.won@[i]), c.trick@.plays, i) by {
        let hand = s.hands@[i];
        let won = s.won@[i];
        assert(war_seen(sees(receiver, i), hand, c.hands@[i]));
        assert(hand.can_merge(won));
        assert(won.wf());
        crate::tally::lemma_plus_all(won, hand@);
        let all = plus_all(won, hand@);
        match c.hands@[i] {
            ClientWarHand::Visible(h) => {
                lemma_known_plays(all, all, 0, s.trick@.plays, i);
            },
            ClientWarHand::Hidden(n) => {
                lemma_known_plays(all, won, n, s.trick@.plays, i);
            },
        }
    }
    assert forall|i: int| 0 <= i < c.hands@.len() implies (#[trigger] c.hands@[i]).can_merge(c.won@[i]) && admits_plays(
        c.hands@[i].merged(c.won@[i]),
        c.trick@.plays,
        i,
    ) by {
        assert(rummy_seen(sees(receiver, i), s.rummy_hand(i), c.rummy_hand(i)));
    }
}

/// A client accepts the offer of the dreck of a hand, whole or as the number
/// of the cards, and then holds what its receiver may know of what the hand
/// keeps.
pub proof fn lemma_offer_step<T: PreviousTrick, Hist: RummyHistory>(
    game: ClientGame<T, Hist>,
    then: ClientGame<T, Hist>,
    receiver: Option<PlayerIdx>,
    players: Seq<UserId>,
    hands: Seq<Cards>,
    trick: RummyTrickView,
    next: int,
    trump: Card,
    pick_ups: u64,
    i: int,
)
    requires
        at_rummy(game, receiver, players, hands, trick, next, trump, pick_ups),
        all_wf(hands),
        0 <= i < hands.len() <= 256,
        ({
            let event = Event::OfferDreck { player: PlayerIdx(i as u8), dreck: hands[i].part(dreck_set(trump)) };
            game.apply_result(event.spec_redact(receiver)) is Ok ==> game.applied(event.spec_redact(receiver), then)
        }),
    ensures
        ({
            let dreck = hands[i].part(dreck_set(trump));
            let event = Event::OfferDreck { player: PlayerIdx(i as u8), dreck };
            &&& game.apply_result(event.spec_redact(receiver)) is Ok
            &&& at_rummy(then, receiver, players, hands.update(i, hands[i].minus(dreck)), trick, next, trump, pick_ups)
        }),
{
    let c = game.phase->Rummy_0;
    let set = dreck_set(trump);
    let hand = hands[i];
    let theirs = c.hands@[i];
    let dreck = hand.part(set);
    let event = Event::OfferDreck { player: PlayerIdx(i as u8), dreck };
    let shown = event.spec_redact(receiver);
    assert(rummy_seen(sees(receiver, i), hand, theirs));
    assert(hand.wf());
    lemma_part(hand, set);
    lemma_minus(hand, dreck);
    lemma_len_bound(dreck);
    let after = hands.update(i, hand.minus(dreck));
    if sees(receiver, i) {
        assert(shown == event);
        lemma_seen_without(true, hand, theirs, dreck);
        assert(ClientGame::<T, Hist>::dreck_result(c, shown) is Ok);
        let c2 = then.phase->Rummy_0;
        assert(ClientGame::<T, Hist>::dreck_applied(c, shown, c2));
        assert forall|j: int| 0 <= j < after.len() implies rummy_seen(sees(receiver, j), #[trigger] after[j], c2.hands@[j]) by {
            if j != i {
                assert(rummy_seen(sees(receiver, j), hands[j], c.hands@[j]));
            }
        }
    } else {
        let count = dreck.spec_len() as u8;
        assert(shown == Event::RedactedOfferDreck { player: PlayerIdx(i as u8), dreck: count });
        let known = theirs.known;
        let shed = known.part(set);
        lemma_part(known, set);
        assert(dreck.includes(shed));
        lemma_minus(dreck, shed);
        lemma_minus(hand, known);
        assert(hand.minus(known).includes(dreck.minus(shed)));
        lemma_includes_len(hand.minus(known), dreck.minus(shed));
        lemma_minus(known, shed);
        assert(hand.minus(dreck).includes(known.minus(shed)));
        assert(ClientGame::<T, Hist>::dreck_result(c, shown) is Ok);
        let c2 = then.phase->Rummy_0;
        assert(ClientGame::<T, Hist>::dreck_applied(c, shown, c2));
        if count == 0 {
            crate::cards::lemma_empty(dreck);
            lemma_minus_none(hand);
        }
        assert forall|j: int| 0 <= j < after.len() implies rummy_seen(sees(receiver, j), #[trigger] after[j], c2.hands@[j]) by {
            if j != i {
                assert(rummy_seen(sees(receiver, j), hands[j], c.hands@[j]));
            }
        }
    }
}

/// A client accepts the receipt of dreck by a hand that can hold it, whole or
/// as the number of the cards, and then holds what its receiver may know of
/// the larger hand; when the hands then hold a card less than whole decks, a
/// new trick begins and the turn goes to a seat that holds cards.
pub proof fn lemma_receive_step<T: PreviousTrick, Hist: RummyHistory>(
    game: ClientGame<T, Hist>,
    then: ClientGame<T, Hist>,
    receiver: Option<PlayerIdx>,
    players: Seq<UserId>,
    hands: Seq<Cards>,
    trick: RummyTrickView,
    next: int,
    trump: Card,
    pick_ups: u64,
    i: int,
    share: Cards,
)
    requires
        at_rummy(game, receiver, players, hands, trick, next, trump, pick_ups),
        all_wf(hands),
        0 <= i < hands.len() <= 256,
        share.wf(),
        hands[i].fits(share),
        ({
            let event = Event::ReceiveDreck { player: PlayerIdx(i as u8), dreck: share };
            game.apply_result(event.spec_redact(receiver)) is Ok ==> game.applied(event.spec_redact(receiver), then)
        }),
    ensures
        game.apply_result((Event::ReceiveDreck { player: PlayerIdx(i as u8), dreck: share }).spec_redact(receiver)) is Ok,
        ({
            let after = hands.update(i, hands[i].plus(share));
            if total_len(after) % 52 == 51 {
                at_rummy(then, receiver, players, after, fresh(after), seek(after, next, hands.len()), trump, pick_ups)
            } else {
                at_rummy(then, receiver, players, after, trick, next, trump, pick_ups)
            }
        }),
{
    let c = game.phase->Rummy_0;
    let hand = hands[i];
    let held = c.hands@[i];
    let event = Event::ReceiveDreck { player: PlayerIdx(i as u8), dreck: share };
    let shown = event.spec_redact(receiver);
    assert(rummy_seen(sees(receiver, i), hand, held));
    assert(hand.wf());
    lemma_plus(hand, share);
    lemma_len_bound(hand.plus(share));
    lemma_len_bound(share);
    if sees(receiver, i) {
        assert(shown == event);
        lemma_seen_with(true, hand, held, share);
    } else {
        assert(shown == Event::RedactedReceiveDreck { player: PlayerIdx(i as u8), dreck: share.spec_len() as u8 });
    }
    assert(ClientGame::<T, Hist>::dreck_result(c, shown) is Ok);
    let c2 = then.phase->Rummy_0;
    assert(ClientGame::<T, Hist>::dreck_applied(c, shown, c2));
    let after = hands.update(i, hand.plus(share));
    let theirs = c.hands@.update(i, ClientGame::<T, Hist>::dreck_hand(c, shown));
    assert forall|j: int| 0 <= j < after.len() implies rummy_seen(sees(receiver, j), #[trigger] after[j], theirs[j]) && after[j].wf() by {
        if j != i {
            assert(rummy_seen(sees(receiver, j), hands[j], c.hands@[j]));
            assert(hands[j].wf());
        }
    }
    lemma_seen_lens(receiver, after, theirs);
    lemma_same_total(after, theirs);
    lemma_same_count(after, theirs);
    lemma_same_seek(after, theirs, next, hands.len());
}

/// The hands of which the first `k` have given up the cards of `set`.
pub open spec fn offered(hands: Seq<Cards>, set: Cards, k: int) -> Seq<Cards> {
    Seq::new(hands.len(), |i: int| if i < k { hands[i].minus(hands[i].part(set)) } else { hands[i] })
}

/// A set from which nothing is taken stays as it is.
pub proof fn lemma_minus_none(a: Cards)
    requires
        a.wf(),
    ensures
        a.minus(Cards::spec_none()) == a,
{
    lemma_named_sets();
    lemma_minus(a, Cards::spec_none());
    lemma_cards_equal(a.minus(Cards::spec_none()), a);
}

/// The offers of the first hands are the first of the offers of all hands.
pub proof fn lemma_offer_prefix(hands: Seq<Cards>, set: Cards, k: int)
    requires
        0 <= k <= hands.len(),
    ensures
        offer_events(hands.subrange(0, k), set).len() <= offer_events(hands, set).len(),
        forall|j: int|
            0 <= j < offer_events(hands.subrange(0, k), set).len() ==> #[trigger] offer_events(hands.subrange(0, k), set)[j]
                == offer_events(hands, set)[j],
    decreases hands.len() - k,
{
    if k == hands.len() {
        assert(hands.subrange(0, k) =~= hands);
    } else {
        lemma_offer_prefix(hands, set, k + 1);
        assert(hands.subrange(0, k + 1).drop_last() =~= hands.subrange(0, k));
        let a = offer_events(hands.subrange(0, k), set);
        let b = offer_events(hands.subrange(0, k + 1), set);
        assert forall|j: int| 0 <= j < a.len() implies #[trigger] a[j] == offer_events(hands, set)[j] by {
            assert(a[j] == b[j]);
        }
    }
}

/// A client accepts the offers of the dreck of the first `k` hands one by
/// one, and then holds what its receiver may know of what these hands keep.
#[verifier::rlimit(40)]
pub proof fn lemma_replay_offers<T: PreviousTrick, Hist: RummyHistory>(
    states: Seq<ClientGame<T, Hist>>,
    events: Seq<Event>,
    receiver: Option<PlayerIdx>,
    base: int,
    players: Seq<UserId>,
    hands: Seq<Cards>,
    trick: RummyTrickView,
    next: int,
    trump: Card,
    pick_ups: u64,
    k: int,
)
    requires
        chain(states, events),
        all_wf(hands),
        0 <= k <= hands.len() <= 256,
        0 <= base,
        base + offer_events(hands, dreck_set(trump)).len() <= events.len(),
        forall|j: int|
            0 <= j < offer_events(hands, dreck_set(trump)).len() ==> events[base + j] == (#[trigger] offer_events(
                hands,
                dreck_set(trump),
            )[j]).spec_redact(receiver),
        at_rummy(states[base], receiver, players, hands, trick, next, trump, pick_ups),
    ensures
        offer_events(hands.subrange(0, k), dreck_set(trump)).len() <= offer_events(hands, dreck_set(trump)).len(),
        forall|j: int|
            base <= j < base + offer_events(hands.subrange(0, k), dreck_set(trump)).len() ==> (#[trigger] states[j]).apply_result(
                events[j],
            ) is Ok,
        at_rummy(
            states[base + offer_events(hands.subrange(0, k), dreck_set(trump)).len()],
            receiver,
            players,
            offered(hands, dreck_set(trump), k),
            trick,
            next,
            trump,
            pick_ups,
        ),
    decreases k,
{
    let set = dreck_set(trump);
    lemma_offer_prefix(hands, set, k);
    if k == 0 {
        assert(hands.subrange(0, 0) =~= Seq::<Cards>::empty());
        assert(offered(hands, set, 0) =~= hands);
    } else {
        lemma_replay_offers(states, events, receiver, base, players, hands, trick, next, trump, pick_ups, k - 1);
        lemma_offer_prefix(hands, set, k - 1);
        let before = offer_events(hands.subrange(0, k - 1), set);
        let now = offer_events(hands.subrange(0, k), set);
        assert(hands.subrange(0, k).drop_last() =~= hands.subrange(0, k - 1));
        assert(hands.subrange(0, k).last() == hands[k - 1]);
        let hand = hands[k - 1];
        let m = before.len() as int;
        let so_far = offered(hands, set, k - 1);
        assert(hand.wf());
        assert(so_far[k - 1] == hand);
        assert forall|i: int| 0 <= i < so_far.len() implies (#[trigger] so_far[i]).wf() by {
            assert(hands[i].wf());
            lemma_part(hands[i], set);
            lemma_minus(hands[i], hands[i].part(set));
        }
        if hand.part(set) != Cards::spec_none() {
            let event = Event::OfferDreck { player: PlayerIdx((k - 1) as u8), dreck: hand.part(set) };
            assert(now == before.push(event));
            assert(now[m] == event);
            assert(offer_events(hands, set)[m] == event);
            assert(events[base + m] == event.spec_redact(receiver));
            lemma_offer_step(states[base + m], states[base + m + 1], receiver, players, so_far, trick, next, trump, pick_ups, k - 1);
            assert(so_far.update(k - 1, hand.minus(hand.part(set))) =~= offered(hands, set, k));
            assert forall|j: int| base <= j < base + now.len() implies (#[trigger] states[j]).apply_result(events[j]) is Ok by {
                if j == base + m {
                } else {
                    assert(j < base + before.len());
                }
            }
        } else {
            lemma_minus_none(hand);
            assert(offered(hands, set, k) =~= so_far);
        }
    }
}

/// A set to which nothing is added stays as it is.
pub proof fn lemma_plus_none(a: Cards)
    requires
        a.wf(),
    ensures
        a.fits(Cards::spec_none()),
        a.plus(Cards::spec_none()) == a,
{
    lemma_named_sets();
    assert(a.fits(Cards::spec_none())) by {
        assert forall|c: Card| a.count(c) + Cards::spec_none().count(c) <= 3 by {
            crate::cards::lemma_count_bound(a, c);
        }
    }
    lemma_plus(a, Cards::spec_none());
    lemma_cards_equal(a.plus(Cards::spec_none()), a);
}

/// Where the hands hold cards at all, one of them does.
pub proof fn lemma_total_holder<H: RummyHand>(hands: Seq<H>)
    requires
        total_len(hands) > 0,
    ensures
        exists|i: int| 0 <= i < hands.len() && (#[trigger] hands[i]).spec_len() > 0,
    decreases hands.len(),
{
    if hands.len() > 0 {
        if hands.last().spec_len() > 0 {
            assert(hands[hands.len() - 1].spec_len() > 0);
        } else {
            lemma_total_holder(hands.drop_last());
            let i = choose|i: int| 0 <= i < hands.drop_last().len() && (#[trigger] hands.drop_last()[i]).spec_len() > 0;
            assert(hands[i].spec_len() > 0);
        }
    }
}

/// Where the hands hold cards at all, the search for a seat that holds cards
/// finds one, and a second search from there stays there.
pub proof fn lemma_seek_again<H: RummyHand>(hands: Seq<H>, pos: int)
    requires
        total_len(hands) > 0,
    ensures
        0 <= seek(hands, pos, hands.len()) < hands.len(),
        hands[seek(hands, pos, hands.len())].spec_len() > 0,
        seek(hands, seek(hands, pos, hands.len()), hands.len()) == seek(hands, pos, hands.len()),
{
    lemma_total_holder(hands);
    let i = choose|i: int| 0 <= i < hands.len() && (#[trigger] hands[i]).spec_len() > 0;
    crate::rummy_phase::lemma_seek(hands, pos, hands.len());
    crate::rummy_phase::lemma_seek_finds(hands, pos, hands.len(), i);
}

/// The trick with which a rummy begins among `hands`.
pub open spec fn fresh(hands: Seq<Cards>) -> RummyTrickView {
    RummyTrickView { plays: Seq::empty(), num_players: count_holding(hands) }
}

/// A client accepts the receipts of the dreck that is dealt to the seats of
/// `order` one by one, and then holds what its receiver may know of what the
/// hands hold. When the last card has been dealt, it begins a new trick and
/// gives the turn to a seat that holds cards, as the server does.
#[verifier::rlimit(40)]
pub proof fn lemma_replay_deal<T: PreviousTrick, Hist: RummyHistory>(
    states: Seq<ClientGame<T, Hist>>,
    events: Seq<Event>,
    receiver: Option<PlayerIdx>,
    base: int,
    players: Seq<UserId>,
    hands: Seq<Cards>,
    order: Seq<PlayerIdx>,
    cards: Seq<Card>,
    trick: RummyTrickView,
    next: int,
    trump: Card,
    pick_ups: u64,
    begun: bool,
)
    requires
        chain(states, events),
        all_wf(hands),
        1 <= hands.len() <= 16,
        0 <= base,
        base + deal_events(order, cards).len() == events.len(),
        forall|j: int|
            0 <= j < deal_events(order, cards).len() ==> events[base + j] == (#[trigger] deal_events(order, cards)[j]).spec_redact(
                receiver,
            ),
        deal_fits(hands, order, cards),
        (total_len(hands) + cards.len()) % 52 == 51,
        cards.len() <= 51,
        if begun && cards.len() == 0 {
            at_rummy(states[base], receiver, players, hands, fresh(hands), seek(hands, next, hands.len()), trump, pick_ups)
        } else {
            at_rummy(states[base], receiver, players, hands, trick, next, trump, pick_ups)
        },
    ensures
        forall|j: int| base <= j < events.len() ==> (#[trigger] states[j]).apply_result(events[j]) is Ok,
        ({
            let after = dealt(hands, order, cards);
            if order.len() > 0 || (begun && cards.len() == 0) {
                at_rummy(states.last(), receiver, players, after, fresh(after), seek(after, next, hands.len()), trump, pick_ups)
            } else {
                at_rummy(states.last(), receiver, players, after, trick, next, trump, pick_ups)
            }
        }),
    decreases order.len(),
{
    if order.len() == 0 {
        assert(deal_events(order, cards).len() == 0);
        assert(states.last() == states[base]);
    } else {
        let n = share_len(cards.len(), order.len()) as int;
        assert(0 <= n <= cards.len() && (order.len() == 1 ==> n == cards.len()) && (cards.len() == 0 ==> n == 0)) by (nonlinear_arith)
            requires
                n == cards.len() / order.len(),
                order.len() >= 1,
        ;
        let share = cards.subrange(0, n);
        let rest = cards.subrange(n, cards.len() as int);
        let p = order[0].0 as int;
        let set = plus_all(Cards::spec_none(), share);
        let event = Event::ReceiveDreck { player: order[0], dreck: set };
        let tail = deal_events(order.drop_first(), rest);
        assert(deal_events(order, cards) == seq![event] + tail);
        assert(deal_events(order, cards)[0] == event);
        assert(events[base + 0] == event.spec_redact(receiver));
        lemma_named_sets();
        crate::cards::lemma_empty(Cards::spec_none());
        crate::tally::lemma_plus_all(Cards::spec_none(), share);
        assert(hands[p].wf());
        lemma_plus(hands[p], set);
        let after = hands.update(p, hands[p].plus(set));
        crate::tally::lemma_total_update(hands, p, hands[p].plus(set));
        assert(total_len(after) + rest.len() == total_len(hands) + cards.len());
        assert forall|i: int| 0 <= i < after.len() implies (#[trigger] after[i]).wf() by {
            if i != p {
                assert(after[i] == hands[i]);
            }
        }
        assert(order[0] == PlayerIdx(p as u8));
        if begun && cards.len() == 0 {
            lemma_plus_none(hands[p]);
            assert(share =~= Seq::<Card>::empty());
            assert(after =~= hands);
            lemma_seek_again(hands, next);
            lemma_receive_step(
                states[base],
                states[base + 1],
                receiver,
                players,
                hands,
                fresh(hands),
                seek(hands, next, hands.len()),
                trump,
                pick_ups,
                p,
                set,
            );
        } else {
            lemma_receive_step(states[base], states[base + 1], receiver, players, hands, trick, next, trump, pick_ups, p, set);
        }
        assert forall|j: int| 0 <= j < tail.len() implies events[base + 1 + j] == (#[trigger] tail[j]).spec_redact(receiver) by {
            assert(deal_events(order, cards)[j + 1] == tail[j]);
        }
        lemma_replay_deal(
            states,
            events,
            receiver,
            base + 1,
            players,
            after,
            order.drop_first(),
            rest,
            trick,
            next,
            trump,
            pick_ups,
            true,
        );
        assert forall|j: int| base <= j < events.len() implies (#[trigger] states[j]).apply_result(events[j]) is Ok by {
            if j > base {
                assert(base + 1 <= j);
            }
        }
    }
}

/// A client accepts the receipt of all the dreck by the one hand that takes
/// it, and then begins a new trick and gives the turn to a seat that holds
/// cards.
pub proof fn lemma_replay_single<T: PreviousTrick, Hist: RummyHistory>(
    states: Seq<ClientGame<T, Hist>>,
    events: Seq<Event>,
    receiver: Option<PlayerIdx>,
    at: int,
    players: Seq<UserId>,
    hands: Seq<Cards>,
    i: int,
    share: Cards,
    trick: RummyTrickView,
    next: int,
    trump: Card,
    pick_ups: u64,
)
    requires
        chain(states, events),
        all_wf(hands),
        0 <= i < hands.len() <= 16,
        share.wf(),
        hands[i].fits(share),
        (total_len(hands) + share.spec_len()) % 52 == 51,
        0 <= at,
        at + 1 == events.len(),
        events[at] == (Event::ReceiveDreck { player: PlayerIdx(i as u8), dreck: share }).spec_redact(receiver),
        at_rummy(states[at], receiver, players, hands, trick, next, trump, pick_ups),
    ensures
        states[at].apply_result(events[at]) is Ok,
        ({
            let after = hands.update(i, hands[i].plus(share));
            at_rummy(states.last(), receiver, players, after, fresh(after), seek(after, next, hands.len()), trump, pick_ups)
        }),
{
    lemma_receive_step(states[at], states[at + 1], receiver, players, hands, trick, next, trump, pick_ups, i, share);
    assert(hands[i].wf());
    lemma_plus(hands[i], share);
    crate::tally::lemma_total_update(hands, i, hands[i].plus(share));
    assert(states.last() == states[at + 1]);
}

/// A client accepts one by one the events of the dreck that is taken and
/// dealt, and then holds what its receiver may know of the hands that the
/// server holds, with a new trick and the turn where the server has it.
#[verifier::rlimit(40)]
pub proof fn lemma_replay_dreck<T: PreviousTrick, Hist: RummyHistory>(
    states: Seq<ClientGame<T, Hist>>,
    events: Seq<Event>,
    receiver: Option<PlayerIdx>,
    base: int,
    players: Seq<UserId>,
    rm: ServerRummy,
    order: Seq<PlayerIdx>,
    cards: Seq<Card>,
)
    requires
        chain(states, events),
        all_wf(rm.hands@),
        1 <= rm.hands@.len() <= 16,
        total_len(rm.hands@) % 52 == 51,
        takers(rm.hands@).len() > 0,
        rm.dreck_fits(order, cards),
        takers(rm.hands@).len() != 1 ==> order.len() > 0 && cards.len() == pot(rm.hands@, dreck_set(rm.trump)).spec_len(),
        0 <= base,
        base + rm.dreck_events(order, cards).len() == events.len(),
        forall|j: int|
            0 <= j < rm.dreck_events(order, cards).len() ==> events[base + j] == (#[trigger] rm.dreck_events(order, cards)[j]).spec_redact(
                receiver,
            ),
        at_rummy(states[base], receiver, players, rm.hands@, rm.trick@, rm.next.0 as int, rm.trump, rm.pick_ups),
    ensures
        forall|j: int| base <= j < events.len() ==> (#[trigger] states[j]).apply_result(events[j]) is Ok,
        ({
            let after = rm.dreck_hands(order, cards);
            at_rummy(
                states.last(),
                receiver,
                players,
                after,
                fresh(after),
                seek(after, rm.next.0 as int, rm.hands@.len()),
                rm.trump,
                rm.pick_ups,
            )
        }),
{
    let hands = rm.hands@;
    let set = dreck_set(rm.trump);
    let t = takers(hands);
    let offers = offer_events(hands, set);
    let all = rm.dreck_events(order, cards);
    let m = offers.len() as int;
    let k = kept(hands, set);
    let next = rm.next.0 as int;
    assert forall|j: int| 0 <= j < offers.len() implies events[base + j] == (#[trigger] offers[j]).spec_redact(receiver) by {
        assert(all[j] == offers[j]);
    }
    lemma_replay_offers(states, events, receiver, base, players, hands, rm.trick@, next, rm.trump, rm.pick_ups, hands.len() as int);
    assert(hands.subrange(0, hands.len() as int) =~= hands);
    assert(offered(hands, set, hands.len() as int) =~= k);
    assert(at_rummy(states[base + m], receiver, players, k, rm.trick@, next, rm.trump, rm.pick_ups));
    crate::tally::lemma_pot(hands, set);
    crate::tally::lemma_dreck_bound(pot(hands, set), rm.trump);
    if t.len() == 1 {
        let i = t[0].0 as int;
        crate::tally::lemma_takers(hands, 0);
        let event = Event::ReceiveDreck { player: t[0], dreck: pot(hands, set) };
        assert(all == offers.push(event));
        assert(all[m] == event);
        assert(events[base + m] == event.spec_redact(receiver));
        assert(t[0] == PlayerIdx(i as u8));
        lemma_replay_single(states, events, receiver, base + m, players, k, i, pot(hands, set), rm.trick@, next, rm.trump, rm.pick_ups);
    } else {
        let deals = deal_events(order, cards);
        assert(all == offers + deals);
        assert forall|j: int| 0 <= j < deals.len() implies events[base + m + j] == (#[trigger] deals[j]).spec_redact(receiver) by {
            assert(all[m + j] == deals[j]);
        }
        lemma_replay_deal(states, events, receiver, base + m, players, k, order, cards, rm.trick@, next, rm.trump, rm.pick_ups, false);
    }
    assert forall|j: int| base <= j < events.len() implies (#[trigger] states[j]).apply_result(events[j]) is Ok by {
        if j < base + m {
        } else {
            assert(base + m <= j);
        }
    }
}

/// When an acknowledgement ends the war, a client that is sent the events
/// that it adds to the log, each as its receiver may see it, accepts each of
/// them: the acknowledgement, the reveal of the trump, and what each hand
/// gives and gets of the dreck. After the last of them it holds the rummy
/// that the server holds, as far as its receiver may know it.
#[verifier::rlimit(40)]
pub proof fn lemma_replay_war_end<T: PreviousTrick, Hist: RummyHistory>(
    server: ServerGame,
    user: UserId,
    after: ServerGame,
    receiver: Option<PlayerIdx>,
    client: ClientGame<T, Hist>,
    states: Seq<ClientGame<T, Hist>>,
    events: Seq<Event>,
)
    requires
        server.wf(),
        sound(server),
        server.phase is War,
        server.applied(user, Action::FinishTrick, Ok(()), after),
        !(after.phase is War),
        server.events@ + events == after.events@,
        mirrors(server, client, receiver),
        chain(states, redacted(events, receiver)),
        states[0] == client,
    ensures
        forall|j: int| 0 <= j < events.len() ==> (#[trigger] states[j]).apply_result(events[j].spec_redact(receiver)) is Ok,
        mirrors(after, states.last(), receiver),
{
    let (p, w) = server.at_war(user)->Ok_0;
    let c = client.phase->War_0;
    let shown = redacted(events, receiver);
    crate::server_game::lemma_first_seat(server.players@, user, 0);
    lemma_war_finish(receiver, w, c, p);
    let w2 = choose|w2: ServerWar| #[trigger] ServerGame::acknowledged(w, p, w2) && server.war_ended(w2, p, Ok(()), after);
    let trump = w2.deck@[0];
    let first = seq![Event::FinishTrick { player: p }, Event::RevealTrump { trump }];
    let middle = server.events@ + first;
    let rm = choose|rm: ServerRummy| #[trigger] ServerGame::follows(w2, rm) && server.dreck_dealt(rm, middle, Ok(()), after);
    let rm2 = after.phase->Rummy_0;
    let players = server.players@;
    // what the count of the cards tells
    crate::tally::lemma_acknowledged(w, p, w2);
    crate::tally::lemma_rummy_hands(w2, rm);
    assert(total_len(rm.hands@) % 52 == 51) by {
        assert(w2.deck@.len() == 1);
        assert(crate::tally::war_total(w2) % 52 == 0);
        assert(crate::tally::war_total(w2) >= 1);
    }
    // the events
    assert(middle.len() == server.events@.len() + 2);
    assert(after.events@.len() >= middle.len() && after.events@.subrange(0, middle.len() as int) == middle) by {
        if takers(rm.hands@).len() > 0 {
            let listing = choose|listing: Seq<Card>| #[trigger]
                rm.dreck_done(rm2, middle, after.events@, true, server.seed, listing);
            let shuffled = dreck_order(takers(rm.hands@), listing, server.seed ^ 1);
            assert(after.events@ == middle + rm.dreck_events(shuffled.0, shuffled.1));
            assert(after.events@.subrange(0, middle.len() as int) =~= middle);
        } else {
            assert(after.events@.subrange(0, middle.len() as int) =~= middle);
        }
    }
    let n0 = server.events@.len() as int;
    assert(events.len() >= 2 && events[0] == first[0] && events[1] == first[1]) by {
        assert(after.events@[n0] == events[0]);
        assert(after.events@[n0 + 1] == events[1]);
        assert(after.events@.subrange(0, middle.len() as int)[n0] == middle[n0]);
        assert(after.events@.subrange(0, middle.len() as int)[n0 + 1] == middle[n0 + 1]);
    }
    assert(shown[0] == events[0] && shown[1] == events[1]);
    // the acknowledgement
    assert(states[0].apply_result(shown[0]) is Ok);
    let c1 = states[1].phase->War_0;
    assert(war_mirrors(receiver, w2, c1)) by {
        assert forall|i: int| 0 <= i < w2.hands@.len() implies war_seen(sees(receiver, i), #[trigger] w2.hands@[i], c1.hands@[i]) by {
            assert(war_seen(sees(receiver, i), w.hands@[i], c.hands@[i]));
        }
    }
    // the reveal
    lemma_switch(receiver, w2, c1);
    assert(states[1].apply_result(shown[1]) is Ok);
    let c2 = states[2].phase->Rummy_0;
    assert forall|i: int| 0 <= i < rm.hands@.len() implies rummy_seen(sees(receiver, i), #[trigger] rm.hands@[i], c2.hands@[i]) by {
        assert(c2.hands@[i] == c1.rummy_hand(i));
        assert(rm.hands@[i] == w2.rummy_hand(i));
        assert(rummy_seen(sees(receiver, i), w2.rummy_hand(i), c1.rummy_hand(i)));
    }
    lemma_seen_lens(receiver, rm.hands@, c2.hands@);
    lemma_same_count(rm.hands@, c2.hands@);
    assert(at_rummy(states[2], receiver, players, rm.hands@, rm.trick@, rm.next.0 as int, rm.trump, rm.pick_ups));
    if takers(rm.hands@).len() > 0 {
        let listing = choose|listing: Seq<Card>| #[trigger]
            rm.dreck_done(rm2, middle, after.events@, true, server.seed, listing);
        let shuffled = dreck_order(takers(rm.hands@), listing, server.seed ^ 1);
        let dreck = rm.dreck_events(shuffled.0, shuffled.1);
        assert(after.events@ == middle + dreck);
        assert(events.len() == 2 + dreck.len());
        assert forall|j: int| 0 <= j < dreck.len() implies shown[2 + j] == (#[trigger] dreck[j]).spec_redact(receiver) by {
            assert(after.events@[n0 + 2 + j] == events[2 + j]);
            assert((middle + dreck)[middle.len() + j] == dreck[j]);
        }
        if takers(rm.hands@).len() != 1 {
            shuffled.0.to_multiset_ensures();
            takers(rm.hands@).to_multiset_ensures();
            shuffled.1.to_multiset_ensures();
            listing.to_multiset_ensures();
            assert(listing.reverse().len() == listing.len());
        }
        lemma_replay_dreck(states, shown, receiver, 2, players, rm, shuffled.0, shuffled.1);
        assert forall|j: int| 0 <= j < events.len() implies (#[trigger] states[j]).apply_result(events[j].spec_redact(receiver)) is Ok by {
            assert(shown[j] == events[j].spec_redact(receiver));
            if j >= 2 {
                assert(2 <= j);
            }
        }
        let hands = rm.dreck_hands(shuffled.0, shuffled.1);
        let last = states.last().phase->Rummy_0;
        assert(rummy_mirrors(receiver, rm2, last)) by {
            assert forall|i: int| 0 <= i < rm2.hands@.len() implies rummy_seen(sees(receiver, i), #[trigger] rm2.hands@[i], last.hands@[i]) by {
                assert(rummy_seen(sees(receiver, i), hands[i], last.hands@[i]));
            }
        }
    } else {
        assert(events.len() == 2);
        assert(states.last() == states[2]);
        let last = states[2].phase->Rummy_0;
        assert(rummy_mirrors(receiver, rm2, last)) by {
            assert forall|i: int| 0 <= i < rm2.hands@.len() implies rummy_seen(sees(receiver, i), #[trigger] rm2.hands@[i], last.hands@[i]) by {
                assert(rummy_seen(sees(receiver, i), rm.hands@[i], last.hands@[i]));
            }
        }
        assert forall|j: int| 0 <= j < events.len() implies (#[trigger] states[j]).apply_result(events[j].spec_redact(receiver)) is Ok by {
            assert(shown[j] == events[j].spec_redact(receiver));
        }
    }
}

} // verus!
