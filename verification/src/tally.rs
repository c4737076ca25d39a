//! The cards of a game are counted: what the deck, the hands, the piles and
//! the trick of a war hold together is a number of whole decks, whatever the
//! players do.
use vstd::prelude::*;
use crate::action::Action;
use crate::card::Card;
use crate::cards::{
    fits_all, lemma_count_bound, lemma_fits_single, lemma_minus, lemma_named_sets, lemma_part, lemma_plus, lemma_single_counts,
    plus_all, Cards,
};
use crate::dreck::{deal_fits, dealt, dreck_set, kept, pot, pot_fits, share_len, takers};
use crate::error::GoatError;
use crate::event::Event;
use crate::server_game::war_over;
use crate::rank::Rank;
use crate::rummy_hand::RummyHand;
use crate::rummy_phase::total_len;
use crate::server_game::{ServerGame, ServerPhase, ServerRummy, ServerWar};
use crate::id::{PlayerIdx, UserId};
use crate::war_phase::{admits_plays, with_plays};
use crate::war_trick_play::WarPlay;
use crate::war_hand::{lemma_hand_of, lemma_hand_view, position, ServerWarHand, WarHand};

verus! {

/// The sum of the numbers of a sequence.
pub open spec fn sum(s: Seq<nat>) -> nat
    decreases s.len(),
{
    if s.len() == 0 {
        0
    } else {
        sum(s.drop_last()) + s.last()
    }
}

/// A sequence of zeros sums to zero.
pub proof fn lemma_sum_zero(s: Seq<nat>)
    requires
        forall|i: int| 0 <= i < s.len() ==> #[trigger] s[i] == 0,
    ensures
        sum(s) == 0,
    decreases s.len(),
{
    if s.len() > 0 {
        assert forall|i: int| 0 <= i < s.drop_last().len() implies #[trigger] s.drop_last()[i] == 0 by {
            assert(s.drop_last()[i] == s[i]);
        }
        lemma_sum_zero(s.drop_last());
    }
}

/// Where one number of a sequence changes, the sum changes by as much.
pub proof fn lemma_sum_update(s: Seq<nat>, i: int, v: nat)
    requires
        0 <= i < s.len(),
    ensures
        sum(s.update(i, v)) == sum(s) - s[i] + v,
        sum(s) >= s[i],
    decreases s.len(),
{
    let t = s.update(i, v);
    if i == s.len() - 1 {
        assert(t.drop_last() =~= s.drop_last());
    } else {
        lemma_sum_update(s.drop_last(), i, v);
        assert(t.drop_last() =~= s.drop_last().update(i, v));
    }
}

/// The number of cards in each hand of a rummy.
pub open spec fn lens<H: RummyHand>(hands: Seq<H>) -> Seq<nat> {
    Seq::new(hands.len(), |i: int| hands[i].spec_len())
}

/// The number of cards in all hands is the sum of the numbers in each.
pub proof fn lemma_total_len<H: RummyHand>(hands: Seq<H>)
    ensures
        total_len(hands) == sum(lens(hands)),
    decreases hands.len(),
{
    if hands.len() > 0 {
        lemma_total_len(hands.drop_last());
        assert(lens(hands).drop_last() =~= lens(hands.drop_last()));
    }
}

/// The number of cards in each hand of a war.
pub open spec fn war_lens(hands: Seq<ServerWarHand>) -> Seq<nat> {
    Seq::new(hands.len(), |i: int| hands[i]@.len())
}

/// The number of cards in a war: those of the deck, the hands, the piles and
/// the trick.
pub open spec fn war_total(w: ServerWar) -> nat {
    w.deck@.len() + sum(war_lens(w.hands@)) + total_len(w.won@) + w.trick@.plays.len()
}

/// Whether every set of `sets` is well-formed.
pub open spec fn all_wf(sets: Seq<Cards>) -> bool {
    forall|i: int| 0 <= i < sets.len() ==> (#[trigger] sets[i]).wf()
}

/// Whether every hand of `hands` is well-formed.
pub open spec fn war_hands_wf(hands: Seq<ServerWarHand>) -> bool {
    forall|i: int| 0 <= i < hands.len() ==> (#[trigger] hands[i]).wf()
}

/// Whether the cards of the game are all there: in a war, the deck, the
/// hands, the piles and the trick hold a number of whole decks together.
pub open spec fn sound(game: ServerGame) -> bool {
    match game.phase {
        ServerPhase::War(w) => all_wf(w.won@) && war_hands_wf(w.hands@) && war_total(w) % 52 == 0,
        ServerPhase::Rummy(rm) => all_wf(rm.hands@),
        _ => true,
    }
}

/// Cards added one by one to a set make it larger by their number.
pub proof fn lemma_plus_all(a: Cards, s: Seq<Card>)
    requires
        a.wf(),
        fits_all(a, s),
    ensures
        plus_all(a, s).wf(),
        plus_all(a, s).spec_len() == a.spec_len() + s.len(),
        plus_all(a, s).includes(a),
    decreases s.len(),
{
    if s.len() > 0 {
        lemma_single_counts(s[0]);
        lemma_fits_single(a, s[0]);
        lemma_plus(a, Cards::single(s[0]));
        lemma_plus_all(a.plus(Cards::single(s[0])), s.drop_first());
        assert forall|c: Card| a.count(c) <= plus_all(a, s).count(c) by {
            assert(a.count(c) <= a.plus(Cards::single(s[0])).count(c));
        }
    }
}

/// Where one hand of a war changes, the number of cards in the hands changes
/// by as much.
pub proof fn lemma_war_lens_update(hands: Seq<ServerWarHand>, i: int, hand: ServerWarHand)
    requires
        0 <= i < hands.len(),
    ensures
        sum(war_lens(hands.update(i, hand))) == sum(war_lens(hands)) - hands[i]@.len() + hand@.len(),
        sum(war_lens(hands)) >= hands[i]@.len(),
{
    lemma_sum_update(war_lens(hands), i, hand@.len());
    assert(war_lens(hands.update(i, hand)) =~= war_lens(hands).update(i, hand@.len()));
}

/// Where one hand of a rummy changes, the number of cards in the hands
/// changes by as much.
pub proof fn lemma_total_update<H: RummyHand>(hands: Seq<H>, i: int, hand: H)
    requires
        0 <= i < hands.len(),
    ensures
        total_len(hands.update(i, hand)) == total_len(hands) - hands[i].spec_len() + hand.spec_len(),
        total_len(hands) >= hands[i].spec_len(),
{
    lemma_total_len(hands);
    lemma_total_len(hands.update(i, hand));
    lemma_sum_update(lens(hands), i, hand.spec_len());
    assert(lens(hands.update(i, hand)) =~= lens(hands).update(i, hand.spec_len()));
}

/// A hand without one of its cards holds one card less.
pub proof fn lemma_without_card(hand: ServerWarHand, card: Card)
    requires
        hand.wf(),
        hand@.contains(card),
    ensures
        hand.without_card(card).wf(),
        hand.without_card(card)@.len() == hand@.len() - 1,
{
    lemma_hand_view(hand);
    let i = choose|i: int| 0 <= i < hand@.len() && hand@[i] == card;
    assert(0 <= position(hand@, card) < hand@.len());
    lemma_hand_of(hand@.remove(position(hand@, card)));
}

/// A hand of fewer than three cards with one more card holds one card more.
pub proof fn lemma_with_card(hand: ServerWarHand, card: Card)
    requires
        hand.wf(),
        hand@.len() < 3,
    ensures
        hand.with_card(card).wf(),
        hand.with_card(card)@.len() == hand@.len() + 1,
{
    lemma_hand_of(hand@.push(card));
}

/// When a game starts, its cards are all there.
pub proof fn lemma_sound_start(server: ServerGame, num_decks: u8, after: ServerGame)
    requires
        server.started(num_decks, Ok(()), after),
    ensures
        sound(after),
{
    let listing = choose|listing: Seq<Card>|
        Cards::spec_one_deck().scaled(num_decks as nat).is_listing(listing.reverse()) && listing.len() == 52 * num_decks
            && crate::lists::deck_order(listing, server.seed).len() == listing.len() && crate::lists::deck_order(
            listing,
            server.seed,
        ).to_multiset() == listing.to_multiset() && #[trigger] server.begun(
            crate::lists::deck_order(listing, server.seed),
            num_decks,
            after,
        );
    let w = after.phase->War_0;
    lemma_hand_of(Seq::empty());
    crate::cards::lemma_empty(Cards::spec_none());
    assert forall|i: int| 0 <= i < war_lens(w.hands@).len() implies #[trigger] war_lens(w.hands@)[i] == 0 by {
        assert(w.hands@[i] == ServerWarHand::empty_hand());
    }
    lemma_sum_zero(war_lens(w.hands@));
    lemma_total_len(w.won@);
    assert forall|i: int| 0 <= i < lens(w.won@).len() implies #[trigger] lens(w.won@)[i] == 0 by {
        assert(w.won@[i] == Cards::spec_none());
    }
    lemma_sum_zero(lens(w.won@));
    assert(war_total(w) == 52 * num_decks);
    assert forall|i: int| 0 <= i < w.won@.len() implies (#[trigger] w.won@[i]).wf() by {
        assert(w.won@[i] == Cards::spec_none());
    }
    assert forall|i: int| 0 <= i < w.hands@.len() implies (#[trigger] w.hands@[i]).wf() by {
        assert(w.hands@[i] == ServerWarHand::empty_hand());
    }
}

/// A play, a slough or a draw moves one card within the war: the cards are
/// all there afterwards.
pub proof fn lemma_sound_war(server: ServerGame, user: UserId, action: Action, after: ServerGame)
    requires
        server.wf(),
        sound(server),
        action is PlayCard || action is PlayTop || action is Slough || action is Draw,
        server.applied(user, action, Ok(()), after),
    ensures
        sound(after),
{
    let (p, w) = server.at_war(user)->Ok_0;
    crate::server_game::lemma_first_seat(server.players@, user, 0);
    let w2 = after.phase->War_0;
    let i = p.0 as int;
    let hand = w.hands@[i];
    assert(hand.wf());
    lemma_hand_view(hand);
    match action {
        Action::PlayCard { card } => {
            lemma_without_card(hand, card);
            lemma_war_lens_update(w.hands@, i, hand.without_card(card));
        },
        Action::PlayTop => {},
        Action::Slough { card } => {
            lemma_without_card(hand, card);
            lemma_war_lens_update(w.hands@, i, hand.without_card(card));
        },
        Action::Draw => {
            lemma_with_card(hand, w.deck@.last());
            lemma_war_lens_update(w.hands@, i, hand.with_card(w.deck@.last()));
        },
        _ => {},
    }
    assert forall|k: int| 0 <= k < w2.hands@.len() implies (#[trigger] w2.hands@[k]).wf() by {
        if k != i {
            assert(w2.hands@[k] == w.hands@[k]);
        }
    }
}

/// The war after an acknowledgement holds the cards that it held before: the
/// cards of a completed trick lie on the pile of its winner.
pub proof fn lemma_acknowledged(w: ServerWar, p: PlayerIdx, w2: ServerWar)
    requires
        w.wf(),
        all_wf(w.won@),
        w.finish_result(p) is Ok,
        ServerGame::acknowledged(w, p, w2),
    ensures
        war_total(w2) == war_total(w),
        all_wf(w2.won@),
{
    if w.finish_awards(p) {
        let i = w.trick@.winner().unwrap().0 as int;
        assert(w.trick@.players[0].0 < w.hands@.len());
        let cards = w.trick_cards();
        lemma_plus_all(w.won@[i], cards);
        lemma_total_update(w.won@, i, plus_all(w.won@[i], cards));
        assert forall|k: int| 0 <= k < w2.won@.len() implies (#[trigger] w2.won@[k]).wf() by {
            if k != i {
                assert(w2.won@[k] == w.won@[k]);
            }
        }
    }
}

/// A run played from a hand, or picked up into one, leaves every hand a
/// well-formed set.
pub proof fn lemma_sound_rummy(server: ServerGame, user: UserId, action: Action, after: ServerGame)
    requires
        server.wf(),
        sound(server),
        action is PlayRun || action is PickUp,
        server.applied(user, action, Ok(()), after),
    ensures
        sound(after),
{
    let (p, rm) = server.at_rummy(user)->Ok_0;
    let i = rm.next.0 as int;
    let hand = rm.hands@[i];
    assert(hand.wf());
    if after.phase is Rummy {
        let rm2 = after.phase->Rummy_0;
        match action {
            Action::PlayRun { lo, hi } => {
                crate::cards::lemma_range_counts(lo, hi);
                crate::cards::lemma_minus(hand, Cards::spec_range(lo, hi));
            },
            Action::PickUp => {
                crate::cards::lemma_range_wf(rm.trick@.picked().0, rm.trick@.picked().1);
                lemma_plus(hand, rm.picked());
            },
            _ => {},
        }
        assert forall|k: int| 0 <= k < rm2.hands@.len() implies (#[trigger] rm2.hands@[k]).wf() by {
            if k != i {
                assert(rm2.hands@[k] == rm.hands@[k]);
            }
        }
    }
}

/// The sums of two sequences add up to the sum of their sums, place by place.
pub proof fn lemma_sum_add(a: Seq<nat>, b: Seq<nat>)
    requires
        a.len() == b.len(),
    ensures
        sum(Seq::new(a.len(), |i: int| a[i] + b[i])) == sum(a) + sum(b),
    decreases a.len(),
{
    let c = Seq::new(a.len(), |i: int| a[i] + b[i]);
    if a.len() > 0 {
        lemma_sum_add(a.drop_last(), b.drop_last());
        assert(c.drop_last() =~= Seq::new(a.drop_last().len(), |i: int| a.drop_last()[i] + b.drop_last()[i]));
    }
}

/// The number of cards that seat `seat` has put into a trick.
pub open spec fn plays_of(plays: Seq<WarPlay>, seat: int) -> nat
    decreases plays.len(),
{
    if plays.len() == 0 {
        0
    } else {
        plays_of(plays.drop_first(), seat) + (if plays[0].player.0 == seat { 1nat } else { 0nat })
    }
}

/// The number of cards that each of `n` seats has put into a trick.
pub open spec fn plays_by(plays: Seq<WarPlay>, n: nat) -> Seq<nat> {
    Seq::new(n, |i: int| plays_of(plays, i))
}

/// The cards of a trick are those that its seats have put into it.
pub proof fn lemma_plays_by(plays: Seq<WarPlay>, n: nat)
    requires
        forall|k: int| 0 <= k < plays.len() ==> (#[trigger] plays[k]).player.0 < n,
    ensures
        sum(plays_by(plays, n)) == plays.len(),
    decreases plays.len(),
{
    if plays.len() == 0 {
        lemma_sum_zero(plays_by(plays, n));
    } else {
        let rest = plays.drop_first();
        assert forall|k: int| 0 <= k < rest.len() implies (#[trigger] rest[k]).player.0 < n by {
            assert(rest[k] == plays[k + 1]);
        }
        lemma_plays_by(rest, n);
        let p = plays[0].player.0 as int;
        lemma_sum_update(plays_by(rest, n), p, plays_of(rest, p) + 1);
        assert(plays_by(plays, n) =~= plays_by(rest, n).update(p, plays_of(rest, p) + 1));
    }
}

/// A hand that takes up what its seat has put into a trick grows by the
/// number of these cards.
pub proof fn lemma_with_plays(hand: Cards, plays: Seq<WarPlay>, seat: int)
    requires
        hand.wf(),
        admits_plays(hand, plays, seat),
    ensures
        with_plays(hand, plays, seat).wf(),
        with_plays(hand, plays, seat).spec_len() == hand.spec_len() + plays_of(plays, seat),
    decreases plays.len(),
{
    if plays.len() > 0 {
        if plays[0].player.0 == seat {
            let one = Cards::single(plays[0].card);
            lemma_single_counts(plays[0].card);
            lemma_plus(hand, one);
            lemma_with_plays(hand.plus(one), plays.drop_first(), seat);
        } else {
            lemma_with_plays(hand, plays.drop_first(), seat);
        }
    }
}

/// The hands with which a rummy begins hold the cards of the hands, the piles
/// and the trick of the war before it.
pub proof fn lemma_rummy_hands(w: ServerWar, rm: ServerRummy)
    requires
        w.won@.len() == w.hands@.len(),
        forall|k: int| 0 <= k < w.trick@.plays.len() ==> (#[trigger] w.trick@.plays[k]).player.0 < w.hands@.len(),
        all_wf(w.won@),
        war_hands_wf(w.hands@),
        w.can_switch(),
        ServerGame::follows(w, rm),
    ensures
        all_wf(rm.hands@),
        total_len(rm.hands@) + w.deck@.len() == war_total(w),
{
    let n = w.hands@.len();
    let a = war_lens(w.hands@);
    let b = lens(w.won@);
    let c = plays_by(w.trick@.plays, n);
    let ab = Seq::new(n, |i: int| a[i] + b[i]);
    let abc = Seq::new(n, |i: int| ab[i] + c[i]);
    assert forall|i: int| 0 <= i < n implies (#[trigger] rm.hands@[i]).wf() && rm.hands@[i].spec_len() == abc[i] by {
        assert(rm.hands@[i] == w.rummy_hand(i));
        assert(w.hands@[i].can_merge(w.won@[i]));
        assert(w.won@[i].wf());
        lemma_plus_all(w.won@[i], w.hands@[i]@);
        lemma_with_plays(w.hands@[i].merged(w.won@[i]), w.trick@.plays, i);
    }
    assert(lens(rm.hands@) =~= abc);
    lemma_total_len(rm.hands@);
    lemma_total_len(w.won@);
    lemma_sum_add(a, b);
    lemma_sum_add(ab, c);
    lemma_plays_by(w.trick@.plays, n);
}

/// The dreck is seventeen cards, once each.
pub proof fn lemma_dreck_set_len(trump: Card)
    ensures
        dreck_set(trump).wf(),
        dreck_set(trump).spec_len() == 17,
        forall|c: Card| #[trigger] dreck_set(trump).count(c) <= 1,
{
    let six = Card::spec_new(Rank::Six, trump.spec_suit());
    lemma_named_sets();
    crate::cards::lemma_common_dreck_len();
    crate::dreck::lemma_dreck_set(trump);
    crate::card::lemma_card_new(Rank::Six, trump.spec_suit());
    lemma_single_counts(six);
    lemma_plus(Cards::spec_common_dreck(), Cards::single(six));
    assert forall|c: Card| #[trigger] dreck_set(trump).count(c) <= 1 by {
        assert(dreck_set(trump).count(c) == Cards::spec_common_dreck().count(c) + Cards::single(six).count(c));
    }
}

/// A set that holds dreck alone holds at most fifty-one cards.
pub proof fn lemma_dreck_bound(a: Cards, trump: Card)
    requires
        a.wf(),
        forall|c: Card| #[trigger] a.count(c) > 0 ==> dreck_set(trump).has(c),
    ensures
        a.spec_len() <= 51,
{
    let d = dreck_set(trump);
    lemma_dreck_set_len(trump);
    assert(d.fits(d)) by {
        assert forall|c: Card| d.count(c) + d.count(c) <= 3 by {
            assert(d.count(c) <= 1);
        }
    }
    lemma_plus(d, d);
    assert(d.plus(d).fits(d)) by {
        assert forall|c: Card| d.plus(d).count(c) + d.count(c) <= 3 by {
            assert(d.count(c) <= 1);
            assert(d.plus(d).count(c) == d.count(c) + d.count(c));
        }
    }
    lemma_plus(d.plus(d), d);
    let all = d.plus(d).plus(d);
    assert(all.includes(a)) by {
        assert forall|c: Card| a.count(c) <= all.count(c) by {
            lemma_count_bound(a, c);
            assert(all.count(c) == d.plus(d).count(c) + d.count(c));
            assert(d.plus(d).count(c) == d.count(c) + d.count(c));
            if a.count(c) > 0 {
                assert(d.has(c));
            }
        }
    }
    crate::cards::lemma_includes_len(all, a);
}

/// What the hands give up and what they keep are the cards that they held,
/// and what they give up is dreck.
pub proof fn lemma_pot(hands: Seq<Cards>, set: Cards)
    requires
        all_wf(hands),
        pot_fits(hands, set),
    ensures
        pot(hands, set).wf(),
        all_wf(kept(hands, set)),
        total_len(kept(hands, set)) + pot(hands, set).spec_len() == total_len(hands),
        forall|c: Card| #[trigger] pot(hands, set).count(c) > 0 ==> set.has(c),
    decreases hands.len(),
{
    lemma_named_sets();
    crate::cards::lemma_empty(Cards::spec_none());
    if hands.len() > 0 {
        let rest = hands.drop_last();
        let hand = hands.last();
        assert forall|i: int| 0 <= i < rest.len() implies (#[trigger] rest[i]).wf() by {
            assert(rest[i] == hands[i]);
        }
        lemma_pot(rest, set);
        assert(hand == hands[hands.len() - 1]);
        lemma_part(hand, set);
        lemma_minus(hand, hand.part(set));
        lemma_plus(pot(rest, set), hand.part(set));
        assert(kept(hands, set).drop_last() =~= kept(rest, set));
        assert(kept(hands, set).last() == hand.minus(hand.part(set)));
        assert forall|i: int| 0 <= i < kept(hands, set).len() implies (#[trigger] kept(hands, set)[i]).wf() by {
            if i < rest.len() {
                assert(kept(hands, set)[i] == kept(rest, set)[i]);
            }
        }
        assert forall|c: Card| #[trigger] pot(hands, set).count(c) > 0 implies set.has(c) by {
            assert(pot(hands, set).count(c) == pot(rest, set).count(c) + hand.part(set).count(c));
        }
    }
}

/// Dreck that is dealt to hands that can hold it leaves every hand a
/// well-formed set.
pub proof fn lemma_dealt_wf(hands: Seq<Cards>, order: Seq<PlayerIdx>, cards: Seq<Card>)
    requires
        all_wf(hands),
        deal_fits(hands, order, cards),
    ensures
        all_wf(dealt(hands, order, cards)),
    decreases order.len(),
{
    if order.len() > 0 {
        let n = share_len(cards.len(), order.len()) as int;
        let share = cards.subrange(0, n);
        let p = order[0].0 as int;
        lemma_named_sets();
        lemma_plus_all(Cards::spec_none(), share);
        lemma_plus(hands[p], plus_all(Cards::spec_none(), share));
        let next = hands.update(p, hands[p].plus(plus_all(Cards::spec_none(), share)));
        assert forall|i: int| 0 <= i < next.len() implies (#[trigger] next[i]).wf() by {
            if i != p {
                assert(next[i] == hands[i]);
            }
        }
        lemma_dealt_wf(next, order.drop_first(), cards.subrange(n, cards.len() as int));
    }
}

/// Dreck that is taken and dealt as the hands can hold it leaves every hand
/// a well-formed set.
pub proof fn lemma_dreck_hands(rm: ServerRummy, order: Seq<PlayerIdx>, cards: Seq<Card>)
    requires
        all_wf(rm.hands@),
        takers(rm.hands@).len() > 0,
        rm.dreck_fits(order, cards),
    ensures
        all_wf(rm.dreck_hands(order, cards)),
{
    let set = dreck_set(rm.trump);
    let t = takers(rm.hands@);
    lemma_pot(rm.hands@, set);
    let k = kept(rm.hands@, set);
    if t.len() == 1 {
        let i = t[0].0 as int;
        lemma_takers(rm.hands@, 0);
        lemma_plus(k[i], pot(rm.hands@, set));
        let hands = rm.dreck_hands(order, cards);
        assert forall|j: int| 0 <= j < hands.len() implies (#[trigger] hands[j]).wf() by {
            if j != i {
                assert(hands[j] == k[j]);
            }
        }
    } else {
        lemma_dealt_wf(k, order, cards);
    }
}

/// The seats that take dreck are seats of the hands.
pub proof fn lemma_takers(hands: Seq<Cards>, i: int)
    requires
        0 <= i < takers(hands).len(),
    ensures
        takers(hands)[i].0 < hands.len(),
        hands.len() <= 256 ==> hands[takers(hands)[i].0 as int].spec_len() < 6,
    decreases hands.len(),
{
    if hands.len() > 0 {
        if i < takers(hands.drop_last()).len() {
            lemma_takers(hands.drop_last(), i);
            assert(hands.drop_last()[takers(hands.drop_last())[i].0 as int] == hands[takers(hands.drop_last())[i].0 as int]);
        }
    }
}

/// An acknowledgement leaves the cards of the game all there, also where it
/// ends the war and the rummy begins.
pub proof fn lemma_sound_finish(server: ServerGame, user: UserId, after: ServerGame)
    requires
        server.wf(),
        sound(server),
        server.applied(user, Action::FinishTrick, Ok(()), after),
    ensures
        sound(after),
{
    let (p, w) = server.at_war(user)->Ok_0;
    crate::server_game::lemma_first_seat(server.players@, user, 0);
    let complete = w.finish_result(p)->Ok_0;
    if complete && war_over(w.deck@, w.hands@, w.trick_after_finish(p)) {
        let w2 = choose|w2: ServerWar| #[trigger] ServerGame::acknowledged(w, p, w2) && server.war_ended(w2, p, Ok(()), after);
        lemma_acknowledged(w, p, w2);
        let middle = server.events@ + seq![Event::FinishTrick { player: p }, Event::RevealTrump { trump: w2.deck@[0] }];
        let rm = choose|rm: ServerRummy| #[trigger] ServerGame::follows(w2, rm) && server.dreck_dealt(rm, middle, Ok(()), after);
        lemma_rummy_hands(w2, rm);
        if takers(rm.hands@).len() > 0 {
            let rm2 = after.phase->Rummy_0;
            let listing = choose|listing: Seq<Card>| #[trigger]
                rm.dreck_done(rm2, middle, after.events@, true, server.seed, listing);
            let shuffled = crate::lists::dreck_order(takers(rm.hands@), listing, server.seed ^ 1);
            lemma_dreck_hands(rm, shuffled.0, shuffled.1);
        }
    } else {
        let w2 = after.phase->War_0;
        lemma_acknowledged(w, p, w2);
    }
}

/// Whatever the players do, the cards of a game stay all there.
pub proof fn lemma_sound_kept(server: ServerGame, user: UserId, action: Action, r: Result<(), GoatError>, after: ServerGame)
    requires
        server.wf(),
        sound(server),
        server.applied(user, action, r, after),
    ensures
        sound(after),
{
    if r is Ok {
        assert(r->Ok_0 == ());
        assert(r == Ok::<(), GoatError>(()));
        match action {
            Action::Join { .. } => {},
            Action::Leave { .. } => {},
            Action::Start { num_decks } => {
                lemma_sound_start(server, num_decks, after);
            },
            Action::PlayCard { .. } | Action::PlayTop | Action::Slough { .. } | Action::Draw => {
                lemma_sound_war(server, user, action, after);
            },
            Action::FinishTrick => {
                lemma_sound_finish(server, user, after);
            },
            Action::PlayRun { .. } | Action::PickUp => {
                lemma_sound_rummy(server, user, action, after);
            },
            Action::Goat { .. } => {},
        }
    }
}

} // verus!
