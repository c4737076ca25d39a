//! No card occurs more often in a game than a set of cards can hold it: the
//! cards that the deck, the hands, the piles and the trick hold of each kind
//! are those that the decks brought, whatever the players do. So no pile and
//! no hand ever has to refuse a card.
use vstd::prelude::*;
use vstd::seq_lib::{lemma_multiset_commutative, to_multiset_build, to_multiset_remove};
use crate::card::Card;
use crate::cards::{fits_all, lemma_fits_single, lemma_plus, lemma_single_counts, plus_all, Cards};
use crate::action::Action;
use crate::dreck::{deal_fits, dealt, dreck_set, kept, pot, pot_fits, share_len, takers};
use crate::error::GoatError;
use crate::event::Event;
use crate::id::{PlayerIdx, UserId};
use crate::rummy_hand::RummyHand;
use crate::rummy_trick::{connected, follows, lemma_connected, lemma_joined_run};
use crate::server_game::{ServerGame, ServerPhase, ServerRummy, ServerWar};
use crate::tally::{all_wf, lemma_sum_add, lemma_sum_update, lemma_sum_zero, sound, sum};
use crate::war_phase::{admits_plays, with_plays};
use crate::war_hand::{lemma_hand_of, lemma_hand_view, position, ServerWarHand, WarHand};
use crate::war_trick_play::WarPlay;

verus! {

/// How often a card occurs in a sequence of cards.
pub open spec fn occurs(s: Seq<Card>, c: Card) -> nat {
    s.to_multiset().count(c)
}

/// One for a card that is the card `c`, zero for another.
pub open spec fn one_if(x: Card, c: Card) -> nat {
    if x == c {
        1
    } else {
        0
    }
}

/// A card added at the end of a sequence occurs once more in it.
pub proof fn lemma_occurs_push(s: Seq<Card>, x: Card, c: Card)
    ensures
        occurs(s.push(x), c) == occurs(s, c) + one_if(x, c),
{
    to_multiset_build(s, x);
}

/// A card taken out of a sequence occurs once less in it.
pub proof fn lemma_occurs_remove(s: Seq<Card>, i: int, c: Card)
    requires
        0 <= i < s.len(),
    ensures
        occurs(s.remove(i), c) + one_if(s[i], c) == occurs(s, c),
{
    to_multiset_remove(s, i);
    s.to_multiset_ensures();
    assert(s.contains(s[i]));
}

/// No card occurs in the empty sequence.
pub proof fn lemma_occurs_empty(c: Card)
    ensures
        occurs(Seq::<Card>::empty(), c) == 0,
{
    Seq::<Card>::empty().to_multiset_ensures();
    assert(!Seq::<Card>::empty().contains(c));
}

/// Cards added one by one to a set are in it as often as they occur among the
/// cards and in the set together; and they can be added where that is never
/// more than three times.
pub proof fn lemma_plus_all_counts(a: Cards, s: Seq<Card>)
    requires
        a.wf(),
        forall|c: Card| a.count(c) + #[trigger] occurs(s, c) <= 3,
    ensures
        fits_all(a, s),
        plus_all(a, s).wf(),
        forall|c: Card| #[trigger] plus_all(a, s).count(c) == a.count(c) + occurs(s, c),
    decreases s.len(),
{
    if s.len() == 0 {
        assert forall|c: Card| #[trigger] plus_all(a, s).count(c) == a.count(c) + occurs(s, c) by {
            assert(s =~= Seq::<Card>::empty());
            lemma_occurs_empty(c);
        }
    } else {
        let one = Cards::single(s[0]);
        let rest = s.drop_first();
        assert(rest =~= s.remove(0));
        lemma_single_counts(s[0]);
        lemma_fits_single(a, s[0]);
        lemma_occurs_remove(s, 0, s[0]);
        assert(a.count(s[0]) + occurs(s, s[0]) <= 3);
        lemma_plus(a, one);
        assert forall|c: Card| a.plus(one).count(c) + #[trigger] occurs(rest, c) <= 3 by {
            lemma_occurs_remove(s, 0, c);
            assert(a.count(c) + occurs(s, c) <= 3);
        }
        lemma_plus_all_counts(a.plus(one), rest);
        assert forall|c: Card| #[trigger] plus_all(a, s).count(c) == a.count(c) + occurs(s, c) by {
            lemma_occurs_remove(s, 0, c);
            assert(plus_all(a.plus(one), rest).count(c) == a.plus(one).count(c) + occurs(rest, c));
        }
    }
}

/// How often the card `c` lies in each hand of a war.
pub open spec fn hand_copies(hands: Seq<ServerWarHand>, c: Card) -> Seq<nat> {
    Seq::new(hands.len(), |i: int| occurs(hands[i]@, c))
}

/// How often each set holds the card `c`.
pub open spec fn copies(sets: Seq<Cards>, c: Card) -> Seq<nat> {
    Seq::new(sets.len(), |i: int| sets[i].count(c))
}

/// How often the card `c` is in a war: in the deck, the hands, the piles and
/// the trick.
pub open spec fn war_copies(w: ServerWar, c: Card) -> nat {
    occurs(w.deck@, c) + sum(hand_copies(w.hands@, c)) + sum(copies(w.won@, c)) + occurs(w.trick_cards(), c)
}

/// How often the card `c` lies in the runs of a trick.
pub open spec fn run_copies(plays: Seq<(Card, Card)>, c: Card) -> nat
    decreases plays.len(),
{
    if plays.len() == 0 {
        0
    } else {
        run_copies(plays.drop_last(), c) + (if Cards::in_run(c, plays.last().0, plays.last().1) { 1nat } else { 0nat })
    }
}

/// How often the card `c` is in a rummy: in the hands and in the trick.
pub open spec fn rummy_copies(rm: ServerRummy, c: Card) -> nat {
    sum(copies(rm.hands@, c)) + run_copies(rm.trick@.plays, c)
}

/// Whether no card is in the game more than three times.
pub open spec fn bounded(game: ServerGame) -> bool {
    match game.phase {
        ServerPhase::War(w) => forall|c: Card| #[trigger] war_copies(w, c) <= 3,
        ServerPhase::Rummy(rm) => forall|c: Card| #[trigger] rummy_copies(rm, c) <= 3,
        _ => true,
    }
}

/// Where one hand of a war changes, the copies of a card in the hands change
/// by as much.
pub proof fn lemma_hand_copies_update(hands: Seq<ServerWarHand>, i: int, hand: ServerWarHand, c: Card)
    requires
        0 <= i < hands.len(),
    ensures
        sum(hand_copies(hands.update(i, hand), c)) + occurs(hands[i]@, c) == sum(hand_copies(hands, c)) + occurs(hand@, c),
        sum(hand_copies(hands, c)) >= occurs(hands[i]@, c),
{
    lemma_sum_update(hand_copies(hands, c), i, occurs(hand@, c));
    assert(hand_copies(hands.update(i, hand), c) =~= hand_copies(hands, c).update(i, occurs(hand@, c)));
}

/// Where one set changes, the copies of a card in the sets change by as much.
pub proof fn lemma_copies_update(sets: Seq<Cards>, i: int, set: Cards, c: Card)
    requires
        0 <= i < sets.len(),
    ensures
        sum(copies(sets.update(i, set), c)) + sets[i].count(c) == sum(copies(sets, c)) + set.count(c),
        sum(copies(sets, c)) >= sets[i].count(c),
{
    lemma_sum_update(copies(sets, c), i, set.count(c));
    assert(copies(sets.update(i, set), c) =~= copies(sets, c).update(i, set.count(c)));
}

/// When a game starts, each card is in it as often as there are decks.
pub proof fn lemma_bounded_start(server: ServerGame, num_decks: u8, after: ServerGame)
    requires
        server.started(num_decks, Ok(()), after),
    ensures
        bounded(after),
{
    let listing = choose|listing: Seq<Card>|
        Cards::spec_one_deck().scaled(num_decks as nat).is_listing(listing.reverse()) && listing.len() == 52 * num_decks
            && crate::lists::deck_order(listing, server.seed).len() == listing.len() && crate::lists::deck_order(
            listing,
            server.seed,
        ).to_multiset() == listing.to_multiset() && #[trigger] server.begun(
            crate::lists::deck_order(listing, server.seed),
            num_decks,
            after,
        );
    let w = after.phase->War_0;
    let all = Cards::spec_one_deck().scaled(num_decks as nat);
    crate::cards::lemma_named_sets();
    assert forall|c: Card| (num_decks as nat) * #[trigger] Cards::spec_one_deck().count(c) <= 3 by {
        assert(Cards::spec_one_deck().count(c) == 1);
    }
    crate::cards::lemma_scaled(Cards::spec_one_deck(), num_decks as nat);
    listing.lemma_reverse_to_multiset();
    lemma_hand_of(Seq::empty());
    assert forall|c: Card| #[trigger] war_copies(w, c) <= 3 by {
        assert(occurs(w.deck@, c) == occurs(listing.reverse(), c));
        assert(listing.reverse().to_multiset().count(c) == all.count(c));
        assert(all.count(c) == (num_decks as nat) * Cards::spec_one_deck().count(c));
        assert(Cards::spec_one_deck().count(c) == 1);
        lemma_occurs_empty(c);
        assert forall|i: int| 0 <= i < hand_copies(w.hands@, c).len() implies #[trigger] hand_copies(w.hands@, c)[i] == 0 by {
            assert(w.hands@[i] == ServerWarHand::empty_hand());
        }
        lemma_sum_zero(hand_copies(w.hands@, c));
        assert forall|i: int| 0 <= i < copies(w.won@, c).len() implies #[trigger] copies(w.won@, c)[i] == 0 by {
            assert(w.won@[i] == Cards::spec_none());
        }
        lemma_sum_zero(copies(w.won@, c));
        assert(w.trick_cards() =~= Seq::<Card>::empty());
    }
}

/// A play, a slough or a draw moves one card within the war: each card is in
/// it as often as before.
pub proof fn lemma_bounded_war(server: ServerGame, user: UserId, action: Action, after: ServerGame)
    requires
        server.wf(),
        sound(server),
        bounded(server),
        action is PlayCard || action is PlayTop || action is Slough || action is Draw,
        server.applied(user, action, Ok(()), after),
    ensures
        bounded(after),
{
    let (p, w) = server.at_war(user)->Ok_0;
    crate::server_game::lemma_first_seat(server.players@, user, 0);
    let w2 = after.phase->War_0;
    let i = p.0 as int;
    let hand = w.hands@[i];
    assert(hand.wf());
    lemma_hand_view(hand);
    assert forall|c: Card| #[trigger] war_copies(w2, c) <= 3 by {
        assert(war_copies(w, c) <= 3);
        match action {
            Action::PlayCard { card } => {
                let at = position(hand@, card);
                let k = choose|k: int| 0 <= k < hand@.len() && hand@[k] == card;
                assert(0 <= at < hand@.len() && hand@[at] == card);
                lemma_hand_of(hand@.remove(at));
                lemma_occurs_remove(hand@, at, c);
                lemma_hand_copies_update(w.hands@, i, hand.without_card(card), c);
                lemma_occurs_push(w.trick_cards(), card, c);
                assert(w2.trick_cards() =~= w.trick_cards().push(card));
            },
            Action::PlayTop => {
                let card = w.deck@.last();
                assert(w.deck@.drop_last() =~= w.deck@.remove(w.deck@.len() - 1));
                lemma_occurs_remove(w.deck@, w.deck@.len() - 1, c);
                lemma_occurs_push(w.trick_cards(), card, c);
                assert(w2.trick_cards() =~= w.trick_cards().push(card));
            },
            Action::Slough { card } => {
                let at = position(hand@, card);
                let k = choose|k: int| 0 <= k < hand@.len() && hand@[k] == card;
                assert(0 <= at < hand@.len() && hand@[at] == card);
                lemma_hand_of(hand@.remove(at));
                lemma_occurs_remove(hand@, at, c);
                lemma_hand_copies_update(w.hands@, i, hand.without_card(card), c);
                lemma_occurs_push(w.trick_cards(), card, c);
                assert(w2.trick_cards() =~= w.trick_cards().push(card));
            },
            Action::Draw => {
                let card = w.deck@.last();
                assert(w.deck@.drop_last() =~= w.deck@.remove(w.deck@.len() - 1));
                lemma_occurs_remove(w.deck@, w.deck@.len() - 1, c);
                lemma_hand_of(hand@.push(card));
                lemma_occurs_push(hand@, card, c);
                lemma_hand_copies_update(w.hands@, i, hand.with_card(card), c);
            },
            _ => {},
        }
    }
}

/// In a war in which no card is more than three times, the pile of the winner
/// can take the cards of the trick: an acknowledgement is refused only where
/// a trick without a winner cannot be given up yet.
pub proof fn lemma_bounded_award(w: ServerWar, p: PlayerIdx)
    requires
        w.wf(),
        all_wf(w.won@),
        forall|c: Card| #[trigger] war_copies(w, c) <= 3,
    ensures
        w.finish_result(p) is Err ==> w.finish_result(p) == Err::<bool, GoatError>(GoatError::CannotFinishSloughingIncompleteTrick),
{
    if w.finish_awards(p) {
        let i = w.trick@.winner().unwrap().0 as int;
        assert(w.trick@.players[0].0 < w.hands@.len());
        let cards = w.trick_cards();
        assert(w.won@[i].wf());
        assert forall|c: Card| w.won@[i].count(c) + #[trigger] occurs(cards, c) <= 3 by {
            assert(war_copies(w, c) <= 3);
            lemma_copies_update(w.won@, i, w.won@[i], c);
        }
        lemma_plus_all_counts(w.won@[i], cards);
    }
}

/// After an acknowledgement each card is in the war as often as before.
pub proof fn lemma_bounded_acknowledged(w: ServerWar, p: PlayerIdx, w2: ServerWar)
    requires
        w.wf(),
        all_wf(w.won@),
        forall|c: Card| #[trigger] war_copies(w, c) <= 3,
        ServerGame::acknowledged(w, p, w2),
    ensures
        forall|c: Card| #[trigger] war_copies(w2, c) == war_copies(w, c),
{
    if w.finish_awards(p) {
        let i = w.trick@.winner().unwrap().0 as int;
        assert(w.trick@.players[0].0 < w.hands@.len());
        let cards = w.trick_cards();
        assert(w.won@[i].wf());
        assert forall|c: Card| w.won@[i].count(c) + #[trigger] occurs(cards, c) <= 3 by {
            assert(war_copies(w, c) <= 3);
            lemma_copies_update(w.won@, i, w.won@[i], c);
        }
        lemma_plus_all_counts(w.won@[i], cards);
        assert forall|c: Card| #[trigger] war_copies(w2, c) == war_copies(w, c) by {
            lemma_copies_update(w.won@, i, plus_all(w.won@[i], cards), c);
            assert(w2.trick_cards() =~= Seq::<Card>::empty());
            lemma_occurs_empty(c);
        }
    } else {
        assert forall|c: Card| #[trigger] war_copies(w2, c) == war_copies(w, c) by {
            assert(w2.trick_cards() =~= w.trick_cards());
        }
    }
}

/// How often seat `seat` has put the card `c` into a trick.
pub open spec fn plays_of_card(plays: Seq<WarPlay>, seat: int, c: Card) -> nat
    decreases plays.len(),
{
    if plays.len() == 0 {
        0
    } else {
        plays_of_card(plays.drop_first(), seat, c) + (if plays[0].player.0 == seat { one_if(plays[0].card, c) } else { 0nat })
    }
}

/// How often each of `n` seats has put the card `c` into a trick.
pub open spec fn plays_by_card(plays: Seq<WarPlay>, n: nat, c: Card) -> Seq<nat> {
    Seq::new(n, |i: int| plays_of_card(plays, i, c))
}

/// A card is in a trick as often as its seats have put it there.
pub proof fn lemma_plays_by_card(plays: Seq<WarPlay>, n: nat, c: Card)
    requires
        forall|k: int| 0 <= k < plays.len() ==> (#[trigger] plays[k]).player.0 < n,
    ensures
        sum(plays_by_card(plays, n, c)) == occurs(plays.map_values(|p: WarPlay| p.card), c),
    decreases plays.len(),
{
    let cards = plays.map_values(|p: WarPlay| p.card);
    if plays.len() == 0 {
        lemma_sum_zero(plays_by_card(plays, n, c));
        assert(cards =~= Seq::<Card>::empty());
        lemma_occurs_empty(c);
    } else {
        let rest = plays.drop_first();
        assert forall|k: int| 0 <= k < rest.len() implies (#[trigger] rest[k]).player.0 < n by {
            assert(rest[k] == plays[k + 1]);
        }
        lemma_plays_by_card(rest, n, c);
        assert(rest.map_values(|p: WarPlay| p.card) =~= cards.remove(0));
        lemma_occurs_remove(cards, 0, c);
        let p = plays[0].player.0 as int;
        let more = plays_of_card(rest, p, c) + one_if(plays[0].card, c);
        lemma_sum_update(plays_by_card(rest, n, c), p, more);
        assert(plays_by_card(plays, n, c) =~= plays_by_card(rest, n, c).update(p, more));
    }
}

/// A hand can take up what its seat has put into a trick where it then holds
/// no card more than three times, and it then holds each card as often as
/// before and as its seat has put it into the trick.
pub proof fn lemma_with_plays_counts(hand: Cards, plays: Seq<WarPlay>, seat: int)
    requires
        hand.wf(),
        forall|c: Card| hand.count(c) + #[trigger] plays_of_card(plays, seat, c) <= 3,
    ensures
        admits_plays(hand, plays, seat),
        with_plays(hand, plays, seat).wf(),
        forall|c: Card| #[trigger] with_plays(hand, plays, seat).count(c) == hand.count(c) + plays_of_card(plays, seat, c),
    decreases plays.len(),
{
    if plays.len() > 0 {
        let rest = plays.drop_first();
        if plays[0].player.0 == seat {
            let card = plays[0].card;
            let one = Cards::single(card);
            lemma_single_counts(card);
            lemma_fits_single(hand, card);
            assert(hand.count(card) + plays_of_card(plays, seat, card) <= 3);
            lemma_plus(hand, one);
            assert forall|c: Card| hand.plus(one).count(c) + #[trigger] plays_of_card(rest, seat, c) <= 3 by {
                assert(hand.count(c) + plays_of_card(plays, seat, c) <= 3);
            }
            lemma_with_plays_counts(hand.plus(one), rest, seat);
            assert forall|c: Card| #[trigger] with_plays(hand, plays, seat).count(c) == hand.count(c) + plays_of_card(plays, seat, c) by {
                assert(with_plays(hand.plus(one), rest, seat).count(c) == hand.plus(one).count(c) + plays_of_card(rest, seat, c));
            }
        } else {
            assert forall|c: Card| hand.count(c) + #[trigger] plays_of_card(rest, seat, c) <= 3 by {
                assert(hand.count(c) + plays_of_card(plays, seat, c) <= 3);
            }
            lemma_with_plays_counts(hand, rest, seat);
            assert forall|c: Card| #[trigger] with_plays(hand, plays, seat).count(c) == hand.count(c) + plays_of_card(plays, seat, c) by {
                assert(with_plays(hand, rest, seat).count(c) == hand.count(c) + plays_of_card(rest, seat, c));
            }
        }
    }
}

/// In a war in which no card is more than three times, the hand with which a
/// seat begins the rummy can be made, and it holds each card as often as the
/// hand and the pile of the seat did and as the seat has put it into the
/// trick.
pub proof fn lemma_bounded_hand(w: ServerWar, i: int)
    requires
        w.won@.len() == w.hands@.len(),
        forall|k: int| 0 <= k < w.trick@.plays.len() ==> (#[trigger] w.trick@.plays[k]).player.0 < w.hands@.len(),
        all_wf(w.won@),
        forall|c: Card| #[trigger] war_copies(w, c) <= 3,
        0 <= i < w.hands@.len(),
    ensures
        w.hands@[i].can_merge(w.won@[i]),
        admits_plays(w.hands@[i].merged(w.won@[i]), w.trick@.plays, i),
        forall|c: Card| #[trigger]
            w.rummy_hand(i).count(c) == w.won@[i].count(c) + occurs(w.hands@[i]@, c) + plays_of_card(w.trick@.plays, i, c),
{
    let n = w.hands@.len();
    let plays = w.trick@.plays;
    let won = w.won@[i];
    let hand = w.hands@[i]@;
    assert(won.wf());
    assert forall|c: Card| won.count(c) + occurs(hand, c) + #[trigger] plays_of_card(plays, i, c) <= 3 by {
        assert(war_copies(w, c) <= 3);
        lemma_copies_update(w.won@, i, won, c);
        lemma_hand_copies_update(w.hands@, i, w.hands@[i], c);
        lemma_plays_by_card(plays, n, c);
        lemma_sum_update(plays_by_card(plays, n, c), i, plays_of_card(plays, i, c));
    }
    assert forall|c: Card| won.count(c) + #[trigger] occurs(hand, c) <= 3 by {
        assert(won.count(c) + occurs(hand, c) + plays_of_card(plays, i, c) <= 3);
    }
    lemma_plus_all_counts(won, hand);
    let all = plus_all(won, hand);
    assert forall|c: Card| all.count(c) + #[trigger] plays_of_card(plays, i, c) <= 3 by {
        assert(won.count(c) + occurs(hand, c) + plays_of_card(plays, i, c) <= 3);
        assert(all.count(c) == won.count(c) + occurs(hand, c));
    }
    lemma_with_plays_counts(all, plays, i);
    assert forall|c: Card| #[trigger]
        w.rummy_hand(i).count(c) == w.won@[i].count(c) + occurs(w.hands@[i]@, c) + plays_of_card(plays, i, c) by {
        assert(all.count(c) == won.count(c) + occurs(hand, c));
        assert(with_plays(all, plays, i).count(c) == all.count(c) + plays_of_card(plays, i, c));
    }
}

/// In a war in which no card is more than three times, the hands for the
/// rummy can be made.
pub proof fn lemma_bounded_switch(w: ServerWar)
    requires
        w.won@.len() == w.hands@.len(),
        forall|k: int| 0 <= k < w.trick@.plays.len() ==> (#[trigger] w.trick@.plays[k]).player.0 < w.hands@.len(),
        all_wf(w.won@),
        forall|c: Card| #[trigger] war_copies(w, c) <= 3,
    ensures
        w.can_switch(),
{
    assert forall|i: int| 0 <= i < w.hands@.len() implies (#[trigger] w.hands@[i]).can_merge(w.won@[i]) && admits_plays(
        w.hands@[i].merged(w.won@[i]),
        w.trick@.plays,
        i,
    ) by {
        lemma_bounded_hand(w, i);
    }
}

/// The hands with which a rummy begins hold each card as often as the hands,
/// the piles and the trick of the war before it did.
pub proof fn lemma_bounded_follows(w: ServerWar, rm: ServerRummy, c: Card)
    requires
        w.won@.len() == w.hands@.len(),
        forall|k: int| 0 <= k < w.trick@.plays.len() ==> (#[trigger] w.trick@.plays[k]).player.0 < w.hands@.len(),
        all_wf(w.won@),
        forall|c: Card| #[trigger] war_copies(w, c) <= 3,
        ServerGame::follows(w, rm),
    ensures
        sum(copies(rm.hands@, c)) + occurs(w.deck@, c) == war_copies(w, c),
{
    let n = w.hands@.len();
    let plays = w.trick@.plays;
    let a = hand_copies(w.hands@, c);
    let b = copies(w.won@, c);
    let pc = plays_by_card(plays, n, c);
    let ab = Seq::new(n, |i: int| a[i] + b[i]);
    let abc = Seq::new(n, |i: int| ab[i] + pc[i]);
    assert(copies(rm.hands@, c) =~= abc) by {
        assert forall|i: int| 0 <= i < n implies copies(rm.hands@, c)[i] == abc[i] by {
            assert(rm.hands@[i] == w.rummy_hand(i));
            lemma_bounded_hand(w, i);
            assert(w.rummy_hand(i).count(c) == w.won@[i].count(c) + occurs(w.hands@[i]@, c) + plays_of_card(plays, i, c));
        }
    }
    lemma_sum_add(a, b);
    lemma_sum_add(ab, pc);
    lemma_plays_by_card(plays, n, c);
}

/// A card occurs in a sequence as often as before and behind a cut together.
pub proof fn lemma_occurs_cut(s: Seq<Card>, n: int, c: Card)
    requires
        0 <= n <= s.len(),
    ensures
        occurs(s, c) == occurs(s.subrange(0, n), c) + occurs(s.subrange(n, s.len() as int), c),
{
    lemma_multiset_commutative(s.subrange(0, n), s.subrange(n, s.len() as int));
    assert(s =~= s.subrange(0, n) + s.subrange(n, s.len() as int));
}

/// Where the hands hold no card more than three times together, what they
/// give up can lie in one set, and each card is given up and kept as often as
/// the hands held it.
pub proof fn lemma_bounded_pot(hands: Seq<Cards>, set: Cards)
    requires
        all_wf(hands),
        forall|c: Card| #[trigger] sum(copies(hands, c)) <= 3,
    ensures
        pot_fits(hands, set),
        pot(hands, set).wf(),
        all_wf(kept(hands, set)),
        forall|c: Card| #[trigger] sum(copies(kept(hands, set), c)) + pot(hands, set).count(c) == sum(copies(hands, c)),
    decreases hands.len(),
{
    crate::cards::lemma_named_sets();
    if hands.len() == 0 {
        assert forall|c: Card| #[trigger] sum(copies(kept(hands, set), c)) + pot(hands, set).count(c) == sum(copies(hands, c)) by {
            assert(copies(kept(hands, set), c) =~= copies(hands, c));
        }
    } else {
        let rest = hands.drop_last();
        let hand = hands.last();
        assert(hand == hands[hands.len() - 1]);
        assert forall|i: int| 0 <= i < rest.len() implies (#[trigger] rest[i]).wf() by {
            assert(rest[i] == hands[i]);
        }
        assert forall|c: Card| #[trigger] sum(copies(rest, c)) <= 3 by {
            assert(copies(hands, c).drop_last() =~= copies(rest, c));
            assert(sum(copies(hands, c)) <= 3);
        }
        lemma_bounded_pot(rest, set);
        crate::cards::lemma_part(hand, set);
        crate::cards::lemma_minus(hand, hand.part(set));
        assert(pot(rest, set).fits(hand.part(set))) by {
            assert forall|c: Card| pot(rest, set).count(c) + hand.part(set).count(c) <= 3 by {
                assert(sum(copies(kept(rest, set), c)) + pot(rest, set).count(c) == sum(copies(rest, c)));
                assert(copies(hands, c).drop_last() =~= copies(rest, c));
                assert(sum(copies(hands, c)) <= 3);
            }
        }
        lemma_plus(pot(rest, set), hand.part(set));
        assert(kept(hands, set).drop_last() =~= kept(rest, set));
        assert forall|i: int| 0 <= i < kept(hands, set).len() implies (#[trigger] kept(hands, set)[i]).wf() by {
            if i < rest.len() {
                assert(kept(hands, set)[i] == kept(rest, set)[i]);
            }
        }
        assert forall|c: Card| #[trigger] sum(copies(kept(hands, set), c)) + pot(hands, set).count(c) == sum(copies(hands, c)) by {
            assert(sum(copies(kept(rest, set), c)) + pot(rest, set).count(c) == sum(copies(rest, c)));
            assert(copies(hands, c).drop_last() =~= copies(rest, c));
            assert(copies(kept(hands, set), c).drop_last() =~= copies(kept(rest, set), c));
        }
    }
}

/// Where the hands and the cards to deal hold no card more than three times
/// together, the cards can be dealt, and the hands then hold no card more
/// often than the hands and the cards held it.
pub proof fn lemma_bounded_deal(hands: Seq<Cards>, order: Seq<PlayerIdx>, cards: Seq<Card>)
    requires
        all_wf(hands),
        forall|k: int| 0 <= k < order.len() ==> (#[trigger] order[k]).0 < hands.len(),
        forall|c: Card| sum(copies(hands, c)) + #[trigger] occurs(cards, c) <= 3,
    ensures
        deal_fits(hands, order, cards),
        forall|c: Card| #[trigger] sum(copies(dealt(hands, order, cards), c)) <= sum(copies(hands, c)) + occurs(cards, c),
    decreases order.len(),
{
    if order.len() > 0 {
        let n = share_len(cards.len(), order.len()) as int;
        assert(0 <= n <= cards.len()) by (nonlinear_arith)
            requires
                n == cards.len() / order.len(),
                order.len() >= 1,
        ;
        let share = cards.subrange(0, n);
        let rest = cards.subrange(n, cards.len() as int);
        let p = order[0].0 as int;
        let hand = hands[p];
        assert(hand.wf());
        crate::cards::lemma_named_sets();
        assert forall|c: Card| Cards::spec_none().count(c) + #[trigger] occurs(share, c) <= 3 by {
            lemma_occurs_cut(cards, n, c);
            assert(sum(copies(hands, c)) + occurs(cards, c) <= 3);
        }
        lemma_plus_all_counts(Cards::spec_none(), share);
        let set = plus_all(Cards::spec_none(), share);
        assert(hand.fits(set)) by {
            assert forall|c: Card| hand.count(c) + set.count(c) <= 3 by {
                lemma_occurs_cut(cards, n, c);
                lemma_copies_update(hands, p, hand, c);
                assert(sum(copies(hands, c)) + occurs(cards, c) <= 3);
                assert(set.count(c) == Cards::spec_none().count(c) + occurs(share, c));
            }
        }
        lemma_plus(hand, set);
        let after = hands.update(p, hand.plus(set));
        assert forall|i: int| 0 <= i < after.len() implies (#[trigger] after[i]).wf() by {
            if i != p {
                assert(after[i] == hands[i]);
            }
        }
        assert forall|k: int| 0 <= k < order.drop_first().len() implies (#[trigger] order.drop_first()[k]).0 < after.len() by {
            assert(order.drop_first()[k] == order[k + 1]);
        }
        assert forall|c: Card| sum(copies(after, c)) + #[trigger] occurs(rest, c) <= 3 && sum(copies(after, c)) + occurs(rest, c) == sum(
            copies(hands, c),
        ) + occurs(cards, c) by {
            lemma_occurs_cut(cards, n, c);
            lemma_copies_update(hands, p, hand.plus(set), c);
            assert(set.count(c) == Cards::spec_none().count(c) + occurs(share, c));
            assert(sum(copies(hands, c)) + occurs(cards, c) <= 3);
        }
        lemma_bounded_deal(after, order.drop_first(), rest);
        assert forall|c: Card| #[trigger] sum(copies(dealt(hands, order, cards), c)) <= sum(copies(hands, c)) + occurs(cards, c) by {
            assert(sum(copies(dealt(after, order.drop_first(), rest), c)) <= sum(copies(after, c)) + occurs(rest, c));
            assert(sum(copies(after, c)) + occurs(rest, c) == sum(copies(hands, c)) + occurs(cards, c));
        }
    }
}

/// Where the hands of a rummy hold no card more than three times together,
/// the dreck can be taken and dealt, and the hands then hold no card more
/// often than before.
pub proof fn lemma_bounded_dreck(rm: ServerRummy, order: Seq<PlayerIdx>, cards: Seq<Card>)
    requires
        all_wf(rm.hands@),
        rm.hands@.len() <= 256,
        takers(rm.hands@).len() > 0,
        forall|c: Card| #[trigger] sum(copies(rm.hands@, c)) <= 3,
        takers(rm.hands@).len() != 1 ==> order.to_multiset() == takers(rm.hands@).to_multiset() && forall|c: Card| #[trigger]
            occurs(cards, c) == pot(rm.hands@, dreck_set(rm.trump)).count(c),
    ensures
        pot_fits(rm.hands@, dreck_set(rm.trump)),
        rm.dreck_fits(order, cards),
        forall|c: Card| #[trigger] sum(copies(rm.dreck_hands(order, cards), c)) <= 3,
{
    let hands = rm.hands@;
    let set = dreck_set(rm.trump);
    let t = takers(hands);
    let k = kept(hands, set);
    let all = pot(hands, set);
    lemma_bounded_pot(hands, set);
    if t.len() == 1 {
        let i = t[0].0 as int;
        crate::tally::lemma_takers(hands, 0);
        assert(k[i].fits(all)) by {
            assert forall|c: Card| k[i].count(c) + all.count(c) <= 3 by {
                lemma_copies_update(k, i, k[i], c);
                assert(sum(copies(k, c)) + all.count(c) == sum(copies(hands, c)));
                assert(sum(copies(hands, c)) <= 3);
            }
        }
        lemma_plus(k[i], all);
        assert forall|c: Card| #[trigger] sum(copies(rm.dreck_hands(order, cards), c)) <= 3 by {
            lemma_copies_update(k, i, k[i].plus(all), c);
            assert(sum(copies(k, c)) + all.count(c) == sum(copies(hands, c)));
            assert(sum(copies(hands, c)) <= 3);
        }
    } else {
        assert forall|j: int| 0 <= j < order.len() implies (#[trigger] order[j]).0 < k.len() by {
            order.to_multiset_ensures();
            t.to_multiset_ensures();
            assert(order.contains(order[j]));
            assert(order.to_multiset().count(order[j]) > 0);
            assert(t.to_multiset().count(order[j]) > 0);
            assert(t.contains(order[j]));
            let at = choose|at: int| 0 <= at < t.len() && t[at] == order[j];
            crate::tally::lemma_takers(hands, at);
        }
        assert forall|c: Card| sum(copies(k, c)) + #[trigger] occurs(cards, c) <= 3 by {
            assert(occurs(cards, c) == all.count(c));
            assert(sum(copies(k, c)) + all.count(c) == sum(copies(hands, c)));
            assert(sum(copies(hands, c)) <= 3);
        }
        lemma_bounded_deal(k, order, cards);
        assert forall|c: Card| #[trigger] sum(copies(rm.dreck_hands(order, cards), c)) <= 3 by {
            assert(sum(copies(dealt(k, order, cards), c)) <= sum(copies(k, c)) + occurs(cards, c));
            assert(occurs(cards, c) == all.count(c));
            assert(sum(copies(k, c)) + all.count(c) == sum(copies(hands, c)));
            assert(sum(copies(hands, c)) <= 3);
        }
    }
}

/// A card lies in the runs of a trick as often as in those before and behind
/// a cut together.
pub proof fn lemma_run_copies_cut(plays: Seq<(Card, Card)>, k: int, c: Card)
    requires
        0 <= k <= plays.len(),
    ensures
        run_copies(plays, c) == run_copies(plays.subrange(0, k), c) + run_copies(plays.subrange(k, plays.len() as int), c),
    decreases plays.len(),
{
    if k == plays.len() {
        assert(plays.subrange(0, k) =~= plays);
        assert(plays.subrange(k, plays.len() as int) =~= Seq::<(Card, Card)>::empty());
    } else {
        let rest = plays.drop_last();
        lemma_run_copies_cut(rest, k, c);
        assert(rest.subrange(0, k) =~= plays.subrange(0, k));
        assert(plays.subrange(k, plays.len() as int).drop_last() =~= rest.subrange(k, rest.len() as int));
        assert(plays.subrange(k, plays.len() as int).last() == plays.last());
    }
}

/// A card of the run that plays make together, each going on where the one
/// before stops, lies in one of them.
pub proof fn lemma_joined_copies(plays: Seq<(Card, Card)>, n: int, c: Card)
    requires
        1 <= n <= plays.len(),
        forall|i: int| 0 <= i < plays.len() ==> Cards::is_run((#[trigger] plays[i]).0, plays[i].1),
        forall|j: int| 1 <= j < n ==> follows(plays[j - 1].1, #[trigger] plays[j].0),
        Cards::in_run(c, plays[0].0, plays[n - 1].1),
    ensures
        run_copies(plays.subrange(0, n), c) >= 1,
    decreases n,
{
    let first = plays.subrange(0, n);
    assert(first.drop_last() =~= plays.subrange(0, n - 1));
    assert(first.last() == plays[n - 1]);
    if n == 1 {
    } else {
        lemma_joined_run(plays, n - 1);
        assert(follows(plays[n - 2].1, plays[n - 1].0));
        assert(Cards::is_run(plays[n - 1].0, plays[n - 1].1));
        if c.spec_rank().spec_idx() <= plays[n - 2].1.spec_rank().spec_idx() {
            lemma_joined_copies(plays, n - 1, c);
        }
    }
}

/// In a rummy in which no card is more than three times, the hand of the
/// seat whose turn it is can take what a pick-up takes from the trick.
pub proof fn lemma_bounded_pick_up(rm: ServerRummy, c: Card)
    requires
        rm.wf(),
        rm.trick@.wf(),
        rm.trick@.plays.len() > 0,
        rummy_copies(rm, c) <= 3,
    ensures
        Cards::is_run(rm.trick@.picked().0, rm.trick@.picked().1),
        rm.hands@[rm.next.0 as int].count(c) <= sum(copies(rm.hands@, c)),
        rm.picked().count(c) + sum(copies(rm.hands@, c)) + run_copies(rm.trick@.after_pick_up().plays, c) <= 3,
{
    let plays = rm.trick@.plays;
    lemma_connected(plays, 1);
    let k = connected(plays, 1);
    lemma_joined_run(plays, k);
    crate::cards::lemma_range_counts(plays[0].0, plays[k - 1].1);
    lemma_run_copies_cut(plays, k, c);
    if Cards::in_run(c, plays[0].0, plays[k - 1].1) {
        lemma_joined_copies(plays, k, c);
    }
    lemma_copies_update(rm.hands@, rm.next.0 as int, rm.hands@[rm.next.0 as int], c);
}

/// A run played from a hand, or picked up into one, leaves each card in the
/// rummy as often as before, or less often where a full trick is put aside.
pub proof fn lemma_bounded_rummy(server: ServerGame, user: UserId, action: Action, after: ServerGame)
    requires
        server.wf(),
        sound(server),
        bounded(server),
        action is PlayRun || action is PickUp,
        server.applied(user, action, Ok(()), after),
    ensures
        bounded(after),
{
    let (p, rm) = server.at_rummy(user)->Ok_0;
    let i = rm.next.0 as int;
    let hand = rm.hands@[i];
    assert(hand.wf());
    if after.phase is Rummy {
        let rm2 = after.phase->Rummy_0;
        assert forall|c: Card| #[trigger] rummy_copies(rm2, c) <= 3 by {
            assert(rummy_copies(rm, c) <= 3);
            match action {
                Action::PlayRun { lo, hi } => {
                    let run = Cards::spec_range(lo, hi);
                    crate::cards::lemma_range_counts(lo, hi);
                    crate::cards::lemma_minus(hand, run);
                    lemma_copies_update(rm.hands@, i, hand.minus(run), c);
                    assert(rm.trick@.play(lo, hi).plays.drop_last() =~= rm.trick@.plays);
                },
                Action::PickUp => {
                    lemma_bounded_pick_up(rm, c);
                    crate::cards::lemma_range_wf(rm.trick@.picked().0, rm.trick@.picked().1);
                    lemma_plus(hand, rm.picked());
                    lemma_copies_update(rm.hands@, i, hand.plus(rm.picked()), c);
                },
                _ => {},
            }
        }
    }
}

/// An acknowledgement in a war in which no card is more than three times is
/// refused only where a trick without a winner cannot be given up yet, and
/// leaves a game in which no card is more than three times, also where it
/// ends the war and the rummy begins.
pub proof fn lemma_bounded_finish(server: ServerGame, user: UserId, r: Result<(), GoatError>, after: ServerGame)
    requires
        server.wf(),
        sound(server),
        bounded(server),
        server.at_war(user) is Ok,
        server.applied(user, Action::FinishTrick, r, after),
    ensures
        r is Err ==> r == Err::<(), GoatError>(GoatError::CannotFinishSloughingIncompleteTrick),
        bounded(after),
{
    let (p, w) = server.at_war(user)->Ok_0;
    crate::server_game::lemma_first_seat(server.players@, user, 0);
    lemma_bounded_award(w, p);
    if w.finish_result(p) is Ok {
        let complete = w.finish_result(p)->Ok_0;
        if complete && crate::server_game::war_over(w.deck@, w.hands@, w.trick_after_finish(p)) {
            let w2 = choose|w2: ServerWar| #[trigger] ServerGame::acknowledged(w, p, w2) && server.war_ended(w2, p, r, after);
            lemma_bounded_acknowledged(w, p, w2);
            crate::tally::lemma_acknowledged(w, p, w2);
            assert forall|c: Card| #[trigger] war_copies(w2, c) <= 3 by {
                assert(war_copies(w, c) <= 3);
                assert(war_copies(w2, c) == war_copies(w, c));
            }
            lemma_bounded_switch(w2);
            let middle = server.events@ + seq![Event::FinishTrick { player: p }, Event::RevealTrump { trump: w2.deck@[0] }];
            let rm = choose|rm: ServerRummy| #[trigger] ServerGame::follows(w2, rm) && server.dreck_dealt(rm, middle, r, after);
            crate::tally::lemma_rummy_hands(w2, rm);
            assert forall|c: Card| #[trigger] sum(copies(rm.hands@, c)) <= 3 by {
                assert(war_copies(w2, c) <= 3);
                lemma_bounded_follows(w2, rm, c);
            }
            if takers(rm.hands@).len() > 0 {
                lemma_bounded_pot(rm.hands@, dreck_set(rm.trump));
                let listing = choose|listing: Seq<Card>| #[trigger]
                    rm.dreck_done(
                        ServerGame::rummy_then(rm, r, after),
                        middle,
                        ServerGame::events_then(middle, r, after),
                        r is Ok,
                        server.seed,
                        listing,
                    );
                let shuffled = crate::lists::dreck_order(takers(rm.hands@), listing, server.seed ^ 1);
                if takers(rm.hands@).len() != 1 {
                    listing.lemma_reverse_to_multiset();
                    assert forall|c: Card| #[trigger] occurs(shuffled.1, c) == pot(rm.hands@, dreck_set(rm.trump)).count(c) by {
                        assert(occurs(shuffled.1, c) == occurs(listing.reverse(), c));
                        assert(listing.reverse().to_multiset().count(c) == pot(rm.hands@, dreck_set(rm.trump)).count(c));
                    }
                }
                lemma_bounded_dreck(rm, shuffled.0, shuffled.1);
                assert(r is Ok);
                let rm2 = after.phase->Rummy_0;
                assert forall|c: Card| #[trigger] rummy_copies(rm2, c) <= 3 by {
                    assert(sum(copies(rm.dreck_hands(shuffled.0, shuffled.1), c)) <= 3);
                }
            } else {
                let rm2 = after.phase->Rummy_0;
                assert forall|c: Card| #[trigger] rummy_copies(rm2, c) <= 3 by {
                    assert(sum(copies(rm.hands@, c)) <= 3);
                }
            }
        } else {
            let w2 = after.phase->War_0;
            lemma_bounded_acknowledged(w, p, w2);
            assert forall|c: Card| #[trigger] war_copies(w2, c) <= 3 by {
                assert(war_copies(w, c) <= 3);
                assert(war_copies(w2, c) == war_copies(w, c));
            }
        }
    }
}

/// Whatever the players do, no card is ever in the game more than three
/// times.
pub proof fn lemma_bounded_kept(server: ServerGame, user: UserId, action: Action, r: Result<(), GoatError>, after: ServerGame)
    requires
        server.wf(),
        sound(server),
        bounded(server),
        server.applied(user, action, r, after),
    ensures
        bounded(after),
{
    if r is Ok {
        assert(r->Ok_0 == ());
        assert(r == Ok::<(), GoatError>(()));
        match action {
            Action::Join { .. } => {},
            Action::Leave { .. } => {},
            Action::Start { num_decks } => {
                lemma_bounded_start(server, num_decks, after);
            },
            Action::PlayCard { .. } | Action::PlayTop | Action::Slough { .. } | Action::Draw => {
                lemma_bounded_war(server, user, action, after);
            },
            Action::FinishTrick => {
                lemma_bounded_finish(server, user, r, after);
            },
            Action::PlayRun { .. } | Action::PickUp => {
                lemma_bounded_rummy(server, user, action, after);
            },
            Action::Goat { .. } => {},
        }
    }
}

/// No pile and no hand ever has to refuse a card: in a game whose cards are
/// all there and in which no card is more than three times, an
/// acknowledgement in the war and a pick-up in the rummy are not refused as
/// invalid actions.
pub proof fn lemma_never_full(server: ServerGame, user: UserId, action: Action, after: ServerGame)
    requires
        server.wf(),
        sound(server),
        bounded(server),
        server.applied(user, action, Err(GoatError::InvalidAction), after),
    ensures
        action is FinishTrick ==> !(server.phase is War),
        action is PickUp ==> !(server.phase is Rummy),
{
    if action is FinishTrick && server.phase is War {
        lemma_bounded_finish(server, user, Err(GoatError::InvalidAction), after);
    }
    if action is PickUp && server.phase is Rummy {
        let (p, rm) = server.at_rummy(user)->Ok_0;
        let hand = rm.hands@[rm.next.0 as int];
        if rm.next == p && rm.trick@.plays.len() > 0 {
            assert(hand.fits(rm.picked())) by {
                assert forall|c: Card| hand.count(c) + rm.picked().count(c) <= 3 by {
                    assert(rummy_copies(rm, c) <= 3);
                    lemma_bounded_pick_up(rm, c);
                }
            }
        }
    }
}

} // verus!
