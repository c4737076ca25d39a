//! A client follows the server: after each action, the client that applies
//! what the action has added to the log, as far as its receiver may see it,
//! holds what the server holds, as far as its receiver may know it.
use vstd::prelude::*;
use crate::action::Action;
use crate::card::Card;
use crate::cards::{lemma_includes_len, lemma_meet, lemma_minus, lemma_plus, lemma_range_counts, lemma_range_wf, Cards};
use crate::client_game::{ClientGame, ClientPhase, ClientRummy, ClientWar};
use crate::error::GoatError;
use crate::event::Event;
use crate::handover::{chain, lemma_replay_war_end};
use crate::id::{PlayerIdx, UserId};
use crate::prev_trick::PreviousTrick;
use crate::rummy_hand::{ClientRummyHand, RummyHand};
use crate::rummy_history::RummyHistory;
use crate::rummy_phase::{all_at_ten, count_holding, seek};
use crate::server::redacted;
use crate::server_game::{ServerGame, ServerPhase, ServerRummy, ServerWar};
use crate::tally::{all_wf, lemma_with_card, lemma_without_card, sound};
use crate::war_hand::{lemma_hand_view, ClientWarHand, ServerWarHand, WarHand};
use crate::war_phase::some_empty;

verus! {

/// Whether `receiver` is told whole what happens to the cards of seat `seat`:
/// a player is told of their own cards, and a receiver without a seat of all.
pub open spec fn sees(receiver: Option<PlayerIdx>, seat: int) -> bool {
    match receiver {
        None => true,
        Some(p) => p.0 == seat,
    }
}

/// The hand of a client that has seen all cards of `hand`.
pub open spec fn seen(hand: Cards) -> ClientRummyHand {
    ClientRummyHand { known: hand, unknown: 0 }
}

/// Whether `theirs` is what a client holds of the hand `hand` of a war: the
/// hand itself where it is told of its cards, else the number of its cards.
pub open spec fn war_seen(whole: bool, hand: ServerWarHand, theirs: ClientWarHand) -> bool {
    if whole {
        theirs == ClientWarHand::Visible(hand)
    } else {
        match theirs {
            ClientWarHand::Visible(h) => h == hand && hand@.len() == 0,
            ClientWarHand::Hidden(n) => n == hand@.len(),
        }
    }
}

/// Whether a client knows of the hand `hand` what `theirs` says: the cards
/// that it knows are cards of the hand, and the number of the others is right.
pub open spec fn known_of(hand: Cards, theirs: ClientRummyHand) -> bool {
    &&& theirs.known.wf()
    &&& hand.includes(theirs.known)
    &&& theirs.known.spec_len() + theirs.unknown == hand.spec_len()
}

/// Whether `theirs` is what a client holds of the hand `hand` of a rummy: the
/// whole hand where it is told of its cards, else some of its cards and the
/// number of the others.
pub open spec fn rummy_seen(whole: bool, hand: Cards, theirs: ClientRummyHand) -> bool {
    if whole {
        theirs == seen(hand)
    } else {
        known_of(hand, theirs)
    }
}

/// Whether the war of a client is that of the server as `receiver` may know
/// it: the hands as far as the receiver is told of them, and how many cards
/// can be taken from the deck.
pub open spec fn war_mirrors<T: PreviousTrick>(receiver: Option<PlayerIdx>, s: ServerWar, c: ClientWar<T>) -> bool {
    &&& c.deck.0 + 1 == s.deck@.len()
    &&& c.hands@.len() == s.hands@.len()
    &&& forall|i: int| 0 <= i < s.hands@.len() ==> war_seen(sees(receiver, i), #[trigger] s.hands@[i], c.hands@[i])
    &&& c.won@ == s.won@
    &&& c.trick@ == s.trick@
}

/// Whether the rummy of a client is that of the server as `receiver` may know
/// it.
pub open spec fn rummy_mirrors<Hist: RummyHistory>(receiver: Option<PlayerIdx>, s: ServerRummy, c: ClientRummy<Hist>) -> bool {
    &&& c.hands@.len() == s.hands@.len()
    &&& forall|i: int| 0 <= i < s.hands@.len() ==> rummy_seen(sees(receiver, i), #[trigger] s.hands@[i], c.hands@[i])
    &&& c.trick@ == s.trick@
    &&& c.next == s.next
    &&& c.trump == s.trump
    &&& c.pick_ups == s.pick_ups
}

/// Whether the game of a client is that of the server as `receiver` may know
/// it: the players, the phase, the trick and the turn are those of the
/// server; of each hand the client holds the cards where the receiver is told
/// of them, and else the number of the cards and those that were shown.
pub open spec fn mirrors<T: PreviousTrick, Hist: RummyHistory>(
    server: ServerGame,
    client: ClientGame<T, Hist>,
    receiver: Option<PlayerIdx>,
) -> bool {
    &&& client.players@ == server.players@
    &&& match server.phase {
        ServerPhase::Unstarted => client.phase is Unstarted,
        ServerPhase::War(s) => client.phase matches ClientPhase::War(c) && war_mirrors(receiver, s, c),
        ServerPhase::Rummy(s) => client.phase matches ClientPhase::Rummy(c) && rummy_mirrors(receiver, s, c),
        ServerPhase::Goat(g) => client.phase matches ClientPhase::Goat(h) && g == h,
    }
}

/// What a client holds of a hand holds as many cards as the hand.
pub proof fn lemma_seen_len(whole: bool, hand: Cards, theirs: ClientRummyHand)
    requires
        hand.wf(),
        rummy_seen(whole, hand, theirs),
    ensures
        known_of(hand, theirs),
        theirs.spec_len() == hand.spec_len(),
{
}

/// Cards of a hand can be taken from what a client holds of it, and what is
/// left is what the client then holds of the rest of the hand.
pub proof fn lemma_seen_without(whole: bool, hand: Cards, theirs: ClientRummyHand, cards: Cards)
    requires
        hand.wf(),
        cards.wf(),
        hand.includes(cards),
        rummy_seen(whole, hand, theirs),
    ensures
        theirs.holds(cards),
        hand.minus(cards).wf(),
        rummy_seen(whole, hand.minus(cards), theirs.without_cards(cards)),
{
    let known = theirs.known;
    let both = known.spec_meet(cards);
    lemma_meet(known, cards);
    lemma_minus(hand, cards);
    lemma_minus(hand, known);
    lemma_minus(cards, both);
    lemma_minus(known, both);
    let missing = cards.minus(both);
    let unseen = hand.minus(known);
    assert(unseen.includes(missing));
    lemma_includes_len(unseen, missing);
    assert(hand.minus(cards).includes(known.minus(both)));
    if whole {
        assert(both == cards);
    }
}

/// Cards that a hand can take can be added to what a client holds of it, and
/// the sum is what the client then holds of the larger hand.
pub proof fn lemma_seen_with(whole: bool, hand: Cards, theirs: ClientRummyHand, cards: Cards)
    requires
        hand.wf(),
        cards.wf(),
        hand.fits(cards),
        rummy_seen(whole, hand, theirs),
    ensures
        theirs.admits(cards),
        hand.plus(cards).wf(),
        rummy_seen(whole, hand.plus(cards), theirs.with_cards(cards)),
{
    let known = theirs.known;
    lemma_plus(hand, cards);
    assert(known.fits(cards));
    lemma_plus(known, cards);
    assert(hand.plus(cards).includes(known.plus(cards)));
}

/// Where a client holds of each hand what it may know, its hands hold as many
/// cards as those of the server, hand by hand.
pub proof fn lemma_seen_lens(receiver: Option<PlayerIdx>, hands: Seq<Cards>, theirs: Seq<ClientRummyHand>)
    requires
        all_wf(hands),
        theirs.len() == hands.len(),
        forall|i: int| 0 <= i < hands.len() ==> rummy_seen(sees(receiver, i), #[trigger] hands[i], theirs[i]),
    ensures
        same_lens(hands, theirs),
{
    assert forall|i: int| 0 <= i < hands.len() implies (#[trigger] hands[i]).spec_len() == theirs[i].spec_len() by {
        lemma_seen_len(sees(receiver, i), hands[i], theirs[i]);
    }
}

/// Whether two lists of hands hold equally many cards, hand by hand.
pub open spec fn same_lens<A: RummyHand, B: RummyHand>(a: Seq<A>, b: Seq<B>) -> bool {
    a.len() == b.len() && forall|i: int| 0 <= i < a.len() ==> (#[trigger] a[i]).spec_len() == b[i].spec_len()
}

/// Hands that hold equally many cards count alike.
pub proof fn lemma_same_count<A: RummyHand, B: RummyHand>(a: Seq<A>, b: Seq<B>)
    requires
        same_lens(a, b),
    ensures
        count_holding(a) == count_holding(b),
    decreases a.len(),
{
    if a.len() > 0 {
        assert(same_lens(a.drop_last(), b.drop_last())) by {
            assert forall|i: int| 0 <= i < a.drop_last().len() implies (#[trigger] a.drop_last()[i]).spec_len() == b.drop_last()[i].spec_len() by {
                assert(a.drop_last()[i] == a[i]);
                assert(b.drop_last()[i] == b[i]);
            }
        }
        lemma_same_count(a.drop_last(), b.drop_last());
        assert(a.last() == a[a.len() - 1]);
        assert(b.last() == b[b.len() - 1]);
    }
}

/// The search for a seat that holds cards ends alike among hands that hold
/// equally many cards.
pub proof fn lemma_same_seek<A: RummyHand, B: RummyHand>(a: Seq<A>, b: Seq<B>, pos: int, fuel: nat)
    requires
        same_lens(a, b),
        a.len() > 0,
    ensures
        seek(a, pos, fuel) == seek(b, pos, fuel),
    decreases fuel,
{
    let p = if 0 <= pos < a.len() { pos } else { 0 };
    assert(a[p].spec_len() == b[p].spec_len());
    if !(fuel == 0 || a[p].spec_len() > 0) {
        lemma_same_seek(a, b, p + 1, (fuel - 1) as nat);
    }
}

/// Whether all who hold cards have picked up ten times is the same among hands
/// that hold equally many cards.
pub proof fn lemma_same_ten<A: RummyHand, B: RummyHand>(a: Seq<A>, b: Seq<B>, pick_ups: u64)
    requires
        same_lens(a, b),
    ensures
        all_at_ten(a, pick_ups) == all_at_ten(b, pick_ups),
{
    if all_at_ten(a, pick_ups) {
        assert forall|i: int| 0 <= i < b.len() && (#[trigger] b[i]).spec_len() > 0 implies crate::rummy_phase::pick_up_count(pick_ups, i)
            == 10 by {
            assert(a[i].spec_len() > 0);
        }
    }
    if all_at_ten(b, pick_ups) {
        assert forall|i: int| 0 <= i < a.len() && (#[trigger] a[i]).spec_len() > 0 implies crate::rummy_phase::pick_up_count(pick_ups, i)
            == 10 by {
            assert(b[i].spec_len() > 0);
        }
    }
}

/// Whether the action `action` of `user` has added the one event `event` to
/// the log of the server, which was `server` before and is `after` now.
pub open spec fn stepped(server: ServerGame, user: UserId, action: Action, after: ServerGame, event: Event) -> bool {
    &&& server.wf()
    &&& after.wf()
    &&& sound(server)
    &&& server.applied(user, action, Ok(()), after)
    &&& after.events@ == server.events@.push(event)
}

/// Before a game has started, a client follows the server: it accepts the
/// event of each join, leave and start, and then holds what the server holds.
pub proof fn lemma_replay_lobby<T: PreviousTrick, Hist: RummyHistory>(
    server: ServerGame,
    user: UserId,
    action: Action,
    after: ServerGame,
    event: Event,
    receiver: Option<PlayerIdx>,
    client: ClientGame<T, Hist>,
    then: ClientGame<T, Hist>,
)
    requires
        stepped(server, user, action, after, event),
        action is Join || action is Leave || action is Start,
        mirrors(server, client, receiver),
        client.apply_result(event.spec_redact(receiver)) is Ok ==> client.applied(event.spec_redact(receiver), then),
    ensures
        client.apply_result(event.spec_redact(receiver)) is Ok,
        mirrors(after, then, receiver),
{
    let before = server.events@;
    assert(after.events@.len() == before.len() + 1);
    assert(after.events@[before.len() as int] == event);
    match action {
        Action::Join { user_id } => {
            assert(event == Event::Join { user_id });
        },
        Action::Leave { player } => {
            assert(event == Event::Leave { player });
        },
        Action::Start { num_decks } => {
            let listing = choose|listing: Seq<Card>|
                Cards::spec_one_deck().scaled(num_decks as nat).is_listing(listing.reverse()) && listing.len() == 52 * num_decks
                    && crate::lists::deck_order(listing, server.seed).len() == listing.len() && crate::lists::deck_order(
            listing,
            server.seed,
        ).to_multiset() == listing.to_multiset() && #[trigger] server.begun(
                    crate::lists::deck_order(listing, server.seed),
                    num_decks,
                    after,
                );
            assert((before + seq![Event::Start { num_decks }])[before.len() as int] == Event::Start { num_decks });
            assert(event == Event::Start { num_decks });
            let s = after.phase->War_0;
            let c = then.phase->War_0;
            crate::war_hand::lemma_hand_of(Seq::empty());
            assert forall|i: int| 0 <= i < s.hands@.len() implies war_seen(sees(receiver, i), #[trigger] s.hands@[i], c.hands@[i]) by {
                assert(s.hands@[i] == ServerWarHand::empty_hand());
                assert(c.hands@[i] == ClientWarHand::empty_hand());
            }
            assert(c.won@ =~= s.won@) by {
                assert forall|i: int| 0 <= i < s.won@.len() implies c.won@[i] == s.won@[i] by {
                    assert(s.won@[i] == Cards::spec_none());
                    assert(c.won@[i] == Cards::spec_none());
                }
            }
        },
        _ => {},
    }
}

/// The wars of server and client end alike, and their tricks are finished
/// alike.
pub proof fn lemma_war_finish<T: PreviousTrick>(receiver: Option<PlayerIdx>, s: ServerWar, c: ClientWar<T>, player: PlayerIdx)
    requires
        war_mirrors(receiver, s, c),
        s.deck@.len() >= 1,
    ensures
        s.finished() == c.finished(),
        s.finish_result(player) == c.finish_result(player),
        s.trick_after_finish(player) == c.trick_after_finish(player),
        s.won_after_finish(player) == c.won_after_finish(player),
{
    let seats = s.trick@.remaining();
    if some_empty(s.hands@, seats) {
        let i = choose|i: int| 0 <= i < seats.len() && (#[trigger] seats[i]).0 < s.hands@.len() && s.hands@[seats[i].0 as int].spec_len() == 0;
        let k = seats[i].0 as int;
        assert(war_seen(sees(receiver, k), s.hands@[k], c.hands@[k]));
        assert(some_empty(c.hands@, seats));
    }
    if some_empty(c.hands@, seats) {
        let i = choose|i: int| 0 <= i < seats.len() && (#[trigger] seats[i]).0 < c.hands@.len() && c.hands@[seats[i].0 as int].spec_len() == 0;
        let k = seats[i].0 as int;
        assert(war_seen(sees(receiver, k), s.hands@[k], c.hands@[k]));
        assert(some_empty(s.hands@, seats));
    }
}

/// In the war, a client follows the server: it accepts the event of each
/// play, slough, draw and acknowledgement that leaves the game at war, whole
/// or without the card that its receiver may not see, and then holds what the
/// server holds.
pub proof fn lemma_replay_war<T: PreviousTrick, Hist: RummyHistory>(
    server: ServerGame,
    user: UserId,
    action: Action,
    after: ServerGame,
    event: Event,
    receiver: Option<PlayerIdx>,
    client: ClientGame<T, Hist>,
    then: ClientGame<T, Hist>,
)
    requires
        stepped(server, user, action, after, event),
        action is PlayCard || action is PlayTop || action is Slough || action is Draw || action is FinishTrick,
        mirrors(server, client, receiver),
        client.apply_result(event.spec_redact(receiver)) is Ok ==> client.applied(event.spec_redact(receiver), then),
    ensures
        client.apply_result(event.spec_redact(receiver)) is Ok,
        mirrors(after, then, receiver),
{
    let before = server.events@;
    assert(after.events@.len() == before.len() + 1);
    assert(after.events@[before.len() as int] == event);
    let (p, s) = server.at_war(user)->Ok_0;
    let c = client.phase->War_0;
    crate::server_game::lemma_first_seat(server.players@, user, 0);
    let k = p.0 as int;
    let hand = s.hands@[k];
    assert(war_seen(sees(receiver, k), hand, c.hands@[k]));
    assert(hand.wf());
    lemma_hand_view(hand);
    match action {
        Action::PlayCard { card } => {
            assert((before + seq![Event::PlayCard { card }])[before.len() as int] == Event::PlayCard { card });
            lemma_without_card(hand, card);
            let s2 = after.phase->War_0;
            let c2 = then.phase->War_0;
            assert forall|i: int| 0 <= i < s2.hands@.len() implies war_seen(sees(receiver, i), #[trigger] s2.hands@[i], c2.hands@[i]) by {
                assert(war_seen(sees(receiver, i), s.hands@[i], c.hands@[i]));
            }
        },
        Action::PlayTop => {
            let card = s.deck@.last();
            assert((before + seq![Event::PlayTop { card }])[before.len() as int] == Event::PlayTop { card });
            let s2 = after.phase->War_0;
            let c2 = then.phase->War_0;
            assert forall|i: int| 0 <= i < s2.hands@.len() implies war_seen(sees(receiver, i), #[trigger] s2.hands@[i], c2.hands@[i]) by {
                assert(war_seen(sees(receiver, i), s.hands@[i], c.hands@[i]));
            }
        },
        Action::Slough { card } => {
            assert((before + seq![Event::Slough { player: p, card }])[before.len() as int] == Event::Slough { player: p, card });
            lemma_without_card(hand, card);
            let s2 = after.phase->War_0;
            let c2 = then.phase->War_0;
            assert forall|i: int| 0 <= i < s2.hands@.len() implies war_seen(sees(receiver, i), #[trigger] s2.hands@[i], c2.hands@[i]) by {
                assert(war_seen(sees(receiver, i), s.hands@[i], c.hands@[i]));
            }
        },
        Action::Draw => {
            let card = s.deck@.last();
            assert((before + seq![Event::Draw { player: p, card }])[before.len() as int] == Event::Draw { player: p, card });
            lemma_with_card(hand, card);
            let s2 = after.phase->War_0;
            let c2 = then.phase->War_0;
            assert forall|i: int| 0 <= i < s2.hands@.len() implies war_seen(sees(receiver, i), #[trigger] s2.hands@[i], c2.hands@[i]) by {
                assert(war_seen(sees(receiver, i), s.hands@[i], c.hands@[i]));
            }
        },
        Action::FinishTrick => {
            lemma_war_finish(receiver, s, c, p);
            let complete = s.finish_result(p)->Ok_0;
            let over = complete && crate::server_game::war_over(s.deck@, s.hands@, s.trick_after_finish(p));
            if over {
                let w2 = choose|w2: ServerWar| #[trigger] ServerGame::acknowledged(s, p, w2) && server.war_ended(w2, p, Ok(()), after);
                let middle = server.events@ + seq![Event::FinishTrick { player: p }, Event::RevealTrump { trump: w2.deck@[0] }];
                assert(middle.len() == before.len() + 2);
                let rm = choose|rm: ServerRummy| #[trigger] ServerGame::follows(w2, rm) && server.dreck_dealt(rm, middle, Ok(()), after);
                if crate::dreck::takers(rm.hands@).len() > 0 {
                    let listing = choose|listing: Seq<Card>| #[trigger]
                        rm.dreck_done(
                            ServerGame::rummy_then(rm, Ok(()), after),
                            middle,
                            ServerGame::events_then(middle, Ok(()), after),
                            Ok::<(), GoatError>(()) is Ok,
                            server.seed,
                            listing,
                        );
                    assert(after.events@.len() >= middle.len());
                }
                assert(false);
            }
            assert((before + seq![Event::FinishTrick { player: p }])[before.len() as int] == Event::FinishTrick { player: p });
            let s2 = after.phase->War_0;
            let c2 = then.phase->War_0;
            assert forall|i: int| 0 <= i < s2.hands@.len() implies war_seen(sees(receiver, i), #[trigger] s2.hands@[i], c2.hands@[i]) by {
                assert(war_seen(sees(receiver, i), s.hands@[i], c.hands@[i]));
            }
        },
        _ => {},
    }
}

/// In the rummy, a client follows the server: it accepts the event of each
/// run and each pick-up, and then holds what the server holds.
pub proof fn lemma_replay_rummy<T: PreviousTrick, Hist: RummyHistory>(
    server: ServerGame,
    user: UserId,
    action: Action,
    after: ServerGame,
    event: Event,
    receiver: Option<PlayerIdx>,
    client: ClientGame<T, Hist>,
    then: ClientGame<T, Hist>,
)
    requires
        stepped(server, user, action, after, event),
        action is PlayRun || action is PickUp,
        mirrors(server, client, receiver),
        client.apply_result(event.spec_redact(receiver)) is Ok ==> client.applied(event.spec_redact(receiver), then),
    ensures
        client.apply_result(event.spec_redact(receiver)) is Ok,
        mirrors(after, then, receiver),
{
    let before = server.events@;
    assert(after.events@.len() == before.len() + 1);
    assert(after.events@[before.len() as int] == event);
    let (p, s) = server.at_rummy(user)->Ok_0;
    let c = client.phase->Rummy_0;
    crate::server_game::lemma_first_seat(server.players@, user, 0);
    let n = s.next.0 as int;
    let hand = s.hands@[n];
    let theirs = c.hands@[n];
    assert(rummy_seen(sees(receiver, n), hand, theirs));
    assert(hand.wf());
    match action {
        Action::PlayRun { lo, hi } => {
            assert((before + seq![Event::PlayRun { lo, hi }])[before.len() as int] == Event::PlayRun { lo, hi });
            assert(s.play_result(p, lo, hi) is Ok);
            assert(p == s.next);
            let run = Cards::spec_range(lo, hi);
            lemma_range_counts(lo, hi);
            assert(hand.includes(run));
            lemma_seen_without(sees(receiver, n), hand, theirs, run);
            assert(c.play_result(c.next, lo, hi) is Ok);
            let sh = s.hands_after_play(lo, hi);
            let ch = c.hands_after_play(lo, hi);
            assert forall|i: int| 0 <= i < sh.len() implies rummy_seen(sees(receiver, i), #[trigger] sh[i], ch[i]) && sh[i].wf() by {
                assert(rummy_seen(sees(receiver, i), s.hands@[i], c.hands@[i]));
                assert(s.hands@[i].wf());
            }
            lemma_seen_lens(receiver, sh, ch);
            lemma_same_count(sh, ch);
            let from = if s.kills(lo, hi) { n } else { n + 1 };
            lemma_same_seek(sh, ch, from, sh.len());
            crate::rummy_phase::lemma_seek(sh, from, sh.len());
        },
        Action::PickUp => {
            assert((before + seq![Event::PickUp])[before.len() as int] == Event::PickUp);
            assert(s.pick_up_result(p) is Ok);
            assert(p == s.next);
            lemma_range_wf(s.trick@.picked().0, s.trick@.picked().1);
            lemma_seen_with(sees(receiver, n), hand, theirs, s.picked());
            let sh = s.hands_after_pick_up();
            let ch = c.hands_after_pick_up();
            assert forall|i: int| 0 <= i < sh.len() implies rummy_seen(sees(receiver, i), #[trigger] sh[i], ch[i]) && sh[i].wf() by {
                assert(rummy_seen(sees(receiver, i), s.hands@[i], c.hands@[i]));
                assert(s.hands@[i].wf());
            }
            lemma_seen_lens(receiver, sh, ch);
            lemma_same_count(sh, ch);
            lemma_same_seek(sh, ch, n + 1, sh.len());
            lemma_same_ten(sh, ch, crate::rummy_phase::raised(s.pick_ups, n));
            crate::rummy_phase::lemma_seek(sh, n + 1, sh.len());
        },
        _ => {},
    }
}

/// When the goat makes its noise, a client that is sent the event follows the
/// server.
pub proof fn lemma_replay_goat<T: PreviousTrick, Hist: RummyHistory>(
    server: ServerGame,
    user: UserId,
    action: Action,
    after: ServerGame,
    event: Event,
    receiver: Option<PlayerIdx>,
    client: ClientGame<T, Hist>,
    then: ClientGame<T, Hist>,
)
    requires
        stepped(server, user, action, after, event),
        action is Goat,
        mirrors(server, client, receiver),
        client.apply_result(event.spec_redact(receiver)) is Ok ==> client.applied(event.spec_redact(receiver), then),
    ensures
        client.apply_result(event.spec_redact(receiver)) is Ok,
        mirrors(after, then, receiver),
{
    let before = server.events@;
    assert(after.events@.len() == before.len() + 1);
    assert(after.events@[before.len() as int] == event);
    let noise = action->noise;
    assert((before + seq![Event::Goat { noise }])[before.len() as int] == Event::Goat { noise });
}

/// A client follows the server. Whatever action the server accepts, a client
/// that is sent what the action adds to the log, each event as its receiver
/// may see it, accepts each of these events, and after the last of them it
/// holds what the server holds, as far as its receiver may know it.
pub proof fn lemma_replay<T: PreviousTrick, Hist: RummyHistory>(
    server: ServerGame,
    user: UserId,
    action: Action,
    after: ServerGame,
    receiver: Option<PlayerIdx>,
    client: ClientGame<T, Hist>,
    states: Seq<ClientGame<T, Hist>>,
    events: Seq<Event>,
)
    requires
        server.wf(),
        after.wf(),
        sound(server),
        server.applied(user, action, Ok(()), after),
        server.events@ + events == after.events@,
        mirrors(server, client, receiver),
        chain(states, redacted(events, receiver)),
        states[0] == client,
    ensures
        forall|j: int| 0 <= j < events.len() ==> (#[trigger] states[j]).apply_result(events[j].spec_redact(receiver)) is Ok,
        mirrors(after, states.last(), receiver),
{
    assert(after.events@.len() == server.events@.len() + events.len());
    if action is FinishTrick && !(after.phase is War) {
        lemma_replay_war_end(server, user, after, receiver, client, states, events);
    } else if action is Join && server.players@.contains(action->user_id) {
        assert(events.len() == 0);
    } else {
        assert(events.len() == 1) by {
            if action is FinishTrick {
                let (p, w) = server.at_war(user)->Ok_0;
                let complete = w.finish_result(p)->Ok_0;
                if complete && crate::server_game::war_over(w.deck@, w.hands@, w.trick_after_finish(p)) {
                    let w2 = choose|w2: ServerWar| #[trigger] ServerGame::acknowledged(w, p, w2) && server.war_ended(w2, p, Ok(()), after);
                    let middle = server.events@ + seq![Event::FinishTrick { player: p }, Event::RevealTrump { trump: w2.deck@[0] }];
                    let rm = choose|rm: ServerRummy| #[trigger] ServerGame::follows(w2, rm) && server.dreck_dealt(rm, middle, Ok(()), after);
                    assert(false);
                }
            }
        }
        let event = events[0];
        assert(after.events@ =~= server.events@.push(event));
        assert(states.last() == states[1]);
        assert(redacted(events, receiver)[0] == event.spec_redact(receiver));
        match action {
            Action::Join { .. } | Action::Leave { .. } | Action::Start { .. } => {
                lemma_replay_lobby(server, user, action, after, event, receiver, client, states[1]);
            },
            Action::PlayCard { .. } | Action::PlayTop | Action::Slough { .. } | Action::Draw | Action::FinishTrick => {
                lemma_replay_war(server, user, action, after, event, receiver, client, states[1]);
            },
            Action::PlayRun { .. } | Action::PickUp => {
                lemma_replay_rummy(server, user, action, after, event, receiver, client, states[1]);
            },
            Action::Goat { .. } => {
                lemma_replay_goat(server, user, action, after, event, receiver, client, states[1]);
            },
        }
    }
}

/// A client follows the server from the beginning: a game without players on
/// the client is what any receiver may know of a game without players on the
/// server, whose cards are all there and none more than three times.
pub proof fn lemma_replay_begins<T: PreviousTrick, Hist: RummyHistory>(
    server: ServerGame,
    client: ClientGame<T, Hist>,
    receiver: Option<PlayerIdx>,
)
    requires
        server.phase is Unstarted,
        client.phase is Unstarted,
        server.players@.len() == 0,
        client.players@.len() == 0,
    ensures
        sound(server),
        crate::copies::bounded(server),
        mirrors(server, client, receiver),
{
    assert(client.players@ =~= server.players@);
}

/// Whatever the server does with an action, the log goes on from what it
/// was; and a refused action leaves the game as it was.
pub proof fn lemma_log_grows(server: ServerGame, user: UserId, action: Action, r: Result<(), GoatError>, after: ServerGame)
    requires
        server.applied(user, action, r, after),
    ensures
        server.extended(after),
        r is Err ==> after == server,
{
    if r is Ok {
        assert(r->Ok_0 == ());
        assert(r == Ok::<(), GoatError>(()));
        match action {
            Action::Start { num_decks } => {
                let listing = choose|listing: Seq<Card>|
                    Cards::spec_one_deck().scaled(num_decks as nat).is_listing(listing.reverse()) && listing.len() == 52 * num_decks
                        && crate::lists::deck_order(listing, server.seed).len() == listing.len() && crate::lists::deck_order(
                        listing,
                        server.seed,
                    ).to_multiset() == listing.to_multiset() && #[trigger] server.begun(
                        crate::lists::deck_order(listing, server.seed),
                        num_decks,
                        after,
                    );
            },
            Action::FinishTrick => {
                let (p, w) = server.at_war(user)->Ok_0;
                let complete = w.finish_result(p)->Ok_0;
                if complete && crate::server_game::war_over(w.deck@, w.hands@, w.trick_after_finish(p)) {
                    let w2 = choose|w2: ServerWar| #[trigger] ServerGame::acknowledged(w, p, w2) && server.war_ended(w2, p, Ok(()), after);
                    let middle = server.events@ + seq![Event::FinishTrick { player: p }, Event::RevealTrump { trump: w2.deck@[0] }];
                    let rm = choose|rm: ServerRummy| #[trigger] ServerGame::follows(w2, rm) && server.dreck_dealt(rm, middle, Ok(()), after);
                    if crate::dreck::takers(rm.hands@).len() > 0 {
                        let listing = choose|listing: Seq<Card>| #[trigger]
                            rm.dreck_done(
                                ServerGame::rummy_then(rm, Ok(()), after),
                                middle,
                                ServerGame::events_then(middle, Ok(()), after),
                                Ok::<(), GoatError>(()) is Ok,
                                server.seed,
                                listing,
                            );
                    }
                }
            },
            _ => {},
        }
    } else {
        if action is FinishTrick && server.at_war(user) is Ok {
            let (p, w) = server.at_war(user)->Ok_0;
            if w.finish_result(p) is Ok {
                let w2 = choose|w2: ServerWar| #[trigger] ServerGame::acknowledged(w, p, w2) && server.war_ended(w2, p, r, after);
                if w2.can_switch() {
                    let middle = server.events@ + seq![Event::FinishTrick { player: p }, Event::RevealTrump { trump: w2.deck@[0] }];
                    let rm = choose|rm: ServerRummy| #[trigger] ServerGame::follows(w2, rm) && server.dreck_dealt(rm, middle, r, after);
                }
            }
        }
    }
}

/// Whether `games` are the games that a server holds while users act on a game
/// that began without players: each is what `apply` makes of the one before
/// it and of the action of a user, with the answer that it gave.
pub open spec fn played(games: Seq<ServerGame>, users: Seq<UserId>, actions: Seq<Action>, answers: Seq<Result<(), GoatError>>) -> bool {
    &&& games.len() == actions.len() + 1
    &&& users.len() == actions.len()
    &&& answers.len() == actions.len()
    &&& games[0].phase is Unstarted
    &&& games[0].players@.len() == 0
    &&& games[0].events@.len() == 0
    &&& forall|i: int| 0 <= i < games.len() ==> (#[trigger] games[i]).wf()
    &&& forall|i: int| 0 <= i < actions.len() ==> (#[trigger] games[i]).applied(users[i], actions[i], answers[i], games[i + 1])
}

/// While users act on a game, its log goes on from what it was, its cards
/// stay all there, and none is in it more than three times.
pub proof fn lemma_played(
    games: Seq<ServerGame>,
    users: Seq<UserId>,
    actions: Seq<Action>,
    answers: Seq<Result<(), GoatError>>,
    i: int,
    k: int,
)
    requires
        played(games, users, actions, answers),
        0 <= i <= k < games.len(),
    ensures
        games[i].extended(games[k]),
        sound(games[k]),
        crate::copies::bounded(games[k]),
    decreases k,
{
    if k > 0 {
        if i < k {
            lemma_played(games, users, actions, answers, i, k - 1);
        }
        lemma_played(games, users, actions, answers, 0, k - 1);
        lemma_log_grows(games[k - 1], users[k - 1], actions[k - 1], answers[k - 1], games[k]);
        crate::tally::lemma_sound_kept(games[k - 1], users[k - 1], actions[k - 1], answers[k - 1], games[k]);
        crate::copies::lemma_bounded_kept(games[k - 1], users[k - 1], actions[k - 1], answers[k - 1], games[k]);
    }
}

/// The log of a game is all that a client needs. Whatever users do to a game
/// that began without players, a client that began with a game without
/// players and is sent the log of the first `n` actions, each event as its
/// receiver may see it, accepts each of the events, and then holds what the
/// server held after these actions, as far as its receiver may know it.
#[verifier::rlimit(40)]
pub proof fn lemma_replay_log<T: PreviousTrick, Hist: RummyHistory>(
    games: Seq<ServerGame>,
    users: Seq<UserId>,
    actions: Seq<Action>,
    answers: Seq<Result<(), GoatError>>,
    receiver: Option<PlayerIdx>,
    states: Seq<ClientGame<T, Hist>>,
    n: int,
)
    requires
        played(games, users, actions, answers),
        chain(states, redacted(games.last().events@, receiver)),
        states[0].phase is Unstarted,
        states[0].players@.len() == 0,
        0 <= n <= actions.len(),
    ensures
        games[n].events@.len() <= games.last().events@.len(),
        forall|j: int|
            0 <= j < games[n].events@.len() ==> (#[trigger] states[j]).apply_result(games[n].events@[j].spec_redact(receiver)) is Ok,
        mirrors(games[n], states[games[n].events@.len() as int], receiver),
    decreases n,
{
    let log = games.last().events@;
    lemma_played(games, users, actions, answers, n, games.len() - 1);
    if n == 0 {
        lemma_replay_begins(games[0], states[0], receiver);
    } else {
        let before = games[n - 1];
        let after = games[n];
        lemma_replay_log(games, users, actions, answers, receiver, states, n - 1);
        lemma_played(games, users, actions, answers, 0, n - 1);
        lemma_log_grows(before, users[n - 1], actions[n - 1], answers[n - 1], after);
        let from = before.events@.len() as int;
        let to = after.events@.len() as int;
        if answers[n - 1] is Ok {
            assert(answers[n - 1]->Ok_0 == ());
            assert(answers[n - 1] == Ok::<(), GoatError>(()));
            let events = after.events@.subrange(from, to);
            let part = states.subrange(from, to + 1);
            assert(before.events@ + events =~= after.events@);
            assert(chain(part, redacted(events, receiver))) by {
                assert forall|i: int|
                    0 <= i < redacted(events, receiver).len() && (#[trigger] part[i]).apply_result(redacted(events, receiver)[i]) is Ok implies part[i].applied(
                    redacted(events, receiver)[i],
                    part[i + 1],
                ) by {
                    assert(part[i] == states[from + i]);
                    assert(part[i + 1] == states[from + i + 1]);
                    assert(after.events@[from + i] == log.subrange(0, to)[from + i]);
                    assert(redacted(events, receiver)[i] == redacted(log, receiver)[from + i]);
                    assert(states[from + i].apply_result(redacted(log, receiver)[from + i]) is Ok);
                }
            }
            lemma_replay(before, users[n - 1], actions[n - 1], after, receiver, states[from], part, events);
            assert(part.last() == states[to]);
            assert forall|j: int| 0 <= j < to implies (#[trigger] states[j]).apply_result(after.events@[j].spec_redact(receiver)) is Ok by {
                if j < from {
                    assert(after.events@.subrange(0, from)[j] == before.events@[j]);
                } else {
                    assert(part[j - from] == states[j]);
                    assert(events[j - from] == after.events@[j]);
                }
            }
        }
    }
}

} // verus!
