//! Ways to play: what a bot does in the war and in the rummy.
use vstd::prelude::*;
use rand::seq::SliceRandom;
use crate::action::Action;
use crate::card::Card;
use crate::cards::Cards;
use crate::client_game::{ClientRummy, ClientWar};
use crate::deck::Deck;
use crate::id::PlayerIdx;
use crate::rank::Rank;
use crate::rummy_hand::{ClientRummyHand, RummyHand};
use crate::rummy_phase::RummyPhase;
use crate::text::random_below;
use crate::suit::{suit_values, Suit};
use crate::war_hand::{ClientWarHand, ServerWarHand, WarHand};

verus! {

/// The war as a bot sees it.
pub type BotWar = ClientWar<()>;

/// The rummy as a bot sees it: it keeps count of the cards that were played.
pub type BotRummy = ClientRummy<Cards>;

/// Whether `action` is a move of the war that the player at `idx` can make with
/// the cards that the bot knows: a card that is played or discarded is in the
/// hand, and a discard is one that the trick admits.
pub open spec fn sound_in_war(war: BotWar, idx: PlayerIdx, action: Option<Action>) -> bool {
    match action {
        None => true,
        Some(Action::Draw) => true,
        Some(Action::PlayTop) => true,
        Some(Action::FinishTrick) => true,
        Some(Action::PlayCard { card }) => {
            &&& idx.0 < war.hands@.len()
            &&& war.hands@[idx.0 as int] matches ClientWarHand::Visible(hand)
            &&& hand@.contains(card)
        },
        Some(Action::Slough { card }) => {
            &&& idx.0 < war.hands@.len()
            &&& war.hands@[idx.0 as int] matches ClientWarHand::Visible(hand)
            &&& war.trick@.can_slough(idx, hand@, card).is_ok()
        },
        _ => false,
    }
}

/// Whether `action` is a move of the rummy that the player whose turn it is can
/// make with the cards that the bot knows: a run that is played is in the hand
/// and beats the trick.
pub open spec fn sound_in_rummy(rummy: BotRummy, action: Action) -> bool {
    match action {
        Action::PickUp => true,
        Action::PlayRun { lo, hi } => {
            &&& Cards::is_run(lo, hi)
            &&& rummy.hands@[rummy.next.0 as int].known.includes(Cards::spec_range(lo, hi))
            &&& rummy.trick@.can_play(lo, rummy.trump.spec_suit())
        },
        _ => false,
    }
}

/// A way to play. Each way says what it may answer; nothing else is asked of
/// an answer: the server judges each action when it is sent.
pub trait Strategy {
    /// Whether `action` is what this way to play may do for the player at
    /// `idx` in the war `war`.
    spec fn in_war(&self, idx: PlayerIdx, war: BotWar, action: Option<Action>) -> bool;

    /// Whether `action` is what this way to play may do for the player whose
    /// turn it is in the rummy `rummy`.
    spec fn in_rummy(&self, rummy: BotRummy, action: Action) -> bool;

    /// What the player at `idx` does in the war, if anything.
    fn war(&self, idx: PlayerIdx, war: &BotWar) -> (action: Option<Action>)
        ensures
            self.in_war(idx, *war, action),
    ;

    /// What the player whose turn it is does in the rummy.
    fn rummy(&self, rummy: &BotRummy) -> (action: Action)
        ensures
            self.in_rummy(*rummy, action),
    ;
}

/// What the player at `idx` does who plays the top of the deck: acknowledge
/// a trick that is over, and play the top of the deck when it is their turn.
pub open spec fn top_choice(war: BotWar, idx: PlayerIdx) -> Option<Action> {
    if war.finished() || war.trick@.winner().is_some() {
        acknowledged(war, idx)
    } else if war.trick@.next_player() == Some(idx) {
        Some(Action::PlayTop)
    } else {
        None
    }
}

/// What a player does in the war who loses tricks among three players and
/// wins them among more.
pub open spec fn adapted_choice(war: BotWar, idx: PlayerIdx) -> Option<Action> {
    war_choice(war, idx, war.hands@.len() < 4)
}

/// What a player does about the end of a trick: acknowledge it once.
fn acknowledge(idx: PlayerIdx, war: &BotWar) -> (action: Option<Action>)
    requires
        war.wf(),
    ensures
        action == acknowledged(*war, idx),
{
    if idx.0 >= 16 || war.trick.ended(idx) {
        None
    } else {
        Some(Action::FinishTrick)
    }
}

/// The simplest way to play the war: hold no cards, and play the top of the
/// deck whenever it is one's turn.
pub fn war_play_top(idx: PlayerIdx, war: &BotWar) -> (action: Option<Action>)
    requires
        war.wf(),
    ensures
        sound_in_war(*war, idx, action),
        action == top_choice(*war, idx),
{
    if war.is_finished() || war.trick.winner().is_some() {
        return acknowledge(idx, war);
    }
    if war.trick.next_player() == Some(idx) {
        Some(Action::PlayTop)
    } else {
        None
    }
}

/// The hand of the player at `idx` where the bot sees its cards: the hand of
/// a seat of the war that is not hidden.
pub open spec fn seen_hand(war: BotWar, idx: PlayerIdx) -> Option<ServerWarHand> {
    if idx.0 < war.hands@.len() {
        match war.hands@[idx.0 as int] {
            ClientWarHand::Visible(hand) => Some(hand),
            ClientWarHand::Hidden(_) => None,
        }
    } else {
        None
    }
}

/// The hand of the player at `idx`, where the bot sees its cards.
fn own_hand(idx: PlayerIdx, war: &BotWar) -> (r: Option<ServerWarHand>)
    ensures
        r == seen_hand(*war, idx),
{
    if idx.idx() >= war.hands.len() {
        return None;
    }
    match war.hands[idx.idx()] {
        ClientWarHand::Visible(hand) => Some(hand),
        ClientWarHand::Hidden(_) => None,
    }
}

/// Whether the rank of `card` lies above `above` or below `below`, where
/// there is such a bound.
pub open spec fn beyond(card: Card, above: Option<Rank>, below: Option<Rank>) -> bool {
    ||| above matches Some(rank) && card.spec_rank().spec_idx() > rank.spec_idx()
    ||| below matches Some(rank) && card.spec_rank().spec_idx() < rank.spec_idx()
}

/// The first card of `cards` whose rank lies beyond the bounds and that the
/// player at `idx` may discard from `hand` into `trick`.
pub open spec fn first_slough(
    trick: crate::war_trick::WarTrickView,
    idx: PlayerIdx,
    hand: Seq<Card>,
    cards: Seq<Card>,
    above: Option<Rank>,
    below: Option<Rank>,
) -> Option<Card>
    decreases cards.len(),
{
    if cards.len() == 0 {
        None
    } else if beyond(cards[0], above, below) && trick.can_slough(idx, hand, cards[0]).is_ok() {
        Some(cards[0])
    } else {
        first_slough(trick, idx, hand, cards.drop_first(), above, below)
    }
}

/// The card that `find_slough` finds: none for a player without a seat.
pub open spec fn found_slough(war: BotWar, idx: PlayerIdx, hand: ServerWarHand, above: Option<Rank>, below: Option<Rank>) -> Option<Card> {
    if idx.0 >= 16 {
        None
    } else {
        first_slough(war.trick@, idx, hand@, hand@, above, below)
    }
}

/// What `first_slough` finds can be discarded.
pub proof fn lemma_first_slough(
    trick: crate::war_trick::WarTrickView,
    idx: PlayerIdx,
    hand: Seq<Card>,
    cards: Seq<Card>,
    above: Option<Rank>,
    below: Option<Rank>,
)
    ensures
        first_slough(trick, idx, hand, cards, above, below) matches Some(card) ==> trick.can_slough(idx, hand, card).is_ok(),
    decreases cards.len(),
{
    if cards.len() > 0 {
        lemma_first_slough(trick, idx, hand, cards.drop_first(), above, below);
    }
}

/// The first card of `hand` that can be discarded and whose rank lies above
/// `above`, or below `below`.
fn find_slough(idx: PlayerIdx, war: &BotWar, hand: &ServerWarHand, above: Option<Rank>, below: Option<Rank>) -> (r: Option<Card>)
    requires
        war.wf(),
    ensures
        r == found_slough(*war, idx, *hand, above, below),
        r matches Some(card) ==> war.trick@.can_slough(idx, hand@, card).is_ok(),
{
    if idx.0 >= 16 {
        return None;
    }
    let cards: Vec<Card> = hand.cards();
    let mut i: usize = 0;
    proof {
        assert(cards@.subrange(0, cards@.len() as int) =~= cards@);
        lemma_first_slough(war.trick@, idx, hand@, hand@, above, below);
    }
    while i < cards.len()
        invariant
            i <= cards@.len(),
            war.wf(),
            idx.0 < 16,
            cards@ == hand@,
            first_slough(war.trick@, idx, hand@, hand@, above, below) == first_slough(
                war.trick@,
                idx,
                hand@,
                cards@.subrange(i as int, cards@.len() as int),
                above,
                below,
            ),
        decreases cards.len() - i,
    {
        let card: Card = cards[i];
        let high: bool = match above {
            Some(rank) => card.rank().idx() > rank.idx(),
            None => false,
        };
        let low: bool = match below {
            Some(rank) => card.rank().idx() < rank.idx(),
            None => false,
        };
        proof {
            let rest = cards@.subrange(i as int, cards@.len() as int);
            assert(rest[0] == card);
            assert(rest.drop_first() =~= cards@.subrange(i as int + 1, cards@.len() as int));
        }
        if (high || low) && war.trick.check_can_slough(idx, hand, card).is_ok() {
            return Some(card);
        }
        i = i + 1;
    }
    None
}

/// Which card of a hand to take.
#[derive(Clone, Copy, PartialEq, Eq, Structural, Debug)]
pub enum Pick {
    /// The first card of the rank.
    Of(Rank),
    /// The first of the cards of the lowest rank.
    Lowest,
    /// The last of the cards of the highest rank.
    Highest,
    /// The first of the cards of the lowest rank above the rank.
    LowestAbove(Rank),
    /// The last of the cards of the highest rank below the rank.
    HighestBelow(Rank),
}

/// Whether `pick` may fall on `card`.
pub open spec fn eligible(pick: Pick, card: Card) -> bool {
    match pick {
        Pick::Of(rank) => card.spec_rank() == rank,
        Pick::Lowest => true,
        Pick::Highest => true,
        Pick::LowestAbove(rank) => card.spec_rank().spec_idx() > rank.spec_idx(),
        Pick::HighestBelow(rank) => card.spec_rank().spec_idx() < rank.spec_idx(),
    }
}

/// Whether `pick` prefers `card` to the card `best` that it has fallen on so
/// far: a lower rank where it looks for the lowest, a rank at least as high
/// where it looks for the highest, and any card where it has none yet.
pub open spec fn preferred(pick: Pick, card: Card, best: Option<Card>) -> bool {
    match best {
        None => true,
        Some(b) => match pick {
            Pick::Of(_) => false,
            Pick::Lowest => card.spec_rank().spec_idx() < b.spec_rank().spec_idx(),
            Pick::LowestAbove(_) => card.spec_rank().spec_idx() < b.spec_rank().spec_idx(),
            Pick::Highest => card.spec_rank().spec_idx() >= b.spec_rank().spec_idx(),
            Pick::HighestBelow(_) => card.spec_rank().spec_idx() >= b.spec_rank().spec_idx(),
        },
    }
}

/// The card of `cards` that `pick` falls on, if it falls on any.
pub open spec fn picked(cards: Seq<Card>, pick: Pick) -> Option<Card>
    decreases cards.len(),
{
    if cards.len() == 0 {
        None
    } else {
        let best = picked(cards.drop_last(), pick);
        if eligible(pick, cards.last()) && preferred(pick, cards.last(), best) {
            Some(cards.last())
        } else {
            best
        }
    }
}

/// The card of the hand that `pick` falls on, if it falls on any.
pub fn pick_card(hand: &ServerWarHand, pick: Pick) -> (r: Option<Card>)
    ensures
        r == picked(hand@, pick),
        match r {
            Some(card) => hand@.contains(card) && eligible(pick, card),
            None => forall|i: int| 0 <= i < hand@.len() ==> !eligible(pick, hand@[i]),
        },
{
    let cards: Vec<Card> = hand.cards();
    let mut best: Option<Card> = None;
    let mut i: usize = 0;
    proof {
        assert(hand@.subrange(0, 0) =~= Seq::<Card>::empty());
    }
    while i < cards.len()
        invariant
            i <= cards@.len(),
            cards@ == hand@,
            best == picked(hand@.subrange(0, i as int), pick),
            match best {
                Some(card) => hand@.contains(card) && eligible(pick, card),
                None => forall|k: int| 0 <= k < i ==> !eligible(pick, hand@[k]),
            },
        decreases cards.len() - i,
    {
        proof {
            let next = hand@.subrange(0, i as int + 1);
            assert(next.drop_last() =~= hand@.subrange(0, i as int));
            assert(next.last() == cards@[i as int]);
        }
        let card: Card = cards[i];
        let rank: usize = card.rank().idx();
        let fits: bool = match pick {
            Pick::Of(r) => card.rank() == r,
            Pick::Lowest => true,
            Pick::Highest => true,
            Pick::LowestAbove(r) => rank > r.idx(),
            Pick::HighestBelow(r) => rank < r.idx(),
        };
        if fits {
            assert(hand@[i as int] == card);
            let better: bool = match best {
                None => true,
                Some(b) => match pick {
                    Pick::Of(_) => false,
                    Pick::Lowest => rank < b.rank().idx(),
                    Pick::LowestAbove(_) => rank < b.rank().idx(),
                    Pick::Highest => rank >= b.rank().idx(),
                    Pick::HighestBelow(_) => rank >= b.rank().idx(),
                },
            };
            if better {
                best = Some(card);
            }
        }
        i = i + 1;
    }
    proof {
        assert(hand@.subrange(0, i as int) =~= hand@);
    }
    best
}

/// What a player acknowledges: the end of a trick, once.
pub open spec fn acknowledged(war: BotWar, idx: PlayerIdx) -> Option<Action> {
    if idx.0 >= 16 || war.trick@.ended(idx) {
        None
    } else {
        Some(Action::FinishTrick)
    }
}

/// The card that a player who holds `hand` plays from it when it is their
/// turn, or none where the top of the deck is played. On a trick that has a
/// rank: a card of the rank; else the nearest card on the side that the
/// player is after, below the rank to lose the trick or above it to win it;
/// else, where the deck has `left` no card, the lowest card. On a trick
/// without a rank: the lowest card to lose it, if the deck is used up or the
/// card lies below the six; the highest card to win it, if the deck is used
/// up or the card lies above the ten.
pub open spec fn card_played(hand: Seq<Card>, rank: Option<Rank>, left: nat, duck: bool) -> Option<Card> {
    match rank {
        Some(rank) => {
            let same = picked(hand, Pick::Of(rank));
            let near = if duck {
                picked(hand, Pick::HighestBelow(rank))
            } else {
                picked(hand, Pick::LowestAbove(rank))
            };
            if same.is_some() {
                same
            } else if near.is_some() {
                near
            } else if left > 0 {
                None
            } else {
                picked(hand, Pick::Lowest)
            }
        },
        None => {
            let lead = if duck {
                picked(hand, Pick::Lowest)
            } else {
                picked(hand, Pick::Highest)
            };
            match lead {
                Some(card) => {
                    let keep = if duck {
                        card.spec_rank().spec_idx() < Rank::Six.spec_idx()
                    } else {
                        card.spec_rank().spec_idx() > Rank::Ten.spec_idx()
                    };
                    if left == 0 || keep {
                        lead
                    } else {
                        None
                    }
                },
                None => None,
            }
        },
    }
}

/// What a player does in the war who plays with a hand, to lose the tricks
/// (`duck`) or to win them. Nothing without a hand that the bot sees. Else
/// the player draws while the hand is short of three cards and the deck has
/// a card to take; else discards the first card that can be discarded and lies
/// above the eight when losing, below it when winning; else acknowledges a
/// trick that is over; else, when it is their turn, plays the card that
/// `card_played` names, or the top of the deck.
pub open spec fn war_choice(war: BotWar, idx: PlayerIdx, duck: bool) -> Option<Action> {
    match seen_hand(war, idx) {
        None => None,
        Some(hand) => {
            let left = war.deck.spec_remaining();
            let slough = if duck {
                found_slough(war, idx, hand, Some(Rank::Eight), None)
            } else {
                found_slough(war, idx, hand, None, Some(Rank::Eight))
            };
            if hand@.len() < 3 && left > 0 {
                Some(Action::Draw)
            } else if slough.is_some() {
                Some(Action::Slough { card: slough.unwrap() })
            } else if war.finished() || war.trick@.winner().is_some() {
                acknowledged(war, idx)
            } else if war.trick@.next_player() != Some(idx) {
                None
            } else {
                match card_played(hand@, war.trick@.rank(), left, duck) {
                    Some(card) => Some(Action::PlayCard { card }),
                    None => Some(Action::PlayTop),
                }
            }
        },
    }
}

/// What a player does in the war who draws up to three cards, discards what
/// `find_slough` finds, and else plays as `card_played` says.
fn war_with_hand(idx: PlayerIdx, war: &BotWar, duck: bool) -> (action: Option<Action>)
    requires
        war.wf(),
    ensures
        action == war_choice(*war, idx, duck),
        sound_in_war(*war, idx, action),
{
    let hand: ServerWarHand = match own_hand(idx, war) {
        Some(hand) => hand,
        None => {
            return None;
        },
    };
    let left: usize = war.deck.cards_remaining();
    if hand.len() < 3 && left > 0 {
        return Some(Action::Draw);
    }
    let slough: Option<Card> = if duck {
        find_slough(idx, war, &hand, Some(Rank::Eight), None)
    } else {
        find_slough(idx, war, &hand, None, Some(Rank::Eight))
    };
    if let Some(card) = slough {
        return Some(Action::Slough { card });
    }
    if war.is_finished() || war.trick.winner().is_some() {
        return acknowledge(idx, war);
    }
    if war.trick.next_player() != Some(idx) {
        return None;
    }
    let card: Option<Card> = match war.trick.rank() {
        Some(rank) => {
            let same: Option<Card> = pick_card(&hand, Pick::Of(rank));
            let near: Option<Card> = if duck {
                pick_card(&hand, Pick::HighestBelow(rank))
            } else {
                pick_card(&hand, Pick::LowestAbove(rank))
            };
            if same.is_some() {
                same
            } else if near.is_some() {
                near
            } else if left > 0 {
                None
            } else {
                pick_card(&hand, Pick::Lowest)
            }
        },
        None => {
            let lead: Option<Card> = if duck {
                pick_card(&hand, Pick::Lowest)
            } else {
                pick_card(&hand, Pick::Highest)
            };
            match lead {
                Some(card) => {
                    let keep: bool = if duck {
                        card.rank().idx() < Rank::Six.idx()
                    } else {
                        card.rank().idx() > Rank::Ten.idx()
                    };
                    if left == 0 || keep {
                        lead
                    } else {
                        None
                    }
                },
                None => None,
            }
        },
    };
    match card {
        Some(card) => Some(Action::PlayCard { card }),
        None => Some(Action::PlayTop),
    }
}

/// A way to play the war that tries to lose every trick.
pub fn war_duck(idx: PlayerIdx, war: &BotWar) -> (action: Option<Action>)
    requires
        war.wf(),
    ensures
        action == war_choice(*war, idx, true),
        sound_in_war(*war, idx, action),
{
    war_with_hand(idx, war, true)
}

/// A way to play the war that tries to win every trick.
pub fn war_cover(idx: PlayerIdx, war: &BotWar) -> (action: Option<Action>)
    requires
        war.wf(),
    ensures
        action == war_choice(*war, idx, false),
        sound_in_war(*war, idx, action),
{
    war_with_hand(idx, war, false)
}

/// The number of runs of a set of cards.
fn count_runs(cards: Cards) -> (n: usize)
    ensures
        n == cards.runs_of().len(),
{
    cards.runs().collect().len()
}

/// The seat before `idx` among `n` seats, going round to the last seat before
/// seat 0; the last seat for an index beyond the seats.
pub open spec fn before_seat(idx: int, n: int) -> int {
    if idx == 0 || idx > n {
        n - 1
    } else {
        idx - 1
    }
}

/// The seat before `idx`, going round to the last seat before seat 0.
fn seat_before(idx: usize, n: usize) -> (r: usize)
    requires
        n > 0,
    ensures
        r == before_seat(idx as int, n as int),
        r < n,
{
    if idx == 0 || idx > n {
        n - 1
    } else {
        idx - 1
    }
}

/// How much a player who holds `hand` wants to lead `suit`, when the player
/// before is known to hold `prev`: first the number of runs of the suit in the
/// hand, then a hundred less the number of runs that the player before holds
/// below the lowest card of the suit. Trumps weigh nothing and a hundred, a
/// suit that the hand does not hold nothing and nothing.
pub open spec fn lead_weight_of(trump: Suit, hand: Cards, prev: Cards, suit: Suit) -> (nat, nat) {
    let in_suit = hand.spec_in_suit(suit);
    if suit == trump {
        (0, 100)
    } else if in_suit == Cards::spec_none() {
        (0, 0)
    } else {
        let below = prev.spec_below(in_suit.lowest()).runs_of().len();
        (in_suit.runs_of().len(), if below > 100 { 0nat } else { (100 - below) as nat })
    }
}

/// How much a player wants to lead `suit`: most a suit with many runs, and of
/// two such the one of which the player before holds few cards below. Trumps
/// are led last but for suits that the hand does not hold.
fn lead_weight(rummy: &BotRummy, hand: Cards, prev: Cards, suit: Suit) -> (w: (usize, usize))
    ensures
        w.0 == lead_weight_of(rummy.trump.spec_suit(), hand, prev, suit).0,
        w.1 == lead_weight_of(rummy.trump.spec_suit(), hand, prev, suit).1,
{
    if suit == rummy.trump.suit() {
        return (0, 100);
    }
    let in_suit: Cards = hand.in_suit(suit);
    if in_suit.is_empty() {
        (0, 0)
    } else {
        let low: Card = in_suit.min();
        proof {
            crate::cards::lemma_lowest_card(in_suit, low);
        }
        let below: usize = count_runs(prev.below(low));
        (count_runs(in_suit), if below > 100 { 0 } else { 100 - below })
    }
}

/// The first seat that holds a card, looking from seat `pos` backwards for
/// `fuel` seats and going round to the last seat before seat 0; the seat at
/// which the search stops where none of them holds a card.
pub open spec fn holder_before(hands: Seq<ClientRummyHand>, pos: int, fuel: nat) -> int
    decreases fuel,
{
    if fuel == 0 || hands[pos].spec_len() > 0 {
        pos
    } else {
        holder_before(hands, before_seat(pos, hands.len() as int), (fuel - 1) as nat)
    }
}

/// Whether a suit that weighs `w` is led rather than one that weighs `best`:
/// it has more runs, or as many and its second weight is not less.
pub open spec fn leads_rather(w: (nat, nat), best: (nat, nat)) -> bool {
    w.0 > best.0 || (w.0 == best.0 && w.1 >= best.1)
}

/// The suit that is led of the suits up to the one at place `k`: the one
/// that weighs most, and of two that weigh alike the higher one.
pub open spec fn lead_suit(trump: Suit, hand: Cards, prev: Cards, k: int) -> Suit
    decreases k,
{
    if k <= 0 {
        Suit::Clubs
    } else {
        let best = lead_suit(trump, hand, prev, k - 1);
        let suit = Suit::spec_from_idx(k);
        if leads_rather(lead_weight_of(trump, hand, prev, suit), lead_weight_of(trump, hand, prev, best)) {
            suit
        } else {
            best
        }
    }
}

/// The run from the lowest card of a set to the card that ends its run, as an
/// action.
pub open spec fn lowest_run_played(cards: Cards) -> Action {
    Action::PlayRun { lo: cards.lowest_run().0, hi: cards.lowest_run().1 }
}

/// What the simple way to play the rummy does for the player whose turn it
/// is, with the cards that the bot knows of the hand. On a trick that is not
/// empty: it picks up where the hand has no card above the top in its suit
/// and no trump to play on a top that is no trump; on a trump it plays the
/// lowest card above it; without a card above the top it plays the lowest
/// trump; else it plays the lowest run above the top. On an empty trick it
/// leads the lowest run of the suit that weighs most, where the weights look
/// at what the last player before who holds cards is known to hold; and it
/// picks up where the hand has no card of that suit.
pub open spec fn simple_play(rummy: BotRummy) -> Action {
    let idx = rummy.next.0 as int;
    let hand = rummy.hands@[idx].known;
    let trump_suit = rummy.trump.spec_suit();
    match rummy.trick@.top_card() {
        Some(card) => {
            let above = hand.spec_above(card);
            let trump = hand.spec_in_suit(trump_suit);
            if above == Cards::spec_none() && (trump == Cards::spec_none() || card.spec_suit() == trump_suit) {
                Action::PickUp
            } else if card.spec_suit() == trump_suit {
                Action::PlayRun { lo: above.lowest(), hi: above.lowest() }
            } else if above == Cards::spec_none() {
                Action::PlayRun { lo: trump.lowest(), hi: trump.lowest() }
            } else {
                lowest_run_played(above)
            }
        },
        None => {
            let n = rummy.hands@.len() as int;
            let prev = holder_before(rummy.hands@, before_seat(idx, n), n as nat);
            let before = rummy.hands@[prev].known;
            let in_suit = hand.spec_in_suit(lead_suit(trump_suit, hand, before, 3));
            if in_suit == Cards::spec_none() {
                Action::PickUp
            } else {
                lowest_run_played(in_suit)
            }
        },
    }
}


/// A way to play the rummy that plays long, low runs first, from suits with
/// many runs.
pub fn rummy_simple(rummy: &BotRummy) -> (action: Action)
    requires
        rummy.wf(),
    ensures
        action == simple_play(*rummy),
        sound_in_rummy(*rummy, action),
{
    let idx: PlayerIdx = rummy.next;
    let hand: Cards = rummy.hands[idx.idx()].known;
    let trump_suit: Suit = rummy.trump.suit();
    match rummy.trick.top_card() {
        Some(card) => {
            let above: Cards = hand.above(card);
            let trump: Cards = hand.in_suit(trump_suit);
            if above.is_empty() && (trump.is_empty() || card.suit() == trump_suit) {
                Action::PickUp
            } else if card.suit() == trump_suit {
                let low: Card = above.min();
                proof {
                    crate::cards::lemma_single_run(hand, low);
                    crate::cards::lemma_lowest_card(above, low);
                }
                Action::PlayRun { lo: low, hi: low }
            } else if above.is_empty() {
                let low: Card = trump.min();
                proof {
                    crate::cards::lemma_single_run(hand, low);
                    crate::cards::lemma_lowest_card(trump, low);
                }
                Action::PlayRun { lo: low, hi: low }
            } else {
                let (lo, hi) = above.min_run();
                proof {
                    crate::cards::lemma_lowest_run(above, lo, hi);
                    crate::cards::lemma_range_counts(lo, hi);
                    assert forall|c: Card| Cards::spec_range(lo, hi).count(c) <= hand.count(c) by {
                        assert(Cards::spec_range(lo, hi).count(c) <= above.count(c));
                    }
                }
                Action::PlayRun { lo, hi }
            }
        },
        None => {
            let n: usize = rummy.hands.len();
            let ghost first: int = before_seat(idx.0 as int, n as int);
            let mut prev: usize = seat_before(idx.idx(), n);
            let mut fuel: usize = n;
            while fuel > 0 && rummy.hands[prev].is_empty()
                invariant
                    n == rummy.hands@.len(),
                    n > 0,
                    prev < n,
                    holder_before(rummy.hands@, first, n as nat) == holder_before(rummy.hands@, prev as int, fuel as nat),
                decreases fuel,
            {
                prev = seat_before(prev, n);
                fuel = fuel - 1;
            }
            let before: Cards = rummy.hands[prev].known;
            let suits: [Suit; 4] = suit_values();
            let mut suit: Suit = suits[0];
            let mut best: (usize, usize) = lead_weight(rummy, hand, before, suit);
            let mut i: usize = 1;
            while i < 4
                invariant
                    1 <= i <= 4,
                    suits@ == seq![Suit::Clubs, Suit::Diamonds, Suit::Hearts, Suit::Spades],
                    suit == lead_suit(trump_suit, hand, before, i - 1),
                    trump_suit == rummy.trump.spec_suit(),
                    best.0 == lead_weight_of(trump_suit, hand, before, suit).0,
                    best.1 == lead_weight_of(trump_suit, hand, before, suit).1,
                decreases 4 - i,
            {
                let w: (usize, usize) = lead_weight(rummy, hand, before, suits[i]);
                assert(suits@[i as int] == Suit::spec_from_idx(i as int));
                if w.0 > best.0 || (w.0 == best.0 && w.1 >= best.1) {
                    best = w;
                    suit = suits[i];
                }
                i = i + 1;
            }
            let in_suit: Cards = hand.in_suit(suit);
            if in_suit.is_empty() {
                return Action::PickUp;
            }
            let (lo, hi) = in_suit.min_run();
            proof {
                crate::cards::lemma_lowest_run(in_suit, lo, hi);
                crate::cards::lemma_range_counts(lo, hi);
                assert forall|c: Card| Cards::spec_range(lo, hi).count(c) <= hand.count(c) by {
                    assert(Cards::spec_range(lo, hi).count(c) <= in_suit.count(c));
                }
            }
            Action::PlayRun { lo, hi }
        },
    }
}

/// The run from `lo` to `hi` where the player whose turn it is can play it with
/// the cards that the bot knows, and a pick-up where not.
pub open spec fn checked(rummy: BotRummy, lo: Card, hi: Card) -> Action {
    if sound_in_rummy(rummy, Action::PlayRun { lo, hi }) {
        Action::PlayRun { lo, hi }
    } else {
        Action::PickUp
    }
}

/// The run from `lo` to `hi` where the player whose turn it is can play it with
/// the cards that the bot knows, and a pick-up where not.
pub fn checked_run(rummy: &BotRummy, lo: Card, hi: Card) -> (action: Action)
    requires
        rummy.wf(),
    ensures
        action == checked(*rummy, lo, hi),
        sound_in_rummy(*rummy, action),
        action == Action::PickUp || action == (Action::PlayRun { lo, hi }),
{
    if lo.suit() != hi.suit() || lo.rank().idx() > hi.rank().idx() {
        return Action::PickUp;
    }
    let hand: Cards = rummy.hands[rummy.next.idx()].known;
    if hand.contains_all(Cards::range(lo, hi)) && rummy.trick.can_play(lo, rummy.trump.suit()) {
        Action::PlayRun { lo, hi }
    } else {
        Action::PickUp
    }
}

/// The number of the runs of a sequence that are not of the suit `trump`.
pub open spec fn other_runs(runs: Seq<(Card, Card)>, trump: Suit) -> nat
    decreases runs.len(),
{
    if runs.len() == 0 {
        0
    } else {
        other_runs(runs.drop_last(), trump) + (if runs.last().0.spec_suit() != trump { 1nat } else { 0nat })
    }
}

/// The cards among which a random play is taken by the player whose turn it
/// is. On a trick that is not empty: the cards of the hand above the top in
/// its suit, and the trumps of the hand where the top is no trump; but none
/// on a trick of four or more that began with a trump. On an empty trick: the
/// hand without its trumps, or with them where it holds nothing else or the
/// trick is one of two.
pub open spec fn random_cards(rummy: BotRummy) -> Option<Cards> {
    let hand = rummy.hands@[rummy.next.0 as int].known;
    let trump = rummy.trump.spec_suit();
    let trumps = hand.spec_in_suit(trump);
    match rummy.trick@.top_card() {
        Some(card) => {
            let above = hand.spec_above(card);
            if rummy.trick@.num_players >= 4 && rummy.trick@.plays[0].0.spec_suit() == trump {
                None
            } else if card.spec_suit() == trump || !above.fits(trumps) {
                Some(above)
            } else {
                Some(above.plus(trumps))
            }
        },
        None => if hand == trumps || rummy.trick@.num_players == 2 || !hand.includes(trumps) {
            Some(hand)
        } else {
            Some(hand.minus(trumps))
        },
    }
}

/// Whether the hand of the player whose turn it is holds more trumps than it
/// needs to keep, when a random play is taken among `plays`: more than one
/// trump can be played, and what the hand holds of trumps beyond their lowest
/// run is at least as many cards as the hand has runs of other suits.
pub open spec fn spare_trumps(rummy: BotRummy, plays: Cards) -> bool {
    let hand = rummy.hands@[rummy.next.0 as int].known;
    let trump = rummy.trump.spec_suit();
    let trumps = hand.spec_in_suit(trump);
    let run = trumps.lowest_run();
    plays.spec_in_suit(trump).spec_len() > 1 && trumps != Cards::spec_none() && other_runs(hand.runs_of(), trump) <= trumps.minus(
        Cards::spec_range(run.0, run.1),
    ).spec_len()
}

/// The cards among which a random play is taken, and whether the hand can
/// spare trumps; nothing where there is no card to play.
pub open spec fn random_set(rummy: BotRummy) -> Option<(Cards, bool)> {
    match random_cards(rummy) {
        None => None,
        Some(plays) => if plays == Cards::spec_none() {
            None
        } else {
            Some((plays, spare_trumps(rummy, plays)))
        },
    }
}

/// The cards among which a random play is taken, and whether the hand holds
/// more trumps than it needs to keep.
fn random_plays(rummy: &BotRummy) -> (r: Option<(Cards, bool)>)
    requires
        rummy.wf(),
    ensures
        r == random_set(*rummy),
{
    let hand: Cards = rummy.hands[rummy.next.idx()].known;
    let trump: Suit = rummy.trump.suit();
    let trumps: Cards = hand.in_suit(trump);
    let plays: Cards = match rummy.trick.top_card() {
        Some(card) => {
            let first: &[(Card, Card)] = rummy.trick.plays();
            if rummy.trick.num_players() >= 4 && first.len() > 0 && first[0].0.suit() == trump {
                return None;
            }
            let above: Cards = hand.above(card);
            if card.suit() == trump || !above.can_add(trumps) {
                above
            } else {
                above + trumps
            }
        },
        None => {
            if hand == trumps || rummy.trick.num_players() == 2 || !hand.contains_all(trumps) {
                hand
            } else {
                hand - trumps
            }
        },
    };
    if plays.is_empty() {
        return None;
    }
    let spare: bool = if plays.in_suit(trump).len() > 1 && !trumps.is_empty() {
        let runs: Vec<(Card, Card)> = hand.runs().collect();
        let mut others: usize = 0;
        let mut i: usize = 0;
        proof {
            assert(runs@.subrange(0, 0) =~= Seq::<(Card, Card)>::empty());
        }
        while i < runs.len()
            invariant
                i <= runs@.len(),
                others <= i,
                others == other_runs(runs@.subrange(0, i as int), trump),
            decreases runs.len() - i,
        {
            proof {
                let next = runs@.subrange(0, i as int + 1);
                assert(next.drop_last() =~= runs@.subrange(0, i as int));
                assert(next.last() == runs@[i as int]);
            }
            if runs[i].0.suit() != trump {
                others = others + 1;
            }
            i = i + 1;
        }
        let (lo, hi) = trumps.min_run();
        proof {
            assert(runs@.subrange(0, i as int) =~= runs@);
            crate::cards::lemma_lowest_run(trumps, lo, hi);
        }
        let rest: Cards = trumps - Cards::range(lo, hi);
        others <= rest.len()
    } else {
        false
    };
    Some((plays, spare))
}

/// Whether the whole of a run may be played at once in a random play: a run of
/// more than one card, and no trumps unless the hand can spare them.
pub open spec fn played_whole(lo: Card, hi: Card, trump: Suit, spare: bool) -> bool {
    lo != hi && (spare || lo.spec_suit() != trump)
}

/// Whether the whole of a run may be played at once in a random play.
fn whole_run(lo: Card, hi: Card, trump: Suit, spare: bool) -> (b: bool)
    ensures
        b == played_whole(lo, hi, trump, spare),
{
    lo != hi && (spare || lo.suit() != trump)
}

/// The number of plays that the runs of a sequence allow: for each run its
/// lowest card, and the whole run where it may be played at once.
pub open spec fn run_choices(runs: Seq<(Card, Card)>, trump: Suit, spare: bool) -> nat
    decreases runs.len(),
{
    if runs.len() == 0 {
        0
    } else {
        run_choices(runs.drop_last(), trump, spare) + 1 + (if played_whole(runs.last().0, runs.last().1, trump, spare) {
            1nat
        } else {
            0nat
        })
    }
}

/// The number of plays among which a random play is taken of the runs `runs`:
/// the plays of the runs, and a pick-up where the trick is not empty. None
/// where the runs are more than a thousand.
pub open spec fn choices(rummy: BotRummy, runs: Seq<(Card, Card)>, spare: bool) -> nat {
    if runs.len() > 1000 {
        0
    } else {
        run_choices(runs, rummy.trump.spec_suit(), spare) + (if rummy.trick@.plays.len() == 0 { 0nat } else { 1nat })
    }
}

/// The number of plays among which a random play is taken: for each run its
/// lowest card, for some runs the whole run, and a pick-up where the trick is
/// not empty.
fn count_choices(rummy: &BotRummy, runs: &Vec<(Card, Card)>, spare: bool) -> (n: usize)
    requires
        rummy.wf(),
    ensures
        n == choices(*rummy, runs@, spare),
{
    if runs.len() > 1000 {
        return 0;
    }
    let trump: Suit = rummy.trump.suit();
    let first: usize = if rummy.trick.is_empty() { 0 } else { 1 };
    let mut n: usize = first;
    let mut i: usize = 0;
    proof {
        assert(runs@.subrange(0, 0) =~= Seq::<(Card, Card)>::empty());
    }
    while i < runs.len()
        invariant
            i <= runs@.len() <= 1000,
            i <= n <= 2 * i + 1,
            first <= 1,
            n == run_choices(runs@.subrange(0, i as int), trump, spare) + first,
        decreases runs.len() - i,
    {
        proof {
            let next = runs@.subrange(0, i as int + 1);
            assert(next.drop_last() =~= runs@.subrange(0, i as int));
            assert(next.last() == runs@[i as int]);
        }
        n = n + 1;
        if whole_run(runs[i].0, runs[i].1, trump, spare) {
            n = n + 1;
        }
        i = i + 1;
    }
    proof {
        assert(runs@.subrange(0, i as int) =~= runs@);
    }
    n
}

/// The run that stands at place `place` among the plays that the runs of a
/// sequence allow: the lowest card of each run in turn, and after it the
/// whole run where it may be played at once; none past the last.
pub open spec fn nth_play(runs: Seq<(Card, Card)>, trump: Suit, spare: bool, place: nat) -> Option<(Card, Card)>
    decreases runs.len(),
{
    if runs.len() == 0 {
        None
    } else {
        let whole = played_whole(runs[0].0, runs[0].1, trump, spare);
        if place == 0 {
            Some((runs[0].0, runs[0].0))
        } else if place == 1 && whole {
            Some(runs[0])
        } else {
            nth_play(runs.drop_first(), trump, spare, if whole && place >= 2 { (place - 2) as nat } else { (place - 1) as nat })
        }
    }
}

/// The play that stands at place `choice` among the plays of which a random
/// play is taken, where the player can make it with the cards that the bot
/// knows; a pick-up where not, and past the last play.
pub open spec fn random_play(rummy: BotRummy, choice: nat) -> Action {
    match random_set(rummy) {
        None => Action::PickUp,
        Some((plays, spare)) => match nth_play(plays.runs_of(), rummy.trump.spec_suit(), spare, choice) {
            Some((lo, hi)) => checked(rummy, lo, hi),
            None => Action::PickUp,
        },
    }
}

/// The play that stands at place `choice` among the plays of which a random
/// play is taken: the lowest card of each run in turn, and after it the whole
/// run where it may be played; a pick-up past the last.
pub fn rummy_random_with(rummy: &BotRummy, choice: usize) -> (action: Action)
    requires
        rummy.wf(),
    ensures
        action == random_play(*rummy, choice as nat),
        sound_in_rummy(*rummy, action),
{
    let (plays, spare): (Cards, bool) = match random_plays(rummy) {
        Some(r) => r,
        None => {
            return Action::PickUp;
        },
    };
    let trump: Suit = rummy.trump.suit();
    let runs: Vec<(Card, Card)> = plays.runs().collect();
    let mut left: usize = choice;
    let mut i: usize = 0;
    proof {
        assert(runs@.subrange(0, runs@.len() as int) =~= runs@);
    }
    while i < runs.len()
        invariant
            i <= runs@.len(),
            rummy.wf(),
            trump == rummy.trump.spec_suit(),
            random_set(*rummy) == Some((plays, spare)),
            runs@ == plays.runs_of(),
            nth_play(runs@, trump, spare, choice as nat) == nth_play(
                runs@.subrange(i as int, runs@.len() as int),
                trump,
                spare,
                left as nat,
            ),
        decreases runs.len() - i,
    {
        let (lo, hi) = runs[i];
        let whole: bool = whole_run(lo, hi, trump, spare);
        proof {
            let rest = runs@.subrange(i as int, runs@.len() as int);
            assert(rest[0] == runs@[i as int]);
            assert(rest[0] == (lo, hi));
            assert(rest[0].0 == lo && rest[0].1 == hi);
            assert(rest.drop_first() =~= runs@.subrange(i as int + 1, runs@.len() as int));
        }
        if left == 0 {
            return checked_run(rummy, lo, lo);
        } else if left == 1 && whole {
            return checked_run(rummy, lo, hi);
        }
        left = if whole && left >= 2 { left - 2 } else { left - 1 };
        i = i + 1;
    }
    Action::PickUp
}

/// `shuffle` swaps the items of a slice among themselves as the generator of
/// the thread says: the same cards are there afterwards, in an order that is
/// not known.
#[verifier::external_body]
fn shuffle_cards(cards: &mut Vec<Card>)
    ensures
        final(cards)@.to_multiset() == old(cards)@.to_multiset(),
{
    cards.shuffle(&mut rand::thread_rng());
}

/// A point in time of a clock that never runs backwards. Nothing is known of
/// it but that it can be handed on.
#[verifier::external_type_specification]
#[verifier::external_body]
pub struct ExInstant(std::time::Instant);

/// `Instant::now` gives the point in time at which it is called; nothing is
/// known of it.
pub assume_specification[ std::time::Instant::now ]() -> (now: std::time::Instant);

/// `Instant::elapsed` gives the time that has passed since the point in time;
/// nothing is known of it.
pub assume_specification[ std::time::Instant::elapsed ](start: &std::time::Instant) -> (passed: core::time::Duration);

/// `Duration::as_millis` gives the whole milliseconds of a span of time;
/// nothing is known of their number.
pub assume_specification[ core::time::Duration::as_millis ](span: &core::time::Duration) -> (millis: u128);

/// Whether `action` is one of the plays among which a random play is taken:
/// a pick-up where there is none, else the play at one of their places.
pub open spec fn random_choice(rummy: BotRummy, action: Action) -> bool {
    match random_set(rummy) {
        None => action == Action::PickUp,
        Some((plays, spare)) => {
            let n = choices(rummy, plays.runs_of(), spare);
            if n == 0 {
                action == Action::PickUp
            } else {
                exists|choice: nat| choice < n && action == #[trigger] random_play(rummy, choice)
            }
        },
    }
}

/// A way to play the rummy at random: one of the plays that the hand allows,
/// each as likely as the other.
pub fn rummy_random(rummy: &BotRummy) -> (action: Action)
    requires
        rummy.wf(),
    ensures
        random_choice(*rummy, action),
        sound_in_rummy(*rummy, action),
{
    let (plays, spare): (Cards, bool) = match random_plays(rummy) {
        Some(r) => r,
        None => {
            return Action::PickUp;
        },
    };
    let runs: Vec<(Card, Card)> = plays.runs().collect();
    let n: usize = count_choices(rummy, &runs, spare);
    if n == 0 {
        return Action::PickUp;
    }
    let choice: usize = random_below(n);
    let action: Action = rummy_random_with(rummy, choice);
    assert(action == random_play(*rummy, choice as nat));
    action
}

/// A copy of the rummy phase.
fn copy_rummy(rummy: &BotRummy) -> (r: BotRummy)
    requires
        rummy.wf(),
    ensures
        r.wf(),
        r.hands@ == rummy.hands@,
        r.next == rummy.next,
{
    RummyPhase {
        hands: rummy.hands.clone(),
        trick: rummy.trick.clone(),
        next: rummy.next,
        trump: rummy.trump,
        pick_ups: rummy.pick_ups,
        history: rummy.history,
    }
}

/// A set with the cards of a sequence added one by one, but for those that the
/// set holds three times already.
pub open spec fn with_fitting(known: Cards, cards: Seq<Card>) -> Cards
    decreases cards.len(),
{
    if cards.len() == 0 {
        known
    } else {
        let before = with_fitting(known, cards.drop_last());
        if before.count(cards.last()) < 3 {
            before.plus(Cards::single(cards.last()))
        } else {
            before
        }
    }
}

/// The number of cards that the first `i` hands are dealt of `cards` cards:
/// each hand as many as it holds cards that the bot does not know, as far as
/// the cards go.
pub open spec fn dealt_upto(hands: Seq<ClientRummyHand>, cards: nat, i: int) -> nat
    decreases i,
{
    if i <= 0 {
        0
    } else {
        let wanted = dealt_upto(hands, cards, i - 1) + hands[i - 1].unknown as nat;
        if wanted > cards {
            cards
        } else {
            wanted
        }
    }
}

/// Hand `i` after `cards` were dealt to the hands in place of the cards that
/// the bot does not know: the hands take their cards off the front of `cards`
/// in turn, and no hand is left with a card that the bot does not know.
pub open spec fn hand_dealt(hands: Seq<ClientRummyHand>, cards: Seq<Card>, i: int) -> ClientRummyHand {
    ClientRummyHand {
        known: with_fitting(
            hands[i].known,
            cards.subrange(dealt_upto(hands, cards.len(), i) as int, dealt_upto(hands, cards.len(), i + 1) as int),
        ),
        unknown: 0,
    }
}

/// Deals `cards` to the hands of a game in place of the cards that the bot
/// does not know, off the front and hand by hand.
pub fn deal_unknown(game: &mut BotRummy, cards: &Vec<Card>)
    requires
        old(game).wf(),
    ensures
        final(game).wf(),
        final(game).hands@.len() == old(game).hands@.len(),
        forall|j: int| 0 <= j < old(game).hands@.len() ==> #[trigger] final(game).hands@[j] == hand_dealt(old(game).hands@, cards@, j),
        final(game).trick@ == old(game).trick@,
        final(game).next == old(game).next,
        final(game).trump == old(game).trump,
        final(game).pick_ups == old(game).pick_ups,
        final(game).history == old(game).history,
{
    let ghost before = game.hands@;
    let mut next: usize = 0;
    let mut i: usize = 0;
    while i < game.hands.len()
        invariant
            i <= game.hands@.len(),
            game.wf(),
            game.hands@.len() == before.len(),
            next <= cards@.len(),
            next == dealt_upto(before, cards@.len(), i as int),
            forall|j: int| 0 <= j < i ==> #[trigger] game.hands@[j] == hand_dealt(before, cards@, j),
            forall|j: int| i <= j < before.len() ==> #[trigger] game.hands@[j] == before[j],
            game.trick@ == old(game).trick@,
            game.next == old(game).next,
            game.trump == old(game).trump,
            game.pick_ups == old(game).pick_ups,
            game.history == old(game).history,
        decreases game.hands.len() - i,
    {
        let mut hand: ClientRummyHand = game.hands[i];
        let ghost first = hand;
        let ghost start = next;
        let mut k: u8 = 0;
        proof {
            assert(cards@.subrange(start as int, start as int) =~= Seq::<Card>::empty());
        }
        while k < hand.unknown && next < cards.len()
            invariant
                next <= cards@.len(),
                next == start + k,
                k <= hand.unknown,
                hand.unknown == first.unknown,
                hand.known == with_fitting(first.known, cards@.subrange(start as int, next as int)),
            decreases hand.unknown - k,
        {
            proof {
                let taken = cards@.subrange(start as int, next as int + 1);
                assert(taken.drop_last() =~= cards@.subrange(start as int, next as int));
                assert(taken.last() == cards@[next as int]);
            }
            if hand.known.can_add_card(cards[next]) {
                hand.known = hand.known + cards[next];
            }
            next = next + 1;
            k = k + 1;
        }
        hand.unknown = 0;
        game.hands.set(i, hand);
        proof {
            assert(first == before[i as int]);
            assert(next == dealt_upto(before, cards@.len(), i as int + 1));
            assert(hand == hand_dealt(before, cards@, i as int));
        }
        i = i + 1;
    }
}

/// What a step of a simulated game answers: the error of an action that the
/// rules refuse; else the goat, where the game ends with the action: the
/// seat that alone holds cards after a run, or the seat that picked up for
/// the tenth time as all others who hold cards.
pub open spec fn step_result(game: BotRummy, action: Action) -> Result<Option<PlayerIdx>, crate::error::GoatError> {
    match action {
        Action::PlayRun { lo, hi } => match game.play_result(game.next, lo, hi) {
            Err(e) => Err(e),
            Ok(_) => Ok(
                if crate::rummy_phase::count_holding(game.hands_after_play(lo, hi)) == 1 {
                    Some(PlayerIdx(game.next_after_play(lo, hi) as u8))
                } else {
                    None
                },
            ),
        },
        _ => match game.pick_up_result(game.next) {
            Err(e) => Err(e),
            Ok(complete) => Ok(if complete { Some(game.next) } else { None }),
        },
    }
}

/// Makes a step of a simulated game: the player whose turn it is plays the
/// run of `action`, or picks up where the action is no run. A step that the
/// rules refuse changes nothing.
pub fn simulate_step(game: &mut BotRummy, action: Action) -> (r: Result<Option<PlayerIdx>, crate::error::GoatError>)
    requires
        old(game).wf(),
    ensures
        final(game).wf(),
        final(game).hands@.len() == old(game).hands@.len(),
        r == step_result(*old(game), action),
        r is Err ==> *final(game) == *old(game),
        r matches Ok(Some(goat)) ==> goat.0 < old(game).hands@.len(),
        r is Ok ==> match action {
            Action::PlayRun { lo, hi } => {
                &&& final(game).hands@ == old(game).hands_after_play(lo, hi)
                &&& final(game).trick@ == old(game).trick_after_play(lo, hi)
                &&& final(game).next.0 == old(game).next_after_play(lo, hi)
            },
            _ => {
                &&& final(game).hands@ == old(game).hands_after_pick_up()
                &&& final(game).trick@ == old(game).trick_after_pick_up()
                &&& final(game).next.0 == crate::rummy_phase::seek(
                    old(game).hands_after_pick_up(),
                    old(game).next.0 + 1,
                    old(game).hands@.len(),
                )
            },
        },
{
    let player: PlayerIdx = game.next;
    match action {
        Action::PlayRun { lo, hi } => match game.play_run(player, lo, hi) {
            Ok(_) => if game.is_finished() {
                Ok(Some(game.next))
            } else {
                Ok(None)
            },
            Err(e) => Err(e),
        },
        _ => match game.pick_up(player) {
            Ok(complete) => if complete {
                Ok(Some(player))
            } else {
                Ok(None)
            },
            Err(e) => Err(e),
        },
    }
}

/// Plays the rummy to its end at random, after dealing the cards `unknown` at
/// random to the hands in place of the cards that the bot does not know. The
/// answer is the first action of the game and the goat in which it ended; or
/// nothing where the game did not end within `limit` actions. The shuffle and
/// the choice of each play decide what comes out: `deal_unknown` says what
/// the shuffled cards make of the hands, `rummy_random_with` which play a
/// choice is, and `simulate_step` what a play makes of the game.
pub fn simulate_once(rummy: BotRummy, unknown: Cards, limit: usize) -> (r: Option<(Action, PlayerIdx)>)
    requires
        rummy.wf(),
    ensures
        limit == 0 ==> r.is_none(),
        r matches Some((action, goat)) ==> goat.0 < rummy.hands@.len(),
        r matches Some((action, goat)) ==> unknown != Cards::spec_none() || (random_choice(rummy, action) && sound_in_rummy(
            rummy,
            action,
        )),
{
    let mut game: BotRummy = rummy;
    if !unknown.is_empty() {
        let mut cards: Vec<Card> = unknown.cards().collect();
        shuffle_cards(&mut cards);
        deal_unknown(&mut game, &cards);
    }
    let mut first: Option<Action> = None;
    let mut steps: usize = 0;
    while steps < limit
        invariant
            game.wf(),
            game.hands@.len() == rummy.hands@.len(),
            first.is_none() ==> steps == 0,
            first matches Some(action) ==> unknown != Cards::spec_none() || (random_choice(rummy, action) && sound_in_rummy(
                rummy,
                action,
            )),
            unknown == Cards::spec_none() && steps == 0 ==> game == rummy,
        decreases limit - steps,
    {
        let action: Action = rummy_random(&game);
        if first.is_none() {
            first = Some(action);
        }
        let ended: Option<PlayerIdx> = match simulate_step(&mut game, action) {
            Ok(ended) => ended,
            Err(_) => {
                return None;
            },
        };
        steps = steps + 1;
        if let Some(goat) = ended {
            return match first {
                Some(action) => Some((action, goat)),
                None => None,
            };
        }
    }
    None
}

/// Where the cards that the bot knows in the first hands cannot be taken from
/// a set, those of all hands cannot.
pub proof fn lemma_never_known(cards: Cards, hands: Seq<ClientRummyHand>, n: int)
    requires
        0 <= n <= hands.len(),
        without_known(cards, hands.subrange(0, n)).is_none(),
    ensures
        without_known(cards, hands).is_none(),
    decreases hands.len(),
{
    if n < hands.len() {
        assert(hands.drop_last().subrange(0, n) =~= hands.subrange(0, n));
        lemma_never_known(cards, hands.drop_last(), n);
    } else {
        assert(hands.subrange(0, n) =~= hands);
    }
}

/// What is left of a set when the cards that the bot knows in each hand are
/// taken from it, hand by hand; nothing where a hand is known to hold a card
/// that is not left.
pub open spec fn without_known(cards: Cards, hands: Seq<ClientRummyHand>) -> Option<Cards>
    decreases hands.len(),
{
    if hands.len() == 0 {
        Some(cards)
    } else {
        match without_known(cards, hands.drop_last()) {
            Some(rest) => if rest.includes(hands.last().known) {
                Some(rest.minus(hands.last().known))
            } else {
                None
            },
            None => None,
        }
    }
}

/// The decks that are not in play where the bot knows of `count` cards, the
/// trump and the cards played and held: two decks for one deck in play, one
/// for two, none for three; nothing where the cards do not make whole decks.
pub open spec fn decks_out(count: nat) -> Option<Cards> {
    if count == 52 {
        Some(Cards::spec_one_deck().scaled(2))
    } else if count == 104 {
        Some(Cards::spec_one_deck())
    } else if count == 156 {
        Some(Cards::spec_none())
    } else {
        None
    }
}

/// The cards that may lie in the hands without the bot knowing them: three
/// decks without the trump, without the cards that were played, without the
/// cards that the bot knows in the hands, and without the decks that are not
/// in play. There are none where one of these cannot be taken away.
pub open spec fn unknown_of(rummy: BotRummy) -> Option<Cards> {
    let all = Cards::spec_one_deck().scaled(3);
    let trump = Cards::single(rummy.trump);
    let count = 1 + rummy.history.spec_len() + crate::rummy_phase::total_len(rummy.hands@);
    if !all.includes(trump) || !all.minus(trump).includes(rummy.history) {
        None
    } else {
        match (without_known(all.minus(trump).minus(rummy.history), rummy.hands@), decks_out(count)) {
            (Some(rest), Some(out)) => if rest.includes(out) {
                Some(rest.minus(out))
            } else {
                None
            },
            _ => None,
        }
    }
}

/// The cards that may lie in the hands without the bot knowing them: of as
/// many decks as are in play, what is neither the trump nor played nor known
/// to be in a hand. There are none where the cards that the bot knows of do
/// not make whole decks with the others.
fn unknown_cards(rummy: &BotRummy) -> (r: Option<Cards>)
    requires
        rummy.wf(),
    ensures
        r == unknown_of(*rummy),
{
    proof {
        crate::cards::lemma_named_sets();
        assert forall|c: Card| 3 * #[trigger] Cards::spec_one_deck().count(c) <= 3 by {}
    }
    let mut unknown: Cards = Cards::one_deck() * 3;
    let mut count: usize = 1 + Cards::len(rummy.history);
    let trump: Cards = Cards::from(rummy.trump);
    if !unknown.contains_all(trump) {
        return None;
    }
    unknown = unknown - trump;
    if !unknown.contains_all(rummy.history) {
        return None;
    }
    unknown = unknown - rummy.history;
    let ghost start = unknown;
    let mut i: usize = 0;
    proof {
        assert(rummy.hands@.subrange(0, 0) =~= Seq::<ClientRummyHand>::empty());
    }
    while i < rummy.hands.len()
        invariant
            i <= rummy.hands@.len() <= 16,
            count <= 190 + i * 500,
            count == 1 + rummy.history.spec_len() + crate::rummy_phase::total_len(rummy.hands@.subrange(0, i as int)),
            without_known(start, rummy.hands@.subrange(0, i as int)) == Some(unknown),
            start == Cards::spec_one_deck().scaled(3).minus(Cards::single(rummy.trump)).minus(rummy.history),
            Cards::spec_one_deck().scaled(3).includes(Cards::single(rummy.trump)),
            Cards::spec_one_deck().scaled(3).minus(Cards::single(rummy.trump)).includes(rummy.history),
        decreases rummy.hands.len() - i,
    {
        let hand: ClientRummyHand = rummy.hands[i];
        proof {
            let next = rummy.hands@.subrange(0, i as int + 1);
            assert(next.drop_last() =~= rummy.hands@.subrange(0, i as int));
            assert(next.last() == hand);
        }
        if !unknown.contains_all(hand.known) {
            proof {
                lemma_never_known(start, rummy.hands@, i as int + 1);
            }
            return None;
        }
        unknown = unknown - hand.known;
        count = count + hand.known.len() + hand.unknown as usize;
        i = i + 1;
    }
    proof {
        assert(rummy.hands@.subrange(0, i as int) =~= rummy.hands@);
    }
    let spare: Cards = if count == 52 {
        proof {
            assert forall|c: Card| 2 * #[trigger] Cards::spec_one_deck().count(c) <= 3 by {}
        }
        Cards::one_deck() * 2
    } else if count == 104 {
        Cards::one_deck()
    } else if count == 156 {
        Cards::none()
    } else {
        return None;
    };
    if !unknown.contains_all(spare) {
        return None;
    }
    Some(unknown - spare)
}

/// How often an action was the first of a simulated game, and how often the
/// player who took it ended as the goat.
#[derive(Clone, Copy, Debug)]
pub struct Tally {
    pub action: Action,
    pub losses: u64,
    pub games: u64,
}

/// The place of the first tally of `action`, or the number of the tallies
/// where there is none.
pub open spec fn tally_place(tallies: Seq<Tally>, action: Action) -> int
    decreases tallies.len(),
{
    if tallies.len() == 0 {
        0
    } else if tallies[0].action == action {
        0
    } else {
        1 + tally_place(tallies.drop_first(), action)
    }
}

/// The tallies after a game that began with `action` was counted: the first
/// tally of the action counts one game more, and one loss more where the game
/// was lost; a tally that cannot count further stays; and a new tally stands
/// last where the action had none.
pub open spec fn counted(tallies: Seq<Tally>, action: Action, lost: bool) -> Seq<Tally> {
    let i = tally_place(tallies, action);
    if i >= tallies.len() {
        tallies.push(Tally { action, losses: if lost { 1 } else { 0 }, games: 1 })
    } else if tallies[i].games < u64::MAX && tallies[i].losses < u64::MAX {
        tallies.update(
            i,
            Tally {
                action,
                losses: if lost { (tallies[i].losses + 1) as u64 } else { tallies[i].losses },
                games: (tallies[i].games + 1) as u64,
            },
        )
    } else {
        tallies
    }
}

/// Counts a simulated game that began with `action`.
fn count_game(tallies: &mut Vec<Tally>, action: Action, lost: bool)
    ensures
        final(tallies)@ == counted(old(tallies)@, action, lost),
        final(tallies)@.len() >= old(tallies)@.len(),
{
    let mut i: usize = 0;
    proof {
        assert(tallies@.subrange(0, tallies@.len() as int) =~= tallies@);
    }
    while i < tallies.len()
        invariant
            i <= tallies@.len(),
            tallies@ == old(tallies)@,
            tally_place(tallies@, action) == i + tally_place(tallies@.subrange(i as int, tallies@.len() as int), action),
        decreases tallies.len() - i,
    {
        let t: Tally = tallies[i];
        proof {
            let rest = tallies@.subrange(i as int, tallies@.len() as int);
            assert(rest[0] == t);
            assert(rest.drop_first() =~= tallies@.subrange(i as int + 1, tallies@.len() as int));
        }
        if t.action == action {
            if t.games < u64::MAX && t.losses < u64::MAX {
                tallies.set(i, Tally { action, losses: if lost { t.losses + 1 } else { t.losses }, games: t.games + 1 });
            }
            return;
        }
        i = i + 1;
    }
    tallies.push(Tally { action, losses: if lost { 1 } else { 0 }, games: 1 });
}

/// The action with the lowest share of lost games, the first of them where
/// several have it.
pub fn best_action(tallies: &Vec<Tally>) -> (r: Option<Action>)
    ensures
        r.is_some() == (tallies@.len() > 0),
        r matches Some(action) ==> exists|i: int| 0 <= i < tallies@.len() && tallies@[i].action == action,
{
    let mut best: Option<(Action, u64)> = None;
    let mut i: usize = 0;
    while i < tallies.len()
        invariant
            i <= tallies@.len(),
            best.is_some() == (i > 0),
            best matches Some((action, _)) ==> exists|k: int| 0 <= k < i && tallies@[k].action == action,
        decreases tallies.len() - i,
    {
        let t: Tally = tallies[i];
        let share: u64 = if t.games == 0 {
            0xffff_ffff
        } else {
            let losses: u64 = if t.losses > t.games { t.games } else { t.losses };
            if losses > 0xffff_ffff {
                0xffff_ffff
            } else {
                (losses * 0xffff_ffff) / t.games
            }
        };
        let better: bool = match best {
            None => true,
            Some((_, s)) => share < s,
        };
        if better {
            best = Some((t.action, share));
        }
        i = i + 1;
    }
    match best {
        Some((action, _)) => Some(action),
        None => None,
    }
}

/// Whether `action` is what the simulation of games may say in the rummy
/// `rummy`. Where the bot cannot tell which cards it does not know, the
/// simple play; else, as the simulated games go, the simple play or a play
/// that the player can make with the cards that the bot knows.
pub open spec fn simulated(rummy: BotRummy, action: Action) -> bool {
    if unknown_of(rummy).is_none() {
        action == simple_play(rummy)
    } else {
        sound_in_rummy(rummy, action)
    }
}

/// A way to play the rummy that simulates games for `millis` milliseconds, each
/// played at random from what the bot knows, and takes the first action of
/// those after which the player ended least often as the goat. Where the bot
/// cannot tell which cards it does not know, or no game ended, it plays
/// simply.
pub fn rummy_simulate_for(rummy: &BotRummy, millis: u64) -> (action: Action)
    requires
        rummy.wf(),
    ensures
        simulated(*rummy, action),
        millis == 0 ==> action == simple_play(*rummy),
        sound_in_rummy(*rummy, action),
{
    let unknown: Cards = match unknown_cards(rummy) {
        Some(cards) => cards,
        None => {
            return rummy_simple(rummy);
        },
    };
    let start: std::time::Instant = std::time::Instant::now();
    let mut tallies: Vec<Tally> = Vec::new();
    let mut rounds: u64 = 0;
    while rounds < 1_000_000
        invariant
            rummy.wf(),
            millis == 0 ==> tallies@.len() == 0,
        decreases 1_000_000 - rounds,
    {
        let passed: u128 = start.elapsed().as_millis();
        if passed >= millis as u128 {
            break;
        }
        match simulate_once(copy_rummy(rummy), unknown, 10_000) {
            Some((action, goat)) => {
                count_game(&mut tallies, action, goat == rummy.next);
            },
            None => {},
        }
        rounds = rounds + 1;
    }
    match best_action(&tallies) {
        Some(action) => match action {
            Action::PlayRun { lo, hi } => checked_run(rummy, lo, hi),
            _ => Action::PickUp,
        },
        None => rummy_simple(rummy),
    }
}

/// A way to play the rummy that simulates games for three seconds.
pub fn rummy_simulate(rummy: &BotRummy) -> (action: Action)
    requires
        rummy.wf(),
    ensures
        simulated(*rummy, action),
        sound_in_rummy(*rummy, action),
{
    rummy_simulate_for(rummy, 3000)
}

/// Plays the top of the deck in the war, and the rummy simply.
#[derive(Clone, Copy, Debug)]
pub struct PlayTopSimple;

impl Strategy for PlayTopSimple {
    open spec fn in_war(&self, idx: PlayerIdx, war: BotWar, action: Option<Action>) -> bool {
        action == (if war.wf() { top_choice(war, idx) } else { None })
    }

    open spec fn in_rummy(&self, rummy: BotRummy, action: Action) -> bool {
        action == (if rummy.wf() { simple_play(rummy) } else { Action::PickUp })
    }

    /// Plays the top of the deck; nothing in a war that is not well-formed.
    fn war(&self, idx: PlayerIdx, war: &BotWar) -> (action: Option<Action>) {
        if war.check() {
            war_play_top(idx, war)
        } else {
            None
        }
    }

    /// Plays simply; picks up in a rummy that is not well-formed.
    fn rummy(&self, rummy: &BotRummy) -> (action: Action) {
        if rummy.check() {
            rummy_simple(rummy)
        } else {
            Action::PickUp
        }
    }
}

/// Tries to lose every trick of the war, and plays the rummy simply.
#[derive(Clone, Copy, Debug)]
pub struct DuckSimple;

impl Strategy for DuckSimple {
    open spec fn in_war(&self, idx: PlayerIdx, war: BotWar, action: Option<Action>) -> bool {
        action == (if war.wf() { war_choice(war, idx, true) } else { None })
    }

    open spec fn in_rummy(&self, rummy: BotRummy, action: Action) -> bool {
        action == (if rummy.wf() { simple_play(rummy) } else { Action::PickUp })
    }

    /// Plays to lose the tricks; nothing in a war that is not well-formed.
    fn war(&self, idx: PlayerIdx, war: &BotWar) -> (action: Option<Action>) {
        if war.check() {
            war_duck(idx, war)
        } else {
            None
        }
    }

    /// Plays simply; picks up in a rummy that is not well-formed.
    fn rummy(&self, rummy: &BotRummy) -> (action: Action) {
        if rummy.check() {
            rummy_simple(rummy)
        } else {
            Action::PickUp
        }
    }
}

/// Tries to win every trick of the war, and plays the rummy simply.
#[derive(Clone, Copy, Debug)]
pub struct CoverSimple;

impl Strategy for CoverSimple {
    open spec fn in_war(&self, idx: PlayerIdx, war: BotWar, action: Option<Action>) -> bool {
        action == (if war.wf() { war_choice(war, idx, false) } else { None })
    }

    open spec fn in_rummy(&self, rummy: BotRummy, action: Action) -> bool {
        action == (if rummy.wf() { simple_play(rummy) } else { Action::PickUp })
    }

    /// Plays to win the tricks; nothing in a war that is not well-formed.
    fn war(&self, idx: PlayerIdx, war: &BotWar) -> (action: Option<Action>) {
        if war.check() {
            war_cover(idx, war)
        } else {
            None
        }
    }

    /// Plays simply; picks up in a rummy that is not well-formed.
    fn rummy(&self, rummy: &BotRummy) -> (action: Action) {
        if rummy.check() {
            rummy_simple(rummy)
        } else {
            Action::PickUp
        }
    }
}

/// Ducks in a war of three players and covers in a larger one, and plays the
/// rummy by simulating games.
#[derive(Clone, Copy, Debug)]
pub struct AdaptSimulate;

impl Strategy for AdaptSimulate {
    open spec fn in_war(&self, idx: PlayerIdx, war: BotWar, action: Option<Action>) -> bool {
        action == (if war.wf() { adapted_choice(war, idx) } else { None })
    }

    /// The simulated games are played at random and for a time: of their
    /// outcome holds only that the player can make the play with the cards
    /// that the bot knows.
    open spec fn in_rummy(&self, rummy: BotRummy, action: Action) -> bool {
        if rummy.wf() {
            simulated(rummy, action) && sound_in_rummy(rummy, action)
        } else {
            action == Action::PickUp
        }
    }

    /// Plays to lose the tricks among three players and to win them among
    /// more; nothing in a war that is not well-formed.
    fn war(&self, idx: PlayerIdx, war: &BotWar) -> (action: Option<Action>) {
        if !war.check() {
            None
        } else if war.hands.len() < 4 {
            war_duck(idx, war)
        } else {
            war_cover(idx, war)
        }
    }

    /// Plays what simulated games say; picks up in a rummy that is not
    /// well-formed.
    fn rummy(&self, rummy: &BotRummy) -> (action: Action) {
        if rummy.check() {
            rummy_simulate(rummy)
        } else {
            Action::PickUp
        }
    }
}

/// Ducks in a war of three players and covers in a larger one, and plays the
/// rummy simply.
#[derive(Clone, Copy, Debug)]
pub struct AdaptSimple;

impl Strategy for AdaptSimple {
    open spec fn in_war(&self, idx: PlayerIdx, war: BotWar, action: Option<Action>) -> bool {
        action == (if war.wf() { adapted_choice(war, idx) } else { None })
    }

    open spec fn in_rummy(&self, rummy: BotRummy, action: Action) -> bool {
        action == (if rummy.wf() { simple_play(rummy) } else { Action::PickUp })
    }

    /// Plays to lose the tricks among three players and to win them among
    /// more; nothing in a war that is not well-formed.
    fn war(&self, idx: PlayerIdx, war: &BotWar) -> (action: Option<Action>) {
        if !war.check() {
            None
        } else if war.hands.len() < 4 {
            war_duck(idx, war)
        } else {
            war_cover(idx, war)
        }
    }

    /// Plays simply; picks up in a rummy that is not well-formed.
    fn rummy(&self, rummy: &BotRummy) -> (action: Action) {
        if rummy.check() {
            rummy_simple(rummy)
        } else {
            Action::PickUp
        }
    }
}

} // verus!
