//! The game as a client holds it: what the events that it was sent make of an
//! empty game. Of the cards of other players a client learns the number only.
use vstd::prelude::*;
use crate::card::Card;
use crate::cards::Cards;
use crate::deck::{ClientDeck, Deck};
use crate::dreck::{dreck_cards, dreck_set};
use crate::error::GoatError;
use crate::event::Event;
use crate::goat_phase::GoatPhase;
use crate::id::{PlayerIdx, UserId};
use crate::prev_trick::PreviousTrick;
use crate::rummy_hand::{ClientRummyHand, RummyHand};
use crate::rummy_history::RummyHistory;
use crate::rummy_phase::{count_holding, seek, total_len, RummyPhase};
use crate::rummy_trick::RummyTrickView;
use crate::war_hand::{ClientWarHand, WarHand};
use crate::war_phase::WarPhase;
use crate::war_trick::{lemma_init, WarTrick, WarTrickView};
use crate::war_trick_play::WarPlayKind;

verus! {

/// The war phase as a client holds it.
pub type ClientWar<T> = WarPhase<ClientDeck, ClientWarHand, T>;

/// The rummy phase as a client holds it.
pub type ClientRummy<Hist> = RummyPhase<ClientRummyHand, Hist>;

/// The phase of a game on a client.
#[derive(Debug)]
pub enum ClientPhase<T, Hist> {
    Unstarted,
    War(ClientWar<T>),
    Rummy(ClientRummy<Hist>),
    Goat(GoatPhase),
}

/// A game on a client.
#[derive(Debug)]
pub struct ClientGame<T, Hist> {
    pub phase: ClientPhase<T, Hist>,
    /// The users who play, each at the seat of its index.
    pub players: Vec<UserId>,
}

/// The error of an event that does not fit the game.
pub open spec fn misfit() -> Result<(), GoatError> {
    Err(GoatError::InvalidAction)
}

impl<T: PreviousTrick, Hist: RummyHistory> ClientGame<T, Hist> {
    /// What every game keeps: at most 256 players, and in the war and rummy
    /// phases a seat for each of them.
    pub open spec fn wf(&self) -> bool {
        &&& self.players@.len() <= 256
        &&& match self.phase {
            ClientPhase::Unstarted => true,
            ClientPhase::War(w) => w.wf() && w.hands@.len() == self.players@.len(),
            ClientPhase::Rummy(r) => r.wf() && r.hands@.len() == self.players@.len(),
            ClientPhase::Goat(g) => true,
        }
    }

    /// What `apply` answers to an event of the time before the game starts.
    pub open spec fn lobby_result(&self, event: Event) -> Result<(), GoatError> {
        if !(self.phase is Unstarted) {
            misfit()
        } else {
            match event {
                Event::Join { user_id } => if self.players@.len() >= 256 {
                    Err(GoatError::InvalidNumberOfPlayers)
                } else {
                    Ok(())
                },
                Event::Leave { player } => if player.0 >= self.players@.len() {
                    misfit()
                } else {
                    Ok(())
                },
                Event::Start { num_decks } => if !(3 <= self.players@.len() <= 15) {
                    Err(GoatError::InvalidNumberOfPlayers)
                } else if !(1 <= num_decks <= 3) {
                    Err(GoatError::InvalidNumberOfDecks)
                } else {
                    Ok(())
                },
                _ => misfit(),
            }
        }
    }

    /// What an event of the time before the game starts makes of the game.
    pub open spec fn lobby_applied(&self, event: Event, after: Self) -> bool {
        match event {
            Event::Join { user_id } => after.phase is Unstarted && after.players@ == self.players@.push(user_id),
            Event::Leave { player } => after.phase is Unstarted && after.players@ == self.players@.update(
                player.0 as int,
                self.players@.last(),
            ).drop_last(),
            Event::Start { num_decks } => {
                &&& after.players == self.players
                &&& after.phase matches ClientPhase::War(w)
                &&& w.deck == ClientDeck((52 * num_decks - 1) as u8)
                &&& w.hands@.len() == self.players@.len()
                &&& forall|i: int| 0 <= i < w.hands@.len() ==> #[trigger] w.hands@[i] == ClientWarHand::empty_hand()
                &&& w.won@.len() == self.players@.len()
                &&& forall|i: int| 0 <= i < w.won@.len() ==> #[trigger] w.won@[i] == Cards::spec_none()
                &&& w.trick@ == WarTrickView::init(PlayerIdx(0), self.players@.len())
                &&& w.prev_trick.held().is_none()
            },
            _ => true,
        }
    }

    /// What `apply` answers to an event of the war in the war `w`.
    pub open spec fn war_result(w: ClientWar<T>, event: Event) -> Result<(), GoatError> {
        match event {
            Event::PlayCard { card } => match w.trick@.next_player() {
                None => misfit(),
                Some(p) => if w.hands@[p.0 as int].holds(card) {
                    Ok(())
                } else {
                    Err(GoatError::NotYourCard { card })
                },
            },
            Event::PlayTop { card } => if w.trick@.next_player().is_none() {
                misfit()
            } else if w.deck.0 == 0 {
                Err(GoatError::CannotPlayFromEmptyDeck)
            } else {
                Ok(())
            },
            Event::Slough { player, card } => if player.0 >= w.hands@.len() {
                misfit()
            } else if !w.hands@[player.0 as int].holds(card) {
                Err(GoatError::NotYourCard { card })
            } else {
                Ok(())
            },
            Event::Draw { player, card } => if player.0 >= w.hands@.len() {
                misfit()
            } else if w.deck.0 == 0 {
                Err(GoatError::CannotDrawFromEmptyDeck)
            } else if !w.hands@[player.0 as int].admits(card) {
                Err(GoatError::CannotDrawMoreThanThreeCards)
            } else {
                Ok(())
            },
            Event::RedactedDraw { player } => if player.0 >= w.hands@.len() {
                misfit()
            } else if w.deck.0 == 0 {
                Err(GoatError::CannotDrawFromEmptyDeck)
            } else if !w.hands@[player.0 as int].admits_hidden(1) {
                Err(GoatError::CannotDrawMoreThanThreeCards)
            } else {
                Ok(())
            },
            Event::FinishTrick { player } => if player.0 >= w.hands@.len() {
                misfit()
            } else {
                match w.finish_result(player) {
                    Ok(_) => Ok(()),
                    Err(e) => Err(e),
                }
            },
            Event::RevealTrump { trump } => if w.can_switch() {
                Ok(())
            } else {
                misfit()
            },
            _ => misfit(),
        }
    }

    /// What an event of the war makes of the war `w`, where it stays a war.
    pub open spec fn war_applied(w: ClientWar<T>, event: Event, w2: ClientWar<T>) -> bool {
        match event {
            Event::PlayCard { card } => {
                let p = w.trick@.next_player().unwrap();
                &&& w2.trick@ == w.trick@.play(WarPlayKind::PlayHand, card)
                &&& w2.hands@ == w.hands@.update(p.0 as int, w.hands@[p.0 as int].without_card(card))
                &&& w2.deck == w.deck
                &&& w2.won@ == w.won@
                &&& w2.prev_trick == w.prev_trick
            },
            Event::PlayTop { card } => {
                &&& w2.trick@ == w.trick@.play(WarPlayKind::PlayTop, card)
                &&& w2.hands@ == w.hands@
                &&& w2.deck.0 == w.deck.0 - 1
                &&& w2.won@ == w.won@
                &&& w2.prev_trick == w.prev_trick
            },
            Event::Slough { player, card } => {
                &&& w2.trick@ == w.trick@.slough(player, card)
                &&& w2.hands@ == w.hands@.update(player.0 as int, w.hands@[player.0 as int].without_card(card))
                &&& w2.deck == w.deck
                &&& w2.won@ == w.won@
                &&& w2.prev_trick == w.prev_trick
            },
            Event::Draw { player, card } => {
                &&& w2.trick@ == w.trick@
                &&& w2.hands@ == w.hands@.update(player.0 as int, w.hands@[player.0 as int].with_card(card))
                &&& w2.deck.0 == w.deck.0 - 1
                &&& w2.won@ == w.won@
                &&& w2.prev_trick == w.prev_trick
            },
            Event::RedactedDraw { player } => {
                &&& w2.trick@ == w.trick@
                &&& w2.hands@ == w.hands@.update(player.0 as int, w.hands@[player.0 as int].with_hidden(1))
                &&& w2.deck.0 == w.deck.0 - 1
                &&& w2.won@ == w.won@
                &&& w2.prev_trick == w.prev_trick
            },
            Event::FinishTrick { player } => {
                &&& w2.trick@ == w.trick_after_finish(player)
                &&& w2.won@ == w.won_after_finish(player)
                &&& w2.hands@ == w.hands@
                &&& w2.deck == w.deck
                &&& w2.prev_trick.held() == w.prev_after_finish(player)
            },
            _ => true,
        }
    }

    /// Whether the rummy phase `rm` is the one that follows the war `w` when
    /// the trump `trump` is revealed.
    pub open spec fn revealed(w: ClientWar<T>, trump: Card, rm: ClientRummy<Hist>) -> bool {
        &&& rm.hands@.len() == w.hands@.len()
        &&& forall|i: int| 0 <= i < w.hands@.len() ==> #[trigger] rm.hands@[i] == w.rummy_hand(i)
        &&& rm.trump == trump
        &&& rm.pick_ups == 0
        &&& rm.trick@ == (RummyTrickView { plays: Seq::empty(), num_players: count_holding(rm.hands@) })
        &&& rm.next == w.rummy_leader()
    }

    /// The number of cards that a player gives up without the client knowing
    /// them, when they give up `dreck` cards in all and the client knows `hand`.
    pub open spec fn unseen_dreck(rm: ClientRummy<Hist>, hand: ClientRummyHand, dreck: u8) -> int {
        dreck - hand.known.part(dreck_set(rm.trump)).spec_len()
    }

    /// What `apply` answers to an event about the dreck in the rummy phase `rm`.
    pub open spec fn dreck_result(rm: ClientRummy<Hist>, event: Event) -> Result<(), GoatError> {
        match event {
            Event::OfferDreck { player, dreck } => if player.0 < rm.hands@.len() && rm.hands@[player.0 as int].holds(dreck) {
                Ok(())
            } else {
                misfit()
            },
            Event::ReceiveDreck { player, dreck } => if player.0 < rm.hands@.len() && rm.hands@[player.0 as int].admits(dreck) {
                Ok(())
            } else {
                misfit()
            },
            Event::RedactedOfferDreck { player, dreck } => if player.0 < rm.hands@.len() && (dreck == 0 || 0
                <= Self::unseen_dreck(rm, rm.hands@[player.0 as int], dreck) <= rm.hands@[player.0 as int].unknown) {
                Ok(())
            } else {
                misfit()
            },
            Event::RedactedReceiveDreck { player, dreck } => if player.0 < rm.hands@.len() && rm.hands@[player.0 as int].unknown
                + dreck <= 255 {
                Ok(())
            } else {
                misfit()
            },
            _ => misfit(),
        }
    }

    /// The hand of the player of an event about the dreck after the event.
    pub open spec fn dreck_hand(rm: ClientRummy<Hist>, event: Event) -> ClientRummyHand {
        match event {
            Event::OfferDreck { player, dreck } => rm.hands@[player.0 as int].without_cards(dreck),
            Event::ReceiveDreck { player, dreck } => rm.hands@[player.0 as int].with_cards(dreck),
            Event::RedactedOfferDreck { player, dreck } => {
                let hand = rm.hands@[player.0 as int];
                if dreck == 0 {
                    hand
                } else {
                    ClientRummyHand {
                        known: hand.known.minus(hand.known.part(dreck_set(rm.trump))),
                        unknown: (hand.unknown - Self::unseen_dreck(rm, hand, dreck)) as u8,
                    }
                }
            },
            Event::RedactedReceiveDreck { player, dreck } => ClientRummyHand {
                known: rm.hands@[player.0 as int].known,
                unknown: (rm.hands@[player.0 as int].unknown + dreck) as u8,
            },
            _ => rm.hands@[0],
        }
    }

    /// The player of an event about the dreck.
    pub open spec fn dreck_player(event: Event) -> int {
        match event {
            Event::OfferDreck { player, .. } => player.0 as int,
            Event::ReceiveDreck { player, .. } => player.0 as int,
            Event::RedactedOfferDreck { player, .. } => player.0 as int,
            Event::RedactedReceiveDreck { player, .. } => player.0 as int,
            _ => 0,
        }
    }

    /// What an event about the dreck makes of the rummy phase `rm`: the hand of
    /// its player changes; and when a receipt has brought all cards back into
    /// the hands, a new trick begins and the turn goes to a seat that holds
    /// cards.
    pub open spec fn dreck_applied(rm: ClientRummy<Hist>, event: Event, rm2: ClientRummy<Hist>) -> bool {
        let hands = rm.hands@.update(Self::dreck_player(event), Self::dreck_hand(rm, event));
        let done = (event is ReceiveDreck || event is RedactedReceiveDreck) && total_len(hands) % 52 == 51;
        &&& rm2.hands@ == hands
        &&& rm2.trump == rm.trump
        &&& rm2.pick_ups == rm.pick_ups
        &&& rm2.history == rm.history
        &&& if done {
            &&& rm2.trick@ == (RummyTrickView { plays: Seq::empty(), num_players: count_holding(hands) })
            &&& rm2.next.0 == seek(hands, rm.next.0 as int, hands.len())
        } else {
            rm2.trick@ == rm.trick@ && rm2.next == rm.next
        }
    }

    /// What `apply` answers.
    pub open spec fn apply_result(&self, event: Event) -> Result<(), GoatError> {
        match event {
            Event::Join { .. } | Event::Leave { .. } | Event::Start { .. } => self.lobby_result(event),
            Event::PlayCard { .. } | Event::PlayTop { .. } | Event::Slough { .. } | Event::Draw { .. } | Event::RedactedDraw { .. }
            | Event::FinishTrick { .. } | Event::RevealTrump { .. } => match self.phase {
                ClientPhase::War(w) => Self::war_result(w, event),
                _ => misfit(),
            },
            Event::OfferDreck { .. } | Event::ReceiveDreck { .. } | Event::RedactedOfferDreck { .. }
            | Event::RedactedReceiveDreck { .. } => match self.phase {
                ClientPhase::Rummy(rm) => Self::dreck_result(rm, event),
                _ => misfit(),
            },
            Event::PlayRun { lo, hi } => match self.phase {
                ClientPhase::Rummy(rm) => rm.play_result(rm.next, lo, hi),
                _ => misfit(),
            },
            Event::PickUp => match self.phase {
                ClientPhase::Rummy(rm) => match rm.pick_up_result(rm.next) {
                    Ok(_) => Ok(()),
                    Err(e) => Err(e),
                },
                _ => misfit(),
            },
            Event::Goat { noise } => if self.phase is Goat {
                Ok(())
            } else {
                misfit()
            },
        }
    }

    /// What an event that `apply` accepts makes of the game.
    pub open spec fn applied(&self, event: Event, after: Self) -> bool {
        match event {
            Event::Join { .. } | Event::Leave { .. } | Event::Start { .. } => self.lobby_applied(event, after),
            Event::RevealTrump { trump } => {
                &&& after.players == self.players
                &&& after.phase matches ClientPhase::Rummy(rm)
                &&& self.phase matches ClientPhase::War(w)
                &&& Self::revealed(w, trump, rm)
            },
            Event::PlayCard { .. } | Event::PlayTop { .. } | Event::Slough { .. } | Event::Draw { .. } | Event::RedactedDraw { .. }
            | Event::FinishTrick { .. } => {
                &&& after.players == self.players
                &&& after.phase matches ClientPhase::War(w2)
                &&& self.phase matches ClientPhase::War(w)
                &&& Self::war_applied(w, event, w2)
            },
            Event::OfferDreck { .. } | Event::ReceiveDreck { .. } | Event::RedactedOfferDreck { .. }
            | Event::RedactedReceiveDreck { .. } => {
                &&& after.players == self.players
                &&& after.phase matches ClientPhase::Rummy(rm2)
                &&& self.phase matches ClientPhase::Rummy(rm)
                &&& Self::dreck_applied(rm, event, rm2)
            },
            Event::PlayRun { lo, hi } => {
                &&& after.players == self.players
                &&& self.phase matches ClientPhase::Rummy(rm)
                &&& if count_holding(rm.hands_after_play(lo, hi)) == 1 {
                    after.phase matches ClientPhase::Goat(g) && g == (GoatPhase {
                        goat: PlayerIdx(rm.next_after_play(lo, hi) as u8),
                        noise: None,
                    })
                } else {
                    &&& after.phase matches ClientPhase::Rummy(rm2)
                    &&& rm2.hands@ == rm.hands_after_play(lo, hi)
                    &&& rm2.trick@ == rm.trick_after_play(lo, hi)
                    &&& rm2.next.0 == rm.next_after_play(lo, hi)
                    &&& rm2.pick_ups == (if rm.kills(lo, hi) { 0 } else { rm.pick_ups })
                    &&& rm.history_after_play(rm2.history, lo, hi)
                    &&& rm2.trump == rm.trump
                }
            },
            Event::PickUp => {
                &&& after.players == self.players
                &&& self.phase matches ClientPhase::Rummy(rm)
                &&& if rm.pick_up_result(rm.next) == Ok::<bool, GoatError>(true) {
                    after.phase matches ClientPhase::Goat(g) && g == (GoatPhase { goat: rm.next, noise: None })
                } else {
                    &&& after.phase matches ClientPhase::Rummy(rm2)
                    &&& rm2.hands@ == rm.hands_after_pick_up()
                    &&& rm2.trick@ == rm.trick_after_pick_up()
                    &&& rm2.next.0 == seek(rm.hands_after_pick_up(), rm.next.0 + 1, rm.hands@.len())
                    &&& rm2.pick_ups == crate::rummy_phase::raised(rm.pick_ups, rm.next.0 as int)
                    &&& rm.history.picked_up(rm2.history, rm.next, rm.trick@.picked().0, rm.trick@.picked().1)
                    &&& rm2.trump == rm.trump
                }
            },
            Event::Goat { noise } => {
                &&& after.players == self.players
                &&& self.phase matches ClientPhase::Goat(g)
                &&& after.phase matches ClientPhase::Goat(g2)
                &&& g2 == (GoatPhase { goat: g.goat, noise: Some(noise) })
            },
        }
    }

    /// Whether the game keeps what every game keeps.
    pub fn check(&self) -> (b: bool)
        ensures
            b == self.wf(),
    {
        let n: usize = self.players.len();
        if n > 256 {
            return false;
        }
        match &self.phase {
            ClientPhase::Unstarted => true,
            ClientPhase::War(w) => w.check() && w.hands.len() == n,
            ClientPhase::Rummy(r) => r.check() && r.hands.len() == n,
            ClientPhase::Goat(_) => true,
        }
    }

    /// A game without players.
    pub fn new() -> (g: Self)
        ensures
            g.wf(),
            g.phase is Unstarted,
            g.players@.len() == 0,
    {
        ClientGame { phase: ClientPhase::Unstarted, players: Vec::new() }
    }

    /// Applies an event to the game. An event that does not fit the game
    /// changes nothing.
    pub fn apply(&mut self, event: Event) -> (r: Result<(), GoatError>)
        requires
            old(self).wf(),
        ensures
            final(self).wf(),
            r == old(self).apply_result(event),
            r is Err ==> *final(self) == *old(self),
            r is Ok ==> old(self).applied(event, *final(self)),
    {
        match event {
            Event::Join { user_id } => {
                self.apply_lobby(event)
            },
            Event::Leave { player } => {
                self.apply_lobby(event)
            },
            Event::Start { num_decks } => {
                self.apply_lobby(event)
            },
            Event::PlayCard { .. } => self.apply_war(event),
            Event::PlayTop { .. } => self.apply_war(event),
            Event::Slough { .. } => self.apply_war(event),
            Event::Draw { .. } => self.apply_war(event),
            Event::RedactedDraw { .. } => self.apply_war(event),
            Event::FinishTrick { .. } => self.apply_war(event),
            Event::RevealTrump { trump } => self.apply_reveal(trump),
            Event::OfferDreck { .. } => self.apply_dreck(event),
            Event::ReceiveDreck { .. } => self.apply_dreck(event),
            Event::RedactedOfferDreck { .. } => self.apply_dreck(event),
            Event::RedactedReceiveDreck { .. } => self.apply_dreck(event),
            Event::PlayRun { lo, hi } => self.apply_play_run(lo, hi),
            Event::PickUp => self.apply_pick_up(),
            Event::Goat { noise } => {
                match self.phase {
                    ClientPhase::Goat(goat) => {
                        self.phase = ClientPhase::Goat(GoatPhase { goat: goat.goat, noise: Some(noise) });
                        Ok(())
                    },
                    _ => Err(GoatError::InvalidAction),
                }
            },
        }
    }

    /// Applies an event of the time before the game starts.
    pub fn apply_lobby(&mut self, event: Event) -> (r: Result<(), GoatError>)
        requires
            old(self).wf(),
            event is Join || event is Leave || event is Start,
        ensures
            final(self).wf(),
            r == old(self).lobby_result(event),
            r is Err ==> *final(self) == *old(self),
            r is Ok ==> old(self).lobby_applied(event, *final(self)),
    {
        match self.phase {
            ClientPhase::Unstarted => {},
            _ => {
                return Err(GoatError::InvalidAction);
            },
        }
        match event {
            Event::Join { user_id } => {
                if self.players.len() >= 256 {
                    return Err(GoatError::InvalidNumberOfPlayers);
                }
                self.players.push(user_id);
                Ok(())
            },
            Event::Leave { player } => {
                if player.idx() >= self.players.len() {
                    return Err(GoatError::InvalidAction);
                }
                self.players.swap_remove(player.idx());
                Ok(())
            },
            Event::Start { num_decks } => {
                let n: usize = self.players.len();
                if n < 3 || n > 15 {
                    return Err(GoatError::InvalidNumberOfPlayers);
                }
                if num_decks < 1 || num_decks > 3 {
                    return Err(GoatError::InvalidNumberOfDecks);
                }
                let mut hands: Vec<ClientWarHand> = Vec::new();
                let mut won: Vec<Cards> = Vec::new();
                let mut i: usize = 0;
                while i < n
                    invariant
                        i <= n,
                        hands@.len() == i,
                        won@.len() == i,
                        forall|k: int| 0 <= k < i ==> #[trigger] hands@[k] == ClientWarHand::empty_hand(),
                        forall|k: int| 0 <= k < i ==> #[trigger] won@[k] == Cards::spec_none(),
                    decreases n - i,
                {
                    hands.push(ClientWarHand::new());
                    won.push(Cards::none());
                    i = i + 1;
                }
                proof {
                    lemma_init(PlayerIdx(0), n as nat);
                }
                self.phase = ClientPhase::War(
                    WarPhase {
                        deck: ClientDeck::new(num_decks),
                        hands,
                        won,
                        trick: WarTrick::new(PlayerIdx(0), n),
                        prev_trick: T::empty(),
                    },
                );
                Ok(())
            },
            _ => Err(GoatError::InvalidAction),
        }
    }

    /// Applies an event of the war that leaves the game at war.
    pub fn apply_war(&mut self, event: Event) -> (r: Result<(), GoatError>)
        requires
            old(self).wf(),
            event is PlayCard || event is PlayTop || event is Slough || event is Draw || event is RedactedDraw || event is FinishTrick,
        ensures
            final(self).wf(),
            r == old(self).apply_result(event),
            r is Err ==> *final(self) == *old(self),
            r is Ok ==> old(self).applied(event, *final(self)),
    {
        match &mut self.phase {
            ClientPhase::War(war) => {
                let ghost w = *war;
                match event {
                    Event::PlayCard { card } => {
                        let player: PlayerIdx = match war.trick.next_player() {
                            Some(p) => p,
                            None => {
                                return Err(GoatError::InvalidAction);
                            },
                        };
                        assert(player.0 < war.hands@.len()) by {
                            assert(war.trick@.players[war.trick@.next as int].0 < war.hands@.len());
                        }
                        if !war.hands[player.idx()].can_remove(card) {
                            return Err(GoatError::NotYourCard { card });
                        }
                        war.play_from_hand(player, card);
                        Ok(())
                    },
                    Event::PlayTop { card } => {
                        if war.trick.next_player().is_none() {
                            return Err(GoatError::InvalidAction);
                        }
                        if war.deck.0 == 0 {
                            return Err(GoatError::CannotPlayFromEmptyDeck);
                        }
                        war.deck.draw();
                        war.play_from_top(card);
                        Ok(())
                    },
                    Event::Slough { player, card } => {
                        if player.idx() >= war.hands.len() {
                            return Err(GoatError::InvalidAction);
                        }
                        if !war.hands[player.idx()].can_remove(card) {
                            return Err(GoatError::NotYourCard { card });
                        }
                        war.slough(player, card);
                        Ok(())
                    },
                    Event::Draw { player, card } => {
                        if player.idx() >= war.hands.len() {
                            return Err(GoatError::InvalidAction);
                        }
                        if war.deck.0 == 0 {
                            return Err(GoatError::CannotDrawFromEmptyDeck);
                        }
                        let mut hand: ClientWarHand = war.hands[player.idx()];
                        if !hand.can_add(card) {
                            return Err(GoatError::CannotDrawMoreThanThreeCards);
                        }
                        war.deck.draw();
                        hand.add_card(card);
                        war.hands.set(player.idx(), hand);
                        assert(war.hands@ =~= w.hands@.update(player.0 as int, w.hands@[player.0 as int].with_card(card)));
                        Ok(())
                    },
                    Event::RedactedDraw { player } => {
                        if player.idx() >= war.hands.len() {
                            return Err(GoatError::InvalidAction);
                        }
                        if war.deck.0 == 0 {
                            return Err(GoatError::CannotDrawFromEmptyDeck);
                        }
                        let mut hand: ClientWarHand = war.hands[player.idx()];
                        if !hand.can_add_hidden(1) {
                            return Err(GoatError::CannotDrawMoreThanThreeCards);
                        }
                        war.deck.draw();
                        hand.add_hidden(1);
                        war.hands.set(player.idx(), hand);
                        assert(war.hands@ =~= w.hands@.update(player.0 as int, w.hands@[player.0 as int].with_hidden(1)));
                        Ok(())
                    },
                    Event::FinishTrick { player } => {
                        if player.idx() >= war.hands.len() {
                            return Err(GoatError::InvalidAction);
                        }
                        match war.finish_trick(player) {
                            Ok(_) => Ok(()),
                            Err(e) => Err(e),
                        }
                    },
                    _ => Err(GoatError::InvalidAction),
                }
            },
            _ => Err(GoatError::InvalidAction),
        }
    }

    /// Applies the reveal of the trump: the war ends and the rummy begins.
    pub fn apply_reveal(&mut self, trump: Card) -> (r: Result<(), GoatError>)
        requires
            old(self).wf(),
        ensures
            final(self).wf(),
            r == old(self).apply_result(Event::RevealTrump { trump }),
            r is Err ==> *final(self) == *old(self),
            r is Ok ==> old(self).applied(Event::RevealTrump { trump }, *final(self)),
    {
        let rummy: ClientRummy<Hist> = match &self.phase {
            ClientPhase::War(war) => match war.switch_to_rummy::<Hist>(trump) {
                Ok(rummy) => rummy,
                Err(e) => {
                    return Err(e);
                },
            },
            _ => {
                return Err(GoatError::InvalidAction);
            },
        };
        self.phase = ClientPhase::Rummy(rummy);
        Ok(())
    }

    /// Applies an event about the dreck.
    pub fn apply_dreck(&mut self, event: Event) -> (r: Result<(), GoatError>)
        requires
            old(self).wf(),
            event is OfferDreck || event is ReceiveDreck || event is RedactedOfferDreck || event is RedactedReceiveDreck,
        ensures
            final(self).wf(),
            r == old(self).apply_result(event),
            r is Err ==> *final(self) == *old(self),
            r is Ok ==> old(self).applied(event, *final(self)),
    {
        match &mut self.phase {
            ClientPhase::Rummy(rummy) => {
                let ghost rm = *rummy;
                let (player, hand): (PlayerIdx, ClientRummyHand) = match event {
                    Event::OfferDreck { player, dreck } => {
                        if player.idx() >= rummy.hands.len() {
                            return Err(GoatError::InvalidAction);
                        }
                        let mut hand: ClientRummyHand = rummy.hands[player.idx()];
                        if !hand.can_remove(dreck) {
                            return Err(GoatError::InvalidAction);
                        }
                        hand.remove_cards(dreck);
                        (player, hand)
                    },
                    Event::ReceiveDreck { player, dreck } => {
                        if player.idx() >= rummy.hands.len() {
                            return Err(GoatError::InvalidAction);
                        }
                        let mut hand: ClientRummyHand = rummy.hands[player.idx()];
                        if !hand.can_add(dreck) {
                            return Err(GoatError::InvalidAction);
                        }
                        hand.add_cards(dreck);
                        (player, hand)
                    },
                    Event::RedactedOfferDreck { player, dreck } => {
                        if player.idx() >= rummy.hands.len() {
                            return Err(GoatError::InvalidAction);
                        }
                        let mut hand: ClientRummyHand = rummy.hands[player.idx()];
                        if dreck > 0 {
                            let mut known: Cards = hand.known;
                            let seen: Cards = known.take_all(dreck_cards(rummy.trump));
                            let n: usize = seen.len();
                            if n > dreck as usize || (dreck as usize - n) > hand.unknown as usize {
                                return Err(GoatError::InvalidAction);
                            }
                            hand = ClientRummyHand { known, unknown: hand.unknown - (dreck - n as u8) };
                        }
                        (player, hand)
                    },
                    Event::RedactedReceiveDreck { player, dreck } => {
                        if player.idx() >= rummy.hands.len() {
                            return Err(GoatError::InvalidAction);
                        }
                        let hand: ClientRummyHand = rummy.hands[player.idx()];
                        if hand.unknown > 255 - dreck {
                            return Err(GoatError::InvalidAction);
                        }
                        (player, ClientRummyHand { known: hand.known, unknown: hand.unknown + dreck })
                    },
                    _ => {
                        return Err(GoatError::InvalidAction);
                    },
                };
                rummy.hands.set(player.idx(), hand);
                assert(rummy.hands@ =~= rm.hands@.update(Self::dreck_player(event), Self::dreck_hand(rm, event)));
                let receipt: bool = match event {
                    Event::ReceiveDreck { .. } => true,
                    Event::RedactedReceiveDreck { .. } => true,
                    _ => false,
                };
                if receipt && rummy.finished_receiving_dreck() {
                    rummy.reset_trick();
                    rummy.advance_leader();
                }
                Ok(())
            },
            _ => Err(GoatError::InvalidAction),
        }
    }

    /// Applies the play of a run by the player whose turn it is.
    pub fn apply_play_run(&mut self, lo: Card, hi: Card) -> (r: Result<(), GoatError>)
        requires
            old(self).wf(),
        ensures
            final(self).wf(),
            r == old(self).apply_result(Event::PlayRun { lo, hi }),
            r is Err ==> *final(self) == *old(self),
            r is Ok ==> old(self).applied(Event::PlayRun { lo, hi }, *final(self)),
    {
        let goat: Option<PlayerIdx> = match &mut self.phase {
            ClientPhase::Rummy(rummy) => {
                let player: PlayerIdx = rummy.next;
                match rummy.play_run(player, lo, hi) {
                    Err(e) => {
                        return Err(e);
                    },
                    Ok(_) => {},
                }
                if rummy.is_finished() {
                    Some(rummy.next)
                } else {
                    None
                }
            },
            _ => {
                return Err(GoatError::InvalidAction);
            },
        };
        if let Some(goat) = goat {
            self.phase = ClientPhase::Goat(GoatPhase::new(goat));
        }
        Ok(())
    }

    /// Applies a pick-up by the player whose turn it is.
    pub fn apply_pick_up(&mut self) -> (r: Result<(), GoatError>)
        requires
            old(self).wf(),
        ensures
            final(self).wf(),
            r == old(self).apply_result(Event::PickUp),
            r is Err ==> *final(self) == *old(self),
            r is Ok ==> old(self).applied(Event::PickUp, *final(self)),
    {
        let goat: Option<PlayerIdx> = match &mut self.phase {
            ClientPhase::Rummy(rummy) => {
                let player: PlayerIdx = rummy.next;
                match rummy.pick_up(player) {
                    Err(e) => {
                        return Err(e);
                    },
                    Ok(complete) => if complete {
                        Some(player)
                    } else {
                        None
                    },
                }
            },
            _ => {
                return Err(GoatError::InvalidAction);
            },
        };
        if let Some(goat) = goat {
            self.phase = ClientPhase::Goat(GoatPhase::new(goat));
        }
        Ok(())
    }
}

} // verus!
