//! The game as the server holds it: the players, the phase, and the log of all
//! that happened, which is what the clients are told.
use vstd::prelude::*;
use crate::action::Action;
use crate::card::Card;
use crate::cards::{lemma_named_sets, Cards};
use crate::deck::Deck;
use crate::dreck::{pot_fits, dreck_set, takers};
use crate::error::GoatError;
use crate::event::Event;
use crate::goat_phase::GoatPhase;
use crate::id::{PlayerIdx, UserId};
use crate::lists::{deck_order, shuffle_deck};
use crate::copies::bounded;
use crate::rummy_phase::{count_holding, RummyPhase};
use crate::tally::sound;
use crate::rummy_trick::RummyTrickView;
use crate::war_hand::{ServerWarHand, WarHand};
use crate::war_phase::{some_empty, WarPhase};
use crate::war_trick::{lemma_init, WarTrick, WarTrickView};
use crate::war_trick_play::WarPlayKind;

verus! {

/// The war phase as the server holds it.
pub type ServerWar = WarPhase<Vec<Card>, ServerWarHand, ()>;

/// The rummy phase as the server holds it.
pub type ServerRummy = RummyPhase<Cards, ()>;

/// The phase of a game on the server.
#[derive(Debug)]
pub enum ServerPhase {
    /// Players join and leave.
    Unstarted,
    War(ServerWar),
    Rummy(ServerRummy),
    Goat(GoatPhase),
}

/// A game on the server.
#[derive(Debug)]
pub struct ServerGame {
    pub phase: ServerPhase,
    /// The users who play, each at the seat of its index.
    pub players: Vec<UserId>,
    /// All that happened, in order.
    pub events: Vec<Event>,
    /// What the shuffles of this game are made of.
    pub seed: u64,
}

/// The first seat from `from` on at which `user` sits.
pub open spec fn first_seat(players: Seq<UserId>, user: UserId, from: int) -> Option<int>
    decreases players.len() - from,
{
    if from < 0 || from >= players.len() {
        None
    } else if players[from] == user {
        Some(from)
    } else {
        first_seat(players, user, from + 1)
    }
}

/// The search for a seat finds the first seat of the user, or none where the
/// user has none.
pub proof fn lemma_first_seat(players: Seq<UserId>, user: UserId, from: int)
    requires
        0 <= from,
    ensures
        match first_seat(players, user, from) {
            Some(i) => from <= i < players.len() && players[i] == user && forall|j: int| from <= j < i ==> players[j] != user,
            None => forall|j: int| from <= j < players.len() ==> players[j] != user,
        },
    decreases players.len() - from,
{
    if from < players.len() && players[from] != user {
        lemma_first_seat(players, user, from + 1);
    }
}

/// Whether the war is over in a phase with this deck, these hands and this trick.
pub open spec fn war_over(deck: Seq<Card>, hands: Seq<ServerWarHand>, trick: WarTrickView) -> bool {
    deck.len() <= 1 && some_empty(hands, trick.remaining())
}

impl ServerGame {
    /// What every game keeps: at most 256 players, and in the war and rummy
    /// phases a seat for each of them; the deck of the war keeps its trump.
    pub open spec fn wf(&self) -> bool {
        &&& self.players@.len() <= 256
        &&& match self.phase {
            ServerPhase::Unstarted => true,
            ServerPhase::War(w) => w.wf() && w.hands@.len() == self.players@.len() && w.deck@.len() >= 1,
            ServerPhase::Rummy(r) => r.wf() && r.hands@.len() == self.players@.len(),
            ServerPhase::Goat(g) => true,
        }
    }

    /// The seat of `user`, or the error that tells that they have none.
    pub open spec fn seat(&self, user: UserId) -> Result<PlayerIdx, GoatError> {
        match first_seat(self.players@, user, 0) {
            Some(i) => Ok(PlayerIdx(i as u8)),
            None => Err(GoatError::InvalidPlayer { user_id: user }),
        }
    }

    /// Whether `after` is this game with `events` added to its log and `phase`
    /// holding of its phase, the players unchanged.
    pub open spec fn logged(&self, after: ServerGame, events: Seq<Event>) -> bool {
        &&& after.events@ == self.events@ + events
        &&& after.players == self.players
        &&& after.seed == self.seed
    }

    /// Whether the game keeps what every game keeps.
    pub fn check(&self) -> (b: bool)
        ensures
            b == self.wf(),
    {
        let n: usize = self.players.len();
        if n > 256 {
            return false;
        }
        match &self.phase {
            ServerPhase::Unstarted => true,
            ServerPhase::War(w) => w.check() && w.hands.len() == n && w.deck.len() >= 1,
            ServerPhase::Rummy(r) => r.check() && r.hands.len() == n,
            ServerPhase::Goat(_) => true,
        }
    }

    /// Whether the log of `after` goes on from the log of this game.
    pub open spec fn extended(&self, after: ServerGame) -> bool {
        &&& after.seed == self.seed
        &&& after.events@.len() >= self.events@.len()
        &&& after.events@.subrange(0, self.events@.len() as int) =~= self.events@
    }

    /// A game without players, whose shuffles are made of `seed`.
    pub fn new(seed: u64) -> (g: ServerGame)
        ensures
            g.wf(),
            g.phase is Unstarted,
            g.players@.len() == 0,
            g.events@.len() == 0,
            g.seed == seed,
            sound(g),
            bounded(g),
    {
        ServerGame { phase: ServerPhase::Unstarted, players: Vec::with_capacity(4), events: Vec::with_capacity(128), seed }
    }

    /// The seat of `user_id`: the first at which they sit.
    pub fn player(&self, user_id: UserId) -> (r: Result<PlayerIdx, GoatError>)
        requires
            self.players@.len() <= 256,
        ensures
            r == self.seat(user_id),
            r matches Ok(p) ==> p.0 < self.players@.len() && self.players@[p.0 as int] == user_id,
            r is Err ==> !self.players@.contains(user_id),
    {
        let mut i: usize = 0;
        proof {
            lemma_first_seat(self.players@, user_id, 0);
        }
        while i < self.players.len()
            invariant
                i <= self.players@.len() <= 256,
                first_seat(self.players@, user_id, 0) == first_seat(self.players@, user_id, i as int),
            decreases self.players.len() - i,
        {
            if self.players[i] == user_id {
                return Ok(PlayerIdx(i as u8));
            }
            i = i + 1;
        }
        Err(GoatError::InvalidPlayer { user_id })
    }

    /// The goat and its noise, once the game has ended.
    pub fn phase_goat(&self) -> (r: Option<GoatPhase>)
        ensures
            r == (match self.phase {
                ServerPhase::Goat(g) => Some(g),
                _ => None,
            }),
    {
        match self.phase {
            ServerPhase::Goat(g) => Some(g),
            _ => None,
        }
    }

    /// Whether the game is being played: it has started and has no goat yet.
    pub fn active(&self) -> (b: bool)
        ensures
            b == (self.phase is War || self.phase is Rummy),
    {
        match self.phase {
            ServerPhase::War(_) => true,
            ServerPhase::Rummy(_) => true,
            _ => false,
        }
    }

    /// What `apply` does with `Join`: in a game that has not started, a user
    /// who is no player yet becomes the last player. Nothing happens where
    /// they are a player already.
    pub open spec fn joined(&self, user: UserId, r: Result<(), GoatError>, after: ServerGame) -> bool {
        if !(self.phase is Unstarted) {
            r == Err::<(), GoatError>(GoatError::InvalidAction) && after == *self
        } else if self.players@.contains(user) {
            r is Ok && after == *self
        } else if self.players@.len() >= 256 {
            r == Err::<(), GoatError>(GoatError::InvalidNumberOfPlayers) && after == *self
        } else {
            &&& r is Ok
            &&& after.phase is Unstarted
            &&& after.players@ == self.players@.push(user)
            &&& after.events@ == self.events@.push(Event::Join { user_id: user })
            &&& after.seed == self.seed
        }
    }

    /// What `apply` does with `Leave`: in a game that has not started, the last
    /// player takes the seat of the one who leaves.
    pub open spec fn left(&self, player: PlayerIdx, r: Result<(), GoatError>, after: ServerGame) -> bool {
        if !(self.phase is Unstarted) || player.0 >= self.players@.len() {
            r == Err::<(), GoatError>(GoatError::InvalidAction) && after == *self
        } else {
            &&& r is Ok
            &&& after.phase is Unstarted
            &&& after.players@ == self.players@.update(player.0 as int, self.players@.last()).drop_last()
            &&& after.events@ == self.events@.push(Event::Leave { player })
            &&& after.seed == self.seed
        }
    }

    /// What `start` answers.
    pub open spec fn start_result(&self, num_decks: u8) -> Result<(), GoatError> {
        if !(self.phase is Unstarted) {
            Err(GoatError::InvalidAction)
        } else if !(3 <= self.players@.len() <= 15) {
            Err(GoatError::InvalidNumberOfPlayers)
        } else if !(1 <= num_decks <= 3) {
            Err(GoatError::InvalidNumberOfDecks)
        } else {
            Ok(())
        }
    }

    /// Whether `after` is this game begun with `deck`: the war phase, with
    /// empty hands and piles, and a trick that seat 0 leads.
    pub open spec fn begun(&self, deck: Seq<Card>, num_decks: u8, after: ServerGame) -> bool {
        &&& after.phase matches ServerPhase::War(w)
        &&& w.deck@ == deck
        &&& w.hands@.len() == self.players@.len()
        &&& forall|i: int| 0 <= i < w.hands@.len() ==> #[trigger] w.hands@[i] == ServerWarHand::empty_hand()
        &&& w.won@.len() == self.players@.len()
        &&& forall|i: int| 0 <= i < w.won@.len() ==> #[trigger] w.won@[i] == Cards::spec_none()
        &&& w.trick@ == WarTrickView::init(PlayerIdx(0), self.players@.len())
        &&& self.logged(after, seq![Event::Start { num_decks }])
    }

    /// What `apply` does with `Start`: three to fifteen players begin the war
    /// with one to three decks, which are listed from the lowest card up and
    /// then shuffled by a generator made of the seed; the shuffled deck holds
    /// the cards that were listed.
    pub open spec fn started(&self, num_decks: u8, r: Result<(), GoatError>, after: ServerGame) -> bool {
        &&& r == self.start_result(num_decks)
        &&& r is Err ==> after == *self
        &&& r is Ok ==> exists|listing: Seq<Card>|
            Cards::spec_one_deck().scaled(num_decks as nat).is_listing(listing.reverse()) && listing.len() == 52
                * num_decks && deck_order(listing, self.seed).len() == listing.len() && deck_order(listing, self.seed).to_multiset()
                == listing.to_multiset() && #[trigger] self.begun(deck_order(listing, self.seed), num_decks, after)
    }

    /// The war phase of the game and the seat of `user`, or the error that
    /// `apply` answers where the user has no seat or the game is not at war.
    pub open spec fn at_war(&self, user: UserId) -> Result<(PlayerIdx, ServerWar), GoatError> {
        match self.seat(user) {
            Err(e) => Err(e),
            Ok(p) => match self.phase {
                ServerPhase::War(w) => Ok((p, w)),
                _ => Err(GoatError::InvalidAction),
            },
        }
    }

    /// The rummy phase of the game and the seat of `user`, or the error that
    /// `apply` answers where the user has no seat or the game is not at rummy.
    pub open spec fn at_rummy(&self, user: UserId) -> Result<(PlayerIdx, ServerRummy), GoatError> {
        match self.seat(user) {
            Err(e) => Err(e),
            Ok(p) => match self.phase {
                ServerPhase::Rummy(rm) => Ok((p, rm)),
                _ => Err(GoatError::InvalidAction),
            },
        }
    }

    /// What `apply` does with `PlayCard`: the player whose turn it is plays a
    /// card from the hand into the trick.
    pub open spec fn played_card(&self, user: UserId, card: Card, r: Result<(), GoatError>, after: ServerGame) -> bool {
        match self.at_war(user) {
            Err(e) => r == Err::<(), GoatError>(e) && after == *self,
            Ok((p, w)) => {
                &&& r == w.trick@.can_play(p, w.hands@[p.0 as int]@, card)
                &&& r is Err ==> after == *self
                &&& r is Ok ==> {
                    &&& after.phase matches ServerPhase::War(w2)
                    &&& w2.trick@ == w.trick@.play(WarPlayKind::PlayHand, card)
                    &&& w2.hands@ == w.hands@.update(p.0 as int, w.hands@[p.0 as int].without_card(card))
                    &&& w2.deck@ == w.deck@
                    &&& w2.won@ == w.won@
                    &&& self.logged(after, seq![Event::PlayCard { card }])
                }
            },
        }
    }

    /// What `play_top` answers in the war `w` for seat `p`.
    pub open spec fn top_result(w: ServerWar, p: PlayerIdx) -> Result<(), GoatError> {
        if w.deck@.len() <= 1 {
            Err(GoatError::CannotPlayFromEmptyDeck)
        } else {
            w.trick@.can_play_top(p, w.hands@[p.0 as int]@)
        }
    }

    /// What `apply` does with `PlayTop`: the player whose turn it is plays the
    /// top card of the deck into the trick. The trump stays in the deck.
    pub open spec fn played_top(&self, user: UserId, r: Result<(), GoatError>, after: ServerGame) -> bool {
        match self.at_war(user) {
            Err(e) => r == Err::<(), GoatError>(e) && after == *self,
            Ok((p, w)) => {
                &&& r == Self::top_result(w, p)
                &&& r is Err ==> after == *self
                &&& r is Ok ==> {
                    &&& after.phase matches ServerPhase::War(w2)
                    &&& w2.trick@ == w.trick@.play(WarPlayKind::PlayTop, w.deck@.last())
                    &&& w2.hands@ == w.hands@
                    &&& w2.deck@ == w.deck@.drop_last()
                    &&& w2.won@ == w.won@
                    &&& self.logged(after, seq![Event::PlayTop { card: w.deck@.last() }])
                }
            },
        }
    }

    /// What `apply` does with `Slough`: a player discards a card from the hand
    /// into the trick.
    pub open spec fn sloughed(&self, user: UserId, card: Card, r: Result<(), GoatError>, after: ServerGame) -> bool {
        match self.at_war(user) {
            Err(e) => r == Err::<(), GoatError>(e) && after == *self,
            Ok((p, w)) => {
                &&& r == w.trick@.can_slough(p, w.hands@[p.0 as int]@, card)
                &&& r is Err ==> after == *self
                &&& r is Ok ==> {
                    &&& after.phase matches ServerPhase::War(w2)
                    &&& w2.trick@ == w.trick@.slough(p, card)
                    &&& w2.hands@ == w.hands@.update(p.0 as int, w.hands@[p.0 as int].without_card(card))
                    &&& w2.deck@ == w.deck@
                    &&& w2.won@ == w.won@
                    &&& self.logged(after, seq![Event::Slough { player: p, card }])
                }
            },
        }
    }

    /// What `draw` answers in the war `w` for seat `p`.
    pub open spec fn draw_result(w: ServerWar, p: PlayerIdx) -> Result<(), GoatError> {
        if w.hands@[p.0 as int]@.len() >= 3 {
            Err(GoatError::CannotDrawMoreThanThreeCards)
        } else if w.deck@.len() <= 1 {
            Err(GoatError::CannotDrawFromEmptyDeck)
        } else {
            Ok(())
        }
    }

    /// What `apply` does with `Draw`: a player with fewer than three cards takes
    /// the top card of the deck into the hand. The trump stays in the deck.
    pub open spec fn drew(&self, user: UserId, r: Result<(), GoatError>, after: ServerGame) -> bool {
        match self.at_war(user) {
            Err(e) => r == Err::<(), GoatError>(e) && after == *self,
            Ok((p, w)) => {
                &&& r == Self::draw_result(w, p)
                &&& r is Err ==> after == *self
                &&& r is Ok ==> {
                    &&& after.phase matches ServerPhase::War(w2)
                    &&& w2.trick@ == w.trick@
                    &&& w2.hands@ == w.hands@.update(p.0 as int, w.hands@[p.0 as int].with_card(w.deck@.last()))
                    &&& w2.deck@ == w.deck@.drop_last()
                    &&& w2.won@ == w.won@
                    &&& self.logged(after, seq![Event::Draw { player: p, card: w.deck@.last() }])
                }
            },
        }
    }

    /// Whether the war `w2` is the war `w` after seat `p` has acknowledged the
    /// end of the trick.
    pub open spec fn acknowledged(w: ServerWar, p: PlayerIdx, w2: ServerWar) -> bool {
        &&& w2.trick@ == w.trick_after_finish(p)
        &&& w2.won@ == w.won_after_finish(p)
        &&& w2.hands@ == w.hands@
        &&& w2.deck@ == w.deck@
    }

    /// Whether the rummy phase `rm` is the one that follows the war `w` when
    /// its trump is revealed, before any dreck is dealt.
    pub open spec fn follows(w: ServerWar, rm: ServerRummy) -> bool {
        &&& rm.hands@.len() == w.hands@.len()
        &&& forall|i: int| 0 <= i < w.hands@.len() ==> #[trigger] rm.hands@[i] == w.rummy_hand(i)
        &&& rm.trump == w.deck@[0]
        &&& rm.pick_ups == 0
        &&& rm.trick@ == (RummyTrickView { plays: Seq::empty(), num_players: count_holding(rm.hands@) })
        &&& rm.next == w.rummy_leader()
    }

    /// Whether `r` and `after` are what the dealing of the dreck makes of this
    /// game when the rummy phase `rm` is to begin, the log having grown to
    /// `before`: where no hand is short, the rummy begins as it is; else the
    /// dreck is dealt as `distribute_dreck` deals it, and the rummy begins with
    /// what that leaves. The action is refused, and nothing changed, exactly
    /// where a set of cards would hold a card more than three times.
    pub open spec fn dreck_dealt(&self, rm: ServerRummy, before: Seq<Event>, r: Result<(), GoatError>, after: ServerGame) -> bool {
        &&& r is Err ==> r == Err::<(), GoatError>(GoatError::InvalidAction) && after == *self
        &&& r is Ok ==> {
            &&& after.phase matches ServerPhase::Rummy(rm2)
            &&& after.players == self.players
            &&& after.seed == self.seed
            &&& rm2.trump == rm.trump
            &&& rm2.pick_ups == rm.pick_ups
            &&& rm2.hands@.len() == rm.hands@.len()
        }
        &&& if takers(rm.hands@).len() == 0 {
            &&& r is Ok
            &&& after.phase matches ServerPhase::Rummy(rm2)
            &&& rm2 == rm
            &&& after.events@ == before
        } else if !pot_fits(rm.hands@, dreck_set(rm.trump)) {
            r is Err
        } else {
            exists|listing: Seq<Card>| #[trigger]
                rm.dreck_done(
                    Self::rummy_then(rm, r, after),
                    before,
                    Self::events_then(before, r, after),
                    r is Ok,
                    self.seed,
                    listing,
                )
        }
    }

    /// The rummy phase of `after` where the action succeeded, and `rm` where not.
    pub open spec fn rummy_then(rm: ServerRummy, r: Result<(), GoatError>, after: ServerGame) -> ServerRummy {
        if r is Ok {
            after.phase->Rummy_0
        } else {
            rm
        }
    }

    /// The log of `after` where the action succeeded, and `before` where not.
    pub open spec fn events_then(before: Seq<Event>, r: Result<(), GoatError>, after: ServerGame) -> Seq<Event> {
        if r is Ok {
            after.events@
        } else {
            before
        }
    }

    /// Whether `r` and `after` are what the end of the war makes of this game
    /// when `w2` is the war after the last acknowledgement: the trump is
    /// revealed, the hands of the rummy are made, and the dreck is dealt. The
    /// action is refused, and nothing changed, where the hands cannot be made.
    pub open spec fn war_ended(&self, w2: ServerWar, p: PlayerIdx, r: Result<(), GoatError>, after: ServerGame) -> bool {
        if !w2.can_switch() {
            r == Err::<(), GoatError>(GoatError::InvalidAction) && after == *self
        } else {
            exists|rm: ServerRummy| #[trigger]
                Self::follows(w2, rm) && self.dreck_dealt(
                    rm,
                    self.events@ + seq![Event::FinishTrick { player: p }, Event::RevealTrump { trump: w2.deck@[0] }],
                    r,
                    after,
                )
        }
    }

    /// What `apply` does with `FinishTrick`: a player acknowledges the end of
    /// the trick. When the last one has, the winner takes the trick and leads
    /// the next. When the war is over then, the trump is revealed, each player
    /// takes up what they have won, the dreck is dealt, and the rummy begins.
    /// Where that cannot be done because a set of cards would hold a card more
    /// than three times, the action is refused; in a game that began without
    /// players that never happens, as `copies::lemma_never_full` shows.
    pub open spec fn finished_trick(&self, user: UserId, r: Result<(), GoatError>, after: ServerGame) -> bool {
        match self.at_war(user) {
            Err(e) => r == Err::<(), GoatError>(e) && after == *self,
            Ok((p, w)) => match w.finish_result(p) {
                Err(e) => r == Err::<(), GoatError>(e) && after == *self,
                Ok(complete) => if complete && war_over(w.deck@, w.hands@, w.trick_after_finish(p)) {
                    exists|w2: ServerWar| #[trigger] Self::acknowledged(w, p, w2) && self.war_ended(w2, p, r, after)
                } else {
                    &&& r is Ok
                    &&& after.phase matches ServerPhase::War(w2)
                    &&& Self::acknowledged(w, p, w2)
                    &&& self.logged(after, seq![Event::FinishTrick { player: p }])
                },
            },
        }
    }

    /// What `apply` does with `PlayRun`: the player whose turn it is plays a run
    /// from the hand on the trick. The game ends when one player alone holds
    /// cards then: that player is the goat.
    pub open spec fn played_run(&self, user: UserId, lo: Card, hi: Card, r: Result<(), GoatError>, after: ServerGame) -> bool {
        match self.at_rummy(user) {
            Err(e) => r == Err::<(), GoatError>(e) && after == *self,
            Ok((p, rm)) => {
                &&& r == rm.play_result(p, lo, hi)
                &&& r is Err ==> after == *self
                &&& r is Ok ==> {
                    &&& self.logged(after, seq![Event::PlayRun { lo, hi }])
                    &&& if count_holding(rm.hands_after_play(lo, hi)) == 1 {
                        after.phase == ServerPhase::Goat(
                            GoatPhase { goat: PlayerIdx(rm.next_after_play(lo, hi) as u8), noise: None },
                        )
                    } else {
                        &&& after.phase matches ServerPhase::Rummy(rm2)
                        &&& rm2.hands@ == rm.hands_after_play(lo, hi)
                        &&& rm2.trick@ == rm.trick_after_play(lo, hi)
                        &&& rm2.next.0 == rm.next_after_play(lo, hi)
                        &&& rm2.pick_ups == (if rm.kills(lo, hi) { 0 } else { rm.pick_ups })
                        &&& rm2.trump == rm.trump
                    }
                }
            },
        }
    }

    /// What `apply` does with `PickUp`: the player whose turn it is takes the
    /// first connected run of the trick. The game ends when that was the tenth
    /// pick-up in a row of everyone who holds cards: the player is the goat.
    /// A pick-up that the hand could not hold is refused; in a game that began
    /// without players that never happens, as `copies::lemma_never_full` shows.
    pub open spec fn picked_up(&self, user: UserId, r: Result<(), GoatError>, after: ServerGame) -> bool {
        match self.at_rummy(user) {
            Err(e) => r == Err::<(), GoatError>(e) && after == *self,
            Ok((p, rm)) => match rm.pick_up_result(p) {
                Err(e) => r == Err::<(), GoatError>(e) && after == *self,
                Ok(complete) => {
                    &&& r is Ok
                    &&& self.logged(after, seq![Event::PickUp])
                    &&& if complete {
                        after.phase == ServerPhase::Goat(GoatPhase { goat: p, noise: None })
                    } else {
                        &&& after.phase matches ServerPhase::Rummy(rm2)
                        &&& rm2.hands@ == rm.hands_after_pick_up()
                        &&& rm2.trick@ == rm.trick_after_pick_up()
                        &&& rm2.next.0 == crate::rummy_phase::seek(rm.hands_after_pick_up(), rm.next.0 + 1, rm.hands@.len())
                        &&& rm2.pick_ups == crate::rummy_phase::raised(rm.pick_ups, p.0 as int)
                        &&& rm2.trump == rm.trump
                    }
                },
            },
        }
    }

    /// What `apply` does with `Goat`: the goat makes a noise.
    pub open spec fn made_noise(&self, user: UserId, noise: usize, r: Result<(), GoatError>, after: ServerGame) -> bool {
        match self.seat(user) {
            Err(e) => r == Err::<(), GoatError>(e) && after == *self,
            Ok(p) => match self.phase {
                ServerPhase::Goat(g) => if p != g.goat {
                    r == Err::<(), GoatError>(GoatError::NoFreeShows) && after == *self
                } else {
                    &&& r is Ok
                    &&& after.phase == ServerPhase::Goat(GoatPhase { goat: g.goat, noise: Some(noise) })
                    &&& self.logged(after, seq![Event::Goat { noise }])
                },
                _ => r == Err::<(), GoatError>(GoatError::InvalidAction) && after == *self,
            },
        }
    }

    /// What `apply` does with each action.
    pub open spec fn applied(&self, user: UserId, action: Action, r: Result<(), GoatError>, after: ServerGame) -> bool {
        match action {
            Action::Join { user_id } => self.joined(user_id, r, after),
            Action::Leave { player } => self.left(player, r, after),
            Action::Start { num_decks } => self.started(num_decks, r, after),
            Action::PlayCard { card } => self.played_card(user, card, r, after),
            Action::PlayTop => self.played_top(user, r, after),
            Action::Slough { card } => self.sloughed(user, card, r, after),
            Action::Draw => self.drew(user, r, after),
            Action::FinishTrick => self.finished_trick(user, r, after),
            Action::PlayRun { lo, hi } => self.played_run(user, lo, hi, r, after),
            Action::PickUp => self.picked_up(user, r, after),
            Action::Goat { noise } => self.made_noise(user, noise, r, after),
        }
    }

    /// Applies an action of `user_id` to the game. A refused action changes
    /// nothing; an accepted one adds to the log what happened. The cards of
    /// the game stay all there, and none is in it more than three times.
    pub fn apply(&mut self, user_id: UserId, action: Action) -> (r: Result<(), GoatError>)
        requires
            old(self).wf(),
        ensures
            final(self).wf(),
            old(self).applied(user_id, action, r, *final(self)),
            old(self).extended(*final(self)),
            r is Err ==> *final(self) == *old(self),
            sound(*old(self)) ==> sound(*final(self)),
            sound(*old(self)) && bounded(*old(self)) ==> bounded(*final(self)),
    {
        let r: Result<(), GoatError> = match action {
            Action::Join { user_id } => self.join(user_id),
            Action::Leave { player } => self.leave(player),
            Action::Start { num_decks } => self.start(num_decks),
            Action::PlayCard { card } => self.play_card(user_id, card),
            Action::PlayTop => self.play_top(user_id),
            Action::Slough { card } => self.slough(user_id, card),
            Action::Draw => self.draw(user_id),
            Action::FinishTrick => self.finish_trick(user_id),
            Action::PlayRun { lo, hi } => self.play_run(user_id, lo, hi),
            Action::PickUp => self.pick_up(user_id),
            Action::Goat { noise } => self.goat_noise(user_id, noise),
        };
        proof {
            if sound(*old(self)) {
                crate::tally::lemma_sound_kept(*old(self), user_id, action, r, *self);
                if bounded(*old(self)) {
                    crate::copies::lemma_bounded_kept(*old(self), user_id, action, r, *self);
                }
            }
        }
        r
    }

    /// `user_id` becomes a player.
    pub fn join(&mut self, user_id: UserId) -> (r: Result<(), GoatError>)
        requires
            old(self).wf(),
        ensures
            final(self).wf(),
            old(self).joined(user_id, r, *final(self)),
            old(self).extended(*final(self)),
            r is Err ==> *final(self) == *old(self),
    {
        match self.phase {
            ServerPhase::Unstarted => {},
            _ => {
                return Err(GoatError::InvalidAction);
            },
        }
        if self.player(user_id).is_err() {
            if self.players.len() >= 256 {
                return Err(GoatError::InvalidNumberOfPlayers);
            }
            self.players.push(user_id);
            self.events.push(Event::Join { user_id });
        }
        Ok(())
    }

    /// The player at seat `player` leaves.
    pub fn leave(&mut self, player: PlayerIdx) -> (r: Result<(), GoatError>)
        requires
            old(self).wf(),
        ensures
            final(self).wf(),
            old(self).left(player, r, *final(self)),
            old(self).extended(*final(self)),
            r is Err ==> *final(self) == *old(self),
    {
        match self.phase {
            ServerPhase::Unstarted => {},
            _ => {
                return Err(GoatError::InvalidAction);
            },
        }
        if player.idx() >= self.players.len() {
            return Err(GoatError::InvalidAction);
        }
        self.players.swap_remove(player.idx());
        self.events.push(Event::Leave { player });
        Ok(())
    }

    /// Begins the war with `num_decks` decks.
    pub fn start(&mut self, num_decks: u8) -> (r: Result<(), GoatError>)
        requires
            old(self).wf(),
        ensures
            final(self).wf(),
            old(self).started(num_decks, r, *final(self)),
            old(self).extended(*final(self)),
            r is Err ==> *final(self) == *old(self),
    {
        match self.phase {
            ServerPhase::Unstarted => {},
            _ => {
                return Err(GoatError::InvalidAction);
            },
        }
        if self.players.len() < 3 || self.players.len() > 15 {
            return Err(GoatError::InvalidNumberOfPlayers);
        }
        if num_decks < 1 || num_decks > 3 {
            return Err(GoatError::InvalidNumberOfDecks);
        }
        proof {
            lemma_named_sets();
            assert forall|c: Card| (num_decks as usize) * #[trigger] Cards::spec_one_deck().count(c) <= 3 by {}
        }
        let all: Cards = Cards::one_deck() * (num_decks as usize);
        let mut deck: Vec<Card> = all.cards().collect_ascending();
        let ghost listing = deck@;
        shuffle_deck(&mut deck, self.seed);
        proof {
            broadcast use vstd::seq_lib::group_to_multiset_ensures;
            assert(listing.len() >= 1) by {
                assert(all.count(Card::TwoClubs) == num_decks * 1);
                assert(listing.reverse().to_multiset().count(Card::TwoClubs) > 0);
                listing.reverse().to_multiset_ensures();
            }
            deck@.to_multiset_ensures();
            listing.to_multiset_ensures();
            assert(deck@.len() == listing.len());
            crate::cards::lemma_one_deck_len();
            assert(listing.reverse().len() == all.spec_len());
            assert(listing.len() == 52 * num_decks) by (nonlinear_arith)
                requires
                    listing.len() == (num_decks as usize) * 52,
            ;
        }
        self.begin_war(deck, num_decks);
        assert(old(self).begun(deck_order(listing, old(self).seed), num_decks, *self));
        Ok(())
    }

    /// Begins the war with the deck `deck`, which holds a card at least.
    pub fn begin_war(&mut self, deck: Vec<Card>, num_decks: u8)
        requires
            old(self).wf(),
            2 <= old(self).players@.len() <= 16,
            deck@.len() >= 1,
        ensures
            final(self).wf(),
            old(self).begun(deck@, num_decks, *final(self)),
            old(self).extended(*final(self)),
    {
        let n: usize = self.players.len();
        let mut hands: Vec<ServerWarHand> = Vec::new();
        let mut won: Vec<Cards> = Vec::new();
        let mut i: usize = 0;
        while i < n
            invariant
                i <= n,
                hands@.len() == i,
                won@.len() == i,
                forall|k: int| 0 <= k < i ==> #[trigger] hands@[k] == ServerWarHand::empty_hand(),
                forall|k: int| 0 <= k < i ==> #[trigger] won@[k] == Cards::spec_none(),
            decreases n - i,
        {
            hands.push(ServerWarHand::new());
            won.push(Cards::none());
            i = i + 1;
        }
        proof {
            lemma_init(PlayerIdx(0), n as nat);
        }
        self.phase = ServerPhase::War(WarPhase { deck, hands, won, trick: WarTrick::new(PlayerIdx(0), n), prev_trick: () });
        let ghost before = self.events@;
        self.events.push(Event::Start { num_decks });
        assert(self.events@ =~= before + seq![Event::Start { num_decks }]);
    }

    /// The player `user_id` plays `card` from the hand.
    pub fn play_card(&mut self, user_id: UserId, card: Card) -> (r: Result<(), GoatError>)
        requires
            old(self).wf(),
        ensures
            final(self).wf(),
            old(self).played_card(user_id, card, r, *final(self)),
            old(self).extended(*final(self)),
            r is Err ==> *final(self) == *old(self),
    {
        let player: PlayerIdx = match self.player(user_id) {
            Ok(p) => p,
            Err(e) => {
                return Err(e);
            },
        };
        let ghost before = self.events@;
        match &mut self.phase {
            ServerPhase::War(war) => {
                match war.trick.check_can_play(player, &war.hands[player.idx()], card) {
                    Err(e) => {
                        return Err(e);
                    },
                    Ok(_) => {},
                }
                war.play_from_hand(player, card);
                self.events.push(Event::PlayCard { card });
                assert(self.events@ =~= before + seq![Event::PlayCard { card }]);
                Ok(())
            },
            _ => Err(GoatError::InvalidAction),
        }
    }

    /// The player `user_id` plays the top card of the deck.
    pub fn play_top(&mut self, user_id: UserId) -> (r: Result<(), GoatError>)
        requires
            old(self).wf(),
        ensures
            final(self).wf(),
            old(self).played_top(user_id, r, *final(self)),
            old(self).extended(*final(self)),
            r is Err ==> *final(self) == *old(self),
    {
        let player: PlayerIdx = match self.player(user_id) {
            Ok(p) => p,
            Err(e) => {
                return Err(e);
            },
        };
        let ghost before = self.events@;
        match &mut self.phase {
            ServerPhase::War(war) => {
                if war.deck.len() <= 1 {
                    return Err(GoatError::CannotPlayFromEmptyDeck);
                }
                match war.trick.check_can_play_top(player, &war.hands[player.idx()]) {
                    Err(e) => {
                        return Err(e);
                    },
                    Ok(_) => {},
                }
                let card: Card = war.deck.pop().unwrap();
                war.play_from_top(card);
                self.events.push(Event::PlayTop { card });
                assert(self.events@ =~= before + seq![Event::PlayTop { card }]);
                Ok(())
            },
            _ => Err(GoatError::InvalidAction),
        }
    }

    /// The player `user_id` discards `card` into the trick.
    pub fn slough(&mut self, user_id: UserId, card: Card) -> (r: Result<(), GoatError>)
        requires
            old(self).wf(),
        ensures
            final(self).wf(),
            old(self).sloughed(user_id, card, r, *final(self)),
            old(self).extended(*final(self)),
            r is Err ==> *final(self) == *old(self),
    {
        let player: PlayerIdx = match self.player(user_id) {
            Ok(p) => p,
            Err(e) => {
                return Err(e);
            },
        };
        let ghost before = self.events@;
        match &mut self.phase {
            ServerPhase::War(war) => {
                match war.trick.check_can_slough(player, &war.hands[player.idx()], card) {
                    Err(e) => {
                        return Err(e);
                    },
                    Ok(_) => {},
                }
                war.slough(player, card);
                self.events.push(Event::Slough { player, card });
                assert(self.events@ =~= before + seq![Event::Slough { player, card }]);
                Ok(())
            },
            _ => Err(GoatError::InvalidAction),
        }
    }

    /// The player `user_id` draws a card.
    pub fn draw(&mut self, user_id: UserId) -> (r: Result<(), GoatError>)
        requires
            old(self).wf(),
        ensures
            final(self).wf(),
            old(self).drew(user_id, r, *final(self)),
            old(self).extended(*final(self)),
            r is Err ==> *final(self) == *old(self),
    {
        let player: PlayerIdx = match self.player(user_id) {
            Ok(p) => p,
            Err(e) => {
                return Err(e);
            },
        };
        let ghost before = self.events@;
        match &mut self.phase {
            ServerPhase::War(war) => {
                if war.hands[player.idx()].len() >= 3 {
                    return Err(GoatError::CannotDrawMoreThanThreeCards);
                }
                if war.deck.len() <= 1 {
                    return Err(GoatError::CannotDrawFromEmptyDeck);
                }
                let ghost old_hands = war.hands@;
                let card: Card = war.deck.pop().unwrap();
                let mut hand: ServerWarHand = war.hands[player.idx()];
                hand.add_card(card);
                war.hands.set(player.idx(), hand);
                assert(war.hands@ =~= old_hands.update(player.0 as int, old_hands[player.0 as int].with_card(card)));
                self.events.push(Event::Draw { player, card });
                assert(self.events@ =~= before + seq![Event::Draw { player, card }]);
                Ok(())
            },
            _ => Err(GoatError::InvalidAction),
        }
    }

    /// The player `user_id` acknowledges the end of the trick.
    pub fn finish_trick(&mut self, user_id: UserId) -> (r: Result<(), GoatError>)
        requires
            old(self).wf(),
        ensures
            final(self).wf(),
            old(self).finished_trick(user_id, r, *final(self)),
            old(self).extended(*final(self)),
            r is Err ==> *final(self) == *old(self),
    {
        let player: PlayerIdx = match self.player(user_id) {
            Ok(p) => p,
            Err(e) => {
                return Err(e);
            },
        };
        let ghost before = self.events@;
        let mut war: ServerWar = match &self.phase {
            ServerPhase::War(war) => WarPhase {
                deck: war.deck.clone(),
                hands: war.hands.clone(),
                won: war.won.clone(),
                trick: war.trick.clone(),
                prev_trick: (),
            },
            _ => {
                return Err(GoatError::InvalidAction);
            },
        };
        let ghost w = old(self).phase->War_0;
        proof {
            assert(war.deck@ =~= w.deck@);
            assert(war.hands@ =~= w.hands@);
            assert(war.won@ =~= w.won@);
        }
        let complete: bool = match war.finish_trick(player) {
            Ok(c) => c,
            Err(e) => {
                return Err(e);
            },
        };
        if complete && war.is_finished() {
            let trump: Card = war.deck[0];
            let mut events: Vec<Event> = Vec::new();
            proof {
                assert(Self::acknowledged(w, player, war));
            }
            let mut rummy: ServerRummy = match war.switch_to_rummy::<()>(trump) {
                Ok(rummy) => rummy,
                Err(e) => {
                    let r: Result<(), GoatError> = Err(e);
                    assert(old(self).war_ended(war, player, r, *self));
                    return r;
                },
            };
            let ghost rm = rummy;
            let ghost none_yet = events@;
            let ghost middle = before + seq![Event::FinishTrick { player }, Event::RevealTrump { trump }];
            proof {
                assert(Self::follows(war, rm));
                assert(none_yet =~= Seq::<Event>::empty());
            }
            let dealt: Result<(), GoatError> = rummy.distribute_dreck(&mut events, self.seed);
            if let Err(e) = dealt {
                let r: Result<(), GoatError> = Err(e);
                proof {
                    if takers(rm.hands@).len() > 0 && pot_fits(rm.hands@, dreck_set(rm.trump)) {
                        let listing = choose|listing: Seq<Card>| #[trigger] rm.dreck_done(rummy, none_yet, events@, dealt is Ok, self.seed, listing);
                        assert(rm.dreck_done(rm, middle, middle, r is Ok, self.seed, listing));
                        assert(rm.dreck_done(
                            Self::rummy_then(rm, r, *self),
                            middle,
                            Self::events_then(middle, r, *self),
                            r is Ok,
                            self.seed,
                            listing,
                        ));
                    }
                    assert(old(self).dreck_dealt(rm, middle, r, *self));
                    assert(old(self).war_ended(war, player, r, *self));
                }
                return r;
            }
            self.events.push(Event::FinishTrick { player });
            self.events.push(Event::RevealTrump { trump });
            assert(self.events@ =~= middle);
            let mut k: usize = 0;
            while k < events.len()
                invariant
                    k <= events@.len(),
                    self.events@ == middle + events@.subrange(0, k as int),
                    self.players == old(self).players,
                    self.seed == old(self).seed,
                    self.phase == old(self).phase,
                decreases events.len() - k,
            {
                self.events.push(events[k]);
                k = k + 1;
                assert(self.events@ =~= middle + events@.subrange(0, k as int));
            }
            assert(events@.subrange(0, events@.len() as int) =~= events@);
            self.phase = ServerPhase::Rummy(rummy);
            let r: Result<(), GoatError> = Ok(());
            proof {
                if takers(rm.hands@).len() > 0 {
                    assert(pot_fits(rm.hands@, dreck_set(rm.trump)));
                    let listing = choose|listing: Seq<Card>| #[trigger] rm.dreck_done(rummy, none_yet, events@, dealt is Ok, self.seed, listing);
                    let order = dreck_order_of(rm, listing, self.seed);
                    assert(middle + (Seq::<Event>::empty() + rm.dreck_events(order.0, order.1)) =~= middle + rm.dreck_events(order.0, order.1));
                    assert(rm.dreck_done(rummy, middle, self.events@, r is Ok, self.seed, listing));
                    assert(rm.dreck_done(
                        Self::rummy_then(rm, r, *self),
                        middle,
                        Self::events_then(middle, r, *self),
                        r is Ok,
                        self.seed,
                        listing,
                    ));
                } else {
                    assert(self.events@ =~= middle);
                }
                assert(old(self).dreck_dealt(rm, middle, r, *self));
                assert(old(self).war_ended(war, player, r, *self));
            }
            r
        } else {
            self.phase = ServerPhase::War(war);
            self.events.push(Event::FinishTrick { player });
            assert(self.events@ =~= before + seq![Event::FinishTrick { player }]);
            assert(Self::acknowledged(w, player, self.phase->War_0));
            Ok(())
        }
    }

    /// The player `user_id` plays the run from `lo` to `hi`.
    pub fn play_run(&mut self, user_id: UserId, lo: Card, hi: Card) -> (r: Result<(), GoatError>)
        requires
            old(self).wf(),
        ensures
            final(self).wf(),
            old(self).played_run(user_id, lo, hi, r, *final(self)),
            old(self).extended(*final(self)),
            r is Err ==> *final(self) == *old(self),
    {
        let player: PlayerIdx = match self.player(user_id) {
            Ok(p) => p,
            Err(e) => {
                return Err(e);
            },
        };
        let ghost before = self.events@;
        let goat: Option<PlayerIdx> = match &mut self.phase {
            ServerPhase::Rummy(rummy) => {
                match rummy.play_run(player, lo, hi) {
                    Err(e) => {
                        return Err(e);
                    },
                    Ok(_) => {},
                }
                if rummy.is_finished() {
                    Some(rummy.next)
                } else {
                    None
                }
            },
            _ => {
                return Err(GoatError::InvalidAction);
            },
        };
        self.events.push(Event::PlayRun { lo, hi });
        assert(self.events@ =~= before + seq![Event::PlayRun { lo, hi }]);
        if let Some(goat) = goat {
            self.phase = ServerPhase::Goat(GoatPhase::new(goat));
        }
        Ok(())
    }

    /// The player `user_id` picks up.
    pub fn pick_up(&mut self, user_id: UserId) -> (r: Result<(), GoatError>)
        requires
            old(self).wf(),
        ensures
            final(self).wf(),
            old(self).picked_up(user_id, r, *final(self)),
            old(self).extended(*final(self)),
            r is Err ==> *final(self) == *old(self),
    {
        let player: PlayerIdx = match self.player(user_id) {
            Ok(p) => p,
            Err(e) => {
                return Err(e);
            },
        };
        let ghost before = self.events@;
        let complete: bool = match &mut self.phase {
            ServerPhase::Rummy(rummy) => {
                match rummy.pick_up(player) {
                    Err(e) => {
                        return Err(e);
                    },
                    Ok(c) => c,
                }
            },
            _ => {
                return Err(GoatError::InvalidAction);
            },
        };
        self.events.push(Event::PickUp);
        assert(self.events@ =~= before + seq![Event::PickUp]);
        if complete {
            self.phase = ServerPhase::Goat(GoatPhase::new(player));
        }
        Ok(())
    }

    /// The player `user_id`, the goat, makes the noise `noise`.
    pub fn goat_noise(&mut self, user_id: UserId, noise: usize) -> (r: Result<(), GoatError>)
        requires
            old(self).wf(),
        ensures
            final(self).wf(),
            old(self).made_noise(user_id, noise, r, *final(self)),
            old(self).extended(*final(self)),
            r is Err ==> *final(self) == *old(self),
    {
        let player: PlayerIdx = match self.player(user_id) {
            Ok(p) => p,
            Err(e) => {
                return Err(e);
            },
        };
        let ghost before = self.events@;
        match self.phase {
            ServerPhase::Goat(goat) => {
                if player != goat.goat {
                    return Err(GoatError::NoFreeShows);
                }
                self.phase = ServerPhase::Goat(GoatPhase { goat: goat.goat, noise: Some(noise) });
                self.events.push(Event::Goat { noise });
                assert(self.events@ =~= before + seq![Event::Goat { noise }]);
                Ok(())
            },
            _ => Err(GoatError::InvalidAction),
        }
    }
}

/// The seats and the dreck as they come back from the shuffle for the rummy
/// phase `rm` and a listing of its dreck.
pub open spec fn dreck_order_of(rm: ServerRummy, listing: Seq<Card>, seed: u64) -> (Seq<PlayerIdx>, Seq<Card>) {
    crate::lists::dreck_order(takers(rm.hands@), listing, seed ^ 1)
}

/// One goat: a run ends the rummy if and only if it leaves cards in one hand
/// and no other, and the seat of that hand is then the goat.
pub proof fn lemma_single_winner(server: ServerGame, user: UserId, lo: Card, hi: Card, after: ServerGame)
    requires
        server.wf(),
        server.applied(user, Action::PlayRun { lo, hi }, Ok(()), after),
    ensures
        server.phase is Rummy,
        ({
            let hands = server.phase->Rummy_0.hands_after_play(lo, hi);
            &&& after.phase is Goat <==> exists|i: int|
                0 <= i < hands.len() && (#[trigger] hands[i]).spec_len() > 0 && forall|j: int|
                    0 <= j < hands.len() && j != i ==> (#[trigger] hands[j]).spec_len() == 0
            &&& after.phase matches ServerPhase::Goat(g) ==> {
                &&& g.goat.0 < hands.len()
                &&& hands[g.goat.0 as int].spec_len() > 0
                &&& forall|j: int| 0 <= j < hands.len() && j != g.goat.0 ==> (#[trigger] hands[j]).spec_len() == 0
            }
        }),
{
    let (p, rm) = server.at_rummy(user)->Ok_0;
    let hands = rm.hands_after_play(lo, hi);
    crate::rummy_phase::lemma_single_holder(hands);
    if count_holding(hands) == 1 {
        rm.lemma_last_holder(lo, hi);
    }
}

} // verus!
