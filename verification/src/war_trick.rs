//! A trick of the war phase. It is played in rounds: in each round the players
//! still contending play one card each, and those who played the highest rank
//! go on to the next round, until one of them is left.
use vstd::prelude::*;
use crate::card::Card;
use crate::error::GoatError;
use crate::id::PlayerIdx;
use crate::lists::{
    seats, seats_clear, seats_clone, seats_new, seats_push, seats_slice, war_plays, war_plays_clone, war_plays_new,
    war_plays_push, war_plays_slice, PlayList, SeatList,
};
use crate::rank::Rank;
use crate::war_hand::{ServerWarHand, WarHand};
use crate::war_trick_play::{WarPlay, WarPlayKind};

verus! {

/// A trick of the war phase.
#[derive(Debug)]
pub struct WarTrick {
    /// The index in `players` of the player who plays next.
    next: u8,
    /// The highest rank played in this round.
    rank: Rank,
    /// Those who contend in this round, in the order in which they play.
    players: SeatList,
    /// Those who have played the highest rank of this round.
    winners: SeatList,
    /// All cards put into the trick, with who put them there and how.
    plays: PlayList,
    /// A bit for each seat that has not acknowledged the end of the trick.
    end_mask: u16,
}

/// What a trick holds.
pub struct WarTrickView {
    pub next: nat,
    pub rank: Rank,
    pub players: Seq<PlayerIdx>,
    pub winners: Seq<PlayerIdx>,
    pub plays: Seq<WarPlay>,
    pub end_mask: u16,
}

/// Whether some card of `hand` has `rank`.
pub open spec fn has_rank(hand: Seq<Card>, rank: Rank) -> bool {
    exists|i: int| 0 <= i < hand.len() && hand[i].spec_rank() == rank
}

/// Whether some play of `plays` has a card of `rank`.
pub open spec fn played_rank(plays: Seq<WarPlay>, rank: Rank) -> bool {
    exists|i: int| 0 <= i < plays.len() && plays[i].card.spec_rank() == rank
}

/// The bit of a seat in the mask of those who have not acknowledged.
pub open spec fn seat_bit(player: PlayerIdx) -> u16 {
    1u16 << player.0
}

/// The mask with a bit for each of `n` seats.
pub open spec fn full_mask(n: nat) -> u16 {
    if n >= 16 {
        0xffff
    } else {
        ((1u32 << (n as u32)) - 1) as u16
    }
}

impl WarTrickView {
    /// What every trick keeps: somebody contends, the next to play is one of
    /// them, and winners are known once the round has begun.
    pub open spec fn wf(self) -> bool {
        &&& 1 <= self.players.len() <= 16
        &&& self.next < self.players.len()
        &&& self.winners.len() <= self.next
        &&& (self.next == 0 ==> self.rank == Rank::Two)
        &&& (self.next > 0 ==> self.winners.len() >= 1)
        &&& forall|i: int| 0 <= i < self.players.len() ==> (#[trigger] self.players[i]).0 < 16
        &&& forall|i: int| 0 <= i < self.winners.len() ==> (#[trigger] self.winners[i]).0 < 16
    }

    /// Whether the trick is one of a game of `n` seats: every player that it
    /// names has one of them.
    pub open spec fn seated(self, n: nat) -> bool {
        &&& self.players.len() <= n
        &&& forall|i: int| 0 <= i < self.players.len() ==> (#[trigger] self.players[i]).0 < n
        &&& forall|i: int| 0 <= i < self.winners.len() ==> (#[trigger] self.winners[i]).0 < n
        &&& forall|i: int| 0 <= i < self.plays.len() ==> (#[trigger] self.plays[i]).player.0 < n
    }

    /// A new trick of `n` seats, which `leader` opens: the seats play in
    /// ascending order from the leader on, and round again from seat 0.
    pub open spec fn init(leader: PlayerIdx, n: nat) -> WarTrickView {
        WarTrickView {
            next: 0,
            rank: Rank::Two,
            players: Seq::new(
                n,
                |i: int|
                    if leader.0 + i < n {
                        PlayerIdx((leader.0 + i) as u8)
                    } else {
                        PlayerIdx((leader.0 + i - n) as u8)
                    },
            ),
            winners: Seq::empty(),
            plays: Seq::empty(),
            end_mask: full_mask(n),
        }
    }

    /// The player who plays next. Nobody does once the trick has a winner.
    pub open spec fn next_player(self) -> Option<PlayerIdx> {
        if self.players.len() == 1 {
            None
        } else {
            Some(self.players[self.next as int])
        }
    }

    /// The rank that leads the round, once somebody has played in it.
    pub open spec fn rank(self) -> Option<Rank> {
        if self.next != 0 {
            Some(self.rank)
        } else {
            None
        }
    }

    /// The winner of the trick: the one player left contending.
    pub open spec fn winner(self) -> Option<PlayerIdx> {
        if self.players.len() == 1 {
            Some(self.players[0])
        } else {
            None
        }
    }

    /// Those who still have to play in this round.
    pub open spec fn remaining(self) -> Seq<PlayerIdx> {
        self.players.subrange(self.next as int, self.players.len() as int)
    }

    /// The trick after the player whose turn it is has played `card`. A card
    /// above the leading rank makes its player the only winner so far, one of
    /// the leading rank one more winner. After the last play of a round its
    /// winners contend in the next.
    pub open spec fn play(self, kind: WarPlayKind, card: Card) -> WarTrickView {
        let player = self.players[self.next as int];
        let higher = card.spec_rank().spec_idx() > self.rank.spec_idx();
        let equal = card.spec_rank() == self.rank;
        let winners = if higher {
            seq![player]
        } else if equal {
            self.winners.push(player)
        } else {
            self.winners
        };
        let rank = if higher {
            card.spec_rank()
        } else {
            self.rank
        };
        let plays = self.plays.push(WarPlay { player, kind, card });
        if self.next + 1 == self.players.len() {
            WarTrickView { next: 0, rank: Rank::Two, players: winners, winners: Seq::empty(), plays, end_mask: self.end_mask }
        } else {
            WarTrickView { next: self.next + 1, rank, players: self.players, winners, plays, end_mask: self.end_mask }
        }
    }

    /// The trick after `player` has discarded `card` into it.
    pub open spec fn slough(self, player: PlayerIdx, card: Card) -> WarTrickView {
        WarTrickView { plays: self.plays.push(WarPlay { player, kind: WarPlayKind::Slough, card }), ..self }
    }

    /// Whether `player` has acknowledged the end of the trick.
    pub open spec fn ended(self, player: PlayerIdx) -> bool {
        self.end_mask & seat_bit(player) == 0
    }

    /// The trick after `player` has acknowledged its end.
    pub open spec fn end(self, player: PlayerIdx) -> WarTrickView {
        WarTrickView { end_mask: self.end_mask & !seat_bit(player), ..self }
    }

    /// Whether `player` may play `card` from `hand`: it is their turn, the hand
    /// holds the card, and the card has the leading rank if the hand has a card
    /// of that rank.
    pub open spec fn can_play(self, player: PlayerIdx, hand: Seq<Card>, card: Card) -> Result<(), GoatError> {
        if self.next_player() != Some(player) {
            Err(GoatError::NotYourTurn { player })
        } else if !hand.contains(card) {
            Err(GoatError::NotYourCard { card })
        } else if self.rank().is_some() && card.spec_rank() != self.rank && has_rank(hand, self.rank) {
            Err(GoatError::MustMatchRank { rank: self.rank })
        } else {
            Ok(())
        }
    }

    /// Whether `player` may play the top of the deck: it is their turn, and
    /// their hand has no card of the leading rank.
    pub open spec fn can_play_top(self, player: PlayerIdx, hand: Seq<Card>) -> Result<(), GoatError> {
        if self.next_player() != Some(player) {
            Err(GoatError::NotYourTurn { player })
        } else if self.rank().is_some() && has_rank(hand, self.rank) {
            Err(GoatError::MustMatchRank { rank: self.rank })
        } else {
            Ok(())
        }
    }

    /// Whether `player` may discard `card` from `hand` into the trick: the hand
    /// holds the card and the player has not acknowledged the end. A card of
    /// the leading rank may be discarded by those who have played in this
    /// round; a card of another rank where that rank lies in the trick.
    pub open spec fn can_slough(self, player: PlayerIdx, hand: Seq<Card>, card: Card) -> Result<(), GoatError> {
        if !hand.contains(card) {
            Err(GoatError::NotYourCard { card })
        } else if self.ended(player) {
            Err(GoatError::CannotSloughOnEndedTrick)
        } else if self.rank() == Some(card.spec_rank()) {
            if self.remaining().contains(player) {
                Err(GoatError::IllegalSlough { card })
            } else {
                Ok(())
            }
        } else if !played_rank(self.plays, card.spec_rank()) {
            Err(GoatError::IllegalSlough { card })
        } else {
            Ok(())
        }
    }
}

impl View for WarTrick {
    type V = WarTrickView;

    closed spec fn view(&self) -> WarTrickView {
        WarTrickView {
            next: self.next as nat,
            rank: self.rank,
            players: seats(self.players),
            winners: seats(self.winners),
            plays: war_plays(self.plays),
            end_mask: self.end_mask,
        }
    }
}

/// The mask of `n` seats can be computed, and a trick that keeps its promise
/// after a play keeps it.
proof fn lemma_full_mask(n: u32)
    by (bit_vector)
    requires
        n < 16,
    ensures
        1 <= (1u32 << n) <= 0x8000,
{
}

/// Playing keeps a trick well-formed.
pub proof fn lemma_play_wf(t: WarTrickView, kind: WarPlayKind, card: Card)
    requires
        t.wf(),
    ensures
        t.play(kind, card).wf(),
        t.play(kind, card).plays.len() == t.plays.len() + 1,
{
    let player = t.players[t.next as int];
    assert(player.0 < 16);
    if t.next == 0 {
        assert(card.spec_rank().spec_idx() > t.rank.spec_idx() || card.spec_rank() == t.rank);
    }
}

/// Playing, discarding and acknowledging keep a trick within its seats, and a
/// new trick is within them.
pub proof fn lemma_seated(t: WarTrickView, n: nat, kind: WarPlayKind, card: Card, player: PlayerIdx)
    requires
        t.wf(),
        t.seated(n),
    ensures
        t.play(kind, card).seated(n),
        player.0 < n ==> t.slough(player, card).seated(n),
        t.slough(player, card).wf(),
        t.end(player).seated(n),
        t.end(player).wf(),
{
    let who = t.players[t.next as int];
    assert(who.0 < n);
    let after = t.play(kind, card);
    assert forall|i: int| 0 <= i < after.plays.len() implies (#[trigger] after.plays[i]).player.0 < n by {
        if i < t.plays.len() {
            assert(after.plays[i] == t.plays[i]);
        }
    }
    let s = t.slough(player, card);
    if player.0 < n {
        assert forall|i: int| 0 <= i < s.plays.len() implies (#[trigger] s.plays[i]).player.0 < n by {
            if i < t.plays.len() {
                assert(s.plays[i] == t.plays[i]);
            }
        }
    }
}

/// A new trick is well-formed and within its seats.
pub proof fn lemma_init(leader: PlayerIdx, n: nat)
    requires
        leader.0 < n <= 16,
    ensures
        WarTrickView::init(leader, n).wf(),
        WarTrickView::init(leader, n).seated(n),
        n >= 2 ==> WarTrickView::init(leader, n).next_player().is_some(),
{
}

impl Clone for WarTrick {
    fn clone(&self) -> (r: WarTrick)
        ensures
            r@ == self@,
    {
        WarTrick {
            next: self.next,
            rank: self.rank,
            players: seats_clone(&self.players),
            winners: seats_clone(&self.winners),
            plays: war_plays_clone(&self.plays),
            end_mask: self.end_mask,
        }
    }
}

impl WarTrick {
    /// Whether the trick keeps what every trick keeps.
    pub open spec fn wf(&self) -> bool {
        self@.wf()
    }

    /// A new trick of `num_players` seats, which `leader` opens.
    pub fn new(leader: PlayerIdx, num_players: usize) -> (t: WarTrick)
        requires
            leader.0 < num_players <= 16,
        ensures
            t@ == WarTrickView::init(leader, num_players as nat),
            t.wf(),
    {
        let mut players: SeatList = seats_new();
        let mut i: usize = leader.idx();
        while i < num_players
            invariant
                leader.0 <= i <= num_players <= 16,
                seats(players).len() == i - leader.0,
                forall|k: int| 0 <= k < i - leader.0 ==> #[trigger] seats(players)[k] == PlayerIdx((leader.0 + k) as u8),
            decreases num_players - i,
        {
            seats_push(&mut players, PlayerIdx(i as u8));
            i = i + 1;
        }
        let mut j: usize = 0;
        while j < leader.idx()
            invariant
                j <= leader.0 < num_players <= 16,
                seats(players).len() == num_players - leader.0 + j,
                forall|k: int| 0 <= k < num_players - leader.0 ==> #[trigger] seats(players)[k] == PlayerIdx((leader.0 + k) as u8),
                forall|k: int| num_players - leader.0 <= k < num_players - leader.0 + j ==> #[trigger] seats(players)[k]
                    == PlayerIdx((k - (num_players - leader.0)) as u8),
            decreases leader.0 - j,
        {
            seats_push(&mut players, PlayerIdx(j as u8));
            j = j + 1;
        }
        let end_mask: u16 = if num_players == 16 {
            0xffff
        } else {
            proof {
                lemma_full_mask(num_players as u32);
            }
            ((1u32 << (num_players as u32)) - 1) as u16
        };
        let t = WarTrick { next: 0, rank: Rank::Two, players, winners: seats_new(), plays: war_plays_new(), end_mask };
        proof {
            let expected = WarTrickView::init(leader, num_players as nat);
            assert(t@.players =~= expected.players) by {
                assert forall|k: int| 0 <= k < num_players implies t@.players[k] == expected.players[k] by {
                }
            }
        }
        t
    }

    /// Whether the trick is well-formed and one of a game of `n` seats.
    pub fn check(&self, n: usize) -> (b: bool)
        ensures
            b == (self.wf() && self@.seated(n as nat)),
    {
        let players: &[PlayerIdx] = seats_slice(&self.players);
        let winners: &[PlayerIdx] = seats_slice(&self.winners);
        let plays: &[WarPlay] = war_plays_slice(&self.plays);
        let next: usize = self.next as usize;
        if players.len() < 1 || players.len() > 16 || players.len() > n || next >= players.len() || winners.len() > next {
            return false;
        }
        if (next == 0 && self.rank != Rank::Two) || (next > 0 && winners.len() < 1) {
            return false;
        }
        let mut i: usize = 0;
        while i < players.len()
            invariant
                i <= players@.len(),
                players@ == self@.players,
                forall|k: int| 0 <= k < i ==> (#[trigger] players@[k]).0 < 16 && players@[k].0 < n,
            decreases players.len() - i,
        {
            if players[i].0 >= 16 || players[i].idx() >= n {
                return false;
            }
            i = i + 1;
        }
        let mut j: usize = 0;
        while j < winners.len()
            invariant
                j <= winners@.len(),
                winners@ == self@.winners,
                forall|k: int| 0 <= k < j ==> (#[trigger] winners@[k]).0 < 16 && winners@[k].0 < n,
            decreases winners.len() - j,
        {
            if winners[j].0 >= 16 || winners[j].idx() >= n {
                return false;
            }
            j = j + 1;
        }
        let mut m: usize = 0;
        while m < plays.len()
            invariant
                m <= plays@.len(),
                plays@ == self@.plays,
                forall|k: int| 0 <= k < m ==> (#[trigger] plays@[k]).player.0 < n,
            decreases plays.len() - m,
        {
            if plays[m].player.idx() >= n {
                return false;
            }
            m = m + 1;
        }
        true
    }

    /// Whether no card has been put into the trick.
    pub fn is_empty(&self) -> (b: bool)
        ensures
            b == (self@.plays.len() == 0),
    {
        war_plays_slice(&self.plays).len() == 0
    }

    /// Whether `player` may play `card` from `hand`, and why not.
    pub fn check_can_play(&self, player: PlayerIdx, hand: &ServerWarHand, card: Card) -> (r: Result<(), GoatError>)
        requires
            self.wf(),
        ensures
            r == self@.can_play(player, hand@, card),
    {
        if self.next_player() != Some(player) {
            return Err(GoatError::NotYourTurn { player });
        }
        match hand.check_has_card(card) {
            Err(e) => {
                return Err(e);
            },
            Ok(_) => {},
        }
        if let Some(rank) = self.rank() {
            if card.rank() != rank && hand.has_rank(rank) {
                return Err(GoatError::MustMatchRank { rank });
            }
        }
        Ok(())
    }

    /// Whether `player` may play the top of the deck, and why not.
    pub fn check_can_play_top(&self, player: PlayerIdx, hand: &ServerWarHand) -> (r: Result<(), GoatError>)
        requires
            self.wf(),
        ensures
            r == self@.can_play_top(player, hand@),
    {
        if self.next_player() != Some(player) {
            return Err(GoatError::NotYourTurn { player });
        }
        if let Some(rank) = self.rank() {
            if hand.has_rank(rank) {
                return Err(GoatError::MustMatchRank { rank });
            }
        }
        Ok(())
    }

    /// Whether `player` may discard `card` from `hand` into the trick, and why not.
    pub fn check_can_slough(&self, player: PlayerIdx, hand: &ServerWarHand, card: Card) -> (r: Result<(), GoatError>)
        requires
            self.wf(),
            player.0 < 16,
        ensures
            r == self@.can_slough(player, hand@, card),
    {
        match hand.check_has_card(card) {
            Err(e) => {
                return Err(e);
            },
            Ok(_) => {},
        }
        if self.ended(player) {
            return Err(GoatError::CannotSloughOnEndedTrick);
        }
        if self.rank() == Some(card.rank()) {
            if self.is_remaining(player) {
                return Err(GoatError::IllegalSlough { card });
            }
        } else {
            if !self.has_played_rank(card.rank()) {
                return Err(GoatError::IllegalSlough { card });
            }
        }
        Ok(())
    }

    /// Whether `player` still has to play in this round.
    pub fn is_remaining(&self, player: PlayerIdx) -> (b: bool)
        requires
            self.wf(),
        ensures
            b == self@.remaining().contains(player),
    {
        let players: &[PlayerIdx] = seats_slice(&self.players);
        let mut i: usize = self.next as usize;
        while i < players.len()
            invariant
                self.next <= i <= players@.len(),
                players@ == self@.players,
                forall|k: int| self.next <= k < i ==> players@[k] != player,
            decreases players.len() - i,
        {
            if players[i] == player {
                assert(self@.remaining()[i - self.next] == player);
                return true;
            }
            i = i + 1;
        }
        proof {
            assert forall|k: int| 0 <= k < self@.remaining().len() implies self@.remaining()[k] != player by {
                assert(self@.remaining()[k] == players@[k + self.next]);
            }
        }
        false
    }

    /// Whether a card of `rank` lies in the trick.
    pub fn has_played_rank(&self, rank: Rank) -> (b: bool)
        ensures
            b == played_rank(self@.plays, rank),
    {
        let plays: &[WarPlay] = war_plays_slice(&self.plays);
        let mut i: usize = 0;
        while i < plays.len()
            invariant
                i <= plays@.len(),
                plays@ == self@.plays,
                forall|k: int| 0 <= k < i ==> plays@[k].card.spec_rank() != rank,
            decreases plays.len() - i,
        {
            if plays[i].card.rank() == rank {
                return true;
            }
            i = i + 1;
        }
        false
    }

    /// The player who plays next. Nobody does once the trick has a winner.
    pub fn next_player(&self) -> (r: Option<PlayerIdx>)
        requires
            self.wf(),
        ensures
            r == self@.next_player(),
    {
        let players: &[PlayerIdx] = seats_slice(&self.players);
        if players.len() == 1 {
            None
        } else {
            Some(players[self.next as usize])
        }
    }

    /// The rank that leads the round, once somebody has played in it.
    pub fn rank(&self) -> (r: Option<Rank>)
        ensures
            r == self@.rank(),
    {
        if self.next != 0 {
            Some(self.rank)
        } else {
            None
        }
    }

    /// Those who still have to play in this round, in their order.
    pub fn remaining_players(&self) -> (v: Vec<PlayerIdx>)
        requires
            self.wf(),
        ensures
            v@ == self@.remaining(),
    {
        let players: &[PlayerIdx] = seats_slice(&self.players);
        let mut v: Vec<PlayerIdx> = Vec::new();
        let mut i: usize = self.next as usize;
        while i < players.len()
            invariant
                self.next <= i <= players@.len(),
                players@ == self@.players,
                v@ == players@.subrange(self.next as int, i as int),
            decreases players.len() - i,
        {
            v.push(players[i]);
            i = i + 1;
            assert(v@ =~= players@.subrange(self.next as int, i as int));
        }
        v
    }

    /// The winner of the trick: the one player left contending.
    pub fn winner(&self) -> (r: Option<PlayerIdx>)
        requires
            self.wf(),
        ensures
            r == self@.winner(),
    {
        let players: &[PlayerIdx] = seats_slice(&self.players);
        if players.len() == 1 {
            Some(players[0])
        } else {
            None
        }
    }

    /// The player whose turn it is plays `card`.
    pub fn play(&mut self, kind: WarPlayKind, card: Card)
        requires
            old(self).wf(),
        ensures
            final(self)@ == old(self)@.play(kind, card),
            final(self).wf(),
    {
        proof {
            lemma_play_wf(self@, kind, card);
        }
        let player: PlayerIdx = seats_slice(&self.players)[self.next as usize];
        let num_players: usize = seats_slice(&self.players).len();
        let ghost before = self@;
        let mut rank: Rank = self.rank;
        if card.rank().idx() > self.rank.idx() {
            seats_clear(&mut self.winners);
            seats_push(&mut self.winners, player);
            assert(seats(self.winners) =~= seq![player]);
            rank = card.rank();
        } else if card.rank().idx() == self.rank.idx() {
            assert(card.spec_rank() == self.rank) by {
                crate::rank::lemma_rank_from_idx(card.spec_rank());
                crate::rank::lemma_rank_from_idx(self.rank);
            }
            seats_push(&mut self.winners, player);
        } else {
            assert(card.spec_rank() != self.rank);
        }
        war_plays_push(&mut self.plays, WarPlay::new(player, kind, card));
        if num_players == self.next as usize + 1 {
            core::mem::swap(&mut self.players, &mut self.winners);
            seats_clear(&mut self.winners);
            self.next = 0;
            self.rank = Rank::Two;
        } else {
            self.next = self.next + 1;
            self.rank = rank;
        }
    }

    /// `player` discards `card` into the trick.
    pub fn slough(&mut self, player: PlayerIdx, card: Card)
        ensures
            final(self)@ == old(self)@.slough(player, card),
            old(self).wf() ==> final(self).wf(),
    {
        war_plays_push(&mut self.plays, WarPlay::new(player, WarPlayKind::Slough, card));
    }

    /// The mask with a bit for each seat that has not acknowledged the end of
    /// the trick.
    pub fn end_mask(&self) -> (m: u16)
        ensures
            m == self@.end_mask,
    {
        self.end_mask
    }

    /// Whether `player` has acknowledged the end of the trick.
    pub fn ended(&self, player: PlayerIdx) -> (b: bool)
        requires
            player.0 < 16,
        ensures
            b == self@.ended(player),
    {
        self.end_mask & (1u16 << player.0) == 0
    }

    /// `player` acknowledges the end of the trick. The answer is whether all have.
    pub fn end(&mut self, player: PlayerIdx) -> (all: bool)
        requires
            player.0 < 16,
        ensures
            final(self)@ == old(self)@.end(player),
            all == (final(self)@.end_mask == 0),
            old(self).wf() ==> final(self).wf(),
    {
        self.end_mask = self.end_mask & !(1u16 << player.0);
        self.end_mask == 0
    }

    /// The cards of the trick, in the order in which they came into it.
    pub fn cards(&self) -> (v: Vec<Card>)
        ensures
            v@ == self@.plays.map_values(|p: WarPlay| p.card),
    {
        let plays: &[WarPlay] = war_plays_slice(&self.plays);
        let mut v: Vec<Card> = Vec::new();
        let mut i: usize = 0;
        while i < plays.len()
            invariant
                i <= plays@.len(),
                plays@ == self@.plays,
                v@ == plays@.subrange(0, i as int).map_values(|p: WarPlay| p.card),
            decreases plays.len() - i,
        {
            v.push(plays[i].card);
            i = i + 1;
            assert(v@ =~= plays@.subrange(0, i as int).map_values(|p: WarPlay| p.card));
        }
        assert(plays@.subrange(0, i as int) =~= plays@);
        v
    }

    /// The plays of the trick, in the order in which they were made.
    pub fn plays(&self) -> (s: &[WarPlay])
        ensures
            s@ == self@.plays,
    {
        war_plays_slice(&self.plays)
    }
}

} // verus!
