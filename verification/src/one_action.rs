//! A record of the rummy phase that keeps the last action of each player.
use vstd::prelude::*;
use crate::card::Card;
use crate::id::PlayerIdx;
use crate::rummy_history::RummyHistory;

verus! {

/// The last thing that a player did in the rummy phase.
#[derive(Clone, Copy, PartialEq, Eq, Structural, Debug)]
pub enum LastAction {
    /// Led a trick with a run.
    Lead { lo: Card, hi: Card },
    /// Played a run on a trick.
    Play { lo: Card, hi: Card },
    /// Filled a trick with a run.
    Kill { lo: Card, hi: Card },
    /// Filled a trick with one run and led the next with another.
    KillAndLead { kill_lo: Card, kill_hi: Card, lead_lo: Card, lead_hi: Card },
    /// Picked up a run.
    PickUp { lo: Card, hi: Card },
    /// Nothing yet.
    Nothing,
}

/// The last action of each player.
#[derive(Debug)]
pub struct OneAction {
    history: Vec<LastAction>,
}

/// What a lead makes of the last action of its player: a player who has just
/// filled a trick has then filled one and led the next.
pub open spec fn after_lead(last: LastAction, lo: Card, hi: Card) -> LastAction {
    match last {
        LastAction::Kill { lo: kill_lo, hi: kill_hi } => LastAction::KillAndLead { kill_lo, kill_hi, lead_lo: lo, lead_hi: hi },
        _ => LastAction::Lead { lo, hi },
    }
}

impl View for OneAction {
    type V = Seq<LastAction>;

    closed spec fn view(&self) -> Seq<LastAction> {
        self.history@
    }
}

/// What the record holds after an action of `player`. A player without a seat
/// leaves the record as it is.
pub open spec fn recorded(before: Seq<LastAction>, player: PlayerIdx, action: LastAction) -> Seq<LastAction> {
    if player.0 < before.len() {
        before.update(player.0 as int, action)
    } else {
        before
    }
}

/// The last action of `player`, or none where the player has no seat.
pub open spec fn last_of(record: Seq<LastAction>, player: PlayerIdx) -> LastAction {
    if player.0 < record.len() {
        record[player.0 as int]
    } else {
        LastAction::Nothing
    }
}

impl OneAction {
    /// The last action of `player`.
    pub fn last_action(&self, player: PlayerIdx) -> (r: LastAction)
        requires
            player.0 < self@.len(),
        ensures
            r == self@[player.0 as int],
    {
        self.history[player.idx()]
    }

    /// The number of players of the record.
    pub fn len(&self) -> (n: usize)
        ensures
            n == self@.len(),
    {
        self.history.len()
    }

    /// The last action of `player`, or none where the player has no seat.
    pub fn get(&self, player: PlayerIdx) -> (r: LastAction)
        ensures
            r == last_of(self@, player),
    {
        if player.idx() < self.history.len() {
            self.history[player.idx()]
        } else {
            LastAction::Nothing
        }
    }

    /// Sets the last action of `player`.
    fn put(&mut self, player: PlayerIdx, action: LastAction)
        ensures
            final(self)@ == recorded(old(self)@, player, action),
    {
        if player.idx() < self.history.len() {
            self.history.set(player.idx(), action);
        }
    }
}

impl RummyHistory for OneAction {
    open spec fn led(&self, after: OneAction, player: PlayerIdx, lo: Card, hi: Card) -> bool {
        after@ == recorded(self@, player, after_lead(last_of(self@, player), lo, hi))
    }

    open spec fn played(&self, after: OneAction, player: PlayerIdx, lo: Card, hi: Card) -> bool {
        after@ == recorded(self@, player, LastAction::Play { lo, hi })
    }

    open spec fn killed(&self, after: OneAction, player: PlayerIdx, lo: Card, hi: Card) -> bool {
        after@ == recorded(self@, player, LastAction::Kill { lo, hi })
    }

    open spec fn picked_up(&self, after: OneAction, player: PlayerIdx, lo: Card, hi: Card) -> bool {
        after@ == recorded(self@, player, LastAction::PickUp { lo, hi })
    }

    /// A record of `num_players` players, none of whom has done anything yet.
    fn new(num_players: usize) -> (r: OneAction)
        ensures
            r@ == Seq::new(num_players as nat, |i: int| LastAction::Nothing),
    {
        let mut history: Vec<LastAction> = Vec::new();
        let mut i: usize = 0;
        while i < num_players
            invariant
                i <= num_players,
                history@ == Seq::new(i as nat, |k: int| LastAction::Nothing),
            decreases num_players - i,
        {
            history.push(LastAction::Nothing);
            i = i + 1;
            assert(history@ =~= Seq::new(i as nat, |k: int| LastAction::Nothing));
        }
        OneAction { history }
    }

    fn lead(&mut self, player: PlayerIdx, lo: Card, hi: Card) {
        let action: LastAction = match self.get(player) {
            LastAction::Kill { lo: kill_lo, hi: kill_hi } => LastAction::KillAndLead { kill_lo, kill_hi, lead_lo: lo, lead_hi: hi },
            _ => LastAction::Lead { lo, hi },
        };
        self.put(player, action);
    }

    fn play(&mut self, player: PlayerIdx, lo: Card, hi: Card) {
        self.put(player, LastAction::Play { lo, hi });
    }

    fn kill(&mut self, player: PlayerIdx, lo: Card, hi: Card) {
        self.put(player, LastAction::Kill { lo, hi });
    }

    fn pick_up(&mut self, player: PlayerIdx, lo: Card, hi: Card) {
        self.put(player, LastAction::PickUp { lo, hi });
    }
}

} // verus!
