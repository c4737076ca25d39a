//! A client: the games and the users that the server has told it of.
use vstd::prelude::*;
use crate::client_game::ClientGame;
use crate::error::GoatError;
use crate::event::Event;
use crate::id::GameId;
use crate::prev_trick::PreviousTrick;
use crate::response::Response;
use crate::rummy_history::RummyHistory;
use crate::user_db::UserDb;

verus! {

/// What a client holds.
pub struct Client<Users, T, Hist> {
    /// The games, each under its identifier, in the order in which the client
    /// was told of them. No identifier occurs twice.
    pub games: Vec<(GameId, ClientGame<T, Hist>)>,
    /// What is known of the users.
    pub users: Users,
}

/// Whether `states` are the states through which a game goes when `events`
/// are applied one by one to a game without players, `end` being the last.
pub open spec fn is_replay<T: PreviousTrick, Hist: RummyHistory>(
    states: Seq<ClientGame<T, Hist>>,
    events: Seq<Event>,
    end: ClientGame<T, Hist>,
) -> bool {
    &&& states.len() == events.len() + 1
    &&& states[0].phase is Unstarted
    &&& states[0].players@.len() == 0
    &&& forall|i: int|
        0 <= i < events.len() ==> (#[trigger] states[i]).apply_result(events[i]) is Ok && states[i].applied(
            events[i],
            states[i + 1],
        )
    &&& states.last() == end
}

/// Whether a replay of `events` stops with the error `r` at event `k`: `states`
/// are the states through which the game goes up to there, and the last of
/// them refuses the event.
pub open spec fn replay_stops<T: PreviousTrick, Hist: RummyHistory>(
    states: Seq<ClientGame<T, Hist>>,
    events: Seq<Event>,
    k: int,
    r: Result<(), GoatError>,
) -> bool {
    &&& 0 <= k < events.len()
    &&& states.len() == k + 1
    &&& states[0].phase is Unstarted
    &&& states[0].players@.len() == 0
    &&& forall|i: int|
        0 <= i < k ==> (#[trigger] states[i]).apply_result(events[i]) is Ok && states[i].applied(events[i], states[i + 1])
    &&& r is Err
    &&& states[k].apply_result(events[k]) == r
}

impl<Users: UserDb, T: PreviousTrick, Hist: RummyHistory> Client<Users, T, Hist> {
    /// What every client keeps: its games are well-formed, and no two of them
    /// have one identifier.
    pub open spec fn wf(&self) -> bool {
        &&& forall|i: int| 0 <= i < self.games@.len() ==> (#[trigger] self.games@[i]).1.wf()
        &&& forall|i: int, j: int| 0 <= i < j < self.games@.len() ==> self.games@[i].0 != self.games@[j].0
    }

    /// Where the game `game_id` stands in the list of games.
    pub open spec fn position(&self, game_id: GameId) -> Option<int> {
        if exists|i: int| 0 <= i < self.games@.len() && self.games@[i].0 == game_id {
            Some(choose|i: int| 0 <= i < self.games@.len() && self.games@[i].0 == game_id)
        } else {
            None
        }
    }

    /// Whether `after` holds the games of this client but for `game_id`, in
    /// their order.
    pub open spec fn others_kept(&self, game_id: GameId, after: Seq<(GameId, ClientGame<T, Hist>)>) -> bool {
        match self.position(game_id) {
            Some(i) => after == self.games@.remove(i),
            None => after == self.games@,
        }
    }

    /// Whether the client keeps what every client keeps.
    pub fn check(&self) -> (b: bool)
        ensures
            b == self.wf(),
    {
        let n: usize = self.games.len();
        let mut i: usize = 0;
        while i < n
            invariant
                i <= n,
                n == self.games@.len(),
                forall|a: int| 0 <= a < i ==> (#[trigger] self.games@[a]).1.wf(),
                forall|a: int, b: int| 0 <= a < b < i ==> self.games@[a].0 != self.games@[b].0,
            decreases n - i,
        {
            if !self.games[i].1.check() {
                return false;
            }
            let mut k: usize = 0;
            while k < i
                invariant
                    k <= i < n,
                    n == self.games@.len(),
                    forall|a: int| 0 <= a < k ==> self.games@[a].0 != self.games@[i as int].0,
                decreases i - k,
            {
                if self.games[k].0 == self.games[i].0 {
                    return false;
                }
                k = k + 1;
            }
            i = i + 1;
        }
        true
    }

    /// A client that knows no game.
    pub fn new(users: Users) -> (c: Self)
        ensures
            c.wf(),
            c.games@.len() == 0,
            c.users == users,
    {
        Client { games: Vec::new(), users }
    }

    /// Where the game `game_id` stands in the list of games.
    pub fn find(&self, game_id: GameId) -> (r: Option<usize>)
        requires
            self.wf(),
        ensures
            match r {
                Some(i) => self.position(game_id) == Some(i as int) && i < self.games@.len() && self.games@[i as int].0 == game_id,
                None => self.position(game_id).is_none(),
            },
    {
        let mut i: usize = 0;
        while i < self.games.len()
            invariant
                i <= self.games@.len(),
                self.wf(),
                forall|k: int| 0 <= k < i ==> self.games@[k].0 != game_id,
            decreases self.games.len() - i,
        {
            if self.games[i].0 == game_id {
                proof {
                    let c = choose|k: int| 0 <= k < self.games@.len() && self.games@[k].0 == game_id;
                    assert(c == i) by {
                        if c < i {
                            assert(self.games@[c].0 != self.games@[i as int].0);
                        } else if c > i {
                            assert(self.games@[i as int].0 != self.games@[c].0);
                        }
                    }
                }
                return Some(i);
            }
            i = i + 1;
        }
        None
    }

    /// The game `game_id`, if the client knows it.
    pub fn game(&self, game_id: GameId) -> (r: Option<&ClientGame<T, Hist>>)
        requires
            self.wf(),
        ensures
            match r {
                Some(g) => self.position(game_id) matches Some(i) && *g == self.games@[i].1,
                None => self.position(game_id).is_none(),
            },
    {
        match self.find(game_id) {
            Some(i) => Some(&self.games[i].1),
            None => None,
        }
    }

    /// Takes the game `game_id` out of the list, if it is there.
    pub fn forget(&mut self, game_id: GameId) -> (r: Option<ClientGame<T, Hist>>)
        requires
            old(self).wf(),
        ensures
            final(self).wf(),
            final(self).users == old(self).users,
            old(self).others_kept(game_id, final(self).games@),
            final(self).position(game_id).is_none(),
            match r {
                Some(g) => old(self).position(game_id) matches Some(i) && g == old(self).games@[i].1,
                None => old(self).position(game_id).is_none(),
            },
    {
        match self.find(game_id) {
            Some(i) => {
                let entry: (GameId, ClientGame<T, Hist>) = self.games.remove(i);
                proof {
                    let before = old(self).games@;
                    let after = self.games@;
                    assert forall|k: int| 0 <= k < after.len() implies (#[trigger] after[k]).1.wf() && after[k].0 != game_id by {
                        if k < i {
                            assert(after[k] == before[k]);
                            assert(before[k].0 != before[i as int].0);
                        } else {
                            assert(after[k] == before[k + 1]);
                            assert(before[i as int].0 != before[k + 1].0);
                        }
                    }
                    assert forall|a: int, b: int| 0 <= a < b < after.len() implies after[a].0 != after[b].0 by {
                        let a0 = if a < i { a } else { a + 1 };
                        let b0 = if b < i { b } else { b + 1 };
                        assert(after[a] == before[a0]);
                        assert(after[b] == before[b0]);
                        assert(before[a0].0 != before[b0].0);
                    }
                }
                Some(entry.1)
            },
            None => None,
        }
    }

    /// What `apply` makes of the games of the client.
    pub open spec fn applied(&self, response: Response, r: Result<(), GoatError>, after: Self) -> bool {
        match response {
            Response::Ping => r is Ok && after.games@ == self.games@ && after.users == self.users,
            Response::Replay { game_id, events } => {
                &&& after.users == self.users
                &&& r is Err ==> after.games@ == self.games@ && exists|states: Seq<ClientGame<T, Hist>>, k: int| #[trigger]
                    replay_stops(states, events@, k, r)
                &&& r is Ok ==> exists|states: Seq<ClientGame<T, Hist>>|
                    {
                        &&& after.games@.len() > 0
                        &&& after.games@.last().0 == game_id
                        &&& #[trigger] is_replay(states, events@, after.games@.last().1)
                        &&& self.others_kept(game_id, after.games@.drop_last())
                    }
            },
            Response::Game { game_id, event } => {
                &&& after.users == self.users
                &&& match self.position(game_id) {
                    None => r == Err::<(), GoatError>(GoatError::InvalidGame { game_id }) && after.games@ == self.games@,
                    Some(i) => {
                        &&& r == self.games@[i].1.apply_result(event)
                        &&& r is Err ==> after.games@ == self.games@
                        &&& r is Ok ==> {
                            &&& after.games@.len() == self.games@.len()
                            &&& after.games@[i].0 == game_id
                            &&& self.games@[i].1.applied(event, after.games@[i].1)
                            &&& forall|k: int| 0 <= k < self.games@.len() && k != i ==> after.games@[k] == self.games@[k]
                        }
                    },
                }
            },
            Response::ForgetGame { game_id } => {
                &&& r is Ok
                &&& after.users == self.users
                &&& self.others_kept(game_id, after.games@)
            },
            Response::User { user_id, user } => {
                &&& r is Ok
                &&& after.games@ == self.games@
                &&& after.users.users() == (if Users::keeps() {
                    self.users.users().insert(user_id, user)
                } else {
                    self.users.users()
                })
            },
            Response::ForgetUser { user_id } => {
                &&& r is Ok
                &&& after.games@ == self.games@
                &&& after.users.users() == self.users.users().remove(user_id)
            },
        }
    }

    /// Takes in what the server sent.
    pub fn apply(&mut self, response: Response) -> (r: Result<(), GoatError>)
        requires
            old(self).wf(),
        ensures
            final(self).wf(),
            old(self).applied(response, r, *final(self)),
    {
        match response {
            Response::Ping => Ok(()),
            Response::Replay { game_id, events } => {
                let mut game: ClientGame<T, Hist> = ClientGame::new();
                let ghost mut states: Seq<ClientGame<T, Hist>> = seq![game];
                let mut i: usize = 0;
                while i < events.len()
                    invariant
                        i <= events@.len(),
                        game.wf(),
                        states.len() == i + 1,
                        states[0].phase is Unstarted,
                        states[0].players@.len() == 0,
                        states.last() == game,
                        forall|k: int|
                            0 <= k < i ==> (#[trigger] states[k]).apply_result(events@[k]) is Ok && states[k].applied(
                                events@[k],
                                states[k + 1],
                            ),
                        *self == *old(self),
                        response == (Response::Replay { game_id, events }),
                        self.wf(),
                        self.games@ == old(self).games@,
                        self.users == old(self).users,
                    decreases events.len() - i,
                {
                    let ghost before = game;
                    match game.apply(events[i]) {
                        Err(e) => {
                            let r: Result<(), GoatError> = Err(e);
                            assert(replay_stops(states, events@, i as int, r));
                            assert(self.games@ == old(self).games@);
                            assert(self.users == old(self).users);
                            assert(response matches Response::Replay { events: evs, .. } && evs@ == events@);
                            return r;
                        },
                        Ok(_) => {},
                    }
                    proof {
                        let longer = states.push(game);
                        assert forall|k: int| 0 <= k < i + 1 implies (#[trigger] longer[k]).apply_result(events@[k]) is Ok
                            && longer[k].applied(events@[k], longer[k + 1]) by {
                            if k < i {
                                assert(longer[k] == states[k]);
                                assert(longer[k + 1] == states[k + 1]);
                            } else {
                                assert(longer[k] == before);
                            }
                        }
                        states = longer;
                    }
                    i = i + 1;
                }
                self.forget(game_id);
                let ghost kept = self.games@;
                self.games.push((game_id, game));
                proof {
                    assert(self.games@.drop_last() =~= kept);
                    assert(is_replay(states, events@, self.games@.last().1));
                    assert forall|k: int| 0 <= k < self.games@.len() implies (#[trigger] self.games@[k]).1.wf() by {
                        if k < kept.len() {
                            assert(self.games@[k] == kept[k]);
                        }
                    }
                    assert forall|a: int, b: int| 0 <= a < b < self.games@.len() implies self.games@[a].0 != self.games@[b].0 by {
                        assert(self.games@[a] == kept[a]);
                        if b < kept.len() {
                            assert(self.games@[b] == kept[b]);
                        } else {
                            if kept[a].0 == game_id {
                                assert(0 <= a < kept.len() && kept[a].0 == game_id);
                            }
                        }
                    }
                }
                Ok(())
            },
            Response::Game { game_id, event } => {
                match self.find(game_id) {
                    None => Err(GoatError::InvalidGame { game_id }),
                    Some(i) => {
                        let mut entry: (GameId, ClientGame<T, Hist>) = self.games.remove(i);
                        let r: Result<(), GoatError> = entry.1.apply(event);
                        self.games.insert(i, entry);
                        proof {
                            let before = old(self).games@;
                            let after = self.games@;
                            assert forall|k: int| 0 <= k < before.len() && k != i implies after[k] == before[k] by {}
                            if r is Err {
                                assert(after =~= before);
                            }
                            assert forall|a: int, b: int| 0 <= a < b < after.len() implies after[a].0 != after[b].0 by {
                                assert(after[a].0 == before[a].0);
                                assert(after[b].0 == before[b].0);
                            }
                        }
                        r
                    },
                }
            },
            Response::ForgetGame { game_id } => {
                self.forget(game_id);
                Ok(())
            },
            Response::User { user_id, user } => {
                self.users.insert(user_id, user);
                Ok(())
            },
            Response::ForgetUser { user_id } => {
                self.users.remove(&user_id);
                Ok(())
            },
        }
    }
}

} // verus!
