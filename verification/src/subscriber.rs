//! A connection of a user to the server, and what may be sent down it.
use vstd::prelude::*;
use crate::event::Event;
use crate::id::{GameId, UserId};
use crate::response::Response;
use crate::user::User;

verus! {

/// What a response holds.
pub enum ResponseView {
    Ping,
    Replay { game_id: GameId, events: Seq<Event> },
    Game { game_id: GameId, event: Event },
    ForgetGame { game_id: GameId },
    User { user_id: UserId, name: Seq<char>, online: bool },
    ForgetUser { user_id: UserId },
}

impl View for Response {
    type V = ResponseView;

    open spec fn view(&self) -> ResponseView {
        match *self {
            Response::Ping => ResponseView::Ping,
            Response::Replay { game_id, events } => ResponseView::Replay { game_id, events: events@ },
            Response::Game { game_id, event } => ResponseView::Game { game_id, event },
            Response::ForgetGame { game_id } => ResponseView::ForgetGame { game_id },
            Response::User { user_id, user } => ResponseView::User { user_id, name: user.name@, online: user.online },
            Response::ForgetUser { user_id } => ResponseView::ForgetUser { user_id },
        }
    }
}

/// A copy of a response.
pub fn copy_response(response: &Response) -> (r: Response)
    ensures
        r@ == response@,
{
    match response {
        Response::Ping => Response::Ping,
        Response::Replay { game_id, events } => {
            let mut copy: Vec<Event> = Vec::new();
            let mut i: usize = 0;
            while i < events.len()
                invariant
                    i <= events@.len(),
                    copy@ == events@.subrange(0, i as int),
                decreases events.len() - i,
            {
                copy.push(events[i]);
                i = i + 1;
                assert(copy@ =~= events@.subrange(0, i as int));
            }
            assert(events@.subrange(0, events@.len() as int) =~= events@);
            Response::Replay { game_id: *game_id, events: copy }
        },
        Response::Game { game_id, event } => Response::Game { game_id: *game_id, event: *event },
        Response::ForgetGame { game_id } => Response::ForgetGame { game_id: *game_id },
        Response::User { user_id, user } => Response::User {
            user_id: *user_id,
            user: User { name: user.name.clone(), online: user.online },
        },
        Response::ForgetUser { user_id } => Response::ForgetUser { user_id: *user_id },
    }
}

/// A connection. While the games are being replayed to it, it takes news of a
/// game only once that game has been replayed: what happened before is in the
/// replay that is still to come.
#[derive(Debug)]
pub struct Subscriber {
    /// What the embedder knows the connection by.
    pub id: u64,
    /// Whether the games are still being replayed to the connection.
    replaying: bool,
    /// The games that have been replayed to it, in the order of their
    /// replays, each once.
    replayed: Vec<GameId>,
}

/// What a connection holds.
pub struct SubscriberView {
    pub id: u64,
    /// Whether the games are still being replayed to the connection.
    pub replaying: bool,
    /// The games that have been replayed to it.
    pub replayed: Seq<GameId>,
}

impl SubscriberView {
    /// Whether `response` is sent down the connection.
    pub open spec fn forwards(self, response: ResponseView) -> bool {
        match response {
            ResponseView::Game { game_id, .. } => !self.replaying || self.replayed.contains(game_id),
            _ => true,
        }
    }

    /// The connection after `response` was offered to it: it remembers a game
    /// that was replayed to it.
    pub open spec fn after(self, response: ResponseView) -> SubscriberView {
        match response {
            ResponseView::Replay { game_id, .. } => if self.replaying {
                SubscriberView { replayed: self.replayed.push(game_id), ..self }
            } else {
                self
            },
            _ => self,
        }
    }
}

impl View for Subscriber {
    type V = SubscriberView;

    closed spec fn view(&self) -> SubscriberView {
        SubscriberView { id: self.id, replaying: self.replaying, replayed: self.replayed@ }
    }
}

impl Subscriber {
    /// A connection to which the games are still to be replayed.
    pub fn new(id: u64) -> (s: Subscriber)
        ensures
            s@ == (SubscriberView { id, replaying: true, replayed: Seq::empty() }),
    {
        Subscriber { id, replaying: true, replayed: Vec::new() }
    }

    /// A connection to which nothing is being replayed.
    pub fn disconnected(id: u64) -> (s: Subscriber)
        ensures
            s@ == (SubscriberView { id, replaying: false, replayed: Seq::empty() }),
    {
        Subscriber { id, replaying: false, replayed: Vec::new() }
    }

    /// What the embedder knows the connection by.
    pub fn id(&self) -> (id: u64)
        ensures
            id == self@.id,
    {
        self.id
    }

    /// Offers `response` to the connection. The answer is whether it is to be
    /// sent down the connection.
    pub fn send(&mut self, response: &Response) -> (forward: bool)
        ensures
            forward == old(self)@.forwards(response@),
            final(self)@ == old(self)@.after(response@),
    {
        if self.replaying {
            match response {
                Response::Game { game_id, .. } => {
                    let mut i: usize = 0;
                    while i < self.replayed.len()
                        invariant
                            i <= self.replayed@.len(),
                            *self == *old(self),
                            self.replaying,
                            response@ matches ResponseView::Game { game_id: g, .. } && g == *game_id,
                            forall|k: int| 0 <= k < i ==> self.replayed@[k] != *game_id,
                        decreases self.replayed.len() - i,
                    {
                        if self.replayed[i] == *game_id {
                            return true;
                        }
                        i = i + 1;
                    }
                    return false;
                },
                Response::Replay { game_id, .. } => {
                    self.replayed.push(*game_id);
                },
                _ => {},
            }
        }
        true
    }

    /// Whether news of the game `game_id` is sent down the connection.
    pub fn takes_game(&self, game_id: GameId) -> (forward: bool)
        ensures
            forward == (!self@.replaying || self@.replayed.contains(game_id)),
    {
        if !self.replaying {
            return true;
        }
        let mut i: usize = 0;
        while i < self.replayed.len()
            invariant
                i <= self.replayed@.len(),
                forall|k: int| 0 <= k < i ==> self.replayed@[k] != game_id,
            decreases self.replayed.len() - i,
        {
            if self.replayed[i] == game_id {
                return true;
            }
            i = i + 1;
        }
        false
    }

    /// The replay of the games to the connection is over.
    pub fn finish_replay(&mut self)
        ensures
            final(self)@ == (SubscriberView { replaying: false, ..old(self)@ }),
    {
        self.replaying = false;
    }
}

} // verus!
