//! What the server sends to a connection.
use vstd::prelude::*;
use crate::event::Event;
use crate::id::{GameId, UserId};
use crate::user::User;

verus! {

/// One message of the server to a connection.
#[derive(Clone, Debug, PartialEq, Eq)]
pub enum Response {
    /// A sign of life.
    Ping,
    /// The log of a game so far, as the receiver may see it.
    Replay { game_id: GameId, events: Vec<Event> },
    /// One new entry of a game's log, as the receiver may see it.
    Game { game_id: GameId, event: Event },
    /// The game is gone.
    ForgetGame { game_id: GameId },
    /// The name of a user, and whether they are connected.
    User { user_id: UserId, user: User },
    /// The user is gone.
    ForgetUser { user_id: UserId },
}

} // verus!
