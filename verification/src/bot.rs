//! What a bot decides. A bot mirrors the games from what the server sends it,
//! and when a game has changed it asks its strategy for an action. Receiving,
//! waiting and sending are the embedder's.
use vstd::prelude::*;
use crate::action::Action;
use crate::cards::Cards;
use crate::client::Client;
use crate::client_game::{ClientGame, ClientPhase};
use crate::goat_phase::GoatPhase;
use crate::id::{GameId, PlayerIdx, UserId};
use crate::response::Response;
use crate::strategy::Strategy;
use crate::text::random_below;

verus! {

/// What a bot holds of the server's state.
pub type BotClient = Client<(), (), Cards>;

/// The game that a response is about, if it tells of a change to one.
pub fn changed_game(response: &Response) -> (r: Option<GameId>)
    ensures
        r == (match *response {
            Response::Replay { game_id, .. } => Some(game_id),
            Response::Game { game_id, .. } => Some(game_id),
            _ => None,
        }),
{
    match response {
        Response::Replay { game_id, .. } => Some(*game_id),
        Response::Game { game_id, .. } => Some(*game_id),
        _ => None,
    }
}

/// Notes the game that a response is about among the games that changed.
pub fn note_change(changed: &mut Vec<GameId>, response: &Response)
    ensures
        forall|g: GameId| final(changed)@.contains(g) == (old(changed)@.contains(g) || changed_game_spec(*response) == Some(g)),
        old(changed)@.no_duplicates() ==> final(changed)@.no_duplicates(),
{
    match changed_game(response) {
        None => {},
        Some(game_id) => {
            let mut i: usize = 0;
            while i < changed.len()
                invariant
                    i <= changed@.len(),
                    changed@ == old(changed)@,
                    changed_game_spec(*response) == Some(game_id),
                    forall|k: int| 0 <= k < i ==> changed@[k] != game_id,
                decreases changed.len() - i,
            {
                if changed[i] == game_id {
                    assert(old(changed)@[i as int] == game_id);
                    return;
                }
                i = i + 1;
            }
            changed.push(game_id);
            proof {
                let before = old(changed)@;
                assert forall|g: GameId| changed@.contains(g) == (before.contains(g) || g == game_id) by {
                    if before.contains(g) {
                        let k = choose|k: int| 0 <= k < before.len() && before[k] == g;
                        assert(changed@[k] == g);
                    }
                    if g == game_id {
                        assert(changed@[before.len() as int] == g);
                    }
                    if changed@.contains(g) {
                        let k = choose|k: int| 0 <= k < changed@.len() && changed@[k] == g;
                        if k < before.len() {
                            assert(before[k] == g);
                        }
                    }
                }
                if before.no_duplicates() {
                    assert forall|a: int, b: int| 0 <= a < changed@.len() && 0 <= b < changed@.len() && a != b implies changed@[a]
                        != changed@[b] by {
                        if a < before.len() && b < before.len() {
                            assert(before[a] != before[b]);
                        }
                    }
                }
            }
        },
    }
}

/// The game that a response is about, if it tells of a change to one.
pub open spec fn changed_game_spec(response: Response) -> Option<GameId> {
    match response {
        Response::Replay { game_id, .. } => Some(game_id),
        Response::Game { game_id, .. } => Some(game_id),
        _ => None,
    }
}

/// The seat of `user` among `players`: the first at which they sit.
pub fn seat_of(players: &Vec<UserId>, user: UserId) -> (r: Option<PlayerIdx>)
    ensures
        r == seat_of_spec(players@, user),
        match r {
            Some(p) => p.0 < players@.len() && players@[p.0 as int] == user && forall|k: int| 0 <= k < p.0 ==> players@[k] != user,
            None => !players@.contains(user) || players@.len() > 256,
        },
{
    if players.len() > 256 {
        return None;
    }
    let mut i: usize = 0;
    proof {
        crate::server_game::lemma_first_seat(players@, user, 0);
    }
    while i < players.len()
        invariant
            i <= players@.len() <= 256,
            forall|k: int| 0 <= k < i ==> players@[k] != user,
            crate::server_game::first_seat(players@, user, 0) == crate::server_game::first_seat(players@, user, i as int),
        decreases players.len() - i,
    {
        if players[i] == user {
            return Some(PlayerIdx(i as u8));
        }
        i = i + 1;
    }
    None
}

/// What the goat does: make the noise `noise`, once.
pub fn goat_action(goat: &GoatPhase, idx: PlayerIdx, noise: usize) -> (r: Option<Action>)
    ensures
        r == (if goat.goat == idx && goat.noise.is_none() {
            Some(Action::Goat { noise })
        } else {
            None
        }),
{
    if goat.goat == idx && goat.noise.is_none() {
        Some(Action::Goat { noise })
    } else {
        None
    }
}

/// Whether `seen` is the war `war` as a strategy sees it: the same deck,
/// hands, piles and trick, without the trick before.
pub open spec fn seen_as<T: crate::prev_trick::PreviousTrick>(war: crate::client_game::ClientWar<T>, seen: crate::strategy::BotWar) -> bool {
    &&& seen.deck == war.deck
    &&& seen.hands@ == war.hands@
    &&& seen.won@ == war.won@
    &&& seen.trick@ == war.trick@
}

/// Whether `r` is what the bot of `user_id` may do in `game` with the
/// strategy `strategy` and `noises` noises to choose from. Nothing in a game
/// in which it has no seat or that has not started; in the war what the
/// strategy may do for its seat in the war as a strategy sees it; in the
/// rummy what the strategy may do, when it is its turn, and nothing when it
/// is not; and as the goat that has not made its noise one of the noises, if
/// there are any.
pub open spec fn acts<T: crate::prev_trick::PreviousTrick, S: Strategy>(
    game: ClientGame<T, Cards>,
    user_id: UserId,
    strategy: S,
    noises: usize,
    r: Option<Action>,
) -> bool {
    match seat_of_spec(game.players@, user_id) {
        None => r.is_none(),
        Some(idx) => match game.phase {
            ClientPhase::Unstarted => r.is_none(),
            ClientPhase::War(war) => exists|seen: crate::strategy::BotWar| seen_as(war, seen) && #[trigger] strategy.in_war(idx, seen, r),
            ClientPhase::Rummy(rm) => if rm.next == idx {
                r matches Some(action) && strategy.in_rummy(rm, action)
            } else {
                r.is_none()
            },
            ClientPhase::Goat(g) => if g.goat == idx && g.noise.is_none() && noises > 0 {
                r matches Some(Action::Goat { noise }) && noise < noises
            } else {
                r.is_none()
            },
        },
    }
}

/// What the bot of `user_id` does in `game`, if anything: nothing in a game in
/// which it has no seat or that has not started; in the war what its strategy
/// says; in the rummy what its strategy says when it is its turn; and as the
/// goat one of `noises` noises, taken at random, if there are any.
pub fn game_action<T: crate::prev_trick::PreviousTrick, S: Strategy>(game: &ClientGame<T, Cards>, user_id: UserId, strategy: &S, noises: usize) -> (r: Option<Action>)
    ensures
        acts(*game, user_id, *strategy, noises, r),
{
    let idx: PlayerIdx = match seat_of(&game.players, user_id) {
        Some(idx) => idx,
        None => {
            return None;
        },
    };
    match &game.phase {
        ClientPhase::Unstarted => None,
        ClientPhase::War(war) => war_action(war, idx, strategy),
        ClientPhase::Rummy(rummy) => {
            if rummy.next == idx {
                Some(strategy.rummy(rummy))
            } else {
                None
            }
        },
        ClientPhase::Goat(goat) => {
            if noises == 0 {
                None
            } else {
                goat_action(goat, idx, random_below(noises))
            }
        },
    }
}

/// What the strategy says in the war. A strategy sees the war without the
/// trick before, which a bot does not keep.
fn war_action<T: crate::prev_trick::PreviousTrick, S: Strategy>(war: &crate::client_game::ClientWar<T>, idx: PlayerIdx, strategy: &S) -> (r: Option<Action>)
    ensures
        exists|seen: crate::strategy::BotWar| seen_as(*war, seen) && #[trigger] strategy.in_war(idx, seen, r),
{
    let seen: crate::strategy::BotWar = crate::war_phase::WarPhase {
        deck: war.deck,
        hands: war.hands.clone(),
        won: war.won.clone(),
        trick: war.trick.clone(),
        prev_trick: (),
    };
    let r: Option<Action> = strategy.war(idx, &seen);
    assert(seen_as(*war, seen) && strategy.in_war(idx, seen, r));
    r
}

/// The seat of `user` among `players`, if they are at most 256.
pub open spec fn seat_of_spec(players: Seq<UserId>, user: UserId) -> Option<PlayerIdx> {
    if players.len() > 256 {
        None
    } else {
        match crate::server_game::first_seat(players, user, 0) {
            Some(i) => Some(PlayerIdx(i as u8)),
            None => None,
        }
    }
}

/// What the bot of `user_id` does in the game `game_id`: nothing in a game
/// that the client does not know, and else what `game_action` does in the game.
pub fn bot_action<S: Strategy>(client: &BotClient, user_id: UserId, game_id: GameId, strategy: &S, noises: usize) -> (r: Option<Action>)
    requires
        client.wf(),
    ensures
        match client.position(game_id) {
            Some(i) => acts(client.games@[i].1, user_id, *strategy, noises, r),
            None => r.is_none(),
        },
{
    match client.game(game_id) {
        Some(game) => game_action(game, user_id, strategy, noises),
        None => None,
    }
}

} // verus!
