//! The registry of the server: its games and its users, and who is told what.
//!
//! The registry decides; it does not send. Each operation hands back the
//! deliveries that it calls for, in order, and the embedder sends them. When a
//! send fails, the embedder reports the connection with `disconnect`.
use vstd::prelude::*;
use crate::action::Action;
use crate::error::GoatError;
use crate::event::Event;
use crate::id::{GameId, PlayerIdx, UserId};
use crate::rand_id::RandId;
use crate::response::Response;
use crate::server_game::ServerGame;
use crate::lists::{subs_insert, subs_new, subs_push, subs_remove, subs_slice, SubList};
use crate::subscriber::{copy_response, ResponseView, Subscriber, SubscriberView};
use crate::user::User;

verus! {

/// A response for a connection.
#[derive(Debug)]
pub struct Delivery {
    /// The connection, as its subscriber names it.
    pub to: u64,
    pub response: Response,
}

/// What a delivery holds.
pub struct DeliveryView {
    pub to: u64,
    pub response: ResponseView,
}

impl View for Delivery {
    type V = DeliveryView;

    open spec fn view(&self) -> DeliveryView {
        DeliveryView { to: self.to, response: self.response@ }
    }
}

/// A user as the server holds them.
#[derive(Debug)]
pub struct ServerUser {
    pub name: String,
    /// The connections of the user. A user is online while they have one.
    pub subs: SubList,
    /// When the user last gained or lost a connection or changed their name.
    pub last_active: u64,
}

/// A game of the registry.
#[derive(Debug)]
pub struct GameEntry {
    pub id: GameId,
    pub game: ServerGame,
    /// When an action was last applied to the game.
    pub last_update: u64,
}

/// The registry of a server. Games and users stand in lists, in the order in
/// which they came: that order is the order in which connections are told of
/// them, which every function of the registry states.
#[derive(Debug)]
pub struct Server {
    /// The games, in the order in which they were made. No identifier occurs
    /// twice.
    pub games: Vec<GameEntry>,
    /// The users, in the order in which they became known. No identifier
    /// occurs twice.
    pub users: Vec<(UserId, ServerUser)>,
    /// The name of the next connection.
    pub next_sub: u64,
}

/// The views of a list of subscribers.
pub open spec fn sub_views(subs: Seq<Subscriber>) -> Seq<SubscriberView> {
    Seq::new(subs.len(), |i: int| subs[i]@)
}

/// The connections after `response` was offered to each of them.
pub open spec fn subs_after(subs: Seq<SubscriberView>, response: ResponseView) -> Seq<SubscriberView> {
    Seq::new(subs.len(), |i: int| subs[i].after(response))
}

/// The deliveries of `response` to the connections that take it, in order.
pub open spec fn subs_deliveries(subs: Seq<SubscriberView>, response: ResponseView) -> Seq<DeliveryView>
    decreases subs.len(),
{
    if subs.len() == 0 {
        Seq::empty()
    } else if subs.last().forwards(response) {
        subs_deliveries(subs.drop_last(), response).push(DeliveryView { to: subs.last().id, response })
    } else {
        subs_deliveries(subs.drop_last(), response)
    }
}

/// The deliveries of `response` to all connections of all users that take it,
/// user by user in their order.
pub open spec fn all_deliveries(users: Seq<(UserId, ServerUser)>, response: ResponseView) -> Seq<DeliveryView>
    decreases users.len(),
{
    if users.len() == 0 {
        Seq::empty()
    } else {
        all_deliveries(users.drop_last(), response) + subs_deliveries(sub_views(users.last().1.subs@), response)
    }
}

/// Whether `after` are the users `before` with `response` offered to each of
/// their connections: names and times are as they were.
pub open spec fn offered_to_all(before: Seq<(UserId, ServerUser)>, after: Seq<(UserId, ServerUser)>, response: ResponseView) -> bool {
    &&& after.len() == before.len()
    &&& forall|i: int|
        0 <= i < before.len() ==> {
            &&& (#[trigger] after[i]).0 == before[i].0
            &&& after[i].1.name == before[i].1.name
            &&& after[i].1.last_active == before[i].1.last_active
            &&& sub_views(after[i].1.subs@) == subs_after(sub_views(before[i].1.subs@), response)
        }
}

/// The events of a log as the player at `seat` may see them.
pub open spec fn redacted(events: Seq<Event>, seat: Option<PlayerIdx>) -> Seq<Event> {
    Seq::new(events.len(), |i: int| events[i].spec_redact(seat))
}

/// The seat of `user` in `game`, if they have one.
pub open spec fn seat_in(game: ServerGame, user: UserId) -> Option<PlayerIdx> {
    match game.seat(user) {
        Ok(p) => Some(p),
        Err(_) => None,
    }
}

/// The connections after the news of `events` of the game `game_id` were
/// offered to each of them: news of a game change no connection.
pub open spec fn subs_news(subs: Seq<SubscriberView>, game_id: GameId, events: Seq<Event>) -> Seq<DeliveryView>
    decreases subs.len(),
{
    if subs.len() == 0 {
        Seq::empty()
    } else {
        subs_news(subs.drop_last(), game_id, events) + (if subs.last().forwards(
            ResponseView::Game { game_id, event: Event::PickUp },
        ) {
            Seq::new(
                events.len(),
                |k: int| DeliveryView { to: subs.last().id, response: ResponseView::Game { game_id, event: events[k] } },
            )
        } else {
            Seq::empty()
        })
    }
}

/// The deliveries of the news of `events` of the game `game_id`: to each
/// connection that takes news of the game, each event as the user of the
/// connection may see it.
pub open spec fn all_news(users: Seq<(UserId, ServerUser)>, game: ServerGame, game_id: GameId, events: Seq<Event>) -> Seq<DeliveryView>
    decreases users.len(),
{
    if users.len() == 0 {
        Seq::empty()
    } else {
        all_news(users.drop_last(), game, game_id, events) + subs_news(
            sub_views(users.last().1.subs@),
            game_id,
            redacted(events, seat_in(game, users.last().0)),
        )
    }
}

/// The deliveries of the news of what a game has added to its log from entry
/// `from` on.
pub fn news(users: &Vec<(UserId, ServerUser)>, game: &ServerGame, game_id: GameId, from: usize) -> (out: Vec<Delivery>)
    requires
        game.players@.len() <= 256,
        from <= game.events@.len(),
    ensures
        views(out@) == all_news(users@, *game, game_id, game.events@.subrange(from as int, game.events@.len() as int)),
{
    let mut out: Vec<Delivery> = Vec::new();
    let ghost events = game.events@.subrange(from as int, game.events@.len() as int);
    let mut i: usize = 0;
    proof {
        assert(users@.subrange(0, 0) =~= Seq::<(UserId, ServerUser)>::empty());
        assert(views(out@) =~= Seq::<DeliveryView>::empty());
    }
    while i < users.len()
        invariant
            i <= users@.len(),
            game.players@.len() <= 256,
            from <= game.events@.len(),
            events == game.events@.subrange(from as int, game.events@.len() as int),
            views(out@) == all_news(users@.subrange(0, i as int), *game, game_id, events),
        decreases users.len() - i,
    {
        let seat: Option<PlayerIdx> = match game.player(users[i].0) {
            Ok(p) => Some(p),
            Err(_) => None,
        };
        let subs: &[Subscriber] = subs_slice(&users[i].1.subs);
        let ghost seen = views(out@);
        let ghost mine = redacted(events, seat);
        let ghost all = sub_views(subs@);
        let mut j: usize = 0;
        proof {
            let prefix = users@.subrange(0, i as int + 1);
            assert(prefix.drop_last() =~= users@.subrange(0, i as int));
            assert(prefix.last() == users@[i as int]);
            assert(all.subrange(0, 0) =~= Seq::<SubscriberView>::empty());
            assert(seen + Seq::<DeliveryView>::empty() =~= seen);
        }
        while j < subs.len()
            invariant
                j <= subs@.len(),
                from <= game.events@.len(),
                events == game.events@.subrange(from as int, game.events@.len() as int),
                mine == redacted(events, seat),
                all == sub_views(subs@),
                views(out@) == seen + subs_news(all.subrange(0, j as int), game_id, mine),
            decreases subs.len() - j,
        {
            let ghost had = views(out@);
            proof {
                let prefix = all.subrange(0, j as int + 1);
                assert(prefix.drop_last() =~= all.subrange(0, j as int));
                assert(prefix.last() == subs@[j as int]@);
            }
            if subs[j].takes_game(game_id) {
                let id: u64 = subs[j].id();
                let mut k: usize = from;
                while k < game.events.len()
                    invariant
                        from <= k <= game.events@.len(),
                        events == game.events@.subrange(from as int, game.events@.len() as int),
                        mine == redacted(events, seat),
                        views(out@) == had + Seq::new(
                            (k - from) as nat,
                            |n: int| DeliveryView { to: id, response: ResponseView::Game { game_id, event: mine[n] } },
                        ),
                    decreases game.events.len() - k,
                {
                    let ghost so_far = views(out@);
                    let event: Event = game.events[k].redact(seat);
                    out.push(Delivery { to: id, response: Response::Game { game_id, event } });
                    proof {
                        assert(events[k - from] == game.events@[k as int]);
                        assert(views(out@) =~= so_far.push(DeliveryView { to: id, response: ResponseView::Game { game_id, event } }));
                        assert(views(out@) =~= had + Seq::new(
                            (k + 1 - from) as nat,
                            |n: int| DeliveryView { to: id, response: ResponseView::Game { game_id, event: mine[n] } },
                        ));
                    }
                    k = k + 1;
                }
                proof {
                    assert(views(out@) =~= seen + subs_news(all.subrange(0, j as int + 1), game_id, mine));
                }
            } else {
                proof {
                    assert(had + Seq::<DeliveryView>::empty() =~= had);
                    assert(subs_news(all.subrange(0, j as int + 1), game_id, mine) =~= subs_news(
                        all.subrange(0, j as int),
                        game_id,
                        mine,
                    ));
                }
            }
            j = j + 1;
        }
        proof {
            assert(all.subrange(0, j as int) =~= all);
            assert(seat == seat_in(*game, users@[i as int].0));
            assert(views(out@) =~= all_news(users@.subrange(0, i as int + 1), *game, game_id, events));
        }
        i = i + 1;
    }
    proof {
        assert(users@.subrange(0, i as int) =~= users@);
    }
    out
}

/// What a new connection is told of the users.
pub fn snapshot_for(users: &Vec<(UserId, ServerUser)>, id: u64) -> (out: Vec<Delivery>)
    ensures
        views(out@) == snapshot(users@, id),
{
    let mut out: Vec<Delivery> = Vec::new();
    let mut k: usize = 0;
    while k < users.len()
        invariant
            k <= users@.len(),
            out@.len() == k,
            forall|n: int| 0 <= n < k ==> (#[trigger] out@[n])@ == snapshot(users@, id)[n],
        decreases users.len() - k,
    {
        let user: &(UserId, ServerUser) = &users[k];
        out.push(
            Delivery {
                to: id,
                response: Response::User { user_id: user.0, user: User { name: user.1.name.clone(), online: subs_slice(&user.1.subs).len() > 0 } },
            },
        );
        k = k + 1;
    }
    assert(views(out@) =~= snapshot(users@, id));
    out
}

/// Gives the user `user_id` a new connection `id`, adding the user where they
/// are not known. The answer is where the user stands and whether the
/// connection is announced.
pub fn plug(users: &mut Vec<(UserId, ServerUser)>, user_id: UserId, name: &String, id: u64, now: u64) -> (r: (usize, bool))
    requires
        forall|a: int, b: int| 0 <= a < b < old(users)@.len() ==> old(users)@[a].0 != old(users)@[b].0,
    ensures
        plugged(old(users)@, final(users)@, user_id, name@, id, now),
        r.1 == announced(old(users)@, user_id, name@),
        user_at(final(users)@, user_id) == Some(r.0 as int),
        r.0 < final(users)@.len(),
        final(users)@[r.0 as int].1.subs@.len() > 0,
        final(users)@[r.0 as int].1.subs@.last()@ == (SubscriberView { id, replaying: true, replayed: Seq::empty() }),
        forall|a: int, b: int| 0 <= a < b < final(users)@.len() ==> final(users)@[a].0 != final(users)@[b].0,
{
    let ghost before = users@;
    let mut i: usize = 0;
    let mut found: Option<usize> = None;
    while i < users.len() && found.is_none()
        invariant
            i <= users@.len(),
            users@ == before,
            match found {
                Some(f) => f < users@.len() && users@[f as int].0 == user_id,
                None => forall|k: int| 0 <= k < i ==> users@[k].0 != user_id,
            },
        decreases users.len() - i + (if found.is_none() { 1int } else { 0int }),
    {
        if users[i].0 == user_id {
            found = Some(i);
        } else {
            i = i + 1;
        }
    }
    match found {
        Some(i) => {
            proof {
                let c = choose|n: int| 0 <= n < before.len() && before[n].0 == user_id;
                if c < i {
                    assert(before[c].0 != before[i as int].0);
                } else if c > i {
                    assert(before[i as int].0 != before[c].0);
                }
                assert(user_at(before, user_id) == Some(i as int));
            }
            let user: &mut (UserId, ServerUser) = &mut users[i];
            let announce: bool = !(user.1.name == *name) || subs_slice(&user.1.subs).len() == 0;
            subs_push(&mut user.1.subs, Subscriber::new(id));
            user.1.last_active = now;
            if announce {
                user.1.name = name.clone();
            }
            proof {
                assert forall|n: int| 0 <= n < before.len() && n != i implies #[trigger] users@[n] == before[n] by {}
                assert(users@[i as int].1.subs@.drop_last() =~= before[i as int].1.subs@);
                assert forall|a: int, b: int| 0 <= a < b < users@.len() implies users@[a].0 != users@[b].0 by {
                    assert(users@[a].0 == before[a].0);
                    assert(users@[b].0 == before[b].0);
                }
                let c = choose|n: int| 0 <= n < users@.len() && users@[n].0 == user_id;
                if c < i {
                    assert(users@[c].0 != users@[i as int].0);
                } else if c > i {
                    assert(users@[i as int].0 != users@[c].0);
                }
            }
            (i, announce)
        },
        None => {
            let mut subs: SubList = subs_new();
            subs_push(&mut subs, Subscriber::new(id));
            users.push((user_id, ServerUser { name: name.clone(), subs, last_active: now }));
            proof {
                assert(users@.drop_last() =~= before);
                assert forall|a: int, b: int| 0 <= a < b < users@.len() implies users@[a].0 != users@[b].0 by {
                    assert(users@[a] == before[a]);
                    if b < before.len() {
                        assert(users@[b] == before[b]);
                    }
                }
                let last = users@.len() - 1;
                let c = choose|n: int| 0 <= n < users@.len() && users@[n].0 == user_id;
                assert(users@[last].0 == user_id);
                if c < last {
                    assert(users@[c] == before[c]);
                }
            }
            (users.len() - 1, true)
        },
    }
}

/// Replays all games to the last connection of user `ui`, which is connection
/// `id` of the user `user_id`, and ends its replay.
pub fn replay_to(users: &mut Vec<(UserId, ServerUser)>, games: &Vec<GameEntry>, ui: usize, user_id: UserId, id: u64, out: &mut Vec<Delivery>)
    requires
        ui < old(users)@.len(),
        old(users)@[ui as int].1.subs@.len() > 0,
        old(users)@[ui as int].1.subs@.last()@ == (SubscriberView { id, replaying: true, replayed: Seq::empty() }),
        forall|i: int| 0 <= i < games@.len() ==> (#[trigger] games@[i]).game.players@.len() <= 256,
    ensures
        replay_done(old(users)@, final(users)@, ui as int, game_ids(games@)),
        views(final(out)@) == views(old(out)@) + replays(games@, user_id, id),
{
    let ghost told = users@;
    let ghost second = views(out@);
    let ghost fresh = SubscriberView { id, replaying: true, replayed: Seq::empty() };
    let mut g: usize = 0;
    proof {
        assert(game_ids(games@).subrange(0, 0) =~= fresh.replayed);
        assert(replays(games@.subrange(0, 0), user_id, id) =~= Seq::<DeliveryView>::empty());
        assert(second + Seq::<DeliveryView>::empty() =~= second);
        assert(users@[ui as int].1.subs@.drop_last() =~= told[ui as int].1.subs@.drop_last());
    }
    while g < games.len()
        invariant
            g <= games@.len(),
            ui < told.len(),
            told[ui as int].1.subs@.len() > 0,
            forall|i: int| 0 <= i < games@.len() ==> (#[trigger] games@[i]).game.players@.len() <= 256,
            users@.len() == told.len(),
            forall|n: int| 0 <= n < told.len() && n != ui ==> #[trigger] users@[n] == told[n],
            users@[ui as int].0 == told[ui as int].0,
            users@[ui as int].1.name == told[ui as int].1.name,
            users@[ui as int].1.last_active == told[ui as int].1.last_active,
            users@[ui as int].1.subs@.len() == told[ui as int].1.subs@.len(),
            users@[ui as int].1.subs@.drop_last() == told[ui as int].1.subs@.drop_last(),
            users@[ui as int].1.subs@.last()@ == (SubscriberView {
                id,
                replaying: true,
                replayed: game_ids(games@).subrange(0, g as int),
            }),
            views(out@) == second + replays(games@.subrange(0, g as int), user_id, id),
        decreases games.len() - g,
    {
        let ghost seen = views(out@);
        let ghost users_now = users@;
        let entry: &GameEntry = &games[g];
        let seat: Option<PlayerIdx> = match entry.game.player(user_id) {
            Ok(p) => Some(p),
            Err(_) => None,
        };
        let events: Vec<Event> = redact_all(&entry.game.events, seat);
        let response: Response = Response::Replay { game_id: entry.id, events };
        let user: &mut (UserId, ServerUser) = &mut users[ui];
        let last: usize = subs_slice(&user.1.subs).len() - 1;
        let ghost subs_before = user.1.subs@;
        let mut sub: Subscriber = subs_remove(&mut user.1.subs, last);
        sub.send(&response);
        subs_insert(&mut user.1.subs, last, sub);
        proof {
            assert(user.1.subs@ =~= subs_before.update(last as int, sub));
        }
        out.push(Delivery { to: id, response });
        g = g + 1;
        proof {
            assert forall|n: int| 0 <= n < told.len() && n != ui implies #[trigger] users@[n] == told[n] by {
                assert(users@[n] == users_now[n]);
            }
            assert(users@[ui as int].1.subs@.drop_last() =~= subs_before.drop_last());
            assert(game_ids(games@).subrange(0, g as int) =~= game_ids(games@).subrange(0, g - 1).push(games@[g - 1].id));
            assert(replays(games@.subrange(0, g as int), user_id, id) =~= replays(games@.subrange(0, g - 1), user_id, id).push(
                DeliveryView {
                    to: id,
                    response: ResponseView::Replay {
                        game_id: games@[g - 1].id,
                        events: redacted(games@[g - 1].game.events@, seat_in(games@[g - 1].game, user_id)),
                    },
                },
            ));
            assert(views(out@) =~= seen.push(out@.last()@));
        }
    }
    let ghost users_now = users@;
    let user: &mut (UserId, ServerUser) = &mut users[ui];
    let last: usize = subs_slice(&user.1.subs).len() - 1;
    let ghost subs_before = user.1.subs@;
    let mut sub: Subscriber = subs_remove(&mut user.1.subs, last);
    sub.finish_replay();
    subs_insert(&mut user.1.subs, last, sub);
    proof {
        assert(user.1.subs@ =~= subs_before.update(last as int, sub));
    }
    proof {
        assert(games@.subrange(0, g as int) =~= games@);
        assert(game_ids(games@).subrange(0, g as int) =~= game_ids(games@));
        assert(told[ui as int].1.subs@.last()@.replayed + game_ids(games@) =~= game_ids(games@));
        assert forall|n: int| 0 <= n < told.len() && n != ui implies #[trigger] users@[n] == told[n] by {
            assert(users@[n] == users_now[n]);
        }
        assert(users@[ui as int].1.subs@.drop_last() =~= subs_before.drop_last());
    }
}

/// The events of a log as the player at `seat` may see them.
pub fn redact_all(events: &Vec<Event>, seat: Option<PlayerIdx>) -> (out: Vec<Event>)
    ensures
        out@ == redacted(events@, seat),
{
    let mut out: Vec<Event> = Vec::new();
    let mut e: usize = 0;
    while e < events.len()
        invariant
            e <= events@.len(),
            out@.len() == e,
            forall|n: int| 0 <= n < e ==> #[trigger] out@[n] == events@[n].spec_redact(seat),
        decreases events.len() - e,
    {
        out.push(events[e].redact(seat));
        e = e + 1;
    }
    assert(out@ =~= redacted(events@, seat));
    out
}

/// Offers `response` to each connection of a user and adds the deliveries that
/// this calls for.
pub fn offer_to_subs(subs: &mut SubList, response: &Response, out: &mut Vec<Delivery>)
    ensures
        sub_views(final(subs)@) == subs_after(sub_views(old(subs)@), response@),
        final(out)@.map_values(|d: Delivery| d@) == old(out)@.map_values(|d: Delivery| d@) + subs_deliveries(
            sub_views(old(subs)@),
            response@,
        ),
{
    let mut j: usize = 0;
    let ghost before = sub_views(subs@);
    let ghost start = out@.map_values(|d: Delivery| d@);
    proof {
        assert(before.subrange(0, 0) =~= Seq::<SubscriberView>::empty());
        assert(start + Seq::<DeliveryView>::empty() =~= start);
    }
    while j < subs_slice(subs).len()
        invariant
            j <= subs@.len(),
            subs@.len() == before.len(),
            before == sub_views(old(subs)@),
            forall|k: int| 0 <= k < j ==> (#[trigger] subs@[k])@ == before[k].after(response@),
            forall|k: int| j <= k < subs@.len() ==> (#[trigger] subs@[k])@ == before[k],
            out@.map_values(|d: Delivery| d@) == start + subs_deliveries(before.subrange(0, j as int), response@),
        decreases subs@.len() - j,
    {
        let ghost seen = out@.map_values(|d: Delivery| d@);
        let ghost subs_before = subs@;
        proof {
            let prefix = before.subrange(0, j as int + 1);
            assert(prefix.drop_last() =~= before.subrange(0, j as int));
            assert(prefix.last() == before[j as int]);
        }
        let mut sub: Subscriber = subs_remove(subs, j);
        let id: u64 = sub.id();
        let forward: bool = sub.send(response);
        subs_insert(subs, j, sub);
        proof {
            assert(subs@ =~= subs_before.update(j as int, sub));
            assert forall|k: int| 0 <= k < subs@.len() && k != j implies subs@[k] == subs_before[k] by {}
        }
        if forward {
            out.push(Delivery { to: id, response: copy_response(response) });
            assert(out@.map_values(|d: Delivery| d@) =~= seen.push(DeliveryView { to: id, response: response@ }));
        }
        j = j + 1;
    }
    proof {
        assert(before.subrange(0, j as int) =~= before);
        assert(sub_views(subs@) =~= subs_after(before, response@));
    }
}

/// Adds the deliveries of a response that every connection takes and none
/// remembers: any response but a replay or news of a game.
pub fn tell_all(users: &Vec<(UserId, ServerUser)>, response: &Response, out: &mut Vec<Delivery>)
    requires
        !(response@ is Replay),
        !(response@ is Game),
    ensures
        views(final(out)@) == views(old(out)@) + all_deliveries(users@, response@),
{
    let ghost start = views(out@);
    let mut i: usize = 0;
    proof {
        assert(users@.subrange(0, 0) =~= Seq::<(UserId, ServerUser)>::empty());
        assert(start + Seq::<DeliveryView>::empty() =~= start);
    }
    while i < users.len()
        invariant
            i <= users@.len(),
            !(response@ is Replay),
            !(response@ is Game),
            views(out@) == start + all_deliveries(users@.subrange(0, i as int), response@),
        decreases users.len() - i,
    {
        let subs: &[Subscriber] = subs_slice(&users[i].1.subs);
        let ghost seen = views(out@);
        let ghost all = sub_views(subs@);
        let mut j: usize = 0;
        proof {
            let prefix = users@.subrange(0, i as int + 1);
            assert(prefix.drop_last() =~= users@.subrange(0, i as int));
            assert(prefix.last() == users@[i as int]);
            assert(all.subrange(0, 0) =~= Seq::<SubscriberView>::empty());
            assert(seen + Seq::<DeliveryView>::empty() =~= seen);
        }
        while j < subs.len()
            invariant
                j <= subs@.len(),
                !(response@ is Replay),
                !(response@ is Game),
                all == sub_views(subs@),
                views(out@) == seen + subs_deliveries(all.subrange(0, j as int), response@),
            decreases subs.len() - j,
        {
            let ghost had = views(out@);
            proof {
                let prefix = all.subrange(0, j as int + 1);
                assert(prefix.drop_last() =~= all.subrange(0, j as int));
                assert(prefix.last() == subs@[j as int]@);
            }
            out.push(Delivery { to: subs[j].id(), response: copy_response(response) });
            proof {
                assert(views(out@) =~= had.push(DeliveryView { to: subs@[j as int]@.id, response: response@ }));
            }
            j = j + 1;
        }
        proof {
            assert(all.subrange(0, j as int) =~= all);
            assert(views(out@) =~= start + all_deliveries(users@.subrange(0, i as int + 1), response@));
        }
        i = i + 1;
    }
    proof {
        assert(users@.subrange(0, i as int) =~= users@);
    }
}

/// Offers `response` to every connection of every user and adds the deliveries
/// that this calls for.
pub fn broadcast(users: &mut Vec<(UserId, ServerUser)>, response: &Response, out: &mut Vec<Delivery>)
    ensures
        offered_to_all(old(users)@, final(users)@, response@),
        final(out)@.map_values(|d: Delivery| d@) == old(out)@.map_values(|d: Delivery| d@) + all_deliveries(old(users)@, response@),
{
    let mut i: usize = 0;
    let ghost before = users@;
    let ghost start = out@.map_values(|d: Delivery| d@);
    proof {
        assert(before.subrange(0, 0) =~= Seq::<(UserId, ServerUser)>::empty());
        assert(start + Seq::<DeliveryView>::empty() =~= start);
    }
    while i < users.len()
        invariant
            i <= users@.len(),
            users@.len() == before.len(),
            before == old(users)@,
            forall|k: int|
                0 <= k < i ==> {
                    &&& (#[trigger] users@[k]).0 == before[k].0
                    &&& users@[k].1.name == before[k].1.name
                    &&& users@[k].1.last_active == before[k].1.last_active
                    &&& sub_views(users@[k].1.subs@) == subs_after(sub_views(before[k].1.subs@), response@)
                },
            forall|k: int| i <= k < users@.len() ==> #[trigger] users@[k] == before[k],
            out@.map_values(|d: Delivery| d@) == start + all_deliveries(before.subrange(0, i as int), response@),
        decreases users.len() - i,
    {
        let ghost now = users@;
        let ghost seen = out@.map_values(|d: Delivery| d@);
        proof {
            let prefix = before.subrange(0, i as int + 1);
            assert(prefix.drop_last() =~= before.subrange(0, i as int));
            assert(prefix.last() == before[i as int]);
        }
        let user: &mut (UserId, ServerUser) = &mut users[i];
        offer_to_subs(&mut user.1.subs, response, out);
        proof {
            assert forall|k: int| 0 <= k < users@.len() && k != i implies users@[k] == now[k] by {}
            assert(out@.map_values(|d: Delivery| d@) =~= start + all_deliveries(before.subrange(0, i as int + 1), response@));
        }
        i = i + 1;
    }
    proof {
        assert(before.subrange(0, i as int) =~= before);
    }
}

/// Whether `mid` are the users `before` with the user `user_id` named `name`
/// at the time `now`, which is then the time at which the user was last
/// active: a user who was not known is added, without connections.
pub open spec fn named(before: Seq<(UserId, ServerUser)>, mid: Seq<(UserId, ServerUser)>, user_id: UserId, name: Seq<char>, now: u64) -> bool {
    match user_at(before, user_id) {
        Some(i) => {
            &&& mid.len() == before.len()
            &&& forall|k: int| 0 <= k < before.len() && k != i ==> #[trigger] mid[k] == before[k]
            &&& mid[i].0 == user_id
            &&& mid[i].1.name@ == name
            &&& mid[i].1.subs == before[i].1.subs
            &&& mid[i].1.last_active == now
        },
        None => {
            &&& mid.len() == before.len() + 1
            &&& mid.drop_last() == before
            &&& mid.last().0 == user_id
            &&& mid.last().1.name@ == name
            &&& mid.last().1.subs@.len() == 0
            &&& mid.last().1.last_active == now
        },
    }
}

/// Whether the user `user_id` is online: they are known and have a connection.
pub open spec fn online(users: Seq<(UserId, ServerUser)>, user_id: UserId) -> bool {
    user_at(users, user_id) matches Some(i) && users[i].1.subs@.len() > 0
}

/// Whether some user has a connection named `sub_id`.
pub open spec fn connected(users: Seq<(UserId, ServerUser)>, sub_id: u64) -> bool {
    exists|i: int, j: int| 0 <= i < users.len() && 0 <= j < users[i].1.subs@.len() && (#[trigger] users[i].1.subs@[j])@.id == sub_id
}

/// Whether `mid` are the users `before` without connection `j` of user `i`.
pub open spec fn unplugged(before: Seq<(UserId, ServerUser)>, mid: Seq<(UserId, ServerUser)>, i: int, j: int, now: u64) -> bool {
    &&& 0 <= i < before.len()
    &&& 0 <= j < before[i].1.subs@.len()
    &&& mid.len() == before.len()
    &&& forall|k: int| 0 <= k < mid.len() && k != i ==> #[trigger] mid[k] == before[k]
    &&& mid[i].0 == before[i].0
    &&& mid[i].1.name == before[i].1.name
    &&& mid[i].1.last_active == now
    &&& mid[i].1.subs@ == before[i].1.subs@.remove(j)
}

/// What a new connection is told of the users: of each their name and whether
/// they are online.
pub open spec fn snapshot(users: Seq<(UserId, ServerUser)>, to: u64) -> Seq<DeliveryView> {
    Seq::new(
        users.len(),
        |k: int|
            DeliveryView {
                to,
                response: ResponseView::User { user_id: users[k].0, name: users[k].1.name@, online: users[k].1.subs@.len() > 0 },
            },
    )
}

/// The replays of all games for a connection of the user `user_id`: of each
/// game its log as the user may see it.
pub open spec fn replays(games: Seq<GameEntry>, user_id: UserId, to: u64) -> Seq<DeliveryView> {
    Seq::new(
        games.len(),
        |k: int|
            DeliveryView {
                to,
                response: ResponseView::Replay {
                    game_id: games[k].id,
                    events: redacted(games[k].game.events@, seat_in(games[k].game, user_id)),
                },
            },
    )
}

/// The identifiers of the games, in their order.
pub open spec fn game_ids(games: Seq<GameEntry>) -> Seq<GameId> {
    Seq::new(games.len(), |k: int| games[k].id)
}

/// Whether a connection of the user `user_id` is announced: the user is new,
/// was offline, or comes with another name.
pub open spec fn announced(before: Seq<(UserId, ServerUser)>, user_id: UserId, name: Seq<char>) -> bool {
    match user_at(before, user_id) {
        Some(i) => before[i].1.name@ != name || before[i].1.subs@.len() == 0,
        None => true,
    }
}

/// Whether `mid` are the users `before` with a new connection `id` of the user
/// `user_id`, who is named `name` if the connection is announced.
pub open spec fn plugged(before: Seq<(UserId, ServerUser)>, mid: Seq<(UserId, ServerUser)>, user_id: UserId, name: Seq<char>, id: u64, now: u64) -> bool {
    let fresh = SubscriberView { id, replaying: true, replayed: Seq::empty() };
    match user_at(before, user_id) {
        Some(i) => {
            &&& mid.len() == before.len()
            &&& forall|k: int| 0 <= k < before.len() && k != i ==> #[trigger] mid[k] == before[k]
            &&& mid[i].0 == user_id
            &&& mid[i].1.name@ == (if announced(before, user_id, name) { name } else { before[i].1.name@ })
            &&& mid[i].1.last_active == now
            &&& mid[i].1.subs@.len() == before[i].1.subs@.len() + 1
            &&& mid[i].1.subs@.drop_last() == before[i].1.subs@
            &&& mid[i].1.subs@.last()@ == fresh
        },
        None => {
            &&& mid.len() == before.len() + 1
            &&& mid.drop_last() == before
            &&& mid.last().0 == user_id
            &&& mid.last().1.name@ == name
            &&& mid.last().1.last_active == now
            &&& mid.last().1.subs@.len() == 1
            &&& mid.last().1.subs@[0]@ == fresh
        },
    }
}

/// Whether `after` are the users `mid` once the games `ids` have been replayed
/// to the last connection of user `i`: that connection has seen them and is
/// no longer being replayed to.
pub open spec fn replay_done(mid: Seq<(UserId, ServerUser)>, after: Seq<(UserId, ServerUser)>, i: int, ids: Seq<GameId>) -> bool {
    &&& 0 <= i < mid.len()
    &&& mid[i].1.subs@.len() > 0
    &&& after.len() == mid.len()
    &&& forall|k: int| 0 <= k < mid.len() && k != i ==> #[trigger] after[k] == mid[k]
    &&& after[i].0 == mid[i].0
    &&& after[i].1.name == mid[i].1.name
    &&& after[i].1.last_active == mid[i].1.last_active
    &&& after[i].1.subs@.len() == mid[i].1.subs@.len()
    &&& after[i].1.subs@.drop_last() == mid[i].1.subs@.drop_last()
    &&& after[i].1.subs@.last()@ == (SubscriberView {
        id: mid[i].1.subs@.last()@.id,
        replaying: false,
        replayed: mid[i].1.subs@.last()@.replayed + ids,
    })
}

/// The time from `then` to `now`; nothing where `then` is later.
pub open spec fn age(now: u64, then: u64) -> u64 {
    if now >= then {
        (now - then) as u64
    } else {
        0
    }
}

/// Whether a game is to be forgotten: it was last played longer ago than
/// `max_age`, or longer ago than `complete_age` and is not being played. A
/// game whose age is just the limit stays.
pub open spec fn expired(entry: GameEntry, now: u64, max_age: u64, complete_age: u64) -> bool {
    age(now, entry.last_update) > max_age || (age(now, entry.last_update) > complete_age && !(entry.game.phase is War
        || entry.game.phase is Rummy))
}

/// The games that are not to be forgotten, in their order.
pub open spec fn kept_games(games: Seq<GameEntry>, now: u64, max_age: u64, complete_age: u64) -> Seq<GameEntry>
    decreases games.len(),
{
    if games.len() == 0 {
        Seq::empty()
    } else if expired(games.last(), now, max_age, complete_age) {
        kept_games(games.drop_last(), now, max_age, complete_age)
    } else {
        kept_games(games.drop_last(), now, max_age, complete_age).push(games.last())
    }
}

/// The news of the games that are forgotten, in their order.
pub open spec fn forgotten_games(games: Seq<GameEntry>, now: u64, max_age: u64, complete_age: u64) -> Seq<ResponseView>
    decreases games.len(),
{
    if games.len() == 0 {
        Seq::empty()
    } else if expired(games.last(), now, max_age, complete_age) {
        forgotten_games(games.drop_last(), now, max_age, complete_age).push(ResponseView::ForgetGame { game_id: games.last().id })
    } else {
        forgotten_games(games.drop_last(), now, max_age, complete_age)
    }
}

/// Whether `user` has a seat in one of the games.
pub open spec fn plays_in(games: Seq<GameEntry>, user: UserId) -> bool {
    exists|i: int| 0 <= i < games.len() && (#[trigger] games[i]).game.players@.contains(user)
}

/// Whether a user is to be forgotten: they have no connection and no seat in a
/// game, and nothing has changed about them for `idle_age`.
pub open spec fn idle(user: (UserId, ServerUser), games: Seq<GameEntry>, now: u64, idle_age: u64) -> bool {
    user.1.subs@.len() == 0 && !plays_in(games, user.0) && age(now, user.1.last_active) >= idle_age
}

/// The users that are not to be forgotten, in their order.
pub open spec fn kept_users(users: Seq<(UserId, ServerUser)>, games: Seq<GameEntry>, now: u64, idle_age: u64) -> Seq<(UserId, ServerUser)>
    decreases users.len(),
{
    if users.len() == 0 {
        Seq::empty()
    } else if idle(users.last(), games, now, idle_age) {
        kept_users(users.drop_last(), games, now, idle_age)
    } else {
        kept_users(users.drop_last(), games, now, idle_age).push(users.last())
    }
}

/// The news of the users that are forgotten, in their order.
pub open spec fn forgotten_users(users: Seq<(UserId, ServerUser)>, games: Seq<GameEntry>, now: u64, idle_age: u64) -> Seq<ResponseView>
    decreases users.len(),
{
    if users.len() == 0 {
        Seq::empty()
    } else if idle(users.last(), games, now, idle_age) {
        forgotten_users(users.drop_last(), games, now, idle_age).push(ResponseView::ForgetUser { user_id: users.last().0 })
    } else {
        forgotten_users(users.drop_last(), games, now, idle_age)
    }
}

/// The deliveries of several responses, one after the other, to all
/// connections.
pub open spec fn many_deliveries(users: Seq<(UserId, ServerUser)>, responses: Seq<ResponseView>) -> Seq<DeliveryView>
    decreases responses.len(),
{
    if responses.len() == 0 {
        Seq::empty()
    } else {
        many_deliveries(users, responses.drop_last()) + all_deliveries(users, responses.last())
    }
}

/// The kept games are games of the list, in their order, and none of them is
/// expired.
pub proof fn lemma_kept_games(games: Seq<GameEntry>, now: u64, max_age: u64, complete_age: u64)
    ensures
        kept_games(games, now, max_age, complete_age).len() <= games.len(),
        forall|k: int|
            0 <= k < kept_games(games, now, max_age, complete_age).len() ==> exists|n: int|
                0 <= n < games.len() && games[n] == #[trigger] kept_games(games, now, max_age, complete_age)[k],
        forall|a: int, b: int|
            0 <= a < b < kept_games(games, now, max_age, complete_age).len() ==> exists|m: int, n: int|
                0 <= m < n < games.len() && games[m] == #[trigger] kept_games(games, now, max_age, complete_age)[a] && games[n]
                    == #[trigger] kept_games(games, now, max_age, complete_age)[b],
    decreases games.len(),
{
    if games.len() > 0 {
        let rest = games.drop_last();
        lemma_kept_games(rest, now, max_age, complete_age);
        let kept_rest = kept_games(rest, now, max_age, complete_age);
        let kept = kept_games(games, now, max_age, complete_age);
        assert forall|k: int| 0 <= k < kept.len() implies exists|n: int| 0 <= n < games.len() && games[n] == #[trigger] kept[k] by {
            if k < kept_rest.len() {
                assert(kept[k] == kept_rest[k]);
                let n = choose|n: int| 0 <= n < rest.len() && rest[n] == kept_rest[k];
                assert(games[n] == kept[k]);
            } else {
                assert(games[games.len() - 1] == kept[k]);
            }
        }
        assert forall|a: int, b: int| 0 <= a < b < kept.len() implies exists|m: int, n: int|
            0 <= m < n < games.len() && games[m] == #[trigger] kept[a] && games[n] == #[trigger] kept[b] by {
            if b < kept_rest.len() {
                assert(kept[a] == kept_rest[a] && kept[b] == kept_rest[b]);
                let (m, n) = choose|m: int, n: int| 0 <= m < n < rest.len() && rest[m] == kept_rest[a] && rest[n] == kept_rest[b];
                assert(games[m] == kept[a] && games[n] == kept[b]);
            } else {
                assert(kept[a] == kept_rest[a]);
                let m = choose|m: int| 0 <= m < rest.len() && rest[m] == kept_rest[a];
                assert(games[m] == kept[a] && games[games.len() - 1] == kept[b]);
            }
        }
    }
}

/// The kept users are users of the list, in their order.
pub proof fn lemma_kept_users(users: Seq<(UserId, ServerUser)>, games: Seq<GameEntry>, now: u64, idle_age: u64)
    ensures
        kept_users(users, games, now, idle_age).len() <= users.len(),
        forall|a: int, b: int|
            0 <= a < b < kept_users(users, games, now, idle_age).len() ==> exists|m: int, n: int|
                0 <= m < n < users.len() && users[m] == #[trigger] kept_users(users, games, now, idle_age)[a] && users[n]
                    == #[trigger] kept_users(users, games, now, idle_age)[b],
        forall|k: int|
            0 <= k < kept_users(users, games, now, idle_age).len() ==> exists|n: int|
                0 <= n < users.len() && users[n] == #[trigger] kept_users(users, games, now, idle_age)[k],
    decreases users.len(),
{
    if users.len() > 0 {
        let rest = users.drop_last();
        lemma_kept_users(rest, games, now, idle_age);
        let kept_rest = kept_users(rest, games, now, idle_age);
        let kept = kept_users(users, games, now, idle_age);
        assert forall|k: int| 0 <= k < kept.len() implies exists|n: int| 0 <= n < users.len() && users[n] == #[trigger] kept[k] by {
            if k < kept_rest.len() {
                assert(kept[k] == kept_rest[k]);
                let n = choose|n: int| 0 <= n < rest.len() && rest[n] == kept_rest[k];
                assert(users[n] == kept[k]);
            } else {
                assert(users[users.len() - 1] == kept[k]);
            }
        }
        assert forall|a: int, b: int| 0 <= a < b < kept.len() implies exists|m: int, n: int|
            0 <= m < n < users.len() && users[m] == #[trigger] kept[a] && users[n] == #[trigger] kept[b] by {
            if b < kept_rest.len() {
                assert(kept[a] == kept_rest[a] && kept[b] == kept_rest[b]);
                let (m, n) = choose|m: int, n: int| 0 <= m < n < rest.len() && rest[m] == kept_rest[a] && rest[n] == kept_rest[b];
                assert(users[m] == kept[a] && users[n] == kept[b]);
            } else {
                assert(kept[a] == kept_rest[a]);
                let m = choose|m: int| 0 <= m < rest.len() && rest[m] == kept_rest[a];
                assert(users[m] == kept[a] && users[users.len() - 1] == kept[b]);
            }
        }
    }
}

/// The views of a list of deliveries.
pub open spec fn views(out: Seq<Delivery>) -> Seq<DeliveryView> {
    out.map_values(|d: Delivery| d@)
}

/// Where the user `user_id` stands in a list of users.
pub open spec fn user_at(users: Seq<(UserId, ServerUser)>, user_id: UserId) -> Option<int> {
    if exists|i: int| 0 <= i < users.len() && users[i].0 == user_id {
        Some(choose|i: int| 0 <= i < users.len() && users[i].0 == user_id)
    } else {
        None
    }
}

/// Where the game `game_id` stands in a list of games.
pub open spec fn game_at(games: Seq<GameEntry>, game_id: GameId) -> Option<int> {
    if exists|i: int| 0 <= i < games.len() && games[i].id == game_id {
        Some(choose|i: int| 0 <= i < games.len() && games[i].id == game_id)
    } else {
        None
    }
}

/// The games without the game `game_id`.
pub open spec fn games_without(games: Seq<GameEntry>, game_id: GameId) -> Seq<GameEntry> {
    match game_at(games, game_id) {
        Some(i) => games.remove(i),
        None => games,
    }
}

impl Server {
    /// What every registry keeps: its games are well-formed, and no two games
    /// and no two users have one identifier.
    pub open spec fn wf(&self) -> bool {
        &&& forall|i: int| 0 <= i < self.games@.len() ==> (#[trigger] self.games@[i]).game.wf()
        &&& forall|i: int, j: int| 0 <= i < j < self.games@.len() ==> self.games@[i].id != self.games@[j].id
        &&& forall|i: int, j: int| 0 <= i < j < self.users@.len() ==> self.users@[i].0 != self.users@[j].0
    }

    /// Whether the registry keeps what every registry keeps.
    pub fn check_all(&self) -> (b: bool)
        ensures
            b == self.wf(),
    {
        let mut i: usize = 0;
        while i < self.games.len()
            invariant
                i <= self.games@.len(),
                forall|k: int| 0 <= k < i ==> (#[trigger] self.games@[k]).game.wf(),
                forall|a: int, b: int| 0 <= a < b < i ==> self.games@[a].id != self.games@[b].id,
            decreases self.games.len() - i,
        {
            if !self.games[i].game.check() {
                return false;
            }
            let mut j: usize = 0;
            while j < i
                invariant
                    j <= i < self.games@.len(),
                    forall|a: int| 0 <= a < j ==> self.games@[a].id != self.games@[i as int].id,
                decreases i - j,
            {
                if self.games[j].id == self.games[i].id {
                    return false;
                }
                j = j + 1;
            }
            i = i + 1;
        }
        let mut m: usize = 0;
        while m < self.users.len()
            invariant
                m <= self.users@.len(),
                forall|a: int, b: int| 0 <= a < b < m ==> self.users@[a].0 != self.users@[b].0,
            decreases self.users.len() - m,
        {
            let mut n: usize = 0;
            while n < m
                invariant
                    n <= m < self.users@.len(),
                    forall|a: int| 0 <= a < n ==> self.users@[a].0 != self.users@[m as int].0,
                decreases m - n,
            {
                if self.users[n].0 == self.users[m].0 {
                    return false;
                }
                n = n + 1;
            }
            m = m + 1;
        }
        true
    }

    /// A registry without games and users.
    pub fn new() -> (s: Server)
        ensures
            s.wf(),
            s.games@.len() == 0,
            s.users@.len() == 0,
    {
        Server { games: Vec::new(), users: Vec::new(), next_sub: 0 }
    }

    /// Where the game `game_id` stands in the list of games.
    pub fn find_game(&self, game_id: GameId) -> (r: Option<usize>)
        requires
            self.wf(),
        ensures
            match r {
                Some(i) => game_at(self.games@, game_id) == Some(i as int) && i < self.games@.len() && self.games@[i as int].id
                    == game_id,
                None => game_at(self.games@, game_id).is_none() && forall|k: int|
                    0 <= k < self.games@.len() ==> self.games@[k].id != game_id,
            },
    {
        let mut i: usize = 0;
        while i < self.games.len()
            invariant
                i <= self.games@.len(),
                self.wf(),
                forall|k: int| 0 <= k < i ==> self.games@[k].id != game_id,
            decreases self.games.len() - i,
        {
            if self.games[i].id == game_id {
                proof {
                    let c = choose|k: int| 0 <= k < self.games@.len() && self.games@[k].id == game_id;
                    if c < i {
                        assert(self.games@[c].id != self.games@[i as int].id);
                    } else if c > i {
                        assert(self.games@[i as int].id != self.games@[c].id);
                    }
                }
                return Some(i);
            }
            i = i + 1;
        }
        None
    }

    /// Where the user `user_id` stands in the list of users.
    pub fn find_user(&self, user_id: UserId) -> (r: Option<usize>)
        requires
            self.wf(),
        ensures
            match r {
                Some(i) => user_at(self.users@, user_id) == Some(i as int) && i < self.users@.len() && self.users@[i as int].0
                    == user_id,
                None => user_at(self.users@, user_id).is_none() && forall|k: int|
                    0 <= k < self.users@.len() ==> self.users@[k].0 != user_id,
            },
    {
        let mut i: usize = 0;
        while i < self.users.len()
            invariant
                i <= self.users@.len(),
                self.wf(),
                forall|k: int| 0 <= k < i ==> self.users@[k].0 != user_id,
            decreases self.users.len() - i,
        {
            if self.users[i].0 == user_id {
                proof {
                    let c = choose|k: int| 0 <= k < self.users@.len() && self.users@[k].0 == user_id;
                    if c < i {
                        assert(self.users@[c].0 != self.users@[i as int].0);
                    } else if c > i {
                        assert(self.users@[i as int].0 != self.users@[c].0);
                    }
                }
                return Some(i);
            }
            i = i + 1;
        }
        None
    }

    /// The game `game_id`, if the registry holds it.
    pub fn game(&self, game_id: GameId) -> (r: Option<&ServerGame>)
        requires
            self.wf(),
        ensures
            match r {
                Some(g) => game_at(self.games@, game_id) matches Some(i) && *g == self.games@[i].game,
                None => game_at(self.games@, game_id).is_none(),
            },
    {
        match self.find_game(game_id) {
            Some(i) => Some(&self.games[i].game),
            None => None,
        }
    }

    /// Makes a game with a new identifier, taken at random, and tells all who
    /// are connected of it. A game that had the identifier is replaced.
    pub fn new_game(&mut self, seed: u64, now: u64) -> (r: (GameId, Vec<Delivery>))
        requires
            old(self).wf(),
        ensures
            final(self).wf(),
            old(self).made_game(r.0, seed, now, views(r.1@), *final(self)),
    {
        let game_id: GameId = GameId(RandId::random());
        let out: Vec<Delivery> = self.new_game_with(game_id, seed, now);
        (game_id, out)
    }

    /// What `new_game` makes of the registry: the new game, without players,
    /// stands last, and every connection is offered the empty replay of it.
    pub open spec fn made_game(&self, game_id: GameId, seed: u64, now: u64, out: Seq<DeliveryView>, after: Server) -> bool {
        let news = ResponseView::Replay { game_id, events: Seq::empty() };
        &&& after.games@.drop_last() == games_without(self.games@, game_id)
        &&& after.games@.len() > 0
        &&& after.games@.last().id == game_id
        &&& after.games@.last().last_update == now
        &&& after.games@.last().game.seed == seed
        &&& after.games@.last().game.phase is Unstarted
        &&& after.games@.last().game.players@.len() == 0
        &&& after.games@.last().game.events@.len() == 0
        &&& offered_to_all(self.users@, after.users@, news)
        &&& out == all_deliveries(self.users@, news)
        &&& after.next_sub == self.next_sub
    }

    /// Makes a game with the identifier `game_id` and tells all who are
    /// connected of it. A game that had the identifier is replaced.
    pub fn new_game_with(&mut self, game_id: GameId, seed: u64, now: u64) -> (out: Vec<Delivery>)
        requires
            old(self).wf(),
        ensures
            final(self).wf(),
            old(self).made_game(game_id, seed, now, views(out@), *final(self)),
    {
        match self.find_game(game_id) {
            Some(i) => {
                self.games.remove(i);
                proof {
                    let before = old(self).games@;
                    let after = self.games@;
                    assert forall|k: int| 0 <= k < after.len() implies (#[trigger] after[k]).game.wf() && after[k].id != game_id by {
                        if k < i {
                            assert(after[k] == before[k]);
                            assert(before[k].id != before[i as int].id);
                        } else {
                            assert(after[k] == before[k + 1]);
                            assert(before[i as int].id != before[k + 1].id);
                        }
                    }
                    assert forall|a: int, b: int| 0 <= a < b < after.len() implies after[a].id != after[b].id by {
                        let a0 = if a < i { a } else { a + 1 };
                        let b0 = if b < i { b } else { b + 1 };
                        assert(after[a] == before[a0]);
                        assert(after[b] == before[b0]);
                        assert(before[a0].id != before[b0].id);
                    }
                }
            },
            None => {},
        }
        let ghost kept = self.games@;
        self.games.push(GameEntry { id: game_id, game: ServerGame::new(seed), last_update: now });
        proof {
            assert(self.games@.drop_last() =~= kept);
            assert forall|k: int| 0 <= k < self.games@.len() implies (#[trigger] self.games@[k]).game.wf() by {
                if k < kept.len() {
                    assert(self.games@[k] == kept[k]);
                }
            }
            assert forall|a: int, b: int| 0 <= a < b < self.games@.len() implies self.games@[a].id != self.games@[b].id by {
                assert(self.games@[a] == kept[a]);
                if b < kept.len() {
                    assert(self.games@[b] == kept[b]);
                }
            }
        }
        let mut out: Vec<Delivery> = Vec::new();
        let response: Response = Response::Replay { game_id, events: Vec::new() };
        broadcast(&mut self.users, &response, &mut out);
        proof {
            assert(views(Seq::<Delivery>::empty()) =~= Seq::<DeliveryView>::empty());
            assert(Seq::<DeliveryView>::empty() + all_deliveries(old(self).users@, response@) =~= all_deliveries(
                old(self).users@,
                response@,
            ));
            assert(response@ == ResponseView::Replay { game_id, events: Seq::<Event>::empty() });
        }
        out
    }

    /// What `change_name` makes of the registry: a user who is new or whose
    /// name differs gets the name, and every connection is told of it. Nothing
    /// happens where the user has the name already.
    pub open spec fn changed_name(&self, user_id: UserId, name: Seq<char>, now: u64, out: Seq<DeliveryView>, after: Server) -> bool {
        let known = user_at(self.users@, user_id);
        &&& after.games == self.games
        &&& after.next_sub == self.next_sub
        &&& if known matches Some(i) && self.users@[i].1.name@ == name {
            after.users == self.users && out.len() == 0
        } else {
            exists|mid: Seq<(UserId, ServerUser)>|
                {
                    let news = ResponseView::User { user_id, name, online: online(self.users@, user_id) };
                    &&& #[trigger] named(self.users@, mid, user_id, name, now)
                    &&& offered_to_all(mid, after.users@, news)
                    &&& out == all_deliveries(mid, news)
                }
        }
    }

    /// Gives the user `user_id` the name `name`.
    pub fn change_name(&mut self, user_id: UserId, name: String, now: u64) -> (out: Vec<Delivery>)
        requires
            old(self).wf(),
        ensures
            final(self).wf(),
            old(self).changed_name(user_id, name@, now, views(out@), *final(self)),
    {
        let mut out: Vec<Delivery> = Vec::new();
        proof {
            assert(views(out@) =~= Seq::<DeliveryView>::empty());
        }
        let is_online: bool = match self.find_user(user_id) {
            Some(i) => {
                if self.users[i].1.name == name {
                    return out;
                }
                let user: &mut (UserId, ServerUser) = &mut self.users[i];
                user.1.name = name.clone();
                user.1.last_active = now;
                subs_slice(&user.1.subs).len() > 0
            },
            None => {
                let ghost before = self.users@;
                self.users.push((user_id, ServerUser { name: name.clone(), subs: subs_new(), last_active: now }));
                proof {
                    assert(self.users@.drop_last() =~= before);
                    assert forall|a: int, b: int| 0 <= a < b < self.users@.len() implies self.users@[a].0 != self.users@[b].0 by {
                        assert(self.users@[a] == before[a]);
                        if b < before.len() {
                            assert(self.users@[b] == before[b]);
                        }
                    }
                }
                false
            },
        };
        let ghost mid = self.users@;
        assert(named(old(self).users@, mid, user_id, name@, now));
        let response: Response = Response::User { user_id, user: User { name, online: is_online } };
        broadcast(&mut self.users, &response, &mut out);
        proof {
            assert(Seq::<DeliveryView>::empty() + all_deliveries(mid, response@) =~= all_deliveries(mid, response@));
        }
        out
    }

    /// What `disconnect` makes of the registry: the connection `sub_id` is
    /// gone; and where it was the last of its user, every connection that is
    /// left is told that the user is offline.
    pub open spec fn disconnected(&self, sub_id: u64, now: u64, out: Seq<DeliveryView>, after: Server) -> bool {
        &&& after.games == self.games
        &&& after.next_sub == self.next_sub
        &&& if !connected(self.users@, sub_id) {
            after.users == self.users && out.len() == 0
        } else {
            exists|i: int, j: int, mid: Seq<(UserId, ServerUser)>|
                {
                    &&& #[trigger] unplugged(self.users@, mid, i, j, now)
                    &&& self.users@[i].1.subs@[j]@.id == sub_id
                    &&& if mid[i].1.subs@.len() == 0 {
                        let news = ResponseView::User { user_id: mid[i].0, name: mid[i].1.name@, online: false };
                        offered_to_all(mid, after.users@, news) && out == all_deliveries(mid, news)
                    } else {
                        after.users@ == mid && out.len() == 0
                    }
                }
        }
    }

    /// Takes the connection `sub_id` away: it was closed, or a send down it
    /// failed.
    pub fn disconnect(&mut self, sub_id: u64, now: u64) -> (out: Vec<Delivery>)
        requires
            old(self).wf(),
        ensures
            final(self).wf(),
            old(self).disconnected(sub_id, now, views(out@), *final(self)),
    {
        let mut out: Vec<Delivery> = Vec::new();
        proof {
            assert(views(out@) =~= Seq::<DeliveryView>::empty());
        }
        let mut i: usize = 0;
        while i < self.users.len()
            invariant
                i <= self.users@.len(),
                *self == *old(self),
                self.wf(),
                out@.len() == 0,
                forall|a: int, b: int|
                    0 <= a < i && 0 <= b < self.users@[a].1.subs@.len() ==> (#[trigger] self.users@[a].1.subs@[b])@.id != sub_id,
            decreases self.users.len() - i,
        {
            let mut j: usize = 0;
            while j < subs_slice(&self.users[i].1.subs).len()
                invariant
                    i < self.users@.len(),
                    j <= self.users@[i as int].1.subs@.len(),
                    *self == *old(self),
                    self.wf(),
                    out@.len() == 0,
                    forall|a: int, b: int|
                        0 <= a < i && 0 <= b < self.users@[a].1.subs@.len() ==> (#[trigger] self.users@[a].1.subs@[b])@.id
                            != sub_id,
                    forall|b: int| 0 <= b < j ==> (#[trigger] self.users@[i as int].1.subs@[b])@.id != sub_id,
                decreases self.users@[i as int].1.subs@.len() - j,
            {
                if subs_slice(&self.users[i].1.subs)[j].id() == sub_id {
                    let ghost before = self.users@;
                    let user: &mut (UserId, ServerUser) = &mut self.users[i];
                    let _ = subs_remove(&mut user.1.subs, j);
                    user.1.last_active = now;
                    let gone: bool = subs_slice(&user.1.subs).len() == 0;
                    let ghost mid = self.users@;
                    proof {
                        assert forall|k: int| 0 <= k < mid.len() && k != i implies #[trigger] mid[k] == before[k] by {}
                        assert(before[i as int].1.subs@[j as int]@.id == sub_id);
                        assert(connected(before, sub_id));
                        assert(unplugged(before, mid, i as int, j as int, now));
                    }
                    if gone {
                        let response: Response = Response::User {
                            user_id: self.users[i].0,
                            user: User { name: self.users[i].1.name.clone(), online: false },
                        };
                        broadcast(&mut self.users, &response, &mut out);
                        proof {
                            assert(Seq::<DeliveryView>::empty() + all_deliveries(mid, response@) =~= all_deliveries(mid, response@));
                        }
                    }
                    return out;
                }
                j = j + 1;
            }
            i = i + 1;
        }
        out
    }

    /// What `apply_action` makes of the registry: the action is applied to the
    /// game `game_id`, and what it added to the log of the game is told to each
    /// connection that takes news of the game, as its user may see it.
    pub open spec fn applied_action(
        &self,
        user_id: UserId,
        game_id: GameId,
        action: Action,
        now: u64,
        r: Result<Vec<Delivery>, GoatError>,
        after: Server,
    ) -> bool {
        &&& after.users == self.users
        &&& after.next_sub == self.next_sub
        &&& match game_at(self.games@, game_id) {
            None => r == Err::<Vec<Delivery>, GoatError>(GoatError::InvalidGame { game_id }) && after.games == self.games,
            Some(i) => {
                &&& after.games@.len() == self.games@.len()
                &&& forall|k: int| 0 <= k < self.games@.len() && k != i ==> #[trigger] after.games@[k] == self.games@[k]
                &&& after.games@[i].id == game_id
                &&& exists|res: Result<(), GoatError>| #[trigger]
                    self.games@[i].game.applied(user_id, action, res, after.games@[i].game) && match res {
                        Err(e) => r == Err::<Vec<Delivery>, GoatError>(e) && after.games@[i] == self.games@[i],
                        Ok(_) => {
                            &&& r matches Ok(out)
                            &&& after.games@[i].last_update == now
                            &&& self.games@[i].game.extended(after.games@[i].game)
                            &&& views(out@) == all_news(
                                self.users@,
                                after.games@[i].game,
                                game_id,
                                after.games@[i].game.events@.subrange(
                                    self.games@[i].game.events@.len() as int,
                                    after.games@[i].game.events@.len() as int,
                                ),
                            )
                        },
                    }
            },
        }
    }

    /// Applies an action of `user_id` to the game `game_id`.
    pub fn apply_action(&mut self, user_id: UserId, game_id: GameId, action: Action, now: u64) -> (r: Result<Vec<Delivery>, GoatError>)
        requires
            old(self).wf(),
        ensures
            final(self).wf(),
            old(self).applied_action(user_id, game_id, action, now, r, *final(self)),
    {
        let i: usize = match self.find_game(game_id) {
            Some(i) => i,
            None => {
                return Err(GoatError::InvalidGame { game_id });
            },
        };
        let ghost before = self.games@;
        let entry: &mut GameEntry = &mut self.games[i];
        let index: usize = entry.game.events.len();
        let res: Result<(), GoatError> = entry.game.apply(user_id, action);
        if let Err(e) = res {
            proof {
                assert(self.games@ =~= before);
                assert(before[i as int].game.applied(user_id, action, res, self.games@[i as int].game));
            }
            return Err(e);
        }
        entry.last_update = now;
        proof {
            assert forall|k: int| 0 <= k < before.len() && k != i implies #[trigger] self.games@[k] == before[k] by {}
            assert forall|a: int, b: int| 0 <= a < b < self.games@.len() implies self.games@[a].id != self.games@[b].id by {
                assert(self.games@[a].id == before[a].id);
                assert(self.games@[b].id == before[b].id);
            }
            assert(before[i as int].game.applied(user_id, action, res, self.games@[i as int].game));
        }
        let out: Vec<Delivery> = news(&self.users, &self.games[i].game, game_id, index);
        Ok(out)
    }

    /// What `subscribe` makes of the registry: the user `user_id` has a new
    /// connection `id`. The connection is told of all users; if it is
    /// announced, every connection is told that the user is online; and all
    /// games are replayed to the connection.
    pub open spec fn subscribed(&self, user_id: UserId, name: Seq<char>, now: u64, id: u64, out: Seq<DeliveryView>, after: Server) -> bool {
        let news = ResponseView::User { user_id, name, online: true };
        &&& id == self.next_sub
        &&& after.next_sub == (if self.next_sub == u64::MAX { 0 } else { self.next_sub + 1 })
        &&& after.games == self.games
        &&& exists|mid: Seq<(UserId, ServerUser)>, told: Seq<(UserId, ServerUser)>|
            {
                &&& #[trigger] plugged(self.users@, mid, user_id, name, id, now)
                &&& #[trigger] told.len() == mid.len()
                &&& if announced(self.users@, user_id, name) {
                    &&& offered_to_all(mid, told, news)
                    &&& out == snapshot(self.users@, id) + all_deliveries(mid, news) + replays(self.games@, user_id, id)
                } else {
                    &&& told == mid
                    &&& out == snapshot(self.users@, id) + replays(self.games@, user_id, id)
                }
                &&& user_at(mid, user_id).is_some()
                &&& replay_done(told, after.users@, user_at(mid, user_id).unwrap(), game_ids(self.games@))
            }
    }

    /// Opens a connection for the user `user_id`, who comes with the name
    /// `name`. The answer is the name of the connection and what is to be sent:
    /// to the new connection and, where the user is announced, to all.
    pub fn subscribe(&mut self, user_id: UserId, name: String, now: u64) -> (r: (u64, Vec<Delivery>))
        requires
            old(self).wf(),
        ensures
            final(self).wf(),
            old(self).subscribed(user_id, name@, now, r.0, views(r.1@), *final(self)),
    {
        let id: u64 = self.next_sub;
        self.next_sub = if id == u64::MAX { 0 } else { id + 1 };
        let mut out: Vec<Delivery> = snapshot_for(&self.users, id);
        let ghost before = self.users@;
        let (ui, announce): (usize, bool) = plug(&mut self.users, user_id, &name, id, now);
        let ghost mid = self.users@;
        if announce {
            let response: Response = Response::User { user_id, user: User { name, online: true } };
            let ghost first = views(out@);
            broadcast(&mut self.users, &response, &mut out);
            proof {
                let news = ResponseView::User { user_id, name: name@, online: true };
                assert(subs_after(sub_views(mid[ui as int].1.subs@), news).last() == sub_views(mid[ui as int].1.subs@).last().after(news));
                assert(sub_views(self.users@[ui as int].1.subs@).last() == self.users@[ui as int].1.subs@.last()@);
                assert(sub_views(mid[ui as int].1.subs@).last() == mid[ui as int].1.subs@.last()@);
                assert(sub_views(self.users@[ui as int].1.subs@).len() == sub_views(mid[ui as int].1.subs@).len());
                assert(views(out@) == first + all_deliveries(mid, news));
            }
        }
        let ghost told = self.users@;
        let ghost second = views(out@);
        proof {
            assert forall|a: int, b: int| 0 <= a < b < told.len() implies told[a].0 != told[b].0 by {
                assert(told[a].0 == mid[a].0);
                assert(told[b].0 == mid[b].0);
            }
        }
        replay_to(&mut self.users, &self.games, ui, user_id, id, &mut out);
        proof {
            assert forall|a: int, b: int| 0 <= a < b < self.users@.len() implies self.users@[a].0 != self.users@[b].0 by {
                assert(self.users@[a].0 == told[a].0);
                assert(self.users@[b].0 == told[b].0);
            }
            if announce {
                let news = ResponseView::User { user_id, name: name@, online: true };
                assert(views(out@) =~= snapshot(before, id) + all_deliveries(mid, news) + replays(self.games@, user_id, id));
            } else {
                assert(views(out@) =~= snapshot(before, id) + replays(self.games@, user_id, id));
            }
            assert(plugged(before, mid, user_id, name@, id, now));
            assert(told.len() == mid.len());
        }
        (id, out)
    }

    /// Forgets the games that were last played longer ago than `max_age`, or
    /// longer ago than `complete_age` without being in play; then the users
    /// who have had no connection for `user_idle_age` and have no seat in a
    /// game that is left.
    /// All connections are told of each game and of each user that is
    /// forgotten.
    pub fn forget_old_state(&mut self, now: u64, max_age: u64, complete_age: u64, user_idle_age: u64) -> (out: Vec<Delivery>)
        requires
            old(self).wf(),
        ensures
            final(self).wf(),
            final(self).next_sub == old(self).next_sub,
            final(self).games@ == kept_games(old(self).games@, now, max_age, complete_age),
            final(self).users@ == kept_users(old(self).users@, final(self).games@, now, user_idle_age),
            views(out@) == many_deliveries(old(self).users@, forgotten_games(old(self).games@, now, max_age, complete_age))
                + many_deliveries(final(self).users@, forgotten_users(old(self).users@, final(self).games@, now, user_idle_age)),
    {
        let mut out: Vec<Delivery> = Vec::new();
        let ghost all_games = self.games@;
        let ghost all_users = self.users@;
        let mut kept: usize = 0;
        let ghost mut seen: int = 0;
        proof {
            assert(all_games.subrange(0, 0) =~= Seq::<GameEntry>::empty());
            assert(self.games@ =~= kept_games(all_games.subrange(0, 0), now, max_age, complete_age) + all_games.subrange(
                0,
                all_games.len() as int,
            ));
            assert(views(out@) =~= Seq::<DeliveryView>::empty());
        }
        while kept < self.games.len()
            invariant
                0 <= seen <= all_games.len(),
                kept == kept_games(all_games.subrange(0, seen), now, max_age, complete_age).len(),
                self.games@ == kept_games(all_games.subrange(0, seen), now, max_age, complete_age) + all_games.subrange(
                    seen,
                    all_games.len() as int,
                ),
                self.users@ == all_users,
                self.next_sub == old(self).next_sub,
                views(out@) == many_deliveries(all_users, forgotten_games(all_games.subrange(0, seen), now, max_age, complete_age)),
            decreases all_games.len() - seen,
        {
            proof {
                let prefix = all_games.subrange(0, seen + 1);
                assert(prefix.drop_last() =~= all_games.subrange(0, seen));
                assert(prefix.last() == all_games[seen]);
                assert(self.games@[kept as int] == all_games[seen]);
            }
            let entry: &GameEntry = &self.games[kept];
            let elapsed: u64 = if now >= entry.last_update { now - entry.last_update } else { 0 };
            let drop: bool = elapsed > max_age || (elapsed > complete_age && !entry.game.active());
            if drop {
                let gone: GameEntry = self.games.remove(kept);
                let response: Response = Response::ForgetGame { game_id: gone.id };
                tell_all(&self.users, &response, &mut out);
                proof {
                    assert(self.games@ =~= kept_games(all_games.subrange(0, seen + 1), now, max_age, complete_age)
                        + all_games.subrange(seen + 1, all_games.len() as int));
                    assert(forgotten_games(all_games.subrange(0, seen + 1), now, max_age, complete_age).drop_last()
                        =~= forgotten_games(all_games.subrange(0, seen), now, max_age, complete_age));
                }
            } else {
                kept = kept + 1;
                proof {
                    assert(self.games@ =~= kept_games(all_games.subrange(0, seen + 1), now, max_age, complete_age)
                        + all_games.subrange(seen + 1, all_games.len() as int));
                }
            }
            proof {
                seen = seen + 1;
            }
        }
        proof {
            assert(seen == all_games.len()) by {
                assert(self.games@.len() == kept + (all_games.len() - seen));
            }
            assert(all_games.subrange(0, seen) =~= all_games);
            assert(self.games@ =~= kept_games(all_games, now, max_age, complete_age));
            lemma_kept_games(all_games, now, max_age, complete_age);
            let games = self.games@;
            assert forall|i: int| 0 <= i < games.len() implies (#[trigger] games[i]).game.wf() by {
                let n = choose|n: int| 0 <= n < all_games.len() && all_games[n] == games[i];
                assert(all_games[n].game.wf());
            }
            assert forall|a: int, b: int| 0 <= a < b < games.len() implies games[a].id != games[b].id by {
                let (m, n) = choose|m: int, n: int| 0 <= m < n < all_games.len() && all_games[m] == games[a] && all_games[n] == games[b];
                assert(all_games[m].id != all_games[n].id);
            }
        }
        let ghost games_left = self.games@;
        let ghost first = views(out@);
        let mut forgotten: Vec<UserId> = Vec::new();
        let mut stay: usize = 0;
        let ghost mut looked: int = 0;
        proof {
            assert(all_users.subrange(0, 0) =~= Seq::<(UserId, ServerUser)>::empty());
            assert(self.users@ =~= kept_users(all_users.subrange(0, 0), games_left, now, user_idle_age) + all_users.subrange(
                0,
                all_users.len() as int,
            ));
        }
        while stay < self.users.len()
            invariant
                0 <= looked <= all_users.len(),
                stay == kept_users(all_users.subrange(0, looked), games_left, now, user_idle_age).len(),
                self.users@ == kept_users(all_users.subrange(0, looked), games_left, now, user_idle_age) + all_users.subrange(
                    looked,
                    all_users.len() as int,
                ),
                self.games@ == games_left,
                self.next_sub == old(self).next_sub,
                forall|i: int| 0 <= i < games_left.len() ==> (#[trigger] games_left[i]).game.players@.len() <= 256,
                views(out@) == first,
                forgotten@.map_values(|u: UserId| ResponseView::ForgetUser { user_id: u }) == forgotten_users(
                    all_users.subrange(0, looked),
                    games_left,
                    now,
                    user_idle_age,
                ),
            decreases all_users.len() - looked,
        {
            proof {
                let prefix = all_users.subrange(0, looked + 1);
                assert(prefix.drop_last() =~= all_users.subrange(0, looked));
                assert(prefix.last() == all_users[looked]);
                assert(self.users@[stay as int] == all_users[looked]);
            }
            let user: &(UserId, ServerUser) = &self.users[stay];
            let elapsed: u64 = if now >= user.1.last_active { now - user.1.last_active } else { 0 };
            let drop: bool = subs_slice(&user.1.subs).len() == 0 && elapsed >= user_idle_age && !self.has_player(user.0);
            if drop {
                let gone: (UserId, ServerUser) = self.users.remove(stay);
                let ghost before = forgotten@;
                forgotten.push(gone.0);
                proof {
                    assert(self.users@ =~= kept_users(all_users.subrange(0, looked + 1), games_left, now, user_idle_age)
                        + all_users.subrange(looked + 1, all_users.len() as int));
                    assert(forgotten@.map_values(|u: UserId| ResponseView::ForgetUser { user_id: u }) =~= before.map_values(
                        |u: UserId| ResponseView::ForgetUser { user_id: u },
                    ).push(ResponseView::ForgetUser { user_id: gone.0 }));
                }
            } else {
                stay = stay + 1;
                proof {
                    assert(self.users@ =~= kept_users(all_users.subrange(0, looked + 1), games_left, now, user_idle_age)
                        + all_users.subrange(looked + 1, all_users.len() as int));
                }
            }
            proof {
                looked = looked + 1;
            }
        }
        proof {
            assert(looked == all_users.len()) by {
                assert(self.users@.len() == stay + (all_users.len() - looked));
            }
            assert(all_users.subrange(0, looked) =~= all_users);
            assert(self.users@ =~= kept_users(all_users, games_left, now, user_idle_age));
            lemma_kept_users(all_users, games_left, now, user_idle_age);
            let users = self.users@;
            assert forall|a: int, b: int| 0 <= a < b < users.len() implies users[a].0 != users[b].0 by {
                let (m, n) = choose|m: int, n: int| 0 <= m < n < all_users.len() && all_users[m] == users[a] && all_users[n] == users[b];
                assert(all_users[m].0 != all_users[n].0);
            }
        }
        let ghost news = forgotten@.map_values(|u: UserId| ResponseView::ForgetUser { user_id: u });
        let mut k: usize = 0;
        proof {
            assert(news.subrange(0, 0) =~= Seq::<ResponseView>::empty());
            assert(first + Seq::<DeliveryView>::empty() =~= first);
        }
        while k < forgotten.len()
            invariant
                k <= forgotten@.len(),
                news == forgotten@.map_values(|u: UserId| ResponseView::ForgetUser { user_id: u }),
                views(out@) == first + many_deliveries(self.users@, news.subrange(0, k as int)),
            decreases forgotten.len() - k,
        {
            let response: Response = Response::ForgetUser { user_id: forgotten[k] };
            let ghost had = views(out@);
            proof {
                let prefix = news.subrange(0, k as int + 1);
                assert(prefix.drop_last() =~= news.subrange(0, k as int));
                assert(prefix.last() == response@);
            }
            tell_all(&self.users, &response, &mut out);
            k = k + 1;
            proof {
                assert(views(out@) =~= first + many_deliveries(self.users@, news.subrange(0, k as int)));
            }
        }
        proof {
            assert(news.subrange(0, k as int) =~= news);
        }
        out
    }

    /// Whether `user` has a seat in one of the games.
    pub fn has_player(&self, user: UserId) -> (b: bool)
        requires
            forall|i: int| 0 <= i < self.games@.len() ==> (#[trigger] self.games@[i]).game.players@.len() <= 256,
        ensures
            b == plays_in(self.games@, user),
    {
        let mut i: usize = 0;
        while i < self.games.len()
            invariant
                i <= self.games@.len(),
                forall|k: int| 0 <= k < self.games@.len() ==> (#[trigger] self.games@[k]).game.players@.len() <= 256,
                forall|k: int| 0 <= k < i ==> !(#[trigger] self.games@[k]).game.players@.contains(user),
            decreases self.games.len() - i,
        {
            if self.games[i].game.player(user).is_ok() {
                assert(self.games@[i as int].game.players@.contains(user));
                return true;
            }
            i = i + 1;
        }
        false
    }

    /// Offers a sign of life to every connection.
    pub fn ping_subscribers(&mut self) -> (out: Vec<Delivery>)
        requires
            old(self).wf(),
        ensures
            final(self).wf(),
            final(self).games == old(self).games,
            final(self).next_sub == old(self).next_sub,
            offered_to_all(old(self).users@, final(self).users@, ResponseView::Ping),
            views(out@) == all_deliveries(old(self).users@, ResponseView::Ping),
    {
        let mut out: Vec<Delivery> = Vec::new();
        broadcast(&mut self.users, &Response::Ping, &mut out);
        proof {
            assert(views(Seq::<Delivery>::empty()) =~= Seq::<DeliveryView>::empty());
            assert(Seq::<DeliveryView>::empty() + all_deliveries(old(self).users@, ResponseView::Ping) =~= all_deliveries(
                old(self).users@,
                ResponseView::Ping,
            ));
        }
        out
    }
}

} // verus!
