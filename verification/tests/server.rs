use goat::server::{Delivery, Server};
use goat::{
    bot_action, Action, AdaptSimple, Card, Cards, Client, ClientGame, ClientPhase, ClientWarHand,
    CoverSimple, DuckSimple, Event, GameId, GoatError, PlayTopSimple, PlayerIdx, RandId, Response,
    RummyHistory, ServerGame, ServerPhase, Strategy, Subscriber, User, UserId,
};

fn user(n: u8) -> UserId {
    let mut hash = [0u8; 16];
    hash[0] = n;
    UserId(RandId::from_hash(&hash))
}

fn game(n: u8) -> GameId {
    let mut hash = [0u8; 16];
    hash[1] = n;
    GameId(RandId::from_hash(&hash))
}

fn said(name: &str, id: UserId, online: bool) -> Response {
    Response::User {
        user_id: id,
        user: User {
            name: name.to_string(),
            online,
        },
    }
}

fn to(out: &[Delivery], sub: u64) -> Vec<Response> {
    out.iter()
        .filter(|d| d.to == sub)
        .map(|d| d.response.clone())
        .collect()
}

#[test]
fn subscribe_tells_of_users_and_games() {
    let mut server = Server::new();
    let (watcher, out) = server.subscribe(user(1), "watcher".to_string(), 10);
    assert_eq!(to(&out, watcher), vec![said("watcher", user(1), true)]);
    assert_eq!(out.len(), 1);

    let (second, out) = server.subscribe(user(2), "cover".to_string(), 11);
    assert_ne!(second, watcher);
    // The new connection learns of the watcher, and both learn of the new user.
    assert_eq!(
        to(&out, second),
        vec![said("watcher", user(1), true), said("cover", user(2), true)]
    );
    assert_eq!(to(&out, watcher), vec![said("cover", user(2), true)]);

    // A second connection of a user who is online under the same name is not announced.
    let (third, out) = server.subscribe(user(2), "cover".to_string(), 12);
    assert_eq!(
        to(&out, third),
        vec![said("watcher", user(1), true), said("cover", user(2), true)]
    );
    assert_eq!(out.len(), 2);

    let out = server.new_game_with(game(1), 7, 20);
    let replay = Response::Replay {
        game_id: game(1),
        events: vec![],
    };
    assert_eq!(to(&out, watcher), vec![replay.clone()]);
    assert_eq!(to(&out, second), vec![replay.clone()]);
    assert_eq!(to(&out, third), vec![replay.clone()]);
    assert_eq!(out.len(), 3);

    let out = server
        .apply_action(user(1), game(1), Action::Join { user_id: user(2) }, 21)
        .unwrap();
    let joined = Response::Game {
        game_id: game(1),
        event: Event::Join { user_id: user(2) },
    };
    assert_eq!(out.len(), 3);
    assert_eq!(to(&out, third), vec![joined.clone()]);

    // Joining again adds nothing to the log, and nothing is sent.
    let out = server
        .apply_action(user(1), game(1), Action::Join { user_id: user(2) }, 22)
        .unwrap();
    assert!(out.is_empty());

    // A late subscriber gets the log of the game in its replay.
    let (late, out) = server.subscribe(user(3), "late".to_string(), 23);
    assert_eq!(
        to(&out, late),
        vec![
            said("watcher", user(1), true),
            said("cover", user(2), true),
            said("late", user(3), true),
            Response::Replay {
                game_id: game(1),
                events: vec![Event::Join { user_id: user(2) }],
            },
        ]
    );
    assert!(server.check_all());
}

#[test]
fn unknown_game_is_refused() {
    let mut server = Server::new();
    assert_eq!(
        server
            .apply_action(user(1), game(9), Action::Draw, 1)
            .unwrap_err(),
        GoatError::InvalidGame { game_id: game(9) }
    );
    let (id, _) = server.new_game(3, 1);
    assert!(server.game(id).is_some());
    assert_eq!(
        server
            .apply_action(user(1), id, Action::Draw, 1)
            .unwrap_err(),
        GoatError::InvalidPlayer { user_id: user(1) }
    );
}

#[test]
fn change_name_and_disconnect() {
    let mut server = Server::new();
    let (a, _) = server.subscribe(user(1), "ann".to_string(), 0);
    let (b, _) = server.subscribe(user(2), "bob".to_string(), 0);
    // A new name is told to all; the same name to nobody.
    let out = server.change_name(user(2), "rob".to_string(), 1);
    assert_eq!(to(&out, a), vec![said("rob", user(2), true)]);
    assert_eq!(to(&out, b), vec![said("rob", user(2), true)]);
    assert!(server.change_name(user(2), "rob".to_string(), 2).is_empty());
    // A user who is not known yet is told of as offline.
    let out = server.change_name(user(3), "cat".to_string(), 3);
    assert_eq!(to(&out, a), vec![said("cat", user(3), false)]);
    // When the last connection of a user goes, the others learn that the user is offline.
    let out = server.disconnect(b, 4);
    assert_eq!(out.len(), 1);
    assert_eq!(to(&out, a), vec![said("rob", user(2), false)]);
    assert!(server.disconnect(b, 5).is_empty());
    let out = server.ping_subscribers();
    assert_eq!(out.len(), 1);
    assert_eq!(to(&out, a), vec![Response::Ping]);
}

#[test]
fn old_state_is_forgotten() {
    let mut server = Server::new();
    let (a, _) = server.subscribe(user(1), "ann".to_string(), 0);
    server.change_name(user(5), "idle".to_string(), 0);
    server.new_game_with(game(1), 1, 0);
    server.new_game_with(game(2), 2, 100);
    server.new_game_with(game(3), 3, 0);
    for n in 1..=3 {
        server.change_name(user(10 + n), format!("player {}", n), 0);
        server
            .apply_action(user(1), game(3), Action::Join { user_id: user(10 + n) }, 0)
            .unwrap();
    }
    server
        .apply_action(user(1), game(3), Action::Start { num_decks: 1 }, 50)
        .unwrap();
    // At time 150: game 1 was made 150 ago and is not in play; game 2 was made 50
    // ago; game 3 is in play and was played 100 ago.
    let out = server.forget_old_state(150, 1000, 120, 100);
    assert!(server.game(game(1)).is_none());
    assert!(server.game(game(2)).is_some());
    assert!(server.game(game(3)).is_some());
    assert_eq!(
        to(&out, a),
        vec![
            Response::ForgetGame { game_id: game(1) },
            Response::ForgetUser { user_id: user(5) },
        ]
    );
    // The players of game 3 have no connection, but a seat: they stay.
    assert!(server.users.iter().any(|(id, _)| *id == user(11)));
    // A game in play goes when it is older than the greater age.
    let out = server.forget_old_state(2000, 1000, 120, 100);
    assert!(server.game(game(3)).is_none());
    assert!(server.game(game(2)).is_none());
    assert_eq!(
        to(&out, a),
        vec![
            Response::ForgetGame { game_id: game(2) },
            Response::ForgetGame { game_id: game(3) },
            Response::ForgetUser { user_id: user(11) },
            Response::ForgetUser { user_id: user(12) },
            Response::ForgetUser { user_id: user(13) },
        ]
    );
    assert_eq!(server.users.len(), 1);
    // A change of name counts as activity: who was renamed at 100 is not idle for
    // 100 at 150.
    let mut named = Server::new();
    named.change_name(user(7), "old".to_string(), 0);
    named.change_name(user(7), "new".to_string(), 100);
    named.forget_old_state(150, 1000, 1000, 100);
    assert!(named.users.iter().any(|(id, _)| *id == user(7)));
    named.forget_old_state(200, 1000, 1000, 100);
    assert!(named.users.is_empty());
    // A game whose age is just the limit stays: one at war at the greater age,
    // one that has not started at the lesser.
    let mut edge = Server::new();
    edge.new_game_with(game(1), 1, 0);
    edge.new_game_with(game(2), 2, 0);
    for n in 1..=3 {
        edge.apply_action(user(1), game(2), Action::Join { user_id: user(10 + n) }, 0).unwrap();
    }
    edge.apply_action(user(1), game(2), Action::Start { num_decks: 1 }, 0).unwrap();
    edge.forget_old_state(100, 100, 100, 1000);
    assert!(edge.game(game(1)).is_some());
    assert!(edge.game(game(2)).is_some());
    edge.forget_old_state(101, 200, 100, 1000);
    assert!(edge.game(game(1)).is_none());
    assert!(edge.game(game(2)).is_some());
    edge.forget_old_state(200, 200, 100, 1000);
    assert!(edge.game(game(2)).is_some());
    edge.forget_old_state(201, 200, 100, 1000);
    assert!(edge.game(game(2)).is_none());
}

#[test]
fn subscriber_waits_for_the_replay() {
    let mut sub = Subscriber::new(4);
    let news = Response::Game {
        game_id: game(1),
        event: Event::PickUp,
    };
    assert!(sub.send(&Response::Ping));
    assert!(!sub.send(&news));
    assert!(!sub.takes_game(game(1)));
    assert!(sub.send(&Response::Replay {
        game_id: game(1),
        events: vec![],
    }));
    assert!(sub.send(&news));
    assert!(!sub.takes_game(game(2)));
    sub.finish_replay();
    assert!(sub.takes_game(game(2)));
    assert!(Subscriber::disconnected(5).takes_game(game(2)));
    assert_eq!(sub.id(), 4);
}

#[test]
fn draws_are_redacted_for_the_others() {
    let mut server = Server::new();
    let (a, _) = server.subscribe(user(1), "a".to_string(), 0);
    let (b, _) = server.subscribe(user(2), "b".to_string(), 0);
    let (w, _) = server.subscribe(user(9), "watcher".to_string(), 0);
    server.new_game_with(game(1), 5, 0);
    for n in 1..=3 {
        server
            .apply_action(user(9), game(1), Action::Join { user_id: user(n) }, 0)
            .unwrap();
    }
    server
        .apply_action(user(9), game(1), Action::Start { num_decks: 1 }, 0)
        .unwrap();
    let out = server.apply_action(user(2), game(1), Action::Draw, 1).unwrap();
    let card = match to(&out, b).pop().unwrap() {
        Response::Game {
            event: Event::Draw { player, card },
            ..
        } => {
            assert_eq!(player, PlayerIdx(1));
            card
        }
        other => panic!("{:?}", other),
    };
    assert_eq!(
        to(&out, a),
        vec![Response::Game {
            game_id: game(1),
            event: Event::RedactedDraw {
                player: PlayerIdx(1)
            },
        }]
    );
    // Who has no seat sees the card.
    assert_eq!(
        to(&out, w),
        vec![Response::Game {
            game_id: game(1),
            event: Event::Draw {
                player: PlayerIdx(1),
                card
            },
        }]
    );
    assert_eq!(
        Event::OfferDreck {
            player: PlayerIdx(0),
            dreck: Cards::from_str("32C 5H").unwrap()
        }
        .redact(Some(PlayerIdx(2))),
        Event::RedactedOfferDreck {
            player: PlayerIdx(0),
            dreck: 3
        }
    );
    assert_eq!(
        Event::ReceiveDreck {
            player: PlayerIdx(0),
            dreck: Cards::from_str("32C 5H").unwrap()
        }
        .redact(Some(PlayerIdx(0))),
        Event::ReceiveDreck {
            player: PlayerIdx(0),
            dreck: Cards::from_str("32C 5H").unwrap()
        }
    );
    assert_eq!(
        Event::PlayTop {
            card: Card::TwoClubs
        }
        .redact(Some(PlayerIdx(0))),
        Event::PlayTop {
            card: Card::TwoClubs
        }
    );
}

/// A bot at a table: a user with one connection, a mirror of what it was sent,
/// and a way to play.
struct Seat {
    user: UserId,
    sub: u64,
    client: Client<(), (), Cards>,
    kind: usize,
}

fn act(seat: &Seat, game_id: GameId) -> Option<Action> {
    match seat.kind {
        0 => bot_action(&seat.client, seat.user, game_id, &CoverSimple, 5),
        1 => bot_action(&seat.client, seat.user, game_id, &DuckSimple, 5),
        2 => bot_action(&seat.client, seat.user, game_id, &PlayTopSimple, 5),
        _ => bot_action(&seat.client, seat.user, game_id, &AdaptSimple, 5),
    }
}

/// Whether the mirror `theirs` holds of the game `held` what a receiver at
/// seat `seat`, or one without a seat, may know: the players, the phase, the
/// trick and the turn; its own hand card by card; of another hand the number
/// of cards, and the cards that were shown.
fn follows<Hist: RummyHistory>(held: &ServerGame, theirs: &ClientGame<(), Hist>, seat: Option<usize>) -> bool {
    if theirs.players != held.players {
        return false;
    }
    match (&held.phase, &theirs.phase) {
        (ServerPhase::Unstarted, ClientPhase::Unstarted) => true,
        (ServerPhase::War(s), ClientPhase::War(c)) => {
            let hands = (0..s.hands.len()).all(|i| match c.hands[i] {
                ClientWarHand::Visible(hand) => {
                    hand == s.hands[i] && (seat.is_none() || seat == Some(i) || hand.cards().is_empty())
                }
                ClientWarHand::Hidden(n) => seat.is_some() && seat != Some(i) && n as usize == s.hands[i].cards().len(),
            });
            hands
                && c.hands.len() == s.hands.len()
                && c.deck.0 as usize + 1 == s.deck.len()
                && c.won == s.won
                && c.trick.plays() == s.trick.plays()
                && c.trick.next_player() == s.trick.next_player()
                && c.trick.rank() == s.trick.rank()
                && c.trick.winner() == s.trick.winner()
                && c.trick.end_mask() == s.trick.end_mask()
        }
        (ServerPhase::Rummy(s), ClientPhase::Rummy(c)) => {
            let hands = (0..s.hands.len()).all(|i| {
                let hand = c.hands[i];
                if seat.is_none() || seat == Some(i) {
                    hand.known == s.hands[i] && hand.unknown == 0
                } else {
                    s.hands[i].contains_all(hand.known) && hand.known.len() + hand.unknown as usize == s.hands[i].len()
                }
            });
            hands
                && c.hands.len() == s.hands.len()
                && c.trick.plays() == s.trick.plays()
                && c.trick.num_players() == s.trick.num_players()
                && c.next == s.next
                && c.trump == s.trump
                && c.pick_ups == s.pick_ups
        }
        (ServerPhase::Goat(s), ClientPhase::Goat(c)) => s == c,
        _ => false,
    }
}

fn deliver(seats: &mut [Seat], watcher: &mut Client<Vec<(UserId, User)>, (), ()>, watcher_sub: u64, out: Vec<Delivery>) {
    for delivery in out {
        if delivery.to == watcher_sub {
            watcher.apply(delivery.response).unwrap();
        } else {
            let seat = seats.iter_mut().find(|s| s.sub == delivery.to).unwrap();
            seat.client.apply(delivery.response).unwrap();
        }
    }
}

fn play_game(seed: u64, players: usize, decks: u8) -> PlayerIdx {
    let mut server = Server::new();
    let (watcher_sub, first) = server.subscribe(user(200), "watcher".to_string(), 0);
    let mut watcher: Client<Vec<(UserId, User)>, (), ()> = Client::new(Vec::new());
    let mut seats: Vec<Seat> = Vec::new();
    deliver(&mut seats, &mut watcher, watcher_sub, first);
    for n in 0..players {
        let id = user(n as u8 + 1);
        let (sub, out) = server.subscribe(id, format!("bot {}", n), 0);
        seats.push(Seat {
            user: id,
            sub,
            client: Client::new(()),
            kind: n % 4,
        });
        deliver(&mut seats, &mut watcher, watcher_sub, out);
    }
    let (game_id, out) = server.new_game(seed, 0);
    deliver(&mut seats, &mut watcher, watcher_sub, out);
    for n in 0..players {
        let out = server
            .apply_action(user(200), game_id, Action::Join { user_id: user(n as u8 + 1) }, 0)
            .unwrap();
        deliver(&mut seats, &mut watcher, watcher_sub, out);
    }
    let out = server
        .apply_action(user(200), game_id, Action::Start { num_decks: decks }, 0)
        .unwrap();
    deliver(&mut seats, &mut watcher, watcher_sub, out);
    for _ in 0..100_000 {
        let mut acted = false;
        for n in 0..players {
            if let Some(action) = act(&seats[n], game_id) {
                let who = seats[n].user;
                match server.apply_action(who, game_id, action, 1) {
                    Ok(out) => {
                        deliver(&mut seats, &mut watcher, watcher_sub, out);
                        acted = true;
                        // After each action every mirror holds what its receiver may know.
                        let held = server.game(game_id).unwrap();
                        for (i, seat) in seats.iter().enumerate() {
                            assert!(
                                follows(held, seat.client.game(game_id).unwrap(), Some(i)),
                                "seed {}: seat {} lost the game after {:?}",
                                seed,
                                i,
                                action
                            );
                        }
                        assert!(follows(held, watcher.game(game_id).unwrap(), None));
                    }
                    Err(e) => panic!(
                        "seed {} players {} decks {}: seat {} tried {:?}: {:?}",
                        seed, players, decks, n, action, e
                    ),
                }
                assert!(server.check_all());
            }
        }
        if !acted {
            break;
        }
    }
    let held = server.game(game_id).unwrap();
    let goat = match &held.phase {
        ServerPhase::Goat(goat) => goat.goat,
        other => panic!("seed {}: the game stopped in {:?}", seed, other),
    };
    // The goat has made its noise, and every mirror agrees on the goat.
    assert!(matches!(held.events.last(), Some(Event::Goat { noise }) if *noise < 5));
    for seat in seats.iter() {
        match &seat.client.game(game_id).unwrap().phase {
            ClientPhase::Goat(g) => assert_eq!(g.goat, goat),
            _ => panic!("a bot has no goat"),
        }
    }
    // Who watched without a seat saw every card: its mirror is that of the whole log.
    let mut replayed: ClientGame<(), ()> = ClientGame::new();
    for event in held.events.iter() {
        replayed.apply(*event).unwrap();
    }
    match (&watcher.game(game_id).unwrap().phase, &replayed.phase) {
        (ClientPhase::Goat(a), ClientPhase::Goat(b)) => {
            assert_eq!(a, b);
            assert_eq!(a.goat, goat);
        }
        _ => panic!("the watcher has no goat"),
    }
    assert_eq!(watcher.game(game_id).unwrap().players, held.players);
    assert_eq!(watcher.users.len(), players + 1);
    goat
}

#[test]
fn test_bots() {
    for seed in 0..40u64 {
        let players = 3 + (seed % 4) as usize;
        let decks = 1 + (seed % 3) as u8;
        let goat = play_game(seed, players, decks);
        assert!((goat.0 as usize) < players);
    }
}
