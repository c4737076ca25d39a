use goat::{
    Action, Card, Cards, ClientGame, ClientPhase, Event, GoatError, PlayerIdx, RandId, ServerGame,
    ServerPhase, Strategy, PlayTopSimple, UserId,
};

fn user(n: u8) -> UserId {
    let mut hash = [0u8; 16];
    hash[0] = n;
    UserId(RandId::from_hash(&hash))
}

fn card(text: &str) -> Card {
    Card::from_str(text).unwrap()
}

/// A table of bots around one server game: each bot mirrors the game from the
/// events that it may see, and acts on what it sees.
struct Table {
    server: ServerGame,
    users: Vec<UserId>,
    bots: Vec<ClientGame<(), Cards>>,
    watcher: ClientGame<(), ()>,
}

impl Table {
    fn new(seed: u64, seats: u8, decks: u8) -> Table {
        let mut table = Table {
            server: ServerGame::new(seed),
            users: (1..=seats).map(user).collect(),
            bots: (0..seats).map(|_| ClientGame::new()).collect(),
            watcher: ClientGame::new(),
        };
        for i in 0..seats as usize {
            let joiner = table.users[i];
            table.apply(user(200), Action::Join { user_id: joiner }).unwrap();
        }
        table.apply(user(200), Action::Start { num_decks: decks }).unwrap();
        table
    }

    fn apply(&mut self, who: UserId, action: Action) -> Result<(), GoatError> {
        let before = self.server.events.len();
        assert!(self.server.check());
        self.server.apply(who, action)?;
        assert!(self.server.check());
        let events: Vec<Event> = self.server.events[before..].to_vec();
        assert!(!events.is_empty() || matches!(action, Action::Join { .. }));
        for event in events {
            for (seat, bot) in self.bots.iter_mut().enumerate() {
                assert!(bot.check());
                bot.apply(event.redact(Some(PlayerIdx(seat as u8)))).unwrap();
            }
            self.watcher.apply(event.redact(None)).unwrap();
        }
        Ok(())
    }

    fn decide(&self, seat: usize) -> Option<Action> {
        let idx = PlayerIdx(seat as u8);
        match &self.bots[seat].phase {
            ClientPhase::Unstarted => None,
            ClientPhase::War(war) => PlayTopSimple.war(idx, war),
            ClientPhase::Rummy(rummy) => {
                if rummy.next == idx {
                    Some(PlayTopSimple.rummy(rummy))
                } else {
                    None
                }
            }
            ClientPhase::Goat(_) => None,
        }
    }

    /// Lets the bots act in turns until none of them has anything to do.
    fn run(&mut self, limit: usize) {
        for _ in 0..limit {
            let mut acted = false;
            for seat in 0..self.bots.len() {
                if let Some(action) = self.decide(seat) {
                    let who = self.users[seat];
                    self.apply(who, action).unwrap();
                    acted = true;
                }
            }
            if !acted {
                return;
            }
        }
        panic!("the game did not end");
    }
}

#[test]
fn test_play_top_deterministic() {
    let mut table = Table::new(1, 3, 1);
    table.run(10_000);
    let log: Vec<Event> = table
        .server
        .events
        .iter()
        .filter(|e| !matches!(e, Event::FinishTrick { .. }))
        .cloned()
        .collect();
    let mut expected: Vec<Event> = vec![
        Event::Join { user_id: user(1) },
        Event::Join { user_id: user(2) },
        Event::Join { user_id: user(3) },
        Event::Start { num_decks: 1 },
    ];
    let tops = [
        ["KS", "3S", "TH"],
        ["JC", "9D", "QC"],
        ["TC", "QS", "KC"],
        ["JD", "AS", "8H"],
        ["4D", "6C", "TS"],
        ["9C", "4C", "4H"],
        ["3H", "3D", "8C"],
        ["6S", "AH", "7H"],
        ["8S", "QD", "9H"],
        ["3C", "4S", "QH"],
        ["7C", "2D", "8D"],
        ["AC", "JH", "7S"],
        ["5H", "5S", "6D"],
        ["KH", "2H", "9S"],
        ["2C", "7D", "JS"],
        ["5D", "KD", "TD"],
        ["6H", "2S", "AD"],
    ];
    for trick in tops.iter() {
        for top in trick.iter() {
            expected.push(Event::PlayTop { card: card(top) });
        }
    }
    expected.push(Event::RevealTrump {
        trump: Card::FiveClubs,
    });
    let runs: [Option<(&str, &str)>; 35] = [
        Some(("2S", "2S")),
        Some(("5S", "5S")),
        Some(("7S", "7S")),
        Some(("3S", "3S")),
        Some(("4S", "4S")),
        Some(("8S", "9S")),
        Some(("2H", "2H")),
        Some(("3H", "3H")),
        Some(("4H", "4H")),
        Some(("6H", "7H")),
        Some(("8H", "9H")),
        Some(("TH", "JH")),
        Some(("2D", "3D")),
        Some(("4D", "4D")),
        Some(("5D", "6D")),
        Some(("5H", "5H")),
        Some(("7C", "7C")),
        Some(("9C", "9C")),
        Some(("6S", "6S")),
        Some(("AS", "AS")),
        Some(("8C", "8C")),
        Some(("KS", "KS")),
        Some(("2C", "2C")),
        Some(("JC", "JC")),
        Some(("KH", "KH")),
        Some(("AC", "AC")),
        None,
        None,
        Some(("8D", "8D")),
        Some(("AD", "AD")),
        Some(("QC", "QC")),
        Some(("9D", "KD")),
        Some(("3C", "3C")),
        Some(("TS", "QS")),
        Some(("AC", "AC")),
    ];
    for run in runs.iter() {
        expected.push(match run {
            Some((lo, hi)) => Event::PlayRun {
                lo: card(lo),
                hi: card(hi),
            },
            None => Event::PickUp,
        });
    }
    assert!(log.len() >= expected.len());
    for (i, (got, want)) in log.iter().zip(expected.iter()).enumerate() {
        assert_eq!(got, want, "event {}", i);
    }
    assert_eq!(
        table
            .server
            .events
            .iter()
            .filter(|e| matches!(e, Event::FinishTrick { .. }))
            .count(),
        17 * 3
    );
    // The game has run to its end: one seat alone holds cards, and it is the goat.
    let goat = match &table.server.phase {
        ServerPhase::Goat(goat) => goat.goat,
        _ => panic!("the game has no goat"),
    };
    for bot in table.bots.iter() {
        match &bot.phase {
            ClientPhase::Goat(g) => assert_eq!(g.goat, goat),
            _ => panic!("a bot has no goat"),
        }
    }
    match &table.watcher.phase {
        ClientPhase::Goat(g) => assert_eq!(g.goat, goat),
        _ => panic!("the watcher has no goat"),
    }
    assert!(!table.server.active());
    assert_eq!(
        table.apply(table.users[(goat.0 as usize + 1) % 3], Action::Goat { noise: 3 }),
        Err(GoatError::NoFreeShows)
    );
    assert_eq!(table.apply(table.users[goat.0 as usize], Action::Goat { noise: 3 }), Ok(()));
    assert_eq!(table.server.events.last(), Some(&Event::Goat { noise: 3 }));
}
