use goat::dreck::{deal_dreck, dreck_cards};
use goat::strategy::{best_action, checked_run, rummy_random_with, rummy_simulate_for, Tally};
use goat::{
    rummy_random, rummy_simple, simulate_once, war_play_top, Action, Card, Cards, ClientDeck,
    ClientGame, ClientPhase, ClientRummyHand, ClientWarHand, Deck, Event, GoatError, GoatPhase,
    LastAction, OneAction, PlayerIdx, RandId, Rank, RummyHand, RummyHistory, RummyPhase,
    ServerGame, ServerPhase, ServerWarHand, Slot, Suit, User, UserDb, UserId, WarHand,
    WarPlayKind, WarTrick,
};
use rand::rngs::StdRng;
use rand::seq::SliceRandom;
use rand::SeedableRng;
use sha2::{Digest, Sha256};

fn user(n: u8) -> UserId {
    let mut hash = [0u8; 16];
    hash[0] = n;
    UserId(RandId::from_hash(&hash))
}

fn c(text: &str) -> Cards {
    Cards::from_str(text).unwrap()
}

fn hand_of(cards: &[Card]) -> ServerWarHand {
    let mut hand = ServerWarHand::new();
    for card in cards {
        hand.add_card(*card);
    }
    hand
}

fn started(seed: u64, players: u8, decks: u8) -> ServerGame {
    let mut game = ServerGame::new(seed);
    for n in 1..=players {
        game.apply(user(n), Action::Join { user_id: user(n) }).unwrap();
    }
    game.apply(user(1), Action::Start { num_decks: decks }).unwrap();
    game
}

#[test]
fn lobby_rules() {
    let mut game = ServerGame::new(9);
    assert_eq!(game.seed, 9);
    assert!(!game.active());
    assert_eq!(game.apply(user(1), Action::Start { num_decks: 1 }), Err(GoatError::InvalidNumberOfPlayers));
    for n in 1..=4 {
        assert_eq!(game.apply(user(99), Action::Join { user_id: user(n) }), Ok(()));
    }
    // Joining twice changes nothing.
    assert_eq!(game.apply(user(99), Action::Join { user_id: user(2) }), Ok(()));
    assert_eq!(game.players, vec![user(1), user(2), user(3), user(4)]);
    assert_eq!(game.events.len(), 4);
    assert_eq!(game.player(user(3)), Ok(PlayerIdx(2)));
    assert_eq!(game.player(user(7)), Err(GoatError::InvalidPlayer { user_id: user(7) }));
    // The last player takes the seat of the one who leaves.
    assert_eq!(game.apply(user(1), Action::Leave { player: PlayerIdx(0) }), Ok(()));
    assert_eq!(game.players, vec![user(4), user(2), user(3)]);
    assert_eq!(game.events.last(), Some(&Event::Leave { player: PlayerIdx(0) }));
    assert_eq!(game.apply(user(1), Action::Leave { player: PlayerIdx(3) }), Err(GoatError::InvalidAction));
    assert_eq!(game.apply(user(2), Action::Start { num_decks: 0 }), Err(GoatError::InvalidNumberOfDecks));
    assert_eq!(game.apply(user(2), Action::Start { num_decks: 4 }), Err(GoatError::InvalidNumberOfDecks));
    assert_eq!(game.apply(user(2), Action::PlayTop), Err(GoatError::InvalidAction));
    assert_eq!(game.apply(user(2), Action::PickUp), Err(GoatError::InvalidAction));
    assert_eq!(game.apply(user(2), Action::Goat { noise: 1 }), Err(GoatError::InvalidAction));
    assert_eq!(game.apply(user(9), Action::Draw), Err(GoatError::InvalidPlayer { user_id: user(9) }));
    assert_eq!(game.events.len(), 5);
    assert_eq!(game.apply(user(2), Action::Start { num_decks: 2 }), Ok(()));
    assert!(game.active());
    match &game.phase {
        ServerPhase::War(war) => {
            assert_eq!(war.deck.len(), 104);
            assert_eq!(war.deck.cards_remaining(), 103);
            assert_eq!(Cards::from_iter(war.deck[..52].to_vec()).len(), 52);
            let mut sorted = war.deck.clone();
            sorted.sort();
            assert_eq!(sorted, (Cards::one_deck() * 2).cards().collect_ascending());
            assert_ne!(war.deck, sorted);
            assert_eq!(war.hands.len(), 3);
            assert!(war.hands.iter().all(|h| h.is_empty()));
            assert_eq!(war.won, vec![Cards::none(); 3]);
            assert_eq!(war.trick.next_player(), Some(PlayerIdx(0)));
        }
        _ => panic!("no war"),
    }
    assert_eq!(game.apply(user(9), Action::Join { user_id: user(9) }), Err(GoatError::InvalidAction));
    assert_eq!(game.apply(user(2), Action::Leave { player: PlayerIdx(0) }), Err(GoatError::InvalidAction));
    assert_eq!(game.apply(user(2), Action::Start { num_decks: 1 }), Err(GoatError::InvalidAction));
}

#[test]
fn war_rules() {
    let mut game = started(1, 3, 1);
    assert_eq!(game.apply(user(1), Action::FinishTrick), Err(GoatError::CannotFinishSloughingIncompleteTrick));
    assert_eq!(game.apply(user(2), Action::PlayTop), Err(GoatError::NotYourTurn { player: PlayerIdx(1) }));
    assert_eq!(game.apply(user(1), Action::PlayRun { lo: Card::TwoClubs, hi: Card::TwoClubs }), Err(GoatError::InvalidAction));
    // The top of a deck shuffled with seed 1 is the king of spades.
    assert_eq!(game.apply(user(2), Action::Draw), Ok(()));
    assert_eq!(game.events.last(), Some(&Event::Draw { player: PlayerIdx(1), card: Card::KingSpades }));
    assert_eq!(game.apply(user(2), Action::Draw), Ok(()));
    assert_eq!(game.apply(user(2), Action::Draw), Ok(()));
    assert_eq!(game.apply(user(2), Action::Draw), Err(GoatError::CannotDrawMoreThanThreeCards));
    assert_eq!(
        game.apply(user(1), Action::PlayCard { card: Card::KingSpades }),
        Err(GoatError::NotYourCard { card: Card::KingSpades })
    );
    assert_eq!(
        game.apply(user(2), Action::Slough { card: Card::KingSpades }),
        Err(GoatError::IllegalSlough { card: Card::KingSpades })
    );
    assert_eq!(
        game.apply(user(2), Action::Slough { card: Card::TwoClubs }),
        Err(GoatError::NotYourCard { card: Card::TwoClubs })
    );
    let before = game.events.len();
    assert_eq!(game.apply(user(1), Action::PlayTop), Ok(()));
    assert_eq!(game.events.len(), before + 1);
    let led = match game.events.last() {
        Some(Event::PlayTop { card }) => *card,
        other => panic!("{:?}", other),
    };
    assert_eq!(led, Card::JackClubs);
    assert_eq!(game.apply(user(2), Action::PlayCard { card: Card::KingSpades }), Ok(()));
    assert_eq!(game.events.last(), Some(&Event::PlayCard { card: Card::KingSpades }));
    match &game.phase {
        ServerPhase::War(war) => {
            assert_eq!(war.hands[1].cards(), vec![Card::ThreeSpades, Card::TenHearts]);
            assert_eq!(war.trick.rank(), Some(Rank::King));
            assert_eq!(war.deck.len(), 48);
            assert!(!war.is_finished());
        }
        _ => panic!("no war"),
    }
}

#[test]
fn trick_rules() {
    let mut trick = WarTrick::new(PlayerIdx(0), 3);
    let hand = hand_of(&[Card::FiveClubs, Card::NineDiamonds]);
    assert_eq!(trick.check_can_play(PlayerIdx(0), &hand, Card::NineDiamonds), Ok(()));
    assert_eq!(
        trick.check_can_play(PlayerIdx(1), &hand, Card::NineDiamonds),
        Err(GoatError::NotYourTurn { player: PlayerIdx(1) })
    );
    assert_eq!(
        trick.check_can_play(PlayerIdx(0), &hand, Card::TenDiamonds),
        Err(GoatError::NotYourCard { card: Card::TenDiamonds })
    );
    trick.play(WarPlayKind::PlayHand, Card::FiveHearts);
    assert_eq!(
        trick.check_can_play(PlayerIdx(1), &hand, Card::NineDiamonds),
        Err(GoatError::MustMatchRank { rank: Rank::Five })
    );
    assert_eq!(trick.check_can_play(PlayerIdx(1), &hand, Card::FiveClubs), Ok(()));
    assert_eq!(
        trick.check_can_play_top(PlayerIdx(1), &hand),
        Err(GoatError::MustMatchRank { rank: Rank::Five })
    );
    assert_eq!(trick.check_can_play_top(PlayerIdx(1), &hand_of(&[Card::NineDiamonds])), Ok(()));
    assert_eq!(
        trick.check_can_play_top(PlayerIdx(2), &hand_of(&[])),
        Err(GoatError::NotYourTurn { player: PlayerIdx(2) })
    );
    // The one who led the five may discard another five; the others still have to play.
    assert_eq!(trick.check_can_slough(PlayerIdx(0), &hand, Card::FiveClubs), Ok(()));
    assert_eq!(
        trick.check_can_slough(PlayerIdx(1), &hand, Card::FiveClubs),
        Err(GoatError::IllegalSlough { card: Card::FiveClubs })
    );
    assert_eq!(
        trick.check_can_slough(PlayerIdx(0), &hand, Card::NineDiamonds),
        Err(GoatError::IllegalSlough { card: Card::NineDiamonds })
    );
    trick.end(PlayerIdx(0));
    assert_eq!(
        trick.check_can_slough(PlayerIdx(0), &hand, Card::FiveClubs),
        Err(GoatError::CannotSloughOnEndedTrick)
    );
    trick.slough(PlayerIdx(2), Card::FiveSpades);
    assert_eq!(trick.plays().len(), 2);
    assert_eq!(trick.plays()[1].kind(), WarPlayKind::Slough);
    assert!(!trick.is_empty());
    assert!(trick.is_remaining(PlayerIdx(1)));
    assert!(!trick.is_remaining(PlayerIdx(0)));
    assert!(trick.has_played_rank(Rank::Five));
    assert!(!trick.has_played_rank(Rank::Six));
    let copy = trick.clone();
    assert_eq!(copy.cards(), trick.cards());
    assert_eq!(copy.end_mask(), 0b110);
    // A trick of sixteen seats has a bit for each.
    assert_eq!(WarTrick::new(PlayerIdx(15), 16).end_mask(), 0xffff);
    assert_eq!(
        WarTrick::new(PlayerIdx(2), 4).remaining_players(),
        vec![PlayerIdx(2), PlayerIdx(3), PlayerIdx(0), PlayerIdx(1)]
    );
}

fn rummy(hands: &[&str], next: u8, trump: Card) -> RummyPhase<Cards, ()> {
    RummyPhase::new(hands.iter().map(|h| c(h)).collect(), PlayerIdx(next), trump)
}

#[test]
fn rummy_rules() {
    let mut phase = rummy(&["987C 2D", "TC AD 3S", "JC 4H"], 0, Card::FiveSpades);
    assert_eq!(phase.trick.num_players(), 3);
    assert!(phase.check());
    assert_eq!(phase.pick_up(PlayerIdx(0)), Err(GoatError::CannotPickUpFromEmptyTrick));
    assert_eq!(
        phase.play_run(PlayerIdx(1), Card::TenClubs, Card::TenClubs),
        Err(GoatError::NotYourTurn { player: PlayerIdx(1) })
    );
    assert_eq!(
        phase.play_run(PlayerIdx(0), Card::NineClubs, Card::SevenClubs),
        Err(GoatError::InvalidRange { lo: Card::NineClubs, hi: Card::SevenClubs })
    );
    assert_eq!(
        phase.play_run(PlayerIdx(0), Card::SevenClubs, Card::SevenDiamonds),
        Err(GoatError::InvalidRange { lo: Card::SevenClubs, hi: Card::SevenDiamonds })
    );
    assert_eq!(
        phase.play_run(PlayerIdx(0), Card::SixClubs, Card::TenClubs),
        Err(GoatError::NotYourCard { card: Card::SixClubs })
    );
    assert_eq!(phase.play_run(PlayerIdx(0), Card::SevenClubs, Card::NineClubs), Ok(()));
    assert_eq!(phase.hands[0], c("2D"));
    assert_eq!(phase.next, PlayerIdx(1));
    assert_eq!(
        phase.play_run(PlayerIdx(1), Card::AceDiamonds, Card::AceDiamonds),
        Err(GoatError::CannotPlayRange { lo: Card::AceDiamonds })
    );
    // A trump beats what is no trump.
    assert_eq!(phase.play_run(PlayerIdx(1), Card::ThreeSpades, Card::ThreeSpades), Ok(()));
    assert_eq!(
        phase.play_run(PlayerIdx(2), Card::JackClubs, Card::JackClubs),
        Err(GoatError::CannotPlayRange { lo: Card::JackClubs })
    );
    // The pick-up takes the first run, and the trump stays in the trick.
    assert_eq!(phase.pick_up(PlayerIdx(2)), Ok(false));
    assert_eq!(phase.hands[2], c("JC 987C 4H"));
    assert_eq!(phase.trick.plays(), &[(Card::ThreeSpades, Card::ThreeSpades)]);
    assert_eq!(phase.next, PlayerIdx(0));
    assert!(!phase.is_finished());
    assert_eq!(phase.holding(), 3);
    assert!(!phase.finished_receiving_dreck());
}

#[test]
fn rummy_ends_with_one_hand() {
    let mut game = ServerGame::new(1);
    game.players = vec![user(1), user(2), user(3)];
    game.phase = ServerPhase::Rummy(rummy(&["7C", "", "8C 2D"], 0, Card::FiveSpades));
    assert!(game.check());
    assert_eq!(game.apply(user(1), Action::PlayRun { lo: Card::SevenClubs, hi: Card::SevenClubs }), Ok(()));
    // Seat 2 alone holds cards now: it is the goat.
    assert_eq!(game.phase_goat(), Some(GoatPhase::new(PlayerIdx(2))));
    assert_eq!(game.apply(user(1), Action::Goat { noise: 0 }), Err(GoatError::NoFreeShows));
    assert_eq!(game.apply(user(3), Action::Goat { noise: 4 }), Ok(()));
    assert_eq!(game.phase_goat(), Some(GoatPhase { goat: PlayerIdx(2), noise: Some(4) }));
}

#[test]
fn ten_pick_ups_make_a_goat() {
    // Seat 0 has picked up ten times and seat 1 nine times since a trick was filled.
    let mut phase = rummy(&["AC 2D", "KC"], 0, Card::FiveSpades);
    phase.play_run(PlayerIdx(0), Card::AceClubs, Card::AceClubs).unwrap();
    phase.pick_ups = 10 | (9 << 4);
    assert_eq!(phase.pick_up(PlayerIdx(1)), Ok(true));
    assert_eq!(phase.pick_ups, 10 | (10 << 4));
    assert_eq!(phase.hands[1], c("AKC"));
    let mut other = rummy(&["AC 2D", "KC"], 0, Card::FiveSpades);
    other.play_run(PlayerIdx(0), Card::AceClubs, Card::AceClubs).unwrap();
    other.pick_ups = 3 | (9 << 4);
    assert_eq!(other.pick_up(PlayerIdx(1)), Ok(false));
    assert_eq!(other.pick_ups, 3 | (10 << 4));
    assert_eq!(other.next, PlayerIdx(0));
    other.play_run(PlayerIdx(0), Card::TwoDiamonds, Card::TwoDiamonds).unwrap();
    // Seat 0 has no cards left: the phase is over, and the turn is with seat 1.
    assert!(other.is_finished());
    assert_eq!(other.next, PlayerIdx(1));
    // A play that fills the trick clears the counts.
    let mut filled = rummy(&["2D 9S", "3D 9H"], 0, Card::FiveSpades);
    filled.pick_ups = 7;
    filled.play_run(PlayerIdx(0), Card::TwoDiamonds, Card::TwoDiamonds).unwrap();
    assert_eq!(filled.pick_ups, 7);
    filled.play_run(PlayerIdx(1), Card::ThreeDiamonds, Card::ThreeDiamonds).unwrap();
    assert_eq!(filled.pick_ups, 0);
    assert!(filled.trick.is_empty());
    assert_eq!(filled.next, PlayerIdx(1));
}

#[test]
fn dreck_goes_to_the_short_hand() {
    let mut phase = rummy(&["AKQJT9C 32D", "AKQJT9H 5S 6C", "2C 6S"], 1, Card::FiveSpades);
    let mut events = Vec::new();
    assert_eq!(phase.distribute_dreck(&mut events, 7), Ok(()));
    assert_eq!(dreck_cards(Card::FiveSpades), c("5432S 5432H 5432D 5432C") + Card::SixSpades);
    assert_eq!(
        events,
        vec![
            Event::OfferDreck { player: PlayerIdx(0), dreck: c("32D") },
            Event::OfferDreck { player: PlayerIdx(1), dreck: c("5S") },
            Event::OfferDreck { player: PlayerIdx(2), dreck: c("2C 6S") },
            Event::ReceiveDreck { player: PlayerIdx(2), dreck: c("32D 65S 2C") },
        ]
    );
    assert_eq!(phase.hands, vec![c("AKQJT9C"), c("AKQJT9H 6C"), c("32D 65S 2C")]);
    assert_eq!(phase.next, PlayerIdx(1));
    // Nothing happens where no hand is short.
    let mut full = rummy(&["AKQJT9C 32D", "AKQJT9H 5S"], 0, Card::FiveSpades);
    let mut none = Vec::new();
    assert_eq!(full.distribute_dreck(&mut none, 7), Ok(()));
    assert!(none.is_empty());
    assert_eq!(full.hands, vec![c("AKQJT9C 32D"), c("AKQJT9H 5S")]);
}

#[test]
fn dreck_is_dealt_as_the_seed_says() {
    let hands = ["AKQ 5432C", "AK 5432D 22H", "4H", "", "AKQJT9S 33H"];
    for seed in 0..20u64 {
        let mut phase = rummy(&hands, 0, Card::SevenHearts);
        let mut events = Vec::new();
        assert_eq!(phase.distribute_dreck(&mut events, seed), Ok(()));
        // What the generator of the seed makes of the short seats and the dreck.
        let mut seats = vec![PlayerIdx(2), PlayerIdx(3)];
        let pot = c("5432C 5432D 22H 4H 33H");
        let mut cards = pot.cards().collect_ascending();
        let mut rng = StdRng::seed_from_u64(seed ^ 1);
        seats.shuffle(&mut rng);
        cards.shuffle(&mut rng);
        let mut expected = vec![
            Event::OfferDreck { player: PlayerIdx(0), dreck: c("5432C") },
            Event::OfferDreck { player: PlayerIdx(1), dreck: c("5432D 22H") },
            Event::OfferDreck { player: PlayerIdx(2), dreck: c("4H") },
            Event::OfferDreck { player: PlayerIdx(4), dreck: c("33H") },
        ];
        let mut kept = vec![c("AKQC"), c("AKD"), c(""), c(""), c("AKQJT9S")];
        let shares = [6usize, 7];
        let mut at = 0;
        for (seat, share) in seats.iter().zip(shares.iter()) {
            let dreck = Cards::from_iter(cards[at..at + share].to_vec());
            at += share;
            kept[seat.idx()] = kept[seat.idx()] + dreck;
            expected.push(Event::ReceiveDreck { player: *seat, dreck });
        }
        assert_eq!(events, expected, "seed {}", seed);
        assert_eq!(phase.hands, kept);
        assert_eq!(phase.hands.iter().map(|h| h.len()).sum::<usize>(), 24);
        assert_eq!(phase.trick.num_players(), phase.holding());
        assert!(!phase.hands[phase.next.idx()].is_empty());
        let dealt = deal_dreck(&vec![c("AKQC"), c("AKD"), c(""), c(""), c("AKQJT9S")], &seats, &cards).unwrap();
        assert_eq!(dealt.0, kept);
    }
    // The seats are not always dealt to in their order.
    let orders: Vec<Vec<Event>> = (0..20u64)
        .map(|seed| {
            let mut phase = rummy(&hands, 0, Card::SevenHearts);
            let mut events = Vec::new();
            phase.distribute_dreck(&mut events, seed).unwrap();
            events
        })
        .collect();
    assert!(orders.iter().any(|e| e != &orders[0]));
}

#[test]
fn client_counts_what_it_does_not_see() {
    let mut game: ClientGame<Option<WarTrick>, OneAction> = ClientGame::new();
    for n in 1..=3 {
        game.apply(Event::Join { user_id: user(n) }).unwrap();
    }
    assert_eq!(game.apply(Event::Draw { player: PlayerIdx(0), card: Card::TwoClubs }), Err(GoatError::InvalidAction));
    game.apply(Event::Start { num_decks: 1 }).unwrap();
    assert_eq!(game.apply(Event::Start { num_decks: 1 }), Err(GoatError::InvalidAction));
    game.apply(Event::Draw { player: PlayerIdx(0), card: Card::TwoClubs }).unwrap();
    game.apply(Event::RedactedDraw { player: PlayerIdx(1) }).unwrap();
    game.apply(Event::RedactedDraw { player: PlayerIdx(1) }).unwrap();
    assert_eq!(
        game.apply(Event::Draw { player: PlayerIdx(1), card: Card::TwoClubs }),
        Err(GoatError::CannotDrawMoreThanThreeCards)
    );
    assert_eq!(game.apply(Event::RedactedDraw { player: PlayerIdx(0) }), Err(GoatError::CannotDrawMoreThanThreeCards));
    assert_eq!(game.apply(Event::RedactedDraw { player: PlayerIdx(7) }), Err(GoatError::InvalidAction));
    match &game.phase {
        ClientPhase::War(war) => {
            assert_eq!(war.deck, ClientDeck(48));
            assert_eq!(war.hands[0], ClientWarHand::Visible(hand_of(&[Card::TwoClubs])));
            assert_eq!(war.hands[1], ClientWarHand::Hidden(2));
            assert_eq!(war.hands[1].len(), 2);
            assert_eq!(war.hands[2].len(), 0);
        }
        _ => panic!("no war"),
    }
    assert_eq!(
        game.apply(Event::PlayCard { card: Card::NineClubs }),
        Err(GoatError::NotYourCard { card: Card::NineClubs })
    );
    game.apply(Event::PlayCard { card: Card::TwoClubs }).unwrap();
    game.apply(Event::PlayCard { card: Card::NineClubs }).unwrap();
    game.apply(Event::PlayTop { card: Card::ThreeClubs }).unwrap();
    for n in 0..3 {
        game.apply(Event::FinishTrick { player: PlayerIdx(n) }).unwrap();
    }
    match &game.phase {
        ClientPhase::War(war) => {
            assert_eq!(war.won[1], c("932C"));
            assert_eq!(war.hands[1], ClientWarHand::Hidden(1));
            assert_eq!(war.trick.next_player(), Some(PlayerIdx(1)));
            assert_eq!(war.prev_trick.get().map(|t| t.cards()), Some(vec![Card::TwoClubs, Card::NineClubs, Card::ThreeClubs]));
        }
        _ => panic!("no war"),
    }
    game.apply(Event::RevealTrump { trump: Card::FiveSpades }).unwrap();
    match &game.phase {
        ClientPhase::Rummy(rummy) => {
            assert_eq!(rummy.hands[1], ClientRummyHand { known: c("932C"), unknown: 1 });
            assert_eq!(rummy.hands[0], ClientRummyHand { known: c(""), unknown: 0 });
            assert_eq!(rummy.next, PlayerIdx(1));
            assert_eq!(rummy.trump, Card::FiveSpades);
        }
        _ => panic!("no rummy"),
    }
    // The player gives up three cards of dreck, of which the client has seen two.
    game.apply(Event::RedactedOfferDreck { player: PlayerIdx(1), dreck: 3 }).unwrap();
    game.apply(Event::RedactedReceiveDreck { player: PlayerIdx(2), dreck: 3 }).unwrap();
    assert_eq!(
        game.apply(Event::RedactedOfferDreck { player: PlayerIdx(0), dreck: 1 }),
        Err(GoatError::InvalidAction)
    );
    assert_eq!(
        game.apply(Event::OfferDreck { player: PlayerIdx(0), dreck: c("2H") }),
        Err(GoatError::InvalidAction)
    );
    game.apply(Event::ReceiveDreck { player: PlayerIdx(0), dreck: c("2H") }).unwrap();
    match &game.phase {
        ClientPhase::Rummy(rummy) => {
            assert_eq!(rummy.hands[1], ClientRummyHand { known: c("9C"), unknown: 0 });
            assert_eq!(rummy.hands[2], ClientRummyHand { known: c(""), unknown: 3 });
            assert_eq!(rummy.hands[0], ClientRummyHand { known: c("2H"), unknown: 0 });
            assert_eq!(rummy.hands[2].len(), 3);
        }
        _ => panic!("no rummy"),
    }
    // A run of a hand that is not known comes out of what the client has not seen.
    game.apply(Event::PlayRun { lo: Card::NineClubs, hi: Card::NineClubs }).unwrap();
    game.apply(Event::PlayRun { lo: Card::TenClubs, hi: Card::JackClubs }).unwrap();
    match &game.phase {
        ClientPhase::Rummy(rummy) => {
            assert_eq!(rummy.hands[2], ClientRummyHand { known: c(""), unknown: 1 });
            // When the trump was revealed one hand alone held cards, so that the
            // first run filled the trick; the next trick is one of two players.
            assert_eq!(rummy.history.last_action(PlayerIdx(1)), LastAction::Kill { lo: Card::NineClubs, hi: Card::NineClubs });
            assert_eq!(rummy.history.last_action(PlayerIdx(2)), LastAction::Lead { lo: Card::TenClubs, hi: Card::JackClubs });
            assert_eq!(rummy.trick.num_players(), 2);
            assert_eq!(rummy.history.get(PlayerIdx(0)), LastAction::Nothing);
            assert_eq!(rummy.history.len(), 3);
        }
        _ => panic!("no rummy"),
    }
    assert_eq!(
        game.apply(Event::PlayRun { lo: Card::TenClubs, hi: Card::KingClubs }),
        Err(GoatError::NotYourCard { card: Card::TenClubs })
    );
    assert_eq!(game.apply(Event::Goat { noise: 1 }), Err(GoatError::InvalidAction));
}

#[test]
fn records_of_the_rummy() {
    let mut record = OneAction::new(2);
    record.kill(PlayerIdx(1), Card::TwoClubs, Card::ThreeClubs);
    record.lead(PlayerIdx(1), Card::FiveClubs, Card::FiveClubs);
    assert_eq!(
        record.last_action(PlayerIdx(1)),
        LastAction::KillAndLead {
            kill_lo: Card::TwoClubs,
            kill_hi: Card::ThreeClubs,
            lead_lo: Card::FiveClubs,
            lead_hi: Card::FiveClubs
        }
    );
    record.play(PlayerIdx(0), Card::SixClubs, Card::SixClubs);
    assert_eq!(record.last_action(PlayerIdx(0)), LastAction::Play { lo: Card::SixClubs, hi: Card::SixClubs });
    record.pick_up(PlayerIdx(0), Card::SixClubs, Card::SixClubs);
    assert_eq!(record.last_action(PlayerIdx(0)), LastAction::PickUp { lo: Card::SixClubs, hi: Card::SixClubs });
    record.pick_up(PlayerIdx(5), Card::SixClubs, Card::SixClubs);
    assert_eq!(record.get(PlayerIdx(5)), LastAction::Nothing);
    let mut played = <Cards as RummyHistory>::new(3);
    played.lead(PlayerIdx(0), Card::TwoClubs, Card::FourClubs);
    played.play(PlayerIdx(1), Card::FiveClubs, Card::FiveClubs);
    played.kill(PlayerIdx(2), Card::SixClubs, Card::SixClubs);
    played.pick_up(PlayerIdx(0), Card::TwoClubs, Card::ThreeClubs);
    assert_eq!(played, c("654C"));
}

#[test]
fn places_for_one_value() {
    let mut kept: Option<u8> = None;
    assert_eq!(Slot::<u8>::get(&kept), None);
    Slot::set(&mut kept, 3u8);
    assert_eq!(Slot::<u8>::get(&kept), Some(&3));
    let mut dropped = ();
    Slot::set(&mut dropped, 3u8);
    assert_eq!(Slot::<u8>::get(&dropped), None);
    let mut users: Vec<(UserId, User)> = Vec::new();
    UserDb::insert(&mut users, user(1), User { name: "a".to_string(), online: true });
    UserDb::insert(&mut users, user(2), User { name: "b".to_string(), online: false });
    UserDb::remove(&mut users, &user(1));
    assert_eq!(users, vec![(user(2), User { name: "b".to_string(), online: false })]);
}

#[test]
fn user_ids_come_from_secrets() {
    let digest = Sha256::digest(b"abc");
    assert_eq!(digest[0], 0xba);
    assert_eq!(UserId::from_secret("abc"), UserId(RandId::from_hash(&digest)));
    assert_ne!(UserId::from_secret("abc"), UserId::from_secret("abd"));
    let mut padded = [0u8; 16];
    padded[..3].copy_from_slice(b"abc");
    assert_ne!(UserId::from_secret("abc"), UserId(RandId::from_hash(&padded)));
    let ids: Vec<RandId> = (0..20).map(|_| RandId::random()).collect();
    assert!(ids.iter().any(|id| *id != ids[0]));
}

#[test]
fn hands_of_the_client() {
    let mut hand = ClientWarHand::new();
    assert!(hand.can_add_hidden(2));
    hand.add_hidden(2);
    assert_eq!(hand, ClientWarHand::Hidden(2));
    assert!(!hand.can_add(Card::TwoClubs));
    assert!(hand.can_remove(Card::TwoClubs));
    hand.remove_card(Card::TwoClubs);
    hand.remove_card(Card::ThreeClubs);
    assert!(hand.can_add(Card::TwoClubs));
    hand.add_card(Card::TwoClubs);
    assert_eq!(hand, ClientWarHand::Visible(hand_of(&[Card::TwoClubs])));
    assert_eq!(
        hand.merge_into_rummy_hand(c("3C")),
        ClientRummyHand { known: c("32C"), unknown: 0 }
    );
    assert_eq!(
        ClientWarHand::Hidden(2).merge_into_rummy_hand(c("3C")),
        ClientRummyHand { known: c("3C"), unknown: 2 }
    );
    let mut rummy = ClientRummyHand { known: c("32C"), unknown: 2 };
    assert!(!rummy.is_empty());
    assert_eq!(rummy.check_can_play(Card::TwoClubs, Card::FiveClubs), Ok(()));
    assert_eq!(
        rummy.check_can_play(Card::TwoClubs, Card::SixClubs),
        Err(GoatError::NotYourCard { card: Card::TwoClubs })
    );
    rummy.remove_cards(c("5432C"));
    assert_eq!(rummy, ClientRummyHand { known: c(""), unknown: 0 });
    assert!(rummy.is_empty());
    assert_eq!(c("32C").check_can_play(Card::TwoClubs, Card::FourClubs), Err(GoatError::NotYourCard { card: Card::FourClubs }));
    assert_eq!(Suit::Hearts.char(), 'H');
}

fn bot_rummy(hands: &[&str], next: u8, trump: Card) -> RummyPhase<ClientRummyHand, Cards> {
    RummyPhase::new(
        hands.iter().map(|h| ClientRummyHand { known: c(h), unknown: 0 }).collect(),
        PlayerIdx(next),
        trump,
    )
}

#[test]
fn strategies_play_what_the_hand_allows() {
    let mut phase = bot_rummy(&["987C 2D KS", "TC AD 3S", "JC 4H"], 0, Card::FiveSpades);
    // With an empty trick the plays are, run by run, the lowest card and the whole
    // run; the trumps are not led while other cards are there.
    assert_eq!(rummy_random_with(&phase, 0), Action::PlayRun { lo: Card::SevenClubs, hi: Card::SevenClubs });
    assert_eq!(rummy_random_with(&phase, 1), Action::PlayRun { lo: Card::SevenClubs, hi: Card::NineClubs });
    assert_eq!(rummy_random_with(&phase, 2), Action::PlayRun { lo: Card::TwoDiamonds, hi: Card::TwoDiamonds });
    assert_eq!(rummy_random_with(&phase, 3), Action::PickUp);
    // Of two suits that weigh alike the later is led.
    assert_eq!(rummy_simple(&phase), Action::PlayRun { lo: Card::TwoDiamonds, hi: Card::TwoDiamonds });
    assert_eq!(checked_run(&phase, Card::SevenClubs, Card::TenClubs), Action::PickUp);
    for _ in 0..50 {
        match rummy_random(&phase) {
            Action::PlayRun { lo, hi } => assert!(c("987C 2D KS").contains_all(Cards::range(lo, hi))),
            other => panic!("{:?}", other),
        }
    }
    phase.play_run(PlayerIdx(0), Card::SevenClubs, Card::NineClubs).unwrap();
    assert_eq!(rummy_simple(&phase), Action::PlayRun { lo: Card::TenClubs, hi: Card::TenClubs });
    phase.play_run(PlayerIdx(1), Card::TenClubs, Card::TenClubs).unwrap();
    assert_eq!(phase.history, c("T987C"));
    assert_eq!(rummy_simple(&phase), Action::PlayRun { lo: Card::JackClubs, hi: Card::JackClubs });
    // A game played at random from here ends with a goat.
    let played = simulate_once(bot_rummy(&["987C 2D KS", "TC AD 3S", "JC 4H"], 0, Card::FiveSpades), Cards::none(), 10_000);
    let (first, goat) = played.unwrap();
    assert!(matches!(first, Action::PlayRun { .. }));
    assert!(goat.0 < 3);
    // The hands here do not make a whole deck, so that the simulation falls back
    // on the simple play.
    let fresh = bot_rummy(&["987C 2D KS", "TC AD 3S", "JC 4H"], 0, Card::FiveSpades);
    assert_eq!(rummy_simulate_for(&fresh, 20), rummy_simple(&fresh));
    assert_eq!(best_action(&vec![]), None);
    assert_eq!(
        best_action(&vec![
            Tally { action: Action::PickUp, losses: 5, games: 10 },
            Tally { action: Action::Draw, losses: 1, games: 10 },
            Tally { action: Action::PlayTop, losses: 1, games: 10 },
        ]),
        Some(Action::Draw)
    );
}

#[test]
fn simulation_plays_a_whole_deck() {
    // One deck: the trump, and fifty-one cards in three hands of seventeen.
    let deck = Cards::one_deck() - Card::FiveClubs;
    let cards = deck.cards().collect();
    let hands: Vec<ClientRummyHand> = (0..3)
        .map(|n| ClientRummyHand {
            known: if n == 0 { Cards::from_iter(cards[..17].to_vec()) } else { Cards::none() },
            unknown: if n == 0 { 0 } else { 17 },
        })
        .collect();
    let phase: RummyPhase<ClientRummyHand, Cards> = RummyPhase::new(hands, PlayerIdx(0), Card::FiveClubs);
    match rummy_simulate_for(&phase, 50) {
        Action::PlayRun { lo, hi } => assert!(phase.hands[0].known.contains_all(Cards::range(lo, hi))),
        other => panic!("{:?}", other),
    }
}

#[test]
fn the_war_ends_with_the_deck() {
    let mut game = started(1, 3, 1);
    let mut tricks = 0;
    loop {
        let (next, winner, left) = match &game.phase {
            ServerPhase::War(war) => (war.trick.next_player(), war.trick.winner(), war.deck.len()),
            _ => panic!("no war"),
        };
        if left == 1 && winner.is_some() {
            break;
        }
        match next {
            Some(p) => game.apply(user(p.0 + 1), Action::PlayTop).unwrap(),
            None => {
                for n in 1..=3 {
                    game.apply(user(n), Action::FinishTrick).unwrap();
                }
                tricks += 1;
            }
        }
    }
    assert_eq!(tricks, 16);
    // The trump is the last card of the deck, and it stays there.
    assert_eq!(game.apply(user(1), Action::Draw), Err(GoatError::CannotDrawFromEmptyDeck));
    assert_eq!(game.apply(user(1), Action::PlayTop), Err(GoatError::CannotPlayFromEmptyDeck));
    let mirror_says = {
        let mut client: ClientGame<(), Cards> = ClientGame::new();
        for event in game.events.iter() {
            client.apply(event.redact(Some(PlayerIdx(0)))).unwrap();
        }
        match &client.phase {
            ClientPhase::War(war) => war_play_top(PlayerIdx(0), war),
            _ => panic!("no war"),
        }
    };
    assert_eq!(mirror_says, Some(Action::FinishTrick));
    game.apply(user(1), Action::FinishTrick).unwrap();
    game.apply(user(2), Action::FinishTrick).unwrap();
    assert!(matches!(game.phase, ServerPhase::War(_)));
    game.apply(user(3), Action::FinishTrick).unwrap();
    match &game.phase {
        ServerPhase::Rummy(rummy) => {
            assert_eq!(rummy.trump, Card::FiveClubs);
            assert_eq!(rummy.hands.iter().map(|h| h.len()).sum::<usize>(), 51);
        }
        _ => panic!("no rummy"),
    }
    assert!(game.events.contains(&Event::RevealTrump { trump: Card::FiveClubs }));
}
