use goat::strategy::{deal_unknown, pick_card, simulate_step, Pick};
use goat::{
    war_cover, war_duck, war_play_top, Action, AdaptSimple, Card, Cards, Client, ClientDeck, ClientGame, GameId, Response,
    ClientRummyHand, ClientWarHand, CoverSimple, DuckSimple, GoatError, LastAction, OneAction,
    PlayTopSimple, PlayerIdx, RandId, Rank, RummyHistory, RummyPhase, ServerWarHand, Strategy,
    WarHand, WarPhase, WarPlayKind, WarTrick,
};

fn cards(text: &str) -> Cards {
    Cards::from_str(text).unwrap()
}

fn hand(held: &[Card]) -> ServerWarHand {
    let mut hand = ServerWarHand::new();
    for card in held {
        hand.add_card(*card);
    }
    hand
}

/// A war of three seats in which seat 0 leads, with the hand `own` for seat 1
/// and hidden hands for the others.
fn war(own: &[Card], left: u8) -> WarPhase<ClientDeck, ClientWarHand, ()> {
    WarPhase {
        deck: ClientDeck(left),
        hands: vec![ClientWarHand::Hidden(3), ClientWarHand::Visible(hand(own)), ClientWarHand::Hidden(3)],
        won: vec![Cards::none(), Cards::none(), Cards::none()],
        trick: WarTrick::new(PlayerIdx(0), 3),
        prev_trick: (),
    }
}

#[test]
fn a_hand_is_drawn_before_it_is_played() {
    let short = war(&[Card::NineClubs, Card::TwoHearts], 10);
    assert_eq!(war_duck(PlayerIdx(1), &short), Some(Action::Draw));
    assert_eq!(war_cover(PlayerIdx(1), &short), Some(Action::Draw));
    // With no card left to take, the player waits for the turn.
    let last = war(&[Card::NineClubs, Card::TwoHearts], 0);
    assert_eq!(war_duck(PlayerIdx(1), &last), None);
    // The hands of the others are hidden: nothing is played for them.
    assert_eq!(war_duck(PlayerIdx(0), &short), None);
    assert_eq!(war_cover(PlayerIdx(7), &short), None);
}

#[test]
fn ducking_and_covering_follow_the_rank() {
    let mut seen = war(&[Card::NineClubs, Card::TwoHearts, Card::KingSpades], 10);
    seen.trick.play(WarPlayKind::PlayHand, Card::TenDiamonds);
    // Who ducks plays the highest card below the rank, who covers the lowest above it.
    assert_eq!(war_duck(PlayerIdx(1), &seen), Some(Action::PlayCard { card: Card::NineClubs }));
    assert_eq!(war_cover(PlayerIdx(1), &seen), Some(Action::PlayCard { card: Card::KingSpades }));
    assert_eq!(war_play_top(PlayerIdx(1), &seen), Some(Action::PlayTop));
    assert_eq!(war_play_top(PlayerIdx(2), &seen), None);
    // A card of the rank must be played.
    let mut same = war(&[Card::NineClubs, Card::TenHearts, Card::KingSpades], 10);
    same.trick.play(WarPlayKind::PlayHand, Card::TenDiamonds);
    assert_eq!(war_duck(PlayerIdx(1), &same), Some(Action::PlayCard { card: Card::TenHearts }));
    assert_eq!(war_cover(PlayerIdx(1), &same), Some(Action::PlayCard { card: Card::TenHearts }));
    // Without a card on the side that is wanted, the top of the deck is played.
    let mut high = war(&[Card::JackClubs, Card::QueenHearts, Card::KingSpades], 10);
    high.trick.play(WarPlayKind::PlayHand, Card::TenDiamonds);
    assert_eq!(war_duck(PlayerIdx(1), &high), Some(Action::PlayTop));
    // And the lowest card once the deck is used up.
    let mut late = war(&[Card::JackClubs, Card::QueenHearts, Card::KingSpades], 0);
    late.trick.play(WarPlayKind::PlayHand, Card::TenDiamonds);
    assert_eq!(war_duck(PlayerIdx(1), &late), Some(Action::PlayCard { card: Card::JackClubs }));
}

#[test]
fn a_card_of_a_played_rank_is_discarded() {
    let mut seen = war(&[Card::NineClubs, Card::TenHearts, Card::ThreeSpades], 10);
    seen.trick.play(WarPlayKind::PlayHand, Card::NineDiamonds);
    seen.trick.play(WarPlayKind::PlayTop, Card::TwoDiamonds);
    seen.trick.play(WarPlayKind::PlayTop, Card::ThreeDiamonds);
    // Seat 1 has played and holds a nine, the rank of the trick, and a three,
    // which was played: who ducks sheds the high card, who covers the low one.
    assert_eq!(war_duck(PlayerIdx(1), &seen), Some(Action::Slough { card: Card::NineClubs }));
    assert_eq!(war_cover(PlayerIdx(1), &seen), Some(Action::Slough { card: Card::ThreeSpades }));
}

#[test]
fn the_trick_is_acknowledged_once() {
    let mut seen = war(&[Card::FourClubs, Card::FiveHearts, Card::SixSpades], 10);
    seen.trick.play(WarPlayKind::PlayHand, Card::NineDiamonds);
    seen.trick.play(WarPlayKind::PlayTop, Card::TwoDiamonds);
    seen.trick.play(WarPlayKind::PlayTop, Card::ThreeDiamonds);
    assert_eq!(war_duck(PlayerIdx(1), &seen), Some(Action::FinishTrick));
    assert_eq!(war_play_top(PlayerIdx(1), &seen), Some(Action::FinishTrick));
    seen.trick.end(PlayerIdx(1));
    assert_eq!(war_duck(PlayerIdx(1), &seen), None);
    assert_eq!(war_play_top(PlayerIdx(1), &seen), None);
}

#[test]
fn each_way_to_play_says_what_its_function_says() {
    let mut seen = war(&[Card::NineClubs, Card::TwoHearts, Card::KingSpades], 10);
    seen.trick.play(WarPlayKind::PlayHand, Card::TenDiamonds);
    let idx = PlayerIdx(1);
    assert_eq!(PlayTopSimple.war(idx, &seen), war_play_top(idx, &seen));
    assert_eq!(DuckSimple.war(idx, &seen), war_duck(idx, &seen));
    assert_eq!(CoverSimple.war(idx, &seen), war_cover(idx, &seen));
    // Among three players the adaptive way ducks.
    assert_eq!(AdaptSimple.war(idx, &seen), war_duck(idx, &seen));
    // A war without a pile for each hand is not well-formed: nothing is played in it.
    let mut broken = war(&[Card::NineClubs], 10);
    broken.won.pop();
    assert_eq!(DuckSimple.war(idx, &broken), None);
    assert_eq!(AdaptSimple.war(idx, &broken), None);
    let rummy: RummyPhase<ClientRummyHand, Cards> = RummyPhase::new(
        vec![
            ClientRummyHand { known: cards("987C 2D KS"), unknown: 0 },
            ClientRummyHand { known: cards("TC AD 3S"), unknown: 0 },
        ],
        PlayerIdx(0),
        Card::FiveSpades,
    );
    let simple = Action::PlayRun { lo: Card::TwoDiamonds, hi: Card::TwoDiamonds };
    assert_eq!(PlayTopSimple.rummy(&rummy), simple);
    assert_eq!(DuckSimple.rummy(&rummy), simple);
    assert_eq!(CoverSimple.rummy(&rummy), simple);
    assert_eq!(AdaptSimple.rummy(&rummy), simple);
}

#[test]
fn a_pick_falls_on_one_card() {
    let held = hand(&[Card::NineClubs, Card::TwoHearts, Card::NineSpades]);
    assert_eq!(pick_card(&held, Pick::Of(Rank::Nine)), Some(Card::NineClubs));
    assert_eq!(pick_card(&held, Pick::Lowest), Some(Card::TwoHearts));
    // Of two cards of the highest rank the last is taken.
    assert_eq!(pick_card(&held, Pick::Highest), Some(Card::NineSpades));
    assert_eq!(pick_card(&held, Pick::LowestAbove(Rank::Two)), Some(Card::NineClubs));
    assert_eq!(pick_card(&held, Pick::HighestBelow(Rank::Nine)), Some(Card::TwoHearts));
    assert_eq!(pick_card(&held, Pick::LowestAbove(Rank::Nine)), None);
}

#[test]
fn unknown_cards_are_dealt_off_the_front() {
    let mut game: RummyPhase<ClientRummyHand, Cards> = RummyPhase::new(
        vec![
            ClientRummyHand { known: cards("9C"), unknown: 2 },
            ClientRummyHand { known: cards("999H"), unknown: 1 },
            ClientRummyHand { known: Cards::none(), unknown: 3 },
        ],
        PlayerIdx(1),
        Card::FiveSpades,
    );
    let dealt = vec![Card::TwoClubs, Card::ThreeClubs, Card::NineHearts, Card::FourClubs, Card::FiveClubs];
    deal_unknown(&mut game, &dealt);
    assert_eq!(game.hands[0], ClientRummyHand { known: cards("932C"), unknown: 0 });
    // A fourth nine of hearts cannot be held: the card is passed over.
    assert_eq!(game.hands[1], ClientRummyHand { known: cards("999H"), unknown: 0 });
    // The last hand gets what is left.
    assert_eq!(game.hands[2], ClientRummyHand { known: cards("54C"), unknown: 0 });
    assert_eq!(game.next, PlayerIdx(1));
    assert_eq!(game.trump, Card::FiveSpades);
}

#[test]
fn a_step_of_a_simulated_game() {
    let mut game: RummyPhase<ClientRummyHand, Cards> = RummyPhase::new(
        vec![
            ClientRummyHand { known: cards("32C"), unknown: 0 },
            ClientRummyHand { known: cards("4C"), unknown: 0 },
        ],
        PlayerIdx(0),
        Card::FiveSpades,
    );
    // A client names the lowest card of a run that the hand cannot give.
    assert_eq!(
        simulate_step(&mut game, Action::PlayRun { lo: Card::TwoClubs, hi: Card::FourClubs }),
        Err(GoatError::NotYourCard { card: Card::TwoClubs })
    );
    assert_eq!(simulate_step(&mut game, Action::PickUp), Err(GoatError::CannotPickUpFromEmptyTrick));
    assert_eq!(game.hands[0].known, cards("32C"));
    assert_eq!(simulate_step(&mut game, Action::PlayRun { lo: Card::TwoClubs, hi: Card::TwoClubs }), Ok(None));
    assert_eq!(game.next, PlayerIdx(1));
    // The last card of seat 1 leaves seat 0 alone with cards: it is the goat.
    assert_eq!(
        simulate_step(&mut game, Action::PlayRun { lo: Card::FourClubs, hi: Card::FourClubs }),
        Ok(Some(PlayerIdx(0)))
    );
}

#[test]
fn an_identifier_is_made_of_the_low_bits() {
    let mut hash = [0u8; 16];
    hash[0] = 5;
    assert_eq!(RandId::from_bits(5), RandId::from_hash(&hash));
    assert_eq!(RandId::from_bits((1u128 << 96) + 5), RandId::from_bits(5));
    assert_eq!(RandId::from_bits(u128::MAX).to_string(), "zzzzzzzzzzzzzzzz");
    assert_eq!(RandId::from_bits(0).to_string(), "................");
}

#[test]
fn a_new_record_holds_nothing() {
    let record = OneAction::new(3);
    assert_eq!(record.len(), 3);
    for seat in 0..3 {
        assert_eq!(record.last_action(PlayerIdx(seat)), LastAction::Nothing);
    }
    assert_eq!(<Cards as RummyHistory>::new(3), Cards::none());
}

#[test]
fn a_client_with_one_game_twice_is_not_well_formed() {
    let mut hash = [0u8; 16];
    hash[1] = 1;
    let id = GameId(RandId::from_hash(&hash));
    let mut client: Client<(), (), ()> = Client::new(());
    assert!(client.check());
    client.apply(Response::Replay { game_id: id, events: Vec::new() }).unwrap();
    assert!(client.check());
    client.games.push((id, ClientGame::new()));
    assert!(!client.check());
}
