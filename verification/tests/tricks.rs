use goat::{
    Card, Cards, PlayerIdx, Rank, RummyTrick, ServerWarHand, Suit, WarHand, WarPlayKind, WarTrick,
};

#[test]
fn war_trick_rank_winner_next() {
    fn next(t: &mut WarTrick, c: Card) -> (Option<Rank>, Option<u8>, Option<u8>) {
        t.play(WarPlayKind::PlayHand, c);
        (
            t.rank(),
            t.winner().map(|i| i.0),
            t.next_player().map(|i| i.0),
        )
    }
    let mut t = WarTrick::new(PlayerIdx(1), 4);
    assert_eq!(
        (t.rank(), t.winner(), t.next_player()),
        (None, None, Some(PlayerIdx(1)))
    );
    assert_eq!(
        next(&mut t, Card::FiveSpades),
        (Some(Rank::Five), None, Some(2))
    );
    assert_eq!(
        next(&mut t, Card::ThreeClubs),
        (Some(Rank::Five), None, Some(3))
    );
    assert_eq!(
        next(&mut t, Card::EightClubs),
        (Some(Rank::Eight), None, Some(0))
    );
    assert_eq!(next(&mut t, Card::EightClubs), (None, None, Some(3)));
    assert_eq!(
        next(&mut t, Card::AceClubs),
        (Some(Rank::Ace), None, Some(0))
    );
    assert_eq!(next(&mut t, Card::FourDiamonds), (None, Some(3), None));
}

#[test]
fn war_trick_can_slough() {
    let num_players = 3;
    let mut t = WarTrick::new(PlayerIdx(2), num_players as usize);
    for card in Cards::one_deck().cards().collect() {
        let hand = &mut ServerWarHand::new();
        hand.add_card(card);
        for player in 0..num_players {
            assert!(t.check_can_slough(PlayerIdx(player), hand, card).is_err());
        }
    }
    t.play(WarPlayKind::PlayHand, Card::TwoClubs);
    for card in Cards::one_deck().cards().collect() {
        let hand = &mut ServerWarHand::new();
        hand.add_card(card);
        for player in 0..num_players {
            assert_eq!(
                t.check_can_slough(PlayerIdx(player), hand, card).is_ok(),
                player == 2 && card.rank() == Rank::Two
            );
        }
    }
    t.play(WarPlayKind::PlayHand, Card::FiveClubs);
    for card in Cards::one_deck().cards().collect() {
        let hand = &mut ServerWarHand::new();
        hand.add_card(card);
        for player in 0..num_players {
            assert_eq!(
                t.check_can_slough(PlayerIdx(player), hand, card).is_ok(),
                card.rank() == Rank::Two
                    || (card.rank() == Rank::Five && (player == 0 || player == 2))
            );
        }
    }
    t.play(WarPlayKind::PlayHand, Card::FiveDiamonds);
    for card in Cards::one_deck().cards().collect() {
        let hand = &mut ServerWarHand::new();
        hand.add_card(card);
        for player in 0..num_players {
            assert_eq!(
                t.check_can_slough(PlayerIdx(player), hand, card).is_ok(),
                card.rank() == Rank::Two || card.rank() == Rank::Five
            );
        }
    }
    t.play(WarPlayKind::PlayHand, Card::ThreeClubs);
    for card in Cards::one_deck().cards().collect() {
        let hand = &mut ServerWarHand::new();
        hand.add_card(card);
        for player in 0..num_players {
            assert_eq!(
                t.check_can_slough(PlayerIdx(player), hand, card).is_ok(),
                card.rank() == Rank::Two
                    || card.rank() == Rank::Five
                    || (card.rank() == Rank::Three && player != 1),
            );
        }
    }
}

#[test]
fn rummy_trick() {
    let mut t = RummyTrick::new(4);
    assert!(t.is_empty());
    assert!(t.can_play(Card::TwoClubs, Suit::Spades));
    assert!(!t.play(Card::ThreeClubs, Card::FourClubs));
    assert!(!t.is_empty());
    assert!(!t.can_play(Card::TwoClubs, Suit::Spades));
    assert!(!t.can_play(Card::FourClubs, Suit::Spades));
    assert!(t.can_play(Card::FiveClubs, Suit::Spades));
    assert!(!t.can_play(Card::FiveDiamonds, Suit::Spades));
    assert!(t.can_play(Card::TwoSpades, Suit::Spades));
    assert!(t.can_play(Card::FiveSpades, Suit::Spades));
    assert_eq!((Card::ThreeClubs, Card::FourClubs), t.pick_up());
    assert!(t.is_empty());
    assert!(!t.play(Card::ThreeClubs, Card::FourClubs));
    assert!(!t.play(Card::FiveClubs, Card::FiveClubs));
    assert!(!t.is_empty());
    assert_eq!((Card::ThreeClubs, Card::FiveClubs), t.pick_up());
    assert!(t.is_empty());
    assert!(!t.play(Card::ThreeClubs, Card::FourClubs));
    assert!(!t.play(Card::SixClubs, Card::SixClubs));
    assert!(!t.play(Card::FourSpades, Card::SixSpades));
    assert!(t.play(Card::EightSpades, Card::EightSpades));
}

#[test]
fn rummy_trick_pick_up_connected_run() {
    let mut t = RummyTrick::new(4);
    t.play(Card::FourClubs, Card::SixClubs);
    t.play(Card::SevenClubs, Card::SevenClubs);
    t.play(Card::EightClubs, Card::EightClubs);
    assert_eq!(t.pick_up(), (Card::FourClubs, Card::EightClubs));
    assert!(t.is_empty());
    assert_eq!(t.len(), 0);
}

#[test]
fn rummy_trick_pick_up_disconnected_runs() {
    let mut t = RummyTrick::new(4);
    t.play(Card::FourClubs, Card::SixClubs);
    t.play(Card::AceClubs, Card::AceClubs);
    t.play(Card::ThreeDiamonds, Card::ThreeDiamonds);
    assert_eq!(t.top_card(), Some(Card::ThreeDiamonds));
    assert_eq!(t.pick_up(), (Card::FourClubs, Card::SixClubs));
    assert_eq!(
        t.plays(),
        &[
            (Card::AceClubs, Card::AceClubs),
            (Card::ThreeDiamonds, Card::ThreeDiamonds)
        ]
    );
    assert_eq!(t.pick_up(), (Card::AceClubs, Card::AceClubs));
    assert_eq!(t.pick_up(), (Card::ThreeDiamonds, Card::ThreeDiamonds));
    assert!(t.is_empty());
    assert_eq!(t.num_players(), 4);
}

#[test]
fn war_trick_rank_progression() {
    let mut t = WarTrick::new(PlayerIdx(1), 4);
    let cards = [
        Card::FiveSpades,
        Card::ThreeClubs,
        Card::EightClubs,
        Card::EightClubs,
        Card::AceClubs,
        Card::FourDiamonds,
    ];
    let ranks = [
        Some(Rank::Five),
        Some(Rank::Five),
        Some(Rank::Eight),
        None,
        Some(Rank::Ace),
        None,
    ];
    for (card, rank) in cards.iter().zip(ranks.iter()) {
        t.play(WarPlayKind::PlayTop, *card);
        assert_eq!(t.rank(), *rank);
    }
    assert_eq!(t.winner(), Some(PlayerIdx(3)));
    assert_eq!(t.next_player(), None);
    assert_eq!(t.remaining_players(), vec![PlayerIdx(3)]);
    assert_eq!(t.cards(), cards.to_vec());
    assert_eq!(t.plays().len(), 6);
    assert_eq!(t.plays()[2].player(), PlayerIdx(3));
    assert_eq!(t.plays()[2].kind(), WarPlayKind::PlayTop);
    assert_eq!(t.end_mask(), 0b1111);
    assert!(!t.ended(PlayerIdx(2)));
    assert!(!t.end(PlayerIdx(2)));
    assert!(t.ended(PlayerIdx(2)));
    assert!(!t.end(PlayerIdx(0)));
    assert!(!t.end(PlayerIdx(1)));
    assert!(t.end(PlayerIdx(3)));
    assert!(t.check(4));
    assert!(!t.check(3));
}

#[test]
fn war_hand_keeps_order() {
    let mut hand = ServerWarHand::new();
    assert!(hand.is_empty());
    hand.add_card(Card::TwoClubs);
    hand.add_card(Card::AceSpades);
    hand.add_card(Card::TwoClubs);
    assert_eq!(hand.len(), 3);
    assert!(!hand.can_add(Card::TwoClubs));
    assert_eq!(hand.cards(), vec![Card::TwoClubs, Card::AceSpades, Card::TwoClubs]);
    hand.remove_card(Card::TwoClubs);
    assert_eq!(hand.cards(), vec![Card::AceSpades, Card::TwoClubs]);
    assert!(hand.check_has_card(Card::AceSpades).is_ok());
    assert!(hand.check_has_card(Card::KingSpades).is_err());
    assert!(hand.has_rank(Rank::Ace));
    assert!(!hand.has_rank(Rank::King));
    let pile = Cards::from(Card::TwoClubs) + Card::TwoClubs;
    assert!(hand.can_merge_into(pile));
    assert_eq!(
        hand.merge_into_rummy_hand(pile),
        Cards::from_str("AS 222C").unwrap()
    );
    hand.add_card(Card::TwoClubs);
    assert!(!hand.can_merge_into(pile));
}
