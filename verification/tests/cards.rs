use goat::{Card, Cards, Rank, Suit};
use itertools::Itertools;
use std::collections::{HashMap, HashSet};

fn c(text: &str) -> Cards {
    Cards::from_str(text).unwrap()
}

#[test]
fn card_display() {
    assert_eq!(Card::NineSpades.to_string(), "9S");
    assert_eq!(Card::ThreeDiamonds.to_string(), "3D");
    assert_eq!(Card::JackClubs.to_string(), "JC");
    assert_eq!(Card::AceHearts.to_string(), "AH");
}

#[test]
fn card_suit() {
    assert_eq!(Card::TwoClubs.suit(), Suit::Clubs);
    assert_eq!(Card::AceClubs.suit(), Suit::Clubs);
    assert_eq!(Card::TwoDiamonds.suit(), Suit::Diamonds);
    assert_eq!(Card::AceDiamonds.suit(), Suit::Diamonds);
    assert_eq!(Card::TwoHearts.suit(), Suit::Hearts);
    assert_eq!(Card::AceHearts.suit(), Suit::Hearts);
    assert_eq!(Card::TwoSpades.suit(), Suit::Spades);
    assert_eq!(Card::AceSpades.suit(), Suit::Spades);
}

#[test]
fn cards_range() {
    assert_eq!(
        Cards::range(Card::FiveDiamonds, Card::EightDiamonds),
        Card::FiveDiamonds + Card::SixDiamonds + Card::SevenDiamonds + Card::EightDiamonds
    );
}

#[test]
fn cards_display() {
    assert_eq!(
        format!(
            "{}",
            (Card::NineSpades + Card::QueenSpades + Card::JackDiamonds).to_string()
        ),
        "[Q9S JD]"
    );
}

#[test]
fn cards_max() {
    assert_eq!((Card::TwoClubs + Card::NineClubs).max(), Card::NineClubs);
    assert_eq!(
        (Card::FourHearts + Card::SevenDiamonds).max(),
        Card::FourHearts
    );
    assert_eq!((Card::AceSpades + Card::FiveSpades).max(), Card::AceSpades);
    assert_eq!(Cards::from(Card::FiveHearts).max(), Card::FiveHearts);
}

#[test]
fn cards_iter() {
    assert_eq!(
        (Card::QueenSpades + Card::AceHearts + Card::TenClubs + Card::JackDiamonds)
            .cards()
            .collect(),
        vec![
            Card::QueenSpades,
            Card::AceHearts,
            Card::JackDiamonds,
            Card::TenClubs
        ]
    );
}

#[test]
fn cards_parse() {
    assert_eq!(Cards::from(Card::AceHearts), c("AH"))
}

#[test]
fn cards_contains() {
    let cards = Cards::clubs() + Cards::clubs() + Card::ThreeClubs + Card::FourClubs;
    for cards in cards.cards().collect().into_iter().combinations(5) {
        let compact: Cards = Cards::from_iter(cards.clone());
        for card in Cards::one_deck().cards().collect() {
            assert_eq!(cards.contains(&card), compact.contains(card));
        }
    }
}

#[test]
fn cards_contains_any() {
    let left = c("88777S 42H AAD").cards().collect();
    let right = c("88777S 42H AAD").cards().collect();
    for left in left.into_iter().powerset() {
        let left = Cards::from_iter(left);
        let left_set: HashSet<_> = left.cards().collect().into_iter().collect();
        for right in right.clone().into_iter().powerset() {
            let right = Cards::from_iter(right);
            assert_eq!(
                left.contains_any(right),
                right.cards().collect().into_iter().any(|c| left_set.contains(&c)),
                "left={}, right={}",
                left.to_string(),
                right.to_string(),
            );
        }
    }
}

#[test]
fn cards_contains_all() {
    let left = c("88777S 42H AAD").cards().collect();
    let right = c("88777S 42H AAD").cards().collect();
    for left in left.into_iter().powerset() {
        let left = Cards::from_iter(left);
        let left_map: HashMap<Card, usize> =
            left.cards()
                .collect()
                .into_iter()
                .fold(HashMap::new(), |mut m, c| {
                    *m.entry(c).or_default() += 1;
                    m
                });
        for right in right.clone().into_iter().powerset() {
            let right = Cards::from_iter(right);
            let right_map: HashMap<Card, usize> =
                right
                    .cards()
                    .collect()
                    .into_iter()
                    .fold(HashMap::new(), |mut m, c| {
                        *m.entry(c).or_default() += 1;
                        m
                    });
            assert_eq!(
                left.contains_all(right),
                right
                    .cards()
                    .collect()
                    .into_iter()
                    .all(|c| left_map.get(&c).unwrap_or(&0) >= right_map.get(&c).unwrap_or(&0)),
                "left={}, right={}, left_map={:?}, right_map={:?}",
                left.to_string(),
                right.to_string(),
                left_map,
                right_map,
            );
        }
    }
}

#[test]
fn cards_top_of_run() {
    assert_eq!(c("6432S").top_of_run(Card::TwoSpades), Card::FourSpades);
    assert_eq!(
        c("TTT88766555332H").top_of_run(Card::SixHearts),
        Card::EightHearts
    );
    assert_eq!(
        c("2S 2H 2D AKKQJJJT99888765433222C").top_of_run(Card::ThreeClubs),
        Card::AceClubs
    );
}

#[test]
fn cards_parse_reads_suits_from_the_right() {
    assert_eq!(
        c("J872H 76C"),
        Card::JackHearts
            + Card::EightHearts
            + Card::SevenHearts
            + Card::TwoHearts
            + Card::SevenClubs
            + Card::SixClubs
    );
    assert_eq!(c("JH 8H 7H 2H 7C 6C"), c("J872H 76C"));
    assert_eq!(c("JH 8H 7H 2H 7C 6C").to_string(), "[J872H 76C]");
    assert_eq!(c(&c("J872H 76C").to_string()), c("J872H 76C"));
    assert_eq!(Cards::none().to_string(), "[]");
    assert_eq!(Cards::from_str("2C2C2C2C"), None);
    assert_eq!(Card::from_str("9S"), Some(Card::NineSpades));
    assert_eq!(Card::from_str("9"), None);
    assert_eq!(Card::from_str("XS"), None);
}

#[test]
fn cards_range_len_max_min() {
    let range = Cards::range(Card::FiveDiamonds, Card::EightDiamonds);
    assert_eq!(range.len(), 4);
    assert_eq!(range.max(), Card::EightDiamonds);
    assert_eq!(range.min(), Card::FiveDiamonds);
    assert_eq!(Cards::one_deck().len(), 52);
    assert_eq!((Cards::one_deck() * 3).len(), 156);
    assert_eq!(Cards::none().len(), 0);
    assert!(Cards::none().is_empty());
}

#[test]
fn cards_len_of_sum_and_difference() {
    let a = c("AKQ2S 772H");
    let b = c("A2S 7H 3C");
    assert_eq!((a + b).len(), a.len() + b.len());
    assert!((a + b).contains_all(b));
    assert_eq!(((a + b) - b).len(), a.len());
    assert_eq!((a + b) - b, a);
    assert_eq!(Cards::from(Card::TenHearts).len(), 1);
    assert!(Cards::from(Card::TenHearts).contains(Card::TenHearts));
    assert!(!Cards::from(Card::TenHearts).contains(Card::NineHearts));
}

#[test]
fn cards_above_below_in_suit() {
    let deck = Cards::one_deck();
    for suit in [Suit::Clubs, Suit::Diamonds, Suit::Hearts, Suit::Spades] {
        for card in deck.in_suit(suit).cards().collect() {
            let above = deck.above(card);
            let below = deck.below(card);
            assert!(!above.contains_any(below));
            assert_eq!(above + below + card, deck.in_suit(suit));
        }
    }
    let hand = c("QQ9S 555H");
    assert_eq!(hand.above(Card::NineSpades), c("QS"));
    assert_eq!(hand.below(Card::QueenSpades), c("9S"));
    assert_eq!(hand.in_suit(Suit::Hearts), c("555H"));
    assert_eq!(hand.in_suit(Suit::Clubs), Cards::none());
}

#[test]
fn cards_remove_all_takes_one_copy() {
    let mut hand = c("22C 3C 9H");
    let removed = hand.remove_all(Cards::common_dreck());
    assert_eq!(removed, c("2C 3C"));
    assert_eq!(hand, c("2C 9H"));
    assert_eq!(c("22C 3C 9H").common(c("222C 9H 9S")), c("22C 9H"));
    assert!(c("22C").can_add(c("2C")));
    assert!(!c("22C").can_add(c("22C")));
}

#[test]
fn cards_runs() {
    assert_eq!(
        c("J872H 76C").runs().collect(),
        vec![
            (Card::SixClubs, Card::SevenClubs),
            (Card::TwoHearts, Card::TwoHearts),
            (Card::SevenHearts, Card::EightHearts),
            (Card::JackHearts, Card::JackHearts),
        ]
    );
    assert_eq!(
        c("4332C").runs().collect(),
        vec![
            (Card::TwoClubs, Card::FourClubs),
            (Card::ThreeClubs, Card::ThreeClubs)
        ]
    );
    assert_eq!(c("KA2C").min_run(), (Card::TwoClubs, Card::TwoClubs));
    assert_eq!(
        c("AKQ2C").cards().next_back(),
        Some(Card::TwoClubs)
    );
    assert_eq!(Cards::none().runs().collect(), vec![]);
}

#[test]
fn rank_and_suit_glyphs() {
    assert_eq!(Rank::Ten.char(), 'T');
    assert_eq!(Rank::try_from_char('Q'), Ok(Rank::Queen));
    assert_eq!(Rank::try_from_char('x'), Err('x'));
    assert_eq!(Suit::try_from_char('H'), Ok(Suit::Hearts));
    assert_eq!(Rank::King.next_up(), Rank::Ace);
    assert_eq!(Rank::King.idx(), 11);
    assert_eq!(Suit::Spades.idx(), 3);
    assert_eq!(Rank::Two.with_suit(Suit::Hearts), Card::TwoHearts);
    assert_eq!(Suit::Hearts.with_rank(Rank::Two), Card::TwoHearts);
    assert_eq!(Card::TwoHearts.with_rank(Rank::Ace), Card::AceHearts);
    assert_eq!(Card::TwoHearts.with_suit(Suit::Clubs), Card::TwoClubs);
    assert_eq!(Card::new(Rank::Nine, Suit::Spades), Card::NineSpades);
    assert_eq!(Card::NineSpades.rank(), Rank::Nine);
}
