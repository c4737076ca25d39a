use vstd::prelude::*;
use crate::rank::Rank;
use crate::suit::Suit;

verus! {

/// One of the fifty-two playing cards, clubs first and spades last, each suit
/// from its two up to its ace.
#[derive(Clone, Copy, PartialEq, Eq, Structural, Hash, Debug, PartialOrd, Ord)]
pub enum Card {
    TwoClubs,
    ThreeClubs,
    FourClubs,
    FiveClubs,
    SixClubs,
    SevenClubs,
    EightClubs,
    NineClubs,
    TenClubs,
    JackClubs,
    QueenClubs,
    KingClubs,
    AceClubs,
    TwoDiamonds,
    ThreeDiamonds,
    FourDiamonds,
    FiveDiamonds,
    SixDiamonds,
    SevenDiamonds,
    EightDiamonds,
    NineDiamonds,
    TenDiamonds,
    JackDiamonds,
    QueenDiamonds,
    KingDiamonds,
    AceDiamonds,
    TwoHearts,
    ThreeHearts,
    FourHearts,
    FiveHearts,
    SixHearts,
    SevenHearts,
    EightHearts,
    NineHearts,
    TenHearts,
    JackHearts,
    QueenHearts,
    KingHearts,
    AceHearts,
    TwoSpades,
    ThreeSpades,
    FourSpades,
    FiveSpades,
    SixSpades,
    SevenSpades,
    EightSpades,
    NineSpades,
    TenSpades,
    JackSpades,
    QueenSpades,
    KingSpades,
    AceSpades,
}

impl Card {
    pub open spec fn spec_rank(self) -> Rank {
        match self {
            Card::TwoClubs => Rank::Two,
            Card::ThreeClubs => Rank::Three,
            Card::FourClubs => Rank::Four,
            Card::FiveClubs => Rank::Five,
            Card::SixClubs => Rank::Six,
            Card::SevenClubs => Rank::Seven,
            Card::EightClubs => Rank::Eight,
            Card::NineClubs => Rank::Nine,
            Card::TenClubs => Rank::Ten,
            Card::JackClubs => Rank::Jack,
            Card::QueenClubs => Rank::Queen,
            Card::KingClubs => Rank::King,
            Card::AceClubs => Rank::Ace,
            Card::TwoDiamonds => Rank::Two,
            Card::ThreeDiamonds => Rank::Three,
            Card::FourDiamonds => Rank::Four,
            Card::FiveDiamonds => Rank::Five,
            Card::SixDiamonds => Rank::Six,
            Card::SevenDiamonds => Rank::Seven,
            Card::EightDiamonds => Rank::Eight,
            Card::NineDiamonds => Rank::Nine,
            Card::TenDiamonds => Rank::Ten,
            Card::JackDiamonds => Rank::Jack,
            Card::QueenDiamonds => Rank::Queen,
            Card::KingDiamonds => Rank::King,
            Card::AceDiamonds => Rank::Ace,
            Card::TwoHearts => Rank::Two,
            Card::ThreeHearts => Rank::Three,
            Card::FourHearts => Rank::Four,
            Card::FiveHearts => Rank::Five,
            Card::SixHearts => Rank::Six,
            Card::SevenHearts => Rank::Seven,
            Card::EightHearts => Rank::Eight,
            Card::NineHearts => Rank::Nine,
            Card::TenHearts => Rank::Ten,
            Card::JackHearts => Rank::Jack,
            Card::QueenHearts => Rank::Queen,
            Card::KingHearts => Rank::King,
            Card::AceHearts => Rank::Ace,
            Card::TwoSpades => Rank::Two,
            Card::ThreeSpades => Rank::Three,
            Card::FourSpades => Rank::Four,
            Card::FiveSpades => Rank::Five,
            Card::SixSpades => Rank::Six,
            Card::SevenSpades => Rank::Seven,
            Card::EightSpades => Rank::Eight,
            Card::NineSpades => Rank::Nine,
            Card::TenSpades => Rank::Ten,
            Card::JackSpades => Rank::Jack,
            Card::QueenSpades => Rank::Queen,
            Card::KingSpades => Rank::King,
            Card::AceSpades => Rank::Ace,
        }
    }

    pub open spec fn spec_suit(self) -> Suit {
        match self {
            Card::TwoClubs => Suit::Clubs,
            Card::ThreeClubs => Suit::Clubs,
            Card::FourClubs => Suit::Clubs,
            Card::FiveClubs => Suit::Clubs,
            Card::SixClubs => Suit::Clubs,
            Card::SevenClubs => Suit::Clubs,
            Card::EightClubs => Suit::Clubs,
            Card::NineClubs => Suit::Clubs,
            Card::TenClubs => Suit::Clubs,
            Card::JackClubs => Suit::Clubs,
            Card::QueenClubs => Suit::Clubs,
            Card::KingClubs => Suit::Clubs,
            Card::AceClubs => Suit::Clubs,
            Card::TwoDiamonds => Suit::Diamonds,
            Card::ThreeDiamonds => Suit::Diamonds,
            Card::FourDiamonds => Suit::Diamonds,
            Card::FiveDiamonds => Suit::Diamonds,
            Card::SixDiamonds => Suit::Diamonds,
            Card::SevenDiamonds => Suit::Diamonds,
            Card::EightDiamonds => Suit::Diamonds,
            Card::NineDiamonds => Suit::Diamonds,
            Card::TenDiamonds => Suit::Diamonds,
            Card::JackDiamonds => Suit::Diamonds,
            Card::QueenDiamonds => Suit::Diamonds,
            Card::KingDiamonds => Suit::Diamonds,
            Card::AceDiamonds => Suit::Diamonds,
            Card::TwoHearts => Suit::Hearts,
            Card::ThreeHearts => Suit::Hearts,
            Card::FourHearts => Suit::Hearts,
            Card::FiveHearts => Suit::Hearts,
            Card::SixHearts => Suit::Hearts,
            Card::SevenHearts => Suit::Hearts,
            Card::EightHearts => Suit::Hearts,
            Card::NineHearts => Suit::Hearts,
            Card::TenHearts => Suit::Hearts,
            Card::JackHearts => Suit::Hearts,
            Card::QueenHearts => Suit::Hearts,
            Card::KingHearts => Suit::Hearts,
            Card::AceHearts => Suit::Hearts,
            Card::TwoSpades => Suit::Spades,
            Card::ThreeSpades => Suit::Spades,
            Card::FourSpades => Suit::Spades,
            Card::FiveSpades => Suit::Spades,
            Card::SixSpades => Suit::Spades,
            Card::SevenSpades => Suit::Spades,
            Card::EightSpades => Suit::Spades,
            Card::NineSpades => Suit::Spades,
            Card::TenSpades => Suit::Spades,
            Card::JackSpades => Suit::Spades,
            Card::QueenSpades => Suit::Spades,
            Card::KingSpades => Suit::Spades,
            Card::AceSpades => Suit::Spades,
        }
    }

    pub open spec fn spec_new(rank: Rank, suit: Suit) -> Card {
        match suit {
            Suit::Clubs => match rank {
                Rank::Two => Card::TwoClubs,
                Rank::Three => Card::ThreeClubs,
                Rank::Four => Card::FourClubs,
                Rank::Five => Card::FiveClubs,
                Rank::Six => Card::SixClubs,
                Rank::Seven => Card::SevenClubs,
                Rank::Eight => Card::EightClubs,
                Rank::Nine => Card::NineClubs,
                Rank::Ten => Card::TenClubs,
                Rank::Jack => Card::JackClubs,
                Rank::Queen => Card::QueenClubs,
                Rank::King => Card::KingClubs,
                Rank::Ace => Card::AceClubs,
            },
            Suit::Diamonds => match rank {
                Rank::Two => Card::TwoDiamonds,
                Rank::Three => Card::ThreeDiamonds,
                Rank::Four => Card::FourDiamonds,
                Rank::Five => Card::FiveDiamonds,
                Rank::Six => Card::SixDiamonds,
                Rank::Seven => Card::SevenDiamonds,
                Rank::Eight => Card::EightDiamonds,
                Rank::Nine => Card::NineDiamonds,
                Rank::Ten => Card::TenDiamonds,
                Rank::Jack => Card::JackDiamonds,
                Rank::Queen => Card::QueenDiamonds,
                Rank::King => Card::KingDiamonds,
                Rank::Ace => Card::AceDiamonds,
            },
            Suit::Hearts => match rank {
                Rank::Two => Card::TwoHearts,
                Rank::Three => Card::ThreeHearts,
                Rank::Four => Card::FourHearts,
                Rank::Five => Card::FiveHearts,
                Rank::Six => Card::SixHearts,
                Rank::Seven => Card::SevenHearts,
                Rank::Eight => Card::EightHearts,
                Rank::Nine => Card::NineHearts,
                Rank::Ten => Card::TenHearts,
                Rank::Jack => Card::JackHearts,
                Rank::Queen => Card::QueenHearts,
                Rank::King => Card::KingHearts,
                Rank::Ace => Card::AceHearts,
            },
            Suit::Spades => match rank {
                Rank::Two => Card::TwoSpades,
                Rank::Three => Card::ThreeSpades,
                Rank::Four => Card::FourSpades,
                Rank::Five => Card::FiveSpades,
                Rank::Six => Card::SixSpades,
                Rank::Seven => Card::SevenSpades,
                Rank::Eight => Card::EightSpades,
                Rank::Nine => Card::NineSpades,
                Rank::Ten => Card::TenSpades,
                Rank::Jack => Card::JackSpades,
                Rank::Queen => Card::QueenSpades,
                Rank::King => Card::KingSpades,
                Rank::Ace => Card::AceSpades,
            },
        }
    }

    /// Where the card's counter lies in a card set: sixteen places for each suit,
    /// of which the thirteen lowest are used.
    pub open spec fn index(self) -> int {
        16 * self.spec_suit().spec_idx() + self.spec_rank().spec_idx()
    }

    /// The card whose counter lies at place `i`.
    pub open spec fn at(i: int) -> Card {
        Card::spec_new(Rank::spec_from_idx(i % 16), Suit::spec_from_idx(i / 16))
    }

    /// Whether a card's counter lies at place `i`.
    pub open spec fn is_index(i: int) -> bool {
        0 <= i < 64 && i % 16 < 13
    }

    pub fn new(rank: Rank, suit: Suit) -> (c: Card)
        ensures
            c == Card::spec_new(rank, suit),
            c.spec_rank() == rank,
            c.spec_suit() == suit,
    {
        match suit {
            Suit::Clubs => match rank {
                Rank::Two => Card::TwoClubs,
                Rank::Three => Card::ThreeClubs,
                Rank::Four => Card::FourClubs,
                Rank::Five => Card::FiveClubs,
                Rank::Six => Card::SixClubs,
                Rank::Seven => Card::SevenClubs,
                Rank::Eight => Card::EightClubs,
                Rank::Nine => Card::NineClubs,
                Rank::Ten => Card::TenClubs,
                Rank::Jack => Card::JackClubs,
                Rank::Queen => Card::QueenClubs,
                Rank::King => Card::KingClubs,
                Rank::Ace => Card::AceClubs,
            },
            Suit::Diamonds => match rank {
                Rank::Two => Card::TwoDiamonds,
                Rank::Three => Card::ThreeDiamonds,
                Rank::Four => Card::FourDiamonds,
                Rank::Five => Card::FiveDiamonds,
                Rank::Six => Card::SixDiamonds,
                Rank::Seven => Card::SevenDiamonds,
                Rank::Eight => Card::EightDiamonds,
                Rank::Nine => Card::NineDiamonds,
                Rank::Ten => Card::TenDiamonds,
                Rank::Jack => Card::JackDiamonds,
                Rank::Queen => Card::QueenDiamonds,
                Rank::King => Card::KingDiamonds,
                Rank::Ace => Card::AceDiamonds,
            },
            Suit::Hearts => match rank {
                Rank::Two => Card::TwoHearts,
                Rank::Three => Card::ThreeHearts,
                Rank::Four => Card::FourHearts,
                Rank::Five => Card::FiveHearts,
                Rank::Six => Card::SixHearts,
                Rank::Seven => Card::SevenHearts,
                Rank::Eight => Card::EightHearts,
                Rank::Nine => Card::NineHearts,
                Rank::Ten => Card::TenHearts,
                Rank::Jack => Card::JackHearts,
                Rank::Queen => Card::QueenHearts,
                Rank::King => Card::KingHearts,
                Rank::Ace => Card::AceHearts,
            },
            Suit::Spades => match rank {
                Rank::Two => Card::TwoSpades,
                Rank::Three => Card::ThreeSpades,
                Rank::Four => Card::FourSpades,
                Rank::Five => Card::FiveSpades,
                Rank::Six => Card::SixSpades,
                Rank::Seven => Card::SevenSpades,
                Rank::Eight => Card::EightSpades,
                Rank::Nine => Card::NineSpades,
                Rank::Ten => Card::TenSpades,
                Rank::Jack => Card::JackSpades,
                Rank::Queen => Card::QueenSpades,
                Rank::King => Card::KingSpades,
                Rank::Ace => Card::AceSpades,
            },
        }
    }

    #[verifier::when_used_as_spec(spec_rank)]
    pub fn rank(self) -> (r: Rank)
        ensures
            r == self.spec_rank(),
    {
        match self {
            Card::TwoClubs => Rank::Two,
            Card::ThreeClubs => Rank::Three,
            Card::FourClubs => Rank::Four,
            Card::FiveClubs => Rank::Five,
            Card::SixClubs => Rank::Six,
            Card::SevenClubs => Rank::Seven,
            Card::EightClubs => Rank::Eight,
            Card::NineClubs => Rank::Nine,
            Card::TenClubs => Rank::Ten,
            Card::JackClubs => Rank::Jack,
            Card::QueenClubs => Rank::Queen,
            Card::KingClubs => Rank::King,
            Card::AceClubs => Rank::Ace,
            Card::TwoDiamonds => Rank::Two,
            Card::ThreeDiamonds => Rank::Three,
            Card::FourDiamonds => Rank::Four,
            Card::FiveDiamonds => Rank::Five,
            Card::SixDiamonds => Rank::Six,
            Card::SevenDiamonds => Rank::Seven,
            Card::EightDiamonds => Rank::Eight,
            Card::NineDiamonds => Rank::Nine,
            Card::TenDiamonds => Rank::Ten,
            Card::JackDiamonds => Rank::Jack,
            Card::QueenDiamonds => Rank::Queen,
            Card::KingDiamonds => Rank::King,
            Card::AceDiamonds => Rank::Ace,
            Card::TwoHearts => Rank::Two,
            Card::ThreeHearts => Rank::Three,
            Card::FourHearts => Rank::Four,
            Card::FiveHearts => Rank::Five,
            Card::SixHearts => Rank::Six,
            Card::SevenHearts => Rank::Seven,
            Card::EightHearts => Rank::Eight,
            Card::NineHearts => Rank::Nine,
            Card::TenHearts => Rank::Ten,
            Card::JackHearts => Rank::Jack,
            Card::QueenHearts => Rank::Queen,
            Card::KingHearts => Rank::King,
            Card::AceHearts => Rank::Ace,
            Card::TwoSpades => Rank::Two,
            Card::ThreeSpades => Rank::Three,
            Card::FourSpades => Rank::Four,
            Card::FiveSpades => Rank::Five,
            Card::SixSpades => Rank::Six,
            Card::SevenSpades => Rank::Seven,
            Card::EightSpades => Rank::Eight,
            Card::NineSpades => Rank::Nine,
            Card::TenSpades => Rank::Ten,
            Card::JackSpades => Rank::Jack,
            Card::QueenSpades => Rank::Queen,
            Card::KingSpades => Rank::King,
            Card::AceSpades => Rank::Ace,
        }
    }

    #[verifier::when_used_as_spec(spec_suit)]
    pub fn suit(self) -> (s: Suit)
        ensures
            s == self.spec_suit(),
    {
        match self {
            Card::TwoClubs => Suit::Clubs,
            Card::ThreeClubs => Suit::Clubs,
            Card::FourClubs => Suit::Clubs,
            Card::FiveClubs => Suit::Clubs,
            Card::SixClubs => Suit::Clubs,
            Card::SevenClubs => Suit::Clubs,
            Card::EightClubs => Suit::Clubs,
            Card::NineClubs => Suit::Clubs,
            Card::TenClubs => Suit::Clubs,
            Card::JackClubs => Suit::Clubs,
            Card::QueenClubs => Suit::Clubs,
            Card::KingClubs => Suit::Clubs,
            Card::AceClubs => Suit::Clubs,
            Card::TwoDiamonds => Suit::Diamonds,
            Card::ThreeDiamonds => Suit::Diamonds,
            Card::FourDiamonds => Suit::Diamonds,
            Card::FiveDiamonds => Suit::Diamonds,
            Card::SixDiamonds => Suit::Diamonds,
            Card::SevenDiamonds => Suit::Diamonds,
            Card::EightDiamonds => Suit::Diamonds,
            Card::NineDiamonds => Suit::Diamonds,
            Card::TenDiamonds => Suit::Diamonds,
            Card::JackDiamonds => Suit::Diamonds,
            Card::QueenDiamonds => Suit::Diamonds,
            Card::KingDiamonds => Suit::Diamonds,
            Card::AceDiamonds => Suit::Diamonds,
            Card::TwoHearts => Suit::Hearts,
            Card::ThreeHearts => Suit::Hearts,
            Card::FourHearts => Suit::Hearts,
            Card::FiveHearts => Suit::Hearts,
            Card::SixHearts => Suit::Hearts,
            Card::SevenHearts => Suit::Hearts,
            Card::EightHearts => Suit::Hearts,
            Card::NineHearts => Suit::Hearts,
            Card::TenHearts => Suit::Hearts,
            Card::JackHearts => Suit::Hearts,
            Card::QueenHearts => Suit::Hearts,
            Card::KingHearts => Suit::Hearts,
            Card::AceHearts => Suit::Hearts,
            Card::TwoSpades => Suit::Spades,
            Card::ThreeSpades => Suit::Spades,
            Card::FourSpades => Suit::Spades,
            Card::FiveSpades => Suit::Spades,
            Card::SixSpades => Suit::Spades,
            Card::SevenSpades => Suit::Spades,
            Card::EightSpades => Suit::Spades,
            Card::NineSpades => Suit::Spades,
            Card::TenSpades => Suit::Spades,
            Card::JackSpades => Suit::Spades,
            Card::QueenSpades => Suit::Spades,
            Card::KingSpades => Suit::Spades,
            Card::AceSpades => Suit::Spades,
        }
    }

    /// The card of the same suit with another rank.
    pub fn with_rank(self, rank: Rank) -> (c: Card)
        ensures
            c == Card::spec_new(rank, self.spec_suit()),
    {
        Card::new(rank, self.suit())
    }

    /// The card of the same rank in another suit.
    pub fn with_suit(self, suit: Suit) -> (c: Card)
        ensures
            c == Card::spec_new(self.spec_rank(), suit),
    {
        Card::new(self.rank(), suit)
    }

    /// The place of the card's counter, as a shift count: twice this is the
    /// counter's lowest bit.
    pub fn place(self) -> (i: u8)
        ensures
            i == self.index(),
            i < 61,
            i % 16 < 13,
    {
        let s: usize = self.suit().idx();
        let r: usize = self.rank().idx();
        (16 * s + r) as u8
    }

    /// The card whose counter lies at place `i`.
    pub fn from_place(i: u8) -> (c: Card)
        requires
            i < 64,
            i % 16 < 13,
        ensures
            c == Card::at(i as int),
            c.index() == i,
    {
        let r: Rank = Rank::from_idx((i % 16) as usize);
        let s: Suit = Suit::from_idx((i / 16) as usize);
        Card::new(r, s)
    }

    /// The card that the first two glyphs of a text stand for.
    pub open spec fn spec_parse(s: Seq<char>) -> Option<Card> {
        if s.len() < 2 {
            None
        } else {
            match (Rank::spec_of_char(s[0]), Suit::spec_of_char(s[1])) {
                (Some(rank), Some(suit)) => Some(Card::spec_new(rank, suit)),
                _ => None,
            }
        }
    }

    /// The text of a card: the glyph of its rank, then that of its suit.
    pub open spec fn spec_text(self) -> Seq<char> {
        seq![self.spec_rank().spec_char(), self.spec_suit().spec_char()]
    }

    /// The two-glyph text of the card.
    pub fn to_string(&self) -> (s: String)
        ensures
            s@ == self.spec_text(),
    {
        let mut s: String = String::from_str(self.rank().as_str());
        s.append(self.suit().as_str());
        assert(s@ =~= self.spec_text());
        s
    }

    /// Reads a card from the first two glyphs of `s`. There is none where `s`
    /// is shorter or either glyph is unknown; what follows the two is not read.
    pub fn from_str(s: &str) -> (r: Option<Card>)
        ensures
            r == Card::spec_parse(s@),
    {
        if s.unicode_len() < 2 {
            return None;
        }
        match Rank::try_from_char(s.get_char(0)) {
            Ok(rank) => match Suit::try_from_char(s.get_char(1)) {
                Ok(suit) => Some(Card::new(rank, suit)),
                Err(_) => None,
            },
            Err(_) => None,
        }
    }
}

/// Each card lies at a place of its own, and the place names the card.
pub proof fn lemma_card_index(c: Card)
    ensures
        Card::is_index(c.index()),
        Card::at(c.index()) == c,
        Card::spec_new(c.spec_rank(), c.spec_suit()) == c,
{
}

/// Each place that is a card's names that card.
pub proof fn lemma_card_at(i: int)
    requires
        Card::is_index(i),
    ensures
        Card::at(i).index() == i,
        Card::at(i).spec_rank().spec_idx() == i % 16,
        Card::at(i).spec_suit().spec_idx() == i / 16,
{
}

/// A card made of a rank and a suit has that rank and that suit.
pub proof fn lemma_card_new(rank: Rank, suit: Suit)
    ensures
        Card::spec_new(rank, suit).spec_rank() == rank,
        Card::spec_new(rank, suit).spec_suit() == suit,
        Card::spec_new(rank, suit).index() == 16 * suit.spec_idx() + rank.spec_idx(),
{
}

/// The text of a card, read again, gives the card.
pub proof fn lemma_card_text_round_trip(c: Card)
    ensures
        Card::spec_parse(c.spec_text()) == Some(c),
{
}

} // verus!
