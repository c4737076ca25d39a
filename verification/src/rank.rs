use vstd::prelude::*;
use crate::card::Card;
use crate::suit::Suit;

verus! {

/// The thirteen ranks of a suit, from the lowest to the highest.
#[derive(Clone, Copy, PartialEq, Eq, Structural, Hash, Debug, PartialOrd, Ord)]
pub enum Rank {
    Two,
    Three,
    Four,
    Five,
    Six,
    Seven,
    Eight,
    Nine,
    Ten,
    Jack,
    Queen,
    King,
    Ace,
}

impl Rank {
    /// The position of this rank among the thirteen, `Two` being 0 and `Ace` 12.
    pub open spec fn spec_idx(self) -> usize {
        match self {
            Rank::Two => 0,
            Rank::Three => 1,
            Rank::Four => 2,
            Rank::Five => 3,
            Rank::Six => 4,
            Rank::Seven => 5,
            Rank::Eight => 6,
            Rank::Nine => 7,
            Rank::Ten => 8,
            Rank::Jack => 9,
            Rank::Queen => 10,
            Rank::King => 11,
            Rank::Ace => 12,
        }
    }

    /// The rank at a position below thirteen; `Two` at any other.
    pub open spec fn spec_from_idx(n: int) -> Rank {
        if n == 1 {
            Rank::Three
        } else if n == 2 {
            Rank::Four
        } else if n == 3 {
            Rank::Five
        } else if n == 4 {
            Rank::Six
        } else if n == 5 {
            Rank::Seven
        } else if n == 6 {
            Rank::Eight
        } else if n == 7 {
            Rank::Nine
        } else if n == 8 {
            Rank::Ten
        } else if n == 9 {
            Rank::Jack
        } else if n == 10 {
            Rank::Queen
        } else if n == 11 {
            Rank::King
        } else if n == 12 {
            Rank::Ace
        } else {
            Rank::Two
        }
    }

    /// The glyph that stands for this rank in text.
    pub open spec fn spec_char(self) -> char {
        match self {
            Rank::Two => '2',
            Rank::Three => '3',
            Rank::Four => '4',
            Rank::Five => '5',
            Rank::Six => '6',
            Rank::Seven => '7',
            Rank::Eight => '8',
            Rank::Nine => '9',
            Rank::Ten => 'T',
            Rank::Jack => 'J',
            Rank::Queen => 'Q',
            Rank::King => 'K',
            Rank::Ace => 'A',
        }
    }

    #[verifier::when_used_as_spec(spec_char)]
    pub fn char(self) -> (c: char)
        ensures
            c == self.spec_char(),
    {
        match self {
            Rank::Two => '2',
            Rank::Three => '3',
            Rank::Four => '4',
            Rank::Five => '5',
            Rank::Six => '6',
            Rank::Seven => '7',
            Rank::Eight => '8',
            Rank::Nine => '9',
            Rank::Ten => 'T',
            Rank::Jack => 'J',
            Rank::Queen => 'Q',
            Rank::King => 'K',
            Rank::Ace => 'A',
        }
    }

    #[verifier::when_used_as_spec(spec_idx)]
    pub fn idx(self) -> (i: usize)
        ensures
            i == self.spec_idx(),
            i < 13,
    {
        match self {
            Rank::Two => 0,
            Rank::Three => 1,
            Rank::Four => 2,
            Rank::Five => 3,
            Rank::Six => 4,
            Rank::Seven => 5,
            Rank::Eight => 6,
            Rank::Nine => 7,
            Rank::Ten => 8,
            Rank::Jack => 9,
            Rank::Queen => 10,
            Rank::King => 11,
            Rank::Ace => 12,
        }
    }

    /// The rank at position `n`.
    pub fn from_idx(n: usize) -> (r: Rank)
        requires
            n < 13,
        ensures
            r == Rank::spec_from_idx(n as int),
            r.spec_idx() == n,
    {
        if n == 1 {
            Rank::Three
        } else if n == 2 {
            Rank::Four
        } else if n == 3 {
            Rank::Five
        } else if n == 4 {
            Rank::Six
        } else if n == 5 {
            Rank::Seven
        } else if n == 6 {
            Rank::Eight
        } else if n == 7 {
            Rank::Nine
        } else if n == 8 {
            Rank::Ten
        } else if n == 9 {
            Rank::Jack
        } else if n == 10 {
            Rank::Queen
        } else if n == 11 {
            Rank::King
        } else if n == 12 {
            Rank::Ace
        } else {
            Rank::Two
        }
    }

    /// The rank that `c` is the glyph of.
    pub open spec fn spec_of_char(c: char) -> Option<Rank> {
        if c == '2' {
            Some(Rank::Two)
        } else if c == '3' {
            Some(Rank::Three)
        } else if c == '4' {
            Some(Rank::Four)
        } else if c == '5' {
            Some(Rank::Five)
        } else if c == '6' {
            Some(Rank::Six)
        } else if c == '7' {
            Some(Rank::Seven)
        } else if c == '8' {
            Some(Rank::Eight)
        } else if c == '9' {
            Some(Rank::Nine)
        } else if c == 'T' {
            Some(Rank::Ten)
        } else if c == 'J' {
            Some(Rank::Jack)
        } else if c == 'Q' {
            Some(Rank::Queen)
        } else if c == 'K' {
            Some(Rank::King)
        } else if c == 'A' {
            Some(Rank::Ace)
        } else {
            None
        }
    }

    /// The rank that `c` is the glyph of, or `c` back where it is the glyph of none.
    pub fn try_from_char(c: char) -> (r: Result<Rank, char>)
        ensures
            r == (match Rank::spec_of_char(c) {
                Some(rank) => Ok::<Rank, char>(rank),
                None => Err::<Rank, char>(c),
            }),
            match r {
                Ok(rank) => rank.spec_char() == c,
                Err(e) => e == c && forall|rank: Rank| rank.spec_char() != c,
            },
    {
        if c == '2' {
            Ok(Rank::Two)
        } else if c == '3' {
            Ok(Rank::Three)
        } else if c == '4' {
            Ok(Rank::Four)
        } else if c == '5' {
            Ok(Rank::Five)
        } else if c == '6' {
            Ok(Rank::Six)
        } else if c == '7' {
            Ok(Rank::Seven)
        } else if c == '8' {
            Ok(Rank::Eight)
        } else if c == '9' {
            Ok(Rank::Nine)
        } else if c == 'T' {
            Ok(Rank::Ten)
        } else if c == 'J' {
            Ok(Rank::Jack)
        } else if c == 'Q' {
            Ok(Rank::Queen)
        } else if c == 'K' {
            Ok(Rank::King)
        } else if c == 'A' {
            Ok(Rank::Ace)
        } else {
            Err(c)
        }
    }

    /// The card of this rank in `suit`.
    pub fn with_suit(self, suit: Suit) -> (c: Card)
        ensures
            c == Card::spec_new(self, suit),
    {
        Card::new(self, suit)
    }

    /// The next higher rank. The ace has none.
    pub fn next_up(self) -> (r: Rank)
        requires
            self != Rank::Ace,
        ensures
            r.spec_idx() == self.spec_idx() + 1,
    {
        Rank::from_idx(self.idx() + 1)
    }

    /// The next lower rank. The two has none.
    pub fn next_down(self) -> (r: Rank)
        requires
            self != Rank::Two,
        ensures
            r.spec_idx() + 1 == self.spec_idx(),
    {
        Rank::from_idx(self.idx() - 1)
    }

    /// The one-glyph text of this rank.
    pub fn as_str(self) -> (s: &'static str)
        ensures
            s@ == seq![self.spec_char()],
    {
        match self {
            Rank::Two => {
                proof {
                    reveal_strlit("2");
                }
                assert("2"@ =~= seq!['2']);
                "2"
            },
            Rank::Three => {
                proof {
                    reveal_strlit("3");
                }
                assert("3"@ =~= seq!['3']);
                "3"
            },
            Rank::Four => {
                proof {
                    reveal_strlit("4");
                }
                assert("4"@ =~= seq!['4']);
                "4"
            },
            Rank::Five => {
                proof {
                    reveal_strlit("5");
                }
                assert("5"@ =~= seq!['5']);
                "5"
            },
            Rank::Six => {
                proof {
                    reveal_strlit("6");
                }
                assert("6"@ =~= seq!['6']);
                "6"
            },
            Rank::Seven => {
                proof {
                    reveal_strlit("7");
                }
                assert("7"@ =~= seq!['7']);
                "7"
            },
            Rank::Eight => {
                proof {
                    reveal_strlit("8");
                }
                assert("8"@ =~= seq!['8']);
                "8"
            },
            Rank::Nine => {
                proof {
                    reveal_strlit("9");
                }
                assert("9"@ =~= seq!['9']);
                "9"
            },
            Rank::Ten => {
                proof {
                    reveal_strlit("T");
                }
                assert("T"@ =~= seq!['T']);
                "T"
            },
            Rank::Jack => {
                proof {
                    reveal_strlit("J");
                }
                assert("J"@ =~= seq!['J']);
                "J"
            },
            Rank::Queen => {
                proof {
                    reveal_strlit("Q");
                }
                assert("Q"@ =~= seq!['Q']);
                "Q"
            },
            Rank::King => {
                proof {
                    reveal_strlit("K");
                }
                assert("K"@ =~= seq!['K']);
                "K"
            },
            Rank::Ace => {
                proof {
                    reveal_strlit("A");
                }
                assert("A"@ =~= seq!['A']);
                "A"
            },
        }
    }
}

/// Going from a rank to its position and back gives the rank.
pub proof fn lemma_rank_from_idx(r: Rank)
    ensures
        Rank::spec_from_idx(r.spec_idx() as int) == r,
        r.spec_idx() < 13,
{
}

} // verus!
