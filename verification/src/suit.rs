use vstd::prelude::*;
use crate::card::Card;
use crate::rank::Rank;

verus! {

/// The four suits, in the order in which the card sets lay them out.
#[derive(Clone, Copy, PartialEq, Eq, Structural, Hash, Debug, PartialOrd, Ord)]
pub enum Suit {
    Clubs,
    Diamonds,
    Hearts,
    Spades,
}

impl Suit {
    pub open spec fn spec_idx(self) -> usize {
        match self {
            Suit::Clubs => 0,
            Suit::Diamonds => 1,
            Suit::Hearts => 2,
            Suit::Spades => 3,
        }
    }

    /// The suit at a position below four; `Clubs` at any other.
    pub open spec fn spec_from_idx(n: int) -> Suit {
        if n == 1 {
            Suit::Diamonds
        } else if n == 2 {
            Suit::Hearts
        } else if n == 3 {
            Suit::Spades
        } else {
            Suit::Clubs
        }
    }

    pub open spec fn spec_char(self) -> char {
        match self {
            Suit::Clubs => 'C',
            Suit::Diamonds => 'D',
            Suit::Hearts => 'H',
            Suit::Spades => 'S',
        }
    }

    #[verifier::when_used_as_spec(spec_idx)]
    pub fn idx(self) -> (i: usize)
        ensures
            i == self.spec_idx(),
            i < 4,
    {
        match self {
            Suit::Clubs => 0,
            Suit::Diamonds => 1,
            Suit::Hearts => 2,
            Suit::Spades => 3,
        }
    }

    #[verifier::when_used_as_spec(spec_char)]
    pub fn char(self) -> (c: char)
        ensures
            c == self.spec_char(),
    {
        match self {
            Suit::Clubs => 'C',
            Suit::Diamonds => 'D',
            Suit::Hearts => 'H',
            Suit::Spades => 'S',
        }
    }

    /// The suit at position `n`.
    pub fn from_idx(n: usize) -> (s: Suit)
        requires
            n < 4,
        ensures
            s == Suit::spec_from_idx(n as int),
            s.spec_idx() == n,
    {
        if n == 1 {
            Suit::Diamonds
        } else if n == 2 {
            Suit::Hearts
        } else if n == 3 {
            Suit::Spades
        } else {
            Suit::Clubs
        }
    }

    /// The suit that `c` is the glyph of.
    pub open spec fn spec_of_char(c: char) -> Option<Suit> {
        if c == 'C' {
            Some(Suit::Clubs)
        } else if c == 'D' {
            Some(Suit::Diamonds)
        } else if c == 'H' {
            Some(Suit::Hearts)
        } else if c == 'S' {
            Some(Suit::Spades)
        } else {
            None
        }
    }

    /// The suit that `c` is the glyph of, or `c` back where it is the glyph of none.
    pub fn try_from_char(c: char) -> (r: Result<Suit, char>)
        ensures
            r == (match Suit::spec_of_char(c) {
                Some(suit) => Ok::<Suit, char>(suit),
                None => Err::<Suit, char>(c),
            }),
            match r {
                Ok(suit) => suit.spec_char() == c,
                Err(e) => e == c && forall|suit: Suit| suit.spec_char() != c,
            },
    {
        if c == 'C' {
            Ok(Suit::Clubs)
        } else if c == 'D' {
            Ok(Suit::Diamonds)
        } else if c == 'H' {
            Ok(Suit::Hearts)
        } else if c == 'S' {
            Ok(Suit::Spades)
        } else {
            Err(c)
        }
    }

    /// The card of `rank` in this suit.
    pub fn with_rank(self, rank: Rank) -> (c: Card)
        ensures
            c == Card::spec_new(rank, self),
    {
        Card::new(rank, self)
    }

    /// The one-glyph text of this suit.
    pub fn as_str(self) -> (s: &'static str)
        ensures
            s@ == seq![self.spec_char()],
    {
        match self {
            Suit::Clubs => {
                proof {
                    reveal_strlit("C");
                }
                assert("C"@ =~= seq!['C']);
                "C"
            },
            Suit::Diamonds => {
                proof {
                    reveal_strlit("D");
                }
                assert("D"@ =~= seq!['D']);
                "D"
            },
            Suit::Hearts => {
                proof {
                    reveal_strlit("H");
                }
                assert("H"@ =~= seq!['H']);
                "H"
            },
            Suit::Spades => {
                proof {
                    reveal_strlit("S");
                }
                assert("S"@ =~= seq!['S']);
                "S"
            },
        }
    }
}

/// The four suits in ascending order.
pub fn suit_values() -> (v: [Suit; 4])
    ensures
        v@ == seq![Suit::Clubs, Suit::Diamonds, Suit::Hearts, Suit::Spades],
{
    let v = [Suit::Clubs, Suit::Diamonds, Suit::Hearts, Suit::Spades];
    assert(v@ =~= seq![Suit::Clubs, Suit::Diamonds, Suit::Hearts, Suit::Spades]);
    v
}

} // verus!
