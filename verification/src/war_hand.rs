//! The hands of the war phase: at most three cards. The server holds the cards
//! of each hand; a client holds those of its own player, and of the others
//! only their number.
use vstd::prelude::*;
use crate::card::Card;
use crate::cards::{add_all, can_add_all, fits_all, plus_all, Cards};
use crate::error::GoatError;
use crate::rummy_hand::{ClientRummyHand, RummyHand};

verus! {

/// What the war phase asks of a hand.
pub trait WarHand: Sized {
    /// The hand that this hand turns into when the rummy phase begins.
    type RummyHand: RummyHand;

    /// The hand without cards.
    spec fn empty_hand() -> Self;

    /// The number of cards in the hand.
    spec fn spec_len(&self) -> nat;

    /// Whether the hand is known to hold `card`. A hand whose cards are not
    /// known may hold any card.
    spec fn has_card(&self, card: Card) -> bool;

    /// Whether a card can be added to the hand.
    spec fn admits(&self, card: Card) -> bool;

    /// The hand with `card` added.
    spec fn with_card(&self, card: Card) -> Self;

    /// Whether `card` can be taken from the hand.
    spec fn holds(&self, card: Card) -> bool;

    /// The hand with one copy of `card` taken from it.
    spec fn without_card(&self, card: Card) -> Self;

    /// Whether the hand can be added to the pile `won`.
    spec fn can_merge(&self, won: Cards) -> bool;

    /// The rummy hand made of the pile `won` and the cards of this hand.
    spec fn merged(&self, won: Cards) -> Self::RummyHand;

    fn new() -> (h: Self)
        ensures
            h == Self::empty_hand(),
            h.spec_len() == 0,
    ;

    fn is_empty(&self) -> (b: bool)
        ensures
            b == (self.spec_len() == 0),
    ;

    fn len(&self) -> (n: usize)
        ensures
            n == self.spec_len(),
    ;

    fn check_has_card(&self, card: Card) -> (r: Result<(), GoatError>)
        ensures
            r == (if self.has_card(card) {
                Ok::<(), GoatError>(())
            } else {
                Err(GoatError::NotYourCard { card })
            }),
    ;

    fn can_add(&self, card: Card) -> (b: bool)
        ensures
            b == self.admits(card),
    ;

    fn can_remove(&self, card: Card) -> (b: bool)
        ensures
            b == self.holds(card),
    ;

    fn can_merge_into(&self, won: Cards) -> (b: bool)
        ensures
            b == self.can_merge(won),
    ;

    fn merge_into_rummy_hand(&self, won: Cards) -> (r: Self::RummyHand)
        requires
            self.can_merge(won),
        ensures
            r == self.merged(won),
    ;

    fn add_card(&mut self, card: Card)
        requires
            old(self).admits(card),
        ensures
            *final(self) == old(self).with_card(card),
    ;

    fn remove_card(&mut self, card: Card)
        requires
            old(self).holds(card),
        ensures
            *final(self) == old(self).without_card(card),
    ;
}

/// A hand of up to three cards, in the order in which they were drawn.
#[derive(Clone, Copy, PartialEq, Eq, Structural, Debug)]
pub struct ServerWarHand {
    first: Option<Card>,
    second: Option<Card>,
    third: Option<Card>,
}

/// Where the first of the cards of a hand equal to `card` stands.
pub open spec fn position(s: Seq<Card>, card: Card) -> int {
    if s.len() > 0 && s[0] == card {
        0
    } else if s.len() > 1 && s[1] == card {
        1
    } else {
        2
    }
}

impl View for ServerWarHand {
    type V = Seq<Card>;

    /// The cards of the hand, in the order in which they were drawn.
    closed spec fn view(&self) -> Seq<Card> {
        match (self.first, self.second, self.third) {
            (Some(a), Some(b), Some(c)) => seq![a, b, c],
            (Some(a), Some(b), None) => seq![a, b],
            (Some(a), None, _) => seq![a],
            _ => Seq::empty(),
        }
    }
}

impl ServerWarHand {
    /// The cards of a hand stand before its free places.
    #[verifier::type_invariant]
    pub closed spec fn wf(self) -> bool {
        (self.first.is_none() ==> self.second.is_none()) && (self.second.is_none() ==> self.third.is_none())
    }

    /// The hand that holds the cards of `s`, which are at most three.
    pub closed spec fn of(s: Seq<Card>) -> ServerWarHand {
        ServerWarHand {
            first: if s.len() > 0 { Some(s[0]) } else { None },
            second: if s.len() > 1 { Some(s[1]) } else { None },
            third: if s.len() > 2 { Some(s[2]) } else { None },
        }
    }

    /// The cards of the hand, in the order in which they were drawn.
    pub fn cards(&self) -> (v: Vec<Card>)
        ensures
            v@ == self@,
    {
        let mut v: Vec<Card> = Vec::new();
        proof {
            use_type_invariant(self);
        }
        if let Some(a) = self.first {
            v.push(a);
            if let Some(b) = self.second {
                v.push(b);
                if let Some(c) = self.third {
                    v.push(c);
                }
            }
        }
        assert(v@ =~= self@);
        v
    }

    /// Whether the hand holds a card of `rank`.
    pub fn has_rank(&self, rank: crate::rank::Rank) -> (b: bool)
        ensures
            b == (exists|i: int| 0 <= i < self@.len() && self@[i].spec_rank() == rank),
    {
        proof {
            use_type_invariant(self);
        }
        let a: bool = match self.first {
            Some(c) => c.rank() == rank,
            None => false,
        };
        let b: bool = match self.second {
            Some(c) => c.rank() == rank,
            None => false,
        };
        let c: bool = match self.third {
            Some(c) => c.rank() == rank,
            None => false,
        };
        proof {
            if a {
                assert(self@[0].spec_rank() == rank);
            }
            if b {
                assert(self@[1].spec_rank() == rank);
            }
            if c {
                assert(self@[2].spec_rank() == rank);
            }
        }
        a || b || c
    }
}

/// A hand holds at most three cards, and the hand made of its cards is the hand.
pub proof fn lemma_hand_view(h: ServerWarHand)
    requires
        h.wf(),
    ensures
        h@.len() <= 3,
        ServerWarHand::of(h@) == h,
{
}

/// The hand made of up to three cards is a hand of these cards.
pub proof fn lemma_hand_of(s: Seq<Card>)
    requires
        s.len() <= 3,
    ensures
        ServerWarHand::of(s).wf(),
        ServerWarHand::of(s)@ == s,
{
    assert(ServerWarHand::of(s)@ =~= s);
}

impl WarHand for ServerWarHand {
    type RummyHand = Cards;

    open spec fn empty_hand() -> ServerWarHand {
        ServerWarHand::of(Seq::empty())
    }

    open spec fn spec_len(&self) -> nat {
        self@.len()
    }

    open spec fn has_card(&self, card: Card) -> bool {
        self@.contains(card)
    }

    open spec fn admits(&self, card: Card) -> bool {
        self@.len() < 3
    }

    open spec fn with_card(&self, card: Card) -> ServerWarHand {
        ServerWarHand::of(self@.push(card))
    }

    open spec fn holds(&self, card: Card) -> bool {
        self@.contains(card)
    }

    open spec fn without_card(&self, card: Card) -> ServerWarHand {
        ServerWarHand::of(self@.remove(position(self@, card)))
    }

    open spec fn can_merge(&self, won: Cards) -> bool {
        fits_all(won, self@)
    }

    open spec fn merged(&self, won: Cards) -> Cards {
        plus_all(won, self@)
    }

    fn new() -> (h: ServerWarHand) {
        ServerWarHand { first: None, second: None, third: None }
    }

    fn is_empty(&self) -> (b: bool) {
        proof {
            use_type_invariant(self);
        }
        self.first.is_none()
    }

    fn len(&self) -> (n: usize) {
        proof {
            use_type_invariant(self);
        }
        if self.first.is_none() {
            0
        } else if self.second.is_none() {
            1
        } else if self.third.is_none() {
            2
        } else {
            3
        }
    }

    fn check_has_card(&self, card: Card) -> (r: Result<(), GoatError>) {
        if self.can_remove(card) {
            Ok(())
        } else {
            Err(GoatError::NotYourCard { card })
        }
    }

    fn can_add(&self, card: Card) -> (b: bool) {
        proof {
            use_type_invariant(self);
        }
        self.third.is_none()
    }

    fn can_remove(&self, card: Card) -> (b: bool) {
        proof {
            use_type_invariant(self);
        }
        let a: bool = self.first == Some(card);
        let b: bool = self.second == Some(card);
        let c: bool = self.third == Some(card);
        proof {
            if a {
                assert(self@[0] == card);
            }
            if b {
                assert(self@[1] == card);
            }
            if c {
                assert(self@[2] == card);
            }
        }
        a || b || c
    }

    fn can_merge_into(&self, won: Cards) -> (b: bool) {
        let cards: Vec<Card> = self.cards();
        can_add_all(won, &cards)
    }

    fn merge_into_rummy_hand(&self, won: Cards) -> (r: Cards) {
        let cards: Vec<Card> = self.cards();
        add_all(won, &cards)
    }

    fn add_card(&mut self, card: Card) {
        proof {
            use_type_invariant(&*self);
        }
        if self.first.is_none() {
            *self = ServerWarHand { first: Some(card), second: None, third: None };
        } else if self.second.is_none() {
            *self = ServerWarHand { first: self.first, second: Some(card), third: None };
        } else {
            *self = ServerWarHand { first: self.first, second: self.second, third: Some(card) };
        }
    }

    fn remove_card(&mut self, card: Card) {
        proof {
            use_type_invariant(&*self);
        }
        if self.first == Some(card) {
            assert(old(self)@[0] == card);
            *self = ServerWarHand { first: self.second, second: self.third, third: None };
        } else if self.second == Some(card) {
            assert(old(self)@[1] == card);
            *self = ServerWarHand { first: self.first, second: self.third, third: None };
        } else {
            assert(old(self)@[2] == card);
            *self = ServerWarHand { first: self.first, second: self.second, third: None };
        }
    }
}

/// The hand of a player as a client sees it: the cards of its own player, and
/// of any other the number of cards.
#[derive(Clone, Copy, PartialEq, Eq, Structural, Debug)]
pub enum ClientWarHand {
    Visible(ServerWarHand),
    Hidden(u8),
}

impl ClientWarHand {
    /// Whether `n` cards that the client does not see can be added to the hand.
    pub open spec fn admits_hidden(self, n: u8) -> bool {
        match self {
            ClientWarHand::Visible(hand) => hand@.len() == 0,
            ClientWarHand::Hidden(count) => count + n <= 255,
        }
    }

    /// The hand with `n` cards added that the client does not see.
    pub open spec fn with_hidden(self, n: u8) -> ClientWarHand {
        match self {
            ClientWarHand::Visible(hand) => ClientWarHand::Hidden(n),
            ClientWarHand::Hidden(count) => ClientWarHand::Hidden((count + n) as u8),
        }
    }

    /// Whether `n` cards that the client does not see can be added to the hand.
    pub fn can_add_hidden(&self, n: u8) -> (b: bool)
        ensures
            b == self.admits_hidden(n),
    {
        match self {
            ClientWarHand::Visible(hand) => hand.is_empty(),
            ClientWarHand::Hidden(count) => *count <= 255 - n,
        }
    }

    /// Adds `n` cards that the client does not see. An empty hand becomes a
    /// hand of unseen cards; a hand of seen cards cannot take unseen ones.
    pub fn add_hidden(&mut self, n: u8)
        requires
            old(self).admits_hidden(n),
        ensures
            *final(self) == old(self).with_hidden(n),
    {
        match *self {
            ClientWarHand::Visible(hand) => {
                *self = ClientWarHand::Hidden(n);
            },
            ClientWarHand::Hidden(count) => {
                *self = ClientWarHand::Hidden(count + n);
            },
        }
    }
}

impl WarHand for ClientWarHand {
    type RummyHand = ClientRummyHand;

    open spec fn empty_hand() -> ClientWarHand {
        ClientWarHand::Visible(ServerWarHand::of(Seq::empty()))
    }

    open spec fn spec_len(&self) -> nat {
        match *self {
            ClientWarHand::Visible(hand) => hand@.len(),
            ClientWarHand::Hidden(count) => count as nat,
        }
    }

    open spec fn has_card(&self, card: Card) -> bool {
        true
    }

    open spec fn admits(&self, card: Card) -> bool {
        match *self {
            ClientWarHand::Visible(hand) => hand@.len() < 3,
            ClientWarHand::Hidden(count) => count == 0,
        }
    }

    open spec fn with_card(&self, card: Card) -> ClientWarHand {
        match *self {
            ClientWarHand::Visible(hand) => ClientWarHand::Visible(hand.with_card(card)),
            ClientWarHand::Hidden(count) => ClientWarHand::Visible(ServerWarHand::of(seq![card])),
        }
    }

    open spec fn holds(&self, card: Card) -> bool {
        match *self {
            ClientWarHand::Visible(hand) => hand@.contains(card),
            ClientWarHand::Hidden(count) => count > 0,
        }
    }

    open spec fn without_card(&self, card: Card) -> ClientWarHand {
        match *self {
            ClientWarHand::Visible(hand) => ClientWarHand::Visible(hand.without_card(card)),
            ClientWarHand::Hidden(count) => ClientWarHand::Hidden((count - 1) as u8),
        }
    }

    open spec fn can_merge(&self, won: Cards) -> bool {
        match *self {
            ClientWarHand::Visible(hand) => fits_all(won, hand@),
            ClientWarHand::Hidden(count) => true,
        }
    }

    open spec fn merged(&self, won: Cards) -> ClientRummyHand {
        match *self {
            ClientWarHand::Visible(hand) => ClientRummyHand { known: plus_all(won, hand@), unknown: 0 },
            ClientWarHand::Hidden(count) => ClientRummyHand { known: won, unknown: count },
        }
    }

    fn new() -> (h: ClientWarHand) {
        ClientWarHand::Visible(ServerWarHand::new())
    }

    fn is_empty(&self) -> (b: bool) {
        match self {
            ClientWarHand::Visible(hand) => hand.is_empty(),
            ClientWarHand::Hidden(count) => *count == 0,
        }
    }

    fn len(&self) -> (n: usize) {
        match self {
            ClientWarHand::Visible(hand) => hand.len(),
            ClientWarHand::Hidden(count) => *count as usize,
        }
    }

    fn check_has_card(&self, card: Card) -> (r: Result<(), GoatError>) {
        Ok(())
    }

    fn can_add(&self, card: Card) -> (b: bool) {
        match self {
            ClientWarHand::Visible(hand) => hand.can_add(card),
            ClientWarHand::Hidden(count) => *count == 0,
        }
    }

    fn can_remove(&self, card: Card) -> (b: bool) {
        match self {
            ClientWarHand::Visible(hand) => hand.can_remove(card),
            ClientWarHand::Hidden(count) => *count > 0,
        }
    }

    fn can_merge_into(&self, won: Cards) -> (b: bool) {
        match self {
            ClientWarHand::Visible(hand) => hand.can_merge_into(won),
            ClientWarHand::Hidden(count) => true,
        }
    }

    fn merge_into_rummy_hand(&self, won: Cards) -> (r: ClientRummyHand) {
        match self {
            ClientWarHand::Visible(hand) => ClientRummyHand { known: hand.merge_into_rummy_hand(won), unknown: 0 },
            ClientWarHand::Hidden(count) => ClientRummyHand { known: won, unknown: *count },
        }
    }

    fn add_card(&mut self, card: Card) {
        match *self {
            ClientWarHand::Visible(hand) => {
                let mut h: ServerWarHand = hand;
                h.add_card(card);
                *self = ClientWarHand::Visible(h);
            },
            ClientWarHand::Hidden(count) => {
                let mut h: ServerWarHand = ServerWarHand::new();
                proof {
                    use_type_invariant(&h);
                    lemma_hand_view(h);
                    assert(h@.push(card) =~= seq![card]);
                }
                h.add_card(card);
                *self = ClientWarHand::Visible(h);
            },
        }
    }

    fn remove_card(&mut self, card: Card) {
        match *self {
            ClientWarHand::Visible(hand) => {
                let mut h: ServerWarHand = hand;
                h.remove_card(card);
                *self = ClientWarHand::Visible(h);
            },
            ClientWarHand::Hidden(count) => {
                *self = ClientWarHand::Hidden(count - 1);
            },
        }
    }
}

} // verus!
