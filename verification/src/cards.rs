//! A multiset of playing cards in one 128-bit word: a two-bit counter for each
//! card, so that a set holds up to three copies of a card.
use vstd::prelude::*;
use vstd::multiset::Multiset;
use vstd::std_specs::convert::FromSpecImpl;
use vstd::std_specs::ops::AddSpecImpl;
use vstd::std_specs::ops::SubSpecImpl;
use vstd::std_specs::ops::MulSpecImpl;
use crate::bits::{
    borrow, carry, field, lemma_above, lemma_below, lemma_borrow_field, lemma_borrow_free, lemma_carry_field, lemma_carry_free,
    lemma_common, lemma_constant_fields, lemma_constants, lemma_field_bound, lemma_fields_equal, lemma_highest, lemma_lane,
    lemma_lowest, lemma_nonzero_field, lemma_overlap, lemma_probe, lemma_range, lemma_single, lemma_total_add, lemma_total_deck,
    lemma_total_popcount, lemma_total_single, lemma_total_small, lemma_total_sub, lemma_total_zero, lemma_valid_field,
    lemma_valid_masks, meet, popcount, present, total, valid, EVEN, HIGH, LOW, ODD,
};
use crate::card::{lemma_card_at, lemma_card_index, lemma_card_new, Card};
use crate::rank::Rank;
use crate::suit::Suit;
use crate::text::push_char;
use vstd::string::StrSliceExecFns;

verus! {

/// `count_ones` gives the number of ones in the binary representation of the
/// word, which has 128 digits.
pub assume_specification[ u128::count_ones ](x: u128) -> (r: u32)
    ensures
        r == popcount(x as nat),
        r <= 128,
;

/// `leading_zeros` gives the number of zeros above the highest one of the word:
/// 128 for zero, and otherwise the word shifted down to that one is one.
pub assume_specification[ u128::leading_zeros ](x: u128) -> (r: u32)
    ensures
        r <= 128,
        (r == 128) == (x == 0),
        r < 128 ==> x >> ((127 - r) as u128) == 1,
;

/// `trailing_zeros` gives the number of zeros below the lowest one of the word:
/// 128 for zero, and otherwise bit `r` is set and no bit below it.
pub assume_specification[ u128::trailing_zeros ](x: u128) -> (r: u32)
    ensures
        r <= 128,
        (r == 128) == (x == 0),
        r < 128 ==> (x >> (r as u128)) & 1 == 1 && (x >> (r as u128)) << (r as u128) == x,
;

/// A multiset of cards with at most three copies of each.
#[derive(Clone, Copy, PartialEq, Eq, Structural, Hash, Debug)]
pub struct Cards {
    bits: u128,
}

impl Cards {
    /// No card.
    pub closed spec fn spec_none() -> Cards {
        Cards { bits: 0 }
    }

    /// One copy of each club.
    pub closed spec fn spec_clubs() -> Cards {
        Cards { bits: 0x0155_5555 }
    }

    /// One copy of each of the fifty-two cards.
    pub closed spec fn spec_one_deck() -> Cards {
        Cards { bits: LOW }
    }

    /// One copy of each two, three, four and five.
    pub closed spec fn spec_common_dreck() -> Cards {
        Cards { bits: 0x0000_0055_0000_0055_0000_0055_0000_0055 }
    }

    #[verifier::when_used_as_spec(spec_none)]
    pub fn none() -> (r: Cards)
        ensures
            r == Cards::spec_none(),
    {
        proof {
            lemma_constants();
        }
        Cards { bits: 0 }
    }

    #[verifier::when_used_as_spec(spec_clubs)]
    pub fn clubs() -> (r: Cards)
        ensures
            r == Cards::spec_clubs(),
    {
        proof {
            lemma_constants();
        }
        Cards { bits: 0x0155_5555 }
    }

    #[verifier::when_used_as_spec(spec_one_deck)]
    pub fn one_deck() -> (r: Cards)
        ensures
            r == Cards::spec_one_deck(),
    {
        proof {
            lemma_constants();
        }
        Cards { bits: LOW }
    }

    #[verifier::when_used_as_spec(spec_common_dreck)]
    pub fn common_dreck() -> (r: Cards)
        ensures
            r == Cards::spec_common_dreck(),
    {
        proof {
            lemma_constants();
        }
        Cards { bits: 0x0000_0055_0000_0055_0000_0055_0000_0055 }
    }

    /// Only counters of cards are set. This holds of every set that the program holds.
    #[verifier::type_invariant]
    pub closed spec fn wf(self) -> bool {
        valid(self.bits)
    }

    /// The number of copies of `c` in the set.
    pub closed spec fn count(self, c: Card) -> nat {
        field(self.bits, c.index() as u128) as nat
    }

    /// The number of cards in the set, each copy counted.
    pub closed spec fn spec_len(self) -> nat {
        total(self.bits as nat)
    }

    /// The set holds at least one copy of `c`.
    pub open spec fn has(self, c: Card) -> bool {
        self.count(c) > 0
    }

    /// The two sets can be added: no card would be held more than three times.
    pub open spec fn fits(self, other: Cards) -> bool {
        forall|c: Card| self.count(c) + other.count(c) <= 3
    }

    /// The set holds each card at least as often as `other` does.
    pub open spec fn includes(self, other: Cards) -> bool {
        forall|c: Card| other.count(c) <= self.count(c)
    }

    /// The set with one copy of `c` and nothing else.
    pub closed spec fn single(c: Card) -> Cards {
        Cards { bits: 1u128 << ((2 * c.index()) as u128) }
    }

    /// The cards that both sets hold: of each card as many copies as both do.
    pub closed spec fn spec_meet(self, other: Cards) -> Cards {
        Cards { bits: meet(self.bits, other.bits) }
    }

    /// The cards of the set that `cards` holds too, each as often as the set
    /// holds it.
    pub closed spec fn part(self, cards: Cards) -> Cards {
        let m = present(cards.bits) | (present(cards.bits) << 1);
        Cards { bits: self.bits & m }
    }

    /// `n` copies of the set.
    pub open spec fn scaled(self, n: nat) -> Cards
        decreases n,
    {
        if n == 0 {
            Cards::spec_none()
        } else {
            self.scaled((n - 1) as nat).plus(self)
        }
    }

    /// The cards of the set that are of `suit`.
    pub closed spec fn spec_in_suit(self, suit: Suit) -> Cards {
        Cards { bits: self.bits & (0x03ff_ffffu128 << ((32 * suit.spec_idx()) as u128)) }
    }

    /// One copy of each card of the set that has the suit of `card` and a
    /// higher rank.
    pub closed spec fn spec_above(self, card: Card) -> Cards {
        let bit = 1u128 << ((2 * card.index()) as u128);
        let lane = 0x0155_5555u128 << ((32 * (card.index() / 16)) as u128);
        Cards { bits: present(self.bits) & lane & !((2 * bit - 1) as u128) }
    }

    /// One copy of each card of the set that has the suit of `card` and a lower
    /// rank.
    pub closed spec fn spec_below(self, card: Card) -> Cards {
        let bit = 1u128 << ((2 * card.index()) as u128);
        let lane = 0x0155_5555u128 << ((32 * (card.index() / 16)) as u128);
        Cards { bits: present(self.bits) & lane & ((bit - 1) as u128) }
    }

    /// The sum of two sets that fit.
    pub closed spec fn plus(self, other: Cards) -> Cards {
        Cards { bits: (self.bits + other.bits) as u128 }
    }

    /// The difference of a set and one that it includes.
    pub closed spec fn minus(self, other: Cards) -> Cards {
        Cards { bits: (self.bits - other.bits) as u128 }
    }
}

impl View for Cards {
    type V = Multiset<Card>;

    /// The set as a multiset: each card as often as the set holds it.
    open spec fn view(&self) -> Multiset<Card> {
        Multiset::from_map(Map::new(|c: Card| true, |c: Card| self.count(c)))
    }
}

/// The multiset of a set holds each card as often as the set does; the sum of
/// two sets that fit is the sum of their multisets, and the difference of a set
/// and one that it includes the difference of their multisets.
pub proof fn lemma_view(a: Cards, b: Cards)
    ensures
        forall|c: Card| #[trigger] a@.count(c) == a.count(c),
        a.wf() && b.wf() && a.fits(b) ==> a.plus(b)@ == a@.add(b@),
        a.wf() && b.wf() && a.includes(b) ==> a.minus(b)@ == a@.sub(b@),
        a.wf() && b.wf() && a@ == b@ ==> a == b,
{
    lemma_view_count(a);
    lemma_view_count(b);
    if a.wf() && b.wf() && a.fits(b) {
        lemma_plus(a, b);
        lemma_view_count(a.plus(b));
        assert(a.plus(b)@ =~= a@.add(b@));
    }
    if a.wf() && b.wf() && a.includes(b) {
        lemma_minus(a, b);
        lemma_view_count(a.minus(b));
        assert(a.minus(b)@ =~= a@.sub(b@));
    }
    if a.wf() && b.wf() && a@ == b@ {
        assert forall|c: Card| a.count(c) == b.count(c) by {
            assert(a@.count(c) == b@.count(c));
        }
        lemma_cards_equal(a, b);
    }
}

/// The multiset of a set holds as many cards as the set does.
pub proof fn lemma_view_len(a: Cards)
    requires
        a.wf(),
    ensures
        a@.len() == a.spec_len(),
    decreases a.spec_len(),
{
    broadcast use vstd::multiset::group_multiset_axioms;
    lemma_view_count(a);
    lemma_empty(a);
    if a == Cards::spec_none() {
        assert(a@ =~= Multiset::<Card>::empty());
    } else {
        let c = choose|c: Card| a.count(c) != 0;
        let one = Cards::single(c);
        lemma_single_counts(c);
        assert(a.includes(one)) by {
            assert forall|x: Card| one.count(x) <= a.count(x) by {}
        }
        lemma_minus(a, one);
        let rest = a.minus(one);
        lemma_view_len(rest);
        lemma_view_count(rest);
        lemma_view_count(one);
        assert(one@ =~= Multiset::singleton(c));
        assert(a@ =~= rest@.add(one@));
    }
}

/// The multiset of a set holds each card as often as the set does.
pub proof fn lemma_view_count(a: Cards)
    ensures
        forall|c: Card| #[trigger] a@.count(c) == a.count(c),
{
    let all = Seq::new(64, |i: int| Card::at(i));
    let dom = Set::new(|c: Card| true);
    assert(dom =~= all.to_set()) by {
        assert forall|c: Card| all.to_set().contains(c) by {
            lemma_card_index(c);
            assert(all[c.index()] == c);
        }
    }
    vstd::seq_lib::seq_to_set_is_finite(all);
    let m = Map::new(|c: Card| true, |c: Card| a.count(c));
    assert(m.dom() =~= dom);
    assert forall|c: Card| #[trigger] a@.count(c) == a.count(c) by {
        vstd::multiset::axiom_multiset_contained(m, c);
    }
}

/// A well-formed set has no counter but those of cards.
proof fn lemma_wf_place(a: Cards, i: u128)
    requires
        a.wf(),
        i < 64,
        field(a.bits, i) != 0,
    ensures
        Card::is_index(i as int),
        a.count(Card::at(i as int)) == field(a.bits, i),
{
    lemma_valid_field(a.bits, i);
    lemma_card_at(i as int);
}

/// Two well-formed sets that hold each card equally often are one set.
pub proof fn lemma_cards_equal(a: Cards, b: Cards)
    requires
        a.wf(),
        b.wf(),
        forall|c: Card| a.count(c) == b.count(c),
    ensures
        a == b,
{
    assert forall|i: u128| i < 64 implies field(a.bits, i) == field(b.bits, i) by {
        if field(a.bits, i) != 0 {
            lemma_wf_place(a, i);
        } else if field(b.bits, i) != 0 {
            lemma_wf_place(b, i);
        }
    }
    lemma_fields_equal(a.bits, b.bits);
}

/// A set never holds a card more than three times.
pub proof fn lemma_count_bound(a: Cards, c: Card)
    ensures
        a.count(c) <= 3,
{
    lemma_field_bound(a.bits, c.index() as u128);
}

/// The set of one card holds that card once, and no other.
pub proof fn lemma_single_counts(card: Card)
    ensures
        Cards::single(card).wf(),
        Cards::single(card).spec_len() == 1,
        Cards::single(card).has(card),
        forall|c: Card| #[trigger] Cards::single(card).count(c) == (if c == card { 1nat } else { 0nat }),
{
    lemma_card_index(card);
    let j = card.index() as u128;
    lemma_single(j, j);
    lemma_total_single(j);
    assert forall|c: Card| #[trigger] Cards::single(card).count(c) == (if c == card { 1nat } else { 0nat }) by {
        lemma_card_index(c);
        lemma_single(j, c.index() as u128);
    }
}

/// Where two sets fit, their words add without a carry from counter to counter.
proof fn lemma_fits_carry(a: Cards, b: Cards)
    requires
        a.wf(),
        b.wf(),
        a.fits(b),
    ensures
        carry(a.bits, b.bits) == 0,
{
    let e = carry(a.bits, b.bits);
    if e != 0 {
        let i = lemma_nonzero_field(e);
        lemma_carry_field(a.bits, b.bits, i);
        lemma_field_bound(a.bits, i);
        lemma_field_bound(b.bits, i);
        if field(a.bits, i) != 0 {
            lemma_wf_place(a, i);
            assert(b.count(Card::at(i as int)) == field(b.bits, i)) by { lemma_card_at(i as int); }
        } else {
            lemma_wf_place(b, i);
        }
        assert(a.count(Card::at(i as int)) + b.count(Card::at(i as int)) <= 3);
    }
}

/// A card can be added to a set that holds it less than three times.
pub proof fn lemma_fits_single(a: Cards, card: Card)
    ensures
        a.fits(Cards::single(card)) == (a.count(card) < 3),
{
    lemma_single_counts(card);
    if a.count(card) < 3 {
        assert forall|c: Card| a.count(c) + Cards::single(card).count(c) <= 3 by {
            lemma_count_bound(a, c);
        }
    } else {
        assert(a.count(card) + Cards::single(card).count(card) > 3);
    }
}

/// The sum of two sets that fit holds each card as often as both together.
pub proof fn lemma_plus(a: Cards, b: Cards)
    requires
        a.wf(),
        b.wf(),
        a.fits(b),
    ensures
        a.plus(b).wf(),
        a.plus(b).spec_len() == a.spec_len() + b.spec_len(),
        forall|c: Card| #[trigger] a.plus(b).count(c) == a.count(c) + b.count(c),
{
    lemma_fits_carry(a, b);
    lemma_carry_free(a.bits, b.bits, 0);
    lemma_total_add(a.bits, b.bits);
    assert forall|c: Card| #[trigger] a.plus(b).count(c) == a.count(c) + b.count(c) by {
        lemma_card_index(c);
        lemma_carry_free(a.bits, b.bits, c.index() as u128);
    }
}

/// Where a set includes another, their words subtract without a borrow from
/// counter to counter.
proof fn lemma_includes_borrow(a: Cards, b: Cards)
    requires
        a.wf(),
        b.wf(),
        a.includes(b),
    ensures
        borrow(a.bits, b.bits) == 0,
{
    let e = borrow(a.bits, b.bits);
    if e != 0 {
        let i = lemma_nonzero_field(e);
        lemma_borrow_field(a.bits, b.bits, i);
        lemma_wf_place(b, i);
        assert(a.count(Card::at(i as int)) == field(a.bits, i));
    }
}

/// The difference of a set and one that it includes holds each card as often
/// as the first without the second.
pub proof fn lemma_minus(a: Cards, b: Cards)
    requires
        a.wf(),
        b.wf(),
        a.includes(b),
    ensures
        a.minus(b).wf(),
        a.minus(b).spec_len() == a.spec_len() - b.spec_len(),
        forall|c: Card| #[trigger] a.minus(b).count(c) == a.count(c) - b.count(c),
{
    lemma_includes_borrow(a, b);
    lemma_borrow_free(a.bits, b.bits, 0);
    lemma_total_sub(a.bits, b.bits);
    assert forall|c: Card| #[trigger] a.minus(b).count(c) == a.count(c) - b.count(c) by {
        lemma_card_index(c);
        lemma_borrow_free(a.bits, b.bits, c.index() as u128);
    }
}

impl Cards {
    /// The cards of one suit from `lo` up to `hi`, once each.
    pub open spec fn in_run(c: Card, lo: Card, hi: Card) -> bool {
        c.spec_suit() == lo.spec_suit() && lo.spec_rank().spec_idx() <= c.spec_rank().spec_idx()
            <= hi.spec_rank().spec_idx()
    }

    /// Whether `lo` and `hi` bound a run: one suit, and `lo` not above `hi`.
    pub open spec fn is_run(lo: Card, hi: Card) -> bool {
        lo.spec_suit() == hi.spec_suit() && lo.spec_rank().spec_idx() <= hi.spec_rank().spec_idx()
    }

    /// The set of the cards of one suit from `lo` up to `hi`, once each.
    pub closed spec fn spec_range(lo: Card, hi: Card) -> Cards {
        Cards {
            bits: ((2 * (1u128 << ((2 * hi.index()) as u128)) - (1u128 << ((2 * lo.index()) as u128))) as u128)
                & LOW,
        }
    }

    pub fn range(lo: Card, hi: Card) -> (r: Cards)
        requires
            Cards::is_run(lo, hi),
        ensures
            r == Cards::spec_range(lo, hi),
            forall|c: Card| #[trigger] r.count(c) == (if Cards::in_run(c, lo, hi) { 1nat } else { 0nat }),
    {
        proof {
            lemma_range_counts(lo, hi);
            lemma_card_index(lo);
            lemma_card_index(hi);
            lemma_range(lo.index() as u128, hi.index() as u128, 0);
        }
        let lo_bits: u128 = 1u128 << (2 * lo.place());
        let hi_bits: u128 = 1u128 << (2 * hi.place());
        let range_bits: u128 = 2 * hi_bits - lo_bits;
        Cards { bits: range_bits & LOW }
    }

    /// Whether the set holds no card.
    pub fn is_empty(self) -> (b: bool)
        ensures
            b == (self == Cards::spec_none()),
            b == (self.spec_len() == 0),
            b == (forall|c: Card| #[trigger] self.count(c) == 0),
    {
        proof {
            use_type_invariant(self);
            lemma_empty(self);
        }
        self.bits == 0
    }

    /// The number of cards, each copy counted.
    pub fn len(self) -> (n: usize)
        ensures
            n == self.spec_len(),
            n == self@.len(),
            n <= 189,
    {
        proof {
            use_type_invariant(self);
            lemma_view_len(self);
            lemma_valid_masks(self.bits);
            lemma_total_popcount(self.bits);
            lemma_total_small(self.bits);
        }
        let hi: u32 = (self.bits & HIGH).count_ones();
        let lo: u32 = (self.bits & LOW).count_ones();
        (2 * hi + lo) as usize
    }

    /// The highest card of the set: the highest suit in it, and the highest rank of that.
    pub fn max(self) -> (c: Card)
        requires
            self != Cards::spec_none(),
        ensures
            self.has(c),
            forall|x: Card| self.has(x) ==> x.index() <= c.index(),
    {
        let r: u32 = self.bits.leading_zeros();
        let i: u8 = (63 - r / 2) as u8;
        proof {
            use_type_invariant(self);
            lemma_highest(self.bits, r as u128, 0);
            lemma_wf_place(self, i as u128);
            assert forall|x: Card| self.has(x) implies x.index() <= i by {
                lemma_card_index(x);
                lemma_highest(self.bits, r as u128, x.index() as u128);
            }
        }
        Card::from_place(i)
    }

    /// The lowest card of the set: the lowest suit in it, and the lowest rank of that.
    pub fn min(self) -> (c: Card)
        requires
            self != Cards::spec_none(),
        ensures
            self.has(c),
            forall|x: Card| self.has(x) ==> c.index() <= x.index(),
    {
        let r: u32 = self.bits.trailing_zeros();
        let i: u8 = (r / 2) as u8;
        proof {
            use_type_invariant(self);
            lemma_lowest(self.bits, r as u128, 0);
            lemma_wf_place(self, i as u128);
            assert forall|x: Card| self.has(x) implies i <= x.index() by {
                lemma_card_index(x);
                lemma_lowest(self.bits, r as u128, x.index() as u128);
            }
        }
        Card::from_place(i)
    }

    /// The cards of the set that are of `suit`.
    pub fn in_suit(self, suit: Suit) -> (r: Cards)
        ensures
            r == self.spec_in_suit(suit),
            forall|c: Card| #[trigger] r.count(c) == (if c.spec_suit() == suit { self.count(c) } else { 0nat }),
    {
        let mask: u128 = 0x03ff_ffffu128 << (32 * (suit.idx() as u8));
        proof {
            lemma_lane(self.bits, suit.spec_idx() as u128, 0);
            assert forall|c: Card| #[trigger] (Cards { bits: self.bits & mask }).count(c) == (if c.spec_suit()
                == suit { self.count(c) } else { 0nat }) by {
                lemma_card_index(c);
                lemma_lane(self.bits, suit.spec_idx() as u128, c.index() as u128);
            }
        }
        Cards { bits: self.bits & mask }
    }

    /// One copy of each card of the set that has the suit of `card` and a higher rank.
    pub fn above(self, card: Card) -> (r: Cards)
        ensures
            r == self.spec_above(card),
            forall|c: Card| #[trigger] r.count(c) == (if c.spec_suit() == card.spec_suit() && c.spec_rank().spec_idx()
                > card.spec_rank().spec_idx() && self.has(c) { 1nat } else { 0nat }),
    {
        let j: u8 = card.place();
        let nz: u128 = (self.bits | (self.bits >> 1)) & LOW;
        let suit_mask: u128 = 0x0155_5555u128 << (32 * (j / 16));
        proof {
            lemma_above(self.bits, j as u128, 0);
        }
        let rank_mask: u128 = !(2 * (1u128 << (2 * j)) - 1);
        let r = Cards { bits: nz & suit_mask & rank_mask };
        proof {
            lemma_card_index(card);
            assert forall|c: Card| #[trigger] r.count(c) == (if c.spec_suit() == card.spec_suit() && c.spec_rank().spec_idx()
                > card.spec_rank().spec_idx() && self.has(c) { 1nat } else { 0nat }) by {
                lemma_card_index(c);
                lemma_above(self.bits, j as u128, c.index() as u128);
            }
        }
        r
    }

    /// One copy of each card of the set that has the suit of `card` and a lower rank.
    pub fn below(self, card: Card) -> (r: Cards)
        ensures
            r == self.spec_below(card),
            forall|c: Card| #[trigger] r.count(c) == (if c.spec_suit() == card.spec_suit() && c.spec_rank().spec_idx()
                < card.spec_rank().spec_idx() && self.has(c) { 1nat } else { 0nat }),
    {
        let j: u8 = card.place();
        let nz: u128 = (self.bits | (self.bits >> 1)) & LOW;
        let suit_mask: u128 = 0x0155_5555u128 << (32 * (j / 16));
        proof {
            lemma_below(self.bits, j as u128, 0);
        }
        let rank_mask: u128 = (1u128 << (2 * j)) - 1;
        let r = Cards { bits: nz & suit_mask & rank_mask };
        proof {
            lemma_card_index(card);
            assert forall|c: Card| #[trigger] r.count(c) == (if c.spec_suit() == card.spec_suit() && c.spec_rank().spec_idx()
                < card.spec_rank().spec_idx() && self.has(c) { 1nat } else { 0nat }) by {
                lemma_card_index(c);
                lemma_below(self.bits, j as u128, c.index() as u128);
            }
        }
        r
    }

    /// Whether the set holds `other` at least once.
    pub fn contains(self, other: Card) -> (b: bool)
        ensures
            b == self.has(other),
    {
        proof {
            lemma_probe(self.bits, other.index() as u128);
        }
        let mask: u128 = 3u128 << (2 * other.place());
        (self.bits & mask) != 0
    }

    /// Whether some card is held by both sets.
    pub fn contains_any(self, other: Cards) -> (b: bool)
        ensures
            b == (exists|c: Card| self.has(c) && other.has(c)),
    {
        let nz: u128 = (other.bits | (other.bits >> 1)) & LOW;
        let mask: u128 = nz | (nz << 1);
        let common: u128 = self.bits & mask;
        proof {
            if common != 0 {
                let i = lemma_nonzero_field(common);
                lemma_overlap(self.bits, other.bits, i);
                lemma_card_at(i as int);
                assert(self.has(Card::at(i as int)) && other.has(Card::at(i as int)));
            } else {
                assert forall|c: Card| !(self.has(c) && other.has(c)) by {
                    lemma_card_index(c);
                    lemma_overlap(self.bits, other.bits, c.index() as u128);
                }
            }
        }
        common != 0
    }

    /// Whether the set holds each card at least as often as `other` does.
    pub fn contains_all(self, other: Cards) -> (b: bool)
        ensures
            b == self.includes(other),
    {
        let a: u128 = self.bits;
        let o: u128 = other.bits;
        let short: u128 = (o & !a & ODD) | (((!(a ^ o) & ODD) >> 1) & o & !a & EVEN);
        proof {
            use_type_invariant(self);
            use_type_invariant(other);
            if short == 0 {
                assert forall|c: Card| other.count(c) <= self.count(c) by {
                    lemma_card_index(c);
                    lemma_borrow_free(a, o, c.index() as u128);
                }
            } else {
                let i = lemma_nonzero_field(short);
                lemma_borrow_field(a, o, i);
                lemma_wf_place(other, i);
                assert(self.count(Card::at(i as int)) < other.count(Card::at(i as int)));
            }
        }
        short == 0
    }

    /// Whether the two sets can be added.
    pub fn can_add(self, other: Cards) -> (b: bool)
        ensures
            b == self.fits(other),
    {
        let a: u128 = self.bits;
        let o: u128 = other.bits;
        let over: u128 = (a & o & ODD) | (((a | o) >> 1) & a & o & EVEN);
        proof {
            use_type_invariant(self);
            use_type_invariant(other);
            if over == 0 {
                assert forall|c: Card| self.count(c) + other.count(c) <= 3 by {
                    lemma_card_index(c);
                    lemma_carry_free(a, o, c.index() as u128);
                }
            } else {
                lemma_fits_carry_rev(self, other);
            }
        }
        over == 0
    }

    /// The cards that both sets hold: of each card as many copies as both do.
    pub fn common(self, other: Cards) -> (r: Cards)
        ensures
            r == self.spec_meet(other),
            forall|c: Card| #[trigger] r.count(c) == (if self.count(c) <= other.count(c) { self.count(c) } else { other.count(c) }),
            self.includes(r),
            other.includes(r),
    {
        let a: u128 = self.bits;
        let b: u128 = other.bits;
        let less: u128 = (b & !a & ODD) | (((!(a ^ b) & ODD) >> 1) & b & !a & EVEN);
        let one: u128 = (less | (less >> 1)) & EVEN;
        let mask: u128 = one | (one << 1);
        proof {
            use_type_invariant(self);
            crate::bits::lemma_meet(a, b, 0);
        }
        let r = Cards { bits: (a & mask) | (b & !mask) };
        proof {
            assert forall|c: Card| #[trigger] r.count(c) == (if self.count(c) <= other.count(c) { self.count(c) } else { other.count(c) }) by {
                lemma_card_index(c);
                crate::bits::lemma_meet(a, b, c.index() as u128);
            }
        }
        r
    }

    /// Takes out of the set every copy of each card that `cards` holds, and
    /// gives back what was taken.
    pub fn take_all(&mut self, cards: Cards) -> (taken: Cards)
        ensures
            taken == old(self).part(cards),
            *final(self) == old(self).minus(taken),
            old(self).includes(taken),
            forall|c: Card| #[trigger] taken.count(c) == (if cards.has(c) { old(self).count(c) } else { 0nat }),
            forall|c: Card| #[trigger] final(self).count(c) == (if cards.has(c) { 0nat } else { old(self).count(c) }),
            final(self).spec_len() == old(self).spec_len() - taken.spec_len(),
    {
        let nz: u128 = (cards.bits | (cards.bits >> 1)) & LOW;
        let mask: u128 = nz | (nz << 1);
        let taken: u128 = self.bits & mask;
        proof {
            use_type_invariant(&*self);
            lemma_overlap(self.bits, cards.bits, 0);
            lemma_borrow_free(self.bits, taken, 0);
            lemma_total_sub(self.bits, taken);
            assert forall|c: Card| #[trigger] (Cards { bits: taken }).count(c) == (if cards.has(c) { self.count(c) } else { 0nat }) by {
                lemma_card_index(c);
                lemma_overlap(self.bits, cards.bits, c.index() as u128);
            }
            assert forall|c: Card| #[trigger] (Cards { bits: (self.bits - taken) as u128 }).count(c) == (if cards.has(c) {
                0nat
            } else {
                self.count(c)
            }) by {
                lemma_card_index(c);
                lemma_overlap(self.bits, cards.bits, c.index() as u128);
                lemma_borrow_free(self.bits, taken, c.index() as u128);
            }
        }
        self.bits = self.bits - taken;
        Cards { bits: taken }
    }

    /// Whether one more copy of `card` can be added.
    pub fn can_add_card(self, card: Card) -> (b: bool)
        ensures
            b == (self.count(card) < 3),
            b == self.fits(Cards::single(card)),
    {
        proof {
            lemma_fits_single(self, card);
        }
        let one: Cards = Cards::from(card);
        self.can_add(one)
    }

    /// Takes out of the set one copy of each card that `cards` holds, as far as
    /// the set holds it, and gives back what was taken.
    pub fn remove_all(&mut self, cards: Cards) -> (removed: Cards)
        ensures
            forall|c: Card| #[trigger] removed.count(c) == (if old(self).has(c) && cards.has(c) { 1nat } else { 0nat }),
            forall|c: Card| #[trigger] final(self).count(c) == old(self).count(c) - removed.count(c),
            final(self).spec_len() == old(self).spec_len() - removed.spec_len(),
    {
        let mine: u128 = (self.bits | (self.bits >> 1)) & LOW;
        let theirs: u128 = (cards.bits | (cards.bits >> 1)) & LOW;
        let removed: u128 = mine & theirs;
        proof {
            use_type_invariant(&*self);
            lemma_common(self.bits, cards.bits, 0);
            lemma_borrow_free(self.bits, removed, 0);
            lemma_total_sub(self.bits, removed);
            assert forall|c: Card| #[trigger] (Cards { bits: removed }).count(c) == (if self.has(c) && cards.has(c) {
                1nat
            } else {
                0nat
            }) by {
                lemma_card_index(c);
                lemma_common(self.bits, cards.bits, c.index() as u128);
            }
            assert forall|c: Card| #[trigger] (Cards { bits: (self.bits - removed) as u128 }).count(c) == self.count(c) - (Cards {
                bits: removed,
            }).count(c) by {
                lemma_card_index(c);
                lemma_borrow_free(self.bits, removed, c.index() as u128);
            }
        }
        self.bits = self.bits - removed;
        Cards { bits: removed }
    }
}

/// The empty set holds no card, and it is the only well-formed set that holds none.
pub proof fn lemma_empty(a: Cards)
    ensures
        a.wf() ==> (a == Cards::spec_none()) == (forall|c: Card| #[trigger] a.count(c) == 0),
        a == Cards::spec_none() ==> (forall|c: Card| #[trigger] a.count(c) == 0),
        Cards::spec_none().wf(),
        (a == Cards::spec_none()) == (a.spec_len() == 0),
{
    lemma_total_zero(a.bits as nat);
    lemma_constants();
    if a.bits == 0 {
        assert forall|c: Card| #[trigger] a.count(c) == 0 by {
            lemma_field_bound(a.bits, c.index() as u128);
        }
    } else if a.wf() {
        let i = lemma_nonzero_field(a.bits);
        lemma_wf_place(a, i);
        assert(a.count(Card::at(i as int)) != 0);
    }
}

/// Where two sets do not fit, their words carry from one counter to the next.
proof fn lemma_fits_carry_rev(a: Cards, b: Cards)
    requires
        a.wf(),
        b.wf(),
        carry(a.bits, b.bits) != 0,
    ensures
        !a.fits(b),
{
    if a.fits(b) {
        lemma_fits_carry(a, b);
    }
}

/// What the named sets hold.
pub proof fn lemma_named_sets()
    ensures
        Cards::spec_none().wf(),
        Cards::spec_clubs().wf(),
        Cards::spec_one_deck().wf(),
        Cards::spec_common_dreck().wf(),
        forall|c: Card| #[trigger] Cards::spec_none().count(c) == 0,
        forall|c: Card| #[trigger] Cards::spec_clubs().count(c) == (if c.spec_suit() == Suit::Clubs { 1nat } else { 0nat }),
        forall|c: Card| #[trigger] Cards::spec_one_deck().count(c) == 1,
        forall|c: Card| #[trigger] Cards::spec_common_dreck().count(c) == (if c.spec_rank().spec_idx() < 4 { 1nat } else { 0nat }),
{
    lemma_constants();
    assert forall|c: Card| #[trigger] Cards::spec_none().count(c) == 0 by {
        lemma_card_index(c);
        lemma_constant_fields(c.index() as u128);
    }
    assert forall|c: Card| #[trigger] Cards::spec_clubs().count(c) == (if c.spec_suit() == Suit::Clubs { 1nat } else { 0nat }) by {
        lemma_card_index(c);
        lemma_constant_fields(c.index() as u128);
    }
    assert forall|c: Card| #[trigger] Cards::spec_one_deck().count(c) == 1 by {
        lemma_card_index(c);
        lemma_constant_fields(c.index() as u128);
    }
    assert forall|c: Card| #[trigger] Cards::spec_common_dreck().count(c) == (if c.spec_rank().spec_idx() < 4 { 1nat } else { 0nat }) by {
        lemma_card_index(c);
        lemma_constant_fields(c.index() as u128);
    }
}

/// What lies above and below `card` in a set, at the card `x`.
proof fn lemma_above_below_at(a: Cards, card: Card, x: Card)
    ensures
        a.spec_above(card).count(x) == (if x.spec_suit() == card.spec_suit() && x.spec_rank().spec_idx() > card.spec_rank().spec_idx()
            && a.has(x) { 1nat } else { 0nat }),
        a.spec_below(card).count(x) == (if x.spec_suit() == card.spec_suit() && x.spec_rank().spec_idx() < card.spec_rank().spec_idx()
            && a.has(x) { 1nat } else { 0nat }),
        a.spec_in_suit(card.spec_suit()).count(x) == (if x.spec_suit() == card.spec_suit() { a.count(x) } else { 0nat }),
        x.spec_suit() == card.spec_suit() && x.spec_rank().spec_idx() == card.spec_rank().spec_idx() ==> x == card,
{
    lemma_card_index(card);
    lemma_card_index(x);
    let j = card.index() as u128;
    let i = x.index() as u128;
    lemma_above(a.bits, j, i);
    lemma_below(a.bits, j, i);
    lemma_lane(a.bits, card.spec_suit().spec_idx() as u128, i);
    lemma_field_bound(a.bits, i);
}

/// What lies above a card and what lies below it in a set have no card in
/// common; and together with the card itself, where the set holds it, they are
/// the cards of its suit in the set, one copy of each.
pub proof fn lemma_above_below(a: Cards, card: Card)
    ensures
        forall|x: Card| !(a.spec_above(card).has(x) && a.spec_below(card).has(x)),
        forall|x: Card| #[trigger]
            a.spec_above(card).count(x) + a.spec_below(card).count(x) + (if x == card && a.has(card) { 1nat } else { 0nat }) == (
            if a.spec_in_suit(card.spec_suit()).has(x) { 1nat } else { 0nat }),
        forall|x: Card| a.spec_above(card).has(x) ==> x.spec_suit() == card.spec_suit() && x.spec_rank().spec_idx()
            > card.spec_rank().spec_idx() && a.has(x),
        forall|x: Card| a.spec_below(card).has(x) ==> x.spec_suit() == card.spec_suit() && x.spec_rank().spec_idx()
            < card.spec_rank().spec_idx() && a.has(x),
{
    assert forall|x: Card| !(a.spec_above(card).has(x) && a.spec_below(card).has(x)) by {
        lemma_above_below_at(a, card, x);
    }
    assert forall|x: Card| #[trigger]
        a.spec_above(card).count(x) + a.spec_below(card).count(x) + (if x == card && a.has(card) { 1nat } else { 0nat }) == (
        if a.spec_in_suit(card.spec_suit()).has(x) { 1nat } else { 0nat }) by {
        lemma_above_below_at(a, card, x);
    }
    assert forall|x: Card| a.spec_above(card).has(x) implies x.spec_suit() == card.spec_suit() && x.spec_rank().spec_idx()
        > card.spec_rank().spec_idx() && a.has(x) by {
        lemma_above_below_at(a, card, x);
    }
    assert forall|x: Card| a.spec_below(card).has(x) implies x.spec_suit() == card.spec_suit() && x.spec_rank().spec_idx()
        < card.spec_rank().spec_idx() && a.has(x) by {
        lemma_above_below_at(a, card, x);
    }
}

/// One deck holds fifty-two cards.
pub proof fn lemma_one_deck_len()
    ensures
        Cards::spec_one_deck().spec_len() == 52,
{
    lemma_total_deck();
}

/// The twos, threes, fours and fives are sixteen cards.
pub proof fn lemma_common_dreck_len()
    ensures
        Cards::spec_common_dreck().spec_len() == 16,
{
    crate::bits::lemma_total_dreck();
}

/// Copies of a set hold each card as often as the set does, times their
/// number, where that is never more than three times.
pub proof fn lemma_scaled(a: Cards, n: nat)
    requires
        a.wf(),
        forall|c: Card| n * #[trigger] a.count(c) <= 3,
    ensures
        a.scaled(n).wf(),
        forall|c: Card| #[trigger] a.scaled(n).count(c) == n * a.count(c),
    decreases n,
{
    lemma_named_sets();
    if n > 0 {
        let m = (n - 1) as nat;
        assert forall|c: Card| m * #[trigger] a.count(c) <= 3 by {
            assert(m * a.count(c) <= n * a.count(c)) by (nonlinear_arith)
                requires
                    m <= n,
            ;
        }
        lemma_scaled(a, m);
        assert(a.scaled(m).fits(a)) by {
            assert forall|c: Card| a.scaled(m).count(c) + a.count(c) <= 3 by {
                assert(a.scaled(m).count(c) == m * a.count(c));
                assert(n * a.count(c) <= 3);
                assert(n * a.count(c) == m * a.count(c) + a.count(c)) by (nonlinear_arith)
                    requires
                        n == m + 1,
                ;
            }
        }
        lemma_plus(a.scaled(m), a);
        assert forall|c: Card| #[trigger] a.scaled(n).count(c) == n * a.count(c) by {
            assert(a.scaled(m).count(c) == m * a.count(c));
            assert(n * a.count(c) == m * a.count(c) + a.count(c)) by (nonlinear_arith)
                requires
                    n == m + 1,
            ;
        }
    }
}

/// A set holds at most 189 cards.
pub proof fn lemma_len_bound(a: Cards)
    requires
        a.wf(),
    ensures
        a.spec_len() <= 189,
{
    crate::bits::lemma_total_small(a.bits);
}

/// A set holds at least as many cards as a set that it includes.
pub proof fn lemma_includes_len(a: Cards, b: Cards)
    requires
        a.wf(),
        b.wf(),
        a.includes(b),
    ensures
        b.spec_len() <= a.spec_len(),
{
    lemma_minus(a, b);
}

/// What both of two sets hold holds each card as often as the one that holds
/// it less often; and where the first includes the second, it is the second.
pub proof fn lemma_meet(a: Cards, b: Cards)
    requires
        a.wf(),
        b.wf(),
    ensures
        a.spec_meet(b).wf(),
        forall|c: Card| #[trigger] a.spec_meet(b).count(c) == (if a.count(c) <= b.count(c) { a.count(c) } else { b.count(c) }),
        a.includes(b) ==> a.spec_meet(b) == b,
{
    crate::bits::lemma_meet(a.bits, b.bits, 0);
    assert forall|c: Card| #[trigger] a.spec_meet(b).count(c) == (if a.count(c) <= b.count(c) { a.count(c) } else { b.count(c) }) by {
        lemma_card_index(c);
        crate::bits::lemma_meet(a.bits, b.bits, c.index() as u128);
    }
    if a.includes(b) {
        lemma_cards_equal(a.spec_meet(b), b);
    }
}

/// A card that a set holds is a run of the set by itself.
pub proof fn lemma_single_run(a: Cards, card: Card)
    requires
        a.has(card),
    ensures
        Cards::is_run(card, card),
        a.includes(Cards::spec_range(card, card)),
{
    lemma_range_counts(card, card);
    assert forall|c: Card| Cards::spec_range(card, card).count(c) <= a.count(c) by {
        if Cards::in_run(c, card, card) {
            lemma_card_index(c);
            lemma_card_index(card);
            crate::rank::lemma_rank_from_idx(c.spec_rank());
            crate::rank::lemma_rank_from_idx(card.spec_rank());
            assert(c == card);
        }
    }
}

/// What a set holds of the cards of another is a set that it includes: it
/// holds each card of the other as often as the set does, and no other card.
pub proof fn lemma_part(a: Cards, cards: Cards)
    ensures
        a.part(cards).wf(),
        a.includes(a.part(cards)),
        forall|c: Card| #[trigger] a.part(cards).count(c) == (if cards.has(c) { a.count(c) } else { 0nat }),
{
    lemma_overlap(a.bits, cards.bits, 0);
    assert forall|c: Card| #[trigger] a.part(cards).count(c) == (if cards.has(c) { a.count(c) } else { 0nat }) by {
        lemma_card_index(c);
        lemma_overlap(a.bits, cards.bits, c.index() as u128);
    }
}

/// Whatever cards bound it, a range is a well-formed set.
pub proof fn lemma_range_wf(lo: Card, hi: Card)
    ensures
        Cards::spec_range(lo, hi).wf(),
{
    crate::bits::lemma_low_valid(
        (2 * (1u128 << ((2 * hi.index()) as u128)) - (1u128 << ((2 * lo.index()) as u128))) as u128,
    );
}

/// A range holds the cards of its suit from its lowest to its highest, once each.
pub proof fn lemma_range_counts(lo: Card, hi: Card)
    requires
        Cards::is_run(lo, hi),
    ensures
        Cards::spec_range(lo, hi).wf(),
        forall|c: Card| #[trigger] Cards::spec_range(lo, hi).count(c) == (if Cards::in_run(c, lo, hi) { 1nat } else { 0nat }),
{
    lemma_card_index(lo);
    lemma_card_index(hi);
    let l = lo.index() as u128;
    let h = hi.index() as u128;
    lemma_range(l, h, 0);
    assert forall|c: Card| #[trigger] Cards::spec_range(lo, hi).count(c) == (if Cards::in_run(c, lo, hi) { 1nat } else { 0nat }) by {
        lemma_card_index(c);
        lemma_range(l, h, c.index() as u128);
    }
}

/// Whether the cards of a sequence can be added one by one to a set.
pub open spec fn fits_all(won: Cards, s: Seq<Card>) -> bool
    decreases s.len(),
{
    if s.len() == 0 {
        true
    } else {
        won.count(s[0]) < 3 && fits_all(won.plus(Cards::single(s[0])), s.drop_first())
    }
}

/// The set with the cards of a sequence added one by one.
pub open spec fn plus_all(won: Cards, s: Seq<Card>) -> Cards
    decreases s.len(),
{
    if s.len() == 0 {
        won
    } else {
        plus_all(won.plus(Cards::single(s[0])), s.drop_first())
    }
}

/// Whether the cards of a sequence can be added one by one to a set.
pub fn can_add_all(won: Cards, cards: &Vec<Card>) -> (b: bool)
    ensures
        b == fits_all(won, cards@),
{
    let mut sum: Cards = won;
    let mut i: usize = 0;
    assert(cards@.subrange(0, cards@.len() as int) =~= cards@);
    while i < cards.len()
        invariant
            i <= cards.len(),
            fits_all(won, cards@) == fits_all(sum, cards@.subrange(i as int, cards@.len() as int)),
        decreases cards.len() - i,
    {
        let card: Card = cards[i];
        proof {
            let rest = cards@.subrange(i as int, cards@.len() as int);
            assert(rest[0] == card);
            assert(rest.drop_first() =~= cards@.subrange(i as int + 1, cards@.len() as int));
        }
        if !sum.can_add_card(card) {
            return false;
        }
        sum = sum + card;
        i = i + 1;
    }
    true
}

/// The set with the cards of a sequence added one by one.
pub fn add_all(won: Cards, cards: &Vec<Card>) -> (r: Cards)
    requires
        fits_all(won, cards@),
    ensures
        r == plus_all(won, cards@),
{
    let mut sum: Cards = won;
    let mut i: usize = 0;
    assert(cards@.subrange(0, cards@.len() as int) =~= cards@);
    while i < cards.len()
        invariant
            i <= cards.len(),
            fits_all(sum, cards@.subrange(i as int, cards@.len() as int)),
            plus_all(won, cards@) == plus_all(sum, cards@.subrange(i as int, cards@.len() as int)),
        decreases cards.len() - i,
    {
        let card: Card = cards[i];
        proof {
            let rest = cards@.subrange(i as int, cards@.len() as int);
            assert(rest[0] == card);
            assert(rest.drop_first() =~= cards@.subrange(i as int + 1, cards@.len() as int));
        }
        sum = sum + card;
        i = i + 1;
    }
    sum
}


/// A sequence of cards steps down: each card lies at a lower place than the one
/// before it, or at the same.
pub open spec fn descending(v: Seq<Card>) -> bool {
    forall|i: int, j: int| 0 <= i <= j < v.len() ==> v[j].index() <= v[i].index()
}

/// A sequence of cards steps up: each card lies at a higher place than the one
/// before it, or at the same.
pub open spec fn ascending(v: Seq<Card>) -> bool {
    forall|i: int, j: int| 0 <= i <= j < v.len() ==> v[i].index() <= v[j].index()
}

/// What is left of a set after the runs of a sequence have been taken from it
/// one by one.
pub open spec fn remainder(cards: Cards, taken: Seq<(Card, Card)>) -> Cards
    decreases taken.len(),
{
    if taken.len() == 0 {
        cards
    } else {
        remainder(cards, taken.drop_last()).minus(Cards::spec_range(taken.last().0, taken.last().1))
    }
}

/// The text of the cards of a sequence that steps down: the ranks of each suit
/// in a row, then the glyph of the suit, and a blank between two suits.
pub open spec fn listing_text(v: Seq<Card>) -> Seq<char>
    decreases v.len(),
{
    if v.len() == 0 {
        Seq::empty()
    } else if v.len() == 1 {
        seq![v[0].spec_rank().spec_char(), v[0].spec_suit().spec_char()]
    } else if v[1].spec_suit() != v[0].spec_suit() {
        seq![v[0].spec_rank().spec_char(), v[0].spec_suit().spec_char(), ' '] + listing_text(v.drop_first())
    } else {
        seq![v[0].spec_rank().spec_char()] + listing_text(v.drop_first())
    }
}

/// What reading a text from its end gives, from a set and a suit to begin with:
/// the glyph of a suit makes that suit the suit of the ranks before it, the
/// glyph of a rank adds the card of that rank, and any other character is
/// passed over. There is no set where a card would be held a fourth time.
pub open spec fn parse_from(s: Seq<char>, acc: Cards, suit: Suit) -> Option<Cards>
    decreases s.len(),
{
    if s.len() == 0 {
        Some(acc)
    } else {
        match Rank::spec_of_char(s.last()) {
            Some(rank) => {
                let card = Card::spec_new(rank, suit);
                if acc.count(card) < 3 {
                    parse_from(s.drop_last(), acc.plus(Cards::single(card)), suit)
                } else {
                    None
                }
            },
            None => match Suit::spec_of_char(s.last()) {
                Some(other) => parse_from(s.drop_last(), acc, other),
                None => parse_from(s.drop_last(), acc, suit),
            },
        }
    }
}

impl Cards {
    /// Whether `c` is the lowest card of the set.
    pub open spec fn is_min(self, c: Card) -> bool {
        self.has(c) && forall|x: Card| self.has(x) ==> c.index() <= x.index()
    }

    /// Whether `c` is the highest card of the set.
    pub open spec fn is_max(self, c: Card) -> bool {
        self.has(c) && forall|x: Card| self.has(x) ==> x.index() <= c.index()
    }

    /// Whether `top` ends the run of `card`: the set holds every card of the
    /// suit above `card` up to `top`, and not the next.
    pub open spec fn is_top_of_run(self, card: Card, top: Card) -> bool {
        &&& top.spec_suit() == card.spec_suit()
        &&& card.spec_rank().spec_idx() <= top.spec_rank().spec_idx()
        &&& forall|c: Card|
            c.spec_suit() == card.spec_suit() && card.spec_rank().spec_idx() < c.spec_rank().spec_idx()
                <= top.spec_rank().spec_idx() ==> self.has(c)
        &&& forall|c: Card|
            c.spec_suit() == card.spec_suit() && c.spec_rank().spec_idx() == top.spec_rank().spec_idx() + 1
                ==> !self.has(c)
    }

    /// Whether a sequence lists the cards of the set from the highest down,
    /// each as often as the set holds it.
    pub open spec fn is_listing(self, v: Seq<Card>) -> bool {
        &&& descending(v)
        &&& v.len() == self.spec_len()
        &&& forall|c: Card| #[trigger] v.to_multiset().count(c) == self.count(c)
    }

    /// Whether a sequence lists the runs of the set: each run begins with the
    /// lowest card of what the runs before it have left, ends where the run of
    /// that card ends, and the last leaves nothing.
    pub open spec fn is_runs(self, v: Seq<(Card, Card)>) -> bool {
        &&& remainder(self, v) == Cards::spec_none()
        &&& forall|k: int|
            0 <= k < v.len() ==> {
                let rest = #[trigger] remainder(self, v.subrange(0, k));
                &&& rest.is_min(v[k].0)
                &&& rest.is_top_of_run(v[k].0, v[k].1)
                &&& Cards::is_run(v[k].0, v[k].1)
                &&& rest.includes(Cards::spec_range(v[k].0, v[k].1))
            }
    }

    /// What reading `s` from its end gives.
    pub open spec fn spec_parse(s: Seq<char>) -> Option<Cards> {
        parse_from(s, Cards::spec_none(), Suit::Clubs)
    }

    /// The highest card of the run that `card` begins or lies in.
    pub fn top_of_run(self, card: Card) -> (top: Card)
        ensures
            self.is_top_of_run(card, top),
    {
        let suit: Suit = card.suit();
        let mut top: Card = card;
        let mut done: bool = false;
        while !done && top.rank().idx() < 12
            invariant
                suit == card.spec_suit(),
                top.spec_suit() == suit,
                card.spec_rank().spec_idx() <= top.spec_rank().spec_idx() <= 12,
                forall|c: Card|
                    c.spec_suit() == suit && card.spec_rank().spec_idx() < c.spec_rank().spec_idx()
                        <= top.spec_rank().spec_idx() ==> self.has(c),
                done ==> forall|c: Card|
                    c.spec_suit() == suit && c.spec_rank().spec_idx() == top.spec_rank().spec_idx() + 1 ==> !self.has(c),
            decreases 12 - top.spec_rank().spec_idx() + (if done { 0int } else { 1int }),
        {
            let next: Card = Card::new(top.rank().next_up(), suit);
            if self.contains(next) {
                proof {
                    assert forall|c: Card|
                        c.spec_suit() == suit && card.spec_rank().spec_idx() < c.spec_rank().spec_idx()
                            <= next.spec_rank().spec_idx() implies self.has(c) by {
                        if c.spec_rank().spec_idx() == next.spec_rank().spec_idx() {
                            lemma_card_new(c.spec_rank(), c.spec_suit());
                            lemma_card_index(c);
                            crate::rank::lemma_rank_from_idx(c.spec_rank());
                            crate::rank::lemma_rank_from_idx(next.spec_rank());
                            assert(c == next);
                        }
                    }
                }
                top = next;
            } else {
                proof {
                    assert forall|c: Card|
                        c.spec_suit() == suit && c.spec_rank().spec_idx() == top.spec_rank().spec_idx() + 1 implies !self.has(
                        c,
                    ) by {
                        lemma_card_index(c);
                        crate::rank::lemma_rank_from_idx(c.spec_rank());
                        crate::rank::lemma_rank_from_idx(next.spec_rank());
                        assert(c == next);
                    }
                }
                done = true;
            }
        }
        proof {
            assert forall|c: Card|
                c.spec_suit() == suit && c.spec_rank().spec_idx() == top.spec_rank().spec_idx() + 1 implies !self.has(c) by {
                if !done {
                    crate::rank::lemma_rank_from_idx(c.spec_rank());
                }
            }
        }
        top
    }

    /// The lowest run of the set: its lowest card, and the card that ends the
    /// run of that.
    pub fn min_run(self) -> (r: (Card, Card))
        requires
            self != Cards::spec_none(),
        ensures
            self.is_min(r.0),
            self.is_top_of_run(r.0, r.1),
            Cards::is_run(r.0, r.1),
            self.includes(Cards::spec_range(r.0, r.1)),
    {
        let min: Card = self.min();
        let top: Card = self.top_of_run(min);
        proof {
            lemma_range_counts(min, top);
            assert forall|c: Card| Cards::spec_range(min, top).count(c) <= self.count(c) by {
                if Cards::in_run(c, min, top) {
                    if c.spec_rank().spec_idx() == min.spec_rank().spec_idx() {
                        lemma_card_index(c);
                        lemma_card_index(min);
                        crate::rank::lemma_rank_from_idx(c.spec_rank());
                        crate::rank::lemma_rank_from_idx(min.spec_rank());
                        assert(c == min);
                    }
                    assert(self.has(c));
                }
            }
        }
        (min, top)
    }

    /// The cards of the set, to be taken one by one.
    pub fn cards(self) -> (it: CardsIter)
        ensures
            it.rest() == self,
    {
        CardsIter(self)
    }

    /// The runs of the set, to be taken one by one.
    pub fn runs(self) -> (it: RunsIter)
        ensures
            it.rest() == self,
    {
        RunsIter(self)
    }

    /// The set of the cards of a sequence, in which no card occurs more than
    /// three times.
    pub fn from_iter(cards: Vec<Card>) -> (r: Cards)
        requires
            fits_all(Cards::spec_none(), cards@),
        ensures
            r == plus_all(Cards::spec_none(), cards@),
    {
        add_all(Cards::none(), &cards)
    }

    /// The text of the set: in brackets, its cards from the highest down, the
    /// ranks of a suit in a row before the glyph of the suit.
    pub fn to_string(&self) -> (s: String)
        ensures
            exists|v: Seq<Card>| self.is_listing(v) && s@ == seq!['['] + listing_text(v) + seq![']'],
    {
        let v: Vec<Card> = self.cards().collect();
        let mut s: String = String::new();
        push_char(&mut s, '[');
        let mut i: usize = 0;
        proof {
            assert(v@.subrange(0, v@.len() as int) =~= v@);
            assert(s@ =~= seq!['[']);
        }
        while i < v.len()
            invariant
                i <= v.len(),
                s@ + listing_text(v@.subrange(i as int, v@.len() as int)) == seq!['['] + listing_text(v@),
            decreases v.len() - i,
        {
            let card: Card = v[i];
            proof {
                let rest = v@.subrange(i as int, v@.len() as int);
                assert(rest[0] == card);
                assert(rest.drop_first() =~= v@.subrange(i as int + 1, v@.len() as int));
                if rest.len() > 1 {
                    assert(rest[1] == v@[i as int + 1]);
                }
            }
            let ghost before = s@;
            push_char(&mut s, card.rank().char());
            if i + 1 == v.len() {
                push_char(&mut s, card.suit().char());
                proof {
                    let rest = v@.subrange(i as int, v@.len() as int);
                    assert(s@ =~= before + listing_text(rest));
                    assert(listing_text(v@.subrange(i as int + 1, v@.len() as int)) =~= Seq::<char>::empty());
                    assert(s@ + listing_text(v@.subrange(i as int + 1, v@.len() as int)) =~= before + listing_text(rest));
                }
            } else if v[i + 1].suit() != card.suit() {
                push_char(&mut s, card.suit().char());
                push_char(&mut s, ' ');
                proof {
                    let rest = v@.subrange(i as int, v@.len() as int);
                    let tail = listing_text(v@.subrange(i as int + 1, v@.len() as int));
                    assert(s@ + tail =~= before + listing_text(rest));
                }
            } else {
                proof {
                    let rest = v@.subrange(i as int, v@.len() as int);
                    let tail = listing_text(v@.subrange(i as int + 1, v@.len() as int));
                    assert(s@ + tail =~= before + listing_text(rest));
                }
            }
            i = i + 1;
        }
        proof {
            assert(v@.subrange(v@.len() as int, v@.len() as int) =~= Seq::<Card>::empty());
            assert(s@ =~= seq!['['] + listing_text(v@));
        }
        push_char(&mut s, ']');
        s
    }

    /// Reads a set from a text, from its end: the glyph of a suit stands behind
    /// the ranks of its cards. There is no set where the text names a card
    /// more than three times.
    pub fn from_str(s: &str) -> (r: Option<Cards>)
        ensures
            r == Cards::spec_parse(s@),
    {
        let n: usize = s.unicode_len();
        let mut cards: Cards = Cards::none();
        let mut suit: Suit = Suit::Clubs;
        let mut i: usize = n;
        assert(s@.subrange(0, n as int) =~= s@);
        while i > 0
            invariant
                i <= n,
                n == s@.len(),
                Cards::spec_parse(s@) == parse_from(s@.subrange(0, i as int), cards, suit),
            decreases i,
        {
            i = i - 1;
            let c: char = s.get_char(i);
            proof {
                let prefix = s@.subrange(0, i as int + 1);
                assert(prefix.last() == c);
                assert(prefix.drop_last() =~= s@.subrange(0, i as int));
            }
            match Rank::try_from_char(c) {
                Ok(rank) => {
                    let card: Card = Card::new(rank, suit);
                    if !cards.can_add_card(card) {
                        return None;
                    }
                    cards = cards + card;
                },
                Err(_) => {
                    match Suit::try_from_char(c) {
                        Ok(other) => {
                            suit = other;
                        },
                        Err(_) => {},
                    }
                },
            }
        }
        Some(cards)
    }
}

/// The cards of a set, handed out one by one: from the highest down by `next`,
/// from the lowest up by `next_back`.
#[derive(Clone, Copy, Debug)]
pub struct CardsIter(Cards);

impl CardsIter {
    /// The cards that are still to be handed out.
    pub closed spec fn rest(self) -> Cards {
        self.0
    }

    /// The highest card that is left, which is then no longer left; or none.
    pub fn next(&mut self) -> (r: Option<Card>)
        ensures
            match r {
                Some(c) => old(self).rest().is_max(c) && final(self).rest() == old(self).rest().minus(Cards::single(c)),
                None => old(self).rest() == Cards::spec_none() && final(self).rest() == old(self).rest(),
            },
    {
        if self.0.is_empty() {
            None
        } else {
            let card: Card = self.0.max();
            self.0 = self.0 - card;
            Some(card)
        }
    }

    /// The lowest card that is left, which is then no longer left; or none.
    pub fn next_back(&mut self) -> (r: Option<Card>)
        ensures
            match r {
                Some(c) => old(self).rest().is_min(c) && final(self).rest() == old(self).rest().minus(Cards::single(c)),
                None => old(self).rest() == Cards::spec_none() && final(self).rest() == old(self).rest(),
            },
    {
        if self.0.is_empty() {
            None
        } else {
            let card: Card = self.0.min();
            self.0 = self.0 - card;
            Some(card)
        }
    }

    /// The number of cards that are left.
    pub fn len(&self) -> (n: usize)
        ensures
            n == self.rest().spec_len(),
    {
        self.0.len()
    }

    /// All cards that are left, from the lowest up.
    pub fn collect_ascending(self) -> (v: Vec<Card>)
        ensures
            self.rest().is_listing(v@.reverse()),
    {
        let down: Vec<Card> = self.collect();
        let mut v: Vec<Card> = Vec::new();
        let mut i: usize = down.len();
        while i > 0
            invariant
                i <= down@.len(),
                v@.len() == down@.len() - i,
                forall|k: int| 0 <= k < v@.len() ==> #[trigger] v@[k] == down@[down@.len() - 1 - k],
            decreases i,
        {
            i = i - 1;
            v.push(down[i]);
        }
        assert(v@.reverse() =~= down@);
        v
    }

    /// All cards that are left, from the highest down.
    pub fn collect(self) -> (v: Vec<Card>)
        ensures
            self.rest().is_listing(v@),
    {
        let mut rest: Cards = self.0;
        let mut v: Vec<Card> = Vec::new();
        proof {
            broadcast use vstd::seq_lib::group_to_multiset_ensures;
            assert(v@.to_multiset() =~= vstd::multiset::Multiset::<Card>::empty());
        }
        while !rest.is_empty()
            invariant
                descending(v@),
                v@.len() + rest.spec_len() == self.0.spec_len(),
                forall|c: Card| #[trigger] v@.to_multiset().count(c) + rest.count(c) == self.0.count(c),
                forall|i: int, x: Card| 0 <= i < v@.len() && rest.has(x) ==> x.index() <= #[trigger] v@[i].index() || !#[trigger] rest.has(x),
            decreases rest.spec_len(),
        {
            let card: Card = rest.max();
            let ghost before = v@;
            let ghost old_rest = rest;
            rest = rest - card;
            v.push(card);
            proof {
                vstd::seq_lib::to_multiset_build(before, card);
                assert forall|c: Card| #[trigger] v@.to_multiset().count(c) + rest.count(c) == self.0.count(c) by {
                    assert(before.to_multiset().count(c) + old_rest.count(c) == self.0.count(c));
                    assert(rest.count(c) == old_rest.count(c) - (if c == card { 1nat } else { 0nat }));
                }
                assert forall|i: int, j: int| 0 <= i <= j < v@.len() implies v@[j].index() <= v@[i].index() by {
                    if j == before.len() && i < before.len() {
                        assert(before[i] == v@[i]);
                        assert(old_rest.has(card));
                    }
                }
                assert forall|i: int, x: Card| 0 <= i < v@.len() && rest.has(x) implies x.index() <= #[trigger] v@[i].index()
                    || !#[trigger] rest.has(x) by {
                    assert(rest.count(x) == old_rest.count(x) - (if x == card { 1nat } else { 0nat }));
                    assert(old_rest.has(x));
                    if i < before.len() {
                        assert(before[i] == v@[i]);
                    }
                }
            }
        }
        v
    }
}

/// The runs of a set, handed out one by one from the lowest up.
#[derive(Clone, Copy, Debug)]
pub struct RunsIter(Cards);

impl RunsIter {
    /// The cards that are still to be handed out.
    pub closed spec fn rest(self) -> Cards {
        self.0
    }

    /// The lowest run of what is left, which is then no longer left; or none.
    pub fn next(&mut self) -> (r: Option<(Card, Card)>)
        ensures
            match r {
                Some((lo, hi)) => {
                    &&& old(self).rest().is_min(lo)
                    &&& old(self).rest().is_top_of_run(lo, hi)
                    &&& Cards::is_run(lo, hi)
                    &&& old(self).rest().includes(Cards::spec_range(lo, hi))
                    &&& final(self).rest() == old(self).rest().minus(Cards::spec_range(lo, hi))
                    &&& final(self).rest().spec_len() < old(self).rest().spec_len()
                },
                None => old(self).rest() == Cards::spec_none() && final(self).rest() == old(self).rest(),
            },
    {
        if self.0.is_empty() {
            None
        } else {
            let (lo, hi) = self.0.min_run();
            let run: Cards = Cards::range(lo, hi);
            proof {
                assert(run.has(lo));
                lemma_empty(run);
            }
            self.0 = self.0 - run;
            Some((lo, hi))
        }
    }

    /// All runs that are left, from the lowest up.
    pub fn collect(self) -> (v: Vec<(Card, Card)>)
        ensures
            self.rest().is_runs(v@),
            v@ == self.rest().runs_of(),
    {
        let mut it: RunsIter = self;
        let mut v: Vec<(Card, Card)> = Vec::new();
        loop
            invariant
                it.rest() == remainder(self.rest(), v@),
                forall|k: int|
                    0 <= k < v@.len() ==> {
                        let rest = #[trigger] remainder(self.rest(), v@.subrange(0, k));
                        &&& rest.is_min(v@[k].0)
                        &&& rest.is_top_of_run(v@[k].0, v@[k].1)
                        &&& Cards::is_run(v@[k].0, v@[k].1)
                        &&& rest.includes(Cards::spec_range(v@[k].0, v@[k].1))
                    },
            ensures
                self.rest().is_runs(v@),
            decreases it.rest().spec_len(),
        {
            let ghost before = v@;
            let ghost old_rest = it.rest();
            match it.next() {
                None => {
                    break;
                },
                Some(run) => {
                    v.push(run);
                    proof {
                        assert(v@.drop_last() =~= before);
                        assert(v@.subrange(0, before.len() as int) =~= before);
                        assert forall|k: int| 0 <= k < v@.len() implies {
                            let rest = #[trigger] remainder(self.rest(), v@.subrange(0, k));
                            &&& rest.is_min(v@[k].0)
                            &&& rest.is_top_of_run(v@[k].0, v@[k].1)
                            &&& Cards::is_run(v@[k].0, v@[k].1)
                            &&& rest.includes(Cards::spec_range(v@[k].0, v@[k].1))
                        } by {
                            if k < before.len() {
                                assert(v@.subrange(0, k) =~= before.subrange(0, k));
                                assert(v@[k] == before[k]);
                            }
                        }
                    }
                },
            }
        }
        proof {
            lemma_runs_unique(self.rest(), v@, self.rest().runs_of());
        }
        v
    }
}

impl Cards {
    /// The runs of the set, from the lowest up: each begins with the lowest
    /// card of what the runs before it have left.
    pub open spec fn runs_of(self) -> Seq<(Card, Card)> {
        choose|v: Seq<(Card, Card)>| self.is_runs(v)
    }
}

impl Cards {
    /// The lowest card of a set that is not empty.
    pub open spec fn lowest(self) -> Card {
        choose|c: Card| self.is_min(c)
    }

    /// The lowest run of a set that is not empty: its lowest card, and the
    /// card that ends the run of that.
    pub open spec fn lowest_run(self) -> (Card, Card) {
        (self.lowest(), choose|top: Card| self.is_top_of_run(self.lowest(), top))
    }
}

/// The lowest card of a set is the one card of the set below which it holds
/// none.
pub proof fn lemma_lowest_card(s: Cards, c: Card)
    requires
        s.is_min(c),
    ensures
        c == s.lowest(),
{
    lemma_min_unique(s, c, s.lowest());
}

/// The lowest run of a set goes from its lowest card to the card that ends
/// the run of that.
pub proof fn lemma_lowest_run(s: Cards, lo: Card, hi: Card)
    requires
        s.is_min(lo),
        s.is_top_of_run(lo, hi),
    ensures
        (lo, hi) == s.lowest_run(),
{
    lemma_lowest_card(s, lo);
    lemma_top_unique(s, lo, hi, s.lowest_run().1);
}

/// A set has one lowest card at most.
pub proof fn lemma_min_unique(s: Cards, a: Card, b: Card)
    requires
        s.is_min(a),
        s.is_min(b),
    ensures
        a == b,
{
    lemma_card_index(a);
    lemma_card_index(b);
    assert(a.index() == b.index());
}

/// The run of a card ends at one card.
pub proof fn lemma_top_unique(s: Cards, card: Card, a: Card, b: Card)
    requires
        s.is_top_of_run(card, a),
        s.is_top_of_run(card, b),
    ensures
        a == b,
{
    lemma_card_index(a);
    lemma_card_index(b);
    lemma_card_index(card);
    let low = if a.spec_rank().spec_idx() <= b.spec_rank().spec_idx() { a } else { b };
    let high = if a.spec_rank().spec_idx() <= b.spec_rank().spec_idx() { b } else { a };
    if low.spec_rank().spec_idx() < high.spec_rank().spec_idx() {
        let i = low.index() + 1;
        assert(Card::is_index(i));
        lemma_card_at(i);
        let next = Card::at(i);
        assert(next.spec_suit() == card.spec_suit());
        assert(s.has(next));
        assert(!s.has(next));
    }
    assert(a.index() == b.index());
}

/// Two listings of the runs of a set begin alike.
pub proof fn lemma_runs_begin(s: Cards, v: Seq<(Card, Card)>, w: Seq<(Card, Card)>, k: int)
    requires
        s.is_runs(v),
        s.is_runs(w),
        0 <= k <= v.len(),
        k <= w.len(),
    ensures
        v.subrange(0, k) == w.subrange(0, k),
    decreases k,
{
    if k == 0 {
        assert(v.subrange(0, 0) =~= w.subrange(0, 0));
    } else {
        lemma_runs_begin(s, v, w, k - 1);
        let rest = remainder(s, v.subrange(0, k - 1));
        assert(rest == remainder(s, w.subrange(0, k - 1)));
        lemma_min_unique(rest, v[k - 1].0, w[k - 1].0);
        lemma_top_unique(rest, v[k - 1].0, v[k - 1].1, w[k - 1].1);
        assert(v.subrange(0, k) =~= v.subrange(0, k - 1).push(v[k - 1]));
        assert(w.subrange(0, k) =~= w.subrange(0, k - 1).push(w[k - 1]));
    }
}

/// A set has its runs in one way: two listings of its runs are one.
pub proof fn lemma_runs_unique(s: Cards, v: Seq<(Card, Card)>, w: Seq<(Card, Card)>)
    requires
        s.is_runs(v),
        s.is_runs(w),
    ensures
        v == w,
{
    lemma_named_sets();
    let k = if v.len() <= w.len() { v.len() as int } else { w.len() as int };
    lemma_runs_begin(s, v, w, k);
    assert(v.subrange(0, v.len() as int) =~= v);
    assert(w.subrange(0, w.len() as int) =~= w);
    if v.len() < w.len() {
        let rest = remainder(s, w.subrange(0, k));
        assert(rest.is_min(w[k].0));
        assert(false);
    }
    if w.len() < v.len() {
        let rest = remainder(s, v.subrange(0, k));
        assert(rest.is_min(v[k].0));
        assert(false);
    }
}

impl From<Card> for Cards {
    fn from(card: Card) -> (r: Cards) {
        let i: u8 = card.place();
        proof {
            lemma_single(i as u128, i as u128);
        }
        Cards { bits: 1u128 << (2 * i) }
    }
}

impl FromSpecImpl<Card> for Cards {
    open spec fn obeys_from_spec() -> bool {
        true
    }

    open spec fn from_spec(card: Card) -> Cards {
        Cards::single(card)
    }
}

impl core::ops::Add<Cards> for Cards {
    type Output = Cards;

    /// The sum of two sets that fit.
    fn add(self, rhs: Cards) -> (r: Cards)
        ensures
            r@ == self@.add(rhs@),
            forall|c: Card| #[trigger] r.count(c) == self.count(c) + rhs.count(c),
            r.spec_len() == self.spec_len() + rhs.spec_len(),
    {
        proof {
            use_type_invariant(self);
            use_type_invariant(rhs);
            lemma_view(self, rhs);
            lemma_plus(self, rhs);
            lemma_fits_carry(self, rhs);
            lemma_carry_free(self.bits, rhs.bits, 0);
        }
        Cards { bits: self.bits + rhs.bits }
    }
}

impl AddSpecImpl<Cards> for Cards {
    open spec fn obeys_add_spec() -> bool {
        true
    }

    open spec fn add_req(self, rhs: Cards) -> bool {
        self.fits(rhs)
    }

    open spec fn add_spec(self, rhs: Cards) -> Cards {
        self.plus(rhs)
    }
}

impl core::ops::Add<Card> for Cards {
    type Output = Cards;

    /// The set with one more copy of a card that it holds less than three times.
    fn add(self, rhs: Card) -> (r: Cards)
        ensures
            forall|c: Card| #[trigger] r.count(c) == self.count(c) + (if c == rhs { 1nat } else { 0nat }),
            r.spec_len() == self.spec_len() + 1,
    {
        proof {
            lemma_single_counts(rhs);
            assert forall|c: Card| self.count(c) + Cards::single(rhs).count(c) <= 3 by {
                lemma_count_bound(self, c);
            }
        }
        let one: Cards = Cards::from(rhs);
        self + one
    }
}

impl AddSpecImpl<Card> for Cards {
    open spec fn obeys_add_spec() -> bool {
        true
    }

    open spec fn add_req(self, rhs: Card) -> bool {
        self.count(rhs) < 3
    }

    open spec fn add_spec(self, rhs: Card) -> Cards {
        self.plus(Cards::single(rhs))
    }
}

impl core::ops::Add<Card> for Card {
    type Output = Cards;

    /// The set of two cards.
    fn add(self, rhs: Card) -> (r: Cards)
        ensures
            forall|c: Card| #[trigger] r.count(c) == (if c == self { 1nat } else { 0nat }) + (if c == rhs { 1nat } else { 0nat }),
            r.spec_len() == 2,
    {
        proof {
            lemma_single_counts(self);
            lemma_single_counts(rhs);
        }
        let one: Cards = Cards::from(self);
        let two: Cards = Cards::from(rhs);
        one + two
    }
}

impl AddSpecImpl<Card> for Card {
    open spec fn obeys_add_spec() -> bool {
        true
    }

    open spec fn add_req(self, rhs: Card) -> bool {
        true
    }

    open spec fn add_spec(self, rhs: Card) -> Cards {
        Cards::single(self).plus(Cards::single(rhs))
    }
}

impl core::ops::Sub<Cards> for Cards {
    type Output = Cards;

    /// The set without the cards of one that it includes.
    fn sub(self, rhs: Cards) -> (r: Cards)
        ensures
            r@ == self@.sub(rhs@),
            forall|c: Card| #[trigger] r.count(c) == self.count(c) - rhs.count(c),
            r.spec_len() == self.spec_len() - rhs.spec_len(),
    {
        proof {
            use_type_invariant(self);
            use_type_invariant(rhs);
            lemma_view(self, rhs);
            lemma_minus(self, rhs);
            lemma_includes_borrow(self, rhs);
            lemma_borrow_free(self.bits, rhs.bits, 0);
        }
        Cards { bits: self.bits - rhs.bits }
    }
}

impl SubSpecImpl<Cards> for Cards {
    open spec fn obeys_sub_spec() -> bool {
        true
    }

    open spec fn sub_req(self, rhs: Cards) -> bool {
        self.includes(rhs)
    }

    open spec fn sub_spec(self, rhs: Cards) -> Cards {
        self.minus(rhs)
    }
}

impl core::ops::Sub<Card> for Cards {
    type Output = Cards;

    /// The set without one copy of a card that it holds.
    fn sub(self, rhs: Card) -> (r: Cards)
        ensures
            forall|c: Card| #[trigger] r.count(c) == self.count(c) - (if c == rhs { 1nat } else { 0nat }),
            r.spec_len() == self.spec_len() - 1,
    {
        proof {
            lemma_single_counts(rhs);
        }
        let one: Cards = Cards::from(rhs);
        self - one
    }
}

impl SubSpecImpl<Card> for Cards {
    open spec fn obeys_sub_spec() -> bool {
        true
    }

    open spec fn sub_req(self, rhs: Card) -> bool {
        self.has(rhs)
    }

    open spec fn sub_spec(self, rhs: Card) -> Cards {
        self.minus(Cards::single(rhs))
    }
}

impl core::ops::Mul<usize> for Cards {
    type Output = Cards;

    /// As many copies of the set as `rhs` says, where no card is then held more
    /// than three times.
    fn mul(self, rhs: usize) -> (r: Cards)
        ensures
            r == self.scaled(rhs as nat),
            forall|c: Card| #[trigger] r.count(c) == rhs * self.count(c),
            r.spec_len() == rhs * self.spec_len(),
    {
        let mut r: Cards = Cards::none();
        let mut n: usize = 0;
        proof {
            lemma_empty(r);
        }
        while n < rhs
            invariant
                n <= rhs,
                r == self.scaled(n as nat),
                forall|c: Card| rhs * #[trigger] self.count(c) <= 3,
                forall|c: Card| #[trigger] r.count(c) == n * self.count(c),
                r.spec_len() == n * self.spec_len(),
            decreases rhs - n,
        {
            proof {
                assert forall|c: Card| r.count(c) + self.count(c) <= 3 by {
                    assert(rhs * self.count(c) <= 3);
                    assert(r.count(c) == n * self.count(c));
                    assert((n + 1) * self.count(c) <= rhs * self.count(c)) by (nonlinear_arith)
                        requires
                            n + 1 <= rhs,
                    ;
                    assert((n + 1) * self.count(c) == n * self.count(c) + self.count(c)) by (nonlinear_arith);
                }
                assert((n + 1) * self.spec_len() == n * self.spec_len() + self.spec_len()) by (nonlinear_arith);
                assert forall|c: Card| (n + 1) * self.count(c) == n * #[trigger] self.count(c) + self.count(c) by {
                    assert((n + 1) * self.count(c) == n * self.count(c) + self.count(c)) by (nonlinear_arith);
                }
            }
            r = r + self;
            n = n + 1;
        }
        r
    }
}

impl MulSpecImpl<usize> for Cards {
    open spec fn obeys_mul_spec() -> bool {
        true
    }

    open spec fn mul_req(self, rhs: usize) -> bool {
        forall|c: Card| rhs * #[trigger] self.count(c) <= 3
    }

    open spec fn mul_spec(self, rhs: usize) -> Cards {
        self.scaled(rhs as nat)
    }
}

} // verus!
