//! Facts about a 128-bit word read as sixty-four two-bit counters.
//!
//! Counter `i` occupies bits `2 * i` and `2 * i + 1`. The word is cut into four
//! lanes of sixteen counters; only the thirteen lowest counters of a lane
//! belong to cards, and a well-formed word keeps the others at zero.
use vstd::prelude::*;

verus! {

/// The bits of all counters that belong to cards.
pub const VALID: u128 = 0x03ff_ffff_03ff_ffff_03ff_ffff_03ff_ffff;

/// The low bit of each counter that belongs to a card.
pub const LOW: u128 = 0x0155_5555_0155_5555_0155_5555_0155_5555;

/// The high bit of each counter that belongs to a card.
pub const HIGH: u128 = 0x02aa_aaaa_02aa_aaaa_02aa_aaaa_02aa_aaaa;

/// The low bit of every counter of the word.
pub const EVEN: u128 = 0x5555_5555_5555_5555_5555_5555_5555_5555;

/// The high bit of every counter of the word.
pub const ODD: u128 = 0xaaaa_aaaa_aaaa_aaaa_aaaa_aaaa_aaaa_aaaa;

/// Counter `i` of the word.
pub open spec fn field(bits: u128, i: u128) -> u128 {
    (bits >> ((2 * i) as u128)) & 3
}

/// Whether only counters of cards are set.
pub open spec fn valid(bits: u128) -> bool {
    bits & !VALID == 0
}

/// The word with a one in each counter of a card that is not zero.
pub open spec fn present(bits: u128) -> u128 {
    (bits | (bits >> 1)) & LOW
}

/// Zero exactly where adding the two words counter by counter stays within
/// three everywhere.
pub open spec fn carry(a: u128, b: u128) -> u128 {
    (a & b & ODD) | (((a | b) >> 1) & a & b & EVEN)
}

/// Zero exactly where each counter of `b` is at most the same counter of `a`.
pub open spec fn borrow(a: u128, b: u128) -> u128 {
    (b & !a & ODD) | (((!(a ^ b) & ODD) >> 1) & b & !a & EVEN)
}

/// The sum of all counters of a word, read in base four.
pub open spec fn total(x: nat) -> nat
    decreases x,
{
    if x == 0 {
        0
    } else {
        x % 4 + total(x / 4)
    }
}

/// The number of ones in the binary representation of a number.
pub open spec fn popcount(x: nat) -> nat
    decreases x,
{
    if x == 0 {
        0
    } else {
        x % 2 + popcount(x / 2)
    }
}

pub proof fn lemma_constants()
    by (bit_vector)
    ensures
        valid(0u128),
        valid(0x0155_5555u128),
        valid(LOW),
        valid(0x0000_0055_0000_0055_0000_0055_0000_0055u128),
{
}

pub proof fn lemma_constant_fields(i: u128)
    by (bit_vector)
    requires
        i < 64,
        i % 16 < 13,
    ensures
        field(0u128, i) == 0,
        field(0x0155_5555u128, i) == (if i < 16 { 1u128 } else { 0u128 }),
        field(LOW, i) == 1,
        field(0x0000_0055_0000_0055_0000_0055_0000_0055u128, i) == (if i % 16 < 4 { 1u128 } else { 0u128 }),
{
}

pub proof fn lemma_field_bound(x: u128, i: u128)
    by (bit_vector)
    ensures
        field(x, i) <= 3,
        x == 0 ==> field(x, i) == 0,
{
}

pub proof fn lemma_valid_field(x: u128, i: u128)
    by (bit_vector)
    requires
        valid(x),
        i < 64,
        field(x, i) != 0,
    ensures
        i % 16 < 13,
{
}

pub proof fn lemma_single(j: u128, i: u128)
    by (bit_vector)
    requires
        j < 64,
        i < 64,
    ensures
        field(1u128 << ((2 * j) as u128), i) == (if i == j { 1u128 } else { 0u128 }),
        j % 16 < 13 ==> valid(1u128 << ((2 * j) as u128)),
        1u128 << ((2 * j) as u128) != 0,
{
}

/// A word that is not zero has a counter that is not zero.
pub proof fn lemma_nonzero_field(x: u128) -> (i: u128)
    requires
        x != 0,
    ensures
        i < 64,
        field(x, i) != 0,
    decreases x,
{
    if x & 3 != 0 {
        assert(field(x, 0) == x & 3) by (bit_vector);
        0
    } else {
        let y: u128 = x >> 2;
        assert(y != 0 && y < x) by (bit_vector)
            requires
                x != 0,
                x & 3 == 0,
                y == x >> 2,
        ;
        let j = lemma_nonzero_field(y);
        assert(j < 63 && field(x, (j + 1) as u128) != 0) by (bit_vector)
            requires
                j < 64,
                y == x >> 2,
                field(y, j) != 0,
        ;
        (j + 1) as u128
    }
}

/// A word is fixed by its counters.
pub proof fn lemma_fields_equal(a: u128, b: u128)
    requires
        forall|i: u128| i < 64 ==> field(a, i) == field(b, i),
    ensures
        a == b,
{
    if a != b {
        let x: u128 = a ^ b;
        assert(x != 0) by (bit_vector)
            requires
                a != b,
                x == a ^ b,
        ;
        let i = lemma_nonzero_field(x);
        assert(field(a, i) != field(b, i)) by (bit_vector)
            requires
                i < 64,
                x == a ^ b,
                field(x, i) != 0,
        ;
    }
}

pub proof fn lemma_carry_free(a: u128, b: u128, i: u128)
    by (bit_vector)
    requires
        carry(a, b) == 0,
        i < 64,
    ensures
        field(a, i) + field(b, i) <= 3,
        a + b <= 0xffff_ffff_ffff_ffff_ffff_ffff_ffff_ffff,
        field((a + b) as u128, i) == field(a, i) + field(b, i),
        valid(a) && valid(b) ==> valid((a + b) as u128),
{
}

pub proof fn lemma_carry_field(a: u128, b: u128, i: u128)
    by (bit_vector)
    requires
        i < 64,
        field(carry(a, b), i) != 0,
    ensures
        field(a, i) + field(b, i) > 3,
{
}

pub proof fn lemma_borrow_free(a: u128, b: u128, i: u128)
    by (bit_vector)
    requires
        borrow(a, b) == 0,
        i < 64,
    ensures
        field(b, i) <= field(a, i),
        b <= a,
        field((a - b) as u128, i) == field(a, i) - field(b, i),
        valid(a) ==> valid((a - b) as u128) && valid(b),
{
}

pub proof fn lemma_borrow_field(a: u128, b: u128, i: u128)
    by (bit_vector)
    requires
        i < 64,
        field(borrow(a, b), i) != 0,
    ensures
        field(a, i) < field(b, i),
{
}

/// The word that holds in each counter the lesser of the two counters.
pub open spec fn meet(a: u128, b: u128) -> u128 {
    let less = borrow(a, b);
    let one = (less | (less >> 1)) & EVEN;
    let mask = one | (one << 1);
    (a & mask) | (b & !mask)
}

pub proof fn lemma_meet(a: u128, b: u128, i: u128)
    by (bit_vector)
    requires
        i < 64,
    ensures
        field(meet(a, b), i) == (if field(a, i) <= field(b, i) { field(a, i) } else { field(b, i) }),
        valid(a) || valid(b) ==> valid(meet(a, b)),
        borrow(a, meet(a, b)) == 0,
        borrow(b, meet(a, b)) == 0,
{
}

pub proof fn lemma_lane(x: u128, s: u128, i: u128)
    by (bit_vector)
    requires
        s < 4,
        i < 64,
    ensures
        field(x & (0x03ff_ffffu128 << ((32 * s) as u128)), i) == (if i / 16 == s && i % 16 < 13 {
            field(x, i)
        } else {
            0u128
        }),
        valid(x & (0x03ff_ffffu128 << ((32 * s) as u128))),
{
}

pub proof fn lemma_above(x: u128, j: u128, i: u128)
    by (bit_vector)
    requires
        j < 64,
        j % 16 < 13,
        i < 64,
    ensures
        2 * (1u128 << ((2 * j) as u128)) - 1 >= 0,
        2 * (1u128 << ((2 * j) as u128)) <= 0xffff_ffff_ffff_ffff_ffff_ffff_ffff_ffff,
        ({
            let bit = 1u128 << ((2 * j) as u128);
            let lane = 0x0155_5555u128 << ((32 * (j / 16)) as u128);
            let r = present(x) & lane & !((2 * bit - 1) as u128);
            &&& field(r, i) == (if i / 16 == j / 16 && i % 16 < 13 && i > j && field(x, i) != 0 {
                1u128
            } else {
                0u128
            })
            &&& valid(r)
        }),
{
}

pub proof fn lemma_below(x: u128, j: u128, i: u128)
    by (bit_vector)
    requires
        j < 64,
        j % 16 < 13,
        i < 64,
    ensures
        (1u128 << ((2 * j) as u128)) >= 1,
        ({
            let bit = 1u128 << ((2 * j) as u128);
            let lane = 0x0155_5555u128 << ((32 * (j / 16)) as u128);
            let r = present(x) & lane & ((bit - 1) as u128);
            &&& field(r, i) == (if i / 16 == j / 16 && i < j && field(x, i) != 0 {
                1u128
            } else {
                0u128
            })
            &&& valid(r)
        }),
{
}

pub proof fn lemma_range(l: u128, h: u128, i: u128)
    by (bit_vector)
    requires
        l <= h,
        h < 64,
        h % 16 < 13,
        l / 16 == h / 16,
        i < 64,
    ensures
        2 * (1u128 << ((2 * h) as u128)) <= 0xffff_ffff_ffff_ffff_ffff_ffff_ffff_ffff,
        (1u128 << ((2 * l) as u128)) <= (1u128 << ((2 * h) as u128)),
        ({
            let r = ((2 * (1u128 << ((2 * h) as u128)) - (1u128 << ((2 * l) as u128))) as u128) & LOW;
            &&& field(r, i) == (if l <= i && i <= h {
                1u128
            } else {
                0u128
            })
            &&& valid(r)
        }),
{
}

/// A word that has ones only in the low bits of counters of cards sets only
/// counters of cards.
pub proof fn lemma_low_valid(x: u128)
    by (bit_vector)
    ensures
        valid(x & LOW),
{
}

pub proof fn lemma_probe(x: u128, j: u128)
    by (bit_vector)
    requires
        j < 64,
    ensures
        (x & (3u128 << ((2 * j) as u128)) != 0) == (field(x, j) != 0),
{
}

pub proof fn lemma_overlap(x: u128, o: u128, i: u128)
    by (bit_vector)
    requires
        i < 64,
    ensures
        ({
            let m = present(o) | (present(o) << 1);
            &&& (field(x & m, i) != 0) == (field(x, i) != 0 && field(o, i) != 0 && i % 16 < 13)
            &&& (field(x & m, i) != 0 ==> x & m != 0)
            &&& field(x & m, i) == (if field(o, i) != 0 && i % 16 < 13 { field(x, i) } else { 0u128 })
            &&& valid(x & m)
            &&& borrow(x, x & m) == 0
        }),
{
}

pub proof fn lemma_common(x: u128, o: u128, i: u128)
    by (bit_vector)
    requires
        i < 64,
    ensures
        ({
            let r = present(x) & present(o);
            &&& field(r, i) == (if field(x, i) != 0 && field(o, i) != 0 && i % 16 < 13 {
                1u128
            } else {
                0u128
            })
            &&& borrow(x, r) == 0
            &&& valid(r)
        }),
{
}

pub proof fn lemma_highest(x: u128, r: u128, i: u128)
    by (bit_vector)
    requires
        r < 128,
        x >> ((127 - r) as u128) == 1,
        i < 64,
    ensures
        r / 2 <= 63,
        field(x, (63 - r / 2) as u128) != 0,
        i + r / 2 > 63 ==> field(x, i) == 0,
{
}

pub proof fn lemma_lowest(x: u128, r: u128, i: u128)
    by (bit_vector)
    requires
        r < 128,
        (x >> r) & 1 == 1,
        (x >> r) << r == x,
        i < 64,
    ensures
        field(x, r / 2) != 0,
        i < r / 2 ==> field(x, i) == 0,
{
}

/// Adding counter by counter adds the sums of the counters.
pub proof fn lemma_total_add(a: u128, b: u128)
    requires
        carry(a, b) == 0,
    ensures
        a + b <= u128::MAX,
        total((a + b) as nat) == total(a as nat) + total(b as nat),
    decreases a + b,
{
    lemma_carry_free(a, b, 0);
    if a != 0 || b != 0 {
        let a4: u128 = a / 4;
        let b4: u128 = b / 4;
        let s: u128 = (a + b) as u128;
        assert(carry(a4, b4) == 0 && s % 4 == a % 4 + b % 4 && s / 4 == a4 + b4) by (bit_vector)
            requires
                carry(a, b) == 0,
                a4 == a / 4,
                b4 == b / 4,
                s == a + b,
        ;
        lemma_total_add(a4, b4);
    }
}

/// Taking away counter by counter takes away the sums of the counters.
pub proof fn lemma_total_sub(a: u128, b: u128)
    requires
        borrow(a, b) == 0,
    ensures
        b <= a,
        total((a - b) as nat) == total(a as nat) - total(b as nat),
{
    lemma_borrow_free(a, b, 0);
    let d: u128 = (a - b) as u128;
    assert(carry(d, b) == 0) by (bit_vector)
        requires
            borrow(a, b) == 0,
            d == (a - b) as u128,
    ;
    lemma_total_add(d, b);
}

/// Only zero has counters that sum to zero.
pub proof fn lemma_total_zero(x: nat)
    ensures
        (total(x) == 0) == (x == 0),
    decreases x,
{
    if x != 0 {
        lemma_total_zero(x / 4);
    }
}

/// A word with one counter at one sums to one.
pub proof fn lemma_total_single(j: u128)
    requires
        j < 64,
    ensures
        total((1u128 << ((2 * j) as u128)) as nat) == 1,
    decreases j,
{
    let x: u128 = 1u128 << ((2 * j) as u128);
    if j == 0 {
        assert(1u128 << 0u128 == 1) by (bit_vector);
        assert(total(1) == 1 + total(0));
    } else {
        let k: u128 = (j - 1) as u128;
        assert(x % 4 == 0 && x / 4 == 1u128 << ((2 * k) as u128) && x != 0) by (bit_vector)
            requires
                0 < j < 64,
                k == (j - 1) as u128,
                x == 1u128 << ((2 * j) as u128),
        ;
        lemma_total_single(k);
    }
}

/// The sum of the counters, from the ones among their low and their high bits.
pub proof fn lemma_total_popcount(x: u128)
    ensures
        total(x as nat) == 2 * popcount((x & ODD) as nat) + popcount((x & EVEN) as nat),
    decreases x,
{
    if x != 0 {
        let y: u128 = x / 4;
        let e: u128 = x & EVEN;
        let o: u128 = x & ODD;
        assert(e % 2 + 2 * ((o / 2) % 2) == x % 4 && (e / 2) % 2 == 0 && o % 2 == 0 && (e / 2) / 2 == y
            & EVEN && (o / 2) / 2 == y & ODD && y < x) by (bit_vector)
            requires
                x != 0,
                y == x / 4,
                e == x & EVEN,
                o == x & ODD,
        ;
        lemma_total_popcount(y);
        assert(popcount(e as nat) == e % 2 + popcount((e / 2) as nat));
        assert(popcount((e / 2) as nat) == (e / 2) % 2 + popcount(((e / 2) / 2) as nat));
        assert(popcount(o as nat) == o % 2 + popcount((o / 2) as nat));
        assert(popcount((o / 2) as nat) == (o / 2) % 2 + popcount(((o / 2) / 2) as nat));
    } else {
        assert(0u128 & EVEN == 0 && 0u128 & ODD == 0) by (bit_vector);
    }
}

pub proof fn lemma_valid_masks(x: u128)
    by (bit_vector)
    requires
        valid(x),
    ensures
        x & HIGH == x & ODD,
        x & LOW == x & EVEN,
        x < 0x0400_0000_0000_0000_0000_0000_0000_0000,
{
}

/// The word with each card's counter at one sums to fifty-two.
pub proof fn lemma_total_deck()
    ensures
        total(LOW as nat) == 52,
{
    lemma_total_four(0x1);
    assert(total(0x1) == 1);
    lemma_total_four(0x155);
    assert(total(0x155) == 5);
    lemma_total_four(0x15555);
    assert(total(0x15555) == 9);
    lemma_total_four(0x1555555);
    assert(total(0x1555555) == 13);
    lemma_total_four(0x155555501);
    assert(total(0x155555501) == 14);
    lemma_total_four(0x15555550155);
    assert(total(0x15555550155) == 18);
    lemma_total_four(0x1555555015555);
    assert(total(0x1555555015555) == 22);
    lemma_total_four(0x155555501555555);
    assert(total(0x155555501555555) == 26);
    lemma_total_four(0x15555550155555501);
    assert(total(0x15555550155555501) == 27);
    lemma_total_four(0x1555555015555550155);
    assert(total(0x1555555015555550155) == 31);
    lemma_total_four(0x155555501555555015555);
    assert(total(0x155555501555555015555) == 35);
    lemma_total_four(0x15555550155555501555555);
    assert(total(0x15555550155555501555555) == 39);
    lemma_total_four(0x1555555015555550155555501);
    assert(total(0x1555555015555550155555501) == 40);
    lemma_total_four(0x155555501555555015555550155);
    assert(total(0x155555501555555015555550155) == 44);
    lemma_total_four(0x15555550155555501555555015555);
    assert(total(0x15555550155555501555555015555) == 48);
    lemma_total_four(0x1555555015555550155555501555555);
    assert(total(0x1555555015555550155555501555555) == 52);
}

/// The word with the counters of the twos, threes, fours and fives at one sums
/// to sixteen.
pub proof fn lemma_total_dreck()
    ensures
        total(0x0000_0055_0000_0055_0000_0055_0000_0055) == 16,
{
    lemma_total_four(0x55);
    assert(total(0x55) == 4);
    lemma_total_four(0x5500);
    assert(total(0x5500) == 4);
    lemma_total_four(0x550000);
    assert(total(0x550000) == 4);
    lemma_total_four(0x55000000);
    assert(total(0x55000000) == 4);
    lemma_total_four(0x5500000055);
    assert(total(0x5500000055) == 8);
    lemma_total_four(0x550000005500);
    assert(total(0x550000005500) == 8);
    lemma_total_four(0x55000000550000);
    assert(total(0x55000000550000) == 8);
    lemma_total_four(0x5500000055000000);
    assert(total(0x5500000055000000) == 8);
    lemma_total_four(0x550000005500000055);
    assert(total(0x550000005500000055) == 12);
    lemma_total_four(0x55000000550000005500);
    assert(total(0x55000000550000005500) == 12);
    lemma_total_four(0x5500000055000000550000);
    assert(total(0x5500000055000000550000) == 12);
    lemma_total_four(0x550000005500000055000000);
    assert(total(0x550000005500000055000000) == 12);
    lemma_total_four(0x55000000550000005500000055);
    assert(total(0x55000000550000005500000055) == 16);
}

/// The sum of the counters of a number, four counters at a time.
pub proof fn lemma_total_four(x: nat)
    ensures
        total(x) == x % 4 + (x / 4) % 4 + (x / 16) % 4 + (x / 64) % 4 + total(x / 256),
{
    reveal_with_fuel(total, 5);
    assert((x / 4) / 4 == x / 16);
    assert((x / 16) / 4 == x / 64);
    assert((x / 64) / 4 == x / 256);
}

/// The sum of the counters of a number below `4^k` is at most `3 * k`.
pub proof fn lemma_total_bound(x: nat, k: nat)
    requires
        x < vstd::arithmetic::power2::pow2(2 * k),
    ensures
        total(x) <= 3 * k,
    decreases k,
{
    if k == 0 {
        vstd::arithmetic::power2::lemma2_to64();
    } else if x != 0 {
        vstd::arithmetic::power2::lemma_pow2_adds(2, (2 * (k - 1)) as nat);
        vstd::arithmetic::power2::lemma2_to64();
        lemma_total_bound(x / 4, (k - 1) as nat);
    }
}

/// A well-formed word holds fewer than 256 cards.
pub proof fn lemma_total_small(x: u128)
    requires
        valid(x),
    ensures
        total(x as nat) <= 189,
{
    lemma_valid_masks(x);
    vstd::arithmetic::power2::lemma_pow2_adds(64, 62);
    vstd::arithmetic::power2::lemma2_to64();
    vstd::arithmetic::power2::lemma2_to64_rest();
    assert(vstd::arithmetic::power2::pow2(126) == 0x4000_0000_0000_0000_0000_0000_0000_0000) by {
        vstd::arithmetic::power2::lemma_pow2_adds(62, 64);
    }
    lemma_total_bound(x as nat, 63);
}

} // verus!
