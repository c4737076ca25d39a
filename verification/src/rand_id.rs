//! Random 96-bit identifiers and their sixteen-glyph text.
use vstd::prelude::*;
use vstd::string::StrSliceExecFns;
use crate::text::push_char;

verus! {

/// The first number that is no identifier: two to the power of 96.
pub const LIMIT: u128 = 0x1_0000_0000_0000_0000_0000_0000;

/// An identifier: a number below two to the power of 96.
#[derive(Clone, Copy, PartialEq, Eq, Structural, Hash, Debug)]
pub struct RandId(u128);

/// The glyph of a digit below 64. The glyphs are `.`, `/`, the ten digits, the
/// capital letters and the small letters, in the order of their codes.
pub open spec fn spec_encode(b: u8) -> u8 {
    if b <= 11 {
        (b + 46) as u8
    } else if b <= 37 {
        (b + 53) as u8
    } else {
        (b + 59) as u8
    }
}

/// Whether a byte is the glyph of a digit.
pub open spec fn is_glyph(b: u8) -> bool {
    46 <= b <= 57 || 65 <= b <= 90 || 97 <= b <= 122
}

/// The digit that a glyph stands for.
pub open spec fn spec_decode(b: u8) -> u8 {
    if 46 <= b <= 57 {
        (b - 46) as u8
    } else if 65 <= b <= 90 {
        (b - 53) as u8
    } else {
        (b - 59) as u8
    }
}

/// The `n` lowest digits of `v` in base 64 as glyphs, the highest of them first.
pub open spec fn glyphs(v: nat, n: nat) -> Seq<char>
    decreases n,
{
    if n == 0 {
        Seq::empty()
    } else {
        glyphs(v / 64, (n - 1) as nat).push(spec_encode((v % 64) as u8) as char)
    }
}

/// Whether a character is the glyph of a digit.
pub open spec fn glyph_char(c: char) -> bool {
    c as u32 <= 255 && is_glyph(c as u8)
}

/// Whether every character of a text is the glyph of a digit.
pub open spec fn all_glyphs(s: Seq<char>) -> bool {
    forall|i: int| 0 <= i < s.len() ==> glyph_char(#[trigger] s[i])
}

/// Two glyphs with one code are one glyph.
pub proof fn lemma_glyph_code(x: char, y: char)
    requires
        glyph_char(x),
        glyph_char(y),
        x as u8 == y as u8,
    ensures
        x == y,
{
    assert((x as u32) as u8 == x as u8);
    assert((y as u32) as u8 == y as u8);
    assert(x as u32 == y as u32);
    assert((x as u32) as char == x);
    assert((y as u32) as char == y);
}

/// The number that a text of glyphs stands for in base 64, its first glyph
/// being the highest digit.
pub open spec fn glyph_value(s: Seq<char>) -> nat
    decreases s.len(),
{
    if s.len() == 0 {
        0
    } else {
        64 * glyph_value(s.drop_last()) + spec_decode(s.last() as u8) as nat
    }
}

/// The number made of a sequence of bytes, the first of them the lowest.
pub open spec fn le_value(s: Seq<u8>) -> nat
    decreases s.len(),
{
    if s.len() == 0 {
        0
    } else {
        s[0] as nat + 256 * le_value(s.drop_first())
    }
}

/// 64 to the power of `n`.
pub open spec fn pow64(n: nat) -> nat
    decreases n,
{
    if n == 0 {
        1
    } else {
        64 * pow64((n - 1) as nat)
    }
}

/// 256 to the power of `n`.
pub open spec fn pow256(n: nat) -> nat
    decreases n,
{
    if n == 0 {
        1
    } else {
        256 * pow256((n - 1) as nat)
    }
}

/// The glyph of a digit below 64.
pub fn encode(b: u8) -> (g: u8)
    requires
        b < 64,
    ensures
        g == spec_encode(b),
        is_glyph(g),
        spec_decode(g) == b,
{
    if b <= 11 {
        b + 46
    } else if b <= 37 {
        b + 53
    } else {
        b + 59
    }
}

/// The digit that a glyph stands for.
pub fn decode(b: u8) -> (d: u8)
    requires
        is_glyph(b),
    ensures
        d == spec_decode(b),
        d < 64,
        spec_encode(d) == b,
{
    if 46 <= b && b <= 57 {
        b - 46
    } else if 65 <= b && b <= 90 {
        b - 53
    } else {
        b - 59
    }
}

/// Sixteen digits in base 64 hold the numbers below two to the power of 96.
pub proof fn lemma_pow64_16()
    ensures
        pow64(16) == LIMIT,
{
    reveal_with_fuel(pow64, 17);
}

/// Twelve bytes hold the numbers below two to the power of 96.
pub proof fn lemma_pow256_12()
    ensures
        pow256(12) == LIMIT,
{
    reveal_with_fuel(pow256, 13);
}

/// The glyphs of a number are as many as asked for, and each is a glyph.
pub proof fn lemma_glyphs_len(v: nat, n: nat)
    ensures
        glyphs(v, n).len() == n,
        all_glyphs(glyphs(v, n)),
    decreases n,
{
    if n > 0 {
        lemma_glyphs_len(v / 64, (n - 1) as nat);
        let g = spec_encode((v % 64) as u8);
        assert(is_glyph(g));
        assert((g as char) as u8 == g);
        assert((g as char) as u32 <= 255);
        assert(glyph_char(g as char));
    }
}

/// The text of a number stands for that number: reading `n` glyphs of a number
/// below `64^n` gives the number back.
pub proof fn lemma_glyph_round_trip(v: nat, n: nat)
    requires
        v < pow64(n),
    ensures
        glyph_value(glyphs(v, n)) == v,
    decreases n,
{
    if n > 0 {
        lemma_glyph_round_trip(v / 64, (n - 1) as nat);
        let rest = glyphs(v / 64, (n - 1) as nat);
        let g = spec_encode((v % 64) as u8);
        let s = glyphs(v, n);
        assert(s.drop_last() =~= rest);
        assert(s.last() == g as char);
        assert((g as char) as u8 == g);
        assert(spec_decode(g) == v % 64);
    }
}

/// A text of `n` glyphs stands for a number below `64^n`.
pub proof fn lemma_glyph_value_bound(s: Seq<char>)
    requires
        all_glyphs(s),
    ensures
        glyph_value(s) < pow64(s.len()),
    decreases s.len(),
{
    if s.len() > 0 {
        assert(all_glyphs(s.drop_last())) by {
            assert forall|i: int| 0 <= i < s.drop_last().len() implies glyph_char(#[trigger] s.drop_last()[i]) by {
                assert(s.drop_last()[i] == s[i]);
            }
        }
        lemma_glyph_value_bound(s.drop_last());
        assert(s.last() == s[s.len() - 1]);
    }
}

/// Two texts of glyphs of one length that stand for one number are one text.
pub proof fn lemma_glyph_value_injective(a: Seq<char>, b: Seq<char>)
    requires
        all_glyphs(a),
        all_glyphs(b),
        a.len() == b.len(),
        glyph_value(a) == glyph_value(b),
    ensures
        a == b,
    decreases a.len(),
{
    if a.len() > 0 {
        let x = a.last();
        let y = b.last();
        assert(x == a[a.len() - 1] && y == b[b.len() - 1]);
        assert(all_glyphs(a.drop_last())) by {
            assert forall|i: int| 0 <= i < a.drop_last().len() implies glyph_char(#[trigger] a.drop_last()[i]) by {
                assert(a.drop_last()[i] == a[i]);
            }
        }
        assert(all_glyphs(b.drop_last())) by {
            assert forall|i: int| 0 <= i < b.drop_last().len() implies glyph_char(#[trigger] b.drop_last()[i]) by {
                assert(b.drop_last()[i] == b[i]);
            }
        }
        assert(glyph_char(x) && glyph_char(y));
        assert(spec_decode(x as u8) < 64 && spec_decode(y as u8) < 64);
        assert(spec_decode(x as u8) == spec_decode(y as u8));
        lemma_glyph_code(x, y);
        lemma_glyph_value_injective(a.drop_last(), b.drop_last());
        assert(a =~= a.drop_last().push(x));
        assert(b =~= b.drop_last().push(y));
    } else {
        assert(a =~= b);
    }
}

impl RandId {
    /// Every identifier is below two to the power of 96.
    #[verifier::type_invariant]
    pub closed spec fn wf(self) -> bool {
        self.0 < LIMIT
    }

    /// The identifier as a number.
    pub closed spec fn value(self) -> nat {
        self.0 as nat
    }

    /// The identifier with a given number.
    pub closed spec fn with_value(v: nat) -> RandId {
        RandId(v as u128)
    }

    /// The sixteen-glyph text of the identifier.
    pub open spec fn spec_text(self) -> Seq<char> {
        glyphs(self.value(), 16)
    }

    /// The identifier that a text stands for: the text has sixteen glyphs, and
    /// they are the digits of the identifier's number.
    pub open spec fn spec_parse(s: Seq<char>) -> Option<RandId> {
        if s.len() == 16 && all_glyphs(s) {
            Some(RandId::with_value(glyph_value(s)))
        } else {
            None
        }
    }

    /// The identifier whose number the twelve first bytes of `hash` are, the
    /// first of them the lowest. The hash has sixteen bytes or more.
    pub fn from_hash(hash: &[u8]) -> (r: RandId)
        requires
            hash@.len() >= 16,
        ensures
            r.value() == le_value(hash@.subrange(0, 12)),
            r.value() < LIMIT,
    {
        let mut val: u128 = 0;
        let mut i: usize = 12;
        proof {
            lemma_pow256_12();
            reveal_with_fuel(pow256, 13);
            assert(hash@.subrange(12, 12) =~= Seq::<u8>::empty());
        }
        while i > 0
            invariant
                i <= 12,
                hash@.len() >= 16,
                val == le_value(hash@.subrange(i as int, 12)),
                val < pow256((12 - i) as nat),
                pow256(12) == LIMIT,
            decreases i,
        {
            i = i - 1;
            proof {
                let s = hash@.subrange(i as int, 12);
                assert(s.drop_first() =~= hash@.subrange(i as int + 1, 12));
                assert(s[0] == hash@[i as int]);
                lemma_pow256_monotonic((12 - i) as nat, 12);
            }
            val = val * 256 + hash[i] as u128;
        }
        RandId(val)
    }

    /// The sixteen glyphs of the identifier as bytes.
    pub fn as_bytes(&self) -> (buf: [u8; 16])
        ensures
            buf@.len() == 16,
            forall|i: int| 0 <= i < 16 ==> #[trigger] buf@[i] as char == self.spec_text()[i],
    {
        let mut buf: [u8; 16] = [0;16];
        let mut val: u128 = self.0;
        let mut i: usize = 16;
        proof {
            lemma_glyphs_len(self.value(), 16);
        }
        while i > 0
            invariant
                i <= 16,
                glyphs(val as nat, i as nat).len() == i,
                forall|j: int| 0 <= j < i ==> #[trigger] glyphs(val as nat, i as nat)[j] == self.spec_text()[j],
                forall|j: int| i <= j < 16 ==> #[trigger] buf@[j] as char == self.spec_text()[j],
            decreases i,
        {
            let g: u8 = encode((val % 64) as u8);
            proof {
                lemma_glyphs_len((val / 64) as nat, (i - 1) as nat);
                let before = glyphs(val as nat, i as nat);
                let after = glyphs((val / 64) as nat, (i - 1) as nat);
                assert(before == after.push(g as char));
                assert(before[i - 1] == g as char);
                assert forall|j: int| 0 <= j < i - 1 implies #[trigger] after[j] == self.spec_text()[j] by {
                    assert(before[j] == after[j]);
                }
            }
            i = i - 1;
            buf[i] = g;
            val = val / 64;
        }
        buf
    }

    /// The sixteen-glyph text of the identifier.
    pub fn to_string(&self) -> (s: String)
        ensures
            s@ == self.spec_text(),
    {
        let buf: [u8; 16] = self.as_bytes();
        let mut s: String = String::new();
        let mut i: usize = 0;
        proof {
            lemma_glyphs_len(self.value(), 16);
        }
        while i < 16
            invariant
                i <= 16,
                buf@.len() == 16,
                self.spec_text().len() == 16,
                s@ == self.spec_text().subrange(0, i as int),
                forall|j: int| 0 <= j < 16 ==> #[trigger] buf@[j] as char == self.spec_text()[j],
            decreases 16 - i,
        {
            push_char(&mut s, buf[i] as char);
            i = i + 1;
            assert(s@ =~= self.spec_text().subrange(0, i as int));
        }
        assert(s@ =~= self.spec_text());
        s
    }

    /// Reads an identifier from its text: sixteen glyphs. Any other text is the
    /// text of none.
    pub fn from_str(s: &str) -> (r: Option<RandId>)
        ensures
            r == RandId::spec_parse(s@),
            r matches Some(id) ==> id.spec_text() == s@,
    {
        let n: usize = s.unicode_len();
        if n != 16 {
            return None;
        }
        let mut val: u128 = 0;
        let mut i: usize = 0;
        proof {
            lemma_pow64_16();
            assert(s@.subrange(0, 0) =~= Seq::<char>::empty());
        }
        while i < 16
            invariant
                i <= 16,
                s@.len() == 16,
                all_glyphs(s@.subrange(0, i as int)),
                val == glyph_value(s@.subrange(0, i as int)),
                val < pow64(i as nat),
                pow64(16) == LIMIT,
            decreases 16 - i,
        {
            let c: char = s.get_char(i);
            let ok: bool = (c as u32) <= 255 && glyph_byte(c as u8);
            if !ok {
                assert(!glyph_char(s@[i as int]));
                return None;
            }
            proof {
                let p = s@.subrange(0, i as int + 1);
                assert(p.drop_last() =~= s@.subrange(0, i as int));
                assert(p.last() == c);
                lemma_pow64_monotonic((i + 1) as nat, 16);
                assert forall|j: int| 0 <= j < p.len() implies glyph_char(#[trigger] p[j]) by {
                    if j < i {
                        assert(s@.subrange(0, i as int)[j] == p[j]);
                    }
                }
            }
            val = val * 64 + decode(c as u8) as u128;
            i = i + 1;
        }
        let id = RandId(val);
        proof {
            assert(s@.subrange(0, 16) =~= s@);
            lemma_glyph_round_trip(val as nat, 16);
            lemma_glyphs_len(val as nat, 16);
            lemma_glyph_value_injective(glyphs(val as nat, 16), s@);
        }
        Some(id)
    }

    /// The identifier whose number the 96 lowest bits of `bits` are.
    pub fn from_bits(bits: u128) -> (r: RandId)
        ensures
            r.value() == bits % LIMIT,
            r.value() < LIMIT,
    {
        let val: u128 = bits & 0xffff_ffff_ffff_ffff_ffff_ffff;
        assert(val < LIMIT && val == bits % LIMIT) by (bit_vector)
            requires
                val == bits & 0xffff_ffff_ffff_ffff_ffff_ffffu128,
        ;
        RandId(val)
    }

    /// An identifier taken at random: the identifier of 128 bits that are
    /// taken at random.
    pub fn random() -> (r: RandId)
        ensures
            r.value() < LIMIT,
    {
        RandId::from_bits(random_bits())
    }
}

/// Whether a byte is the glyph of a digit.
pub fn glyph_byte(b: u8) -> (r: bool)
    ensures
        r == is_glyph(b),
{
    (46 <= b && b <= 57) || (65 <= b && b <= 90) || (97 <= b && b <= 122)
}

/// `rand::random` gives a value taken at random; nothing is known of it but
/// its type.
#[verifier::external_body]
fn random_bits() -> u128 {
    rand::random::<u128>()
}

/// The powers of 256 grow.
pub proof fn lemma_pow256_monotonic(a: nat, b: nat)
    requires
        a <= b,
    ensures
        pow256(a) <= pow256(b),
        pow256(a) > 0,
    decreases b,
{
    if a < b {
        lemma_pow256_monotonic(a, (b - 1) as nat);
    } else if a > 0 {
        lemma_pow256_monotonic((a - 1) as nat, (a - 1) as nat);
    }
}

/// The powers of 64 grow.
pub proof fn lemma_pow64_monotonic(a: nat, b: nat)
    requires
        a <= b,
    ensures
        pow64(a) <= pow64(b),
        pow64(a) > 0,
    decreases b,
{
    if a < b {
        lemma_pow64_monotonic(a, (b - 1) as nat);
    } else if a > 0 {
        lemma_pow64_monotonic((a - 1) as nat, (a - 1) as nat);
    }
}

/// The text of an identifier, read again, gives the identifier.
pub proof fn lemma_text_round_trip(x: RandId)
    requires
        x.wf(),
    ensures
        RandId::spec_parse(x.spec_text()) == Some(x),
        x.spec_text().len() == 16,
        all_glyphs(x.spec_text()),
        glyph_value(x.spec_text()) == x.value(),
        forall|y: RandId| y.wf() && y.spec_text() == x.spec_text() ==> y == x,
{
    lemma_pow64_16();
    lemma_glyphs_len(x.value(), 16);
    lemma_glyph_round_trip(x.value(), 16);
    assert forall|y: RandId| y.wf() && y.spec_text() == x.spec_text() implies y == x by {
        lemma_glyph_round_trip(y.value(), 16);
    }
}

} // verus!
