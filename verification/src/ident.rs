//! Universally unique identifiers and their textual form.

use crate::ordered::Ranked;
use crate::text::hex_digit;
use vstd::prelude::*;

verus! {

/// A 128-bit universally unique identifier, held as the integer whose
/// big-endian bytes are the identifier's sixteen bytes.
#[derive(Clone, Copy, Debug, PartialEq, Eq, Structural, Hash, PartialOrd, Ord)]
pub struct Uuid(pub u128);

/// The `i`-th four-bit group of `bits`, counted from the most significant.
pub open spec fn nibble(bits: u128, i: int) -> u128 {
    (bits >> ((4 * (31 - i)) as u128)) & 0xf
}

/// The thirty-two hexadecimal digits of `bits`, most significant first.
pub open spec fn hex_digits(bits: u128) -> Seq<char> {
    Seq::new(32, |i: int| hex_digit(nibble(bits, i) as int))
}

/// The hyphenated form `xxxxxxxx-xxxx-xxxx-xxxx-xxxxxxxxxxxx` of an
/// identifier: its digits in groups of 8, 4, 4, 4 and 12.
pub open spec fn uuid_text(bits: u128) -> Seq<char> {
    let d = hex_digits(bits);
    d.subrange(0, 8) + seq!['-'] + d.subrange(8, 12) + seq!['-'] + d.subrange(12, 16) + seq!['-']
        + d.subrange(16, 20) + seq!['-'] + d.subrange(20, 32)
}

/// Formats an identifier with `uuid::Uuid`'s `Display`, after building the
/// value with `uuid::Uuid::from_u128`. The crate writes the sixteen bytes,
/// most significant first, as lower-case hexadecimal digits with a hyphen
/// after the 8th, 12th, 16th and 20th digit; the contract states exactly that
/// and rests on the crate for it.
#[verifier::external_body]
fn hyphenated(bits: u128) -> (text: String)
    ensures
        text@ == uuid_text(bits),
{
    ::uuid::Uuid::from_u128(bits).to_string()
}

/// Draws an identifier at random with `uuid::Uuid::new_v4` and hands on its
/// value (`Uuid::as_u128`). Nothing is claimed of the identifier drawn.
/// `new_v4` panics where the operating system gives no random bytes.
#[verifier::external_body]
pub(crate) fn fresh() -> (id: Uuid) {
    Uuid(::uuid::Uuid::new_v4().as_u128())
}

impl Uuid {
    /// The identifier whose bits are all zero.
    pub fn nil() -> (id: Uuid)
        ensures
            id == Uuid(0),
    {
        Uuid(0)
    }

    /// The identifier with the given 128-bit value.
    pub fn from_u128(bits: u128) -> (id: Uuid)
        ensures
            id == Uuid(bits),
    {
        Uuid(bits)
    }

    /// The identifier's 128-bit value.
    pub fn as_u128(&self) -> (bits: u128)
        ensures
            bits == self.0,
    {
        self.0
    }

    /// The identifier's hyphenated lower-case text.
    pub fn text(&self) -> (text: String)
        ensures
            text@ == uuid_text(self.0),
    {
        hyphenated(self.0)
    }
}

impl Ranked for Uuid {
    /// Identifiers are ordered by their value.
    open spec fn rank(self) -> int {
        self.0 as int
    }

    proof fn lemma_rank_determines(a: Self, b: Self) {
    }

    fn precedes(&self, other: &Self) -> (r: bool) {
        self.0 < other.0
    }
}

/// The text of an identifier is 36 characters long, with hyphens at the four
/// fixed places and hexadecimal digits elsewhere.
pub proof fn lemma_uuid_text_shape(bits: u128)
    ensures
        uuid_text(bits).len() == 36,
        forall|i: int|
            0 <= i < 36 ==> #[trigger] uuid_text(bits)[i] == (if i == 8 || i == 13 || i == 18 || i == 23 {
                '-'
            } else {
                hex_digits(bits)[digit_index(i)]
            }),
{
}

/// The place among the thirty-two digits of the character at `i` in the text.
pub open spec fn digit_index(i: int) -> int {
    if i < 8 {
        i
    } else if i < 13 {
        i - 1
    } else if i < 18 {
        i - 2
    } else if i < 23 {
        i - 3
    } else {
        i - 4
    }
}

/// The place in the text of the `i`-th of the thirty-two digits.
pub open spec fn text_index(i: int) -> int {
    if i < 8 {
        i
    } else if i < 12 {
        i + 1
    } else if i < 16 {
        i + 2
    } else if i < 20 {
        i + 3
    } else {
        i + 4
    }
}

proof fn lemma_nibble_small(bits: u128, i: int)
    requires
        0 <= i < 32,
    ensures
        nibble(bits, i) < 16,
{
    let s = (4 * (31 - i)) as u128;
    assert((bits >> s) & 0xf < 16) by (bit_vector);
}

proof fn lemma_nibbles_determine(a: u128, b: u128)
    requires
        forall|i: int| 0 <= i < 32 ==> nibble(a, i) == nibble(b, i),
    ensures
        a == b,
{
    assert(nibble(a, 0) == nibble(b, 0));
    assert(nibble(a, 1) == nibble(b, 1));
    assert(nibble(a, 2) == nibble(b, 2));
    assert(nibble(a, 3) == nibble(b, 3));
    assert(nibble(a, 4) == nibble(b, 4));
    assert(nibble(a, 5) == nibble(b, 5));
    assert(nibble(a, 6) == nibble(b, 6));
    assert(nibble(a, 7) == nibble(b, 7));
    assert(nibble(a, 8) == nibble(b, 8));
    assert(nibble(a, 9) == nibble(b, 9));
    assert(nibble(a, 10) == nibble(b, 10));
    assert(nibble(a, 11) == nibble(b, 11));
    assert(nibble(a, 12) == nibble(b, 12));
    assert(nibble(a, 13) == nibble(b, 13));
    assert(nibble(a, 14) == nibble(b, 14));
    assert(nibble(a, 15) == nibble(b, 15));
    assert(nibble(a, 16) == nibble(b, 16));
    assert(nibble(a, 17) == nibble(b, 17));
    assert(nibble(a, 18) == nibble(b, 18));
    assert(nibble(a, 19) == nibble(b, 19));
    assert(nibble(a, 20) == nibble(b, 20));
    assert(nibble(a, 21) == nibble(b, 21));
    assert(nibble(a, 22) == nibble(b, 22));
    assert(nibble(a, 23) == nibble(b, 23));
    assert(nibble(a, 24) == nibble(b, 24));
    assert(nibble(a, 25) == nibble(b, 25));
    assert(nibble(a, 26) == nibble(b, 26));
    assert(nibble(a, 27) == nibble(b, 27));
    assert(nibble(a, 28) == nibble(b, 28));
    assert(nibble(a, 29) == nibble(b, 29));
    assert(nibble(a, 30) == nibble(b, 30));
    assert(nibble(a, 31) == nibble(b, 31));
    assert(a == b) by (bit_vector)
        requires
            (a >> 124u128) & 0xf == (b >> 124u128) & 0xf,
            (a >> 120u128) & 0xf == (b >> 120u128) & 0xf,
            (a >> 116u128) & 0xf == (b >> 116u128) & 0xf,
            (a >> 112u128) & 0xf == (b >> 112u128) & 0xf,
            (a >> 108u128) & 0xf == (b >> 108u128) & 0xf,
            (a >> 104u128) & 0xf == (b >> 104u128) & 0xf,
            (a >> 100u128) & 0xf == (b >> 100u128) & 0xf,
            (a >> 96u128) & 0xf == (b >> 96u128) & 0xf,
            (a >> 92u128) & 0xf == (b >> 92u128) & 0xf,
            (a >> 88u128) & 0xf == (b >> 88u128) & 0xf,
            (a >> 84u128) & 0xf == (b >> 84u128) & 0xf,
            (a >> 80u128) & 0xf == (b >> 80u128) & 0xf,
            (a >> 76u128) & 0xf == (b >> 76u128) & 0xf,
            (a >> 72u128) & 0xf == (b >> 72u128) & 0xf,
            (a >> 68u128) & 0xf == (b >> 68u128) & 0xf,
            (a >> 64u128) & 0xf == (b >> 64u128) & 0xf,
            (a >> 60u128) & 0xf == (b >> 60u128) & 0xf,
            (a >> 56u128) & 0xf == (b >> 56u128) & 0xf,
            (a >> 52u128) & 0xf == (b >> 52u128) & 0xf,
            (a >> 48u128) & 0xf == (b >> 48u128) & 0xf,
            (a >> 44u128) & 0xf == (b >> 44u128) & 0xf,
            (a >> 40u128) & 0xf == (b >> 40u128) & 0xf,
            (a >> 36u128) & 0xf == (b >> 36u128) & 0xf,
            (a >> 32u128) & 0xf == (b >> 32u128) & 0xf,
            (a >> 28u128) & 0xf == (b >> 28u128) & 0xf,
            (a >> 24u128) & 0xf == (b >> 24u128) & 0xf,
            (a >> 20u128) & 0xf == (b >> 20u128) & 0xf,
            (a >> 16u128) & 0xf == (b >> 16u128) & 0xf,
            (a >> 12u128) & 0xf == (b >> 12u128) & 0xf,
            (a >> 8u128) & 0xf == (b >> 8u128) & 0xf,
            (a >> 4u128) & 0xf == (b >> 4u128) & 0xf,
            (a >> 0u128) & 0xf == (b >> 0u128) & 0xf,
    ;
}

/// Two identifiers with the same text are the same identifier.
pub proof fn lemma_uuid_text_injective(a: u128, b: u128)
    requires
        uuid_text(a) == uuid_text(b),
    ensures
        a == b,
{
    lemma_uuid_text_shape(a);
    lemma_uuid_text_shape(b);
    assert forall|i: int| 0 <= i < 32 implies nibble(a, i) == nibble(b, i) by {
        let p = text_index(i);
        assert(uuid_text(a)[p] == hex_digits(a)[i]);
        assert(uuid_text(b)[p] == hex_digits(b)[i]);
        lemma_nibble_small(a, i);
        lemma_nibble_small(b, i);
    }
    lemma_nibbles_determine(a, b);
}

} // verus!
