//! This type allows us to store either a char or up to 22 bits of other
//! information in the space of a char. We do this by taking advantage of the
//! valid ranges for a char, which are 0..0xD800 and 0xDFFF..0x10FFFF. The range
//! 0xD800..=0xDFFF contains surrogate code points which are not valid chars. We
//! store chars in their normal representation. To encode the 22 bits without
//! overlapping valid char ranges, we first split it into two 11 bit chunks. The
//! left chunk is stored in leading bits of the u32 that chars never overlap
//! with. The right chunk needs to be stored in the trailing bits, which are
//! also used by chars. To do this, we make note of the bit pattern in the
//! surrogate range:
//!
//! 1101100000000000
//! 1101111111111111
//!
//! Note that the leading five bits are constant for this range. Therefore, we
//! extract them as the surrogate mask and set them along with the left and
//! right chunks of our 22 bits:
//!
//! 11111111111  00000    11011            11111111111
//! left chunk | unused | surrogate mask | right chunk
//!
//! Now if we mask out the left chunk, the remaining bit pattern will never be a
//! valid char because it falls in the surrogate range. We use this to
//! distinguish what the packed char contains.
use vstd::prelude::*;
use vstd::utf8::is_scalar;

verus! {

pub const SURROGATE_LOW: u32 = 0xD800;

pub const SURROGATE_HIGH: u32 = 0xDFFF;

/// The five leading bits shared by every surrogate code point.
pub const SURROGATE_MASK: u32 = SURROGATE_LOW & SURROGATE_HIGH;

/// The number of leading bits that no char uses (`char::MAX` is 0x10FFFF).
pub const LEADING: u32 = 11;

pub const LEADING_MASK: u32 = !(u32::MAX >> LEADING);

/// The number of trailing zero bits of `SURROGATE_LOW`.
pub const TRAILING: u32 = 11;

pub const TRAILING_MASK: u32 = !(u32::MAX << TRAILING);

pub const CHAR_MASK: u32 = !LEADING_MASK;

/// The number of leading zero bits of `U22::MAX`.
pub const MAX_U22_LEADING: u32 = 10;

/// The largest value a `U22` holds.
pub const U22_MAX: u32 = !(u32::MAX << 22u32);

/// The number that a char is stored as.
pub open spec fn char_code(c: char) -> u32 {
    c as u32
}

/// True when `n` is the code of some char: not a surrogate and at most 0x10FFFF.
pub open spec fn is_char_code(n: u32) -> bool {
    n < 0xD800 || (0xE000 <= n && n <= 0x10FFFF)
}

/// The bits a 22-bit value is packed into.
pub open spec fn encode_u22(n: u32) -> u32 {
    ((n << 10u32) & 0xFFE0_0000u32) | (n & 0x7FFu32) | 0xD800u32
}

/// The 22-bit value that packed bits in the surrogate form stand for.
pub open spec fn decode_u22(x: u32) -> u32 {
    let i = x & !0xD800u32;
    (i & 0x7FFu32) | ((i & 0xFFE0_0000u32) >> 10u32)
}

/// A 22-bit unsigned integer.
#[derive(Debug, Clone, Copy, PartialEq, Eq, Hash)]
pub struct U22(u32);

impl View for U22 {
    type V = u32;

    closed spec fn view(&self) -> u32 {
        self.0
    }
}

impl U22 {
    #[verifier::type_invariant]
    closed spec fn inv(self) -> bool {
        self.0 <= U22_MAX
    }

    /// Two `U22`s with the same value are the same.
    pub proof fn lemma_view_determines(a: U22, b: U22)
        ensures
            a@ == b@ <==> a == b,
    {
    }

    /// The largest `U22`.
    pub fn max() -> (r: U22)
        ensures
            r@ == 0x3F_FFFF,
    {
        assert(!(u32::MAX << 22u32) == 0x3F_FFFFu32) by (bit_vector);
        U22(U22_MAX)
    }

    /// Converts `n` to a `U22`, failing when it needs more than 22 bits.
    pub fn from_u32(n: u32) -> (r: Result<U22, U22FromU32Error>)
        ensures
            n <= 0x3F_FFFF <==> r is Ok,
            r matches Ok(u) ==> u@ == n,
            r matches Err(e) ==> e.0 == n,
            r == U22::spec_from_u32(n),
    {
        assert(!(u32::MAX << 22u32) == 0x3F_FFFFu32) by (bit_vector);
        if n > U22_MAX {
            Err(U22FromU32Error(n))
        } else {
            Ok(U22(n))
        }
    }

    /// The value as a `u32`.
    pub fn as_u32(self) -> (r: u32)
        ensures
            r == self@,
            r <= 0x3F_FFFF,
            U22::spec_from_u32(r) == Ok::<U22, U22FromU32Error>(self),
    {
        proof {
            use_type_invariant(&self);
        }
        assert(!(u32::MAX << 22u32) == 0x3F_FFFFu32) by (bit_vector);
        self.0
    }
}

/// The error of a conversion of a number that needs more than 22 bits.
#[derive(Debug, Clone, Copy, PartialEq, Eq, Hash)]
pub struct U22FromU32Error(pub u32);

/// What a packed char holds.
#[derive(Debug, Clone, Copy, PartialEq, Eq)]
pub enum PackedCharContents {
    Char(char),
    U22(U22),
}

/// Either a char or a 22-bit value, in the space of a char.
#[derive(Debug, Clone, Copy, PartialEq, Eq, Hash)]
pub struct PackedChar(u32);

impl PackedChar {
    #[verifier::type_invariant]
    closed spec fn inv(self) -> bool {
        is_char_code(self.0) || (self.0 == encode_u22(decode_u22(self.0)) && decode_u22(
            self.0,
        ) <= 0x3F_FFFF)
    }

    /// The raw bits.
    pub closed spec fn bits(self) -> u32 {
        self.0
    }

    /// What the packed char holds.
    pub closed spec fn spec_contents(self) -> PackedCharContents {
        if is_char_code(self.0) {
            PackedCharContents::Char(self.0 as char)
        } else {
            PackedCharContents::U22(U22(decode_u22(self.0)))
        }
    }

    pub fn from_char(c: char) -> (r: PackedChar)
        ensures
            r.bits() == char_code(c),
            r == PackedChar::spec_from_char(c),
            r.spec_contents() == PackedCharContents::Char(c),
    {
        proof {
            vstd::utf8::char_is_scalar(c);
            vstd::utf8::char_u32_cast(c, c as u32);
        }
        let n = c as u32;
        PackedChar(n)
    }

    pub fn from_u22(u22: U22) -> (r: PackedChar)
        ensures
            r.bits() == encode_u22(u22@),
            r == PackedChar::spec_from_u22(u22),
            r == PackedChar::spec_from_index(u22@),
            r.spec_contents() == PackedCharContents::U22(u22),
    {
        let n = u22.as_u32();
        proof {
            lemma_u22_roundtrip(n);
        }
        let leading = (n << MAX_U22_LEADING) & LEADING_MASK;
        let trailing = n & TRAILING_MASK;
        let bits = leading | trailing | SURROGATE_MASK;
        assert(bits == encode_u22(n)) by (bit_vector)
            requires
                bits == ((n << 10u32) & !(u32::MAX >> 11u32)) | (n & !(u32::MAX << 11u32)) | (
                0xD800u32 & 0xDFFFu32),
        ;
        proof {
            use_type_invariant(&u22);
        }
        assert(U22(decode_u22(bits)) == u22);
        PackedChar(bits)
    }

    /// Unpacks the char or the 22-bit value.
    pub fn contents(self) -> (r: PackedCharContents)
        ensures
            r == self.spec_contents(),
    {
        proof {
            use_type_invariant(&self);
        }
        let x = self.0;
        let c = x & CHAR_MASK;
        assert(c == x & 0x1F_FFFFu32) by (bit_vector)
            requires
                c == x & !!(u32::MAX >> 11u32),
        ;
        proof {
            lemma_char_mask(x);
        }
        if c < SURROGATE_LOW || c > SURROGATE_HIGH {
            let ch = char_from_u32(c);
            match ch {
                Some(ch) => PackedCharContents::Char(ch),
                None => {
                    proof {
                        assert(false);
                    }
                    PackedCharContents::Char(' ')
                },
            }
        } else {
            let i = x & !SURROGATE_MASK;
            let trailing = i & TRAILING_MASK;
            let leading = i & LEADING_MASK;
            let n = trailing | (leading >> MAX_U22_LEADING);
            assert(n == decode_u22(x) && n <= 0x3F_FFFFu32) by (bit_vector)
                requires
                    i == x & !(0xD800u32 & 0xDFFFu32),
                    trailing == i & !(u32::MAX << 11u32),
                    leading == i & !(u32::MAX >> 11u32),
                    n == trailing | (leading >> 10u32),
            ;
            assert(!(u32::MAX << 22u32) == 0x3F_FFFFu32) by (bit_vector);
            PackedCharContents::U22(U22(n))
        }
    }
}

impl Default for PackedChar {
    fn default() -> (r: PackedChar)
        ensures
            r == PackedChar::spec_from_char('\0'),
            r.spec_contents() == PackedCharContents::Char('\0'),
    {
        PackedChar::from_char('\0')
    }
}

/// A 22-bit value decodes back from its packed bits, which are no char code.
proof fn lemma_u22_roundtrip(n: u32)
    requires
        n <= 0x3F_FFFF,
    ensures
        decode_u22(encode_u22(n)) == n,
        !is_char_code(encode_u22(n)),
        0xD800 <= encode_u22(n) & 0x1F_FFFFu32 <= 0xDFFF,
{
    assert(decode_u22(encode_u22(n)) == n) by (bit_vector)
        requires
            n <= 0x3F_FFFFu32,
    ;
    assert(0xD800u32 <= encode_u22(n) & 0x1F_FFFFu32 && encode_u22(n) & 0x1F_FFFFu32 <= 0xDFFFu32)
        by (bit_vector)
    ;
    assert(encode_u22(n) & 0x1F_FFFFu32 <= encode_u22(n)) by (bit_vector);
    assert(encode_u22(n) <= 0x10FFFF ==> encode_u22(n) & 0x1F_FFFFu32 == encode_u22(n))
        by (bit_vector)
    ;
}

/// Masking out the leading bits keeps a char code and lands a packed 22-bit value in the
/// surrogate range.
proof fn lemma_char_mask(x: u32)
    requires
        is_char_code(x) || (x == encode_u22(decode_u22(x)) && decode_u22(x) <= 0x3F_FFFF),
    ensures
        is_char_code(x) ==> x & 0x1F_FFFFu32 == x,
        !is_char_code(x) ==> 0xD800 <= x & 0x1F_FFFFu32 <= 0xDFFF,
{
    assert(x <= 0x10FFFF ==> x & 0x1F_FFFFu32 == x) by (bit_vector);
    if !is_char_code(x) {
        lemma_u22_roundtrip(decode_u22(x));
    }
}

/// `char::from_u32`: `Some` of the char with the given code, or `None` where the number is no
/// char code (a surrogate or above 0x10FFFF).
#[verifier::external_body]
fn char_from_u32(n: u32) -> (r: Option<char>)
    ensures
        is_scalar(n) ==> r == Some(n as char),
        !is_scalar(n) ==> r is None,
{
    char::from_u32(n)
}

impl PackedChar {
    /// The packed char that holds `u22`.
    pub closed spec fn spec_from_u22(u22: U22) -> PackedChar {
        PackedChar(encode_u22(u22@))
    }

    /// The packed char that holds the 22-bit value `n`.
    pub closed spec fn spec_from_index(n: u32) -> PackedChar {
        PackedChar(encode_u22(n))
    }

    /// The packed char that holds `c`.
    pub closed spec fn spec_from_char(c: char) -> PackedChar {
        PackedChar(c as u32)
    }
}

impl U22 {
    /// `Ok` of the `U22` with value `n` where it fits in 22 bits, else the error for `n`.
    pub closed spec fn spec_from_u32(n: u32) -> Result<U22, U22FromU32Error> {
        if n <= 0x3F_FFFF {
            Ok(U22(n))
        } else {
            Err(U22FromU32Error(n))
        }
    }
}

impl From<char> for PackedChar {
    fn from(c: char) -> (r: PackedChar) {
        PackedChar::from_char(c)
    }
}

impl vstd::std_specs::convert::FromSpecImpl<char> for PackedChar {
    open spec fn obeys_from_spec() -> bool {
        true
    }

    open spec fn from_spec(c: char) -> PackedChar {
        PackedChar::spec_from_char(c)
    }
}

impl From<U22> for PackedChar {
    fn from(u22: U22) -> (r: PackedChar) {
        PackedChar::from_u22(u22)
    }
}

impl vstd::std_specs::convert::FromSpecImpl<U22> for PackedChar {
    open spec fn obeys_from_spec() -> bool {
        true
    }

    open spec fn from_spec(u22: U22) -> PackedChar {
        PackedChar::spec_from_u22(u22)
    }
}

impl From<U22> for u32 {
    fn from(u22: U22) -> (r: u32) {
        u22.as_u32()
    }
}

impl vstd::std_specs::convert::FromSpecImpl<U22> for u32 {
    open spec fn obeys_from_spec() -> bool {
        true
    }

    open spec fn from_spec(u22: U22) -> u32 {
        u22@
    }
}

impl TryFrom<u32> for U22 {
    type Error = U22FromU32Error;

    fn try_from(n: u32) -> (r: Result<U22, U22FromU32Error>) {
        U22::from_u32(n)
    }
}

impl vstd::std_specs::convert::TryFromSpecImpl<u32> for U22 {
    open spec fn obeys_try_from_spec() -> bool {
        true
    }

    open spec fn try_from_spec(n: u32) -> Result<U22, U22FromU32Error> {
        U22::spec_from_u32(n)
    }
}

impl TryFrom<u32> for PackedChar {
    type Error = U22FromU32Error;

    fn try_from(n: u32) -> (r: Result<PackedChar, U22FromU32Error>) {
        match U22::from_u32(n) {
            Ok(u22) => Ok(PackedChar::from_u22(u22)),
            Err(e) => Err(e),
        }
    }
}

impl vstd::std_specs::convert::TryFromSpecImpl<u32> for PackedChar {
    open spec fn obeys_try_from_spec() -> bool {
        true
    }

    open spec fn try_from_spec(n: u32) -> Result<PackedChar, U22FromU32Error> {
        match U22::spec_from_u32(n) {
            Ok(u22) => Ok(PackedChar::spec_from_u22(u22)),
            Err(e) => Err(e),
        }
    }
}

/// A char and a 22-bit value never pack to the same bits, so what a packed char holds is
/// always told apart.
pub proof fn char_and_u22_pack_apart(c: char, n: u32)
    requires
        n <= 0x3F_FFFF,
    ensures
        char_code(c) != encode_u22(n),
{
    vstd::utf8::char_is_scalar(c);
    lemma_u22_roundtrip(n);
}

/// The packed char of a 22-bit index unpacks to a `U22` of that index.
pub proof fn packed_index_contents(n: u32)
    requires
        n <= 0x3F_FFFF,
    ensures
        PackedChar::spec_from_index(n).spec_contents() matches PackedCharContents::U22(u) && u@ == n,
{
    lemma_u22_roundtrip(n);
}

/// Packing a char, then unpacking it, gives the char back.
pub proof fn char_pack_roundtrip(c: char)
    ensures
        PackedChar::spec_from_char(c).spec_contents() == PackedCharContents::Char(c),
{
    vstd::utf8::char_is_scalar(c);
    vstd::utf8::char_u32_cast(c, c as u32);
}

/// Packing a 22-bit value, then unpacking it, gives the value back.
pub proof fn u22_pack_roundtrip(u22: U22)
    requires
        u22@ <= 0x3F_FFFF,
    ensures
        PackedChar::spec_from_u22(u22).spec_contents() == PackedCharContents::U22(u22),
{
    lemma_u22_roundtrip(u22@);
}

} // verus!
