//! Globally unique identifiers in the mixed-endian layout that UEFI stores.

use crate::codec::{
    be_u64, le_u16, le_u32, lemma_be_u64_encodes, lemma_le_u16_encodes, lemma_le_u32_encodes,
    lemma_u16_le_decodes, lemma_u32_le_decodes, lemma_u64_be_decodes, put_be_u64, put_le_u16,
    put_le_u32, u16_le, u32_le, u64_be, EndOfInput, Reader,
};
use vstd::prelude::*;

verus! {

/// A 128-bit identifier, held as the four fields of its text form.
///
/// The text `aaaaaaaa-bbbb-cccc-dddd-eeeeeeeeeeee` has `d1 = aaaaaaaa`,
/// `d2 = bbbb`, `d3 = cccc` and `d4 = ddddeeeeeeeeeeee`.
#[derive(Clone, Copy, Debug, PartialEq, Eq, Structural, Hash)]
pub struct Guid {
    /// First group of the text form.
    pub d1: u32,
    /// Second group of the text form.
    pub d2: u16,
    /// Third group of the text form.
    pub d3: u16,
    /// Fourth and fifth group of the text form, as one number.
    pub d4: u64,
}

/// What `uuid::Uuid::try_parse` makes of a text: the fields of the identifier
/// it accepts, or nothing where it rejects the text.
pub uninterp spec fn uuid_text_fields(text: Seq<char>) -> Option<(u32, u16, u16, u64)>;

/// The lower-case hexadecimal digit for a number below sixteen.
pub open spec fn hex_digit(v: int) -> char {
    if v == 0 {
        '0'
    } else if v == 1 {
        '1'
    } else if v == 2 {
        '2'
    } else if v == 3 {
        '3'
    } else if v == 4 {
        '4'
    } else if v == 5 {
        '5'
    } else if v == 6 {
        '6'
    } else if v == 7 {
        '7'
    } else if v == 8 {
        '8'
    } else if v == 9 {
        '9'
    } else if v == 10 {
        'a'
    } else if v == 11 {
        'b'
    } else if v == 12 {
        'c'
    } else if v == 13 {
        'd'
    } else if v == 14 {
        'e'
    } else {
        'f'
    }
}

/// The `n` lowest hexadecimal digits of `v`, the highest of them first.
pub open spec fn hex_text(v: int, n: nat) -> Seq<char>
    decreases n,
{
    if n == 0 {
        Seq::empty()
    } else {
        hex_text(v / 16, (n - 1) as nat).push(hex_digit(v % 16))
    }
}

/// The text of the identifier with the fields given: 32 lower-case
/// hexadecimal digits in groups of 8, 4, 4, 4 and 12 with hyphens between
/// them. The fourth field gives the last two groups.
pub open spec fn uuid_hyphenated_text(d1: u32, d2: u16, d3: u16, d4: u64) -> Seq<char> {
    hex_text(d1 as int, 8) + seq!['-'] + hex_text(d2 as int, 4) + seq!['-'] + hex_text(
        d3 as int,
        4,
    ) + seq!['-'] + hex_text((d4 / 0x1_0000_0000_0000) as int, 4) + seq!['-'] + hex_text(
        (d4 % 0x1_0000_0000_0000) as int,
        12,
    )
}

impl Guid {
    /// The text form of the identifier.
    pub open spec fn text(self) -> Seq<char> {
        uuid_hyphenated_text(self.d1, self.d2, self.d3, self.d4)
    }

    /// Whether the identifier is of the kind that is made of random bits:
    /// the first digit of its third group, the version, is 4, and the two
    /// highest bits of its fourth group, the variant, are 1 and 0.
    pub open spec fn is_random_kind(self) -> bool {
        self.d3 / 0x1000 == 4 && self.d4 / 0x4000_0000_0000_0000 == 2
    }

    /// The identifier whose bits are all zero.
    pub open spec fn spec_nil() -> Guid {
        Guid { d1: 0, d2: 0, d3: 0, d4: 0 }
    }

    /// The sixteen bytes that store the identifier: the first three fields
    /// least significant byte first, the last eight bytes in text order.
    pub open spec fn wire(self) -> Seq<u8> {
        u32_le(self.d1) + u16_le(self.d2) + u16_le(self.d3) + u64_be(self.d4)
    }

    /// The identifier that the first sixteen bytes of `s` store.
    pub open spec fn from_wire(s: Seq<u8>) -> Guid
        recommends
            s.len() >= 16,
    {
        Guid {
            d1: le_u32(s.subrange(0, 4)),
            d2: le_u16(s.subrange(4, 6)),
            d3: le_u16(s.subrange(6, 8)),
            d4: be_u64(s.subrange(8, 16)),
        }
    }

    /// Reading what was stored gives the identifier back.
    pub proof fn lemma_wire_decodes(self)
        ensures
            self.wire().len() == 16,
            Guid::from_wire(self.wire()) == self,
    {
        let s = self.wire();
        lemma_u32_le_decodes(self.d1);
        lemma_u16_le_decodes(self.d2);
        lemma_u16_le_decodes(self.d3);
        lemma_u64_be_decodes(self.d4);
        assert(s.subrange(0, 4) =~= u32_le(self.d1));
        assert(s.subrange(4, 6) =~= u16_le(self.d2));
        assert(s.subrange(6, 8) =~= u16_le(self.d3));
        assert(s.subrange(8, 16) =~= u64_be(self.d4));
    }

    /// Storing what was read gives the sixteen bytes back.
    pub proof fn lemma_wire_encodes(s: Seq<u8>)
        requires
            s.len() == 16,
        ensures
            Guid::from_wire(s).wire() == s,
    {
        lemma_le_u32_encodes(s.subrange(0, 4));
        lemma_le_u16_encodes(s.subrange(4, 6));
        lemma_le_u16_encodes(s.subrange(6, 8));
        lemma_be_u64_encodes(s.subrange(8, 16));
        assert(Guid::from_wire(s).wire() =~= s);
    }

    /// The identifier whose bits are all zero.
    pub fn nil() -> (g: Guid)
        ensures
            g == Guid::spec_nil(),
    {
        Guid { d1: 0, d2: 0, d3: 0, d4: 0 }
    }

    /// Builds an identifier from the fields of its text form.
    pub fn from_fields(d1: u32, d2: u16, d3: u16, d4: u64) -> (g: Guid)
        ensures
            g == (Guid { d1, d2, d3, d4 }),
    {
        Guid { d1, d2, d3, d4 }
    }

    /// Whether every bit is zero.
    pub fn is_nil(&self) -> (r: bool)
        ensures
            r == (*self == Guid::spec_nil()),
    {
        self.d1 == 0 && self.d2 == 0 && self.d3 == 0 && self.d4 == 0
    }

    /// Appends the sixteen stored bytes.
    pub fn write(&self, out: &mut Vec<u8>)
        ensures
            final(out)@ == old(out)@ + self.wire(),
    {
        put_le_u32(out, self.d1);
        put_le_u16(out, self.d2);
        put_le_u16(out, self.d3);
        put_be_u64(out, self.d4);
        assert(out@ =~= old(out)@ + self.wire());
    }

    /// Reads sixteen stored bytes, or nothing where fewer remain.
    pub fn read(rdr: &mut Reader) -> (r: Result<Guid, EndOfInput>)
        ensures
            final(rdr).data() == old(rdr).data(),
            r is Ok <==> old(rdr).position() + 16 <= old(rdr).data().len(),
            r matches Ok(g) ==> g == Guid::from_wire(old(rdr).remaining())
                && final(rdr).position() == old(rdr).position() + 16,
            r is Err ==> final(rdr).position() == old(rdr).position(),
    {
        let ghost start = rdr.remaining();
        let bytes = match rdr.read(16) {
            Ok(b) => b,
            Err(e) => { return Err(e); },
        };
        let mut inner = Reader::new(bytes.as_slice());
        let d1 = match inner.read_le_u32() {
            Ok(x) => x,
            Err(e) => { return Err(e); },
        };
        let d2 = match inner.read_le_u16() {
            Ok(x) => x,
            Err(e) => { return Err(e); },
        };
        let d3 = match inner.read_le_u16() {
            Ok(x) => x,
            Err(e) => { return Err(e); },
        };
        let d4 = match inner.read_be_u64() {
            Ok(x) => x,
            Err(e) => { return Err(e); },
        };
        proof {
            let s = bytes@;
            assert(s == start.subrange(0, 16));
            assert(s.subrange(0, 16) =~= s);
            assert(s.subrange(4, 16).subrange(0, 2) =~= s.subrange(4, 6));
            assert(s.subrange(6, 16).subrange(0, 2) =~= s.subrange(6, 8));
            assert(s.subrange(8, 16).subrange(0, 8) =~= s.subrange(8, 16));
            assert(start.subrange(0, 4) =~= s.subrange(0, 4));
            assert(start.subrange(4, 6) =~= s.subrange(4, 6));
            assert(start.subrange(6, 8) =~= s.subrange(6, 8));
            assert(start.subrange(8, 16) =~= s.subrange(8, 16));
        }
        Ok(Guid { d1, d2, d3, d4 })
    }

    /// The text form of the identifier, such as
    /// `0fc63daf-8483-4772-8e79-3d69d8477de4`.
    pub fn to_text(&self) -> (r: String)
        ensures
            r@ == self.text(),
    {
        hyphenated_text(self.d1, self.d2, self.d3, self.d4)
    }

    /// A fresh identifier of random bits: one of version 4, which is never
    /// the nil identifier.
    pub fn random() -> (r: Guid)
        ensures
            r.is_random_kind(),
            r != Guid::spec_nil(),
    {
        match random_fields() {
            (d1, d2, d3, d4) => Guid { d1, d2, d3, d4 },
        }
    }

    /// Reads an identifier from text such as
    /// `0FC63DAF-8483-4772-8E79-3D69D8477DE4`.
    pub fn parse_str(text: &str) -> (r: Option<Guid>)
        ensures
            r == match uuid_text_fields(text@) {
                Some((d1, d2, d3, d4)) => Some(Guid { d1, d2, d3, d4 }),
                None => None,
            },
    {
        match parse_fields(text) {
            Some((d1, d2, d3, d4)) => Some(Guid { d1, d2, d3, d4 }),
            None => None,
        }
    }
}

/// Calls `uuid::Uuid::new_v4`, which draws 122 random bits from the operating
/// system and sets the other six: the four that give the version to 4, the
/// two that give the variant to that of RFC 4122. The fields of the result
/// are handed over. The contract claims those six bits and nothing of the
/// rest: two calls may differ in all of them.
#[verifier::external_body]
fn random_fields() -> (r: (u32, u16, u16, u64))
    ensures
        r.2 / 0x1000 == 4,
        r.3 / 0x4000_0000_0000_0000 == 2,
{
    let id = uuid::Uuid::new_v4();
    let (d1, d2, d3, d4) = id.as_fields();
    (d1, d2, d3, u64::from_be_bytes(*d4))
}

/// Calls `uuid::Uuid::from_fields` and shows the result through
/// `uuid::Uuid::hyphenated`, which writes the sixteen bytes of the
/// identifier as lower-case hexadecimal digits, two for a byte, with a
/// hyphen behind the eighth, the twelfth, the sixteenth and the twentieth
/// digit. The contract claims that text.
#[verifier::external_body]
fn hyphenated_text(d1: u32, d2: u16, d3: u16, d4: u64) -> (r: String)
    ensures
        r@ == uuid_hyphenated_text(d1, d2, d3, d4),
{
    uuid::Uuid::from_fields(d1, d2, d3, &d4.to_be_bytes()).hyphenated().to_string()
}

/// Calls `uuid::Uuid::try_parse`, which accepts the simple, hyphenated, braced
/// and URN text forms, and hands the fields of the identifier over. The
/// contract only names the outcome; it depends on the text alone.
#[verifier::external_body]
fn parse_fields(text: &str) -> (r: Option<(u32, u16, u16, u64)>)
    ensures
        r == uuid_text_fields(text@),
{
    match uuid::Uuid::try_parse(text) {
        Ok(id) => {
            let (d1, d2, d3, d4) = id.as_fields();
            Some((d1, d2, d3, u64::from_be_bytes(*d4)))
        },
        Err(_) => None,
    }
}

} // verus!
