//! Classification of single bytes.
//!
//! Every byte that can occur in UTF-8 belongs to exactly one of five classes,
//! told apart by a prefix of its high bits; the bits below the prefix are the
//! payload that the byte contributes to a code point.
//!
//! | class          | bits       | bytes          |
//! |----------------|------------|----------------|
//! | `Single`       | `0xxxxxxx` | `0x00..=0x7F`  |
//! | `Continuation` | `10xxxxxx` | `0x80..=0xBF`  |
//! | `Double`       | `110xxxxx` | `0xC0..=0xDF`  |
//! | `Triple`       | `1110xxxx` | `0xE0..=0xEF`  |
//! | `Quadruple`    | `11110xxx` | `0xF0..=0xF7`  |
//! | none           | `11111xxx` | `0xF8..=0xFF`  |

use vstd::prelude::*;
use vstd::arithmetic::power2::{lemma2_to64, pow2};
use crate::error::Utf8ParserError;

verus! {

/// The smallest code point that takes two bytes.
pub const FIRST_CODE_POINT_FOR_DOUBLE: u32 = 0x80;

/// The smallest code point that takes three bytes.
pub const FIRST_CODE_POINT_FOR_TRIPLE: u32 = 0x800;

/// The smallest code point that takes four bytes.
pub const FIRST_CODE_POINT_FOR_QUADRUPLE: u32 = 0x10000;

/// The class of a byte that can occur in UTF-8.
#[derive(Copy, Clone, PartialEq, Eq, Structural, Debug, Hash)]
pub enum Utf8ByteType {
    /// A continuation byte.
    Continuation,
    /// A one-byte character, i.e. an ASCII value.
    Single,
    /// A start byte that must be followed by one continuation byte.
    Double,
    /// A start byte that must be followed by two continuation bytes.
    Triple,
    /// A start byte that must be followed by three continuation bytes.
    Quadruple,
}

/// The class of `byte`, if it has one: the five prefixes split the bytes
/// below `0xF8` into five ranges, and the bytes from `0xF8` on, which begin
/// with five ones, carry none of them.
pub open spec fn classify(byte: u8) -> Option<Utf8ByteType> {
    if byte < 0x80 {
        Some(Utf8ByteType::Single)
    } else if byte < 0xC0 {
        Some(Utf8ByteType::Continuation)
    } else if byte < 0xE0 {
        Some(Utf8ByteType::Double)
    } else if byte < 0xF0 {
        Some(Utf8ByteType::Triple)
    } else if byte < 0xF8 {
        Some(Utf8ByteType::Quadruple)
    } else {
        None
    }
}

impl Utf8ByteType {
    /// The prefix of the class, as the number that its bits spell.
    pub open spec fn spec_id(self) -> u8 {
        match self {
            Utf8ByteType::Single => 0b0,
            Utf8ByteType::Continuation => 0b10,
            Utf8ByteType::Double => 0b110,
            Utf8ByteType::Triple => 0b1110,
            Utf8ByteType::Quadruple => 0b11110,
        }
    }

    /// The number of bits in the prefix.
    pub open spec fn spec_id_length(self) -> u32 {
        match self {
            Utf8ByteType::Single => 1,
            Utf8ByteType::Continuation => 2,
            Utf8ByteType::Double => 3,
            Utf8ByteType::Triple => 4,
            Utf8ByteType::Quadruple => 5,
        }
    }

    /// The number of payload bits: what the prefix leaves of the eight.
    pub open spec fn spec_value_mask_length(self) -> u32 {
        (8 - self.spec_id_length()) as u32
    }

    /// The byte with ones in the payload bits and zeros in the prefix.
    pub open spec fn spec_value_mask(self) -> u8 {
        match self {
            Utf8ByteType::Single => 0b0111_1111,
            Utf8ByteType::Continuation => 0b0011_1111,
            Utf8ByteType::Double => 0b0001_1111,
            Utf8ByteType::Triple => 0b0000_1111,
            Utf8ByteType::Quadruple => 0b0000_0111,
        }
    }

    /// Whether the high bits of `byte` spell the prefix of this class: the
    /// byte, with its payload bits dropped, is the prefix.
    pub open spec fn spec_matches(self, byte: u8) -> bool {
        match self {
            Utf8ByteType::Single => byte / 128 == 0b0,
            Utf8ByteType::Continuation => byte / 64 == 0b10,
            Utf8ByteType::Double => byte / 32 == 0b110,
            Utf8ByteType::Triple => byte / 16 == 0b1110,
            Utf8ByteType::Quadruple => byte / 8 == 0b11110,
        }
    }

    /// The payload of `byte`: what its bits below the prefix spell.
    pub open spec fn payload(self, byte: u8) -> u8 {
        match self {
            Utf8ByteType::Single => byte % 128,
            Utf8ByteType::Continuation => byte % 64,
            Utf8ByteType::Double => byte % 32,
            Utf8ByteType::Triple => byte % 16,
            Utf8ByteType::Quadruple => byte % 8,
        }
    }

    /// The smallest code point that a sequence opened by a start byte of
    /// this class may encode, since any smaller one has a shorter encoding;
    /// zero for the classes that open no sequence.
    pub open spec fn spec_first_code_point(self) -> u32 {
        match self {
            Utf8ByteType::Double => FIRST_CODE_POINT_FOR_DOUBLE,
            Utf8ByteType::Triple => FIRST_CODE_POINT_FOR_TRIPLE,
            Utf8ByteType::Quadruple => FIRST_CODE_POINT_FOR_QUADRUPLE,
            _ => 0,
        }
    }

    /// The prefixes exclude one another: a class matches a byte exactly when
    /// it is the class that `classify` gives. So no byte has two classes,
    /// and a byte from `0xF8` on has none.
    pub proof fn lemma_matches_iff_classified(self, byte: u8)
        ensures
            self.spec_matches(byte) <==> classify(byte) == Some(self),
    {
    }

    /// In every class a byte is cut in two at the same place, `n` bits from
    /// the right, where `n` is the number of payload bits: the class matches
    /// where the bits above the cut spell the prefix, the payload is what the
    /// bits below it spell, and the mask is all ones below it. A byte of the
    /// class is the two put together.
    pub proof fn lemma_prefix_and_payload(self, byte: u8)
        ensures
            ({
                let span = pow2(self.spec_value_mask_length() as nat) as int;
                &&& self.spec_matches(byte) <==> byte as int / span == self.spec_id()
                &&& self.payload(byte) == byte as int % span
                &&& self.spec_value_mask() == span - 1
                &&& self.spec_matches(byte) ==> byte == self.spec_id() * span + self.payload(byte)
            }),
    {
        lemma2_to64();
        let span = pow2(self.spec_value_mask_length() as nat) as int;
        let prefix = self.spec_id() as int;
        if self.spec_matches(byte) {
            assert(prefix * span == byte - self.payload(byte)) by {
                match self {
                    Utf8ByteType::Single => assert(prefix * span == 0x00),
                    Utf8ByteType::Continuation => assert(prefix * span == 0x80),
                    Utf8ByteType::Double => assert(prefix * span == 0xC0),
                    Utf8ByteType::Triple => assert(prefix * span == 0xE0),
                    Utf8ByteType::Quadruple => assert(prefix * span == 0xF0),
                }
            }
        }
    }

    /// The class of a byte, or `InvalidByte` for a byte that has none.
    pub fn of(byte: u8) -> (result: Result<Utf8ByteType, Utf8ParserError>)
        ensures
            result == match classify(byte) {
                Some(kind) => Ok::<Utf8ByteType, Utf8ParserError>(kind),
                None => Err(Utf8ParserError::InvalidByte(byte)),
            },
            result matches Ok(kind) ==> kind.spec_matches(byte),
            result is Err ==> forall|kind: Utf8ByteType| !kind.spec_matches(byte),
    {
        let kinds = [
            Utf8ByteType::Continuation,
            Utf8ByteType::Single,
            Utf8ByteType::Double,
            Utf8ByteType::Triple,
            Utf8ByteType::Quadruple,
        ];

        let mut i: usize = 0;
        while i < kinds.len()
            invariant
                i <= 5,
                kinds@ == seq![
                    Utf8ByteType::Continuation,
                    Utf8ByteType::Single,
                    Utf8ByteType::Double,
                    Utf8ByteType::Triple,
                    Utf8ByteType::Quadruple,
                ],
                forall|j: int| 0 <= j < i ==> !kinds@[j].spec_matches(byte),
            decreases 5 - i,
        {
            if kinds[i].matches(byte) {
                proof {
                    kinds@[i as int].lemma_matches_iff_classified(byte);
                }
                return Ok(kinds[i]);
            }
            i += 1;
        }

        proof {
            assert forall|kind: Utf8ByteType| !kind.spec_matches(byte) by {
                // Each of the five classes stands in `kinds`.
                assert(kinds@[0] == Utf8ByteType::Continuation);
                assert(kinds@[1] == Utf8ByteType::Single);
                assert(kinds@[2] == Utf8ByteType::Double);
                assert(kinds@[3] == Utf8ByteType::Triple);
                assert(kinds@[4] == Utf8ByteType::Quadruple);
            }
        }
        Err(Utf8ParserError::InvalidByte(byte))
    }

    /// Returns true if this is the class of continuation bytes.
    pub fn is_continuation(self) -> (result: bool)
        ensures
            result == (self == Utf8ByteType::Continuation),
    {
        matches!(self, Utf8ByteType::Continuation)
    }

    /// The smallest code point that a sequence opened by a start byte of
    /// this class may encode; zero for the classes that open no sequence.
    pub fn first_code_point(self) -> (result: u32)
        ensures
            result == self.spec_first_code_point(),
    {
        match self {
            Utf8ByteType::Double => FIRST_CODE_POINT_FOR_DOUBLE,
            Utf8ByteType::Triple => FIRST_CODE_POINT_FOR_TRIPLE,
            Utf8ByteType::Quadruple => FIRST_CODE_POINT_FOR_QUADRUPLE,
            _ => 0,
        }
    }

    fn id(self) -> (result: u8)
        ensures
            result == self.spec_id(),
    {
        match self {
            Utf8ByteType::Single => 0b0,
            Utf8ByteType::Continuation => 0b10,
            Utf8ByteType::Double => 0b110,
            Utf8ByteType::Triple => 0b1110,
            Utf8ByteType::Quadruple => 0b11110,
        }
    }

    fn id_length(self) -> (result: u32)
        ensures
            result == self.spec_id_length(),
    {
        match self {
            Utf8ByteType::Single => 1,
            Utf8ByteType::Continuation => 2,
            Utf8ByteType::Double => 3,
            Utf8ByteType::Triple => 4,
            Utf8ByteType::Quadruple => 5,
        }
    }

    fn value_mask(self) -> (result: u8)
        ensures
            result == self.spec_value_mask(),
    {
        let shift = self.id_length();
        let mask = 0xFFu8 >> shift;
        assert(mask == self.spec_value_mask()) by {
            assert(0xFFu8 >> 1u32 == 0x7Fu8) by (bit_vector);
            assert(0xFFu8 >> 2u32 == 0x3Fu8) by (bit_vector);
            assert(0xFFu8 >> 3u32 == 0x1Fu8) by (bit_vector);
            assert(0xFFu8 >> 4u32 == 0x0Fu8) by (bit_vector);
            assert(0xFFu8 >> 5u32 == 0x07u8) by (bit_vector);
        }
        mask
    }

    fn value_mask_length(self) -> (result: u32)
        ensures
            result == self.spec_value_mask_length(),
    {
        8 - self.id_length()
    }

    fn matches(self, byte: u8) -> (result: bool)
        ensures
            result == self.spec_matches(byte),
    {
        let shift = self.value_mask_length();
        let top = byte >> shift;
        assert(top == self.spec_id() <==> self.spec_matches(byte)) by {
            assert(byte >> 7u32 == byte / 128) by (bit_vector);
            assert(byte >> 6u32 == byte / 64) by (bit_vector);
            assert(byte >> 5u32 == byte / 32) by (bit_vector);
            assert(byte >> 4u32 == byte / 16) by (bit_vector);
            assert(byte >> 3u32 == byte / 8) by (bit_vector);
        }
        top == self.id()
    }
}

/// A classified byte: the class of the byte together with its payload.
#[derive(Copy, Clone, Debug, PartialEq, Eq, Structural)]
pub enum ParsedByte {
    /// A one-byte character, i.e. an ASCII value, with its seven bits.
    Single(u8),
    /// A start byte that must be followed by one continuation byte, with its
    /// five payload bits.
    StartDouble(u8),
    /// A start byte that must be followed by two continuation bytes, with its
    /// four payload bits.
    StartTriple(u8),
    /// A start byte that must be followed by three continuation bytes, with
    /// its three payload bits.
    StartQuadruple(u8),
    /// A continuation byte, with its six payload bits.
    ContinuationByte(u8),
}

impl ParsedByte {
    /// The classified byte of class `kind` that carries `value`.
    pub open spec fn tagged(kind: Utf8ByteType, value: u8) -> ParsedByte {
        match kind {
            Utf8ByteType::Continuation => ParsedByte::ContinuationByte(value),
            Utf8ByteType::Single => ParsedByte::Single(value),
            Utf8ByteType::Double => ParsedByte::StartDouble(value),
            Utf8ByteType::Triple => ParsedByte::StartTriple(value),
            Utf8ByteType::Quadruple => ParsedByte::StartQuadruple(value),
        }
    }

    /// What classification makes of `byte`: its class and payload, or
    /// `InvalidByte` where it has no class.
    pub open spec fn spec_from_byte(byte: u8) -> Result<ParsedByte, Utf8ParserError> {
        match classify(byte) {
            Some(kind) => Ok(ParsedByte::tagged(kind, kind.payload(byte))),
            None => Err(Utf8ParserError::InvalidByte(byte)),
        }
    }

    /// Classifies one byte. Fails, with `InvalidByte`, exactly on the bytes
    /// from `0xF8` on.
    pub fn from_byte(byte: u8) -> (result: Result<ParsedByte, Utf8ParserError>)
        ensures
            result == ParsedByte::spec_from_byte(byte),
            result is Err <==> byte >= 0xF8,
    {
        let kind = match Utf8ByteType::of(byte) {
            Ok(val) => val,
            Err(err) => {
                return Err(err);
            },
        };
        let mask = kind.value_mask();
        let value = byte & mask;
        assert(value == kind.payload(byte)) by {
            assert(byte & 0x7Fu8 == byte % 128) by (bit_vector);
            assert(byte & 0x3Fu8 == byte % 64) by (bit_vector);
            assert(byte & 0x1Fu8 == byte % 32) by (bit_vector);
            assert(byte & 0x0Fu8 == byte % 16) by (bit_vector);
            assert(byte & 0x07u8 == byte % 8) by (bit_vector);
        }

        Ok(
            match kind {
                Utf8ByteType::Continuation => ParsedByte::ContinuationByte(value),
                Utf8ByteType::Single => ParsedByte::Single(value),
                Utf8ByteType::Double => ParsedByte::StartDouble(value),
                Utf8ByteType::Triple => ParsedByte::StartTriple(value),
                Utf8ByteType::Quadruple => ParsedByte::StartQuadruple(value),
            },
        )
    }
}

} // verus!
