use utf8_parser::byte::{
    FIRST_CODE_POINT_FOR_DOUBLE, FIRST_CODE_POINT_FOR_QUADRUPLE, FIRST_CODE_POINT_FOR_TRIPLE,
};
use utf8_parser::parser::push_byte;
use utf8_parser::{ParsedByte, Utf8ByteType, Utf8ParserError};

#[test]
fn one_class_for_each_prefix() {
    assert_eq!(Utf8ByteType::of(0b00000010), Ok(Utf8ByteType::Single));
    assert_eq!(Utf8ByteType::of(0b10000010), Ok(Utf8ByteType::Continuation));
    assert_eq!(Utf8ByteType::of(0b11000010), Ok(Utf8ByteType::Double));
    assert_eq!(Utf8ByteType::of(0b11100010), Ok(Utf8ByteType::Triple));
    assert_eq!(Utf8ByteType::of(0b11110010), Ok(Utf8ByteType::Quadruple));
    assert!(Utf8ByteType::of(0b11111010).is_err());
}

#[test]
fn class_boundaries() {
    assert_eq!(Utf8ByteType::of(0x00), Ok(Utf8ByteType::Single));
    assert_eq!(Utf8ByteType::of(0x7F), Ok(Utf8ByteType::Single));
    assert_eq!(Utf8ByteType::of(0x80), Ok(Utf8ByteType::Continuation));
    assert_eq!(Utf8ByteType::of(0xBF), Ok(Utf8ByteType::Continuation));
    assert_eq!(Utf8ByteType::of(0xC0), Ok(Utf8ByteType::Double));
    assert_eq!(Utf8ByteType::of(0xDF), Ok(Utf8ByteType::Double));
    assert_eq!(Utf8ByteType::of(0xE0), Ok(Utf8ByteType::Triple));
    assert_eq!(Utf8ByteType::of(0xEF), Ok(Utf8ByteType::Triple));
    assert_eq!(Utf8ByteType::of(0xF0), Ok(Utf8ByteType::Quadruple));
    assert_eq!(Utf8ByteType::of(0xF7), Ok(Utf8ByteType::Quadruple));
    assert_eq!(Utf8ByteType::of(0xF8), Err(Utf8ParserError::InvalidByte(0xF8)));
    assert_eq!(Utf8ByteType::of(0xFF), Err(Utf8ParserError::InvalidByte(0xFF)));
}

#[test]
fn every_byte_has_the_class_of_its_leading_ones() {
    for byte in 0..=255u8 {
        let expected = match byte.leading_ones() {
            0 => Ok(Utf8ByteType::Single),
            1 => Ok(Utf8ByteType::Continuation),
            2 => Ok(Utf8ByteType::Double),
            3 => Ok(Utf8ByteType::Triple),
            4 => Ok(Utf8ByteType::Quadruple),
            _ => Err(Utf8ParserError::InvalidByte(byte)),
        };
        assert_eq!(Utf8ByteType::of(byte), expected);
    }
}

#[test]
fn only_continuation_is_continuation() {
    assert!(Utf8ByteType::Continuation.is_continuation());
    assert!(!Utf8ByteType::Single.is_continuation());
    assert!(!Utf8ByteType::Double.is_continuation());
    assert!(!Utf8ByteType::Triple.is_continuation());
    assert!(!Utf8ByteType::Quadruple.is_continuation());
}

#[test]
fn payload_is_the_byte_without_its_prefix() {
    for byte in 0..=255u8 {
        let expected = match byte {
            0x00..=0x7F => Ok(ParsedByte::Single(byte)),
            0x80..=0xBF => Ok(ParsedByte::ContinuationByte(byte - 0x80)),
            0xC0..=0xDF => Ok(ParsedByte::StartDouble(byte - 0xC0)),
            0xE0..=0xEF => Ok(ParsedByte::StartTriple(byte - 0xE0)),
            0xF0..=0xF7 => Ok(ParsedByte::StartQuadruple(byte - 0xF0)),
            0xF8..=0xFF => Err(Utf8ParserError::InvalidByte(byte)),
        };
        assert_eq!(ParsedByte::from_byte(byte), expected);
    }
}

#[test]
fn classification_repeats_itself() {
    for byte in 0..=255u8 {
        assert_eq!(ParsedByte::from_byte(byte), ParsedByte::from_byte(byte));
        assert_eq!(Utf8ByteType::of(byte), Utf8ByteType::of(byte));
    }
}

#[test]
fn smallest_code_points() {
    assert_eq!(FIRST_CODE_POINT_FOR_DOUBLE, 0x80);
    assert_eq!(FIRST_CODE_POINT_FOR_TRIPLE, 0x800);
    assert_eq!(FIRST_CODE_POINT_FOR_QUADRUPLE, 0x10000);
    assert_eq!(Utf8ByteType::Single.first_code_point(), 0);
    assert_eq!(Utf8ByteType::Continuation.first_code_point(), 0);
    assert_eq!(Utf8ByteType::Double.first_code_point(), 0x80);
    assert_eq!(Utf8ByteType::Triple.first_code_point(), 0x800);
    assert_eq!(Utf8ByteType::Quadruple.first_code_point(), 0x10000);
}

#[test]
fn six_bits_are_appended() {
    assert_eq!(push_byte(0, 0), 0);
    assert_eq!(push_byte(0, 0x3F), 0x3F);
    assert_eq!(push_byte(1, 0), 0x40);
    assert_eq!(push_byte(0b11111, 0b111111), 0x7FF);
    assert_eq!(push_byte(0x3FF, 0x3F), 0xFFFF);
    assert_eq!(push_byte(0x00FF_FFFF, 0x3F), 0x3FFF_FFFF);
}
