use utf8_parser::{Utf8Parser, Utf8ParserError};

// The bytes that bring a fresh decoder into each of the states it can wait in,
// the fresh one included.
fn prefixes() -> Vec<Vec<u8>> {
    vec![
        vec![],
        vec![0xC2],
        vec![0xE1],
        vec![0xE1, 0x80],
        vec![0xF1],
        vec![0xF1, 0x80],
        vec![0xF1, 0x80, 0x80],
    ]
}

fn decoder_after(prefix: &[u8]) -> Utf8Parser {
    let mut parser = Utf8Parser::new();
    for byte in prefix {
        assert_eq!(parser.push(*byte), Ok(None));
    }
    parser
}

fn outcomes(parser: &mut Utf8Parser, bytes: &[u8]) -> Vec<Result<Option<char>, Utf8ParserError>> {
    bytes.iter().map(|byte| parser.push(*byte)).collect()
}

#[test]
fn ascii_bytes_yield_their_characters() {
    for byte in 0x00..=0x7Fu8 {
        let mut parser = Utf8Parser::new();
        let c = parser.push(byte).unwrap().unwrap();
        assert_eq!(c as u32, byte as u32);
        // Still fresh: a continuation byte is out of place, an ASCII byte is not.
        let mut again = parser.clone();
        assert_eq!(
            again.push(0x80),
            Err(Utf8ParserError::UnexpectedContinuationByte(0x80))
        );
        assert_eq!(parser.push(byte), Ok(Some(byte as char)));
    }
}

#[test]
fn bytes_with_five_leading_ones_are_invalid_in_every_state() {
    for prefix in prefixes() {
        for byte in 0xF8..=0xFFu8 {
            let mut parser = decoder_after(&prefix);
            assert_eq!(parser.push(byte), Err(Utf8ParserError::InvalidByte(byte)));
            assert_eq!(parser.push(b'a'), Ok(Some('a')));
        }
    }
}

#[test]
fn every_scalar_survives_the_round_trip() {
    let mut parser = Utf8Parser::new();
    let mut buffer = [0u8; 4];
    for code in 0..=0x10FFFFu32 {
        let Some(c) = char::from_u32(code) else {
            continue;
        };
        let bytes = c.encode_utf8(&mut buffer).as_bytes();
        let (last, before) = bytes.split_last().unwrap();
        for byte in before {
            assert_eq!(parser.push(*byte), Ok(None));
        }
        assert_eq!(parser.push(*last), Ok(Some(c)));
    }
}

#[test]
fn a_string_comes_back_character_by_character() {
    let text = "a\u{80}\u{7FF}\u{800}\u{FFFF}\u{10000}\u{10FFFF}z";
    let mut parser = Utf8Parser::new();
    let got = outcomes(&mut parser, text.as_bytes());
    let none = Ok(None);
    let expected = vec![
        Ok(Some('a')),
        none,
        Ok(Some('\u{80}')),
        none,
        Ok(Some('\u{7FF}')),
        none,
        none,
        Ok(Some('\u{800}')),
        none,
        none,
        Ok(Some('\u{FFFF}')),
        none,
        none,
        none,
        Ok(Some('\u{10000}')),
        none,
        none,
        none,
        Ok(Some('\u{10FFFF}')),
        Ok(Some('z')),
    ];
    assert_eq!(got, expected);
}

#[test]
fn overlong_zero_is_rejected_and_u0080_is_not() {
    let mut parser = Utf8Parser::new();
    assert_eq!(parser.push(0b11000000), Ok(None));
    assert_eq!(parser.push(0b10000000), Err(Utf8ParserError::OverlongEncoding));

    let mut parser = Utf8Parser::new();
    assert_eq!(parser.push(0b11000010), Ok(None));
    assert_eq!(parser.push(0b10000000), Ok(Some('\u{80}')));
}

#[test]
fn overlong_is_judged_at_the_last_byte() {
    // U+007F in three bytes.
    let mut parser = Utf8Parser::new();
    assert_eq!(
        outcomes(&mut parser, &[0xE0, 0x81, 0xBF]),
        vec![Ok(None), Ok(None), Err(Utf8ParserError::OverlongEncoding)]
    );
    // U+07FF in three bytes, and U+0800, the first that needs them.
    assert_eq!(
        outcomes(&mut parser, &[0xE0, 0x9F, 0xBF]),
        vec![Ok(None), Ok(None), Err(Utf8ParserError::OverlongEncoding)]
    );
    assert_eq!(
        outcomes(&mut parser, &[0xE0, 0xA0, 0x80]),
        vec![Ok(None), Ok(None), Ok(Some('\u{800}'))]
    );
    // U+FFFF in four bytes, and U+10000, the first that needs them.
    assert_eq!(
        outcomes(&mut parser, &[0xF0, 0x8F, 0xBF, 0xBF]),
        vec![Ok(None), Ok(None), Ok(None), Err(Utf8ParserError::OverlongEncoding)]
    );
    assert_eq!(
        outcomes(&mut parser, &[0xF0, 0x90, 0x80, 0x80]),
        vec![Ok(None), Ok(None), Ok(None), Ok(Some('\u{10000}'))]
    );
    // A surrogate in four bytes is overlong before it is a surrogate.
    assert_eq!(
        outcomes(&mut parser, &[0xF0, 0x8D, 0xA0, 0x80]),
        vec![Ok(None), Ok(None), Ok(None), Err(Utf8ParserError::OverlongEncoding)]
    );
}

#[test]
fn surrogates_and_numbers_past_the_last_scalar_are_no_characters() {
    let mut parser = Utf8Parser::new();
    assert_eq!(
        outcomes(&mut parser, &[0xED, 0x9F, 0xBF]),
        vec![Ok(None), Ok(None), Ok(Some('\u{D7FF}'))]
    );
    assert_eq!(
        outcomes(&mut parser, &[0xED, 0xA0, 0x80]),
        vec![Ok(None), Ok(None), Err(Utf8ParserError::InvalidChar(0xD800))]
    );
    assert_eq!(
        outcomes(&mut parser, &[0xED, 0xBF, 0xBF]),
        vec![Ok(None), Ok(None), Err(Utf8ParserError::InvalidChar(0xDFFF))]
    );
    assert_eq!(
        outcomes(&mut parser, &[0xEE, 0x80, 0x80]),
        vec![Ok(None), Ok(None), Ok(Some('\u{E000}'))]
    );
    assert_eq!(
        outcomes(&mut parser, &[0xF4, 0x8F, 0xBF, 0xBF]),
        vec![Ok(None), Ok(None), Ok(None), Ok(Some('\u{10FFFF}'))]
    );
    assert_eq!(
        outcomes(&mut parser, &[0xF4, 0x90, 0x80, 0x80]),
        vec![Ok(None), Ok(None), Ok(None), Err(Utf8ParserError::InvalidChar(0x110000))]
    );
    assert_eq!(
        outcomes(&mut parser, &[0xF7, 0xBF, 0xBF, 0xBF]),
        vec![Ok(None), Ok(None), Ok(None), Err(Utf8ParserError::InvalidChar(0x1FFFFF))]
    );
}

#[test]
fn each_rejection_has_its_input() {
    let mut parser = Utf8Parser::new();
    assert_eq!(parser.push(0xFF), Err(Utf8ParserError::InvalidByte(0xFF)));
    assert_eq!(
        parser.push(0xBF),
        Err(Utf8ParserError::UnexpectedContinuationByte(0xBF))
    );
    assert_eq!(parser.push(0xE2), Ok(None));
    assert_eq!(parser.push(0xC3), Err(Utf8ParserError::UnexpectedStartByte(0xC3)));
    assert_eq!(parser.push(0xC1), Ok(None));
    assert_eq!(parser.push(0xBF), Err(Utf8ParserError::OverlongEncoding));
    assert_eq!(parser.push(0xED), Ok(None));
    assert_eq!(parser.push(0xA0), Ok(None));
    assert_eq!(parser.push(0x80), Err(Utf8ParserError::InvalidChar(0xD800)));
}

#[test]
fn an_interrupted_sequence_recovers_at_once() {
    let mut parser = Utf8Parser::new();
    assert_eq!(parser.push(0b11100000), Ok(None));
    assert_eq!(
        parser.push(0b01100001),
        Err(Utf8ParserError::UnexpectedStartByte(b'a'))
    );
    assert_eq!(parser.push(b'a'), Ok(Some('a')));
}

#[test]
fn every_start_byte_in_a_sequence_is_unexpected() {
    for prefix in prefixes() {
        if prefix.is_empty() {
            continue;
        }
        for byte in (0x00..=0x7Fu8).chain(0xC0..=0xF7u8) {
            let mut parser = decoder_after(&prefix);
            assert_eq!(
                parser.push(byte),
                Err(Utf8ParserError::UnexpectedStartByte(byte))
            );
            // The rejected byte is not looked at again.
            assert_eq!(parser.push(b'a'), Ok(Some('a')));
        }
    }
}

#[test]
fn after_a_rejection_only_later_bytes_count() {
    let histories: Vec<Vec<u8>> = vec![
        vec![0xFF],
        vec![0x80],
        vec![b'a', b'b', 0xE0, b'c'],
        vec![0xC0, 0x80],
        vec![0xF4, 0x90, 0x80, 0x80],
        vec![0xF0, 0x9F, 0xFE],
    ];
    let rest = "é🦊\u{800}".as_bytes().iter().copied().chain([0xBF, 0xE0, 0xFF, b'z']);
    let rest: Vec<u8> = rest.collect();
    let baseline = outcomes(&mut Utf8Parser::new(), &rest);
    for history in histories {
        let mut parser = Utf8Parser::new();
        let before = outcomes(&mut parser, &history);
        assert!(before.last().unwrap().is_err());
        assert_eq!(outcomes(&mut parser, &rest), baseline);
    }
}

#[test]
fn two_decoders_share_nothing() {
    let mut first = Utf8Parser::new();
    let mut second = Utf8Parser::default();
    assert_eq!(first.push(0xC3), Ok(None));
    assert_eq!(second.push(b'x'), Ok(Some('x')));
    let mut copy = first.clone();
    assert_eq!(first.push(0xA9), Ok(Some('é')));
    assert_eq!(copy.push(0xA9), Ok(Some('é')));
    assert_eq!(second.push(0xA9), Err(Utf8ParserError::UnexpectedContinuationByte(0xA9)));
}

// A small generator of bytes, so that the streams below are the same in
// every run.
fn next_byte(seed: &mut u64) -> u8 {
    *seed = seed
        .wrapping_mul(6364136223846793005)
        .wrapping_add(1442695040888963407);
    (*seed >> 56) as u8
}

#[test]
fn a_long_stream_of_arbitrary_bytes_always_has_an_outcome() {
    let mut parser = Utf8Parser::new();
    let mut seed = 0x5EED_u64;
    let mut characters = 0u32;
    let mut rejections = 0u32;
    for _ in 0..1_000_000 {
        match parser.push(next_byte(&mut seed)) {
            Ok(Some(_)) => characters += 1,
            Ok(None) => {}
            Err(_) => {
                rejections += 1;
                // Fresh again, whatever went wrong.
                assert_eq!(parser.clone().push(b'a'), Ok(Some('a')));
            }
        }
    }
    assert!(characters > 0);
    assert!(rejections > 0);
}

#[test]
fn short_sequences_are_accepted_exactly_where_they_are_utf8() {
    // Every sequence of one, two and three bytes, and a sample of four.
    let mut tried = 0u32;
    for b0 in 0..=255u8 {
        compare_with_std(&[b0]);
        for b1 in 0..=255u8 {
            compare_with_std(&[b0, b1]);
            tried += 1;
        }
    }
    for b0 in 0xC0..=255u8 {
        for b1 in 0x70..=0xC8u8 {
            for b2 in 0..=255u8 {
                compare_with_std(&[b0, b1, b2]);
                tried += 1;
            }
        }
    }
    for b0 in 0xEC..=0xF8u8 {
        for b1 in 0x7F..=0xC0u8 {
            for b2 in [0x00, 0x7F, 0x80, 0x9F, 0xA0, 0xBF, 0xC0, 0xFF] {
                for b3 in [0x00, 0x7F, 0x80, 0xBF, 0xC0, 0xFF] {
                    compare_with_std(&[b0, b1, b2, b3]);
                    tried += 1;
                }
            }
        }
    }
    assert!(tried > 1_000_000);
}

fn compare_with_std(bytes: &[u8]) {
    let mut parser = Utf8Parser::new();
    let mut decoded = String::new();
    let mut complaint = false;
    for byte in bytes {
        match parser.push(*byte) {
            Ok(Some(c)) => decoded.push(c),
            Ok(None) => {}
            Err(_) => complaint = true,
        }
    }
    // Unfinished at the end: a continuation byte would still be taken.
    let unfinished = !matches!(
        parser.push(0x80),
        Err(Utf8ParserError::UnexpectedContinuationByte(0x80))
    );
    match std::str::from_utf8(bytes) {
        Ok(text) => {
            assert!(!complaint && !unfinished, "{:x?}", bytes);
            assert_eq!(decoded, text);
        }
        Err(_) => assert!(complaint || unfinished, "{:x?}", bytes),
    }
}
