//! The decoder: a state machine that assembles code points from classified
//! bytes.
//!
//! | state          | byte         | next state   | outcome                      |
//! |----------------|--------------|--------------|------------------------------|
//! | `Fresh`        | ASCII        | `Fresh`      | the character                |
//! | `Fresh`        | start of 2   | `OneLeft`    | nothing yet                  |
//! | `Fresh`        | start of 3   | `TwoLeft`    | nothing yet                  |
//! | `Fresh`        | start of 4   | `ThreeLeft`  | nothing yet                  |
//! | `Fresh`        | continuation | `Fresh`      | unexpected continuation byte |
//! | `ThreeLeft`    | continuation | `TwoLeft`    | nothing yet                  |
//! | `TwoLeft`      | continuation | `OneLeft`    | nothing yet                  |
//! | `OneLeft`      | continuation | `Fresh`      | the character, or an error   |
//! | not `Fresh`    | ASCII, start | `Fresh`      | unexpected start byte        |
//! | any            | `0xF8..`     | `Fresh`      | invalid byte                 |

use vstd::prelude::*;
use crate::byte::{classify, ParsedByte, Utf8ByteType};
use crate::error::Utf8ParserError;

verus! {

/// `char::from_u32` of the standard library. Its documentation gives the
/// character with the code point `i` where `i` is a Unicode scalar value,
/// that is at most `0x10FFFF` and outside `0xD800..=0xDFFF`, and `None`
/// for every other `i`.
pub assume_specification[ char::from_u32 ](i: u32) -> (result: Option<char>)
    ensures
        (i <= 0xD7FF || 0xE000 <= i <= 0x10FFFF) ==> result == Some(i as char),
        !(i <= 0xD7FF || 0xE000 <= i <= 0x10FFFF) ==> result is None,
;

/// Whether `value` is a Unicode scalar value: a code point that is no
/// surrogate.
pub open spec fn is_scalar_value(value: u32) -> bool {
    value <= 0x10FFFF && !(0xD800 <= value <= 0xDFFF)
}

/// The accumulator after six more payload bits have been appended to it.
pub open spec fn appended(bits: u32, payload: u8) -> u32 {
    (bits * 64 + payload) as u32
}

/// What a finished sequence yields, given the class of its start byte and
/// all of its payload bits: an overlong encoding is rejected first, then a
/// number that is no scalar value; anything else is the character.
pub open spec fn emitted(first: Utf8ByteType, value: u32) -> Result<Option<char>, Utf8ParserError> {
    if value < first.spec_first_code_point() {
        Err(Utf8ParserError::OverlongEncoding)
    } else if !is_scalar_value(value) {
        Err(Utf8ParserError::InvalidChar(value))
    } else {
        Ok(Some(value as char))
    }
}

/// What the decoder remembers between two bytes.
///
/// Outside a sequence it remembers nothing. Inside one it remembers how many
/// continuation bytes are still owed, the payload bits gathered so far, and
/// the class of the start byte, by which the finished code point is judged
/// overlong or not.
#[derive(Copy, Clone, PartialEq, Eq, Structural, Debug)]
pub enum State {
    /// No sequence is in progress.
    Fresh,
    /// One continuation byte is owed.
    OneLeft(u32, Utf8ByteType),
    /// Two continuation bytes are owed.
    TwoLeft(u32, Utf8ByteType),
    /// Three continuation bytes are owed; the start byte was a `Quadruple`.
    ThreeLeft(u32),
}

impl State {
    /// The states that a decoder can be in: the start byte is one that leaves
    /// at least as many continuation bytes as are owed, and the accumulator
    /// holds no more bits than the bytes consumed have payload. A finished
    /// code point therefore has at most 21 bits.
    pub open spec fn wf(self) -> bool {
        match self {
            State::Fresh => true,
            State::OneLeft(bits, first) => match first {
                Utf8ByteType::Double => bits < 0x20,
                Utf8ByteType::Triple => bits < 0x400,
                Utf8ByteType::Quadruple => bits < 0x8000,
                _ => false,
            },
            State::TwoLeft(bits, first) => match first {
                Utf8ByteType::Triple => bits < 0x10,
                Utf8ByteType::Quadruple => bits < 0x200,
                _ => false,
            },
            State::ThreeLeft(bits) => bits < 0x8,
        }
    }

    /// The state after `byte` has been pushed in this state. Every rejected
    /// byte leads to `Fresh`.
    pub open spec fn next(self, byte: u8) -> State {
        match classify(byte) {
            None => State::Fresh,
            Some(kind) => {
                let payload = kind.payload(byte);
                match (self, kind) {
                    (State::Fresh, Utf8ByteType::Double) => State::OneLeft(payload as u32, kind),
                    (State::Fresh, Utf8ByteType::Triple) => State::TwoLeft(payload as u32, kind),
                    (State::Fresh, Utf8ByteType::Quadruple) => State::ThreeLeft(payload as u32),
                    (State::ThreeLeft(bits), Utf8ByteType::Continuation) => State::TwoLeft(
                        appended(bits, payload),
                        Utf8ByteType::Quadruple,
                    ),
                    (State::TwoLeft(bits, first), Utf8ByteType::Continuation) => State::OneLeft(
                        appended(bits, payload),
                        first,
                    ),
                    _ => State::Fresh,
                }
            },
        }
    }

    /// What pushing `byte` in this state returns.
    pub open spec fn output(self, byte: u8) -> Result<Option<char>, Utf8ParserError> {
        match classify(byte) {
            None => Err(Utf8ParserError::InvalidByte(byte)),
            Some(Utf8ByteType::Continuation) => match self {
                State::Fresh => Err(Utf8ParserError::UnexpectedContinuationByte(byte)),
                State::OneLeft(bits, first) => emitted(
                    first,
                    appended(bits, Utf8ByteType::Continuation.payload(byte)),
                ),
                _ => Ok(None),
            },
            Some(kind) => match self {
                State::Fresh => if kind == Utf8ByteType::Single {
                    Ok(Some(byte as char))
                } else {
                    Ok(None)
                },
                _ => Err(Utf8ParserError::UnexpectedStartByte(byte)),
            },
        }
    }
}

/// Appends the six payload bits of a continuation byte to an accumulator.
pub fn push_byte(current: u32, byte: u8) -> (result: u32)
    requires
        current <= 0x00FF_FFFF,
        byte <= 0b0011_1111,
    ensures
        result == appended(current, byte),
        result == current * 64 + byte,
{
    let shifted = current << 6u32;
    let low = byte as u32;
    let result = shifted | low;
    assert(result == current * 64 + byte) by (bit_vector)
        requires
            current <= 0x00FF_FFFFu32,
            byte <= 0x3Fu8,
            shifted == current << 6u32,
            low == byte as u32,
            result == shifted | low,
    ;
    result
}

/// A stateful UTF-8 decoder, fed one byte at a time.
///
/// The decoder resets on errors: the byte that was rejected is not looked at
/// again, and the next byte is judged as the first of a stream.
#[derive(Debug)]
pub struct Utf8Parser {
    state: State,
}

impl Clone for Utf8Parser {
    fn clone(&self) -> (copy: Utf8Parser)
        ensures
            copy.state() == self.state(),
    {
        proof {
            use_type_invariant(self);
        }
        Utf8Parser { state: self.state }
    }
}

impl Utf8Parser {
    #[verifier::type_invariant]
    spec fn inv(self) -> bool {
        self.state.wf()
    }

    /// The state the decoder is in.
    pub closed spec fn state(&self) -> State {
        self.state
    }

    /// A decoder with no sequence in progress.
    pub fn new() -> (parser: Utf8Parser)
        ensures
            parser.state() == State::Fresh,
    {
        Utf8Parser { state: State::Fresh }
    }

    /// Pushes a byte into the decoder.
    ///
    /// Returns the character that the byte completes, `None` where the byte
    /// is accepted and more are owed, and otherwise the reason for which it is
    /// rejected. After a rejection no sequence is in progress. Any byte can
    /// be pushed at any time: what is returned, and the state that follows,
    /// are those that `State::output` and `State::next` give for the state
    /// before the call.
    pub fn push(&mut self, byte: u8) -> (result: Result<Option<char>, Utf8ParserError>)
        ensures
            result == old(self).state().output(byte),
            final(self).state() == old(self).state().next(byte),
            old(self).state().wf(),
            final(self).state().wf(),
            result is Err ==> final(self).state() == State::Fresh,
            result matches Ok(Some(_)) ==> final(self).state() == State::Fresh,
            old(self).state() == State::Fresh && byte <= 0x7F ==> result == Ok::<
                Option<char>,
                Utf8ParserError,
            >(Some(byte as char)) && final(self).state() == State::Fresh,
            byte >= 0xF8 ==> result == Err::<Option<char>, Utf8ParserError>(
                Utf8ParserError::InvalidByte(byte),
            ) && final(self).state() == State::Fresh,
    {
        proof {
            use_type_invariant(&*self);
        }
        match self.push_inner_impl(byte) {
            Ok(val) => Ok(val),
            // Reset on error
            Err(val) => {
                self.reset();
                Err(val)
            },
        }
    }

    // The transition without the reset that follows a rejection.
    fn push_inner_impl(&mut self, byte: u8) -> (result: Result<Option<char>, Utf8ParserError>)
        ensures
            result == old(self).state().output(byte),
            result is Ok ==> final(self).state() == old(self).state().next(byte),
            result is Err ==> old(self).state().next(byte) == State::Fresh,
            final(self).state().wf(),
    {
        proof {
            use_type_invariant(&*self);
        }
        let parsed = match ParsedByte::from_byte(byte) {
            Ok(v) => v,
            Err(e) => {
                return Err(e);
            },
        };

        match (self.state, parsed) {
            (State::OneLeft(current, first), ParsedByte::ContinuationByte(value)) => {
                self.state = State::Fresh;
                let val = push_byte(current, value);
                if val < first.first_code_point() {
                    return Err(Utf8ParserError::OverlongEncoding);
                }
                match char::from_u32(val) {
                    Some(val) => Ok(Some(val)),
                    None => Err(Utf8ParserError::InvalidChar(val)),
                }
            },
            (State::TwoLeft(current, first), ParsedByte::ContinuationByte(value)) => {
                self.state = State::OneLeft(push_byte(current, value), first);
                Ok(None)
            },
            (State::ThreeLeft(current), ParsedByte::ContinuationByte(value)) => {
                self.state = State::TwoLeft(push_byte(current, value), Utf8ByteType::Quadruple);
                Ok(None)
            },
            (State::Fresh, ParsedByte::Single(value)) => Ok(Some(value as char)),
            (State::Fresh, ParsedByte::StartDouble(value)) => {
                self.state = State::OneLeft(value as u32, Utf8ByteType::Double);
                Ok(None)
            },
            (State::Fresh, ParsedByte::StartTriple(value)) => {
                self.state = State::TwoLeft(value as u32, Utf8ByteType::Triple);
                Ok(None)
            },
            (State::Fresh, ParsedByte::StartQuadruple(value)) => {
                self.state = State::ThreeLeft(value as u32);
                Ok(None)
            },
            (
                State::OneLeft(_, _) | State::TwoLeft(_, _) | State::ThreeLeft(_),
                ParsedByte::Single(_)
                | ParsedByte::StartDouble(_)
                | ParsedByte::StartTriple(_)
                | ParsedByte::StartQuadruple(_),
            ) => Err(Utf8ParserError::UnexpectedStartByte(byte)),
            (State::Fresh, ParsedByte::ContinuationByte(_)) => {
                Err(Utf8ParserError::UnexpectedContinuationByte(byte))
            },
        }
    }

    // Drops the sequence in progress, if any.
    fn reset(&mut self)
        ensures
            final(self).state() == State::Fresh,
    {
        self.state = State::Fresh;
    }
}

impl Default for Utf8Parser {
    fn default() -> (parser: Utf8Parser)
        ensures
            parser.state() == State::Fresh,
    {
        Utf8Parser::new()
    }
}

} // verus!
