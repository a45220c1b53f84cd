//! The round trip: a string that is encoded as UTF-8 and pushed through the
//! decoder byte by byte comes back character by character.

use vstd::prelude::*;
use crate::byte::Utf8ByteType;
use crate::error::Utf8ParserError;
use crate::parser::{appended, State};
use crate::stream::{
    characters, lemma_run_concat, lemma_run_push, run_outputs, run_state, Outcome,
};
use vstd::utf8::{
    char_is_scalar, char_u32_cast, encode_scalar, encode_utf8, has_width_1_encoding,
    has_width_2_encoding, has_width_3_encoding, has_width_4_encoding, last_continuation_byte,
    leading_byte_width_1, leading_byte_width_2, leading_byte_width_3, leading_byte_width_4,
    second_last_continuation_byte, third_last_continuation_byte,
};

verus! {

/// The outcomes owed for the bytes that encode one character: nothing yet
/// for every byte but the last, and the character for the last.
pub open spec fn outputs_of_scalar(c: char) -> Seq<Outcome> {
    let len = encode_scalar(c as u32).len();
    Seq::new(
        len,
        |i: int|
            if i + 1 == len {
                Ok::<Option<char>, Utf8ParserError>(Some(c))
            } else {
                Ok::<Option<char>, Utf8ParserError>(None)
            },
    )
}

/// The outcomes owed for the bytes that encode a string: those of its
/// characters, one character after the other.
pub open spec fn outputs_of_string(chars: Seq<char>) -> Seq<Outcome>
    decreases chars.len(),
{
    if chars.len() == 0 {
        Seq::empty()
    } else {
        outputs_of_scalar(chars[0]) + outputs_of_string(chars.drop_first())
    }
}

// The single byte of a code point up to U+007F is the code point.
proof fn lemma_byte_of_one(v: u32)
    by (bit_vector)
    requires
        v <= 0x7F,
    ensures
        leading_byte_width_1(v) == v,
{
}

// The two bytes of a code point from U+0080 to U+07FF: a start byte and a
// continuation byte whose payloads spell the code point.
proof fn lemma_bytes_of_two(v: u32)
    by (bit_vector)
    requires
        0x80 <= v <= 0x7FF,
    ensures
        0xC0 <= leading_byte_width_2(v) <= 0xDF,
        0x80 <= last_continuation_byte(v) <= 0xBF,
        (leading_byte_width_2(v) % 32) * 64 + last_continuation_byte(v) % 64 == v,
{
}

// The three bytes of a code point from U+0800 to U+FFFF.
proof fn lemma_bytes_of_three(v: u32)
    by (bit_vector)
    requires
        0x800 <= v <= 0xFFFF,
    ensures
        0xE0 <= leading_byte_width_3(v) <= 0xEF,
        0x80 <= second_last_continuation_byte(v) <= 0xBF,
        0x80 <= last_continuation_byte(v) <= 0xBF,
        ((leading_byte_width_3(v) % 16) * 64 + second_last_continuation_byte(v) % 64) * 64
            + last_continuation_byte(v) % 64 == v,
{
}

// The four bytes of a code point from U+10000 to U+10FFFF.
proof fn lemma_bytes_of_four(v: u32)
    by (bit_vector)
    requires
        0x10000 <= v <= 0x10FFFF,
    ensures
        0xF0 <= leading_byte_width_4(v) <= 0xF7,
        0x80 <= third_last_continuation_byte(v) <= 0xBF,
        0x80 <= second_last_continuation_byte(v) <= 0xBF,
        0x80 <= last_continuation_byte(v) <= 0xBF,
        (((leading_byte_width_4(v) % 8) * 64 + third_last_continuation_byte(v) % 64) * 64
            + second_last_continuation_byte(v) % 64) * 64 + last_continuation_byte(v) % 64 == v,
{
}

// A character of one byte.
proof fn lemma_round_trip_of_one(c: char)
    requires
        has_width_1_encoding(c as u32),
    ensures
        run_outputs(State::Fresh, encode_scalar(c as u32)) == outputs_of_scalar(c),
        run_state(State::Fresh, encode_scalar(c as u32)) == State::Fresh,
{
    let v = c as u32;
    let none = Seq::<u8>::empty();
    lemma_byte_of_one(v);
    char_u32_cast(c, v);
    let b0 = leading_byte_width_1(v);
    assert(encode_scalar(v) == none.push(b0));
    lemma_run_push(State::Fresh, none, b0);
    assert(State::Fresh.output(b0) == Ok::<Option<char>, Utf8ParserError>(Some(c)));
    assert(State::Fresh.next(b0) == State::Fresh);
}

// A character of two bytes.
proof fn lemma_round_trip_of_two(c: char)
    requires
        has_width_2_encoding(c as u32),
    ensures
        run_outputs(State::Fresh, encode_scalar(c as u32)) == outputs_of_scalar(c),
        run_state(State::Fresh, encode_scalar(c as u32)) == State::Fresh,
{
    let v = c as u32;
    let none = Seq::<u8>::empty();
    lemma_bytes_of_two(v);
    char_u32_cast(c, v);
    let b0 = leading_byte_width_2(v);
    let b1 = last_continuation_byte(v);
    assert(encode_scalar(v) == none.push(b0).push(b1));
    lemma_run_push(State::Fresh, none, b0);
    lemma_run_push(State::Fresh, none.push(b0), b1);
    let s1 = State::Fresh.next(b0);
    assert(s1 == State::OneLeft((b0 % 32) as u32, Utf8ByteType::Double));
    assert(State::Fresh.output(b0) == Ok::<Option<char>, Utf8ParserError>(None));
    assert(appended((b0 % 32) as u32, b1 % 64) == v);
    assert(s1.output(b1) == Ok::<Option<char>, Utf8ParserError>(Some(c)));
    assert(s1.next(b1) == State::Fresh);
}

// A character of three bytes.
proof fn lemma_round_trip_of_three(c: char)
    requires
        has_width_3_encoding(c as u32),
    ensures
        run_outputs(State::Fresh, encode_scalar(c as u32)) == outputs_of_scalar(c),
        run_state(State::Fresh, encode_scalar(c as u32)) == State::Fresh,
{
    let v = c as u32;
    let none = Seq::<u8>::empty();
    lemma_bytes_of_three(v);
    char_u32_cast(c, v);
    let b0 = leading_byte_width_3(v);
    let b1 = second_last_continuation_byte(v);
    let b2 = last_continuation_byte(v);
    assert(encode_scalar(v) == none.push(b0).push(b1).push(b2));
    lemma_run_push(State::Fresh, none, b0);
    lemma_run_push(State::Fresh, none.push(b0), b1);
    lemma_run_push(State::Fresh, none.push(b0).push(b1), b2);
    let s1 = State::Fresh.next(b0);
    assert(s1 == State::TwoLeft((b0 % 16) as u32, Utf8ByteType::Triple));
    assert(State::Fresh.output(b0) == Ok::<Option<char>, Utf8ParserError>(None));
    let s2 = s1.next(b1);
    let bits = appended((b0 % 16) as u32, b1 % 64);
    assert(bits == (b0 % 16) * 64 + b1 % 64);
    assert(s2 == State::OneLeft(bits, Utf8ByteType::Triple));
    assert(s1.output(b1) == Ok::<Option<char>, Utf8ParserError>(None));
    assert(appended(bits, b2 % 64) == v);
    assert(s2.output(b2) == Ok::<Option<char>, Utf8ParserError>(Some(c)));
    assert(s2.next(b2) == State::Fresh);
}

// A character of four bytes.
proof fn lemma_round_trip_of_four(c: char)
    requires
        has_width_4_encoding(c as u32),
    ensures
        run_outputs(State::Fresh, encode_scalar(c as u32)) == outputs_of_scalar(c),
        run_state(State::Fresh, encode_scalar(c as u32)) == State::Fresh,
{
    let v = c as u32;
    let none = Seq::<u8>::empty();
    lemma_bytes_of_four(v);
    char_u32_cast(c, v);
    let b0 = leading_byte_width_4(v);
    let b1 = third_last_continuation_byte(v);
    let b2 = second_last_continuation_byte(v);
    let b3 = last_continuation_byte(v);
    assert(encode_scalar(v) == none.push(b0).push(b1).push(b2).push(b3));
    lemma_run_push(State::Fresh, none, b0);
    lemma_run_push(State::Fresh, none.push(b0), b1);
    lemma_run_push(State::Fresh, none.push(b0).push(b1), b2);
    lemma_run_push(State::Fresh, none.push(b0).push(b1).push(b2), b3);
    let s1 = State::Fresh.next(b0);
    assert(s1 == State::ThreeLeft((b0 % 8) as u32));
    assert(State::Fresh.output(b0) == Ok::<Option<char>, Utf8ParserError>(None));
    let s2 = s1.next(b1);
    let high = appended((b0 % 8) as u32, b1 % 64);
    assert(high == (b0 % 8) * 64 + b1 % 64);
    assert(s2 == State::TwoLeft(high, Utf8ByteType::Quadruple));
    assert(s1.output(b1) == Ok::<Option<char>, Utf8ParserError>(None));
    let s3 = s2.next(b2);
    let bits = appended(high, b2 % 64);
    assert(bits == high * 64 + b2 % 64);
    assert(s3 == State::OneLeft(bits, Utf8ByteType::Quadruple));
    assert(s2.output(b2) == Ok::<Option<char>, Utf8ParserError>(None));
    assert(appended(bits, b3 % 64) == v);
    assert(s3.output(b3) == Ok::<Option<char>, Utf8ParserError>(Some(c)));
    assert(s3.next(b3) == State::Fresh);
}

/// One character survives the round trip: pushing the bytes of its UTF-8
/// encoding into a fresh decoder returns nothing yet for every byte but the
/// last, the character for the last, and leaves the decoder fresh.
pub proof fn lemma_scalar_round_trip(c: char)
    ensures
        run_outputs(State::Fresh, encode_scalar(c as u32)) == outputs_of_scalar(c),
        run_state(State::Fresh, encode_scalar(c as u32)) == State::Fresh,
{
    let v = c as u32;
    char_is_scalar(c);
    if has_width_1_encoding(v) {
        lemma_round_trip_of_one(c);
    } else if has_width_2_encoding(v) {
        lemma_round_trip_of_two(c);
    } else if has_width_3_encoding(v) {
        lemma_round_trip_of_three(c);
    } else {
        lemma_round_trip_of_four(c);
    }
}

// The characters among two runs of outcomes are those of the first, then
// those of the second.
proof fn lemma_characters_concat(first: Seq<Outcome>, second: Seq<Outcome>)
    ensures
        characters(first + second) == characters(first) + characters(second),
    decreases first.len(),
{
    if first.len() == 0 {
        assert(first + second == second);
    } else {
        assert((first + second).drop_first() == first.drop_first() + second);
        lemma_characters_concat(first.drop_first(), second);
    }
}

// The characters among the first `n` outcomes owed for one character: none
// before the last outcome, the character with it.
proof fn lemma_characters_of_scalar(c: char, n: nat)
    requires
        n <= outputs_of_scalar(c).len(),
    ensures
        characters(outputs_of_scalar(c).take(n as int)) == if n == outputs_of_scalar(c).len() {
            seq![c]
        } else {
            Seq::<char>::empty()
        },
    decreases n,
{
    let all = outputs_of_scalar(c);
    char_is_scalar(c);
    if n > 0 {
        let shorter = all.take(n - 1);
        lemma_characters_of_scalar(c, (n - 1) as nat);
        assert(all.take(n as int) == shorter + seq![all[n - 1]]);
        lemma_characters_concat(shorter, seq![all[n - 1]]);
        reveal_with_fuel(characters, 2);
        assert(seq![all[n - 1]].drop_first() == Seq::<Outcome>::empty());
    }
}

/// The outcomes owed for a string hold its characters and no others, hold no
/// rejection, and are as many as the bytes of its encoding.
pub proof fn lemma_outputs_of_string(chars: Seq<char>)
    ensures
        characters(outputs_of_string(chars)) == chars,
        outputs_of_string(chars).len() == encode_utf8(chars).len(),
        forall|i: int|
            0 <= i < outputs_of_string(chars).len() ==> (#[trigger] outputs_of_string(
                chars,
            )[i]) is Ok,
    decreases chars.len(),
{
    if chars.len() > 0 {
        let head = outputs_of_scalar(chars[0]);
        let tail = outputs_of_string(chars.drop_first());
        lemma_outputs_of_string(chars.drop_first());
        lemma_characters_concat(head, tail);
        lemma_characters_of_scalar(chars[0], head.len());
        assert(head.take(head.len() as int) == head);
        assert(seq![chars[0]] + chars.drop_first() == chars);
        assert forall|i: int| 0 <= i < outputs_of_string(chars).len() implies (
        #[trigger] outputs_of_string(chars)[i]) is Ok by {
            if i < head.len() {
                assert(outputs_of_string(chars)[i] == head[i]);
            } else {
                assert(outputs_of_string(chars)[i] == tail[i - head.len()]);
            }
        }
    }
}

/// The round trip: pushing the bytes of the UTF-8 encoding of any string into
/// a fresh decoder returns the characters of the string, in order and each at
/// the last byte of its encoding, returns nothing yet at every other byte,
/// rejects no byte, and leaves the decoder fresh.
pub proof fn theorem_round_trip(chars: Seq<char>)
    ensures
        run_outputs(State::Fresh, encode_utf8(chars)) == outputs_of_string(chars),
        characters(run_outputs(State::Fresh, encode_utf8(chars))) == chars,
        run_state(State::Fresh, encode_utf8(chars)) == State::Fresh,
    decreases chars.len(),
{
    if chars.len() > 0 {
        let head = encode_scalar(chars[0] as u32);
        let tail = encode_utf8(chars.drop_first());
        lemma_scalar_round_trip(chars[0]);
        theorem_round_trip(chars.drop_first());
        lemma_run_concat(State::Fresh, head, tail);
    }
    lemma_outputs_of_string(chars);
}

} // verus!
