//! Agreement of the decoder with the definition of UTF-8: it takes a byte
//! sequence without complaint exactly when the sequence is valid UTF-8, and
//! then returns the characters that the sequence encodes.

use vstd::prelude::*;
use crate::byte::Utf8ByteType;
use crate::parser::{appended, State};
use crate::round_trip::{lemma_outputs_of_string, theorem_round_trip};
use crate::stream::{
    characters, lemma_run_concat, lemma_run_first, lemma_run_is_total, run_outputs, run_state,
};
use vstd::utf8::{
    codepoint_width_1, codepoint_width_2, codepoint_width_3, codepoint_width_4, decode_utf8,
    decode_utf8_encode_utf8, pop_first_scalar, valid_first_scalar, valid_utf8,
};

verus! {

/// Whether a fresh decoder takes `bytes` without complaint: it rejects none
/// of them, and no sequence is left unfinished at the end.
pub open spec fn accepted(bytes: Seq<u8>) -> bool {
    &&& run_state(State::Fresh, bytes) == State::Fresh
    &&& forall|i: int|
        0 <= i < bytes.len() ==> (#[trigger] run_outputs(State::Fresh, bytes)[i]) is Ok
}

/// Valid UTF-8 is taken without complaint, and the characters returned are
/// the ones it encodes.
pub proof fn theorem_valid_is_accepted(bytes: Seq<u8>)
    requires
        valid_utf8(bytes),
    ensures
        accepted(bytes),
        characters(run_outputs(State::Fresh, bytes)) == decode_utf8(bytes),
{
    let chars = decode_utf8(bytes);
    decode_utf8_encode_utf8(bytes);
    theorem_round_trip(chars);
    lemma_outputs_of_string(chars);
}

// The code point that the definition of UTF-8 reads from one byte.
proof fn lemma_codepoint_of_one(b0: u8)
    by (bit_vector)
    requires
        b0 <= 0x7F,
    ensures
        codepoint_width_1(b0) == b0,
{
}

// The code point that the definition of UTF-8 reads from two bytes is the
// one that the payloads spell.
proof fn lemma_codepoint_of_two(b0: u8, b1: u8)
    by (bit_vector)
    requires
        0xC0 <= b0 <= 0xDF,
        0x80 <= b1 <= 0xBF,
    ensures
        codepoint_width_2(b0, b1) == (b0 % 32) * 64 + b1 % 64,
{
}

// The code point that the definition of UTF-8 reads from three bytes.
proof fn lemma_codepoint_of_three(b0: u8, b1: u8, b2: u8)
    by (bit_vector)
    requires
        0xE0 <= b0 <= 0xEF,
        0x80 <= b1 <= 0xBF,
        0x80 <= b2 <= 0xBF,
    ensures
        codepoint_width_3(b0, b1, b2) == ((b0 % 16) * 64 + b1 % 64) * 64 + b2 % 64,
{
}

// The code point that the definition of UTF-8 reads from four bytes.
proof fn lemma_codepoint_of_four(b0: u8, b1: u8, b2: u8, b3: u8)
    by (bit_vector)
    requires
        0xF0 <= b0 <= 0xF7,
        0x80 <= b1 <= 0xBF,
        0x80 <= b2 <= 0xBF,
        0x80 <= b3 <= 0xBF,
    ensures
        codepoint_width_4(b0, b1, b2, b3) == (((b0 % 8) * 64 + b1 % 64) * 64 + b2 % 64) * 64 + b3
            % 64,
{
}

// What is left of an accepted run once a fresh decoder is fresh again after
// `k` bytes is accepted too.
proof fn lemma_rest_is_accepted(bytes: Seq<u8>, k: int)
    requires
        0 <= k <= bytes.len(),
        accepted(bytes),
        run_state(State::Fresh, bytes.take(k)) == State::Fresh,
    ensures
        accepted(bytes.skip(k)),
{
    let head = bytes.take(k);
    let rest = bytes.skip(k);
    assert(bytes == head + rest);
    lemma_run_concat(State::Fresh, head, rest);
    lemma_run_is_total(State::Fresh, head);
    lemma_run_is_total(State::Fresh, rest);
    assert forall|i: int| 0 <= i < rest.len() implies (#[trigger] run_outputs(
        State::Fresh,
        rest,
    )[i]) is Ok by {
        assert(run_outputs(State::Fresh, bytes)[k + i] == run_outputs(State::Fresh, rest)[i]);
    }
}

// The number of bytes in a sequence that `start` opens.
spec fn sequence_length(start: u8) -> int {
    if start <= 0x7F {
        1
    } else if start <= 0xDF {
        2
    } else if start <= 0xEF {
        3
    } else {
        4
    }
}

// An accepted run that starts with an ASCII byte starts with a valid scalar.
proof fn lemma_first_of_one(bytes: Seq<u8>)
    requires
        accepted(bytes),
        bytes.len() > 0,
        bytes[0] <= 0x7F,
    ensures
        valid_first_scalar(bytes),
        pop_first_scalar(bytes) == bytes.skip(1),
        run_state(State::Fresh, bytes.take(1)) == State::Fresh,
{
    let b0 = bytes[0];
    lemma_codepoint_of_one(b0);
    assert(bytes.take(1).drop_first() == Seq::<u8>::empty());
    reveal_with_fuel(run_state, 2);
}

// An accepted run that starts with the start byte of a pair starts with a
// valid scalar of two bytes.
proof fn lemma_first_of_two(bytes: Seq<u8>)
    requires
        accepted(bytes),
        bytes.len() > 0,
        0xC0 <= bytes[0] <= 0xDF,
    ensures
        bytes.len() >= 2,
        valid_first_scalar(bytes),
        pop_first_scalar(bytes) == bytes.skip(2),
        run_state(State::Fresh, bytes.take(2)) == State::Fresh,
{
    let b0 = bytes[0];
    let s1 = State::Fresh.next(b0);
    let t1 = bytes.drop_first();
    lemma_run_first(State::Fresh, bytes);
    assert(s1 == State::OneLeft((b0 % 32) as u32, Utf8ByteType::Double));
    if t1.len() == 0 {
        assert(run_state(s1, t1) == s1);
    } else {
        let b1 = bytes[1];
        lemma_run_first(s1, t1);
        assert(t1[0] == b1);
        assert(s1.output(b1) == run_outputs(State::Fresh, bytes)[1]);
        assert(0x80 <= b1 <= 0xBF);
        lemma_codepoint_of_two(b0, b1);
        assert(appended((b0 % 32) as u32, b1 % 64) == (b0 % 32) * 64 + b1 % 64);
        assert(s1.next(b1) == State::Fresh);
        assert(bytes.take(2).drop_first() == seq![b1]);
        assert(bytes.take(2).drop_first().drop_first() == Seq::<u8>::empty());
        reveal_with_fuel(run_state, 3);
    }
}

// An accepted run that starts with the start byte of a triple starts with a
// valid scalar of three bytes.
proof fn lemma_first_of_three(bytes: Seq<u8>)
    requires
        accepted(bytes),
        bytes.len() > 0,
        0xE0 <= bytes[0] <= 0xEF,
    ensures
        bytes.len() >= 3,
        valid_first_scalar(bytes),
        pop_first_scalar(bytes) == bytes.skip(3),
        run_state(State::Fresh, bytes.take(3)) == State::Fresh,
{
    let b0 = bytes[0];
    let s1 = State::Fresh.next(b0);
    let t1 = bytes.drop_first();
    lemma_run_first(State::Fresh, bytes);
    assert(s1 == State::TwoLeft((b0 % 16) as u32, Utf8ByteType::Triple));
    if t1.len() == 0 {
        assert(run_state(s1, t1) == s1);
    } else {
        let b1 = bytes[1];
        let s2 = s1.next(b1);
        lemma_run_first(s1, t1);
        assert(t1[0] == b1);
        assert(s1.output(b1) == run_outputs(State::Fresh, bytes)[1]);
        assert(0x80 <= b1 <= 0xBF);
        let high = appended((b0 % 16) as u32, b1 % 64);
        assert(high == (b0 % 16) * 64 + b1 % 64);
        assert(s2 == State::OneLeft(high, Utf8ByteType::Triple));
        let t2 = t1.drop_first();
        if t2.len() == 0 {
            assert(run_state(s2, t2) == s2);
        } else {
            let b2 = bytes[2];
            lemma_run_first(s2, t2);
            assert(t2[0] == b2);
            assert(s2.output(b2) == run_outputs(State::Fresh, bytes)[2]) by {
                assert(run_outputs(s2, t2)[0] == run_outputs(s1, t1)[1]);
            }
            assert(0x80 <= b2 <= 0xBF);
            lemma_codepoint_of_three(b0, b1, b2);
            assert(appended(high, b2 % 64) == high * 64 + b2 % 64);
            assert(s2.next(b2) == State::Fresh);
            assert(bytes.take(3).drop_first() == seq![b1, b2]);
            assert(bytes.take(3).drop_first().drop_first() == seq![b2]);
            assert(bytes.take(3).drop_first().drop_first().drop_first() == Seq::<u8>::empty());
            reveal_with_fuel(run_state, 4);
        }
    }
}

// An accepted run that starts with the start byte of a quadruple starts with
// a valid scalar of four bytes.
proof fn lemma_first_of_four(bytes: Seq<u8>)
    requires
        accepted(bytes),
        bytes.len() > 0,
        0xF0 <= bytes[0] <= 0xF7,
    ensures
        bytes.len() >= 4,
        valid_first_scalar(bytes),
        pop_first_scalar(bytes) == bytes.skip(4),
        run_state(State::Fresh, bytes.take(4)) == State::Fresh,
{
    let b0 = bytes[0];
    let s1 = State::Fresh.next(b0);
    let t1 = bytes.drop_first();
    lemma_run_first(State::Fresh, bytes);
    assert(s1 == State::ThreeLeft((b0 % 8) as u32));
    if t1.len() == 0 {
        assert(run_state(s1, t1) == s1);
    } else {
        let b1 = bytes[1];
        let s2 = s1.next(b1);
        lemma_run_first(s1, t1);
        assert(t1[0] == b1);
        assert(s1.output(b1) == run_outputs(State::Fresh, bytes)[1]);
        assert(0x80 <= b1 <= 0xBF);
        let high = appended((b0 % 8) as u32, b1 % 64);
        assert(high == (b0 % 8) * 64 + b1 % 64);
        assert(s2 == State::TwoLeft(high, Utf8ByteType::Quadruple));
        let t2 = t1.drop_first();
        if t2.len() == 0 {
            assert(run_state(s2, t2) == s2);
        } else {
            let b2 = bytes[2];
            let s3 = s2.next(b2);
            lemma_run_first(s2, t2);
            assert(t2[0] == b2);
            assert(s2.output(b2) == run_outputs(State::Fresh, bytes)[2]) by {
                assert(run_outputs(s2, t2)[0] == run_outputs(s1, t1)[1]);
            }
            assert(0x80 <= b2 <= 0xBF);
            let bits = appended(high, b2 % 64);
            assert(bits == high * 64 + b2 % 64);
            assert(s3 == State::OneLeft(bits, Utf8ByteType::Quadruple));
            let t3 = t2.drop_first();
            if t3.len() == 0 {
                assert(run_state(s3, t3) == s3);
            } else {
                let b3 = bytes[3];
                lemma_run_first(s3, t3);
                assert(t3[0] == b3);
                assert(s3.output(b3) == run_outputs(State::Fresh, bytes)[3]) by {
                    assert(run_outputs(s3, t3)[0] == run_outputs(s2, t2)[1]);
                    assert(run_outputs(s2, t2)[1] == run_outputs(s1, t1)[2]);
                }
                assert(0x80 <= b3 <= 0xBF);
                lemma_codepoint_of_four(b0, b1, b2, b3);
                assert(appended(bits, b3 % 64) == bits * 64 + b3 % 64);
                assert(s3.next(b3) == State::Fresh);
                assert(bytes.take(4).drop_first() == seq![b1, b2, b3]);
                assert(bytes.take(4).drop_first().drop_first() == seq![b2, b3]);
                assert(bytes.take(4).drop_first().drop_first().drop_first() == seq![b3]);
                assert(bytes.take(4).drop_first().drop_first().drop_first().drop_first()
                    == Seq::<u8>::empty());
                reveal_with_fuel(run_state, 5);
            }
        }
    }
}

/// What is taken without complaint is valid UTF-8.
pub proof fn theorem_accepted_is_valid(bytes: Seq<u8>)
    requires
        accepted(bytes),
    ensures
        valid_utf8(bytes),
    decreases bytes.len(),
{
    if bytes.len() > 0 {
        let b0 = bytes[0];
        let k = sequence_length(b0);
        lemma_run_first(State::Fresh, bytes);
        assert(State::Fresh.output(b0) is Ok);
        if b0 <= 0x7F {
            lemma_first_of_one(bytes);
        } else if b0 <= 0xDF {
            lemma_first_of_two(bytes);
        } else if b0 <= 0xEF {
            lemma_first_of_three(bytes);
        } else {
            lemma_first_of_four(bytes);
        }
        lemma_rest_is_accepted(bytes, k);
        theorem_accepted_is_valid(bytes.skip(k));
    }
}

/// The decoder takes exactly the valid UTF-8 without complaint.
pub proof fn theorem_accepts_exactly_utf8(bytes: Seq<u8>)
    ensures
        accepted(bytes) <==> valid_utf8(bytes),
        valid_utf8(bytes) ==> characters(run_outputs(State::Fresh, bytes)) == decode_utf8(bytes),
{
    if accepted(bytes) {
        theorem_accepted_is_valid(bytes);
    }
    if valid_utf8(bytes) {
        theorem_valid_is_accepted(bytes);
    }
}

} // verus!
