//! The decoder over whole byte sequences: what a run of pushes returns, and
//! what holds of every push and of every run.

use vstd::prelude::*;
use crate::error::Utf8ParserError;
use crate::parser::{is_scalar_value, State};

verus! {

/// What one push returns: a character, nothing yet, or a rejection.
pub type Outcome = Result<Option<char>, Utf8ParserError>;

/// The state a decoder is in after `bytes` have been pushed in order,
/// starting in `state`.
pub open spec fn run_state(state: State, bytes: Seq<u8>) -> State
    decreases bytes.len(),
{
    if bytes.len() == 0 {
        state
    } else {
        run_state(state.next(bytes[0]), bytes.drop_first())
    }
}

/// What the pushes of `bytes` return, in order, starting in `state`: one
/// outcome for each byte.
pub open spec fn run_outputs(state: State, bytes: Seq<u8>) -> Seq<Outcome>
    decreases bytes.len(),
{
    if bytes.len() == 0 {
        Seq::empty()
    } else {
        seq![state.output(bytes[0])] + run_outputs(state.next(bytes[0]), bytes.drop_first())
    }
}

/// The characters among `outputs`, in order.
pub open spec fn characters(outputs: Seq<Outcome>) -> Seq<char>
    decreases outputs.len(),
{
    if outputs.len() == 0 {
        Seq::empty()
    } else {
        match outputs[0] {
            Ok(Some(c)) => seq![c] + characters(outputs.drop_first()),
            _ => characters(outputs.drop_first()),
        }
    }
}

/// A push leads from a state that a decoder can be in to another such state.
/// A rejection leads to `Fresh`, and so does a character.
pub proof fn lemma_next_is_well_formed(state: State, byte: u8)
    requires
        state.wf(),
    ensures
        state.next(byte).wf(),
        state.output(byte) is Err ==> state.next(byte) == State::Fresh,
        state.output(byte) matches Ok(Some(_)) ==> state.next(byte) == State::Fresh,
{
}

/// An ASCII byte pushed into a fresh decoder yields the character with the
/// code point of the byte, and the decoder stays fresh.
pub proof fn lemma_ascii_is_emitted(byte: u8)
    requires
        byte <= 0x7F,
    ensures
        State::Fresh.output(byte) == Ok::<Option<char>, Utf8ParserError>(Some(byte as char)),
        (byte as char) as u32 == byte,
        State::Fresh.next(byte) == State::Fresh,
{
}

/// A byte whose five high bits are all ones is rejected as an invalid byte in
/// every state, and leaves the decoder fresh. No other byte is rejected as
/// invalid in any state.
pub proof fn lemma_invalid_byte_is_rejected(state: State, byte: u8)
    ensures
        byte / 8 == 0b11111 <==> byte >= 0xF8,
        byte >= 0xF8 ==> state.output(byte) == Err::<Option<char>, Utf8ParserError>(
            Utf8ParserError::InvalidByte(byte),
        ) && state.next(byte) == State::Fresh,
        byte < 0xF8 ==> !(state.output(byte) matches Err(Utf8ParserError::InvalidByte(_))),
{
}

/// The outcome of a push, row by row. The rows exclude one another and
/// leave no state and byte out, so each outcome, and each rejection among
/// them, comes on the inputs of its rows and on no others.
pub proof fn lemma_outcome_of_each_push(state: State, byte: u8)
    ensures
        byte >= 0xF8 ==> state.output(byte) == Err::<Option<char>, Utf8ParserError>(
            Utf8ParserError::InvalidByte(byte),
        ),
        state == State::Fresh && byte <= 0x7F ==> state.output(byte) == Ok::<
            Option<char>,
            Utf8ParserError,
        >(Some(byte as char)),
        state == State::Fresh && 0x80 <= byte <= 0xBF ==> state.output(byte) == Err::<
            Option<char>,
            Utf8ParserError,
        >(Utf8ParserError::UnexpectedContinuationByte(byte)),
        state == State::Fresh && 0xC0 <= byte <= 0xF7 ==> state.output(byte) == Ok::<
            Option<char>,
            Utf8ParserError,
        >(None),
        state != State::Fresh && (byte <= 0x7F || 0xC0 <= byte <= 0xF7) ==> state.output(byte)
            == Err::<Option<char>, Utf8ParserError>(Utf8ParserError::UnexpectedStartByte(byte)),
        (state is TwoLeft || state is ThreeLeft) && 0x80 <= byte <= 0xBF ==> state.output(byte)
            == Ok::<Option<char>, Utf8ParserError>(None),
        state matches State::OneLeft(bits, first) ==> 0x80 <= byte <= 0xBF ==> ({
            let value = (bits * 64 + (byte - 0x80)) as u32;
            let least = first.spec_first_code_point();
            &&& value < least ==> state.output(byte) == Err::<Option<char>, Utf8ParserError>(
                Utf8ParserError::OverlongEncoding,
            )
            &&& value >= least && !is_scalar_value(value) ==> state.output(byte) == Err::<
                Option<char>,
                Utf8ParserError,
            >(Utf8ParserError::InvalidChar(value))
            &&& value >= least && is_scalar_value(value) ==> state.output(byte) == Ok::<
                Option<char>,
                Utf8ParserError,
            >(Some(value as char))
        }),
{
}

/// A run of at least one byte is the first push, then the run of the rest.
pub proof fn lemma_run_first(state: State, bytes: Seq<u8>)
    requires
        bytes.len() > 0,
    ensures
        run_state(state, bytes) == run_state(state.next(bytes[0]), bytes.drop_first()),
        run_outputs(state, bytes).len() == bytes.len(),
        run_outputs(state, bytes)[0] == state.output(bytes[0]),
        forall|i: int|
            0 <= i < bytes.len() - 1 ==> (#[trigger] run_outputs(
                state.next(bytes[0]),
                bytes.drop_first(),
            )[i]) == run_outputs(state, bytes)[i + 1],
{
    let tail = run_outputs(state.next(bytes[0]), bytes.drop_first());
    lemma_run_is_total(state.next(bytes[0]), bytes.drop_first());
    assert(run_outputs(state, bytes) == seq![state.output(bytes[0])] + tail);
}

/// Pushing one sequence after another is pushing their concatenation.
pub proof fn lemma_run_concat(state: State, first: Seq<u8>, second: Seq<u8>)
    ensures
        run_state(state, first + second) == run_state(run_state(state, first), second),
        run_outputs(state, first + second) == run_outputs(state, first) + run_outputs(
            run_state(state, first),
            second,
        ),
    decreases first.len(),
{
    if first.len() == 0 {
        assert(first + second == second);
    } else {
        let rest = first.drop_first();
        assert((first + second).drop_first() == rest + second);
        lemma_run_concat(state.next(first[0]), rest, second);
    }
}

/// A run extended by one byte is the run, then one more push.
pub proof fn lemma_run_push(state: State, bytes: Seq<u8>, byte: u8)
    ensures
        run_state(state, bytes.push(byte)) == run_state(state, bytes).next(byte),
        run_outputs(state, bytes.push(byte)) == run_outputs(state, bytes).push(
            run_state(state, bytes).output(byte),
        ),
{
    let last = seq![byte];
    let end = run_state(state, bytes);
    assert(bytes.push(byte) == bytes + last);
    lemma_run_concat(state, bytes, last);
    assert(last.drop_first() == Seq::<u8>::empty());
    assert(run_state(end, last) == end.next(byte)) by {
        reveal_with_fuel(run_state, 2);
    }
    assert(run_outputs(end, last) == seq![end.output(byte)]) by {
        reveal_with_fuel(run_outputs, 2);
    }
}

/// Every push has an outcome, whatever was pushed before: a run returns one
/// outcome for each byte, and from a state that a decoder can be in it ends
/// in such a state, in which any further byte can be pushed.
pub proof fn lemma_run_is_total(state: State, bytes: Seq<u8>)
    ensures
        run_outputs(state, bytes).len() == bytes.len(),
        state.wf() ==> run_state(state, bytes).wf(),
    decreases bytes.len(),
{
    if bytes.len() > 0 {
        if state.wf() {
            lemma_next_is_well_formed(state, bytes[0]);
        }
        lemma_run_is_total(state.next(bytes[0]), bytes.drop_first());
    }
}

/// A sequence that is interrupted recovers at once: where a start byte is
/// followed by an ASCII byte, the ASCII byte is rejected as an unexpected
/// start byte, and the same byte pushed again yields its character.
pub proof fn lemma_interrupted_sequence_recovers(start: u8, ascii: u8)
    requires
        0xC0 <= start <= 0xF7,
        ascii <= 0x7F,
    ensures
        run_outputs(State::Fresh, seq![start, ascii, ascii]) == seq![
            Ok::<Option<char>, Utf8ParserError>(None),
            Err::<Option<char>, Utf8ParserError>(Utf8ParserError::UnexpectedStartByte(ascii)),
            Ok::<Option<char>, Utf8ParserError>(Some(ascii as char)),
        ],
        run_state(State::Fresh, seq![start, ascii, ascii]) == State::Fresh,
{
    let none = Seq::<u8>::empty();
    let waiting = State::Fresh.next(start);
    assert(seq![start, ascii, ascii] == none.push(start).push(ascii).push(ascii));
    lemma_run_push(State::Fresh, none, start);
    lemma_run_push(State::Fresh, none.push(start), ascii);
    lemma_run_push(State::Fresh, none.push(start).push(ascii), ascii);
    assert(waiting != State::Fresh);
    assert(waiting.next(ascii) == State::Fresh);
}

/// After a rejection the decoder behaves as a new one: what it returns for
/// the bytes that follow, and the state it ends in, depend on those bytes
/// alone, not on the state before the rejected byte, nor on that byte, nor
/// on anything pushed before it.
pub proof fn theorem_error_isolation(state: State, history: Seq<u8>, rest: Seq<u8>)
    requires
        history.len() > 0,
        run_outputs(state, history).last() is Err,
    ensures
        run_state(state, history) == State::Fresh,
        run_state(state, history + rest) == run_state(State::Fresh, rest),
        run_outputs(state, history + rest) == run_outputs(state, history) + run_outputs(
            State::Fresh,
            rest,
        ),
{
    let before = history.drop_last();
    let byte = history.last();
    assert(history == before.push(byte));
    lemma_run_push(state, before, byte);
    lemma_run_is_total(state, before);
    lemma_run_concat(state, history, rest);
}

} // verus!
