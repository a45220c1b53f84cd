//! The reasons for which a pushed byte is rejected.

use vstd::prelude::*;

verus! {

/// Why a byte could not be accepted. Exactly one of these applies to any
/// rejected byte, given the state the decoder was in.
#[derive(Copy, Clone, PartialEq, Eq, Structural, Debug)]
pub enum Utf8ParserError {
    /// The byte has five or more leading one bits, so it occurs nowhere in
    /// UTF-8. Carries that byte.
    InvalidByte(u8),
    /// The sequence was well formed and of minimal length, but the number it
    /// encodes is a surrogate or lies above U+10FFFF. Carries that number.
    InvalidChar(u32),
    /// A byte that opens a sequence (or an ASCII byte) arrived while
    /// continuation bytes were still owed. Carries that byte.
    UnexpectedStartByte(u8),
    /// A continuation byte arrived with no sequence in progress. Carries that
    /// byte.
    UnexpectedContinuationByte(u8),
    /// The sequence spends more bytes than the number it encodes needs.
    OverlongEncoding,
}

} // verus!
