//! The failure kinds shared by the whole library.

use vstd::prelude::*;

verus! {

/// Everything that can go wrong while building, decoding or rewriting a
/// container: one variant per failure kind, so that callers can branch on
/// the kind instead of parsing a message.
#[derive(Debug, Clone, Copy, PartialEq, Eq, Structural)]
pub enum Error {
    /// A type code was not four ASCII-alphabetic bytes (or characters).
    InvalidChunkType,
    /// The byte stream ended before a fixed-size or length-declared field.
    Truncated,
    /// The stored CRC-32 disagrees with the one recomputed over type and payload.
    CrcMismatch,
    /// The whole input is shorter than a signature plus one empty chunk record.
    TooSmall,
    /// The first eight bytes are not the fixed signature.
    SignatureMismatch,
    /// No terminator chunk, a terminator that is not last, or more than one.
    TerminatorMissing,
    /// A chunk of the same type is already present, so an append is refused.
    DuplicateChunkType,
    /// No chunk of the requested type is present.
    NotFound,
    /// A payload was asked for as text but is not valid UTF-8.
    EncodingError,
}

} // verus!
