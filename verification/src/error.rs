//! What can go wrong while a record is decoded or a span is built.

use vstd::prelude::*;

verus! {

/// Why a decode call gave up. Every failure ends the call: nothing is
/// retried, and no partial result is handed out.
#[derive(Debug, Clone, Copy, PartialEq, Eq, Structural)]
pub enum DecodeError {
    /// The head-index byte is not below the width of the word.
    InvalidHeadIndex,
    /// The stream ends before a field, or before the words that a count
    /// announced, are complete.
    TruncatedStream,
    /// Head index and bit length together reach past the decoded words.
    InvalidData,
    /// The tag does not name the bit ordering that the caller decodes for.
    MalformedTag,
}

/// A head index that is not below the width of its register.
#[derive(Debug, Clone, Copy, PartialEq, Eq, Structural)]
pub struct BitIdxError {
    /// The rejected value.
    pub value: u8,
}

/// Why a span could not be laid over a buffer.
#[derive(Debug, Clone, Copy, PartialEq, Eq, Structural)]
pub enum BitSpanError {
    /// Head index and bit length together reach past the end of the buffer.
    TooLong,
}

} // verus!
