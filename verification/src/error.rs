//! Errors of the opcode decoder.

use vstd::prelude::*;

verus! {

/// Errors produced by the opcode decoder.
#[derive(Debug, Clone, Copy, PartialEq, Eq, Structural)]
pub enum DecodeError {
    /// The opcode tag byte is not a recognised opcode.
    UnknownOpcode(u8),
    /// The supplied buffer is too short to contain a complete opcode header.
    /// The caller should accumulate more bytes and retry.
    BufferTooShort,
    /// A COPY instruction references a source region that exceeds the declared base size.
    CopyOutOfBounds,
    /// The cumulative output length of all opcodes exceeds the declared target size.
    OutputOverflow,
    /// All declared payload bytes were consumed without encountering an END opcode.
    MissingEnd,
    /// An END opcode was encountered before all declared payload bytes were consumed.
    PrematureEnd,
    /// An opcode's header (and, for ADD, its declared data) would push the consumed byte
    /// count past the declared payload size.
    OverlongStream,
    /// `advance_add` was called with a length that does not match the pending `Add` action,
    /// or with no `Add` pending.
    AddLengthMismatch,
    /// `next_action` was called while the literal data of a preceding `Add` action had not
    /// yet been consumed via `advance_add`.
    PendingAddData,
}

} // verus!
