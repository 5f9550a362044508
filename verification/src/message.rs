//! What a device reports when an update fails.

use vstd::prelude::*;

verus! {

/// Errors of the update component.
#[derive(Debug, Clone, Copy, PartialEq, Eq, Structural)]
pub enum MessageError {
    /// A message has the wrong size.
    InvalidSize,
    /// A message did not come through, or came through damaged.
    Transport,
    /// The image, or the description of it, does not hold together.
    FailedHBFValidation,
    /// Flash could not be read or written.
    FlashError,
    /// There is no room for the component.
    NotEnoughSpace,
    /// The base component of a delta is not installed.
    DeltaBaseNotFound,
    /// The installed base component is not the one that the delta was made for.
    DeltaBaseCrcMismatch,
    /// The reconstructed image is not the one that the delta was made for.
    DeltaReconstructMismatch,
}

} // verus!
