//! The ways in which decoding or editing a tag can fail.

use vstd::prelude::*;

verus! {

/// Why a tag could not be decoded or edited.
#[derive(Debug, Clone, Copy, PartialEq, Eq)]
pub enum Error {
    /// The buffer is shorter than a header or does not begin with `ID3`.
    NotAnId3Tag,
    /// The buffer ends before a structure that it announces is complete: the
    /// extended header, a frame header, or a frame's body.
    TruncatedFrame,
    /// A frame carries an identifier that this codec does not decode.
    UnknownFrame([u8; 4]),
    /// A picture payload ends before one of its terminated fields does.
    MalformedPictureField,
    /// The frame found under the target identifier is of the other kind.
    FrameKindMismatch,
    /// The body would be longer than a synchsafe size field can state.
    TagTooLarge,
}

} // verus!
