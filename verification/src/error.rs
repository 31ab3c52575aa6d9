//! What can go wrong while decoding and encoding.

use vstd::prelude::*;

verus! {

/// Why bytes were refused.
#[derive(Clone, Copy, Debug, PartialEq, Eq)]
pub enum DecodeError {
    /// The first byte of a frame names no frame type.
    UnknownFrameType,
    /// The byte behind the payload is not the frame end marker.
    MissingFrameEnd,
    /// A whole frame arrived whose type is not handled here.
    UnexpectedFrameType,
    /// The payload of a method frame is not the encoding of a method.
    MalformedMethod,
}

/// Why a value could not be put on the wire.
#[derive(Clone, Copy, Debug, PartialEq, Eq)]
pub enum EncodeError {
    /// A field is longer than its length prefix can say, or the method
    /// claims the identifiers of another one.
    Unencodable,
    /// The payload is longer than a frame's 32-bit size can say.
    FrameTooLarge,
    /// The send buffer cannot take the bytes.
    BufferExhausted,
}

} // verus!
