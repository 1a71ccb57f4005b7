//! The failures a decode can report.

use vstd::prelude::*;
use crate::codes::{GpType, MessageType};

verus! {

/// Why a buffer could not be decoded.
#[derive(Clone, Copy, Debug, PartialEq, Eq, Structural)]
pub enum DecodeError {
    /// The buffer ends before a field that the layout calls for.
    TruncatedInput,
    /// A byte that must name a member of a closed set names none of them.
    UnknownTag(u8),
    /// A value tag that is recognised but whose encoding is not implemented.
    UnsupportedValueType(GpType),
    /// A fragment reaches beyond the total length declared for its message.
    FragmentOutOfBounds,
    /// A command's declared size disagrees with the bytes that are there.
    SizeMismatch,
    /// The inner envelope does not open with a recognised marker and
    /// message type; the byte is the one that was not recognised.
    UnknownMessageType(u8),
    /// A message type that is recognised but whose body has no decoding.
    UnsupportedMessageType(MessageType),
    /// The bytes of a text field are not UTF-8.
    InvalidText,
    /// Values are nested more deeply than the decoder follows.
    NestingTooDeep,
}

} // verus!
