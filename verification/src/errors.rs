//! Error kinds surfaced by the codec.

use vstd::prelude::*;

verus! {

/// A decoding failure.
///
/// "Need more bytes" is not an error: the frame decoder reports it as
/// `Ok(None)` and leaves the input untouched.
#[derive(Clone, Copy, Debug, PartialEq, Eq, Structural)]
pub enum DecodeError {
    /// The final octet of a fully sized frame is not the `0xCE` sentinel.
    InvalidFrameEnd,
    /// The frame type byte is outside {1, 2, 3, 4, 8}.
    InvalidFrameTypeByte(u8),
    /// A method payload carries a (class id, method id) pair with no schema.
    UnknownClassIdOrMethodId(u16, u16),
    /// A field-table value tag byte outside the recognized set.
    InvalidFieldArgumentTypeByte(u8),
    /// A string field's bytes are not valid UTF-8.
    InvalidUtf8,
    /// A length prefix implies more bytes than the payload contains.
    PayloadTruncated,
    /// The reserved byte-array field tag: recognized but with no defined
    /// wire layout, so it is refused rather than guessed at.
    UnsupportedFieldType(u8),
    /// A boolean field's value byte is neither 0 nor 1.  The wire format
    /// defines only those two encodings, so anything else is corruption.
    InvalidBooleanByte(u8),
    /// A content header whose fixed part breaks the strict rules: a nonzero
    /// weight word, a flags word whose three low bits are not exactly the
    /// end-of-list bit, or bytes left over after the announced properties.
    InvalidContentHeader,
}

/// An encoding failure.  Encoders never write a half-finished value: on
/// failure the destination buffer is left as it was.
#[derive(Clone, Copy, Debug, PartialEq, Eq, Structural)]
pub enum EncodeError {
    /// The value holds a byte-array field, whose wire layout is undefined.
    UnsupportedFieldType,
    /// A length does not fit its prefix: a short string longer than 255
    /// bytes, a table body or payload longer than a u32 can express.
    TooLong,
}

} // verus!
