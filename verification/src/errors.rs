//! Error taxonomy of the codec.
//!
//! `SchemaError` is raised while building a type descriptor or schema and
//! is fatal to registration; `EncodingError` marks a caller-side shape
//! mismatch; `DecodingError` marks malformed wire data and is always
//! recoverable; `DispatchError` is the multiplexer's failure to route raw
//! bytes to any registered schema.

use vstd::prelude::*;

verus! {

/// A malformed type descriptor, detected when a descriptor is constructed.
#[derive(Clone, Copy, Debug, PartialEq, Eq, Structural)]
pub enum SchemaError {
    /// An integer bit width that is zero, above 256, or not a multiple of 8.
    IllegalBitWidth,
    /// A fixed byte-array length outside 1..=32.
    IllegalByteLength,
    /// A fixed array length of zero.
    IllegalArrayLength,
}

/// A value tree handed to the encoder that cannot be serialised.
#[derive(Clone, Copy, Debug, PartialEq, Eq, Structural)]
pub enum EncodingError {
    /// The value's runtime shape does not match its type descriptor.
    ShapeMismatch,
    /// The encoded form would not fit in a single addressable byte buffer.
    TooLong,
}

/// Malformed wire data; decoding never panics, it returns one of these.
#[derive(Clone, Copy, Debug, PartialEq, Eq, Structural)]
pub enum DecodingError {
    /// The buffer ends before a head word or inline value that must be read.
    TooShort,
    /// A tail offset word points outside the buffer.
    OffsetOutOfRange,
    /// A length prefix promises more content than the buffer holds.
    LengthOutOfRange,
    /// A decoded value tree did not have the shape its schema promises.
    ShapeMismatch,
}

/// Failure to route raw call data or a raw log to a registered schema.
#[derive(Clone, Copy, Debug, PartialEq, Eq, Structural)]
pub enum DispatchError {
    /// No registered schema matched, or every candidate failed to decode.
    NoMatchingSchema,
    /// A schema matched the selector but its field decode failed.
    Decoding(DecodingError),
}

} // verus!
