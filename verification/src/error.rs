use vstd::prelude::*;

verus! {

/// Everything that can go wrong while reading or writing a binary document.
///
/// All failures of the codec, whatever layer they come from, surface as one
/// value of this type; no partial result accompanies it.
#[derive(Clone, Debug, PartialEq, Eq)]
pub enum KbinError {
    /// A header byte does not hold the value the format prescribes.
    HeaderValue { field: &'static str },
    /// Fewer than `size` bytes are left where `size` bytes were to be read.
    DataRead { size: usize },
    /// A payload is too long for its 32-bit length prefix.
    DataWrite { node_type: &'static str },
    /// A size does not agree with the footprint of the type it belongs to.
    SizeMismatch { node_type: &'static str, expected: usize, actual: usize },
    /// A token is not a decimal integer in the range of the type.
    StringParseInt { node_type: &'static str },
    /// A token is not a floating-point number.
    StringParseFloat { node_type: &'static str },
    /// The text of a binary node is not hexadecimal.
    HexError,
    /// A marker other than the expected one was read; both are given by id.
    TypeMismatch { expected: u8, found: u8 },
    /// A boolean lane holds something other than 0 or 1.
    InvalidBooleanInput { input: u8 },
    /// The type id is unknown, or the type cannot be used for the operation.
    InvalidNodeType { node_type: u8 },
    /// The operation makes no sense in the state the codec is in.
    InvalidState,
    /// The encoding byte of the header names no text encoding.
    UnknownEncodingTag { tag: u8 },
    /// The bytes are not text in the document's encoding.
    Decode,
    /// The text cannot be written in the document's encoding.
    Encode,
    /// The character cannot be part of a packed name.
    SixbitUnknownChar { character: char },
    /// A name has more characters than its one-byte length can hold.
    SixbitLength { length: usize },
}

} // verus!
