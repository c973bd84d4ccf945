use crate::encoding_type::EncodingType;
use crate::error::KbinError;
use vstd::prelude::*;

verus! {

/// How the names of the nodes are stored.
#[derive(Clone, Copy, Debug, PartialEq, Eq, Hash)]
pub enum Compression {
    /// Packed, six bits to a character.
    Compressed,
    /// As strings in the document's encoding, behind their length.
    Uncompressed,
}

impl Compression {
    /// The second byte of the header of a document that stores its names this way.
    pub open spec fn spec_to_byte(self) -> u8 {
        match self {
            Compression::Compressed => 0x42,
            Compression::Uncompressed => 0x45,
        }
    }

    /// The way of storing names that the header byte `byte` stands for, if it stands for one.
    pub open spec fn spec_from_byte(byte: u8) -> Result<Compression, KbinError> {
        match byte {
            0x42 => Ok(Compression::Compressed),
            0x45 => Ok(Compression::Uncompressed),
            _ => Err(KbinError::HeaderValue { field: "compression" }),
        }
    }

    /// The second byte of the header of a document that stores its names this way.
    pub fn to_byte(&self) -> (r: u8)
        ensures
            r == self.spec_to_byte(),
    {
        match self {
            Compression::Compressed => 0x42,
            Compression::Uncompressed => 0x45,
        }
    }

    /// The way of storing names that the header byte `byte` stands for.
    pub fn from_byte(byte: u8) -> (r: Result<Compression, KbinError>)
        ensures
            r == Self::spec_from_byte(byte),
    {
        match byte {
            0x42 => Ok(Compression::Compressed),
            0x45 => Ok(Compression::Uncompressed),
            _ => Err(KbinError::HeaderValue { field: "compression" }),
        }
    }
}

/// What a writer may be told: the encoding of the text and the way of storing names.
#[derive(Clone, Copy, Debug, PartialEq, Eq, Hash)]
pub struct Options {
    /// The encoding in which strings are written.
    pub encoding: EncodingType,
    /// How the names of the nodes are stored.
    pub compression: Compression,
}

impl Options {
    /// The options of a writer that is told nothing: Shift JIS, packed names.
    pub open spec fn spec_default() -> Options {
        Options { encoding: EncodingType::ShiftJis, compression: Compression::Compressed }
    }

    /// The options of a writer that is told nothing: Shift JIS, packed names.
    pub fn new() -> (r: Options)
        ensures
            r == Self::spec_default(),
    {
        Options { encoding: EncodingType::ShiftJis, compression: Compression::Compressed }
    }

    /// These options with another encoding.
    pub fn with_encoding(self, encoding: EncodingType) -> (r: Options)
        ensures
            r == (Options { encoding, compression: self.compression }),
    {
        Options { encoding, compression: self.compression }
    }

    /// These options with another way of storing names.
    pub fn with_compression(self, compression: Compression) -> (r: Options)
        ensures
            r == (Options { encoding: self.encoding, compression }),
    {
        Options { encoding: self.encoding, compression }
    }
}

} // verus!
