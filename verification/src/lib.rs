//! A codec for a compact binary form of XML-shaped documents.
//!
//! A document is an element with attributes, text and elements inside it.
//! Its binary form holds the structure and the values apart: a node section
//! with the types and names of the nodes, and a data section with their
//! values, in which values of one byte, of two bytes and of four bytes or
//! more are laid out so that each stands where values of its size stand.

use vstd::prelude::*;

pub mod byte_buffer;
pub mod byte_order;
pub mod element;
pub mod encoding_type;
pub mod error;
pub mod hex;
pub mod lane_laws;
pub mod lanes;
pub mod node;
pub mod node_types;
pub mod options;
pub mod plain;
pub mod reader;
pub mod round_trip;
pub mod sixbit;
pub mod strings;
pub mod structure;
pub mod text;
pub mod tokens;
pub mod tree;
pub mod value;
pub mod writer;

pub use crate::element::Element;
pub use crate::encoding_type::EncodingType;
pub use crate::error::KbinError;
pub use crate::lanes::{FloatBits, FloatText};
pub use crate::node::{Node, NodeCollection};
pub use crate::value::{Lane, Value};
pub use crate::node_types::{KbinType, StandardType};
pub use crate::options::{Compression, Options};
pub use crate::writer::Writer;

verus! {

/// First byte of every binary document.
pub const SIGNATURE: u8 = 0xA0;

/// Second byte of a document whose node names are packed six bits per character.
pub const SIG_COMPRESSED: u8 = 0x42;

/// Second byte of a document whose node names are stored as encoded strings.
pub const SIG_UNCOMPRESSED: u8 = 0x45;

/// Whether a byte sequence starts like a binary document: with the signature
/// and one of the two bytes that say how names are stored, and at least one
/// byte more.
pub open spec fn spec_is_binary_xml(input: Seq<u8>) -> bool {
    &&& input.len() > 2
    &&& input[0] == SIGNATURE
    &&& (input[1] == SIG_COMPRESSED || input[1] == SIG_UNCOMPRESSED)
}

/// Tells a binary document from other input by its first two bytes.
pub fn is_binary_xml(input: &[u8]) -> (r: bool)
    ensures
        r == spec_is_binary_xml(input@),
{
    input.len() > 2 && input[0] == SIGNATURE && (input[1] == SIG_COMPRESSED || input[1]
        == SIG_UNCOMPRESSED)
}

/// Reads the element that a binary document holds, and says in which encoding the document is.
///
/// The element is the one that the document prescribes; the text of a
/// floating-point value is made of the texts that `floats` gives for its lanes.
pub fn from_binary<F: FloatText>(input: &[u8], floats: &F) -> (r: Result<
    (Element, EncodingType),
    KbinError,
>)
    ensures
        match crate::tree::spec_decode(input@) {
            Ok((sketch, encoding)) => r matches Ok((element, found)) && found == encoding
                && crate::tree::drawn(sketch, element@, floats),
            Err(e) => r matches Err(err) && err == e,
        },
{
    let mut reader = match crate::reader::Reader::new(input) {
        Ok(reader) => reader,
        Err(e) => {
            return Err(e);
        },
    };
    let encoding = reader.encoding();
    match crate::tree::read_tree(&mut reader, floats) {
        Ok(element) => Ok((element, encoding)),
        Err(e) => Err(e),
    }
}

/// Reads the node that a binary document holds, with its attributes and the
/// nodes inside it, and says in which encoding the document is.
///
/// The values are the bytes of the data section: nothing is made text.
pub fn node_collection_from_binary(input: &[u8]) -> (r: Result<
    (NodeCollection, EncodingType),
    KbinError,
>)
    ensures
        match crate::node::spec_collect(input@) {
            Ok((node, encoding)) => r matches Ok((found, e)) && e == encoding && found@ == node,
            Err(e) => r matches Err(err) && err == e,
        },
{
    let mut reader = match crate::reader::Reader::new(input) {
        Ok(reader) => reader,
        Err(e) => {
            return Err(e);
        },
    };
    let encoding = reader.encoding();
    match crate::node::collect(&mut reader) {
        Ok(node) => Ok((node, encoding)),
        Err(e) => Err(e),
    }
}

/// Reads the node that a binary document holds, with its value, its
/// attributes and the nodes inside it, and says in which encoding the document is.
pub fn node_from_binary(input: &[u8]) -> (r: Result<(Node, EncodingType), KbinError>)
    ensures
        match crate::node::spec_collect(input@) {
            Ok((collected, encoding)) => match crate::node::node_of(collected, encoding) {
                Ok(node) => r matches Ok((found, e)) && e == encoding && found@ == node,
                Err(e) => r matches Err(err) && err == e,
            },
            Err(e) => r matches Err(err) && err == e,
        },
{
    match node_collection_from_binary(input) {
        Ok((collection, encoding)) => match collection.as_node(encoding) {
            Ok(node) => Ok((node, encoding)),
            Err(e) => Err(e),
        },
        Err(e) => Err(e),
    }
}

/// Writes the binary document that holds `input`, in Shift JIS and with packed names.
///
/// Where the element holds floating-point values, their lanes hold the
/// numbers that `floats` gives for their words and the precision of their
/// type; a word for which it gives none is a reason to write no document.
pub fn to_binary<F: FloatText>(input: &Element, floats: &F) -> (r:
    Result<Vec<u8>, KbinError>)
    ensures
        !crate::writer::uses_floats(input@) ==> crate::lanes::bytes_result(r)
            == crate::writer::spec_encode(input@, Options::spec_default()),
        r matches Ok(bytes) ==> crate::writer::written(bytes@, input@, Options::spec_default()),
        r matches Ok(bytes) ==> crate::writer::holds_element(
            bytes@,
            input@,
            Options::spec_default(),
            floats,
        ),
        r matches Err(e) ==> crate::writer::refuses_element(
            input@,
            Options::spec_default(),
            floats,
            e,
        ),
{
    let writer = Writer::new();
    writer.to_binary(input, floats)
}

/// Writes the binary document that holds `input`, as `options` say.
///
/// Where the element holds floating-point values, their lanes hold the
/// numbers that `floats` gives for their words and the precision of their
/// type; a word for which it gives none is a reason to write no document.
pub fn to_binary_with_options<F: FloatText>(
    options: Options,
    input: &Element,
    floats: &F,
) -> (r: Result<Vec<u8>, KbinError>)
    ensures
        !crate::writer::uses_floats(input@) ==> crate::lanes::bytes_result(r)
            == crate::writer::spec_encode(input@, options),
        r matches Ok(bytes) ==> crate::writer::written(bytes@, input@, options),
        r matches Ok(bytes) ==> crate::writer::holds_element(bytes@, input@, options, floats),
        r matches Err(e) ==> crate::writer::refuses_element(input@, options, floats, e),
{
    let writer = Writer::with_options(options);
    writer.to_binary(input, floats)
}

/// A document that was written starts as its options prescribe.
pub proof fn lemma_written_is_framed(bytes: Seq<u8>, t: crate::element::Tree, options: Options)
    requires
        crate::writer::written(bytes, t, options),
    ensures
        crate::writer::framed(bytes, options),
{
}

/// The two lengths in a document that was written say where its sections
/// are: the node section of the element stands behind the first length, the
/// data section behind the second, and nothing follows it. Both lengths are
/// multiples of four.
pub proof fn lemma_written_sections(bytes: Seq<u8>, t: crate::element::Tree, options: Options)
    requires
        crate::writer::written(bytes, t, options),
    ensures
        ({
            let n = crate::byte_order::be_value(bytes.subrange(4, 8)) as int;
            let d = crate::byte_order::be_value(bytes.subrange(8 + n, 12 + n));
            &&& bytes.len() == 12 + n + d
            &&& n % 4 == 0
            &&& d % 4 == 0
            &&& bytes.subrange(8, 8 + n) == crate::writer::node_section(t, options)
        }),
{
    let n = crate::writer::node_section(t, options).len();
    let d = (bytes.len() - 12 - n) as nat;
    crate::byte_order::lemma_pow256_values();
    crate::byte_order::lemma_be_value_of_bytes(n, 4);
    crate::byte_order::lemma_be_value_of_bytes(d, 4);
}

/// A document that was written is recognised as one, and the two encoding
/// bytes of its header are each other's complement.
pub proof fn lemma_framed_is_binary_xml(bytes: Seq<u8>, options: Options)
    requires
        crate::writer::framed(bytes, options),
    ensures
        spec_is_binary_xml(bytes),
        bytes[2] ^ bytes[3] == 0xFF,
{
    let a = bytes[2];
    let b = bytes[3];
    assert(a ^ b == 0xFF) by (bit_vector)
        requires
            b == a ^ 0xFF,
    ;
}

} // verus!
