use crate::byte_buffer::{ByteBufferRead, Cursors};
use crate::byte_order::{be_value, read_be_u32};
use crate::encoding_type::EncodingType;
use crate::error::KbinError;
use crate::node_types::{LaneKind, StandardType};
use crate::options::Compression;
use crate::sixbit::{spec_unpack, unpack};
use crate::strings::copy_range;
use vstd::prelude::*;

verus! {

/// The bit of a type byte that marks an array, and that the end markers carry by convention.
pub const ARRAY_MASK: u8 = 0x40;

/// A document taken apart: what its header says, and its two sections.
pub struct Document {
    /// How the names of the nodes are stored.
    pub compression: Compression,
    /// The encoding of the strings.
    pub encoding: EncodingType,
    /// The node section: the types and names of the nodes.
    pub nodes: Seq<u8>,
    /// The data section: the values of the nodes.
    pub data: Seq<u8>,
}

/// The parts of a document.
///
/// A document starts with four bytes: the signature, the way of storing
/// names, the encoding, and the encoding with all bits turned. Then comes the
/// node section behind its length, and the data section behind its length,
/// both lengths in four bytes, most significant first. What follows the data
/// section does not belong to the document.
pub open spec fn spec_parse_header(input: Seq<u8>) -> Result<Document, KbinError> {
    if input.len() < 8 {
        Err(KbinError::DataRead { size: 8 })
    } else if input[0] != crate::SIGNATURE {
        Err(KbinError::HeaderValue { field: "signature" })
    } else {
        match Compression::spec_from_byte(input[1]) {
            Err(e) => Err(e),
            Ok(compression) => match EncodingType::spec_from_byte(input[2]) {
                Err(e) => Err(e),
                Ok(encoding) => if input[3] != input[2] ^ 0xFF {
                    Err(KbinError::HeaderValue { field: "encoding negation" })
                } else {
                    let len_node = be_value(input.subrange(4, 8));
                    if 8 + len_node + 4 > input.len() {
                        Err(KbinError::DataRead { size: len_node as usize })
                    } else {
                        let len_data = be_value(
                            input.subrange(8 + len_node as int, 12 + len_node as int),
                        );
                        if 12 + len_node + len_data > input.len() {
                            Err(KbinError::DataRead { size: len_data as usize })
                        } else {
                            Ok(
                                Document {
                                    compression,
                                    encoding,
                                    nodes: input.subrange(8, 8 + len_node as int),
                                    data: input.subrange(
                                        12 + len_node as int,
                                        12 + len_node + len_data as int,
                                    ),
                                },
                            )
                        }
                    }
                },
            },
        }
    }
}

/// One entry of the node section together with its value from the data section.
pub struct Record {
    /// The type of the node.
    pub node_type: StandardType,
    /// Whether the type byte carries the array bit.
    pub is_array: bool,
    /// The name of the node; empty for the end markers, which have none.
    pub name: Seq<char>,
    /// The bytes of the value as they stand in the data section; empty where the node has none.
    pub payload: Seq<u8>,
}

/// One entry of the node section together with its value from the data section.
#[derive(Clone, Debug, PartialEq, Eq)]
pub struct NodeDefinition {
    /// The type of the node.
    pub node_type: StandardType,
    /// Whether the type byte carries the array bit.
    pub is_array: bool,
    /// The name of the node; empty for the end markers, which have none.
    pub key: String,
    /// The bytes of the value as they stand in the data section; empty where the node has none.
    pub value: Vec<u8>,
}

impl View for NodeDefinition {
    type V = Record;

    open spec fn view(&self) -> Record {
        Record {
            node_type: self.node_type,
            is_array: self.is_array,
            name: self.key@,
            payload: self.value@,
        }
    }
}

/// The name of a node of type `ty` whose type byte stands just before
/// position `pos`, and the position behind the name.
///
/// The end markers have no name. Other names are packed, or, in a document
/// that does not pack them, stand as a string in the document's encoding
/// behind their length in one byte.
#[verifier::opaque]
pub open spec fn read_name(doc: Document, ty: StandardType, pos: nat) -> Result<
    (Seq<char>, nat),
    KbinError,
> {
    if ty == StandardType::NodeEnd || ty == StandardType::FileEnd {
        Ok((Seq::empty(), pos))
    } else {
        match doc.compression {
            Compression::Compressed => spec_unpack(doc.nodes, pos),
            Compression::Uncompressed => {
                if pos >= doc.nodes.len() {
                    Err(KbinError::DataRead { size: 1 })
                } else {
                    let n = doc.nodes[pos as int] as nat;
                    if pos + 1 + n > doc.nodes.len() {
                        Err(KbinError::DataRead { size: n as usize })
                    } else {
                        match doc.encoding.spec_decode_bytes(
                            doc.nodes.subrange(pos + 1 as int, pos + 1 + n as int),
                        ) {
                            Ok(name) => Ok((name, pos + 1 + n)),
                            Err(e) => Err(e),
                        }
                    }
                }
            },
        }
    }
}

/// The bytes of the value of a node, and the positions in the data section behind it.
///
/// An element without a value and the end markers have none. Attributes,
/// strings and blobs stand behind their length. Of the other types, an array
/// stands behind its length in bytes, which must be that of whole values, and
/// a single value stands where values of its size stand.
#[verifier::opaque]
pub open spec fn read_payload(ty: StandardType, is_array: bool, data: Seq<u8>, cur: Cursors)
    -> Result<(Seq<u8>, Cursors), KbinError> {
    match ty.spec_kind() {
        LaneKind::Marker => if ty == StandardType::Attribute {
            cur.read_length_prefixed(data)
        } else {
            Ok((Seq::empty(), cur))
        },
        LaneKind::Text | LaneKind::Binary => cur.read_length_prefixed(data),
        _ => if is_array {
            match cur.read_length_prefixed(data) {
                Ok((bytes, next)) => if bytes.len() % ty.footprint() != 0 {
                    Err(
                        KbinError::SizeMismatch {
                            node_type: ty.spec_name(),
                            expected: ty.footprint() as usize,
                            actual: bytes.len() as usize,
                        },
                    )
                } else {
                    Ok((bytes, next))
                },
                Err(e) => Err(e),
            }
        } else {
            cur.read_aligned(data, ty.footprint())
        },
    }
}

/// The entry of the node section at position `pos`, with its value, and the
/// positions in both sections behind it.
///
/// The entry starts with its type byte: the id of the type, and the array bit.
#[verifier::opaque]
pub open spec fn read_record(doc: Document, pos: nat, cur: Cursors) -> Result<
    (Record, nat, Cursors),
    KbinError,
> {
    if pos >= doc.nodes.len() {
        Err(KbinError::DataRead { size: 1 })
    } else {
        let raw = doc.nodes[pos as int];
        let id = raw & !ARRAY_MASK;
        let is_array = raw & ARRAY_MASK != 0;
        match StandardType::spec_from_u8(id) {
            None => Err(KbinError::InvalidNodeType { node_type: id }),
            Some(node_type) => match read_name(doc, node_type, pos + 1) {
                Err(e) => Err(e),
                Ok((name, behind)) => match read_payload(node_type, is_array, doc.data, cur) {
                    Err(e) => Err(e),
                    Ok((payload, next)) => Ok(
                        (Record { node_type, is_array, name, payload }, behind, next),
                    ),
                },
            },
        }
    }
}

/// Reading an entry moves on in the node section, and not beyond its end.
pub proof fn lemma_read_record_moves(doc: Document, pos: nat, cur: Cursors)
    ensures
        read_record(doc, pos, cur) matches Ok((_, behind, _)) ==> pos < behind <= doc.nodes.len(),
{
    reveal(read_record);
    reveal(read_name);
}

/// Reading an entry moves on in the node section and keeps the positions in
/// the data section in order.
pub proof fn lemma_read_record_advances(doc: Document, pos: nat, cur: Cursors)
    requires
        cur.wf(),
    ensures
        read_record(doc, pos, cur) matches Ok((_, behind, next)) ==> pos < behind
            <= doc.nodes.len() && next.wf(),
{
    reveal(read_record);
    reveal(read_name);
    reveal(read_payload);
    match read_record(doc, pos, cur) {
        Ok((record, behind, next)) => {
            let ty = record.node_type;
            crate::byte_buffer::lemma_reads_keep_alignment(cur, doc.data, ty.footprint());
        },
        Err(_) => {},
    }
}

/// A document that is being read: its parts, and how far each section has been read.
pub struct Reader {
    compression: Compression,
    encoding: EncodingType,
    node_buf: Vec<u8>,
    node_pos: usize,
    data_buf: ByteBufferRead,
}

impl Reader {
    /// The document that is being read.
    pub closed spec fn document(&self) -> Document {
        Document {
            compression: self.compression,
            encoding: self.encoding,
            nodes: self.node_buf@,
            data: self.data_buf.data(),
        }
    }

    /// How far the node section has been read.
    pub closed spec fn position(&self) -> nat {
        self.node_pos as nat
    }

    /// How far the data section has been read.
    pub closed spec fn cursors(&self) -> Cursors {
        self.data_buf.cursors()
    }

    /// What holds of a reader between any two reads.
    pub closed spec fn wf(&self) -> bool {
        &&& self.data_buf.wf()
        &&& self.node_pos <= self.node_buf@.len()
    }

    /// A reader in order stands inside its node section, with the positions
    /// in the data section in order.
    pub proof fn lemma_wf(&self)
        requires
            self.wf(),
        ensures
            self.cursors().wf(),
            self.position() <= self.document().nodes.len(),
    {
    }

    /// Whether the reader is in order, as every reader is that `new` made and
    /// the reads below moved.
    pub fn in_order(&self) -> (r: bool)
        ensures
            r == self.wf(),
    {
        self.data_buf.in_order() && self.node_pos <= self.node_buf.len()
    }

    /// A reader at the start of both sections of the document in `input`.
    pub fn new(input: &[u8]) -> (r: Result<Reader, KbinError>)
        ensures
            match spec_parse_header(input@) {
                Ok(doc) => r matches Ok(reader) && reader.wf() && reader.document() == doc
                    && reader.position() == 0 && reader.cursors() == Cursors::start(),
                Err(e) => r matches Err(err) && err == e,
            },
    {
        if input.len() < 8 {
            return Err(KbinError::DataRead { size: 8 });
        }
        if input[0] != crate::SIGNATURE {
            return Err(KbinError::HeaderValue { field: "signature" });
        }
        let compression = match Compression::from_byte(input[1]) {
            Ok(c) => c,
            Err(e) => {
                return Err(e);
            },
        };
        let encoding = match EncodingType::from_byte(input[2]) {
            Ok(c) => c,
            Err(e) => {
                return Err(e);
            },
        };
        if input[3] != input[2] ^ 0xFF {
            return Err(KbinError::HeaderValue { field: "encoding negation" });
        }
        let len_node = read_be_u32(input, 4) as usize;
        if input.len() - 8 < len_node || input.len() - 8 - len_node < 4 {
            return Err(KbinError::DataRead { size: len_node });
        }
        let len_data = read_be_u32(input, 8 + len_node) as usize;
        if input.len() - 12 - len_node < len_data {
            return Err(KbinError::DataRead { size: len_data });
        }
        let node_buf = copy_range(input, 8, 8 + len_node);
        let data = copy_range(input, 12 + len_node, 12 + len_node + len_data);
        Ok(
            Reader {
                compression,
                encoding,
                node_buf,
                node_pos: 0,
                data_buf: ByteBufferRead::new(data),
            },
        )
    }

    /// The encoding of the document.
    pub fn encoding(&self) -> (r: EncodingType)
        ensures
            r == self.document().encoding,
    {
        self.encoding
    }

    /// The way in which the document stores its names.
    pub fn compression(&self) -> (r: Compression)
        ensures
            r == self.document().compression,
    {
        self.compression
    }

    /// Reads the name of a node of type `ty` at the position in the node section.
    fn read_node_identifier(&mut self, ty: StandardType) -> (r: Result<String, KbinError>)
        requires
            old(self).wf(),
        ensures
            final(self).wf(),
            final(self).document() == old(self).document(),
            final(self).cursors() == old(self).cursors(),
            match read_name(old(self).document(), ty, old(self).position()) {
                Ok((name, behind)) => r matches Ok(s) && s@ == name && final(self).position()
                    == behind,
                Err(e) => r matches Err(err) && err == e,
            },
    {
        reveal(read_name);
        match ty {
            StandardType::NodeEnd | StandardType::FileEnd => {
                return Ok(String::new());
            },
            _ => {},
        }
        match self.compression {
            Compression::Compressed => {
                match unpack(self.node_buf.as_slice(), self.node_pos) {
                    Ok((name, behind)) => {
                        self.node_pos = behind;
                        Ok(name)
                    },
                    Err(e) => Err(e),
                }
            },
            Compression::Uncompressed => {
                if self.node_pos >= self.node_buf.len() {
                    return Err(KbinError::DataRead { size: 1 });
                }
                let n = self.node_buf[self.node_pos] as usize;
                if self.node_buf.len() - self.node_pos - 1 < n {
                    return Err(KbinError::DataRead { size: n });
                }
                let bytes = copy_range(
                    self.node_buf.as_slice(),
                    self.node_pos + 1,
                    self.node_pos + 1 + n,
                );
                match self.encoding.decode_bytes(bytes.as_slice()) {
                    Ok(name) => {
                        self.node_pos = self.node_pos + 1 + n;
                        Ok(name)
                    },
                    Err(e) => Err(e),
                }
            },
        }
    }

    /// Reads the value of a node from the data section.
    fn read_node_data(&mut self, ty: StandardType, is_array: bool) -> (r: Result<
        Vec<u8>,
        KbinError,
    >)
        requires
            old(self).wf(),
        ensures
            final(self).wf(),
            final(self).document() == old(self).document(),
            final(self).position() == old(self).position(),
            match read_payload(ty, is_array, old(self).document().data, old(self).cursors()) {
                Ok((payload, next)) => r matches Ok(v) && v@ == payload && final(self).cursors()
                    == next,
                Err(e) => r matches Err(err) && err == e,
            },
    {
        reveal(read_payload);
        match ty.kind() {
            LaneKind::Marker => {
                match ty {
                    StandardType::Attribute => self.data_buf.read_length_prefixed(),
                    _ => Ok(Vec::new()),
                }
            },
            LaneKind::Text | LaneKind::Binary => self.data_buf.read_length_prefixed(),
            _ => {
                proof {
                    crate::lanes::lemma_lane_fits(ty);
                    let z = ty.spec_size() as int;
                    let c = ty.spec_count() as int;
                    assert(0 < z * c <= 128) by (nonlinear_arith)
                        requires
                            1 <= z <= 8,
                            1 <= c <= 16,
                    ;
                }
                let footprint: usize = (ty.size() as usize) * (ty.count() as usize);
                if is_array {
                    match self.data_buf.read_length_prefixed() {
                        Ok(bytes) => {
                            if bytes.len() % footprint != 0 {
                                Err(
                                    KbinError::SizeMismatch {
                                        node_type: ty.name(),
                                        expected: footprint,
                                        actual: bytes.len(),
                                    },
                                )
                            } else {
                                Ok(bytes)
                            }
                        },
                        Err(e) => Err(e),
                    }
                } else {
                    self.data_buf.read_aligned(footprint)
                }
            },
        }
    }

    /// Reads the next entry of the node section, with its value from the data section.
    pub fn read_node_definition(&mut self) -> (r: Result<NodeDefinition, KbinError>)
        requires
            old(self).wf(),
        ensures
            final(self).wf(),
            final(self).document() == old(self).document(),
            match read_record(old(self).document(), old(self).position(), old(self).cursors()) {
                Ok((record, behind, next)) => r matches Ok(def) && def@ == record
                    && final(self).position() == behind && final(self).cursors() == next,
                Err(e) => r matches Err(err) && err == e,
            },
    {
        reveal(read_record);
        if self.node_pos >= self.node_buf.len() {
            return Err(KbinError::DataRead { size: 1 });
        }
        let raw = self.node_buf[self.node_pos];
        let id = raw & !ARRAY_MASK;
        let is_array = raw & ARRAY_MASK != 0;
        let node_type = match StandardType::from_u8(id) {
            Some(t) => t,
            None => {
                return Err(KbinError::InvalidNodeType { node_type: id });
            },
        };
        self.node_pos = self.node_pos + 1;
        let key = match self.read_node_identifier(node_type) {
            Ok(k) => k,
            Err(e) => {
                return Err(e);
            },
        };
        let value = match self.read_node_data(node_type, is_array) {
            Ok(v) => v,
            Err(e) => {
                return Err(e);
            },
        };
        Ok(NodeDefinition { node_type, is_array, key, value })
    }
}

} // verus!
