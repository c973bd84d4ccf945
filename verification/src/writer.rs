use crate::byte_buffer::{align4, zeros, ByteBufferWrite, WriteState};
use crate::byte_order::{be_bytes, be_bytes_u32};
use crate::element::{attrs_view, lemma_trees_of, Element, Tree};
use crate::error::KbinError;
use crate::hex::{from_hex, hex_bytes, hex_valid};
use crate::lanes::{float_bytes, FloatText};
use crate::tokens::tokens;
use crate::node_types::{LaneKind, StandardType};
use crate::options::{Compression, Options};
use crate::reader::ARRAY_MASK;
use crate::sixbit::{pack, spec_pack};
use crate::strings::{append_bytes, chars_of, same_text};
use crate::text::{parse_int, read_int};
use vstd::prelude::*;

verus! {

/// The two sections of a document that is being written.
pub struct Output {
    /// The node section so far.
    pub nodes: Seq<u8>,
    /// The data section so far, with the positions of its narrow values.
    pub data: WriteState,
}

/// Whether `name` is one of the attribute names by which an element says
/// what its value is; such attributes are not written as attributes.
pub open spec fn reserved(name: Seq<char>) -> bool {
    name == "__type"@ || name == "__size"@ || name == "__count"@
}

/// The type of the node that stands for an element.
///
/// It is the type that the attribute `__type` names, by its name or its
/// second name; without that attribute the element is a string if it has
/// text and an element without a value if it has none. An unknown name is
/// refused, with 0 in place of an id, and so is the name of a marker that
/// does not open an element.
pub open spec fn node_type_of(t: Tree) -> Result<StandardType, KbinError> {
    match t.attr("__type"@) {
        Some(name) => match StandardType::spec_from_name(name) {
            Some(ty) => if ty == StandardType::Attribute || ty == StandardType::NodeEnd || ty
                == StandardType::FileEnd {
                Err(KbinError::InvalidNodeType { node_type: ty.spec_id() })
            } else {
                Ok(ty)
            },
            None => Err(KbinError::InvalidNodeType { node_type: 0 }),
        },
        None => if t.text.len() > 0 {
            Ok(StandardType::String)
        } else {
            Ok(StandardType::NodeStart)
        },
    }
}

/// The number of values of an element that holds an array; `None` where it holds a single value.
///
/// An element holds an array where its type has lanes and its attribute
/// `__count` is a number other than zero.
pub open spec fn array_count(t: Tree, ty: StandardType) -> Result<Option<nat>, KbinError> {
    if !ty.has_lanes() {
        Ok(None)
    } else {
        match t.attr("__count"@) {
            None => Ok(None),
            Some(count) => match parse_int(count, 0, u32::MAX as int) {
                None => Err(KbinError::StringParseInt { node_type: "__count" }),
                Some(n) => if n == 0 {
                    Ok(None)
                } else {
                    Ok(Some(n as nat))
                },
            },
        }
    }
}

/// The type byte of a node: the id of its type, with the array bit for
/// arrays and for the types of varying length.
pub open spec fn type_byte(ty: StandardType, count: Option<nat>) -> u8 {
    if ty.spec_count() == -1 || count is Some {
        ty.spec_id() | ARRAY_MASK
    } else {
        ty.spec_id()
    }
}

/// The bytes of a name in the node section: packed, or as a string in the
/// document's encoding behind its length in one byte.
pub open spec fn name_bytes(name: Seq<char>, options: Options) -> Result<Seq<u8>, KbinError> {
    match options.compression {
        Compression::Compressed => spec_pack(name),
        Compression::Uncompressed => match options.encoding.spec_encode_text(name) {
            Ok(bytes) => if bytes.len() > 255 {
                Err(KbinError::SixbitLength { length: bytes.len() as usize })
            } else {
                Ok(seq![bytes.len() as u8] + bytes)
            },
            Err(e) => Err(e),
        },
    }
}

/// The data section after the value of an element has been written.
///
/// A string is written encoded, with a zero byte at its end, behind its
/// length; a blob as the bytes that its text denotes in hexadecimal, behind
/// their length; an array behind its length in bytes; a single value where
/// values of its size are written. An element without a value writes nothing.
#[verifier::opaque]
pub open spec fn write_value(
    t: Tree,
    ty: StandardType,
    count: Option<nat>,
    data: WriteState,
    options: Options,
) -> Result<WriteState, KbinError> {
    match ty.spec_kind() {
        LaneKind::Marker => Ok(data),
        LaneKind::Text => match options.encoding.spec_encode_bytes(t.text) {
            Ok(bytes) => data.write_length_prefixed(bytes, ty.spec_name()),
            Err(e) => Err(e),
        },
        LaneKind::Binary => if hex_valid(t.text) {
            data.write_length_prefixed(hex_bytes(t.text), ty.spec_name())
        } else {
            Err(KbinError::HexError)
        },
        _ => match count {
            Some(n) => match ty.spec_format_bytes(t.text, n) {
                Ok(bytes) => data.write_length_prefixed(bytes, ty.spec_name()),
                Err(e) => Err(e),
            },
            None => match ty.spec_format_bytes(t.text, 1) {
                Ok(bytes) => data.write_aligned(bytes),
                Err(e) => Err(e),
            },
        },
    }
}

/// The two sections after one attribute has been written: a node of the
/// attribute type with the name of the attribute, and its value as a string.
/// The attributes with reserved names are not written.
#[verifier::opaque]
pub open spec fn write_attr(attr: (Seq<char>, Seq<char>), out: Output, options: Options)
    -> Result<Output, KbinError> {
    if reserved(attr.0) {
        Ok(out)
    } else {
        match name_bytes(attr.0, options) {
            Err(e) => Err(e),
            Ok(name) => match options.encoding.spec_encode_bytes(attr.1) {
                Err(e) => Err(e),
                Ok(value) => match out.data.write_length_prefixed(
                    value,
                    StandardType::Attribute.spec_name(),
                ) {
                    Err(e) => Err(e),
                    Ok(data) => Ok(
                        Output {
                            nodes: out.nodes.push(StandardType::Attribute.spec_id()) + name,
                            data,
                        },
                    ),
                },
            },
        }
    }
}

/// The two sections after the attributes have been written, in order.
pub open spec fn write_attrs(attrs: Seq<(Seq<char>, Seq<char>)>, out: Output, options: Options)
    -> Result<Output, KbinError>
    decreases attrs.len(),
{
    if attrs.len() == 0 {
        Ok(out)
    } else {
        match write_attrs(attrs.drop_last(), out, options) {
            Err(e) => Err(e),
            Ok(head) => write_attr(attrs.last(), head, options),
        }
    }
}

/// The two sections after the start of an element has been written: its node,
/// its value, and its attributes.
pub open spec fn write_start(t: Tree, out: Output, options: Options) -> Result<Output, KbinError> {
    match node_type_of(t) {
        Err(e) => Err(e),
        Ok(ty) => match array_count(t, ty) {
            Err(e) => Err(e),
            Ok(count) => match name_bytes(t.name, options) {
                Err(e) => Err(e),
                Ok(name) => match write_value(t, ty, count, out.data, options) {
                    Err(e) => Err(e),
                    Ok(data) => write_attrs(
                        t.attrs,
                        Output { nodes: out.nodes.push(type_byte(ty, count)) + name, data },
                    options),
                },
            },
        }
    }
}

/// The type byte that ends an element: the end marker with the array bit.
pub open spec fn node_end_byte() -> u8 {
    StandardType::NodeEnd.spec_id() | ARRAY_MASK
}

/// The type byte that ends a document: the end marker with the array bit.
pub open spec fn file_end_byte() -> u8 {
    StandardType::FileEnd.spec_id() | ARRAY_MASK
}

/// The two sections after an element has been written: its start, the
/// elements inside it in order, and its end.
pub open spec fn write_element(t: Tree, out: Output, options: Options) -> Result<Output, KbinError>
    decreases t, 1int,
{
    match write_start(t, out, options) {
        Err(e) => Err(e),
        Ok(started) => match write_children(t, t.children.len(), started, options) {
            Err(e) => Err(e),
            Ok(filled) => Ok(
                Output { nodes: filled.nodes.push(node_end_byte()), data: filled.data },
            ),
        },
    }
}

/// The two sections after the first `n` of the elements inside `t` have been written, in order.
pub open spec fn write_children(t: Tree, n: nat, out: Output, options: Options) -> Result<
    Output,
    KbinError,
>
    decreases t, 0int, n,
{
    if n == 0 || n > t.children.len() {
        Ok(out)
    } else {
        match write_children(t, (n - 1) as nat, out, options) {
            Err(e) => Err(e),
            Ok(head) => write_element(t.children[n - 1], head, options),
        }
    }
}

/// The bytes of a document with the given sections, the lengths of which
/// fit into four bytes each.
pub open spec fn framing(options: Options, nodes: Seq<u8>, data: Seq<u8>) -> Seq<u8> {
    seq![
        crate::SIGNATURE,
        options.compression.spec_to_byte(),
        options.encoding.spec_to_byte(),
        options.encoding.spec_to_byte() ^ 0xFF,
    ] + be_bytes(nodes.len(), 4) + nodes + be_bytes(data.len(), 4) + data
}

/// The document that holds the element `t`.
///
/// The node section ends with the end of the document and is filled up with
/// zeros to a multiple of four bytes. Each section must be short enough for
/// its length to fit into four bytes. The document is the header and the two
/// sections, each behind its length.
pub open spec fn spec_encode(t: Tree, options: Options) -> Result<Seq<u8>, KbinError> {
    match write_element(t, Output { nodes: Seq::empty(), data: WriteState::start() }, options) {
        Err(e) => Err(e),
        Ok(out) => {
            let ended = out.nodes.push(file_end_byte());
            let nodes = ended + zeros((align4(ended.len()) - ended.len()) as nat);
            if nodes.len() > u32::MAX {
                Err(KbinError::DataWrite { node_type: "node buffer" })
            } else if out.data.data.len() > u32::MAX {
                Err(KbinError::DataWrite { node_type: "data buffer" })
            } else {
                Ok(framing(options, nodes, out.data.data))
            }
        },
    }
}

/// What one attribute adds to the node section: a node of the attribute
/// type with the name of the attribute; nothing, if the name is reserved.
pub open spec fn attr_nodes(attr: (Seq<char>, Seq<char>), options: Options) -> Seq<u8> {
    if reserved(attr.0) {
        Seq::empty()
    } else {
        seq![StandardType::Attribute.spec_id()] + name_bytes(attr.0, options)->Ok_0
    }
}

/// What the attributes add to the node section, in order.
pub open spec fn attrs_nodes(attrs: Seq<(Seq<char>, Seq<char>)>, options: Options) -> Seq<u8>
    decreases attrs.len(),
{
    if attrs.len() == 0 {
        Seq::empty()
    } else {
        attrs_nodes(attrs.drop_last(), options) + attr_nodes(attrs.last(), options)
    }
}

/// What the start of an element adds to the node section: its type byte,
/// its name, and its attributes.
pub open spec fn start_nodes(t: Tree, options: Options) -> Seq<u8> {
    let ty = node_type_of(t)->Ok_0;
    let count = array_count(t, ty)->Ok_0;
    seq![type_byte(ty, count)] + name_bytes(t.name, options)->Ok_0 + attrs_nodes(t.attrs, options)
}

/// What an element adds to the node section: its start, the elements inside
/// it in order, and its end. It does not depend on any value.
pub open spec fn element_nodes(t: Tree, options: Options) -> Seq<u8>
    decreases t, 1int,
{
    start_nodes(t, options) + children_nodes(t, t.children.len(), options) + seq![node_end_byte()]
}

/// What the first `n` elements inside `t` add to the node section, in order.
pub open spec fn children_nodes(t: Tree, n: nat, options: Options) -> Seq<u8>
    decreases t, 0int, n,
{
    if n == 0 || n > t.children.len() {
        Seq::empty()
    } else {
        children_nodes(t, (n - 1) as nat, options) + element_nodes(t.children[n - 1], options)
    }
}

/// The node section of the document that holds `t`: the nodes of `t`, the
/// end of the document, and zeros up to a multiple of four bytes.
pub open spec fn node_section(t: Tree, options: Options) -> Seq<u8> {
    let ended = element_nodes(t, options).push(file_end_byte());
    ended + zeros((align4(ended.len()) - ended.len()) as nat)
}

/// Whether `bytes` have the shape of the document that holds `t`: the four
/// bytes of the header, the length of the node section, the node section,
/// the length of the data section, and a data section of that length, which
/// is a multiple of four.
pub open spec fn written(bytes: Seq<u8>, t: Tree, options: Options) -> bool {
    let nodes = node_section(t, options);
    let n = nodes.len() as int;
    let d = bytes.len() - 12 - n;
    &&& framed(bytes, options)
    &&& n <= u32::MAX
    &&& n % 4 == 0
    &&& 0 <= d <= u32::MAX
    &&& d % 4 == 0
    &&& bytes.subrange(4, 8) == be_bytes(n as nat, 4)
    &&& bytes.subrange(8, 8 + n) == nodes
    &&& bytes.subrange(8 + n, 12 + n) == be_bytes(d as nat, 4)
}

/// Whether the data section has grown by a floating-point value of the
/// text `text`: by the lanes of numbers that `floats` gave for its words,
/// behind their length for an array, and where values of their size are
/// written for a single value.
pub open spec fn float_written<F: FloatText>(
    before: WriteState,
    after: WriteState,
    ty: StandardType,
    count: Option<nat>,
    text: Seq<char>,
    floats: &F,
) -> bool {
    exists|b: Seq<u8>| #[trigger]
        float_bytes(floats, ty.spec_double(), tokens(text), b) && match count {
            Some(n) => b.len() == n * ty.footprint() && before.write_length_prefixed(
                b,
                ty.spec_name(),
            ) == Ok::<WriteState, KbinError>(after),
            None => b.len() == ty.footprint() && before.write_aligned(b) == Ok::<
                WriteState,
                KbinError,
            >(after),
        }
}

/// Whether the data section has grown by the value of an element: as
/// `write_value` says, or, for a floating-point value, by the lanes of
/// numbers that `floats` gave for its words.
pub open spec fn value_written<F: FloatText>(
    t: Tree,
    ty: StandardType,
    count: Option<nat>,
    before: WriteState,
    after: WriteState,
    options: Options,
    floats: &F,
) -> bool {
    if ty.spec_kind() == LaneKind::Float {
        float_written(before, after, ty, count, t.text, floats)
    } else {
        write_value(t, ty, count, before, options) == Ok::<WriteState, KbinError>(after)
    }
}

/// Whether the two sections have grown by the start of an element: its
/// node, its value, and its attributes.
pub open spec fn start_written<F: FloatText>(
    t: Tree,
    before: Output,
    after: Output,
    options: Options,
    floats: &F,
) -> bool {
    &&& node_type_of(t) is Ok
    &&& array_count(t, node_type_of(t)->Ok_0) is Ok
    &&& name_bytes(t.name, options) is Ok
    &&& exists|data: WriteState| #[trigger]
        value_written(
            t,
            node_type_of(t)->Ok_0,
            array_count(t, node_type_of(t)->Ok_0)->Ok_0,
            before.data,
            data,
            options,
            floats,
        ) && write_attrs(
            t.attrs,
            Output {
                nodes: before.nodes.push(
                    type_byte(node_type_of(t)->Ok_0, array_count(t, node_type_of(t)->Ok_0)->Ok_0),
                ) + name_bytes(t.name, options)->Ok_0,
                data,
            },
            options,
        ) == Ok::<Output, KbinError>(after)
}

/// Marks the sections that stand between two steps of the writing.
pub open spec fn between(out: Output) -> bool {
    true
}

/// Whether the two sections have grown by an element: its start, the
/// elements inside it in order, and its end.
pub open spec fn element_written<F: FloatText>(
    t: Tree,
    before: Output,
    after: Output,
    options: Options,
    floats: &F,
) -> bool
    decreases t, 1int,
{
    exists|started: Output, filled: Output|
        #![trigger between(started), between(filled)]
        start_written(t, before, started, options, floats) && children_written(
            t,
            t.children.len(),
            started,
            filled,
            options,
            floats,
        ) && after == (Output { nodes: filled.nodes.push(node_end_byte()), data: filled.data })
}

/// Whether the two sections have grown by the first `n` elements inside `t`, in order.
pub open spec fn children_written<F: FloatText>(
    t: Tree,
    n: nat,
    before: Output,
    after: Output,
    options: Options,
    floats: &F,
) -> bool
    decreases t, 0int, n,
{
    if n == 0 || n > t.children.len() {
        after == before
    } else {
        exists|mid: Output|
            #![trigger between(mid)]
            children_written(t, (n - 1) as nat, before, mid, options, floats) && element_written(
                t.children[n - 1],
                mid,
                after,
                options,
                floats,
            )
    }
}

/// The document with the given sections: the header, the node section with
/// the end of the document and its padding behind its length, and the data
/// section behind its length.
pub open spec fn document_of(out: Output, options: Options) -> Seq<u8> {
    let ended = out.nodes.push(file_end_byte());
    framing(options, ended + zeros((align4(ended.len()) - ended.len()) as nat), out.data.data)
}

/// Whether `bytes` are a document that holds `t`: the document with the
/// sections that writing `t` gives, where the lanes of floating-point values
/// hold numbers that `floats` gave for their words.
pub open spec fn holds_element<F: FloatText>(
    bytes: Seq<u8>,
    t: Tree,
    options: Options,
    floats: &F,
) -> bool {
    exists|out: Output|
        #![trigger between(out)]
        element_written(
            t,
            Output { nodes: Seq::empty(), data: WriteState::start() },
            out,
            options,
            floats,
        ) && bytes == document_of(out, options)
}

/// Whether a floating-point value of the text `text` is turned down with
/// `e`: for the number of its words, for a word that `floats` turned down,
/// or for the length of its lanes.
pub open spec fn float_refused_with<F: FloatText>(
    before: WriteState,
    ty: StandardType,
    count: Option<nat>,
    text: Seq<char>,
    floats: &F,
    e: KbinError,
) -> bool {
    let n = match count {
        Some(n) => n,
        None => 1,
    };
    match ty.format_refusal(text, n) {
        Some(refusal) => e == refusal,
        None => {
            ||| e == (KbinError::StringParseFloat { node_type: ty.spec_name() })
                && crate::lanes::float_refused(floats, ty.spec_double(), tokens(text))
            ||| exists|b: Seq<u8>| #[trigger]
                float_bytes(floats, ty.spec_double(), tokens(text), b) && match count {
                    Some(n) => b.len() == n * ty.footprint() && before.write_length_prefixed(
                        b,
                        ty.spec_name(),
                    ) == Err::<WriteState, KbinError>(e),
                    None => b.len() == ty.footprint() && before.write_aligned(b) == Err::<
                        WriteState,
                        KbinError,
                    >(e),
                }
        },
    }
}

/// Whether the value of an element is turned down with `e`: as
/// `write_value` says, or, for a floating-point value, as said above.
pub open spec fn value_refused<F: FloatText>(
    t: Tree,
    ty: StandardType,
    count: Option<nat>,
    before: WriteState,
    options: Options,
    floats: &F,
    e: KbinError,
) -> bool {
    if ty.spec_kind() == LaneKind::Float {
        float_refused_with(before, ty, count, t.text, floats, e)
    } else {
        write_value(t, ty, count, before, options) == Err::<WriteState, KbinError>(e)
    }
}

/// Whether the start of an element is turned down with `e`: for its type,
/// its count, its name, its value, or, the value written, for an attribute.
pub open spec fn start_refused<F: FloatText>(
    t: Tree,
    before: Output,
    options: Options,
    floats: &F,
    e: KbinError,
) -> bool {
    match node_type_of(t) {
        Err(refusal) => e == refusal,
        Ok(ty) => match array_count(t, ty) {
            Err(refusal) => e == refusal,
            Ok(count) => match name_bytes(t.name, options) {
                Err(refusal) => e == refusal,
                Ok(name) => {
                    ||| value_refused(t, ty, count, before.data, options, floats, e)
                    ||| exists|data: WriteState| #[trigger]
                        value_written(t, ty, count, before.data, data, options, floats)
                            && write_attrs(
                            t.attrs,
                            Output { nodes: before.nodes.push(type_byte(ty, count)) + name, data },
                            options,
                        ) == Err::<Output, KbinError>(e)
                },
            },
        },
    }
}

/// Whether an element is turned down with `e`: at its start, or, the start
/// written, at one of the elements inside it.
pub open spec fn element_refused<F: FloatText>(
    t: Tree,
    before: Output,
    options: Options,
    floats: &F,
    e: KbinError,
) -> bool
    decreases t, 1int,
{
    ||| start_refused(t, before, options, floats, e)
    ||| exists|started: Output|
        #![trigger between(started)]
        start_written(t, before, started, options, floats) && children_refused(
            t,
            t.children.len(),
            started,
            options,
            floats,
            e,
        )
}

/// Whether one of the first `n` elements inside `t` is turned down with
/// `e`, those before it written.
pub open spec fn children_refused<F: FloatText>(
    t: Tree,
    n: nat,
    before: Output,
    options: Options,
    floats: &F,
    e: KbinError,
) -> bool
    decreases t, 0int, n,
{
    if n == 0 || n > t.children.len() {
        false
    } else {
        ||| children_refused(t, (n - 1) as nat, before, options, floats, e)
        ||| exists|mid: Output|
            #![trigger between(mid)]
            children_written(t, (n - 1) as nat, before, mid, options, floats) && element_refused(
                t.children[n - 1],
                mid,
                options,
                floats,
                e,
            )
    }
}

/// Whether no document holds `t`, for `e`: the element is turned down with
/// it, or one of the sections that writing it gives is too long for its
/// length to fit into four bytes.
pub open spec fn refuses_element<F: FloatText>(
    t: Tree,
    options: Options,
    floats: &F,
    e: KbinError,
) -> bool {
    let start = Output { nodes: Seq::empty(), data: WriteState::start() };
    ||| element_refused(t, start, options, floats, e)
    ||| exists|out: Output|
        #![trigger between(out)]
        element_written(t, start, out, options, floats) && if node_section(t, options).len()
            > u32::MAX {
            e == (KbinError::DataWrite { node_type: "node buffer" })
        } else {
            out.data.data.len() > u32::MAX && e == (KbinError::DataWrite {
                node_type: "data buffer",
            })
        }
}

/// Whether the element or one inside it holds a floating-point value.
pub open spec fn uses_floats(t: Tree) -> bool
    decreases t, 1int,
{
    ||| node_type_of(t) matches Ok(ty) && ty.spec_kind() == LaneKind::Float
    ||| any_uses_floats(t, t.children.len())
}

/// Whether one of the first `n` elements inside `t` holds a floating-point
/// value, itself or inside it.
pub open spec fn any_uses_floats(t: Tree, n: nat) -> bool
    decreases t, 0int, n,
{
    if n == 0 || n > t.children.len() {
        false
    } else {
        any_uses_floats(t, (n - 1) as nat) || uses_floats(t.children[n - 1])
    }
}

/// An element that holds no floating-point value has none inside it.
pub proof fn lemma_children_without_floats(t: Tree, n: nat, i: int)
    requires
        !any_uses_floats(t, n),
        n <= t.children.len(),
        0 <= i < n,
    ensures
        !uses_floats(t.children[i]),
    decreases n,
{
    if i < n - 1 {
        lemma_children_without_floats(t, (n - 1) as nat, i);
    }
}

/// An error among the first attributes is the error of all of them.
pub proof fn lemma_write_attrs_error_from(
    attrs: Seq<(Seq<char>, Seq<char>)>,
    out: Output,
    options: Options,
    k: nat,
)
    requires
        k <= attrs.len(),
        write_attrs(attrs.take(k as int), out, options) is Err,
    ensures
        write_attrs(attrs, out, options) == write_attrs(attrs.take(k as int), out, options),
    decreases attrs.len() - k,
{
    if k == attrs.len() {
        assert(attrs.take(k as int) == attrs);
    } else {
        let next = attrs.take(k + 1 as int);
        assert(next.drop_last() == attrs.take(k as int));
        lemma_write_attrs_error_from(attrs, out, options, k + 1);
    }
}

/// An error among the first elements inside an element is the error of all of them.
pub proof fn lemma_write_children_error_from(t: Tree, k: nat, out: Output, options: Options)
    requires
        k <= t.children.len(),
        write_children(t, k, out, options) is Err,
    ensures
        write_children(t, t.children.len(), out, options) == write_children(t, k, out, options),
    decreases t.children.len() - k,
{
    if k < t.children.len() {
        lemma_write_children_error_from(t, k + 1, out, options);
    }
}

/// One element more inside an element: where the sections have grown by the
/// first `n` elements and then by the next, they have grown by the first `n + 1`.
pub proof fn lemma_children_written_step<F: FloatText>(
    t: Tree,
    n: nat,
    before: Output,
    mid: Output,
    after: Output,
    options: Options,
    floats: &F,
)
    requires
        n < t.children.len(),
        children_written(t, n, before, mid, options, floats),
        element_written(t.children[n as int], mid, after, options, floats),
    ensures
        children_written(t, n + 1, before, after, options, floats),
{
    assert(between(mid));
    assert(((n + 1) - 1) as nat == n);
}

/// The two sections of a document while it is written.
struct Sections {
    options: Options,
    node_buf: Vec<u8>,
    data_buf: ByteBufferWrite,
}

impl Sections {
    /// The two sections so far.
    closed spec fn output(&self) -> Output {
        Output { nodes: self.node_buf@, data: self.data_buf.state() }
    }

    /// What holds of the sections between any two writes.
    closed spec fn wf(&self) -> bool {
        self.data_buf.wf()
    }

    /// Two empty sections.
    fn new(options: Options) -> (r: Sections)
        ensures
            r.wf(),
            r.options == options,
            r.output() == (Output { nodes: Seq::empty(), data: WriteState::start() }),
    {
        Sections { options, node_buf: Vec::new(), data_buf: ByteBufferWrite::new() }
    }

    /// The type of the node that stands for `elem`.
    fn node_type(elem: &Element) -> (r: Result<StandardType, KbinError>)
        ensures
            r == node_type_of(elem@),
    {
        match elem.attr("__type") {
            Some(name) => match StandardType::from_name(name.as_str()) {
                Some(ty) => match ty {
                    StandardType::Attribute | StandardType::NodeEnd | StandardType::FileEnd => Err(
                        KbinError::InvalidNodeType { node_type: ty.id() },
                    ),
                    _ => Ok(ty),
                },
                None => Err(KbinError::InvalidNodeType { node_type: 0 }),
            },
            None => if elem.text.as_str().is_empty() {
                Ok(StandardType::NodeStart)
            } else {
                Ok(StandardType::String)
            },
        }
    }

    /// The number of values of `elem` where it holds an array.
    fn count(elem: &Element, ty: StandardType) -> (r: Result<Option<usize>, KbinError>)
        ensures
            match array_count(elem@, ty) {
                Ok(Some(n)) => r == Ok::<Option<usize>, KbinError>(Some(n as usize)) && n
                    <= u32::MAX,
                Ok(None) => r == Ok::<Option<usize>, KbinError>(None),
                Err(e) => r matches Err(err) && err == e,
            },
    {
        if ty.count() < 1 {
            return Ok(None);
        }
        match elem.attr("__count") {
            None => Ok(None),
            Some(count) => {
                let chars = chars_of(count.as_str());
                match read_int(&chars, 0, 0xFFFF_FFFF) {
                    None => Err(KbinError::StringParseInt { node_type: "__count" }),
                    Some(n) => if n == 0 {
                        Ok(None)
                    } else {
                        Ok(Some(n as usize))
                    },
                }
            },
        }
    }

    /// The bytes of a name in the node section.
    fn name(&self, name: &str) -> (r: Result<Vec<u8>, KbinError>)
        ensures
            crate::lanes::bytes_result(r) == name_bytes(name@, self.options),
    {
        match self.options.compression {
            Compression::Compressed => pack(name),
            Compression::Uncompressed => match self.options.encoding.encode_text(name) {
                Ok(bytes) => {
                    if bytes.len() > 255 {
                        return Err(KbinError::SixbitLength { length: bytes.len() });
                    }
                    let mut out: Vec<u8> = Vec::new();
                    out.push(bytes.len() as u8);
                    append_bytes(&mut out, &bytes);
                    Ok(out)
                },
                Err(e) => Err(e),
            },
        }
    }

    /// Writes the value of `elem` into the data section.
    fn write_value<F: FloatText>(
        &mut self,
        elem: &Element,
        ty: StandardType,
        count: Option<usize>,
        floats: &F,
    ) -> (r: Result<(), KbinError>)
        requires
            old(self).wf(),
        ensures
            final(self).wf(),
            final(self).options == old(self).options,
            final(self).output().nodes == old(self).output().nodes,
            ty.spec_kind() != LaneKind::Float ==> match write_value(
                elem@,
                ty,
                match count {
                    Some(n) => Some(n as nat),
                    None => None,
                },
                old(self).output().data,
                old(self).options,
            ) {
                Ok(data) => r is Ok && final(self).output().data == data,
                Err(e) => r matches Err(err) && err == e,
            },
            r is Ok ==> value_written(
                elem@,
                ty,
                match count {
                    Some(n) => Some(n as nat),
                    None => None,
                },
                old(self).output().data,
                final(self).output().data,
                old(self).options,
                floats,
            ),
            r matches Err(e) ==> value_refused(
                elem@,
                ty,
                match count {
                    Some(n) => Some(n as nat),
                    None => None,
                },
                old(self).output().data,
                old(self).options,
                floats,
                e,
            ),
    {
        reveal(write_value);
        match ty.kind() {
            LaneKind::Marker => Ok(()),
            LaneKind::Text => match self.options.encoding.encode_bytes(elem.text.as_str()) {
                Ok(bytes) => self.data_buf.write_length_prefixed(&bytes, ty.name()),
                Err(e) => Err(e),
            },
            LaneKind::Binary => match from_hex(elem.text.as_str()) {
                Ok(bytes) => self.data_buf.write_length_prefixed(&bytes, ty.name()),
                Err(_) => Err(KbinError::HexError),
            },
            _ => match count {
                Some(n) => match ty.format_bytes(elem.text.as_str(), n, floats) {
                    Ok(bytes) => self.data_buf.write_length_prefixed(&bytes, ty.name()),
                    Err(e) => Err(e),
                },
                None => match ty.format_bytes(elem.text.as_str(), 1, floats) {
                    Ok(bytes) => {
                        proof {
                            assert(1 * ty.footprint() == ty.footprint()) by (nonlinear_arith);
                        }
                        self.data_buf.write_aligned(&bytes)
                    },
                    Err(e) => Err(e),
                },
            },
        }
    }

    /// Writes one attribute, unless its name is reserved.
    fn write_attr(&mut self, name: &str, value: &str) -> (r: Result<(), KbinError>)
        requires
            old(self).wf(),
        ensures
            final(self).wf(),
            final(self).options == old(self).options,
            match write_attr((name@, value@), old(self).output(), old(self).options) {
                Ok(out) => r is Ok && final(self).output() == out,
                Err(e) => r matches Err(err) && err == e,
            },
            r is Ok ==> final(self).output().nodes == old(self).output().nodes + attr_nodes(
                (name@, value@),
                old(self).options,
            ),
    {
        reveal(write_attr);
        let ghost nodes = self.node_buf@;
        if same_text(name, "__type") || same_text(name, "__size") || same_text(name, "__count") {
            proof {
                assert(nodes == nodes + Seq::<u8>::empty());
            }
            return Ok(());
        }
        let packed = match self.name(name) {
            Ok(p) => p,
            Err(e) => {
                return Err(e);
            },
        };
        let bytes = match self.options.encoding.encode_bytes(value) {
            Ok(b) => b,
            Err(e) => {
                return Err(e);
            },
        };
        match self.data_buf.write_length_prefixed(&bytes, StandardType::Attribute.name()) {
            Ok(()) => {},
            Err(e) => {
                return Err(e);
            },
        }
        self.node_buf.push(StandardType::Attribute.id());
        append_bytes(&mut self.node_buf, &packed);
        proof {
            assert(self.node_buf@ == nodes + (seq![StandardType::Attribute.spec_id()] + packed@));
        }
        Ok(())
    }

    /// Writes the attributes of `elem`, in order.
    #[verifier::loop_isolation(false)]
    fn write_attrs(&mut self, elem: &Element) -> (r: Result<(), KbinError>)
        requires
            old(self).wf(),
        ensures
            final(self).wf(),
            final(self).options == old(self).options,
            match write_attrs(elem@.attrs, old(self).output(), old(self).options) {
                Ok(out) => r is Ok && final(self).output() == out,
                Err(e) => r matches Err(err) && err == e,
            },
            r is Ok ==> final(self).output().nodes == old(self).output().nodes + attrs_nodes(
                elem@.attrs,
                old(self).options,
            ),
    {
        let ghost all = attrs_view(elem.attrs@);
        let ghost start = self.output();
        let ghost options = self.options;
        let mut i: usize = 0;
        proof {
            assert(all.take(0) == Seq::<(Seq<char>, Seq<char>)>::empty());
            assert(start.nodes == start.nodes + Seq::<u8>::empty());
        }
        while i < elem.attrs.len()
            invariant
                i <= elem.attrs.len(),
                self.wf(),
                self.options == options,
                write_attrs(all.take(i as int), start, options) == Ok::<Output, KbinError>(
                    self.output(),
                ),
                self.output().nodes == start.nodes + attrs_nodes(all.take(i as int), options),
            decreases elem.attrs.len() - i,
        {
            proof {
                let next = all.take(i + 1);
                assert(next.drop_last() == all.take(i as int));
                assert(next.last() == all[i as int]);
            }
            let ghost before = self.output().nodes;
            match self.write_attr(elem.attrs[i].0.as_str(), elem.attrs[i].1.as_str()) {
                Ok(()) => {
                    proof {
                        let sofar = attrs_nodes(all.take(i as int), options);
                        let more = attr_nodes(all[i as int], options);
                        assert(self.output().nodes == start.nodes + (sofar + more));
                    }
                },
                Err(e) => {
                    proof {
                        lemma_write_attrs_error_from(all, start, options, (i + 1) as nat);
                    }
                    return Err(e);
                },
            }
            i += 1;
        }
        proof {
            assert(all.take(elem.attrs.len() as int) == all);
        }
        Ok(())
    }

    /// Writes the start of `elem`: its node, its value, and its attributes.
    fn write_start<F: FloatText>(&mut self, elem: &Element, floats: &F) -> (r: Result<(), KbinError>)
        requires
            old(self).wf(),
        ensures
            final(self).wf(),
            final(self).options == old(self).options,
            !(node_type_of(elem@) matches Ok(ty) && ty.spec_kind() == LaneKind::Float)
                ==> match write_start(elem@, old(self).output(), old(self).options) {
                Ok(out) => r is Ok && final(self).output() == out,
                Err(e) => r matches Err(err) && err == e,
            },
            r is Ok ==> final(self).output().nodes == old(self).output().nodes + start_nodes(
                elem@,
                old(self).options,
            ),
            r is Ok ==> start_written(
                elem@,
                old(self).output(),
                final(self).output(),
                old(self).options,
                floats,
            ),
            r matches Err(e) ==> start_refused(
                elem@,
                old(self).output(),
                old(self).options,
                floats,
                e,
            ),
    {
        let ghost nodes = self.node_buf@;
        let ghost before = self.output();
        let ty = match Self::node_type(elem) {
            Ok(ty) => ty,
            Err(e) => {
                return Err(e);
            },
        };
        let count = match Self::count(elem, ty) {
            Ok(c) => c,
            Err(e) => {
                return Err(e);
            },
        };
        let packed = match self.name(elem.name.as_str()) {
            Ok(p) => p,
            Err(e) => {
                return Err(e);
            },
        };
        match self.write_value(elem, ty, count, floats) {
            Ok(()) => {},
            Err(e) => {
                return Err(e);
            },
        }
        let raw = if ty.count() == -1 || count.is_some() {
            ty.id() | ARRAY_MASK
        } else {
            ty.id()
        };
        self.node_buf.push(raw);
        append_bytes(&mut self.node_buf, &packed);
        let ghost noded = self.node_buf@;
        let ghost valued = self.output().data;
        proof {
            assert(noded == nodes + (seq![raw] + packed@));
            assert(noded == nodes.push(raw) + packed@);
        }
        match self.write_attrs(elem) {
            Ok(()) => {
                proof {
                    let more = attrs_nodes(elem@.attrs, self.options);
                    assert(self.node_buf@ == nodes + (seq![raw] + packed@ + more));
                    let counted = array_count(elem@, ty)->Ok_0;
                    assert(value_written(
                        elem@,
                        ty,
                        counted,
                        before.data,
                        valued,
                        self.options,
                        floats,
                    ));
                }
                Ok(())
            },
            Err(e) => {
                proof {
                    let counted = array_count(elem@, ty)->Ok_0;
                    assert(value_written(
                        elem@,
                        ty,
                        counted,
                        before.data,
                        valued,
                        self.options,
                        floats,
                    ));
                }
                Err(e)
            },
        }
    }

    /// Writes `elem`: its start, the elements inside it in order, and its end.
    #[verifier::loop_isolation(false)]
    fn write_node<F: FloatText>(&mut self, elem: &Element, floats: &F) -> (r: Result<(), KbinError>)
        requires
            old(self).wf(),
        ensures
            final(self).wf(),
            final(self).options == old(self).options,
            !uses_floats(elem@) ==> match write_element(
                elem@,
                old(self).output(),
                old(self).options,
            ) {
                Ok(out) => r is Ok && final(self).output() == out,
                Err(e) => r matches Err(err) && err == e,
            },
            r is Ok ==> final(self).output().nodes == old(self).output().nodes + element_nodes(
                elem@,
                old(self).options,
            ),
            r is Ok ==> element_written(
                elem@,
                old(self).output(),
                final(self).output(),
                old(self).options,
                floats,
            ),
            r matches Err(e) ==> element_refused(
                elem@,
                old(self).output(),
                old(self).options,
                floats,
                e,
            ),
        decreases elem,
    {
        let ghost tree = elem@;
        let ghost options = self.options;
        let ghost nodes = self.node_buf@;
        let ghost before = self.output();
        let ghost exact = !uses_floats(tree);
        proof {
            lemma_trees_of(elem.children@);
        }
        match self.write_start(elem, floats) {
            Ok(()) => {},
            Err(e) => {
                return Err(e);
            },
        }
        let ghost started = self.output();
        let mut i: usize = 0;
        proof {
            assert(started.nodes == started.nodes + Seq::<u8>::empty());
        }
        while i < elem.children.len()
            invariant
                i <= elem.children.len(),
                self.wf(),
                self.options == options,
                exact ==> write_children(tree, i as nat, started, options) == Ok::<
                    Output,
                    KbinError,
                >(self.output()),
                self.output().nodes == started.nodes + children_nodes(tree, i as nat, options),
                children_written(tree, i as nat, started, self.output(), options, floats),
            decreases elem.children.len() - i,
        {
            proof {
                if exact {
                    lemma_children_without_floats(tree, tree.children.len(), i as int);
                }
            }
            let ghost mid = self.output();
            match self.write_node(&elem.children[i], floats) {
                Ok(()) => {
                    proof {
                        lemma_children_written_step(
                            tree,
                            i as nat,
                            started,
                            mid,
                            self.output(),
                            options,
                            floats,
                        );
                        let sofar = children_nodes(tree, i as nat, options);
                        let more = element_nodes(tree.children[i as int], options);
                        assert(self.output().nodes == started.nodes + (sofar + more));
                    }
                },
                Err(e) => {
                    proof {
                        if exact {
                            lemma_write_children_error_from(
                                tree,
                                (i + 1) as nat,
                                started,
                                options,
                            );
                        }
                        assert(between(mid) && between(started));
                        assert(children_refused(
                            tree,
                            (i + 1) as nat,
                            started,
                            options,
                            floats,
                            e,
                        ));
                        lemma_children_refused_from(
                            tree,
                            (i + 1) as nat,
                            tree.children.len(),
                            started,
                            options,
                            floats,
                            e,
                        );
                    }
                    return Err(e);
                },
            }
            i += 1;
        }
        let ghost filled = self.output();
        self.node_buf.push(StandardType::NodeEnd.id() | ARRAY_MASK);
        proof {
            assert(between(started) && between(filled));
            assert(start_written(tree, before, started, options, floats) && children_written(
                tree,
                tree.children.len(),
                started,
                filled,
                options,
                floats,
            ));
            let inner = children_nodes(tree, tree.children.len(), options);
            assert(self.node_buf@ == nodes + (start_nodes(tree, options) + inner + seq![
                node_end_byte(),
            ]));
        }
        Ok(())
    }
}

/// Whether `bytes` start as a document written with `options` starts: with
/// the signature, the way of storing names, the encoding, and the encoding
/// with all bits turned.
pub open spec fn framed(bytes: Seq<u8>, options: Options) -> bool {
    &&& bytes.len() >= 12
    &&& bytes[0] == crate::SIGNATURE
    &&& bytes[1] == options.compression.spec_to_byte()
    &&& bytes[2] == options.encoding.spec_to_byte()
    &&& bytes[3] == bytes[2] ^ 0xFF
}

/// Writes documents.
#[derive(Clone, Copy, Debug, PartialEq, Eq)]
pub struct Writer {
    options: Options,
}

impl Writer {
    /// The options with which the writer writes.
    pub closed spec fn options(&self) -> Options {
        self.options
    }

    /// A writer that writes Shift JIS and packs names.
    pub fn new() -> (r: Writer)
        ensures
            r.options() == Options::spec_default(),
    {
        Writer { options: Options::new() }
    }

    /// A writer that writes as `options` say.
    pub fn with_options(options: Options) -> (r: Writer)
        ensures
            r.options() == options,
    {
        Writer { options }
    }

    /// The document that holds the element `input`.
    ///
    /// Where the element holds floating-point values, their lanes hold the
    /// numbers that `floats` gives for their words. Whatever they are, the
    /// document has the shape of the document that holds `input`. No document
    /// is written only where the element is turned down, or a section is too
    /// long.
    pub fn to_binary<F: FloatText>(&self, input: &Element, floats: &F) -> (r: Result<
        Vec<u8>,
        KbinError,
    >)
        ensures
            !uses_floats(input@) ==> crate::lanes::bytes_result(r) == spec_encode(
                input@,
                self.options(),
            ),
            r matches Ok(bytes) ==> written(bytes@, input@, self.options()),
            r matches Ok(bytes) ==> holds_element(bytes@, input@, self.options(), floats),
            r matches Err(e) ==> refuses_element(input@, self.options(), floats, e),
    {
        let mut sections = Sections::new(self.options);
        match sections.write_node(input, floats) {
            Ok(()) => {},
            Err(e) => {
                return Err(e);
            },
        }
        let ghost out = sections.output();
        proof {
            assert(out.nodes == Seq::<u8>::empty() + element_nodes(input@, self.options));
            assert(between(out));
        }
        let Sections { options, node_buf, data_buf } = sections;
        let nodes = close_nodes(node_buf);
        if nodes.len() > u32::MAX as usize {
            return Err(KbinError::DataWrite { node_type: "node buffer" });
        }
        let data = data_buf.into_inner();
        if data.len() > u32::MAX as usize {
            return Err(KbinError::DataWrite { node_type: "data buffer" });
        }
        let bytes = frame(options, &nodes, &data);
        proof {
            lemma_frame_parts(options, nodes@, data@);
        }
        Ok(bytes)
    }
}

/// Ends a node section: appends the end of the document, and zeros up to a
/// multiple of four bytes.
fn close_nodes(nodes: Vec<u8>) -> (r: Vec<u8>)
    ensures
        r@ == nodes@.push(file_end_byte()) + zeros(
            (align4(nodes@.len() + 1) - (nodes@.len() + 1)) as nat,
        ),
        r@.len() % 4 == 0,
{
    let mut nodes = nodes;
    nodes.push(StandardType::FileEnd.id() | ARRAY_MASK);
    let ghost ended = nodes@;
    let rest = nodes.len() % 4;
    let missing: usize = if rest == 0 {
        0
    } else {
        4 - rest
    };
    let mut k: usize = 0;
    assert(nodes@ == ended + zeros(0));
    while k < missing
        invariant
            k <= missing,
            nodes@ == ended + zeros(k as nat),
        decreases missing - k,
    {
        nodes.push(0);
        k += 1;
        assert(nodes@ == ended + zeros(k as nat));
    }
    nodes
}

/// Puts a document together: the header, and each section behind its length.
fn frame(options: Options, nodes: &Vec<u8>, data: &Vec<u8>) -> (r: Vec<u8>)
    requires
        nodes@.len() <= u32::MAX,
        data@.len() <= u32::MAX,
    ensures
        r@ == framing(options, nodes@, data@),
{
    let mut out: Vec<u8> = Vec::new();
    out.push(crate::SIGNATURE);
    out.push(options.compression.to_byte());
    out.push(options.encoding.to_byte());
    out.push(options.encoding.to_byte() ^ 0xFF);
    proof {
        assert(out@ == seq![
            crate::SIGNATURE,
            options.compression.spec_to_byte(),
            options.encoding.spec_to_byte(),
            options.encoding.spec_to_byte() ^ 0xFF,
        ]);
    }
    let node_len = be_bytes_u32(nodes.len() as u32);
    append_bytes(&mut out, &node_len);
    append_bytes(&mut out, nodes);
    let data_len = be_bytes_u32(data.len() as u32);
    append_bytes(&mut out, &data_len);
    append_bytes(&mut out, data);
    out
}

/// An element that is turned down among the first `n` elements inside `t`
/// is turned down among the first `m`, for every `m` from `n` on.
pub proof fn lemma_children_refused_from<F: FloatText>(
    t: Tree,
    n: nat,
    m: nat,
    before: Output,
    options: Options,
    floats: &F,
    e: KbinError,
)
    requires
        children_refused(t, n, before, options, floats, e),
        n <= m <= t.children.len(),
    ensures
        children_refused(t, m, before, options, floats, e),
    decreases m,
{
    if n < m {
        lemma_children_refused_from(t, n, (m - 1) as nat, before, options, floats, e);
    }
}

/// The parts of a document stand where its shape says.
pub proof fn lemma_frame_parts(options: Options, nodes: Seq<u8>, data: Seq<u8>)
    ensures
        framing(options, nodes, data).len() == 12 + nodes.len() + data.len(),
        framed(framing(options, nodes, data), options),
        framing(options, nodes, data).subrange(4, 8) == be_bytes(nodes.len(), 4),
        framing(options, nodes, data).subrange(8, 8 + nodes.len() as int) == nodes,
        framing(options, nodes, data).subrange(
            8 + nodes.len() as int,
            12 + nodes.len() as int,
        ) == be_bytes(data.len(), 4),
        framing(options, nodes, data).subrange(
            12 + nodes.len() as int,
            12 + nodes.len() as int + data.len() as int,
        ) == data,
{
    let bytes = framing(options, nodes, data);
    let head = seq![
        crate::SIGNATURE,
        options.compression.spec_to_byte(),
        options.encoding.spec_to_byte(),
        options.encoding.spec_to_byte() ^ 0xFF,
    ];
    crate::byte_order::lemma_be_bytes_len(nodes.len(), 4);
    crate::byte_order::lemma_be_bytes_len(data.len(), 4);
    assert(bytes[0] == head[0]);
    assert(bytes[1] == head[1]);
    assert(bytes[2] == head[2]);
    assert(bytes[3] == head[3]);
}

} // verus!
