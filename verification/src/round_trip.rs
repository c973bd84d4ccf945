use crate::byte_buffer::{align4, zeros, Cursors, WriteState};
use crate::byte_order::be_bytes;
use crate::element::{find_attr, Tree};
use crate::encoding_type::EncodingType;
use crate::error::KbinError;
use crate::hex::{hex_bytes, hex_text, hex_valid};
use crate::lanes::{format_lane, format_lanes, lane_fits, FloatText};
use crate::node_types::{LaneKind, StandardType};
use crate::options::{Compression, Options};
use crate::reader::{
    read_name, read_payload, read_record, spec_parse_header, Document, Record, ARRAY_MASK,
};
use crate::sixbit::{spec_code, spec_pack, spec_unpack};
use crate::text::decimal;
use crate::tree::{drawn, open_element, read_from, spec_decode, Build, Sketch};
use crate::writer::{
    array_count, file_end_byte, name_bytes, node_end_byte, node_type_of, reserved, spec_encode,
    type_byte, write_attr, write_attrs, write_children, write_element, write_start, write_value,
    Output,
};
use vstd::prelude::*;

verus! {

/// Whether a string survives being written and read in the encoding.
pub open spec fn string_kept(encoding: EncodingType, text: Seq<char>) -> bool {
    match encoding.spec_encode_bytes(text) {
        Ok(bytes) => encoding.spec_decode_bytes(bytes) == Ok::<Seq<char>, KbinError>(text),
        Err(_) => false,
    }
}

/// Whether a name survives being written and read with the options.
///
/// Packed names always do. Other names must survive the encoding and be
/// short enough for their length to fit into one byte.
pub open spec fn name_kept(options: Options, name: Seq<char>) -> bool {
    match options.compression {
        Compression::Compressed => true,
        Compression::Uncompressed => match options.encoding.spec_encode_text(name) {
            Ok(bytes) => options.encoding.spec_decode_bytes(bytes) == Ok::<Seq<char>, KbinError>(
                name,
            ),
            Err(_) => false,
        },
    }
}

/// The attributes by which an element that was read says what its value is.
pub open spec fn head_attrs(t: Tree, ty: StandardType, count: Option<nat>) -> Seq<
    (Seq<char>, Seq<char>),
> {
    let typed = seq![("__type"@, ty.spec_name()@)];
    match ty.spec_kind() {
        LaneKind::Marker => Seq::empty(),
        LaneKind::Text => typed,
        LaneKind::Binary => typed.push(("__size"@, decimal(hex_bytes(t.text).len()))),
        _ => match count {
            Some(n) => typed.push(("__count"@, decimal(n))),
            None => typed,
        },
    }
}

/// Whether the text of an element is as reading makes it.
///
/// An element without a value has no text; a string survives the encoding;
/// the text of a blob is small hexadecimal digits and nothing else; any other
/// text is the text of the bytes it denotes.
pub open spec fn value_kept(t: Tree, ty: StandardType, count: Option<nat>, options: Options)
    -> bool {
    match ty.spec_kind() {
        LaneKind::Marker => t.text.len() == 0,
        LaneKind::Text => string_kept(options.encoding, t.text),
        LaneKind::Binary => hex_valid(t.text) && hex_text(hex_bytes(t.text)) == t.text,
        LaneKind::Float => false,
        _ => {
            let n = match count {
                Some(n) => n,
                None => 1,
            };
            match ty.spec_format_bytes(t.text, n) {
                Ok(bytes) => ty.spec_parse_bytes(bytes) == Ok::<Seq<char>, KbinError>(t.text),
                Err(_) => false,
            }
        },
    }
}

/// Whether the attributes of an element are as reading makes them: first
/// those that say what the value is, then the others, each under a name of
/// its own that is not reserved, with a name and a value that survive.
pub open spec fn attrs_kept(t: Tree, ty: StandardType, count: Option<nat>, options: Options)
    -> bool {
    let head = head_attrs(t, ty, count);
    &&& t.attrs.len() >= head.len()
    &&& t.attrs.take(head.len() as int) == head
    &&& forall|i: int|
        head.len() <= i < t.attrs.len() ==> !reserved((#[trigger] t.attrs[i]).0) && name_kept(
            options,
            t.attrs[i].0,
        ) && string_kept(options.encoding, t.attrs[i].1)
    &&& forall|i: int, j: int|
        0 <= i < j < t.attrs.len() ==> (#[trigger] t.attrs[i]).0 != (#[trigger] t.attrs[j]).0
}

/// Whether an element itself, whatever is inside it, is as reading makes
/// elements: its type and the number of its values are told by its
/// attributes, and its name, its text and its attributes are as reading
/// makes them.
pub open spec fn kept(t: Tree, options: Options) -> bool {
    &&& node_type_of(t) matches Ok(ty)
    &&& array_count(t, ty) matches Ok(count)
    &&& name_kept(options, t.name)
    &&& value_kept(t, ty, count, options)
    &&& attrs_kept(t, ty, count, options)
}

/// Whether an element is as reading makes elements, and all elements inside it are.
///
/// Such an element holds no floating-point value. Where it has a value, its
/// first attribute is `__type` with the name of the type, followed by
/// `__size` for a blob and by `__count` for an array, which is not empty;
/// its other attributes have names of their own that are not reserved. Its
/// text is the text of its value as reading writes it, and its names and
/// strings survive the encoding.
pub open spec fn canonical(t: Tree, options: Options) -> bool
    decreases t,
{
    &&& kept(t, options)
    &&& forall|i: int| 0 <= i < t.children.len() ==> canonical(#[trigger] t.children[i], options)
}

/// What reading prescribes of an element that holds no floating-point value: the element.
pub open spec fn sketch_of(t: Tree) -> Sketch
    decreases t, 1int,
{
    Sketch {
        name: t.name,
        attrs: t.attrs,
        text: t.text,
        float_lanes: None,
        children: sketches_of(t, t.children.len()),
    }
}

/// What reading prescribes of the first `n` elements inside `t`.
pub open spec fn sketches_of(t: Tree, n: nat) -> Seq<Sketch>
    decreases t, 0int, n,
{
    if n == 0 || n > t.children.len() {
        Seq::empty()
    } else {
        sketches_of(t, (n - 1) as nat).push(sketch_of(t.children[n - 1]))
    }
}

/// The id of a type has no array bit, so that the bit can be set and told apart.
pub proof fn lemma_type_byte(ty: StandardType, count: Option<nat>)
    ensures
        type_byte(ty, count) & !ARRAY_MASK == ty.spec_id(),
        (type_byte(ty, count) & ARRAY_MASK != 0) == (ty.spec_count() == -1 || count is Some),
        node_end_byte() & !ARRAY_MASK == StandardType::NodeEnd.spec_id(),
        file_end_byte() & !ARRAY_MASK == StandardType::FileEnd.spec_id(),
{
    let id = ty.spec_id();
    assert(id < 64 || id == 190 || id == 191);
    assert((id | 0x40u8) & !0x40u8 == id && id & !0x40u8 == id && (id | 0x40u8) & 0x40u8 != 0 && id
        & 0x40u8 == 0) by (bit_vector)
        requires
            id < 64 || id == 190 || id == 191,
    ;
    assert((190u8 | 0x40u8) & !0x40u8 == 190u8) by (bit_vector);
    assert((191u8 | 0x40u8) & !0x40u8 == 191u8) by (bit_vector);
}

/// A packed name is unpacked wherever it stands.
pub proof fn lemma_unpack_within(name: Seq<char>, buf: Seq<u8>, at: nat)
    requires
        spec_pack(name) is Ok,
        at + spec_pack(name)->Ok_0.len() <= buf.len(),
        buf.subrange(at as int, (at + spec_pack(name)->Ok_0.len()) as int) == spec_pack(name)->Ok_0,
    ensures
        spec_unpack(buf, at) == Ok::<(Seq<char>, nat), KbinError>(
            (name, at + spec_pack(name)->Ok_0.len()),
        ),
{
    let packed = spec_pack(name)->Ok_0;
    crate::sixbit::lemma_name_codes(name);
    assert forall|i: int| 0 <= i < name.len() implies spec_code(#[trigger] name[i]) is Some by {
        let codes = crate::sixbit::name_codes(name)->Ok_0;
        assert(spec_code(name[i]) == Some(codes[i]));
    }
    crate::sixbit::lemma_sixbit_round_trip(name);
    let need = crate::sixbit::packed_len(name.len());
    assert(packed.len() == 1 + need);
    let window = buf.subrange(at as int, (at + packed.len()) as int);
    assert(buf[at as int] == window[0]);
    let left = buf.subrange((at + 1) as int, (at + 1 + need) as int);
    let right = packed.subrange(1, (1 + need) as int);
    assert forall|k: int| 0 <= k < need implies #[trigger] left[k] == right[k] by {
        assert(buf[at + 1 + k] == window[1 + k]);
    }
    assert(buf.subrange((at + 1) as int, (at + 1 + need) as int) == packed.subrange(
        1,
        (1 + need) as int,
    ));
}

/// A name that was written is read back wherever it stands.
pub proof fn lemma_name_read_back(
    doc: Document,
    options: Options,
    ty: StandardType,
    name: Seq<char>,
    at: nat,
)
    requires
        doc.compression == options.compression,
        doc.encoding == options.encoding,
        ty != StandardType::NodeEnd,
        ty != StandardType::FileEnd,
        name_kept(options, name),
        name_bytes(name, options) is Ok,
        at + name_bytes(name, options)->Ok_0.len() <= doc.nodes.len(),
        doc.nodes.subrange(at as int, (at + name_bytes(name, options)->Ok_0.len()) as int)
            == name_bytes(name, options)->Ok_0,
    ensures
        read_name(doc, ty, at) == Ok::<(Seq<char>, nat), KbinError>(
            (name, at + name_bytes(name, options)->Ok_0.len()),
        ),
{
    reveal(read_name);
    let bytes = name_bytes(name, options)->Ok_0;
    match options.compression {
        Compression::Compressed => {
            lemma_unpack_within(name, doc.nodes, at);
        },
        Compression::Uncompressed => {
            let body = options.encoding.spec_encode_text(name)->Ok_0;
            assert(bytes == seq![body.len() as u8] + body);
            let window = doc.nodes.subrange(at as int, (at + bytes.len()) as int);
            assert(doc.nodes[at as int] == window[0]);
            let left = doc.nodes.subrange((at + 1) as int, (at + 1 + body.len()) as int);
            assert forall|k: int| 0 <= k < body.len() implies #[trigger] left[k] == body[k] by {
                assert(doc.nodes[at + 1 + k] == window[1 + k]);
                assert(bytes[1 + k] == body[k]);
            }
            assert(doc.nodes.subrange((at + 1) as int, (at + 1 + body.len()) as int) == body);
        },
    }
}

/// The lanes that tokens are written into are as many bytes as the lanes are wide.
pub proof fn lemma_format_lanes_len(
    kind: LaneKind,
    size: nat,
    node_type: &'static str,
    tokens: Seq<Seq<char>>,
)
    requires
        lane_fits(kind, size),
        kind != LaneKind::Float,
        format_lanes(kind, size, node_type, tokens) is Ok,
    ensures
        format_lanes(kind, size, node_type, tokens)->Ok_0.len() == tokens.len() * size,
    decreases tokens.len(),
{
    if tokens.len() == 0 {
        assert(0 * size == 0) by (nonlinear_arith);
    } else {
        lemma_format_lanes_len(kind, size, node_type, tokens.drop_last());
        let lane = format_lane(kind, size, node_type, tokens.last())->Ok_0;
        assert(lane.len() == size) by {
            crate::byte_order::lemma_pow256_values();
            match kind {
                LaneKind::Signed | LaneKind::Unsigned => {
                    let signed = kind == LaneKind::Signed;
                    let v = crate::text::parse_int(
                        tokens.last(),
                        crate::lanes::int_bounds(signed, size).0,
                        crate::lanes::int_bounds(signed, size).1,
                    )->Some_0;
                    crate::byte_order::lemma_be_bytes_len(
                        (if v < 0 {
                            v + crate::byte_order::pow256(size)
                        } else {
                            v
                        }) as nat,
                        size,
                    );
                },
                LaneKind::Bool => {},
                _ => {
                    let parts = crate::tokens::pieces(tokens.last(), crate::tokens::Separator::Dot);
                    lemma_format_octets_len(parts, node_type);
                },
            }
        }
        assert((tokens.len() - 1) * size + size == tokens.len() * size) by (nonlinear_arith);
    }
}

/// The bytes that numerals denote are as many as the numerals.
pub proof fn lemma_format_octets_len(parts: Seq<Seq<char>>, node_type: &'static str)
    requires
        crate::lanes::format_octets(parts, node_type) is Ok,
    ensures
        crate::lanes::format_octets(parts, node_type)->Ok_0.len() == parts.len(),
    decreases parts.len(),
{
    if parts.len() > 0 {
        lemma_format_octets_len(parts.drop_last(), node_type);
    }
}

/// What reading prescribes of an element when its node has been read: its
/// name, its text, and the attributes that say what its value is.
pub open spec fn opened(t: Tree, ty: StandardType, count: Option<nat>) -> Sketch {
    Sketch {
        name: t.name,
        attrs: head_attrs(t, ty, count),
        text: t.text,
        float_lanes: None,
        children: Seq::empty(),
    }
}

/// Whether the node of an element carries the array bit.
pub open spec fn array_bit(ty: StandardType, count: Option<nat>) -> bool {
    ty.spec_count() == -1 || count is Some
}

/// The three reserved names differ from each other.
pub proof fn lemma_reserved_names()
    ensures
        "__type"@ != "__size"@,
        "__type"@ != "__count"@,
        "__size"@ != "__count"@,
        "__type"@.len() == 6,
{
    reveal_strlit("__type");
    reveal_strlit("__size");
    reveal_strlit("__count");
    assert("__type"@[2] == 't');
    assert("__size"@[2] == 's');
    assert("__count"@.len() == 7);
}

/// The bytes that the text of whole values denotes are those of whole values.
pub proof fn lemma_format_bytes_len(ty: StandardType, text: Seq<char>, n: nat)
    requires
        ty.has_lanes(),
        ty.spec_kind() != LaneKind::Float,
        ty.spec_format_bytes(text, n) is Ok,
    ensures
        ty.footprint() > 0,
        ty.spec_format_bytes(text, n)->Ok_0.len() == n * ty.footprint(),
{
    crate::lanes::lemma_lane_fits(ty);
    let tokens = crate::tokens::tokens(text);
    lemma_format_lanes_len(ty.spec_kind(), ty.spec_size() as nat, ty.spec_name(), tokens);
    let size = ty.spec_size() as nat;
    let count = ty.spec_count() as nat;
    assert((n * count) * size == n * (size * count)) by (nonlinear_arith);
    assert(size * count > 0) by (nonlinear_arith)
        requires
            size > 0,
            count > 0,
    ;
}

/// The bytes of the value of an element as they are written; none for an
/// element without a value.
pub open spec fn value_bytes(t: Tree, ty: StandardType, count: Option<nat>, options: Options)
    -> Seq<u8> {
    match ty.spec_kind() {
        LaneKind::Marker => Seq::empty(),
        LaneKind::Text => options.encoding.spec_encode_bytes(t.text)->Ok_0,
        LaneKind::Binary => hex_bytes(t.text),
        _ => match count {
            Some(n) => ty.spec_format_bytes(t.text, n)->Ok_0,
            None => ty.spec_format_bytes(t.text, 1)->Ok_0,
        },
    }
}

/// Bytes that were written behind their length are read back as the value of
/// a node that stands behind its length.
proof fn lemma_prefixed_value_read_back(
    ty: StandardType,
    is_array: bool,
    bytes: Seq<u8>,
    data0: WriteState,
    later: Seq<u8>,
)
    requires
        data0.wf(),
        ty.spec_kind() == LaneKind::Text || ty.spec_kind() == LaneKind::Binary || (ty.has_lanes()
            && is_array && bytes.len() % ty.footprint() == 0),
        data0.write_length_prefixed(bytes, ty.spec_name()) is Ok,
        data0.write_length_prefixed(bytes, ty.spec_name())->Ok_0.kept_in(later),
    ensures
        data0.write_length_prefixed(bytes, ty.spec_name())->Ok_0.wf(),
        data0.kept_in(later),
        read_payload(ty, is_array, later, data0.cursors()) == Ok::<(Seq<u8>, Cursors), KbinError>(
            (bytes, data0.write_length_prefixed(bytes, ty.spec_name())->Ok_0.cursors()),
        ),
{
    reveal(read_payload);
    crate::byte_buffer::lemma_writes_keep_alignment(data0, bytes);
    crate::byte_buffer::lemma_read_back_length_prefixed(data0, bytes, ty.spec_name(), later);
}

/// Bytes that were written as a single value are read back as the value of a
/// node with a single value.
proof fn lemma_single_value_read_back(
    ty: StandardType,
    bytes: Seq<u8>,
    data0: WriteState,
    later: Seq<u8>,
)
    requires
        data0.wf(),
        ty.has_lanes(),
        bytes.len() == ty.footprint(),
        bytes.len() > 0,
        data0.write_aligned(bytes)->Ok_0.kept_in(later),
    ensures
        data0.write_aligned(bytes)->Ok_0.wf(),
        data0.kept_in(later),
        read_payload(ty, false, later, data0.cursors()) == Ok::<(Seq<u8>, Cursors), KbinError>(
            (bytes, data0.write_aligned(bytes)->Ok_0.cursors()),
        ),
{
    reveal(read_payload);
    crate::byte_buffer::lemma_writes_keep_alignment(data0, bytes);
    if bytes.len() == 1 || bytes.len() == 2 {
        crate::byte_buffer::lemma_read_back_narrow(data0, bytes, later);
    } else {
        crate::byte_buffer::lemma_read_back_sized(data0, bytes, later);
    }
}

/// The value of an element that was written is read back.
pub proof fn lemma_value_read_back(
    t: Tree,
    ty: StandardType,
    count: Option<nat>,
    options: Options,
    data0: WriteState,
    later: Seq<u8>,
)
    requires
        data0.wf(),
        ty != StandardType::Attribute,
        ty != StandardType::NodeEnd,
        ty != StandardType::FileEnd,
        count matches Some(n) ==> n > 0 && ty.has_lanes(),
        value_kept(t, ty, count, options),
        write_value(t, ty, count, data0, options) is Ok,
        write_value(t, ty, count, data0, options)->Ok_0.kept_in(later),
    ensures
        write_value(t, ty, count, data0, options)->Ok_0.wf(),
        data0.kept_in(later),
        read_payload(ty, array_bit(ty, count), later, data0.cursors()) == Ok::<
            (Seq<u8>, Cursors),
            KbinError,
        >(
            (
                value_bytes(t, ty, count, options),
                write_value(t, ty, count, data0, options)->Ok_0.cursors(),
            ),
        ),
{
    reveal(write_value);
    reveal(read_payload);
    let kind = ty.spec_kind();
    let bytes = value_bytes(t, ty, count, options);
    if kind == LaneKind::Marker {
        assert(ty == StandardType::NodeStart);
    } else if kind == LaneKind::Text || kind == LaneKind::Binary {
        lemma_prefixed_value_read_back(ty, true, bytes, data0, later);
    } else {
        let n = match count {
            Some(n) => n,
            None => 1,
        };
        lemma_format_bytes_len(ty, t.text, n);
        let fp = ty.footprint();
        if count is Some {
            assert((n * fp) % fp == 0) by (nonlinear_arith)
                requires
                    fp > 0,
            ;
            lemma_prefixed_value_read_back(ty, true, bytes, data0, later);
        } else {
            assert(1 * fp == fp) by (nonlinear_arith);
            lemma_single_value_read_back(ty, bytes, data0, later);
        }
    }
}

/// The node of an element that was written, read with its value, makes the
/// element as far as its node says.
pub proof fn lemma_node_opens(t: Tree, ty: StandardType, count: Option<nat>, options: Options)
    requires
        ty != StandardType::Attribute,
        ty != StandardType::NodeEnd,
        ty != StandardType::FileEnd,
        count matches Some(n) ==> n > 0 && ty.has_lanes(),
        value_kept(t, ty, count, options),
    ensures
        open_element(
            Record {
                node_type: ty,
                is_array: array_bit(ty, count),
                name: t.name,
                payload: value_bytes(t, ty, count, options),
            },
            options.encoding,
        ) == Ok::<Sketch, KbinError>(opened(t, ty, count)),
{
    reveal(open_element);
    let name = ty.spec_name();
    let kind = ty.spec_kind();
    let bytes = value_bytes(t, ty, count, options);
    lemma_reserved_names();
    let bare = Sketch::bare(t.name);
    let typed = bare.set_attr("__type"@, name@);
    let none = Seq::<(Seq<char>, Seq<char>)>::empty();
    assert(bare.attrs == none);
    assert(find_attr(none, "__type"@) is None);
    assert(typed.attrs == seq![("__type"@, name@)]);
    assert(typed.attrs.drop_last() == none);
    assert(find_attr(none, "__size"@) is None);
    assert(find_attr(none, "__count"@) is None);
    assert(find_attr(typed.attrs, "__size"@) is None);
    assert(find_attr(typed.attrs, "__count"@) is None);
    if kind == LaneKind::Marker {
        assert(ty == StandardType::NodeStart);
        assert(t.text == Seq::<char>::empty());
    } else if kind == LaneKind::Text {
    } else if kind == LaneKind::Binary {
    } else {
        let n = match count {
            Some(n) => n,
            None => 1,
        };
        lemma_format_bytes_len(ty, t.text, n);
        let fp = ty.footprint();
        assert((n * fp) / fp == n) by (nonlinear_arith)
            requires
                fp > 0,
        ;
    }
}

/// Whether the node section of `doc` starts with `nodes`.
pub open spec fn nodes_within(doc: Document, nodes: Seq<u8>) -> bool {
    nodes.len() <= doc.nodes.len() && doc.nodes.take(nodes.len() as int) == nodes
}

/// Whether `doc` is a document written with `options` that holds all that `out` holds.
pub open spec fn holds(doc: Document, options: Options, out: Output) -> bool {
    &&& doc.compression == options.compression
    &&& doc.encoding == options.encoding
    &&& nodes_within(doc, out.nodes)
    &&& out.data.kept_in(doc.data)
}

/// A node section that starts with two parts starts with the first, and the
/// second stands behind it.
pub proof fn lemma_nodes_within(doc: Document, first: Seq<u8>, second: Seq<u8>)
    requires
        nodes_within(doc, first + second),
    ensures
        nodes_within(doc, first),
        doc.nodes.subrange(first.len() as int, (first.len() + second.len()) as int) == second,
{
    let all = first + second;
    let window = doc.nodes.take(all.len() as int);
    assert forall|k: int| 0 <= k < first.len() implies #[trigger] doc.nodes.take(
        first.len() as int,
    )[k] == first[k] by {
        assert(window[k] == all[k]);
    }
    assert(doc.nodes.take(first.len() as int) == first);
    let behind = doc.nodes.subrange(first.len() as int, (first.len() + second.len()) as int);
    assert forall|k: int| 0 <= k < second.len() implies #[trigger] behind[k] == second[k] by {
        assert(window[first.len() + k] == all[first.len() + k]);
    }
}

/// The two sections after the node of an element and its value have been written.
pub open spec fn node_written(
    t: Tree,
    ty: StandardType,
    count: Option<nat>,
    out: Output,
    options: Options,
) -> Output {
    Output {
        nodes: out.nodes.push(type_byte(ty, count)) + name_bytes(t.name, options)->Ok_0,
        data: write_value(t, ty, count, out.data, options)->Ok_0,
    }
}

/// The node that stands for an element as it is read.
pub open spec fn start_record(t: Tree, ty: StandardType, count: Option<nat>, options: Options)
    -> Record {
    Record {
        node_type: ty,
        is_array: array_bit(ty, count),
        name: t.name,
        payload: value_bytes(t, ty, count, options),
    }
}

/// A node is read as its type byte, its name and its value are read.
pub proof fn lemma_record_from_parts(
    doc: Document,
    pos: nat,
    cur: Cursors,
    ty: StandardType,
    is_array: bool,
    name: Seq<char>,
    behind: nat,
    payload: Seq<u8>,
    next: Cursors,
)
    requires
        pos < doc.nodes.len(),
        doc.nodes[pos as int] & !ARRAY_MASK == ty.spec_id(),
        (doc.nodes[pos as int] & ARRAY_MASK != 0) == is_array,
        read_name(doc, ty, pos + 1) == Ok::<(Seq<char>, nat), KbinError>((name, behind)),
        read_payload(ty, is_array, doc.data, cur) == Ok::<(Seq<u8>, Cursors), KbinError>(
            (payload, next),
        ),
    ensures
        read_record(doc, pos, cur) == Ok::<(Record, nat, Cursors), KbinError>(
            (Record { node_type: ty, is_array, name, payload }, behind, next),
        ),
{
    reveal(read_record);
    crate::node_types::lemma_from_u8_of_id(ty);
}

/// Where a node section starts with nodes, a type byte and a name, the type
/// byte and the name stand behind the nodes.
pub proof fn lemma_node_within(doc: Document, nodes: Seq<u8>, raw: u8, name: Seq<u8>)
    requires
        nodes_within(doc, nodes.push(raw) + name),
    ensures
        nodes_within(doc, nodes),
        nodes.len() < doc.nodes.len(),
        doc.nodes[nodes.len() as int] == raw,
        nodes.len() + 1 + name.len() <= doc.nodes.len(),
        doc.nodes.subrange((nodes.len() + 1) as int, (nodes.len() + 1 + name.len()) as int)
            == name,
        (nodes.push(raw) + name).len() == nodes.len() + 1 + name.len(),
{
    let head = nodes.push(raw);
    lemma_nodes_within(doc, head, name);
    assert(head == nodes + seq![raw]);
    lemma_nodes_within(doc, nodes, seq![raw]);
    let one = doc.nodes.subrange(nodes.len() as int, (nodes.len() + 1) as int);
    assert(one[0] == raw);
}

/// The attribute node as it is read.
pub open spec fn attr_record(attr: (Seq<char>, Seq<char>), options: Options) -> Record {
    Record {
        node_type: StandardType::Attribute,
        is_array: false,
        name: attr.0,
        payload: options.encoding.spec_encode_bytes(attr.1)->Ok_0,
    }
}

/// An attribute that was written is read back.
pub proof fn lemma_attr_read_back(
    attr: (Seq<char>, Seq<char>),
    options: Options,
    out: Output,
    doc: Document,
)
    requires
        !reserved(attr.0),
        name_kept(options, attr.0),
        out.data.wf(),
        write_attr(attr, out, options) is Ok,
        holds(doc, options, write_attr(attr, out, options)->Ok_0),
    ensures
        holds(doc, options, out),
        read_record(doc, out.nodes.len(), out.data.cursors()) == Ok::<
            (Record, nat, Cursors),
            KbinError,
        >(
            (
                attr_record(attr, options),
                write_attr(attr, out, options)->Ok_0.nodes.len(),
                write_attr(attr, out, options)->Ok_0.data.cursors(),
            ),
        ),
{
    reveal(write_attr);
    reveal(read_payload);
    let ty = StandardType::Attribute;
    let name = name_bytes(attr.0, options)->Ok_0;
    let value = options.encoding.spec_encode_bytes(attr.1)->Ok_0;
    let after = write_attr(attr, out, options)->Ok_0;
    crate::byte_buffer::lemma_writes_keep_alignment(out.data, value);
    lemma_type_byte(ty, None);
    lemma_node_within(doc, out.nodes, ty.spec_id(), name);
    lemma_name_read_back(doc, options, ty, attr.0, out.nodes.len() + 1);
    crate::byte_buffer::lemma_read_back_length_prefixed(out.data, value, ty.spec_name(), doc.data);
    lemma_record_from_parts(
        doc,
        out.nodes.len(),
        out.data.cursors(),
        ty,
        false,
        attr.0,
        after.nodes.len(),
        value,
        after.data.cursors(),
    );
}

/// The record of an end marker.
pub open spec fn end_record(ty: StandardType) -> Record {
    Record { node_type: ty, is_array: true, name: Seq::empty(), payload: Seq::empty() }
}

/// An end marker that was written is read back, and reads nothing else.
pub proof fn lemma_end_read_back(doc: Document, ty: StandardType, pos: nat, cur: Cursors)
    requires
        ty == StandardType::NodeEnd || ty == StandardType::FileEnd,
        pos < doc.nodes.len(),
        doc.nodes[pos as int] == ty.spec_id() | ARRAY_MASK,
    ensures
        read_record(doc, pos, cur) == Ok::<(Record, nat, Cursors), KbinError>(
            (end_record(ty), pos + 1, cur),
        ),
{
    reveal(read_name);
    reveal(read_payload);
    reveal(read_record);
    let raw = doc.nodes[pos as int];
    let id = ty.spec_id();
    assert((id | 0x40u8) & !0x40u8 == id && (id | 0x40u8) & 0x40u8 != 0) by (bit_vector)
        requires
            id == 190 || id == 191,
    ;
}

/// Writing a value leaves the data section in order.
pub proof fn lemma_write_value_wf(
    t: Tree,
    ty: StandardType,
    count: Option<nat>,
    data: WriteState,
    options: Options,
)
    requires
        data.wf(),
        write_value(t, ty, count, data, options) is Ok,
    ensures
        write_value(t, ty, count, data, options)->Ok_0.wf(),
{
    reveal(write_value);
    let bytes = value_bytes(t, ty, count, options);
    crate::byte_buffer::lemma_writes_keep_alignment(data, bytes);
}

/// Writing attributes leaves the data section in order.
pub proof fn lemma_write_attrs_wf(
    attrs: Seq<(Seq<char>, Seq<char>)>,
    out: Output,
    options: Options,
)
    requires
        out.data.wf(),
        write_attrs(attrs, out, options) is Ok,
    ensures
        write_attrs(attrs, out, options)->Ok_0.data.wf(),
    decreases attrs.len(),
{
    reveal(write_attr);
    if attrs.len() > 0 {
        lemma_write_attrs_wf(attrs.drop_last(), out, options);
        let head = write_attrs(attrs.drop_last(), out, options)->Ok_0;
        let value = options.encoding.spec_encode_bytes(attrs.last().1)->Ok_0;
        crate::byte_buffer::lemma_writes_keep_alignment(head.data, value);
    }
}

/// Writing the start of an element leaves the data section in order.
pub proof fn lemma_write_start_wf(t: Tree, out: Output, options: Options)
    requires
        out.data.wf(),
        write_start(t, out, options) is Ok,
    ensures
        write_start(t, out, options)->Ok_0.data.wf(),
{
    let ty = node_type_of(t)->Ok_0;
    let count = array_count(t, ty)->Ok_0;
    lemma_write_value_wf(t, ty, count, out.data, options);
    lemma_write_attrs_wf(t.attrs, node_written(t, ty, count, out, options), options);
}

/// Writing an element leaves the data section in order.
pub proof fn lemma_write_element_wf(t: Tree, out: Output, options: Options)
    requires
        out.data.wf(),
        write_element(t, out, options) is Ok,
    ensures
        write_element(t, out, options)->Ok_0.data.wf(),
    decreases t, 1int,
{
    lemma_write_start_wf(t, out, options);
    lemma_write_children_wf(t, t.children.len(), write_start(t, out, options)->Ok_0, options);
}

/// Writing the elements inside an element leaves the data section in order.
pub proof fn lemma_write_children_wf(t: Tree, n: nat, out: Output, options: Options)
    requires
        out.data.wf(),
        n <= t.children.len(),
        write_children(t, n, out, options) is Ok,
    ensures
        write_children(t, n, out, options)->Ok_0.data.wf(),
    decreases t, 0int, n,
{
    if n > 0 {
        lemma_write_children_wf(t, (n - 1) as nat, out, options);
        lemma_write_element_wf(
            t.children[n - 1],
            write_children(t, (n - 1) as nat, out, options)->Ok_0,
            options,
        );
    }
}

/// The node of an element that was written is read back with its value.
pub proof fn lemma_start_read_back(
    t: Tree,
    ty: StandardType,
    count: Option<nat>,
    options: Options,
    out: Output,
    doc: Document,
)
    requires
        ty != StandardType::Attribute,
        ty != StandardType::NodeEnd,
        ty != StandardType::FileEnd,
        count matches Some(n) ==> n > 0 && ty.has_lanes(),
        name_kept(options, t.name),
        value_kept(t, ty, count, options),
        name_bytes(t.name, options) is Ok,
        write_value(t, ty, count, out.data, options) is Ok,
        out.data.wf(),
        holds(doc, options, node_written(t, ty, count, out, options)),
    ensures
        holds(doc, options, out),
        read_record(doc, out.nodes.len(), out.data.cursors()) == Ok::<
            (Record, nat, Cursors),
            KbinError,
        >(
            (
                start_record(t, ty, count, options),
                node_written(t, ty, count, out, options).nodes.len(),
                node_written(t, ty, count, out, options).data.cursors(),
            ),
        ),
{
    let name = name_bytes(t.name, options)->Ok_0;
    let after = node_written(t, ty, count, out, options);
    lemma_type_byte(ty, count);
    lemma_node_within(doc, out.nodes, type_byte(ty, count), name);
    lemma_name_read_back(doc, options, ty, t.name, out.nodes.len() + 1);
    lemma_value_read_back(t, ty, count, options, out.data, doc.data);
    lemma_record_from_parts(
        doc,
        out.nodes.len(),
        out.data.cursors(),
        ty,
        array_bit(ty, count),
        t.name,
        after.nodes.len(),
        value_bytes(t, ty, count, options),
        after.data.cursors(),
    );
}

/// What is still read of a document after all that `out` holds has been
/// read, with the elements of `stack` open.
pub open spec fn reading(doc: Document, out: Output, stack: Seq<Sketch>) -> Result<
    Sketch,
    KbinError,
> {
    read_from(doc, out.nodes.len(), out.data.cursors(), Build { stack, root: None })
}

/// A name that no attribute has is not found.
pub proof fn lemma_find_attr_none(attrs: Seq<(Seq<char>, Seq<char>)>, name: Seq<char>)
    requires
        forall|i: int| 0 <= i < attrs.len() ==> (#[trigger] attrs[i]).0 != name,
    ensures
        find_attr(attrs, name) is None,
    decreases attrs.len(),
{
    if attrs.len() > 0 {
        let head = attrs.drop_last();
        assert forall|i: int| 0 <= i < head.len() implies (#[trigger] head[i]).0 != name by {
            assert(head[i] == attrs[i]);
        }
        lemma_find_attr_none(head, name);
        assert(attrs[attrs.len() - 1].0 != name);
    }
}

/// The first attribute of a name is found.
pub proof fn lemma_find_attr_first(attrs: Seq<(Seq<char>, Seq<char>)>, name: Seq<char>, at: int)
    requires
        0 <= at < attrs.len(),
        attrs[at].0 == name,
        forall|i: int| 0 <= i < at ==> (#[trigger] attrs[i]).0 != name,
    ensures
        find_attr(attrs, name) == Some(at),
    decreases attrs.len(),
{
    let head = attrs.drop_last();
    if at == attrs.len() - 1 {
        assert forall|i: int| 0 <= i < head.len() implies (#[trigger] head[i]).0 != name by {
            assert(head[i] == attrs[i]);
        }
        lemma_find_attr_none(head, name);
    } else {
        assert(head[at] == attrs[at]);
        assert forall|i: int| 0 <= i < at implies (#[trigger] head[i]).0 != name by {
            assert(head[i] == attrs[i]);
        }
        lemma_find_attr_first(head, name, at);
    }
}

/// The sketch `top` with the first `k` attributes of `t`, or with its own
/// where those are more.
pub open spec fn with_attrs_of(top: Sketch, t: Tree, k: nat) -> Sketch {
    if k <= top.attrs.len() {
        top
    } else {
        Sketch { attrs: t.attrs.take(k as int), ..top }
    }
}

/// What one attribute node that was written comes to when it is read: the
/// innermost open element gets the attribute.
pub proof fn lemma_attr_step(
    doc: Document,
    options: Options,
    attr: (Seq<char>, Seq<char>),
    before: Output,
    after: Output,
    stack: Seq<Sketch>,
    top: Sketch,
)
    requires
        doc.encoding == options.encoding,
        string_kept(options.encoding, attr.1),
        find_attr(top.attrs, attr.0) is None,
        read_record(doc, before.nodes.len(), before.data.cursors()) == Ok::<
            (Record, nat, Cursors),
            KbinError,
        >((attr_record(attr, options), after.nodes.len(), after.data.cursors())),
    ensures
        reading(doc, before, stack.push(top)) == reading(
            doc,
            after,
            stack.push(Sketch { attrs: top.attrs.push(attr), ..top }),
        ),
{
    let build = Build { stack: stack.push(top), root: None };
    crate::tree::lemma_read_from(doc, before.nodes.len(), before.data.cursors(), build);
    let record = attr_record(attr, options);
    assert(build.stack.last() == top);
    assert(build.stack.drop_last() == stack);
    assert(top.set_attr(attr.0, attr.1).attrs == top.attrs.push(attr));
}

/// The attributes of an element that were written are read back, and make
/// the attributes of the element.
pub proof fn lemma_attrs_read_back(
    t: Tree,
    k: nat,
    options: Options,
    out: Output,
    doc: Document,
    stack: Seq<Sketch>,
    top: Sketch,
)
    requires
        k <= t.attrs.len(),
        top.attrs.len() <= t.attrs.len(),
        top.attrs == t.attrs.take(top.attrs.len() as int),
        forall|i: int| 0 <= i < top.attrs.len() ==> reserved((#[trigger] t.attrs[i]).0),
        forall|i: int|
            top.attrs.len() <= i < t.attrs.len() ==> !reserved((#[trigger] t.attrs[i]).0)
                && name_kept(options, t.attrs[i].0) && string_kept(options.encoding, t.attrs[i].1),
        forall|i: int, j: int|
            0 <= i < j < t.attrs.len() ==> (#[trigger] t.attrs[i]).0 != (#[trigger] t.attrs[j]).0,
        out.data.wf(),
        write_attrs(t.attrs.take(k as int), out, options) is Ok,
        holds(doc, options, write_attrs(t.attrs.take(k as int), out, options)->Ok_0),
    ensures
        holds(doc, options, out),
        reading(doc, out, stack.push(top)) == reading(
            doc,
            write_attrs(t.attrs.take(k as int), out, options)->Ok_0,
            stack.push(with_attrs_of(top, t, k)),
        ),
    decreases k,
{
    reveal(write_attr);
    let here = t.attrs.take(k as int);
    if k == 0 {
        assert(write_attrs(here, out, options) == Ok::<Output, KbinError>(out));
    } else {
        let fewer = t.attrs.take(k - 1);
        assert(here.drop_last() == fewer);
        let attr = t.attrs[k - 1];
        assert(here.last() == attr);
        let before = write_attrs(fewer, out, options)->Ok_0;
        let after = write_attrs(here, out, options)->Ok_0;
        assert(write_attr(attr, before, options) == Ok::<Output, KbinError>(after));
        lemma_write_attrs_wf(fewer, out, options);
        if k - 1 < top.attrs.len() {
            assert(reserved(t.attrs[k - 1].0));
            assert(after == before);
            lemma_attrs_read_back(t, (k - 1) as nat, options, out, doc, stack, top);
        } else {
            assert(!reserved(t.attrs[k - 1].0));
            lemma_attr_read_back(attr, options, before, doc);
            lemma_attrs_read_back(t, (k - 1) as nat, options, out, doc, stack, top);
            let sofar = with_attrs_of(top, t, (k - 1) as nat);
            assert(sofar.attrs == fewer);
            assert forall|i: int| 0 <= i < fewer.len() implies (#[trigger] fewer[i]).0
                != attr.0 by {
                assert(fewer[i] == t.attrs[i]);
            }
            lemma_find_attr_none(fewer, attr.0);
            lemma_attr_step(doc, options, attr, before, after, stack, sofar);
            assert(fewer.push(attr) == here);
        }
    }
}

/// What the node of an element comes to when it is read: the element is opened.
pub proof fn lemma_start_step(
    doc: Document,
    options: Options,
    t: Tree,
    ty: StandardType,
    count: Option<nat>,
    before: Output,
    after: Output,
    stack: Seq<Sketch>,
)
    requires
        doc.encoding == options.encoding,
        ty != StandardType::Attribute,
        ty != StandardType::NodeEnd,
        ty != StandardType::FileEnd,
        count matches Some(n) ==> n > 0 && ty.has_lanes(),
        value_kept(t, ty, count, options),
        read_record(doc, before.nodes.len(), before.data.cursors()) == Ok::<
            (Record, nat, Cursors),
            KbinError,
        >((start_record(t, ty, count, options), after.nodes.len(), after.data.cursors())),
    ensures
        reading(doc, before, stack) == reading(doc, after, stack.push(opened(t, ty, count))),
{
    let build = Build { stack, root: None };
    crate::tree::lemma_read_from(doc, before.nodes.len(), before.data.cursors(), build);
    lemma_node_opens(t, ty, count, options);
}

/// What the end of an element comes to when it is read: the innermost open
/// element is closed.
pub proof fn lemma_end_step(doc: Document, before: Output, stack: Seq<Sketch>, top: Sketch)
    requires
        before.nodes.len() < doc.nodes.len(),
        doc.nodes[before.nodes.len() as int] == node_end_byte(),
    ensures
        (Build { stack: stack.push(top), root: None }).close() is Ok,
        reading(doc, before, stack.push(top)) == read_from(
            doc,
            before.nodes.len() + 1,
            before.data.cursors(),
            (Build { stack: stack.push(top), root: None }).close()->Ok_0,
        ),
{
    let build = Build { stack: stack.push(top), root: None };
    lemma_end_read_back(doc, StandardType::NodeEnd, before.nodes.len(), before.data.cursors());
    crate::tree::lemma_read_from(doc, before.nodes.len(), before.data.cursors(), build);
}

/// The element `top` with what reading prescribes of the first `n` elements inside `t`.
pub open spec fn with_children_of(top: Sketch, t: Tree, n: nat) -> Sketch {
    Sketch { children: sketches_of(t, n), ..top }
}

/// The innermost open element closed as the last child of the one around it.
pub proof fn lemma_close_child(stack: Seq<Sketch>, top: Sketch, child: Sketch)
    ensures
        (Build { stack: stack.push(top).push(child), root: None }).close() == Ok::<
            Build,
            KbinError,
        >(Build { stack: stack.push(top.append_child(child)), root: None }),
{
    let s = stack.push(top).push(child);
    assert(s.drop_last() == stack.push(top));
    assert(s.drop_last().drop_last() == stack);
    assert(s.drop_last().last() == top);
}

/// An element that was written is read back, with all that is inside it:
/// reading its nodes opens it, fills it and closes it.
pub proof fn lemma_element_read_back(
    t: Tree,
    options: Options,
    out: Output,
    doc: Document,
    stack: Seq<Sketch>,
)
    requires
        canonical(t, options),
        out.data.wf(),
        write_element(t, out, options) is Ok,
        holds(doc, options, write_element(t, out, options)->Ok_0),
    ensures
        holds(doc, options, out),
        (Build { stack: stack.push(sketch_of(t)), root: None }).close() is Ok,
        reading(doc, out, stack) == read_from(
            doc,
            write_element(t, out, options)->Ok_0.nodes.len(),
            write_element(t, out, options)->Ok_0.data.cursors(),
            (Build { stack: stack.push(sketch_of(t)), root: None }).close()->Ok_0,
        ),
    decreases t, 1int,
{
    let ty = node_type_of(t)->Ok_0;
    let count = array_count(t, ty)->Ok_0;
    let head = head_attrs(t, ty, count);
    let noded = node_written(t, ty, count, out, options);
    let started = write_start(t, out, options)->Ok_0;
    let filled = write_children(t, t.children.len(), started, options)->Ok_0;
    let done = write_element(t, out, options)->Ok_0;
    assert(started == write_attrs(t.attrs, noded, options)->Ok_0);
    assert(done.nodes == filled.nodes.push(node_end_byte()));
    assert(done.data == filled.data);
    // The sections stay in order while the element is written.
    lemma_write_value_wf(t, ty, count, out.data, options);
    lemma_write_start_wf(t, out, options);
    lemma_write_children_wf(t, t.children.len(), started, options);
    // The end of the element stands behind all that is inside it.
    assert(filled.nodes.push(node_end_byte()) == filled.nodes + seq![node_end_byte()]);
    lemma_nodes_within(doc, filled.nodes, seq![node_end_byte()]);
    let one = doc.nodes.subrange(filled.nodes.len() as int, (filled.nodes.len() + 1) as int);
    assert(one[0] == node_end_byte());
    let open = opened(t, ty, count);
    let top = Sketch { attrs: t.attrs, ..open };
    // From the end backwards: the children, the attributes, the node.
    lemma_children_read_back(t, t.children.len(), options, started, doc, stack, top);
    lemma_reserved_names();
    assert(t.attrs.take(t.attrs.len() as int) == t.attrs);
    assert forall|i: int| 0 <= i < head.len() implies reserved((#[trigger] t.attrs[i]).0) by {
        assert(t.attrs.take(head.len() as int)[i] == head[i]);
    }
    lemma_attrs_read_back(t, t.attrs.len(), options, noded, doc, stack, open);
    assert(with_attrs_of(open, t, t.attrs.len()) == top);
    lemma_start_read_back(t, ty, count, options, out, doc);
    lemma_start_step(doc, options, t, ty, count, out, noded, stack);
    assert(with_children_of(top, t, t.children.len()) == sketch_of(t));
    lemma_end_step(doc, filled, stack, sketch_of(t));
}

/// The elements inside an element that were written are read back, one
/// after the other, each as the last child of the element.
pub proof fn lemma_children_read_back(
    t: Tree,
    n: nat,
    options: Options,
    out: Output,
    doc: Document,
    stack: Seq<Sketch>,
    top: Sketch,
)
    requires
        forall|i: int| 0 <= i < t.children.len() ==> canonical(#[trigger] t.children[i], options),
        n <= t.children.len(),
        out.data.wf(),
        write_children(t, n, out, options) is Ok,
        holds(doc, options, write_children(t, n, out, options)->Ok_0),
    ensures
        holds(doc, options, out),
        reading(doc, out, stack.push(with_children_of(top, t, 0))) == reading(
            doc,
            write_children(t, n, out, options)->Ok_0,
            stack.push(with_children_of(top, t, n)),
        ),
    decreases t, 0int, n,
{
    if n > 0 {
        let k = (n - 1) as nat;
        let child = t.children[n - 1];
        let before = write_children(t, k, out, options)->Ok_0;
        let after = write_children(t, n, out, options)->Ok_0;
        assert(write_element(child, before, options) == Ok::<Output, KbinError>(after));
        lemma_write_children_wf(t, k, out, options);
        let sofar = with_children_of(top, t, k);
        lemma_element_read_back(child, options, before, doc, stack.push(sofar));
        lemma_children_read_back(t, k, options, out, doc, stack, top);
        lemma_close_child(stack, sofar, sketch_of(child));
        assert(sofar.append_child(sketch_of(child)) == with_children_of(top, t, n));
    }
}

/// The two sections of the document that holds `t`: the node section with
/// the end of the document and its padding, and the data section.
pub open spec fn sections_of(t: Tree, options: Options) -> Document {
    let out = write_element(
        t,
        Output { nodes: Seq::empty(), data: WriteState::start() },
        options,
    )->Ok_0;
    let ended = out.nodes.push(file_end_byte());
    Document {
        compression: options.compression,
        encoding: options.encoding,
        nodes: ended + zeros((align4(ended.len()) - ended.len()) as nat),
        data: out.data.data,
    }
}

/// A document that was written is taken apart into the sections that were written.
pub proof fn lemma_header_read_back(t: Tree, options: Options)
    requires
        spec_encode(t, options) is Ok,
    ensures
        spec_parse_header(spec_encode(t, options)->Ok_0) == Ok::<Document, KbinError>(
            sections_of(t, options),
        ),
{
    let doc = sections_of(t, options);
    let bytes = spec_encode(t, options)->Ok_0;
    let head = seq![
        crate::SIGNATURE,
        options.compression.spec_to_byte(),
        options.encoding.spec_to_byte(),
        options.encoding.spec_to_byte() ^ 0xFF,
    ];
    let n = doc.nodes.len() as int;
    let d = doc.data.len() as int;
    let len_n = be_bytes(n as nat, 4);
    let len_d = be_bytes(d as nat, 4);
    crate::byte_order::lemma_be_bytes_len(n as nat, 4);
    crate::byte_order::lemma_be_bytes_len(d as nat, 4);
    crate::byte_order::lemma_pow256_values();
    crate::byte_order::lemma_be_value_of_bytes(n as nat, 4);
    crate::byte_order::lemma_be_value_of_bytes(d as nat, 4);
    assert(bytes == head + len_n + doc.nodes + len_d + doc.data);
    assert(bytes.len() == 12 + n + d);
    assert(bytes[0] == head[0]);
    assert(bytes[1] == head[1]);
    assert(bytes[2] == head[2]);
    assert(bytes[3] == head[3]);
    assert(bytes.subrange(4, 8) == len_n);
    assert(bytes.subrange(8, 8 + n) == doc.nodes);
    assert(bytes.subrange(8 + n, 12 + n) == len_d);
    assert(bytes.subrange(12 + n, 12 + n + d) == doc.data);
    crate::encoding_type::lemma_encoding_tag_round_trip(options.encoding, 0);
}

/// Reading what was written gives what was written: an element that is as
/// reading makes elements, written and read with the same options, is read
/// as it was.
pub proof fn lemma_tree_round_trip(t: Tree, options: Options)
    requires
        canonical(t, options),
        spec_encode(t, options) is Ok,
    ensures
        spec_decode(spec_encode(t, options)->Ok_0) == Ok::<(Sketch, EncodingType), KbinError>(
            (sketch_of(t), options.encoding),
        ),
{
    let start = Output { nodes: Seq::empty(), data: WriteState::start() };
    let out = write_element(t, start, options)->Ok_0;
    let doc = sections_of(t, options);
    lemma_header_read_back(t, options);
    let ended = out.nodes.push(file_end_byte());
    let pad = zeros((align4(ended.len()) - ended.len()) as nat);
    assert(doc.nodes == out.nodes + (seq![file_end_byte()] + pad));
    assert(doc.nodes.take(out.nodes.len() as int) == out.nodes);
    assert(doc.nodes[out.nodes.len() as int] == file_end_byte());
    let none = Seq::<Sketch>::empty();
    lemma_element_read_back(t, options, start, doc, none);
    let closed = Build { stack: none, root: Some(sketch_of(t)) };
    assert(none.push(sketch_of(t)).len() == 1);
    assert((Build { stack: none.push(sketch_of(t)), root: None }).close() == Ok::<
        Build,
        KbinError,
    >(closed));
    crate::tree::lemma_read_from(doc, out.nodes.len(), out.data.cursors(), closed);
    assert(start.data.cursors() == Cursors::start());
    assert((Build { stack: none, root: None }) == Build::start());
}

/// What reading prescribes of the elements inside `t` is prescribed of each in its place.
pub proof fn lemma_sketches_of(t: Tree, n: nat)
    requires
        n <= t.children.len(),
    ensures
        sketches_of(t, n).len() == n,
        forall|i: int| 0 <= i < n ==> (#[trigger] sketches_of(t, n)[i]) == sketch_of(t.children[i]),
    decreases n,
{
    if n > 0 {
        lemma_sketches_of(t, (n - 1) as nat);
    }
}

/// An element that holds no floating-point value is prescribed in full: only
/// the element itself is what reading prescribes of it.
pub proof fn lemma_drawn_in_full<F: FloatText>(t: Tree, read: Tree, floats: &F)
    requires
        drawn(sketch_of(t), read, floats),
    ensures
        read == t,
    decreases t,
{
    lemma_sketches_of(t, t.children.len());
    let s = sketch_of(t);
    assert forall|i: int| 0 <= i < t.children.len() implies read.children[i] == t.children[i] by {
        assert(drawn(s.children[i], read.children[i], floats));
        lemma_drawn_in_full(t.children[i], read.children[i], floats);
    }
    assert(read.children == t.children);
}

/// What is read from a document that was written is what was written: if an
/// element that is as reading makes elements is written, then whatever
/// element the document prescribes is that element, and writing it again
/// gives the same document.
pub proof fn lemma_read_what_was_written<F: FloatText>(
    t: Tree,
    options: Options,
    read: Tree,
    floats: &F,
)
    requires
        canonical(t, options),
        spec_encode(t, options) is Ok,
        spec_decode(spec_encode(t, options)->Ok_0) matches Ok((sketch, _)) ==> drawn(
            sketch,
            read,
            floats,
        ),
    ensures
        spec_decode(spec_encode(t, options)->Ok_0) is Ok,
        spec_decode(spec_encode(t, options)->Ok_0)->Ok_0.1 == options.encoding,
        read == t,
        spec_encode(read, options) == spec_encode(t, options),
{
    lemma_tree_round_trip(t, options);
    lemma_drawn_in_full(t, read, floats);
}

/// A text that does not end with the character of code zero survives being
/// written and read: in UTF-8 always, in ISO 8859-1 where its characters are
/// below 256, and in ASCII where they are below 128.
pub proof fn lemma_string_kept(encoding: EncodingType, text: Seq<char>)
    requires
        text.len() > 0 ==> text.last() != '\0',
        match encoding {
            EncodingType::Utf8 => true,
            EncodingType::Iso8859_1 => crate::encoding_type::chars_below(text, 0x100),
            EncodingType::Ascii => crate::encoding_type::chars_below(text, 0x80),
            _ => false,
        },
    ensures
        string_kept(encoding, text),
{
    if encoding == EncodingType::Utf8 {
        crate::encoding_type::lemma_text_survives_in_utf_8(text);
    } else {
        crate::encoding_type::lemma_single_byte_text_survives(text);
    }
}

} // verus!
