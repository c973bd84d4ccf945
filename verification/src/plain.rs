use crate::byte_buffer::Cursors;
use crate::element::{find_attr, with_attr, Tree};
use crate::error::KbinError;
use crate::hex::{hex_bytes, hex_text};
use crate::lanes::FloatText;
use crate::node_types::{LaneKind, StandardType};
use crate::options::Options;
use crate::reader::{read_record, spec_parse_header, Document, Record};
use crate::round_trip::{
    attrs_kept, canonical, head_attrs, kept, lemma_drawn_in_full, lemma_find_attr_first,
    lemma_find_attr_none, lemma_reserved_names, lemma_tree_round_trip, name_kept, sketch_of, string_kept, value_kept,
};
use crate::text::decimal;
use crate::tree::{drawn, open_element, read_from, spec_decode, Build, Sketch};
use crate::writer::{array_count, node_type_of, reserved, spec_encode};
use vstd::prelude::*;

verus! {

/// Whether a node is plain: one that is written again as it was read.
///
/// A plain node holds no floating-point value and no empty array; a single
/// value has the bytes of one value; an attribute has no reserved name; and
/// the name and the strings survive the encoding.
pub open spec fn record_plain(record: Record, options: Options) -> bool {
    let ty = record.node_type;
    let decoded = options.encoding.spec_decode_bytes(record.payload);
    &&& ty != StandardType::NodeEnd && ty != StandardType::FileEnd ==> name_kept(
        options,
        record.name,
    )
    &&& match ty.spec_kind() {
        LaneKind::Marker => ty == StandardType::Attribute ==> !reserved(record.name) && (
        decoded matches Ok(text) ==> string_kept(options.encoding, text)),
        LaneKind::Text => decoded matches Ok(text) ==> string_kept(options.encoding, text),
        LaneKind::Binary => true,
        LaneKind::Float => false,
        _ => if record.is_array {
            0 < record.payload.len() <= u32::MAX
        } else {
            record.payload.len() == ty.footprint()
        },
    }
}

/// The element of a sketch without what is inside it.
pub open spec fn shell(s: Sketch) -> Tree {
    Tree { name: s.name, attrs: s.attrs, text: s.text, children: Seq::empty() }
}

/// Whether what reading prescribes is an element as reading makes elements,
/// with elements inside it that are so too.
pub open spec fn made(s: Sketch, options: Options) -> bool
    decreases s,
{
    &&& s.float_lanes is None
    &&& kept(shell(s), options)
    &&& forall|i: int| 0 <= i < s.children.len() ==> made(#[trigger] s.children[i], options)
}

/// A place that was found holds an attribute of the name that was looked for,
/// and no earlier place does.
pub proof fn lemma_find_attr(attrs: Seq<(Seq<char>, Seq<char>)>, name: Seq<char>)
    ensures
        match find_attr(attrs, name) {
            Some(i) => 0 <= i < attrs.len() && attrs[i].0 == name && forall|j: int|
                0 <= j < i ==> (#[trigger] attrs[j]).0 != name,
            None => forall|j: int| 0 <= j < attrs.len() ==> (#[trigger] attrs[j]).0 != name,
        },
    decreases attrs.len(),
{
    if attrs.len() > 0 {
        let head = attrs.drop_last();
        lemma_find_attr(head, name);
        assert forall|j: int| 0 <= j < head.len() implies head[j] == attrs[j] by {}
        match find_attr(head, name) {
            Some(i) => {
                assert(head[i] == attrs[i]);
                assert forall|j: int| 0 <= j < i implies (#[trigger] attrs[j]).0 != name by {
                    assert(head[j] == attrs[j]);
                }
            },
            None => {
                assert forall|j: int| 0 <= j < head.len() implies (#[trigger] attrs[j]).0
                    != name by {
                    assert(head[j] == attrs[j]);
                }
            },
        }
    }
}

/// Setting an attribute leaves the attributes of other names where they are
/// and as they are.
pub proof fn lemma_other_attr_unchanged(
    attrs: Seq<(Seq<char>, Seq<char>)>,
    name: Seq<char>,
    value: Seq<char>,
    other: Seq<char>,
)
    requires
        other != name,
    ensures
        find_attr(with_attr(attrs, name, value), other) == find_attr(attrs, other),
        find_attr(attrs, other) matches Some(i) ==> with_attr(attrs, name, value)[i] == attrs[i],
        with_attr(attrs, name, value).len() >= attrs.len(),
{
    let after = with_attr(attrs, name, value);
    lemma_find_attr(attrs, name);
    lemma_find_attr(attrs, other);
    assert forall|j: int| 0 <= j < attrs.len() implies ((#[trigger] after[j]).0 == other)
        == (attrs[j].0 == other) by {}
    match find_attr(attrs, other) {
        Some(i) => {
            assert forall|j: int| 0 <= j < i implies (#[trigger] after[j]).0 != other by {
                assert(attrs[j].0 != other);
            }
            lemma_find_attr_first(after, other, i);
        },
        None => {
            assert forall|j: int| 0 <= j < after.len() implies (#[trigger] after[j]).0
                != other by {
                if j < attrs.len() {
                    assert(attrs[j].0 != other);
                }
            }
            lemma_find_attr_none(after, other);
        },
    }
}

/// The attributes that say what a value is have reserved names.
pub proof fn lemma_head_reserved(t: Tree, ty: StandardType, count: Option<nat>)
    ensures
        head_attrs(t, ty, count).len() <= 2,
        forall|i: int|
            0 <= i < head_attrs(t, ty, count).len() ==> reserved(
                (#[trigger] head_attrs(t, ty, count)[i]).0,
            ),
{
}

/// An element that is as reading makes elements stays so when it gets an
/// attribute that is plain.
pub proof fn lemma_attr_made(s: Sketch, name: Seq<char>, value: Seq<char>, options: Options)
    requires
        made(s, options),
        !reserved(name),
        name_kept(options, name),
        string_kept(options.encoding, value),
    ensures
        made(s.set_attr(name, value), options),
{
    let t = shell(s);
    let s2 = s.set_attr(name, value);
    let t2 = shell(s2);
    let a = t.attrs;
    let a2 = t2.attrs;
    assert(a2 == with_attr(a, name, value));
    lemma_other_attr_unchanged(a, name, value, "__type"@);
    lemma_other_attr_unchanged(a, name, value, "__count"@);
    let ty = node_type_of(t)->Ok_0;
    let count = array_count(t, ty)->Ok_0;
    assert(node_type_of(t2) == node_type_of(t));
    assert(array_count(t2, ty) == array_count(t, ty));
    let head = head_attrs(t, ty, count);
    assert(head_attrs(t2, ty, count) == head);
    lemma_head_reserved(t, ty, count);
    lemma_find_attr(a, name);
    assert forall|j: int| 0 <= j < head.len() implies a[j].0 != name by {
        assert(a.take(head.len() as int)[j] == head[j]);
        assert(reserved(head[j].0));
    }
    match find_attr(a, name) {
        Some(i) => {
            assert(i >= head.len());
            assert(a2 == a.update(i, (name, value)));
            assert(a2.take(head.len() as int) == a.take(head.len() as int));
            assert forall|j: int| 0 <= j < a2.len() implies (#[trigger] a2[j]).0 == a[j].0 by {}
        },
        None => {
            assert(a2 == a.push((name, value)));
            assert(a2.take(head.len() as int) == a.take(head.len() as int));
            assert forall|x: int, y: int| 0 <= x < y < a2.len() implies (#[trigger] a2[x]).0 != (
            #[trigger] a2[y]).0 by {
                if y < a.len() {
                    assert(a[x].0 != a[y].0);
                } else {
                    assert(a[x].0 != name);
                }
            }
        },
    }
    assert(value_kept(t2, ty, count, options));
    assert(attrs_kept(t2, ty, count, options));
    assert forall|i: int| 0 <= i < s2.children.len() implies made(
        #[trigger] s2.children[i],
        options,
    ) by {
        assert(made(s.children[i], options));
    }
}

/// An element that is as reading makes elements stays so when it gets a
/// child that is so too.
pub proof fn lemma_child_made(s: Sketch, child: Sketch, options: Options)
    requires
        made(s, options),
        made(child, options),
    ensures
        made(s.append_child(child), options),
{
    let s2 = s.append_child(child);
    assert(shell(s2) == shell(s));
    assert forall|i: int| 0 <= i < s2.children.len() implies made(
        #[trigger] s2.children[i],
        options,
    ) by {
        if i < s.children.len() {
            assert(made(s.children[i], options));
        }
    }
}

/// The attribute `__type` alone, as an element has it that has just been
/// opened, looked up by the reserved names.
proof fn lemma_typed_lookups(called: Seq<char>)
    ensures
        with_attr(Seq::empty(), "__type"@, called) == seq![("__type"@, called)],
        find_attr(seq![("__type"@, called)], "__type"@) == Some(0int),
        find_attr(seq![("__type"@, called)], "__count"@) is None,
        find_attr(seq![("__type"@, called)], "__size"@) is None,
{
    lemma_reserved_names();
    let none = Seq::<(Seq<char>, Seq<char>)>::empty();
    let typed = seq![("__type"@, called)];
    assert(find_attr(none, "__type"@) is None);
    assert(find_attr(none, "__size"@) is None);
    assert(find_attr(none, "__count"@) is None);
    assert(typed.drop_last() == none);
    assert(none.push(("__type"@, called)) == typed);
}

/// The attribute `__type` and one more with a reserved name, as an element
/// has them that has just been opened, looked up by the reserved names.
proof fn lemma_head_lookups(called: Seq<char>, extra: (Seq<char>, Seq<char>))
    requires
        extra.0 == "__size"@ || extra.0 == "__count"@,
    ensures
        with_attr(seq![("__type"@, called)], extra.0, extra.1) == seq![("__type"@, called)].push(
            extra,
        ),
        find_attr(seq![("__type"@, called)].push(extra), "__type"@) == Some(0int),
        extra.0 == "__count"@ ==> find_attr(seq![("__type"@, called)].push(extra), "__count"@)
            == Some(1int),
        extra.0 != "__count"@ ==> find_attr(seq![("__type"@, called)].push(extra), "__count"@)
            is None,
        seq![("__type"@, called)].push(extra)[0].0 != seq![("__type"@, called)].push(extra)[1].0,
{
    lemma_reserved_names();
    lemma_typed_lookups(called);
    let typed = seq![("__type"@, called)];
    let attrs = typed.push(extra);
    assert(attrs.drop_last() == typed);
    assert(attrs.last() == extra);
}

/// An element without a value that a plain node opens is as reading makes elements.
proof fn lemma_opened_start_made(record: Record, options: Options)
    requires
        record.node_type == StandardType::NodeStart,
        record_plain(record, options),
    ensures
        open_element(record, options.encoding) is Ok,
        made(open_element(record, options.encoding)->Ok_0, options),
{
    reveal(open_element);
    let s = open_element(record, options.encoding)->Ok_0;
    let t = shell(s);
    let none = Seq::<(Seq<char>, Seq<char>)>::empty();
    assert(t.attrs == none);
    assert(find_attr(none, "__type"@) is None);
    assert(head_attrs(t, StandardType::NodeStart, None) == none);
    assert(t.attrs.take(0) == none);
}

/// A string that a plain node opens is as reading makes elements.
proof fn lemma_opened_text_made(record: Record, options: Options)
    requires
        record.node_type.spec_kind() == LaneKind::Text,
        record_plain(record, options),
        open_element(record, options.encoding) is Ok,
    ensures
        made(open_element(record, options.encoding)->Ok_0, options),
{
    reveal(open_element);
    let ty = record.node_type;
    let s = open_element(record, options.encoding)->Ok_0;
    let t = shell(s);
    lemma_typed_lookups(ty.spec_name()@);
    crate::node_types::lemma_from_name_of_name(ty);
    let head = head_attrs(t, ty, None);
    assert(t.attrs == head);
    assert(t.attrs.take(1) == head);
}

/// A blob that a plain node opens is as reading makes elements.
proof fn lemma_opened_binary_made(record: Record, options: Options)
    requires
        record.node_type.spec_kind() == LaneKind::Binary,
        record_plain(record, options),
    ensures
        open_element(record, options.encoding) is Ok,
        made(open_element(record, options.encoding)->Ok_0, options),
{
    reveal(open_element);
    let ty = record.node_type;
    let s = open_element(record, options.encoding)->Ok_0;
    let t = shell(s);
    let size = ("__size"@, decimal(record.payload.len()));
    lemma_head_lookups(ty.spec_name()@, size);
    crate::node_types::lemma_from_name_of_name(ty);
    crate::hex::lemma_hex_round_trip(record.payload);
    let head = head_attrs(t, ty, None);
    assert(t.text == hex_text(record.payload));
    assert(hex_bytes(t.text) == record.payload);
    assert(t.attrs == head);
    assert(t.attrs.take(2) == head);
    assert(node_type_of(t) == Ok::<StandardType, KbinError>(ty));
    assert(array_count(t, ty) == Ok::<Option<nat>, KbinError>(None));
    assert(value_kept(t, ty, None, options));
    assert(attrs_kept(t, ty, None, options));
}

/// Text that was read from the bytes of values is the text of the bytes it denotes.
proof fn lemma_lanes_text_kept(
    ty: StandardType,
    payload: Seq<u8>,
    t: Tree,
    count: Option<nat>,
    options: Options,
)
    requires
        ty.has_lanes(),
        ty.spec_kind() != LaneKind::Float,
        ty.spec_parse_bytes(payload) == Ok::<Seq<char>, KbinError>(t.text),
        payload.len() / ty.footprint() == match count {
            Some(n) => n,
            None => 1,
        },
    ensures
        value_kept(t, ty, count, options),
{
    crate::lane_laws::lemma_value_round_trip(ty, payload);
}

/// An array that a plain node opens is as reading makes elements.
proof fn lemma_opened_array_made(record: Record, options: Options)
    requires
        record.node_type.has_lanes(),
        record.node_type.spec_kind() != LaneKind::Float,
        record.is_array,
        record_plain(record, options),
        open_element(record, options.encoding) is Ok,
    ensures
        made(open_element(record, options.encoding)->Ok_0, options),
{
    reveal(open_element);
    let ty = record.node_type;
    let s = open_element(record, options.encoding)->Ok_0;
    let t = shell(s);
    let fp = ty.footprint();
    let len = record.payload.len();
    let n = len / fp;
    crate::lanes::lemma_lane_fits(ty);
    assert(fp > 0) by (nonlinear_arith)
        requires
            fp == (ty.spec_size() * ty.spec_count()) as nat,
            ty.spec_size() >= 1,
            ty.spec_count() >= 1,
    ;
    assert(1 <= n <= len) by (nonlinear_arith)
        requires
            len % fp == 0,
            len > 0,
            fp > 0,
            n == len / fp,
    ;
    crate::node_types::lemma_from_name_of_name(ty);
    let counted = ("__count"@, decimal(n));
    lemma_head_lookups(ty.spec_name()@, counted);
    crate::text::lemma_parse_signed_decimal(n as int, 0, u32::MAX as int);
    let head = head_attrs(t, ty, Some(n));
    assert(t.attrs == head);
    assert(t.attrs.take(2) == head);
    assert(node_type_of(t) == Ok::<StandardType, KbinError>(ty));
    assert(array_count(t, ty) == Ok::<Option<nat>, KbinError>(Some(n)));
    lemma_lanes_text_kept(ty, record.payload, t, Some(n), options);
    assert(attrs_kept(t, ty, Some(n), options));
}

/// A single value with lanes that a plain node opens is as reading makes elements.
proof fn lemma_opened_single_made(record: Record, options: Options)
    requires
        record.node_type.has_lanes(),
        record.node_type.spec_kind() != LaneKind::Float,
        !record.is_array,
        record_plain(record, options),
        open_element(record, options.encoding) is Ok,
    ensures
        made(open_element(record, options.encoding)->Ok_0, options),
{
    reveal(open_element);
    let ty = record.node_type;
    let s = open_element(record, options.encoding)->Ok_0;
    let t = shell(s);
    let fp = ty.footprint();
    let len = record.payload.len();
    crate::lanes::lemma_lane_fits(ty);
    assert(fp > 0) by (nonlinear_arith)
        requires
            fp == (ty.spec_size() * ty.spec_count()) as nat,
            ty.spec_size() >= 1,
            ty.spec_count() >= 1,
    ;
    assert(len / fp == 1) by (nonlinear_arith)
        requires
            len == fp,
            fp > 0,
    ;
    crate::node_types::lemma_from_name_of_name(ty);
    lemma_typed_lookups(ty.spec_name()@);
    let head = head_attrs(t, ty, None);
    assert(t.attrs == head);
    assert(t.attrs.take(1) == head);
    assert(node_type_of(t) == Ok::<StandardType, KbinError>(ty));
    assert(array_count(t, ty) == Ok::<Option<nat>, KbinError>(None));
    lemma_lanes_text_kept(ty, record.payload, t, None, options);
    assert(attrs_kept(t, ty, None, options));
}

/// The element that a plain node opens is as reading makes elements.
pub proof fn lemma_opened_made(record: Record, options: Options)
    requires
        record.node_type != StandardType::Attribute,
        record.node_type != StandardType::NodeEnd,
        record.node_type != StandardType::FileEnd,
        record_plain(record, options),
        open_element(record, options.encoding) is Ok,
    ensures
        made(open_element(record, options.encoding)->Ok_0, options),
{
    let kind = record.node_type.spec_kind();
    if kind == LaneKind::Marker {
        lemma_opened_start_made(record, options);
    } else if kind == LaneKind::Text {
        lemma_opened_text_made(record, options);
    } else if kind == LaneKind::Binary {
        lemma_opened_binary_made(record, options);
    } else if record.is_array {
        lemma_opened_array_made(record, options);
    } else {
        lemma_opened_single_made(record, options);
    }
}

/// Whether all elements that are open, and the outermost element if it is
/// closed, are as reading makes elements.
pub open spec fn all_made(build: Build, options: Options) -> bool {
    &&& forall|i: int| 0 <= i < build.stack.len() ==> made(#[trigger] build.stack[i], options)
    &&& build.root matches Some(root) ==> made(root, options)
}

/// Closing the innermost open element leaves all elements as reading makes elements.
proof fn lemma_close_made(build: Build, options: Options)
    requires
        all_made(build, options),
        build.root is None,
        build.close() is Ok,
    ensures
        all_made(build.close()->Ok_0, options),
{
    let grown = build.close()->Ok_0;
    let n = build.stack.len() as int;
    if n >= 2 {
        let child = build.stack[n - 1];
        let parent = build.stack[n - 2];
        assert(made(child, options));
        assert(made(parent, options));
        lemma_child_made(parent, child, options);
        assert forall|i: int| 0 <= i < grown.stack.len() implies made(
            #[trigger] grown.stack[i],
            options,
        ) by {
            if i < n - 2 {
                assert(grown.stack[i] == build.stack[i]);
                assert(made(build.stack[i], options));
            }
        }
    } else {
        assert(made(build.stack[0], options));
    }
}

/// A plain attribute leaves all elements as reading makes elements.
proof fn lemma_attribute_made(build: Build, record: Record, options: Options)
    requires
        all_made(build, options),
        record_plain(record, options),
        record.node_type == StandardType::Attribute,
        build.stack.len() > 0,
        options.encoding.spec_decode_bytes(record.payload) is Ok,
    ensures
        all_made(
            Build {
                stack: build.stack.drop_last().push(
                    build.stack.last().set_attr(
                        record.name,
                        options.encoding.spec_decode_bytes(record.payload)->Ok_0,
                    ),
                ),
                root: None,
            },
            options,
        ),
{
    let value = options.encoding.spec_decode_bytes(record.payload)->Ok_0;
    let n = build.stack.len() as int;
    let top = build.stack[n - 1];
    let grown = build.stack.drop_last().push(top.set_attr(record.name, value));
    assert(made(top, options));
    lemma_attr_made(top, record.name, value, options);
    assert forall|i: int| 0 <= i < grown.len() implies made(#[trigger] grown[i], options) by {
        if i < n - 1 {
            assert(grown[i] == build.stack[i]);
            assert(made(build.stack[i], options));
        }
    }
}

/// An element that a plain node opens leaves all elements as reading makes elements.
proof fn lemma_open_made(build: Build, element: Sketch, options: Options)
    requires
        all_made(build, options),
        made(element, options),
    ensures
        all_made(Build { stack: build.stack.push(element), root: None }, options),
{
    let grown = build.stack.push(element);
    assert forall|i: int| 0 <= i < grown.len() implies made(#[trigger] grown[i], options) by {
        if i < build.stack.len() {
            assert(grown[i] == build.stack[i]);
            assert(made(build.stack[i], options));
        }
    }
}

/// A plain node leaves all elements as reading makes elements.
pub proof fn lemma_step_made(build: Build, record: Record, options: Options)
    requires
        all_made(build, options),
        build.root is None,
        record_plain(record, options),
        record.node_type != StandardType::FileEnd,
        build.step(record, options.encoding) is Ok,
    ensures
        all_made(build.step(record, options.encoding)->Ok_0, options),
{
    if record.node_type == StandardType::NodeEnd {
        lemma_close_made(build, options);
    } else if record.node_type == StandardType::Attribute {
        lemma_attribute_made(build, record, options);
    } else {
        lemma_opened_made(record, options);
        lemma_open_made(build, open_element(record, options.encoding)->Ok_0, options);
    }
}

/// Whether all nodes that are read of a document from the given positions on,
/// with the given elements open, are plain.
#[verifier::opaque]
pub open spec fn plain_from(
    doc: Document,
    pos: nat,
    cur: Cursors,
    build: Build,
    options: Options,
) -> bool
    decreases doc.nodes.len() - pos,
    via plain_from_decreases
{
    if build.root is Some {
        true
    } else {
        match read_record(doc, pos, cur) {
            Err(_) => true,
            Ok((record, behind, next)) => record.node_type == StandardType::FileEnd || (
            record_plain(record, options) && match build.step(record, doc.encoding) {
                Ok(grown) => plain_from(doc, behind, next, grown, options),
                Err(_) => true,
            }),
        }
    }
}

#[via_fn]
proof fn plain_from_decreases(
    doc: Document,
    pos: nat,
    cur: Cursors,
    build: Build,
    options: Options,
) {
    crate::reader::lemma_read_record_moves(doc, pos, cur);
}

/// The options with which a document was written, as its header tells them.
pub open spec fn options_of(doc: Document) -> Options {
    Options { encoding: doc.encoding, compression: doc.compression }
}

/// Whether a document is plain: whether all its nodes are.
pub open spec fn plain_document(input: Seq<u8>) -> bool {
    match spec_parse_header(input) {
        Ok(doc) => plain_from(doc, 0, Cursors::start(), Build::start(), options_of(doc)),
        Err(_) => false,
    }
}

/// What is read from plain nodes is an element as reading makes elements.
pub proof fn lemma_read_from_made(
    doc: Document,
    pos: nat,
    cur: Cursors,
    build: Build,
    options: Options,
)
    requires
        options.encoding == doc.encoding,
        all_made(build, options),
        plain_from(doc, pos, cur, build, options),
        read_from(doc, pos, cur, build) is Ok,
    ensures
        made(read_from(doc, pos, cur, build)->Ok_0, options),
    decreases doc.nodes.len() - pos,
{
    crate::tree::lemma_read_from(doc, pos, cur, build);
    crate::reader::lemma_read_record_moves(doc, pos, cur);
    reveal(plain_from);
    if build.root is None {
        match read_record(doc, pos, cur) {
            Ok((record, behind, next)) => {
                if record.node_type == StandardType::FileEnd {
                    assert(made(build.stack[0], options));
                } else {
                    lemma_step_made(build, record, options);
                    lemma_read_from_made(
                        doc,
                        behind,
                        next,
                        build.step(record, options.encoding)->Ok_0,
                        options,
                    );
                }
            },
            Err(_) => {},
        }
    }
}

/// The element that a sketch without floating-point values prescribes.
pub open spec fn tree_of(s: Sketch) -> Tree
    decreases s, 1int,
{
    Tree { name: s.name, attrs: s.attrs, text: s.text, children: trees_within(s, s.children.len()) }
}

/// The elements that the first `n` sketches inside `s` prescribe.
pub open spec fn trees_within(s: Sketch, n: nat) -> Seq<Tree>
    decreases s, 0int, n,
{
    if n == 0 || n > s.children.len() {
        Seq::empty()
    } else {
        trees_within(s, (n - 1) as nat).push(tree_of(s.children[n - 1]))
    }
}

/// The elements that the sketches inside `s` prescribe stand each in its place.
pub proof fn lemma_trees_within(s: Sketch, n: nat)
    requires
        n <= s.children.len(),
    ensures
        trees_within(s, n).len() == n,
        forall|i: int| 0 <= i < n ==> (#[trigger] trees_within(s, n)[i]) == tree_of(s.children[i]),
    decreases n,
{
    if n > 0 {
        lemma_trees_within(s, (n - 1) as nat);
    }
}

/// What reading makes is as reading makes elements: a sketch that is made
/// prescribes an element that is as reading makes elements, and is what
/// reading prescribes of that element.
pub proof fn lemma_made_canonical(s: Sketch, options: Options)
    requires
        made(s, options),
    ensures
        canonical(tree_of(s), options),
        sketch_of(tree_of(s)) == s,
    decreases s,
{
    let t = tree_of(s);
    lemma_trees_within(s, s.children.len());
    crate::round_trip::lemma_sketches_of(t, t.children.len());
    assert forall|i: int| 0 <= i < t.children.len() implies canonical(
        #[trigger] t.children[i],
        options,
    ) && sketch_of(t.children[i]) == s.children[i] by {
        assert(made(s.children[i], options));
        lemma_made_canonical(s.children[i], options);
    }
    assert(sketch_of(t).children == s.children);
    let bare = shell(s);
    assert(node_type_of(t) == node_type_of(bare));
    let ty = node_type_of(bare)->Ok_0;
    assert(array_count(t, ty) == array_count(bare, ty));
    let count = array_count(bare, ty)->Ok_0;
    assert(head_attrs(t, ty, count) == head_attrs(bare, ty, count));
    assert(value_kept(t, ty, count, options) == value_kept(bare, ty, count, options));
    assert(attrs_kept(t, ty, count, options) == attrs_kept(bare, ty, count, options));
}

/// Reading, writing and reading again gives what the first reading gave: the
/// element that a plain document prescribes, written with the options of the
/// document, is read again as it was read first.
pub proof fn lemma_read_round_trip<F: FloatText>(
    input: Seq<u8>,
    read: Tree,
    floats: &F,
)
    requires
        plain_document(input),
        spec_decode(input) matches Ok((sketch, _)) && drawn(sketch, read, floats),
        spec_encode(read, options_of(spec_parse_header(input)->Ok_0)) is Ok,
    ensures
        spec_decode(
            spec_encode(read, options_of(spec_parse_header(input)->Ok_0))->Ok_0,
        ) == spec_decode(input),
        canonical(read, options_of(spec_parse_header(input)->Ok_0)),
{
    let doc = spec_parse_header(input)->Ok_0;
    let options = options_of(doc);
    let sketch = spec_decode(input)->Ok_0.0;
    assert(all_made(Build::start(), options));
    lemma_read_from_made(doc, 0, Cursors::start(), Build::start(), options);
    lemma_made_canonical(sketch, options);
    lemma_drawn_in_full(tree_of(sketch), read, floats);
    lemma_tree_round_trip(read, options);
}

} // verus!
