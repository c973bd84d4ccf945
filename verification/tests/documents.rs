use kbinxml::node::{Node, NodeCollection};
use kbinxml::value::{Lane, Value};
use kbinxml::reader::{NodeDefinition, Reader};
use kbinxml::structure::Struct;
use kbinxml::{
    from_binary, node_collection_from_binary, node_from_binary, to_binary,
    to_binary_with_options, Compression, Element,
    EncodingType, FloatBits, FloatText, KbinError, Options, StandardType, Writer,
};

struct StdFloats;

impl FloatText for StdFloats {
    fn text_of(&self, bits: FloatBits) -> String {
        match bits {
            FloatBits::Single(b) => format!("{:.6}", f32::from_bits(b)),
            FloatBits::Double(b) => format!("{:.6}", f64::from_bits(b)),
        }
    }

    fn bits_of(&self, text: String, double: bool) -> Option<FloatBits> {
        if double {
            text.parse::<f64>().ok().map(|v| FloatBits::Double(v.to_bits()))
        } else {
            text.parse::<f32>().ok().map(|v| FloatBits::Single(v.to_bits()))
        }
    }
}

fn utf8() -> Options {
    Options::new().with_encoding(EncodingType::Utf8)
}

fn document(nodes: &[u8], data: &[u8]) -> Vec<u8> {
    let mut out = vec![0xA0, 0x42, 0xA0, 0x5F];
    out.extend((nodes.len() as u32).to_be_bytes());
    out.extend(nodes);
    out.extend((data.len() as u32).to_be_bytes());
    out.extend(data);
    out
}

fn read(nodes: &[u8], data: &[u8]) -> Result<Element, KbinError> {
    from_binary(&document(nodes, data), &StdFloats).map(|(e, _)| e)
}

fn element(name: &str) -> Element {
    Element::bare(name.to_string())
}

fn typed(name: &str, ty: &str, text: &str) -> Element {
    let mut e = element(name);
    e.set_attr("__type".to_string(), ty.to_string());
    e.set_text(text.to_string());
    e
}

fn write(e: &Element) -> Result<Vec<u8>, KbinError> {
    to_binary_with_options(utf8(), e, &StdFloats)
}

const A: [u8; 2] = [0x01, 0x28];
const B: [u8; 2] = [0x01, 0x2C];
const ID: [u8; 3] = [0x02, 0xB2, 0x70];

#[test]
fn header_is_checked() {
    let good = document(&[0x01, 0x01, 0x28, 0xFE, 0xFF, 0, 0, 0], &[]);
    assert_eq!(from_binary(&good, &StdFloats), Ok((element("A"), EncodingType::Utf8)));
    let mut bad = good.clone();
    bad[1] = 0x43;
    assert_eq!(from_binary(&bad, &StdFloats), Err(KbinError::HeaderValue { field: "compression" }));
    let mut bad = good.clone();
    bad[3] = 0x5E;
    assert_eq!(
        from_binary(&bad, &StdFloats),
        Err(KbinError::HeaderValue { field: "encoding negation" })
    );
    let mut bad = good.clone();
    bad[2] = 0x10;
    bad[3] = 0xEF;
    assert_eq!(from_binary(&bad, &StdFloats), Err(KbinError::UnknownEncodingTag { tag: 0x10 }));
    assert_eq!(from_binary(&good[..7], &StdFloats), Err(KbinError::DataRead { size: 8 }));
    assert_eq!(from_binary(&good[..15], &StdFloats), Err(KbinError::DataRead { size: 8 }));
    let mut bad = good.clone();
    bad[19] = 1;
    assert_eq!(from_binary(&bad, &StdFloats), Err(KbinError::DataRead { size: 1 }));
}

#[test]
fn every_encoding_is_reported() {
    for (tag, encoding) in [
        (0x00u8, EncodingType::Unnamed),
        (0x20, EncodingType::Ascii),
        (0x40, EncodingType::Iso8859_1),
        (0x60, EncodingType::EucJp),
        (0x80, EncodingType::ShiftJis),
        (0xA0, EncodingType::Utf8),
    ] {
        let mut bytes = document(&[0x01, 0x01, 0x28, 0xFE, 0xFF, 0, 0, 0], &[]);
        bytes[2] = tag;
        bytes[3] = !tag;
        assert_eq!(from_binary(&bytes, &StdFloats), Ok((element("A"), encoding)));
    }
}

#[test]
fn default_options_write_shift_jis() {
    let bytes = to_binary(&typed("A", "str", "あ"), &StdFloats).unwrap();
    assert_eq!(&bytes[..4], &[0xA0, 0x42, 0x80, 0x7F]);
    assert_eq!(&bytes[bytes.len() - 8..], &[0, 0, 0, 3, 0x82, 0xA0, 0, 0]);
    assert_eq!(Writer::new().to_binary(&typed("A", "str", "あ"), &StdFloats), Ok(bytes.clone()));
    let (back, encoding) = from_binary(&bytes, &StdFloats).unwrap();
    assert_eq!(encoding, EncodingType::ShiftJis);
    assert_eq!(back.text, "あ");
}

#[test]
fn header_bytes_are_complements() {
    for encoding in [
        EncodingType::Unnamed,
        EncodingType::Ascii,
        EncodingType::Iso8859_1,
        EncodingType::EucJp,
        EncodingType::ShiftJis,
        EncodingType::Utf8,
    ] {
        let bytes =
            to_binary_with_options(Options::new().with_encoding(encoding), &element("A"), &StdFloats)
                .unwrap();
        assert_eq!(bytes[2] ^ bytes[3], 0xFF);
        assert!(kbinxml::is_binary_xml(&bytes));
    }
}

#[test]
fn value_comes_before_attributes() {
    let mut e = typed("A", "u8", "7");
    e.set_attr("id".to_string(), "x".to_string());
    let mut nodes = vec![0x03];
    nodes.extend(&A[1..]);
    nodes.insert(1, 0x01);
    nodes.push(0x2E);
    nodes.extend(ID);
    nodes.extend([0xFE, 0xFF, 0, 0, 0]);
    let data = [7, 0, 0, 0, 0, 0, 0, 2, b'x', 0, 0, 0];
    assert_eq!(write(&e), Ok(document(&nodes, &data)));
    assert_eq!(read(&nodes, &data), Ok(e));
}

#[test]
fn reserved_attributes_are_not_written() {
    let mut e = typed("A", "bin", "DEADbeef");
    e.set_attr("__size".to_string(), "4".to_string());
    let bytes = write(&e).unwrap();
    assert_eq!(&bytes[8..16], &[0x4A, 0x01, 0x28, 0xFE, 0xFF, 0, 0, 0]);
    assert_eq!(&bytes[bytes.len() - 8..], &[0, 0, 0, 4, 0xDE, 0xAD, 0xBE, 0xEF]);
    let (back, _) = from_binary(&bytes, &StdFloats).unwrap();
    assert_eq!(back.attrs, vec![
        ("__type".to_string(), "bin".to_string()),
        ("__size".to_string(), "4".to_string()),
    ]);
    assert_eq!(back.text, "deadbeef");
}

#[test]
fn type_is_found_by_second_name() {
    let e = typed("A", "binary", "00 ff\n");
    let bytes = write(&e).unwrap();
    assert_eq!(bytes[8], 0x4A);
    assert_eq!(&bytes[bytes.len() - 8..], &[0, 0, 0, 2, 0x00, 0xFF, 0, 0]);
}

#[test]
fn text_without_type_is_a_string() {
    let mut e = element("A");
    e.set_text("hi".to_string());
    let bytes = write(&e).unwrap();
    assert_eq!(bytes[8], 0x4B);
    let (back, _) = from_binary(&bytes, &StdFloats).unwrap();
    assert_eq!(back, typed("A", "str", "hi"));
}

#[test]
fn elements_that_cannot_be_written() {
    assert_eq!(write(&typed("A", "nothing", "")), Err(KbinError::InvalidNodeType { node_type: 0 }));
    assert_eq!(write(&typed("A", "attr", "")), Err(KbinError::InvalidNodeType { node_type: 46 }));
    assert_eq!(write(&typed("A", "nodeEnd", "")), Err(KbinError::InvalidNodeType { node_type: 190 }));
    assert_eq!(write(&typed("A", "bin", "abc")), Err(KbinError::HexError));
    assert_eq!(write(&typed("A", "bin", "zz")), Err(KbinError::HexError));
    assert_eq!(write(&element("a b")), Err(KbinError::SixbitUnknownChar { character: ' ' }));
    assert_eq!(write(&typed("A", "u8", "")), Err(KbinError::SizeMismatch {
        node_type: "u8",
        expected: 1,
        actual: 0,
    }));
    let mut e = typed("A", "u8", "1 2");
    e.set_attr("__count".to_string(), "two".to_string());
    assert_eq!(write(&e), Err(KbinError::StringParseInt { node_type: "__count" }));
    let ascii = Options::new().with_encoding(EncodingType::Ascii);
    assert_eq!(
        to_binary_with_options(ascii, &typed("A", "str", "é"), &StdFloats),
        Err(KbinError::Encode)
    );
    assert_eq!(
        write(&typed("A", "float", "x")),
        Err(KbinError::StringParseFloat { node_type: "float" })
    );
}

#[test]
fn void_type_is_an_element_without_value() {
    let e = typed("A", "void", "");
    let bytes = write(&e).unwrap();
    assert_eq!(bytes, write(&element("A")).unwrap());
}

#[test]
fn count_of_zero_means_a_single_value() {
    let mut e = typed("A", "u8", "9");
    e.set_attr("__count".to_string(), "0".to_string());
    let bytes = write(&e).unwrap();
    assert_eq!(bytes[8], 0x03);
    assert_eq!(&bytes[bytes.len() - 4..], &[9, 0, 0, 0]);
}

#[test]
fn structure_is_checked() {
    assert_eq!(read(&[0xFF], &[]), Err(KbinError::InvalidState));
    assert_eq!(read(&[0xFE, 0xFF], &[]), Err(KbinError::InvalidState));
    assert_eq!(read(&[0x2E, 0x02, 0xB2, 0x70, 0xFF], &[0, 0, 0, 0]), Err(KbinError::InvalidState));
    assert_eq!(read(&[0x00], &[]), Err(KbinError::InvalidNodeType { node_type: 0 }));
    assert_eq!(read(&[0x2F], &[]), Err(KbinError::InvalidNodeType { node_type: 47 }));
    assert_eq!(read(&[0x01, 0x01, 0x28], &[]), Err(KbinError::DataRead { size: 1 }));
    assert_eq!(
        read(&[0x01, 0x01, 0x28, 0x01, 0x01, 0x2C, 0xFE], &[]),
        Err(KbinError::DataRead { size: 1 })
    );
    assert_eq!(read(&[0x01, 0x05, 0xAE], &[]), Err(KbinError::DataRead { size: 4 }));
}

#[test]
fn what_follows_the_root_is_cut_off() {
    assert_eq!(read(&[0x01, 0x01, 0x28, 0xFE], &[]), Ok(element("A")));
    assert_eq!(read(&[0x01, 0x01, 0x28, 0xFE, 0x01, 0x01, 0x2C, 0xFE, 0xFF], &[]), Ok(element("A")));
    assert_eq!(read(&[0x01, 0x01, 0x28, 0xFE, 0xFE, 0xFF], &[]), Ok(element("A")));
    assert_eq!(read(&[0x01, 0x01, 0x28, 0xFE, 0x00, 0x77], &[]), Ok(element("A")));
    let cut = document(&[0x01, 0x01, 0x28, 0xFE, 0x03, 0x01, 0x2C], &[]);
    let (node, _) = node_collection_from_binary(&cut).unwrap();
    assert_eq!(node.base.key, "A");
    assert!(node.children.is_empty());
}

#[test]
fn open_elements_are_dropped_at_the_end() {
    assert_eq!(read(&[0x01, 0x01, 0x28, 0x01, 0x01, 0x2C, 0xFF], &[]), Ok(element("A")));
    assert_eq!(read(&[0x01, 0x01, 0x28, 0xFF], &[]), Ok(element("A")));
}

#[test]
fn end_markers_need_no_array_bit() {
    assert_eq!(read(&[0x01, 0x01, 0x28, 0xBE, 0xBF], &[]), Ok(element("A")));
    assert_eq!(read(&[0x41, 0x01, 0x28, 0xFE, 0xFF], &[]), Ok(element("A")));
}

#[test]
fn values_are_checked() {
    assert_eq!(read(&[0x03, 0x01, 0x28, 0xFE, 0xFF], &[]), Err(KbinError::DataRead { size: 1 }));
    assert_eq!(
        read(&[0x45, 0x01, 0x28, 0xFE, 0xFF], &[0, 0, 0, 3, 0, 1, 0, 0]),
        Err(KbinError::SizeMismatch { node_type: "u16", expected: 2, actual: 3 })
    );
    assert_eq!(
        read(&[0x34, 0x01, 0x28, 0xFE, 0xFF], &[2, 0, 0, 0]),
        Err(KbinError::InvalidBooleanInput { input: 2 })
    );
    assert_eq!(
        read(&[0x0B, 0x01, 0x28, 0xFE, 0xFF], &[0, 0, 0, 1, 0xFF, 0, 0, 0]),
        Err(KbinError::Decode)
    );
    assert_eq!(
        read(&[0x0B, 0x01, 0x28, 0xFE, 0xFF], &[0, 0, 0, 9, 0x41, 0, 0, 0]),
        Err(KbinError::DataRead { size: 9 })
    );
}

#[test]
fn arrays_are_counted() {
    let e = read(&[0x45, 0x01, 0x28, 0xFE, 0xFF], &[0, 0, 0, 6, 0, 1, 0, 2, 0, 3, 0, 0]).unwrap();
    assert_eq!(e.attrs, vec![
        ("__type".to_string(), "u16".to_string()),
        ("__count".to_string(), "3".to_string()),
    ]);
    assert_eq!(e.text, "1 2 3");
    let e = read(&[0x50, 0x01, 0x28, 0xFE, 0xFF], &[0, 0, 0, 4, 1, 2, 0xFF, 0xFE]).unwrap();
    assert_eq!(e.attr("__type"), Some(&"2s8".to_string()));
    assert_eq!(e.attr("__count"), Some(&"2".to_string()));
    assert_eq!(e.text, "1 2 -1 -2");
    let e = read(&[0x45, 0x01, 0x28, 0xFE, 0xFF], &[0, 0, 0, 0]).unwrap();
    assert_eq!(e.attr("__count"), Some(&"0".to_string()));
    assert_eq!(e.text, "");
}

#[test]
fn floats_fill_their_lanes() {
    let single = [0x0E, 0x01, 0x28, 0xFE, 0xFF, 0, 0, 0];
    let bytes = write(&typed("A", "float", "1.5")).unwrap();
    assert_eq!(bytes, document(&single, &1.5f32.to_bits().to_be_bytes()));
    assert_eq!(read(&single, &[0x3F, 0xC0, 0, 0]), Ok(typed("A", "float", "1.500000")));

    let double = [0x0F, 0x01, 0x28, 0xFE, 0xFF, 0, 0, 0];
    let bytes = write(&typed("A", "double", "-2")).unwrap();
    assert_eq!(bytes, document(&double, &(-2f64).to_bits().to_be_bytes()));

    let mut pair = typed("A", "2f", "0.5 0.25 1 2");
    pair.set_attr("__count".to_string(), "2".to_string());
    let bytes = write(&pair).unwrap();
    let mut data = vec![0, 0, 0, 16];
    for v in [0.5f32, 0.25, 1.0, 2.0] {
        data.extend(v.to_bits().to_be_bytes());
    }
    assert_eq!(bytes, document(&[0x58, 0x01, 0x28, 0xFE, 0xFF, 0, 0, 0], &data));
}

#[test]
fn lengths_say_where_the_sections_are() {
    let mut root = element("root");
    root.set_attr("a".to_string(), "bc".to_string());
    root.append_child(typed("x", "float", "1.5"));
    root.append_child(typed("y", "u8", "3"));
    root.append_child(typed("z", "double", "0.125"));
    root.append_child(typed("w", "str", "abcde"));
    for options in [utf8(), Options::new().with_compression(Compression::Uncompressed)] {
        let bytes = to_binary_with_options(options, &root, &StdFloats).unwrap();
        let n = u32::from_be_bytes([bytes[4], bytes[5], bytes[6], bytes[7]]) as usize;
        let d = u32::from_be_bytes([bytes[8 + n], bytes[9 + n], bytes[10 + n], bytes[11 + n]])
            as usize;
        assert_eq!(bytes.len(), 12 + n + d);
        assert_eq!(n % 4, 0);
        assert_eq!(d % 4, 0);
        let plain = {
            let mut e = element("root");
            e.set_attr("a".to_string(), "bc".to_string());
            e.append_child(typed("x", "float", "7"));
            e.append_child(typed("y", "u8", "3"));
            e.append_child(typed("z", "double", "8"));
            e.append_child(typed("w", "str", "abcde"));
            to_binary_with_options(options, &e, &StdFloats).unwrap()
        };
        assert_eq!(bytes[..12 + n], plain[..12 + n]);
    }
}

#[test]
fn narrow_values_share_words_across_elements() {
    let mut root = element("A");
    for (i, text) in ["1", "2", "3", "4", "5"].iter().enumerate() {
        let mut child = typed("B", "u8", text);
        if i == 1 {
            child.append_child(typed("B", "u16", "513"));
        }
        root.append_child(child);
    }
    root.append_child(typed("B", "2u8", "6 7"));
    let bytes = write(&root).unwrap();
    let data = &bytes[bytes.len() - 12..];
    assert_eq!(data, &[1, 2, 3, 4, 2, 1, 6, 7, 5, 0, 0, 0]);
    let (back, _) = from_binary(&bytes, &StdFloats).unwrap();
    assert_eq!(back, root);
}

#[test]
fn attributes_keep_their_order_and_place() {
    let mut e = element("A");
    e.set_attr("b".to_string(), "1".to_string());
    e.set_attr("a".to_string(), "2".to_string());
    e.set_attr("b".to_string(), "3".to_string());
    assert_eq!(e.attrs, vec![("b".to_string(), "3".to_string()), ("a".to_string(), "2".to_string())]);
    assert_eq!(e.attr("a"), Some(&"2".to_string()));
    assert_eq!(e.attr("c"), None);
    let (back, _) = from_binary(&write(&e).unwrap(), &StdFloats).unwrap();
    assert_eq!(back, e);
}

#[test]
fn tree_round_trip() {
    let mut root = element("root");
    root.set_attr("version".to_string(), "1.0".to_string());
    let mut info = element("info");
    info.append_child(typed("name", "str", "テスト"));
    info.append_child(typed("id", "s32", "-42"));
    info.append_child(typed("flag", "bool", "1"));
    let mut pos = typed("pos", "3s16", "1 -2 3 4 -5 6");
    pos.set_attr("__count".to_string(), "2".to_string());
    pos.set_attr("unit".to_string(), "px".to_string());
    info.append_child(pos);
    let mut blob = typed("blob", "bin", "00ff10");
    blob.set_attr("__size".to_string(), "3".to_string());
    info.append_child(blob);
    info.append_child(typed("addr", "ip4", "10.0.0.1"));
    info.append_child(typed("ratio", "float", "0.250000"));
    info.append_child(typed("big", "u64", "18446744073709551615"));
    root.append_child(info);
    root.append_child(element("empty"));
    for options in [utf8(), Options::new(), Options::new().with_encoding(EncodingType::EucJp)] {
        let bytes = to_binary_with_options(options, &root, &StdFloats).unwrap();
        let (back, encoding) = from_binary(&bytes, &StdFloats).unwrap();
        assert_eq!(encoding, options.encoding);
        assert_eq!(back, root);
        assert_eq!(to_binary_with_options(options, &back, &StdFloats), Ok(bytes));
    }
}

#[test]
fn fields_are_walked() {
    let mut root = element("A");
    root.append_child(typed("B", "u8", "5"));
    root.append_child(element("B"));
    let bytes = write(&root).unwrap();
    let mut reader = Reader::new(&bytes).unwrap();
    let base = reader.read_node_definition().unwrap();
    assert_eq!(base.node_type, StandardType::NodeStart);
    assert_eq!(base.key, "A");
    assert!(reader.in_order());
    let mut fields = Struct::new(&mut reader, &["B"]);
    let first = fields.next_key().unwrap().unwrap();
    assert_eq!(first, NodeDefinition {
        node_type: StandardType::U8,
        is_array: false,
        key: "B".to_string(),
        value: vec![5],
    });
    assert_eq!(fields.end_key(first.node_type), Ok(()));
    let second = fields.next_key().unwrap().unwrap();
    assert_eq!(second.node_type, StandardType::NodeStart);
    assert_eq!(fields.end_key(second.node_type), Ok(()));
    assert_eq!(fields.next_key(), Ok(None));
    assert_eq!(fields.next_key(), Ok(None));
    assert_eq!(
        fields.end_key(StandardType::U8),
        Err(KbinError::TypeMismatch { expected: 190, found: 191 })
    );
    assert_eq!(fields.next_key(), Err(KbinError::InvalidNodeType { node_type: 0 }));
}

#[test]
fn nodes_are_collected() {
    let mut root = typed("A", "u8", "7");
    root.set_attr("id".to_string(), "x".to_string());
    root.append_child(element("B"));
    let bytes = write(&root).unwrap();
    let (node, encoding) = node_collection_from_binary(&bytes).unwrap();
    assert_eq!(encoding, EncodingType::Utf8);
    assert_eq!(node, NodeCollection {
        base: NodeDefinition {
            node_type: StandardType::U8,
            is_array: false,
            key: "A".to_string(),
            value: vec![7],
        },
        attributes: vec![NodeDefinition {
            node_type: StandardType::Attribute,
            is_array: false,
            key: "id".to_string(),
            value: vec![b'x', 0],
        }],
        children: vec![NodeCollection {
            base: NodeDefinition {
                node_type: StandardType::NodeStart,
                is_array: false,
                key: "B".to_string(),
                value: vec![],
            },
            attributes: vec![],
            children: vec![],
        }],
    });
    assert_eq!(node_collection_from_binary(&document(&[0xFF], &[])), Err(KbinError::InvalidState));
    let _ = B;
}

fn leaf(key: &str, value: Value) -> Node {
    Node { key: key.to_string(), attributes: vec![], children: vec![], value: Some(value) }
}

#[test]
fn nodes_have_typed_values() {
    let mut root = element("A");
    root.set_attr("id".to_string(), "x".to_string());
    root.set_attr("id".to_string(), "y".to_string());
    root.append_child(typed("B", "s16", "-2"));
    let mut array = typed("B", "2u8", "1 2 3 4");
    array.set_attr("__count".to_string(), "2".to_string());
    root.append_child(array);
    root.append_child(typed("B", "bool", "1"));
    root.append_child(typed("B", "ip4", "10.0.0.1"));
    root.append_child(typed("B", "float", "1.5"));
    root.append_child(typed("B", "double", "-2"));
    root.append_child(typed("B", "str", "hi"));
    root.append_child(typed("B", "bin", "0a0b"));
    root.append_child(typed("B", "s64", "-9223372036854775808"));
    let bytes = write(&root).unwrap();
    let (node, encoding) = node_from_binary(&bytes).unwrap();
    assert_eq!(encoding, EncodingType::Utf8);
    assert_eq!(node, Node {
        key: "A".to_string(),
        attributes: vec![("id".to_string(), "y".to_string())],
        children: vec![
            leaf("B", Value::Single(StandardType::S16, vec![Lane::Signed(-2)])),
            leaf("B", Value::Array(StandardType::U8_2, vec![
                Lane::Unsigned(1),
                Lane::Unsigned(2),
                Lane::Unsigned(3),
                Lane::Unsigned(4),
            ])),
            leaf("B", Value::Single(StandardType::Boolean, vec![Lane::Boolean(true)])),
            leaf("B", Value::Single(StandardType::Ip4, vec![Lane::Ip4(10, 0, 0, 1)])),
            leaf("B", Value::Single(StandardType::Float, vec![Lane::Float(0x3FC0_0000)])),
            leaf("B", Value::Single(StandardType::Double, vec![Lane::Double(0xC000_0000_0000_0000)])),
            leaf("B", Value::String("hi".to_string())),
            leaf("B", Value::Binary(vec![0x0A, 0x0B])),
            leaf("B", Value::Single(StandardType::S64, vec![Lane::Signed(i64::MIN)])),
        ],
        value: None,
    });
}

#[test]
fn node_values_are_checked() {
    let bad_bool = document(&[0x34, 0x01, 0x28, 0xFE, 0xFF], &[2, 0, 0, 0]);
    assert_eq!(node_from_binary(&bad_bool), Err(KbinError::InvalidBooleanInput { input: 2 }));
    assert!(node_collection_from_binary(&bad_bool).is_ok());
    let bad_text = document(&[0x0B, 0x01, 0x28, 0xFE, 0xFF], &[0, 0, 0, 1, 0xFF, 0, 0, 0]);
    assert_eq!(node_from_binary(&bad_text), Err(KbinError::Decode));
    let bad_attr = document(
        &[0x01, 0x01, 0x28, 0x2E, 0x02, 0xB2, 0x70, 0xFE, 0xFF],
        &[0, 0, 0, 1, 0xFF, 0, 0, 0],
    );
    assert_eq!(node_from_binary(&bad_attr), Err(KbinError::Decode));
    let definition = NodeDefinition {
        node_type: StandardType::U16,
        is_array: false,
        key: "A".to_string(),
        value: vec![1, 2, 3],
    };
    assert_eq!(
        definition.value(EncodingType::Utf8),
        Err(KbinError::SizeMismatch { node_type: "u16", expected: 2, actual: 3 })
    );
    let marker = NodeDefinition {
        node_type: StandardType::NodeStart,
        is_array: false,
        key: "A".to_string(),
        value: vec![],
    };
    assert_eq!(marker.value(EncodingType::Utf8), Ok(None));
    let collection = NodeCollection {
        base: marker,
        attributes: vec![NodeDefinition {
            node_type: StandardType::U8,
            is_array: false,
            key: "B".to_string(),
            value: vec![1],
        }],
        children: vec![],
    };
    assert_eq!(collection.as_node(EncodingType::Utf8), Err(KbinError::InvalidState));
}

#[test]
fn read_written_and_read_again() {
    let nodes = [
        0x01, 0x01, 0x28, 0x2E, 0x02, 0xB2, 0x70, 0x05, 0x01, 0x2C, 0xBE, 0x0B, 0x01, 0x2C, 0xBE,
        0x4A, 0x01, 0x2C, 0xBE, 0xBE, 0xBF,
    ];
    let data = [
        0, 0, 0, 1, b'x', 9, 9, 9, 0x12, 0x34, 7, 7, 0, 0, 0, 2, b'h', b'i', 7, 7, 0, 0, 0, 1, 0xAB,
        7, 7, 7,
    ];
    let input = document(&nodes, &data);
    let (first, encoding) = from_binary(&input, &StdFloats).unwrap();
    assert_eq!(first.attr("id"), Some(&"x".to_string()));
    assert_eq!(first.children.len(), 3);
    assert_eq!(first.children[0], typed("B", "u16", "4660"));
    assert_eq!(first.children[1], typed("B", "str", "hi"));
    assert_eq!(first.children[2].text, "ab");
    let options = Options::new().with_encoding(encoding);
    let written = to_binary_with_options(options, &first, &StdFloats).unwrap();
    assert_ne!(written, input);
    assert_eq!(from_binary(&written, &StdFloats), Ok((first, encoding)));
}

#[test]
fn empty_array_is_not_written_again() {
    let e = read(&[0x45, 0x01, 0x28, 0xFE, 0xFF], &[0, 0, 0, 0]).unwrap();
    assert_eq!(write(&e), Err(KbinError::SizeMismatch { node_type: "u16", expected: 1, actual: 0 }));
}
