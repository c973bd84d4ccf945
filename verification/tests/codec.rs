use kbinxml::{
    from_binary, is_binary_xml, to_binary_with_options, Compression, Element, EncodingType,
    FloatBits, FloatText, KbinError, Options, StandardType,
};

struct StdFloats;

impl FloatText for StdFloats {
    fn text_of(&self, bits: FloatBits) -> String {
        match bits {
            FloatBits::Single(b) => format!("{:.6}", f32::from_bits(b)),
            FloatBits::Double(b) => format!("{:.6}", f64::from_bits(b)),
        }
    }

    fn bits_of(&self, text: String, double: bool) -> Option<FloatBits> {
        if double {
            text.parse::<f64>().ok().map(|v| FloatBits::Double(v.to_bits()))
        } else {
            text.parse::<f32>().ok().map(|v| FloatBits::Single(v.to_bits()))
        }
    }
}

fn utf8() -> Options {
    Options::new().with_encoding(EncodingType::Utf8)
}

fn element(name: &str) -> Element {
    Element::bare(name.to_string())
}

fn typed(name: &str, ty: &str, text: &str) -> Element {
    let mut e = element(name);
    e.set_attr("__type".to_string(), ty.to_string());
    e.set_text(text.to_string());
    e
}

#[test]
fn header_detection() {
    assert!(is_binary_xml(&[0xA0, 0x42, 0x00]));
    assert!(is_binary_xml(&[0xA0, 0x45, 0x00]));
    assert!(!is_binary_xml(&[0xA0, 0x42]));
    assert!(!is_binary_xml(&[0xA0, 0x43, 0x00]));
    assert!(!is_binary_xml(&[0xA1, 0x42, 0x00]));
    assert!(!is_binary_xml(&[]));
}

#[test]
fn empty_root_bytes() {
    let bytes = to_binary_with_options(utf8(), &element("A"), &StdFloats).unwrap();
    assert_eq!(
        bytes,
        vec![
            0xA0, 0x42, 0xA0, 0x5F, 0, 0, 0, 8, 0x01, 0x01, 0x28, 0xFE, 0xFF, 0, 0, 0, 0, 0, 0, 0
        ]
    );
    let (back, encoding) = from_binary(&bytes, &StdFloats).unwrap();
    assert_eq!(encoding, EncodingType::Utf8);
    assert_eq!(back, element("A"));
}

#[test]
fn u8_value_round_trip() {
    let e = typed("A", "u8", "7");
    let bytes = to_binary_with_options(utf8(), &e, &StdFloats).unwrap();
    assert_eq!(bytes[8], StandardType::U8.id());
    assert_eq!(&bytes[bytes.len() - 4..], &[7, 0, 0, 0]);
    let (back, _) = from_binary(&bytes, &StdFloats).unwrap();
    assert_eq!(back.attr("__type"), Some(&"u8".to_string()));
    assert_eq!(back.text, "7");
}

#[test]
fn string_value_bytes() {
    let e = typed("A", "str", "hello");
    let bytes = to_binary_with_options(utf8(), &e, &StdFloats).unwrap();
    let data = &bytes[bytes.len() - 12..];
    assert_eq!(data, &[0, 0, 0, 6, b'h', b'e', b'l', b'l', b'o', 0, 0, 0]);
    let (back, _) = from_binary(&bytes, &StdFloats).unwrap();
    assert_eq!(back, e);
}

#[test]
fn u16_array_bytes() {
    let mut e = typed("A", "u16", "1 2 3");
    e.set_attr("__count".to_string(), "3".to_string());
    let bytes = to_binary_with_options(utf8(), &e, &StdFloats).unwrap();
    assert_eq!(bytes[8], StandardType::U16.id() | 0x40);
    let data = &bytes[bytes.len() - 12..];
    assert_eq!(data, &[0, 0, 0, 6, 0, 1, 0, 2, 0, 3, 0, 0]);
    let (back, _) = from_binary(&bytes, &StdFloats).unwrap();
    assert_eq!(back, e);
}

#[test]
fn nested_bool_uses_byte_lane() {
    let mut a = element("A");
    a.append_child(typed("B", "bool", "1"));
    a.append_child(typed("C", "u32", "9"));
    a.append_child(typed("D", "bool", "0"));
    let bytes = to_binary_with_options(utf8(), &a, &StdFloats).unwrap();
    let data = &bytes[bytes.len() - 8..];
    assert_eq!(data, &[1, 0, 0, 0, 0, 0, 0, 9]);
    let (back, _) = from_binary(&bytes, &StdFloats).unwrap();
    assert_eq!(back, a);
}

#[test]
fn ip4_bytes() {
    let e = typed("A", "ip4", "192.168.0.1");
    let bytes = to_binary_with_options(utf8(), &e, &StdFloats).unwrap();
    assert_eq!(&bytes[bytes.len() - 4..], &[0xC0, 0xA8, 0x00, 0x01]);
    let (back, _) = from_binary(&bytes, &StdFloats).unwrap();
    assert_eq!(back, e);
}

#[test]
fn bad_signature_is_refused() {
    let r = from_binary(&[0xA1, 0x42, 0xA0, 0x5F, 0, 0, 0, 0, 0, 0, 0, 0], &StdFloats);
    assert_eq!(r, Err(KbinError::HeaderValue { field: "signature" }));
}

#[test]
fn uncompressed_names_round_trip() {
    let mut a = element("root");
    a.set_attr("id".to_string(), "x".to_string());
    a.append_child(typed("v", "s16", "-5"));
    let options = utf8().with_compression(Compression::Uncompressed);
    let bytes = to_binary_with_options(options, &a, &StdFloats).unwrap();
    assert_eq!(bytes[1], 0x45);
    let (back, _) = from_binary(&bytes, &StdFloats).unwrap();
    assert_eq!(back, a);
}
