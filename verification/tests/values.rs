use kbinxml::node_types::LaneKind;
use kbinxml::text::read_int;
use kbinxml::tokens::{split, words, Separator};
use kbinxml::{FloatBits, FloatText, KbinError, StandardType};

struct StdFloats;

impl FloatText for StdFloats {
    fn text_of(&self, bits: FloatBits) -> String {
        match bits {
            FloatBits::Single(b) => format!("{:.6}", f32::from_bits(b)),
            FloatBits::Double(b) => format!("{:.6}", f64::from_bits(b)),
        }
    }

    fn bits_of(&self, text: String, double: bool) -> Option<FloatBits> {
        if double {
            text.parse::<f64>().ok().map(|v| FloatBits::Double(v.to_bits()))
        } else {
            text.parse::<f32>().ok().map(|v| FloatBits::Single(v.to_bits()))
        }
    }
}

fn chars(s: &str) -> Vec<char> {
    s.chars().collect()
}

fn parse(ty: StandardType, bytes: &[u8]) -> Result<String, KbinError> {
    ty.parse_bytes(bytes, &StdFloats)
}

fn format(ty: StandardType, text: &str, count: usize) -> Result<Vec<u8>, KbinError> {
    ty.format_bytes(text, count, &StdFloats)
}

#[test]
fn registry_entries() {
    let t = StandardType::S32.kbin_type();
    assert_eq!((t.id, t.name, t.alt_name, t.size, t.count), (6, "s32", None, 4, 1));
    let t = StandardType::Binary.kbin_type();
    assert_eq!((t.id, t.name, t.alt_name, t.size, t.count), (10, "bin", Some("binary"), 1, -1));
    let t = StandardType::Vu16.kbin_type();
    assert_eq!((t.id, t.name, t.alt_name, t.size, t.count), (51, "vu16", None, 2, 8));
    let t = StandardType::FileEnd.kbin_type();
    assert_eq!((t.id, t.name, t.size, t.count), (191, "fileEnd", 0, 0));
    assert_eq!(StandardType::Double4.kind(), LaneKind::Float);
    assert_eq!(StandardType::Time.kind(), LaneKind::Unsigned);
}

#[test]
fn ids_and_names_find_their_type() {
    let mut known = 0;
    for id in 0u8..=255 {
        if let Some(ty) = StandardType::from_u8(id) {
            known += 1;
            assert_eq!(ty.id(), id);
            assert_eq!(StandardType::from_name(ty.name()), Some(ty));
            if let Some(alt) = ty.alt_name() {
                assert_eq!(StandardType::from_name(alt), Some(ty));
            }
        }
    }
    assert_eq!(known, 57);
    assert_eq!(StandardType::from_u8(0), None);
    assert_eq!(StandardType::from_u8(47), None);
    assert_eq!(StandardType::from_u8(57), None);
    assert_eq!(StandardType::from_name("vs32"), Some(StandardType::S32_4));
    assert_eq!(StandardType::from_name("string"), Some(StandardType::String));
    assert_eq!(StandardType::from_name("nothing"), None);
}

#[test]
fn integers_are_decimal() {
    assert_eq!(parse(StandardType::U8, &[0xFF]), Ok("255".to_string()));
    assert_eq!(parse(StandardType::S8, &[0xFF]), Ok("-1".to_string()));
    assert_eq!(parse(StandardType::S8, &[0x80]), Ok("-128".to_string()));
    assert_eq!(parse(StandardType::U16, &[0x01, 0x02]), Ok("258".to_string()));
    assert_eq!(parse(StandardType::S16, &[0x80, 0x00]), Ok("-32768".to_string()));
    assert_eq!(parse(StandardType::U32, &[0, 0, 0, 0]), Ok("0".to_string()));
    assert_eq!(parse(StandardType::S32, &[0xFF, 0xFF, 0xFF, 0xFE]), Ok("-2".to_string()));
    assert_eq!(parse(StandardType::Time, &[0x49, 0x96, 0x02, 0xD2]), Ok("1234567890".to_string()));
    assert_eq!(parse(StandardType::U64, &[0xFF; 8]), Ok("18446744073709551615".to_string()));
    assert_eq!(
        parse(StandardType::S64, &[0x80, 0, 0, 0, 0, 0, 0, 0]),
        Ok("-9223372036854775808".to_string())
    );
}

#[test]
fn vectors_and_arrays_are_blank_separated() {
    assert_eq!(parse(StandardType::U8_3, &[1, 2, 3]), Ok("1 2 3".to_string()));
    assert_eq!(parse(StandardType::S16_2, &[0, 1, 0xFF, 0xFF, 0, 2, 0, 3]), Ok("1 -1 2 3".to_string()));
    assert_eq!(parse(StandardType::U8, &[]), Ok(String::new()));
    assert_eq!(parse(StandardType::Vu8, &[7; 16]).unwrap().split(' ').count(), 16);
}

#[test]
fn booleans_and_addresses() {
    assert_eq!(parse(StandardType::Boolean, &[0]), Ok("0".to_string()));
    assert_eq!(parse(StandardType::Boolean2, &[1, 0]), Ok("1 0".to_string()));
    assert_eq!(parse(StandardType::Boolean2, &[1, 2]), Err(KbinError::InvalidBooleanInput { input: 2 }));
    assert_eq!(parse(StandardType::Ip4, &[192, 168, 0, 1]), Ok("192.168.0.1".to_string()));
    assert_eq!(
        parse(StandardType::Ip4, &[10, 0, 0, 1, 255, 255, 255, 0]),
        Ok("10.0.0.1 255.255.255.0".to_string())
    );
}

#[test]
fn floats_use_the_given_conversion() {
    assert_eq!(parse(StandardType::Float, &[0x3F, 0xC0, 0x00, 0x00]), Ok("1.500000".to_string()));
    assert_eq!(
        parse(StandardType::Double2, &[0x40, 0, 0, 0, 0, 0, 0, 0, 0xBF, 0xE0, 0, 0, 0, 0, 0, 0]),
        Ok("2.000000 -0.500000".to_string())
    );
    assert_eq!(format(StandardType::Float, "1.5", 1), Ok(vec![0x3F, 0xC0, 0x00, 0x00]));
    assert_eq!(format(StandardType::Double, "2", 1), Ok(vec![0x40, 0, 0, 0, 0, 0, 0, 0]));
    assert_eq!(
        format(StandardType::Float, "one", 1),
        Err(KbinError::StringParseFloat { node_type: "float" })
    );
    assert_eq!(
        format(StandardType::Float2, "1", 1),
        Err(KbinError::SizeMismatch { node_type: "2f", expected: 2, actual: 1 })
    );
}

struct Marked;

impl FloatText for Marked {
    fn text_of(&self, bits: FloatBits) -> String {
        match bits {
            FloatBits::Single(b) => format!("s{:x}", b),
            FloatBits::Double(b) => format!("d{:x}", b),
        }
    }

    fn bits_of(&self, _: String, _: bool) -> Option<FloatBits> {
        Some(FloatBits::Double(0))
    }
}

#[test]
fn floats_of_another_precision_are_refused() {
    assert_eq!(
        StandardType::Float.format_bytes("1", 1, &Marked),
        Err(KbinError::StringParseFloat { node_type: "float" })
    );
    assert_eq!(StandardType::Double.format_bytes("1", 1, &Marked), Ok(vec![0; 8]));
    assert_eq!(
        StandardType::Float2.parse_bytes(&[0, 0, 0, 1, 0, 0, 1, 0], &Marked),
        Ok("s1 s100".to_string())
    );
    assert_eq!(
        StandardType::Double.parse_bytes(&[0, 0, 0, 0, 0, 0, 0, 9], &Marked),
        Ok("d9".to_string())
    );
}

#[test]
fn sizes_must_fit() {
    assert_eq!(
        parse(StandardType::U16, &[1, 2, 3]),
        Err(KbinError::SizeMismatch { node_type: "u16", expected: 2, actual: 3 })
    );
    assert_eq!(
        parse(StandardType::S32_3, &[0; 8]),
        Err(KbinError::SizeMismatch { node_type: "3s32", expected: 12, actual: 8 })
    );
    assert_eq!(parse(StandardType::String, b"x"), Err(KbinError::InvalidNodeType { node_type: 11 }));
    assert_eq!(parse(StandardType::Binary, b"x"), Err(KbinError::InvalidNodeType { node_type: 10 }));
    assert_eq!(parse(StandardType::NodeStart, &[]), Err(KbinError::InvalidNodeType { node_type: 1 }));
    assert_eq!(format(StandardType::String, "x", 1), Err(KbinError::InvalidNodeType { node_type: 11 }));
    assert_eq!(format(StandardType::Binary, "", 0), Err(KbinError::InvalidNodeType { node_type: 10 }));
    assert_eq!(
        format(StandardType::U8_2, "1 2 3", 1),
        Err(KbinError::SizeMismatch { node_type: "2u8", expected: 2, actual: 3 })
    );
    assert_eq!(
        format(StandardType::U8, "1", usize::MAX),
        Err(KbinError::SizeMismatch { node_type: "u8", expected: usize::MAX, actual: 1 })
    );
    assert_eq!(
        format(StandardType::U8_2, "1", usize::MAX),
        Err(KbinError::SizeMismatch { node_type: "2u8", expected: usize::MAX, actual: 1 })
    );
}

#[test]
fn text_becomes_bytes() {
    assert_eq!(format(StandardType::U8, "255", 1), Ok(vec![0xFF]));
    assert_eq!(format(StandardType::S8, "-128", 1), Ok(vec![0x80]));
    assert_eq!(format(StandardType::S8, "+5", 1), Ok(vec![5]));
    assert_eq!(format(StandardType::U16, "  258\t", 1), Ok(vec![1, 2]));
    assert_eq!(format(StandardType::S32, "-2", 1), Ok(vec![0xFF, 0xFF, 0xFF, 0xFE]));
    assert_eq!(format(StandardType::U64, "18446744073709551615", 1), Ok(vec![0xFF; 8]));
    assert_eq!(format(StandardType::S64, "-9223372036854775808", 1), Ok(vec![0x80, 0, 0, 0, 0, 0, 0, 0]));
    assert_eq!(format(StandardType::U16_2, "1 2\n3 4", 2), Ok(vec![0, 1, 0, 2, 0, 3, 0, 4]));
    assert_eq!(format(StandardType::Boolean3, "1 0 1", 1), Ok(vec![1, 0, 1]));
    assert_eq!(format(StandardType::Ip4, "192.168.0.1", 1), Ok(vec![192, 168, 0, 1]));
    assert_eq!(format(StandardType::U8, "", 0), Ok(vec![]));
    assert_eq!(format(StandardType::U8, "007", 1), Ok(vec![7]));
}

#[test]
fn numbers_out_of_range_are_refused() {
    let refused = |ty: StandardType, text: &str| {
        assert_eq!(format(ty, text, 1), Err(KbinError::StringParseInt { node_type: ty.name() }));
    };
    refused(StandardType::U8, "256");
    refused(StandardType::U8, "-1");
    refused(StandardType::U8, "-0");
    refused(StandardType::S8, "128");
    refused(StandardType::S8, "-129");
    refused(StandardType::S16, "32768");
    refused(StandardType::U32, "4294967296");
    refused(StandardType::U64, "18446744073709551616");
    refused(StandardType::S64, "9223372036854775808");
    refused(StandardType::U8, "1a");
    refused(StandardType::U8, "+");
    refused(StandardType::S8, "-");
    refused(StandardType::U8, "0x10");
    refused(StandardType::U8, "99999999999999999999999999999999999999999999");
    refused(StandardType::Boolean, "yes");
    refused(StandardType::Ip4, "1.2.3.256");
    refused(StandardType::Ip4, "1.2..4");
}

#[test]
fn booleans_and_addresses_are_checked() {
    assert_eq!(format(StandardType::Boolean, "2", 1), Err(KbinError::InvalidBooleanInput { input: 2 }));
    assert_eq!(format(StandardType::Boolean, "255", 1), Err(KbinError::InvalidBooleanInput { input: 255 }));
    assert_eq!(
        format(StandardType::Ip4, "1.2.3", 1),
        Err(KbinError::SizeMismatch { node_type: "ip4", expected: 4, actual: 3 })
    );
    assert_eq!(
        format(StandardType::Ip4, "1.2.3.4.5", 1),
        Err(KbinError::SizeMismatch { node_type: "ip4", expected: 4, actual: 5 })
    );
}

#[test]
fn first_error_wins() {
    assert_eq!(
        format(StandardType::Boolean2, "7 x", 1),
        Err(KbinError::InvalidBooleanInput { input: 7 })
    );
    assert_eq!(
        format(StandardType::Boolean2, "x 7", 1),
        Err(KbinError::StringParseInt { node_type: "2b" })
    );
    assert_eq!(parse(StandardType::Boolean3, &[3, 1, 4]), Err(KbinError::InvalidBooleanInput { input: 3 }));
}

#[test]
fn markers_have_no_bytes() {
    for ty in [
        StandardType::NodeStart,
        StandardType::Attribute,
        StandardType::NodeEnd,
        StandardType::FileEnd,
    ] {
        assert_eq!(format(ty, "", 0), Ok(vec![]));
        assert_eq!(format(ty, "1 2 3", 7), Ok(vec![]));
        let mut out = vec![9, 8];
        assert_eq!(ty.to_bytes(&mut out, "anything at all", 1, &StdFloats), Ok(()));
        assert_eq!(out, vec![9, 8]);
    }
    let mut out = vec![9, 8];
    assert_eq!(
        StandardType::String.to_bytes(&mut out, "x", 1, &StdFloats),
        Err(KbinError::InvalidNodeType { node_type: 11 })
    );
    assert_eq!(out, vec![9, 8]);
}

#[test]
fn to_bytes_appends() {
    let mut out = vec![9];
    assert_eq!(StandardType::U16.to_bytes(&mut out, "1 2", 2, &StdFloats), Ok(()));
    assert_eq!(out, vec![9, 0, 1, 0, 2]);
    assert!(StandardType::U16.to_bytes(&mut out, "x", 1, &StdFloats).is_err());
    assert_eq!(out, vec![9, 0, 1, 0, 2]);
}

#[test]
fn value_round_trip() {
    let cases: Vec<(StandardType, Vec<u8>)> = vec![
        (StandardType::S8, vec![0x9C]),
        (StandardType::U16_3, vec![0, 1, 0xFF, 0xFF, 0x12, 0x34]),
        (StandardType::S64_2, vec![0xFF; 16]),
        (StandardType::Ip4, vec![127, 0, 0, 1]),
        (StandardType::Vb, vec![1, 0, 1, 0, 1, 0, 1, 0, 1, 1, 1, 1, 0, 0, 0, 0]),
        (StandardType::U32_4, (0u8..48).collect()),
    ];
    for (ty, bytes) in cases {
        let footprint = (ty.size() as usize) * (ty.count() as usize);
        let text = parse(ty, &bytes).unwrap();
        assert_eq!(format(ty, &text, bytes.len() / footprint), Ok(bytes));
    }
}

#[test]
fn reading_integers() {
    assert_eq!(read_int(&chars("0"), 0, 255), Some(0));
    assert_eq!(read_int(&chars("+255"), 0, 255), Some(255));
    assert_eq!(read_int(&chars("256"), 0, 255), None);
    assert_eq!(read_int(&chars("-128"), -128, 127), Some(-128));
    assert_eq!(read_int(&chars("-0"), -128, 127), Some(0));
    assert_eq!(read_int(&chars("-0"), 0, 255), None);
    assert_eq!(read_int(&chars(""), 0, 255), None);
    assert_eq!(read_int(&chars(" 1"), 0, 255), None);
    assert_eq!(read_int(&chars("0000000000000000000000000000012"), 0, 255), Some(12));
    assert_eq!(read_int(&chars("18446744073709551615"), 0, 18446744073709551615), Some(18446744073709551615));
}

#[test]
fn cutting_text() {
    let texts = |v: Vec<Vec<char>>| -> Vec<String> { v.into_iter().map(|w| w.into_iter().collect()).collect() };
    assert_eq!(texts(split(&chars("a.b..c"), Separator::Dot)), vec!["a", "b", "", "c"]);
    assert_eq!(texts(split(&chars(""), Separator::Dot)), vec![""]);
    assert_eq!(texts(split(&chars("."), Separator::Dot)), vec!["", ""]);
    assert_eq!(texts(words(&chars("  a\tb\r\nc  "))), vec!["a", "b", "c"]);
    assert_eq!(texts(words(&chars(" \n "))), Vec::<String>::new());
    assert_eq!(texts(words(&chars("a\u{c}b"))), vec!["a", "b"]);
}
