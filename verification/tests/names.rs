use kbinxml::encoding_type::EncodingType;
use kbinxml::sixbit::{code_of, pack, symbol_of, unpack};
use kbinxml::KbinError;

#[test]
fn alphabet_order() {
    assert_eq!(code_of('0'), Some(0));
    assert_eq!(code_of('9'), Some(9));
    assert_eq!(code_of('A'), Some(10));
    assert_eq!(code_of('Z'), Some(35));
    assert_eq!(code_of('a'), Some(36));
    assert_eq!(code_of('z'), Some(61));
    assert_eq!(code_of(':'), Some(62));
    assert_eq!(code_of('_'), Some(63));
    assert_eq!(code_of('-'), None);
    assert_eq!(code_of(' '), None);
    for code in 0u8..64 {
        assert_eq!(code_of(symbol_of(code)), Some(code));
    }
}

#[test]
fn pack_single_letter() {
    assert_eq!(pack("A"), Ok(vec![1, 0x28]));
}

#[test]
fn pack_hello() {
    assert_eq!(pack("hello"), Ok(vec![5, 0xAE, 0x8B, 0xEF, 0xC8]));
}

#[test]
fn pack_empty_name() {
    assert_eq!(pack(""), Ok(vec![0]));
    assert_eq!(unpack(&[0], 0), Ok((String::new(), 1)));
}

#[test]
fn packed_length_formula() {
    for n in 0usize..=255 {
        let name: String = std::iter::repeat('x').take(n).collect();
        let packed = pack(&name).unwrap();
        assert_eq!(packed.len(), 1 + (6 * n + 7) / 8);
        assert_eq!(packed[0] as usize, n);
    }
}

#[test]
fn sixbit_round_trip() {
    let names = ["a", "ab", "abc", "abcd", "music_id", "__type", "x:y", "0123456789", "Zz"];
    for name in names {
        let packed = pack(name).unwrap();
        assert_eq!(unpack(&packed, 0), Ok((name.to_string(), packed.len())));
    }
}

#[test]
fn unpack_at_offset() {
    let mut bytes = vec![0xFF, 0xFF];
    bytes.extend(pack("hello").unwrap());
    bytes.push(0x77);
    assert_eq!(unpack(&bytes, 2), Ok(("hello".to_string(), 7)));
}

#[test]
fn unpack_ignores_padding_bits() {
    assert_eq!(unpack(&[1, 0x2B], 0), Ok(("A".to_string(), 2)));
}

#[test]
fn pack_unknown_character() {
    assert_eq!(pack("a-b"), Err(KbinError::SixbitUnknownChar { character: '-' }));
    assert_eq!(pack("é"), Err(KbinError::SixbitUnknownChar { character: 'é' }));
}

#[test]
fn pack_too_long() {
    let name: String = std::iter::repeat('x').take(256).collect();
    assert_eq!(pack(&name), Err(KbinError::SixbitLength { length: 256 }));
}

#[test]
fn unpack_truncated() {
    assert_eq!(unpack(&[], 0), Err(KbinError::DataRead { size: 1 }));
    assert_eq!(unpack(&[5, 0xAE, 0x8B], 0), Err(KbinError::DataRead { size: 4 }));
}

#[test]
fn encoding_tags() {
    assert_eq!(EncodingType::from_byte(0x00), Ok(EncodingType::Unnamed));
    assert_eq!(EncodingType::from_byte(0x20), Ok(EncodingType::Ascii));
    assert_eq!(EncodingType::from_byte(0x40), Ok(EncodingType::Iso8859_1));
    assert_eq!(EncodingType::from_byte(0x60), Ok(EncodingType::EucJp));
    assert_eq!(EncodingType::from_byte(0x80), Ok(EncodingType::ShiftJis));
    assert_eq!(EncodingType::from_byte(0xA0), Ok(EncodingType::Utf8));
    assert_eq!(EncodingType::from_byte(0x10), Err(KbinError::UnknownEncodingTag { tag: 0x10 }));
    for tag in [0x00u8, 0x20, 0x40, 0x60, 0x80, 0xA0] {
        assert_eq!(EncodingType::from_byte(tag).unwrap().to_byte(), tag);
    }
}

#[test]
fn shift_jis_text() {
    let bytes = EncodingType::ShiftJis.encode_bytes("あ").unwrap();
    assert_eq!(bytes, vec![0x82, 0xA0, 0x00]);
    assert_eq!(EncodingType::ShiftJis.decode_bytes(&bytes), Ok("あ".to_string()));
    assert_eq!(EncodingType::Unnamed.decode_bytes(&[0x82, 0xA0]), Ok("あ".to_string()));
}

#[test]
fn euc_jp_text() {
    let bytes = EncodingType::EucJp.encode_bytes("あ").unwrap();
    assert_eq!(bytes, vec![0xA4, 0xA2, 0x00]);
    assert_eq!(EncodingType::EucJp.decode_bytes(&bytes), Ok("あ".to_string()));
}

#[test]
fn latin_1_text() {
    assert_eq!(EncodingType::Iso8859_1.encode_bytes("é"), Ok(vec![0xE9, 0x00]));
    assert_eq!(EncodingType::Iso8859_1.decode_bytes(&[0xE9]), Ok("é".to_string()));
}

#[test]
fn utf8_text() {
    assert_eq!(EncodingType::Utf8.encode_text("é"), Ok(vec![0xC3, 0xA9]));
    assert_eq!(EncodingType::Utf8.decode_bytes(&[0xC3, 0xA9, 0, 0]), Ok("é".to_string()));
}

#[test]
fn trailing_nuls_are_stripped() {
    assert_eq!(EncodingType::Ascii.decode_bytes(b"abc\0\0\0"), Ok("abc".to_string()));
    assert_eq!(EncodingType::Ascii.decode_bytes(b"\0"), Ok(String::new()));
    assert_eq!(EncodingType::Ascii.decode_bytes(b"a\0b\0"), Ok("a\0b".to_string()));
}

#[test]
fn text_outside_the_encoding() {
    assert_eq!(EncodingType::Ascii.encode_bytes("é"), Err(KbinError::Encode));
    assert_eq!(EncodingType::Ascii.decode_bytes(&[0xE9]), Err(KbinError::Decode));
    assert_eq!(EncodingType::Utf8.decode_bytes(&[0xFF]), Err(KbinError::Decode));
    assert_eq!(EncodingType::ShiftJis.decode_bytes(&[0x82]), Err(KbinError::Decode));
}

#[test]
fn single_byte_encodings_take_codes_for_characters() {
    let all: Vec<u8> = (1u8..=255).collect();
    let text = EncodingType::Iso8859_1.decode_bytes(&all).unwrap();
    assert_eq!(text.chars().map(|c| c as u32).collect::<Vec<u32>>(), (1u32..=255).collect::<Vec<u32>>());
    let mut written = all.clone();
    written.push(0);
    assert_eq!(EncodingType::Iso8859_1.encode_bytes(&text), Ok(written));
    assert_eq!(EncodingType::Iso8859_1.encode_bytes("あ"), Err(KbinError::Encode));
    assert_eq!(EncodingType::Iso8859_1.encode_bytes("\u{100}"), Err(KbinError::Encode));
    let low: Vec<u8> = (1u8..128).collect();
    let text = EncodingType::Ascii.decode_bytes(&low).unwrap();
    assert_eq!(text.as_bytes(), &low[..]);
    assert_eq!(EncodingType::Ascii.encode_text(&text), Ok(low));
    assert_eq!(EncodingType::Ascii.decode_bytes(&[0x41, 0x80]), Err(KbinError::Decode));
    assert_eq!(EncodingType::Ascii.encode_bytes("\u{80}"), Err(KbinError::Encode));
}

#[test]
fn utf8_is_well_formed_or_refused() {
    assert_eq!(EncodingType::Utf8.decode_bytes(&[0xF0, 0x9F, 0x98, 0x80]), Ok("😀".to_string()));
    assert_eq!(EncodingType::Utf8.encode_text("😀"), Ok(vec![0xF0, 0x9F, 0x98, 0x80]));
    assert_eq!(EncodingType::Utf8.encode_bytes("hello"), Ok(b"hello\0".to_vec()));
    for bad in [
        vec![0xC0, 0x80],
        vec![0xE0, 0x80, 0x80],
        vec![0xED, 0xA0, 0x80],
        vec![0xF4, 0x90, 0x80, 0x80],
        vec![0xF5, 0x80, 0x80, 0x80],
        vec![0x80],
        vec![0xC3],
        vec![0x41, 0xE3, 0x81],
    ] {
        assert_eq!(EncodingType::Utf8.decode_bytes(&bad), Err(KbinError::Decode));
    }
}
