use crate::error::KbinError;
use encoding::Encoding;
use vstd::prelude::*;

verus! {

/// The text encodings a document can be in, as the third byte of its header names them.
#[derive(Clone, Copy, Debug, PartialEq, Eq, Hash)]
pub enum EncodingType {
    /// No encoding is named; the text is in Shift JIS.
    Unnamed,
    /// ASCII.
    Ascii,
    /// ISO 8859-1.
    Iso8859_1,
    /// EUC-JP.
    EucJp,
    /// Shift JIS.
    ShiftJis,
    /// UTF-8.
    Utf8,
}

/// The text that `bytes` are in Shift JIS, if they are text in it.
pub uninterp spec fn shift_jis_text(bytes: Seq<u8>) -> Option<Seq<char>>;

/// The bytes of `text` in Shift JIS, if it can be written in it.
pub uninterp spec fn shift_jis_bytes(text: Seq<char>) -> Option<Seq<u8>>;

/// The characters with the codes of the bytes, one for each.
pub open spec fn chars_of_bytes(bytes: Seq<u8>) -> Seq<char> {
    Seq::new(bytes.len(), |i: int| (bytes[i] as u32) as char)
}

/// The bytes with the codes of the characters, one for each; for characters
/// with codes below 256.
pub open spec fn bytes_of_chars(text: Seq<char>) -> Seq<u8> {
    Seq::new(text.len(), |i: int| (text[i] as u32) as u8)
}

/// Whether the codes of all the characters are below `limit`.
pub open spec fn chars_below(text: Seq<char>, limit: int) -> bool {
    forall|i: int| 0 <= i < text.len() ==> ((#[trigger] text[i]) as u32) < limit
}

/// Whether all the bytes are below `limit`.
pub open spec fn bytes_below(bytes: Seq<u8>, limit: int) -> bool {
    forall|i: int| 0 <= i < bytes.len() ==> ((#[trigger] bytes[i]) as int) < limit
}

/// The text that `bytes` are in ASCII, if they are text in it: bytes below
/// 128 are the characters of their code, and no others are text.
pub open spec fn ascii_text(bytes: Seq<u8>) -> Option<Seq<char>> {
    if bytes_below(bytes, 0x80) {
        Some(chars_of_bytes(bytes))
    } else {
        None
    }
}

/// The bytes of `text` in ASCII, if it can be written in it: characters with
/// codes below 128 are the bytes of their code, and no others can be written.
pub open spec fn ascii_bytes(text: Seq<char>) -> Option<Seq<u8>> {
    if chars_below(text, 0x80) {
        Some(bytes_of_chars(text))
    } else {
        None
    }
}

/// The text that `bytes` are in ISO 8859-1: every byte is the character of its code.
pub open spec fn latin_1_text(bytes: Seq<u8>) -> Option<Seq<char>> {
    Some(chars_of_bytes(bytes))
}

/// The bytes of `text` in ISO 8859-1, if it can be written in it: characters
/// with codes below 256 are the bytes of their code, and no others can be written.
pub open spec fn latin_1_bytes(text: Seq<char>) -> Option<Seq<u8>> {
    if chars_below(text, 0x100) {
        Some(bytes_of_chars(text))
    } else {
        None
    }
}

/// The text that `bytes` are in EUC-JP, if they are text in it.
pub uninterp spec fn euc_jp_text(bytes: Seq<u8>) -> Option<Seq<char>>;

/// The bytes of `text` in EUC-JP, if it can be written in it.
pub uninterp spec fn euc_jp_bytes(text: Seq<char>) -> Option<Seq<u8>>;

/// The text that `bytes` are in UTF-8, if they are text in it: well-formed
/// UTF-8 is the text that it encodes, and nothing else is text.
pub open spec fn utf_8_text(bytes: Seq<u8>) -> Option<Seq<char>> {
    if vstd::utf8::valid_utf8(bytes) {
        Some(vstd::utf8::decode_utf8(bytes))
    } else {
        None
    }
}

/// The bytes of `text` in UTF-8; every text can be written in it.
pub open spec fn utf_8_bytes(text: Seq<char>) -> Option<Seq<u8>> {
    Some(vstd::utf8::encode_utf8(text))
}

/// `bytes` without the zero bytes at its end.
pub open spec fn strip_nuls(bytes: Seq<u8>) -> Seq<u8>
    decreases bytes.len(),
{
    if bytes.len() > 0 && bytes.last() == 0 {
        strip_nuls(bytes.drop_last())
    } else {
        bytes
    }
}

impl EncodingType {
    /// The byte that names the encoding in the header.
    pub open spec fn spec_to_byte(self) -> u8 {
        match self {
            EncodingType::Unnamed => 0x00,
            EncodingType::Ascii => 0x20,
            EncodingType::Iso8859_1 => 0x40,
            EncodingType::EucJp => 0x60,
            EncodingType::ShiftJis => 0x80,
            EncodingType::Utf8 => 0xA0,
        }
    }

    /// The encoding that the header byte `tag` names, if it names one.
    pub open spec fn spec_from_byte(tag: u8) -> Result<EncodingType, KbinError> {
        match tag {
            0x00 => Ok(EncodingType::Unnamed),
            0x20 => Ok(EncodingType::Ascii),
            0x40 => Ok(EncodingType::Iso8859_1),
            0x60 => Ok(EncodingType::EucJp),
            0x80 => Ok(EncodingType::ShiftJis),
            0xA0 => Ok(EncodingType::Utf8),
            _ => Err(KbinError::UnknownEncodingTag { tag }),
        }
    }

    /// The text that `bytes` are in this encoding, if they are text in it.
    /// Where no encoding is named, the text is in Shift JIS.
    pub open spec fn decoded(self, bytes: Seq<u8>) -> Option<Seq<char>> {
        match self {
            EncodingType::Unnamed | EncodingType::ShiftJis => shift_jis_text(bytes),
            EncodingType::Ascii => ascii_text(bytes),
            EncodingType::Iso8859_1 => latin_1_text(bytes),
            EncodingType::EucJp => euc_jp_text(bytes),
            EncodingType::Utf8 => utf_8_text(bytes),
        }
    }

    /// The bytes of `text` in this encoding, if it can be written in it.
    /// Where no encoding is named, the text is written in Shift JIS.
    pub open spec fn encoded(self, text: Seq<char>) -> Option<Seq<u8>> {
        match self {
            EncodingType::Unnamed | EncodingType::ShiftJis => shift_jis_bytes(text),
            EncodingType::Ascii => ascii_bytes(text),
            EncodingType::Iso8859_1 => latin_1_bytes(text),
            EncodingType::EucJp => euc_jp_bytes(text),
            EncodingType::Utf8 => utf_8_bytes(text),
        }
    }

    /// The text of a string as it was read: what its bytes, without the zero
    /// bytes at their end, are in this encoding.
    pub open spec fn spec_decode_bytes(self, input: Seq<u8>) -> Result<Seq<char>, KbinError> {
        match self.decoded(strip_nuls(input)) {
            Some(text) => Ok(text),
            None => Err(KbinError::Decode),
        }
    }

    /// The bytes of `text` in this encoding.
    pub open spec fn spec_encode_text(self, text: Seq<char>) -> Result<Seq<u8>, KbinError> {
        match self.encoded(text) {
            Some(bytes) => Ok(bytes),
            None => Err(KbinError::Encode),
        }
    }

    /// The bytes of a string as it is written: `text` in this encoding, and a zero byte.
    pub open spec fn spec_encode_bytes(self, text: Seq<char>) -> Result<Seq<u8>, KbinError> {
        match self.spec_encode_text(text) {
            Ok(bytes) => Ok(bytes.push(0)),
            Err(e) => Err(e),
        }
    }

    /// The byte that names the encoding in the header.
    pub fn to_byte(&self) -> (r: u8)
        ensures
            r == self.spec_to_byte(),
    {
        match self {
            EncodingType::Unnamed => 0x00,
            EncodingType::Ascii => 0x20,
            EncodingType::Iso8859_1 => 0x40,
            EncodingType::EucJp => 0x60,
            EncodingType::ShiftJis => 0x80,
            EncodingType::Utf8 => 0xA0,
        }
    }

    /// The encoding that the header byte `tag` names.
    pub fn from_byte(tag: u8) -> (r: Result<EncodingType, KbinError>)
        ensures
            r == Self::spec_from_byte(tag),
    {
        match tag {
            0x00 => Ok(EncodingType::Unnamed),
            0x20 => Ok(EncodingType::Ascii),
            0x40 => Ok(EncodingType::Iso8859_1),
            0x60 => Ok(EncodingType::EucJp),
            0x80 => Ok(EncodingType::ShiftJis),
            0xA0 => Ok(EncodingType::Utf8),
            _ => Err(KbinError::UnknownEncodingTag { tag }),
        }
    }

    /// The text of a string as it was read: its bytes, without the zero bytes
    /// at their end, decoded.
    pub fn decode_bytes(&self, input: &[u8]) -> (r: Result<String, KbinError>)
        ensures
            crate::lanes::text_result(r) == self.spec_decode_bytes(input@),
    {
        let mut end: usize = input.len();
        proof {
            assert(input@.take(input.len() as int) == input@);
        }
        while end > 0 && input[end - 1] == 0
            invariant
                end <= input.len(),
                strip_nuls(input@) == strip_nuls(input@.take(end as int)),
            decreases end,
        {
            proof {
                assert(input@.take(end as int).drop_last() == input@.take(end - 1));
            }
            end -= 1;
        }
        proof {
            assert(strip_nuls(input@.take(end as int)) == input@.take(end as int));
            assert(input@.subrange(0, end as int) == input@.take(end as int));
        }
        let body = crate::strings::copy_range(input, 0, end);
        match decode_strict(*self, body.as_slice()) {
            Ok(text) => Ok(text),
            Err(_) => Err(KbinError::Decode),
        }
    }

    /// The bytes of `input` in this encoding.
    pub fn encode_text(&self, input: &str) -> (r: Result<Vec<u8>, KbinError>)
        ensures
            crate::lanes::bytes_result(r) == self.spec_encode_text(input@),
    {
        match encode_strict(*self, input) {
            Ok(bytes) => Ok(bytes),
            Err(_) => Err(KbinError::Encode),
        }
    }

    /// The bytes of a string as it is written: the text encoded, and a zero byte.
    pub fn encode_bytes(&self, input: &str) -> (r: Result<Vec<u8>, KbinError>)
        ensures
            crate::lanes::bytes_result(r) == self.spec_encode_bytes(input@),
    {
        match self.encode_text(input) {
            Ok(bytes) => {
                let mut bytes = bytes;
                bytes.push(0);
                Ok(bytes)
            },
            Err(e) => Err(e),
        }
    }
}

/// Every encoding is found again by its header byte.
pub proof fn lemma_encoding_tag_round_trip(e: EncodingType, tag: u8)
    ensures
        EncodingType::spec_from_byte(e.spec_to_byte()) == Ok::<EncodingType, KbinError>(e),
        EncodingType::spec_from_byte(tag) matches Ok(found) ==> found.spec_to_byte() == tag,
{
}

/// The error of the codecs: a word on what went wrong. It is only ever dropped.
type CodecError = std::borrow::Cow<'static, str>;

/// Decodes bytes, and fails where they are not text in the encoding.
fn decode_strict(kind: EncodingType, bytes: &[u8]) -> (r: Result<String, CodecError>)
    ensures
        match r {
            Ok(text) => kind.decoded(bytes@) == Some(text@),
            Err(_) => kind.decoded(bytes@) is None,
        },
{
    match kind {
        EncodingType::Unnamed | EncodingType::ShiftJis => decode_shift_jis(bytes),
        EncodingType::Ascii => decode_ascii(bytes),
        EncodingType::Iso8859_1 => decode_latin_1(bytes),
        EncodingType::EucJp => decode_euc_jp(bytes),
        EncodingType::Utf8 => decode_utf_8(bytes),
    }
}

/// Encodes text, and fails where it cannot be written in the encoding.
fn encode_strict(kind: EncodingType, text: &str) -> (r: Result<Vec<u8>, CodecError>)
    ensures
        match r {
            Ok(bytes) => kind.encoded(text@) == Some(bytes@),
            Err(_) => kind.encoded(text@) is None,
        },
{
    match kind {
        EncodingType::Unnamed | EncodingType::ShiftJis => encode_shift_jis(text),
        EncodingType::Ascii => encode_ascii(text),
        EncodingType::Iso8859_1 => encode_latin_1(text),
        EncodingType::EucJp => encode_euc_jp(text),
        EncodingType::Utf8 => encode_utf_8(text),
    }
}

/// Decodes Shift JIS.
///
/// Calls `decode` of `encoding::Encoding` on the codec `encoding::all::WINDOWS_31J`,
/// with the trap that fails on the first error. The result depends on the
/// bytes alone; the contract gives it a name and claims nothing else.
#[verifier::external_body]
fn decode_shift_jis(bytes: &[u8]) -> (r: Result<String, std::borrow::Cow<'static, str>>)
    ensures
        match r {
            Ok(text) => shift_jis_text(bytes@) == Some(text@),
            Err(_) => shift_jis_text(bytes@) is None,
        },
{
    encoding::all::WINDOWS_31J.decode(bytes, encoding::DecoderTrap::Strict)
}

/// Encodes Shift JIS.
///
/// Calls `encode` of `encoding::Encoding` on the codec `encoding::all::WINDOWS_31J`,
/// with the trap that fails on the first error. The result depends on the
/// text alone; the contract gives it a name and claims nothing else.
#[verifier::external_body]
fn encode_shift_jis(text: &str) -> (r: Result<Vec<u8>, std::borrow::Cow<'static, str>>)
    ensures
        match r {
            Ok(bytes) => shift_jis_bytes(text@) == Some(bytes@),
            Err(_) => shift_jis_bytes(text@) is None,
        },
{
    encoding::all::WINDOWS_31J.encode(text, encoding::EncoderTrap::Strict)
}

/// Decodes ASCII.
///
/// Calls `decode` of `encoding::Encoding` on the codec `encoding::all::ASCII`,
/// with the trap that fails on the first error.
/// That codec takes each byte below 128 for the character of its code and fails on
/// the first other byte; the contract claims that.
#[verifier::external_body]
fn decode_ascii(bytes: &[u8]) -> (r: Result<String, std::borrow::Cow<'static, str>>)
    ensures
        match r {
            Ok(text) => ascii_text(bytes@) == Some(text@),
            Err(_) => ascii_text(bytes@) is None,
        },
{
    encoding::all::ASCII.decode(bytes, encoding::DecoderTrap::Strict)
}

/// Encodes ASCII.
///
/// Calls `encode` of `encoding::Encoding` on the codec `encoding::all::ASCII`,
/// with the trap that fails on the first error.
/// That codec writes each character below 128 as the byte of its code and fails on
/// the first other character; the contract claims that.
#[verifier::external_body]
fn encode_ascii(text: &str) -> (r: Result<Vec<u8>, std::borrow::Cow<'static, str>>)
    ensures
        match r {
            Ok(bytes) => ascii_bytes(text@) == Some(bytes@),
            Err(_) => ascii_bytes(text@) is None,
        },
{
    encoding::all::ASCII.encode(text, encoding::EncoderTrap::Strict)
}

/// Decodes ISO 8859-1.
///
/// Calls `decode` of `encoding::Encoding` on the codec `encoding::all::ISO_8859_1`,
/// with the trap that fails on the first error.
/// That codec takes every byte for the character of its code and never fails; the
/// contract claims that.
#[verifier::external_body]
fn decode_latin_1(bytes: &[u8]) -> (r: Result<String, std::borrow::Cow<'static, str>>)
    ensures
        match r {
            Ok(text) => latin_1_text(bytes@) == Some(text@),
            Err(_) => latin_1_text(bytes@) is None,
        },
{
    encoding::all::ISO_8859_1.decode(bytes, encoding::DecoderTrap::Strict)
}

/// Encodes ISO 8859-1.
///
/// Calls `encode` of `encoding::Encoding` on the codec `encoding::all::ISO_8859_1`,
/// with the trap that fails on the first error.
/// That codec writes each character below 256 as the byte of its code and fails on
/// the first other character; the contract claims that.
#[verifier::external_body]
fn encode_latin_1(text: &str) -> (r: Result<Vec<u8>, std::borrow::Cow<'static, str>>)
    ensures
        match r {
            Ok(bytes) => latin_1_bytes(text@) == Some(bytes@),
            Err(_) => latin_1_bytes(text@) is None,
        },
{
    encoding::all::ISO_8859_1.encode(text, encoding::EncoderTrap::Strict)
}

/// Decodes EUC-JP.
///
/// Calls `decode` of `encoding::Encoding` on the codec `encoding::all::EUC_JP`,
/// with the trap that fails on the first error. The result depends on the
/// bytes alone; the contract gives it a name and claims nothing else.
#[verifier::external_body]
fn decode_euc_jp(bytes: &[u8]) -> (r: Result<String, std::borrow::Cow<'static, str>>)
    ensures
        match r {
            Ok(text) => euc_jp_text(bytes@) == Some(text@),
            Err(_) => euc_jp_text(bytes@) is None,
        },
{
    encoding::all::EUC_JP.decode(bytes, encoding::DecoderTrap::Strict)
}

/// Encodes EUC-JP.
///
/// Calls `encode` of `encoding::Encoding` on the codec `encoding::all::EUC_JP`,
/// with the trap that fails on the first error. The result depends on the
/// text alone; the contract gives it a name and claims nothing else.
#[verifier::external_body]
fn encode_euc_jp(text: &str) -> (r: Result<Vec<u8>, std::borrow::Cow<'static, str>>)
    ensures
        match r {
            Ok(bytes) => euc_jp_bytes(text@) == Some(bytes@),
            Err(_) => euc_jp_bytes(text@) is None,
        },
{
    encoding::all::EUC_JP.encode(text, encoding::EncoderTrap::Strict)
}

/// Decodes UTF-8.
///
/// Calls `decode` of `encoding::Encoding` on the codec `encoding::all::UTF_8`,
/// with the trap that fails on the first error.
/// That codec accepts well-formed UTF-8, of which it gives the text, and fails on
/// anything else; the contract claims that.
#[verifier::external_body]
fn decode_utf_8(bytes: &[u8]) -> (r: Result<String, std::borrow::Cow<'static, str>>)
    ensures
        match r {
            Ok(text) => utf_8_text(bytes@) == Some(text@),
            Err(_) => utf_8_text(bytes@) is None,
        },
{
    encoding::all::UTF_8.decode(bytes, encoding::DecoderTrap::Strict)
}

/// Encodes UTF-8.
///
/// Calls `encode` of `encoding::Encoding` on the codec `encoding::all::UTF_8`,
/// with the trap that fails on the first error.
/// That codec writes the bytes of the text as they are, which are UTF-8, and never
/// fails; the contract claims that.
#[verifier::external_body]
fn encode_utf_8(text: &str) -> (r: Result<Vec<u8>, std::borrow::Cow<'static, str>>)
    ensures
        match r {
            Ok(bytes) => utf_8_bytes(text@) == Some(bytes@),
            Err(_) => utf_8_bytes(text@) is None,
        },
{
    encoding::all::UTF_8.encode(text, encoding::EncoderTrap::Strict)
}

/// Bytes without zero bytes at their end stay as they are, also with one zero byte more.
pub proof fn lemma_strip_nuls(bytes: Seq<u8>)
    requires
        bytes.len() > 0 ==> bytes.last() != 0,
    ensures
        strip_nuls(bytes) == bytes,
        strip_nuls(bytes.push(0)) == bytes,
{
    assert(bytes.push(0).drop_last() == bytes);
}

/// A text of characters below 256 that does not end with the character of
/// code zero is written in ISO 8859-1 and read again as it was. So is a text
/// of characters below 128 in ASCII.
pub proof fn lemma_single_byte_text_survives(text: Seq<char>)
    requires
        chars_below(text, 0x100),
        text.len() > 0 ==> text.last() != '\0',
    ensures
        EncodingType::Iso8859_1.spec_encode_bytes(text) == Ok::<Seq<u8>, KbinError>(
            bytes_of_chars(text).push(0),
        ),
        EncodingType::Iso8859_1.spec_decode_bytes(bytes_of_chars(text).push(0)) == Ok::<
            Seq<char>,
            KbinError,
        >(text),
        chars_below(text, 0x80) ==> EncodingType::Ascii.spec_encode_bytes(text) == Ok::<
            Seq<u8>,
            KbinError,
        >(bytes_of_chars(text).push(0)) && EncodingType::Ascii.spec_decode_bytes(
            bytes_of_chars(text).push(0),
        ) == Ok::<Seq<char>, KbinError>(text),
{
    let bytes = bytes_of_chars(text);
    if text.len() > 0 {
        let last = text[text.len() - 1];
        assert((last as u32) < 0x100);
        assert(bytes.last() == (last as u32) as u8);
        if last as u32 == 0 {
            vstd::utf8::char_u32_cast(last, 0u32);
            vstd::utf8::char_u32_cast('\0', 0u32);
        }
    }
    lemma_strip_nuls(bytes);
    assert forall|i: int| 0 <= i < text.len() implies chars_of_bytes(bytes)[i] == text[i] by {
        let c = text[i];
        assert((c as u32) < 0x100);
        assert(bytes[i] == (c as u32) as u8);
        vstd::utf8::char_u32_cast(c, c as u32);
    }
    assert(chars_of_bytes(bytes) == text);
    if chars_below(text, 0x80) {
        assert forall|i: int| 0 <= i < bytes.len() implies ((#[trigger] bytes[i]) as int)
            < 0x80 by {
            assert((text[i] as u32) < 0x80);
        }
    }
}

/// A text of ASCII characters that does not end with the character of code
/// zero is written in UTF-8 as the bytes of its codes and a zero byte, and is
/// read again as it was.
pub proof fn lemma_ascii_text_survives_in_utf_8(text: Seq<char>)
    requires
        vstd::utf8::is_ascii_chars(text),
        text.len() > 0 ==> text.last() != '\0',
    ensures
        EncodingType::Utf8.spec_encode_bytes(text) == Ok::<Seq<u8>, KbinError>(
            vstd::utf8::encode_utf8(text).push(0),
        ),
        vstd::utf8::encode_utf8(text).len() == text.len(),
        forall|i: int|
            0 <= i < text.len() ==> (#[trigger] vstd::utf8::encode_utf8(text)[i]) == text[i] as u8,
        EncodingType::Utf8.spec_decode_bytes(vstd::utf8::encode_utf8(text).push(0)) == Ok::<
            Seq<char>,
            KbinError,
        >(text),
{
    let bytes = vstd::utf8::encode_utf8(text);
    vstd::utf8::is_ascii_chars_encode_utf8(text);
    vstd::utf8::is_ascii_chars_nat_bound(text);
    vstd::utf8::encode_utf8_valid_utf8(text);
    vstd::utf8::encode_utf8_decode_utf8(text);
    if text.len() > 0 {
        let last = text[text.len() - 1];
        assert(bytes.last() == last as u8);
        assert((last as nat) < 128);
        if last as u32 == 0 {
            vstd::utf8::char_u32_cast(last, 0u32);
            vstd::utf8::char_u32_cast('\0', 0u32);
        }
        assert(last as u8 != 0);
    }
    lemma_strip_nuls(bytes);
}

/// The bytes of a text in UTF-8 end with a zero byte only where the text
/// ends with the character of code zero.
pub proof fn lemma_utf_8_last_byte(text: Seq<char>)
    requires
        text.len() > 0,
        text.last() != '\0',
    ensures
        vstd::utf8::encode_utf8(text).len() > 0,
        vstd::utf8::encode_utf8(text).last() != 0,
    decreases text.len(),
{
    let c = text[0] as u32;
    let head = vstd::utf8::encode_scalar(c);
    let rest = text.drop_first();
    if rest.len() == 0 {
        assert(vstd::utf8::encode_utf8(rest) == Seq::<u8>::empty());
        assert(vstd::utf8::encode_utf8(text) == head);
        if c == 0 {
            vstd::utf8::char_u32_cast(text[0], 0u32);
            vstd::utf8::char_u32_cast('\0', 0u32);
        }
        assert((c & 0x7F) as u8 != 0 || c > 0x7F) by (bit_vector)
            requires
                c != 0,
        ;
        assert(0x80u8 | (c & 0x3F) as u8 != 0) by (bit_vector);
    } else {
        assert(rest.last() == text.last());
        lemma_utf_8_last_byte(rest);
        assert(vstd::utf8::encode_utf8(text).last() == vstd::utf8::encode_utf8(rest).last());
    }
}

/// A text that does not end with the character of code zero is written in
/// UTF-8 and read again as it was.
pub proof fn lemma_text_survives_in_utf_8(text: Seq<char>)
    requires
        text.len() > 0 ==> text.last() != '\0',
    ensures
        EncodingType::Utf8.spec_encode_bytes(text) == Ok::<Seq<u8>, KbinError>(
            vstd::utf8::encode_utf8(text).push(0),
        ),
        EncodingType::Utf8.spec_decode_bytes(vstd::utf8::encode_utf8(text).push(0)) == Ok::<
            Seq<char>,
            KbinError,
        >(text),
{
    let bytes = vstd::utf8::encode_utf8(text);
    vstd::utf8::encode_utf8_valid_utf8(text);
    vstd::utf8::encode_utf8_decode_utf8(text);
    if text.len() > 0 {
        lemma_utf_8_last_byte(text);
    }
    lemma_strip_nuls(bytes);
}

} // verus!
