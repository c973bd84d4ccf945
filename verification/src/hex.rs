use rustc_hex::FromHex;
use vstd::prelude::*;

verus! {

/// The error of the hexadecimal decoder; it is only ever passed on.
#[verifier::external_type_specification]
#[verifier::external_body]
pub struct ExFromHexError(rustc_hex::FromHexError);

/// The number that a hexadecimal digit stands for; capitals and small letters alike.
pub open spec fn hex_digit_value(c: char) -> Option<u8> {
    if '0' <= c && c <= '9' {
        Some((c as u32 - 48) as u8)
    } else if 'a' <= c && c <= 'f' {
        Some((c as u32 - 97 + 10) as u8)
    } else if 'A' <= c && c <= 'F' {
        Some((c as u32 - 65 + 10) as u8)
    } else {
        None
    }
}

/// Whether `c` is one of the characters that may stand between hexadecimal digits.
pub open spec fn is_hex_blank(c: char) -> bool {
    c == ' ' || c == '\r' || c == '\n' || c == '\t'
}

/// The numbers that the hexadecimal digits of `text` stand for, in order.
pub open spec fn hex_digits(text: Seq<char>) -> Seq<u8>
    decreases text.len(),
{
    if text.len() == 0 {
        Seq::empty()
    } else {
        match hex_digit_value(text.last()) {
            Some(v) => hex_digits(text.drop_last()).push(v),
            None => hex_digits(text.drop_last()),
        }
    }
}

/// Whether `text` is hexadecimal: an even number of digits, with nothing but
/// blanks, tabs and line ends among them.
pub open spec fn hex_valid(text: Seq<char>) -> bool {
    &&& forall|i: int|
        0 <= i < text.len() ==> is_hex_blank(#[trigger] text[i]) || hex_digit_value(text[i])
            is Some
    &&& hex_digits(text).len() % 2 == 0
}

/// The bytes that hexadecimal text denotes: one for each two digits, the first
/// digit in the upper half.
pub open spec fn hex_bytes(text: Seq<char>) -> Seq<u8> {
    Seq::new(
        hex_digits(text).len() / 2,
        |i: int| (hex_digits(text)[2 * i] * 16 + hex_digits(text)[2 * i + 1]) as u8,
    )
}

/// The small hexadecimal digit for a number below 16.
pub open spec fn hex_char(v: u8) -> char {
    if v < 10 {
        (v + 48) as char
    } else {
        (v - 10 + 97) as char
    }
}

/// The hexadecimal text of `bytes`: two small digits for each byte, the upper half first.
pub open spec fn hex_text(bytes: Seq<u8>) -> Seq<char> {
    Seq::new(
        2 * bytes.len(),
        |i: int|
            if i % 2 == 0 {
                hex_char(bytes[i / 2] / 16)
            } else {
                hex_char(bytes[i / 2] % 16)
            },
    )
}

/// Decodes hexadecimal text.
///
/// Calls `from_hex` of `rustc_hex::FromHex` on the text and collects the
/// bytes in a vector. That function skips blanks, tabs, carriage returns and
/// line feeds, joins each two hexadecimal digits to a byte, and fails on any
/// other character and on an odd number of digits. The contract claims that
/// it succeeds exactly on such text, and claims the bytes.
#[verifier::external_body]
pub(crate) fn from_hex(text: &str) -> (r: Result<Vec<u8>, rustc_hex::FromHexError>)
    ensures
        match r {
            Ok(bytes) => hex_valid(text@) && bytes@ == hex_bytes(text@),
            Err(_) => !hex_valid(text@),
        },
{
    text.from_hex::<Vec<u8>>()
}

/// Appends the hexadecimal text of `bytes` to `out`.
pub fn push_hex(out: &mut Vec<char>, bytes: &[u8])
    ensures
        final(out)@ == old(out)@ + hex_text(bytes@),
{
    let mut i: usize = 0;
    assert(out@ == old(out)@ + hex_text(bytes@).take(0));
    while i < bytes.len()
        invariant
            i <= bytes.len(),
            out@ == old(out)@ + hex_text(bytes@).take(2 * i),
        decreases bytes.len() - i,
    {
        let b = bytes[i];
        let hi = b / 16;
        let lo = b % 16;
        out.push(
            if hi < 10 {
                (hi + 48) as char
            } else {
                (hi - 10 + 97) as char
            },
        );
        out.push(
            if lo < 10 {
                (lo + 48) as char
            } else {
                (lo - 10 + 97) as char
            },
        );
        proof {
            let t = hex_text(bytes@);
            assert(t.take(2 * i + 2) == t.take(2 * i).push(t[2 * i]).push(t[2 * i + 1]));
        }
        i += 1;
    }
    assert(hex_text(bytes@).take(2 * bytes.len()) == hex_text(bytes@));
}

/// The digits of the hexadecimal text of bytes are their halves, upper half first.
pub proof fn lemma_hex_digits_of_text(bytes: Seq<u8>)
    ensures
        hex_digits(hex_text(bytes)).len() == 2 * bytes.len(),
        forall|i: int|
            0 <= i < bytes.len() ==> hex_digits(hex_text(bytes))[2 * i] == bytes[i] / 16
                && hex_digits(hex_text(bytes))[2 * i + 1] == bytes[i] % 16,
    decreases bytes.len(),
{
    if bytes.len() > 0 {
        let head = bytes.drop_last();
        lemma_hex_digits_of_text(head);
        let t = hex_text(bytes);
        let t1 = t.drop_last();
        let t2 = t1.drop_last();
        assert(t2 == hex_text(head));
        assert(hex_digit_value(hex_char(bytes.last() / 16)) == Some((bytes.last() / 16) as u8));
        assert(hex_digit_value(hex_char(bytes.last() % 16)) == Some((bytes.last() % 16) as u8));
        assert(t.last() == hex_char(bytes.last() % 16));
        assert(t1.last() == hex_char(bytes.last() / 16));
        assert(hex_digits(t1) == hex_digits(t2).push(bytes.last() / 16));
        assert(hex_digits(t) == hex_digits(t1).push(bytes.last() % 16));
        let d = hex_digits(t);
        let d2 = hex_digits(t2);
        assert forall|i: int| 0 <= i < bytes.len() implies d[2 * i] == bytes[i] / 16 && d[2 * i
            + 1] == bytes[i] % 16 by {
            if i < head.len() {
                assert(head[i] == bytes[i]);
                assert(d[2 * i] == d2[2 * i]);
                assert(d[2 * i + 1] == d2[2 * i + 1]);
            }
        }
    }
}

/// The hexadecimal text of bytes is hexadecimal and denotes those bytes.
pub proof fn lemma_hex_round_trip(bytes: Seq<u8>)
    ensures
        hex_valid(hex_text(bytes)),
        hex_bytes(hex_text(bytes)) == bytes,
{
    lemma_hex_digits_of_text(bytes);
    let t = hex_text(bytes);
    assert forall|i: int| 0 <= i < t.len() implies is_hex_blank(#[trigger] t[i])
        || hex_digit_value(t[i]) is Some by {
        assert(hex_digit_value(hex_char(bytes[i / 2] / 16)) is Some);
        assert(hex_digit_value(hex_char(bytes[i / 2] % 16)) is Some);
    }
    assert forall|i: int| 0 <= i < bytes.len() implies hex_bytes(t)[i] == bytes[i] by {
        assert((bytes[i] / 16) * 16 + bytes[i] % 16 == bytes[i]);
    }
    assert(hex_bytes(t) == bytes);
}

} // verus!
