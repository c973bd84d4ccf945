use crate::error::KbinError;
use crate::lanes::bytes_result;
use crate::strings::{chars_of, string_of};
use vstd::prelude::*;

verus! {

/// The six-bit code of a character of the name alphabet.
///
/// The alphabet is the ten digits, the capital letters, the small letters,
/// the colon and the underscore, in this order; the place of a character in
/// it is its code.
pub open spec fn spec_code(c: char) -> Option<u8> {
    if '0' <= c && c <= '9' {
        Some((c as u32 - 48) as u8)
    } else if 'A' <= c && c <= 'Z' {
        Some((c as u32 - 65 + 10) as u8)
    } else if 'a' <= c && c <= 'z' {
        Some((c as u32 - 97 + 36) as u8)
    } else if c == ':' {
        Some(62)
    } else if c == '_' {
        Some(63)
    } else {
        None
    }
}

/// The character of the name alphabet with the given code.
pub open spec fn spec_symbol(code: u8) -> char {
    if code < 10 {
        (code + 48) as char
    } else if code < 36 {
        (code - 10 + 65) as char
    } else if code < 62 {
        (code - 36 + 97) as char
    } else if code == 62 {
        ':'
    } else {
        '_'
    }
}

/// The six-bit code of a character of the name alphabet.
pub fn code_of(c: char) -> (r: Option<u8>)
    ensures
        r == spec_code(c),
        r matches Some(code) ==> code < 64,
{
    if '0' <= c && c <= '9' {
        Some((c as u32 - 48) as u8)
    } else if 'A' <= c && c <= 'Z' {
        Some((c as u32 - 65 + 10) as u8)
    } else if 'a' <= c && c <= 'z' {
        Some((c as u32 - 97 + 36) as u8)
    } else if c == ':' {
        Some(62)
    } else if c == '_' {
        Some(63)
    } else {
        None
    }
}

/// The character of the name alphabet with the given code.
pub fn symbol_of(code: u8) -> (r: char)
    requires
        code < 64,
    ensures
        r == spec_symbol(code),
{
    if code < 10 {
        (code + 48) as char
    } else if code < 36 {
        (code - 10 + 65) as char
    } else if code < 62 {
        (code - 36 + 97) as char
    } else if code == 62 {
        ':'
    } else {
        '_'
    }
}

/// Every character of the alphabet is the symbol of its code, and every code
/// below 64 is the code of its symbol.
pub proof fn lemma_code_symbol(c: char, code: u8)
    ensures
        spec_code(c) matches Some(k) ==> k < 64 && spec_symbol(k) == c,
        code < 64 ==> spec_code(spec_symbol(code)) == Some(code),
{
}

/// Two to the power `w`.
pub open spec fn pow2(w: nat) -> nat
    decreases w,
{
    if w == 0 {
        1
    } else {
        2 * pow2((w - 1) as nat)
    }
}

/// The `width` lowest bits of `v`, the most significant first.
pub open spec fn bits_of(v: nat, width: nat) -> Seq<bool>
    decreases width,
{
    if width == 0 {
        Seq::empty()
    } else {
        bits_of(v / 2, (width - 1) as nat).push(v % 2 == 1)
    }
}

/// The number that a sequence of bits denotes, the most significant first.
pub open spec fn bits_value(bits: Seq<bool>) -> nat
    decreases bits.len(),
{
    if bits.len() == 0 {
        0
    } else {
        2 * bits_value(bits.drop_last()) + if bits.last() {
            1nat
        } else {
            0nat
        }
    }
}

/// The bits of all the numbers of `vals`, `width` bits each, in order.
pub open spec fn spread(vals: Seq<u8>, width: nat) -> Seq<bool>
    decreases vals.len(),
{
    if vals.len() == 0 {
        Seq::empty()
    } else {
        spread(vals.drop_last(), width) + bits_of(vals.last() as nat, width)
    }
}

/// `bits` with as many zero bits behind them as a whole number of bytes needs.
pub open spec fn pad_bits(bits: Seq<bool>) -> Seq<bool> {
    bits + Seq::new(((8 - bits.len() % 8) % 8) as nat, |i: int| false)
}

/// The bytes that hold `bits`, eight to a byte, the first bit in the most
/// significant place, with zero bits where the last byte has bits left over.
pub open spec fn pack_bits(bits: Seq<bool>) -> Seq<u8> {
    Seq::new(
        pad_bits(bits).len() / 8,
        |j: int| bits_value(pad_bits(bits).subrange(8 * j, 8 * j + 8)) as u8,
    )
}

/// The number of bytes that hold `n` packed characters.
pub open spec fn packed_len(n: nat) -> nat {
    (6 * n + 7) / 8
}

/// The codes of the characters of `name`, or the first character that has none.
pub open spec fn name_codes(name: Seq<char>) -> Result<Seq<u8>, KbinError>
    decreases name.len(),
{
    if name.len() == 0 {
        Ok(Seq::empty())
    } else {
        match name_codes(name.drop_last()) {
            Err(e) => Err(e),
            Ok(head) => match spec_code(name.last()) {
                Some(code) => Ok(head.push(code)),
                None => Err(KbinError::SixbitUnknownChar { character: name.last() }),
            },
        }
    }
}

/// The packed form of `name`: the number of its characters in one byte, then
/// their codes, six bits each, the first bit of the first code in the most
/// significant place of the first byte.
pub open spec fn spec_pack(name: Seq<char>) -> Result<Seq<u8>, KbinError> {
    if name.len() > 255 {
        Err(KbinError::SixbitLength { length: name.len() as usize })
    } else {
        match name_codes(name) {
            Ok(codes) => Ok(seq![name.len() as u8] + pack_bits(spread(codes, 6))),
            Err(e) => Err(e),
        }
    }
}

/// The name that is packed in `input` from position `at`, and the position behind it.
pub open spec fn spec_unpack(input: Seq<u8>, at: nat) -> Result<(Seq<char>, nat), KbinError> {
    if at >= input.len() {
        Err(KbinError::DataRead { size: 1 })
    } else {
        let n = input[at as int] as nat;
        let need = packed_len(n);
        if at + 1 + need > input.len() {
            Err(KbinError::DataRead { size: need as usize })
        } else {
            let bits = spread(input.subrange((at + 1) as int, (at + 1 + need) as int), 8);
            Ok(
                (
                    Seq::new(
                        n,
                        |i: int| spec_symbol(bits_value(bits.subrange(6 * i, 6 * i + 6)) as u8),
                    ),
                    at + 1 + need,
                ),
            )
        }
    }
}

/// `width` bits are `width` bits.
pub proof fn lemma_bits_of_len(v: nat, width: nat)
    ensures
        bits_of(v, width).len() == width,
    decreases width,
{
    if width > 0 {
        lemma_bits_of_len(v / 2, (width - 1) as nat);
    }
}

/// The bits of a number denote the number, when there are enough of them.
pub proof fn lemma_bits_value_of_bits(v: nat, width: nat)
    requires
        v < pow2(width),
    ensures
        bits_value(bits_of(v, width)) == v,
    decreases width,
{
    if width > 0 {
        lemma_bits_value_of_bits(v / 2, (width - 1) as nat);
        let b = bits_of(v, width);
        assert(b.drop_last() == bits_of(v / 2, (width - 1) as nat));
        assert(b.last() == (v % 2 == 1));
    }
}

/// Bits denote a number below two to the power of their count, and are the bits of that number.
pub proof fn lemma_bits_of_bits_value(bits: Seq<bool>)
    ensures
        bits_value(bits) < pow2(bits.len()),
        bits_of(bits_value(bits), bits.len()) == bits,
    decreases bits.len(),
{
    if bits.len() > 0 {
        let head = bits.drop_last();
        lemma_bits_of_bits_value(head);
        let v = bits_value(bits);
        assert(v / 2 == bits_value(head));
        assert((v % 2 == 1) == bits.last());
        assert(bits_of(v, bits.len()) == bits_of(v / 2, (bits.len() - 1) as nat).push(v % 2 == 1));
        assert(head.push(bits.last()) == bits);
    }
}

/// The spread bits of `n` numbers are `n` times `width` bits.
pub proof fn lemma_spread_len(vals: Seq<u8>, width: nat)
    ensures
        spread(vals, width).len() == vals.len() * width,
    decreases vals.len(),
{
    if vals.len() > 0 {
        lemma_spread_len(vals.drop_last(), width);
        lemma_bits_of_len(vals.last() as nat, width);
        assert((vals.len() - 1) * width + width == vals.len() * width) by (nonlinear_arith);
    } else {
        assert(0 * width == 0) by (nonlinear_arith);
    }
}

/// Among the spread bits of numbers, the bits of the `i`-th stand at the `i`-th place.
pub proof fn lemma_spread_group(vals: Seq<u8>, width: nat, i: int)
    requires
        0 <= i < vals.len(),
    ensures
        i * width + width <= spread(vals, width).len(),
        spread(vals, width).subrange(i * width, i * width + width) == bits_of(
            vals[i] as nat,
            width,
        ),
    decreases vals.len(),
{
    let head = vals.drop_last();
    lemma_spread_len(head, width);
    lemma_spread_len(vals, width);
    lemma_bits_of_len(vals.last() as nat, width);
    assert(i * width + width <= vals.len() * width) by (nonlinear_arith)
        requires
            0 <= i < vals.len(),
    ;
    if i == vals.len() - 1 {
        assert(spread(vals, width).subrange(i * width, i * width + width) == bits_of(
            vals[i] as nat,
            width,
        ));
    } else {
        lemma_spread_group(head, width, i);
        assert(i * width + width <= head.len() * width) by (nonlinear_arith)
            requires
                0 <= i < head.len(),
        ;
        assert(spread(vals, width).subrange(i * width, i * width + width) == spread(
            head,
            width,
        ).subrange(i * width, i * width + width));
    }
}

/// Padded bits fill whole bytes, and there are fewer than eight bits of padding.
pub proof fn lemma_pad_bits(bits: Seq<bool>)
    ensures
        pad_bits(bits).len() % 8 == 0,
        bits.len() <= pad_bits(bits).len() < bits.len() + 8,
        pad_bits(bits).len() / 8 == (bits.len() + 7) / 8,
        pad_bits(bits).take(bits.len() as int) == bits,
{
}

/// The bits of the bytes that hold `bits` are `bits` and their padding.
pub proof fn lemma_spread_pack_bits(bits: Seq<bool>)
    ensures
        spread(pack_bits(bits), 8) == pad_bits(bits),
{
    let padded = pad_bits(bits);
    let bytes = pack_bits(bits);
    lemma_pad_bits(bits);
    lemma_spread_len(bytes, 8);
    assert(pow2(8) == 256) by {
        reveal_with_fuel(pow2, 9);
    }
    assert forall|p: int| 0 <= p < padded.len() implies spread(bytes, 8)[p] == padded[p] by {
        let j = p / 8;
        let chunk = padded.subrange(8 * j, 8 * j + 8);
        lemma_spread_group(bytes, 8, j);
        lemma_bits_of_bits_value(chunk);
        assert(bytes[j] == bits_value(chunk) as u8);
        assert(bits_of(bytes[j] as nat, 8) == chunk);
        assert(spread(bytes, 8).subrange(j * 8, j * 8 + 8)[p - 8 * j] == chunk[p - 8 * j]);
    }
    assert(spread(bytes, 8) == padded);
}

/// Every code of a name is below 64, and there are as many codes as characters.
pub proof fn lemma_name_codes(name: Seq<char>)
    ensures
        name_codes(name) matches Ok(codes) ==> codes.len() == name.len() && forall|i: int|
            0 <= i < name.len() ==> spec_code(name[i]) == Some(#[trigger] codes[i]) && codes[i]
                < 64,
    decreases name.len(),
{
    if name.len() > 0 {
        lemma_name_codes(name.drop_last());
    }
}

/// A name of the alphabet, of at most 255 characters, is unpacked from its
/// packed form as it was, and its packed form has one byte for the length and
/// six bits, rounded up to whole bytes, for each character.
pub proof fn lemma_sixbit_round_trip(name: Seq<char>)
    requires
        name.len() <= 255,
        forall|i: int| 0 <= i < name.len() ==> spec_code(#[trigger] name[i]) is Some,
    ensures
        spec_pack(name) is Ok,
        spec_pack(name)->Ok_0.len() == 1 + packed_len(name.len()),
        spec_unpack(spec_pack(name)->Ok_0, 0) == Ok::<(Seq<char>, nat), KbinError>(
            (name, 1 + packed_len(name.len())),
        ),
{
    lemma_codes_exist(name);
    lemma_name_codes(name);
    let codes = name_codes(name)->Ok_0;
    let bits = spread(codes, 6);
    let packed = spec_pack(name)->Ok_0;
    lemma_spread_len(codes, 6);
    lemma_pad_bits(bits);
    lemma_spread_pack_bits(bits);
    let n = name.len();
    let need = packed_len(n);
    assert(pack_bits(bits).len() == need);
    assert(packed.subrange(1, (1 + need) as int) == pack_bits(bits));
    let read = spread(packed.subrange(1, (1 + need) as int), 8);
    assert(read == pad_bits(bits));
    assert(pow2(6) == 64) by {
        reveal_with_fuel(pow2, 7);
    }
    let unpacked = spec_unpack(packed, 0)->Ok_0.0;
    assert forall|i: int| 0 <= i < n implies unpacked[i] == name[i] by {
        lemma_spread_group(codes, 6, i);
        assert(read.subrange(6 * i, 6 * i + 6) == bits.subrange(i * 6, i * 6 + 6));
        lemma_bits_value_of_bits(codes[i] as nat, 6);
        lemma_code_symbol(name[i], 0);
    }
    assert(unpacked == name);
}

/// A name whose characters all have codes has codes.
pub proof fn lemma_codes_exist(name: Seq<char>)
    requires
        forall|i: int| 0 <= i < name.len() ==> spec_code(#[trigger] name[i]) is Some,
    ensures
        name_codes(name) is Ok,
    decreases name.len(),
{
    if name.len() > 0 {
        let head = name.drop_last();
        assert forall|i: int| 0 <= i < head.len() implies spec_code(#[trigger] head[i]) is Some by {
            assert(head[i] == name[i]);
        }
        lemma_codes_exist(head);
        assert(spec_code(name[name.len() - 1]) is Some);
    }
}

/// An error among the first characters of a name is the error of the name.
pub proof fn lemma_name_codes_error_from(name: Seq<char>, k: nat)
    requires
        k <= name.len(),
        name_codes(name.take(k as int)) is Err,
    ensures
        name_codes(name) == name_codes(name.take(k as int)),
    decreases name.len() - k,
{
    if k == name.len() {
        assert(name.take(k as int) == name);
    } else {
        let next = name.take(k + 1 as int);
        assert(next.drop_last() == name.take(k as int));
        lemma_name_codes_error_from(name, k + 1);
    }
}

/// Appends the `width` lowest bits of `v` to `bits`, the most significant first.
pub fn push_bits(bits: &mut Vec<bool>, v: u8, width: u8)
    requires
        width <= 8,
    ensures
        final(bits)@ == old(bits)@ + bits_of(v as nat, width as nat),
    decreases width,
{
    if width > 0 {
        push_bits(bits, v / 2, width - 1);
        bits.push(v % 2 == 1);
        assert(final(bits)@ == old(bits)@ + bits_of(v as nat / 2, (width - 1) as nat).push(
            v as nat % 2 == 1,
        ));
    } else {
        assert(bits@ == old(bits)@ + Seq::<bool>::empty());
    }
}

/// The number that the `width` bits from `start` denote, the most significant first.
pub fn group_value(bits: &Vec<bool>, start: usize, width: usize) -> (r: u8)
    requires
        width <= 8,
        start + width <= bits.len(),
    ensures
        r == bits_value(bits@.subrange(start as int, start + width)),
        r < pow2(width as nat),
{
    let mut acc: u16 = 0;
    let mut k: usize = 0;
    proof {
        reveal_with_fuel(pow2, 9);
        assert(bits@.subrange(start as int, start as int).len() == 0);
    }
    while k < width
        invariant
            k <= width <= 8,
            start + width <= bits.len(),
            acc == bits_value(bits@.subrange(start as int, start + k)),
            acc < pow2(k as nat),
        decreases width - k,
    {
        proof {
            reveal_with_fuel(pow2, 9);
            let next = bits@.subrange(start as int, start + k + 1);
            assert(next.drop_last() == bits@.subrange(start as int, start + k));
            assert(next.last() == bits@[start + k]);
            lemma_bits_of_bits_value(next);
        }
        acc = acc * 2 + if bits[start + k] {
            1
        } else {
            0
        };
        k += 1;
    }
    proof {
        reveal_with_fuel(pow2, 9);
    }
    acc as u8
}

/// Packs a name: the number of its characters in one byte, then their codes, six bits each.
///
/// A name of more than 255 characters is refused, and so is one with a
/// character outside the alphabet.
#[verifier::loop_isolation(false)]
pub fn pack(name: &str) -> (r: Result<Vec<u8>, KbinError>)
    ensures
        bytes_result(r) == spec_pack(name@),
{
    let chars = chars_of(name);
    if chars.len() > 255 {
        return Err(KbinError::SixbitLength { length: chars.len() });
    }
    let mut bits: Vec<bool> = Vec::new();
    let ghost mut codes: Seq<u8> = Seq::empty();
    let mut i: usize = 0;
    proof {
        assert(chars@.take(0) == Seq::<char>::empty());
    }
    while i < chars.len()
        invariant
            i <= chars.len(),
            name_codes(chars@.take(i as int)) == Ok::<Seq<u8>, KbinError>(codes),
            bits@ == spread(codes, 6),
        decreases chars.len() - i,
    {
        proof {
            let next = chars@.take(i + 1);
            assert(next.drop_last() == chars@.take(i as int));
            assert(next.last() == chars@[i as int]);
        }
        match code_of(chars[i]) {
            Some(code) => {
                push_bits(&mut bits, code, 6);
                proof {
                    let grown = codes.push(code);
                    assert(grown.drop_last() == codes);
                    assert(grown.last() == code);
                    codes = grown;
                }
            },
            None => {
                proof {
                    lemma_name_codes_error_from(chars@, (i + 1) as nat);
                }
                return Err(KbinError::SixbitUnknownChar { character: chars[i] });
            },
        }
        i += 1;
    }
    proof {
        assert(chars@.take(chars.len() as int) == chars@);
        lemma_pad_bits(bits@);
    }
    let ghost plain = bits@;
    let rest = bits.len() % 8;
    let missing: usize = if rest == 0 {
        0
    } else {
        8 - rest
    };
    let mut k: usize = 0;
    proof {
        assert(bits@ == plain + Seq::new(0, |i: int| false));
    }
    while k < missing
        invariant
            k <= missing,
            bits@ == plain + Seq::new(k as nat, |i: int| false),
        decreases missing - k,
    {
        bits.push(false);
        k += 1;
        assert(bits@ == plain + Seq::new(k as nat, |i: int| false));
    }
    assert(bits@ == pad_bits(plain));
    let mut out: Vec<u8> = Vec::new();
    out.push(chars.len() as u8);
    let groups = bits.len() / 8;
    let mut j: usize = 0;
    let ghost packed = pack_bits(plain);
    proof {
        assert(out@ == seq![chars.len() as u8] + packed.take(0));
    }
    while j < groups
        invariant
            j <= groups,
            out@ == seq![chars.len() as u8] + packed.take(j as int),
        decreases groups - j,
    {
        let b = group_value(&bits, 8 * j, 8);
        out.push(b);
        j += 1;
        proof {
            assert(packed.take(j as int) == packed.take(j - 1).push(packed[j - 1]));
        }
    }
    proof {
        assert(packed.take(groups as int) == packed);
    }
    Ok(out)
}

/// Unpacks the name that is packed in `input` from position `at`, and gives
/// the position behind it.
#[verifier::loop_isolation(false)]
pub fn unpack(input: &[u8], at: usize) -> (r: Result<(String, usize), KbinError>)
    ensures
        match spec_unpack(input@, at as nat) {
            Ok((name, next)) => r is Ok && r->Ok_0.0@ == name && r->Ok_0.1 == next,
            Err(e) => r == Err::<(String, usize), KbinError>(e),
        },
{
    if at >= input.len() {
        return Err(KbinError::DataRead { size: 1 });
    }
    let n = input[at] as usize;
    let need = (6 * n + 7) / 8;
    if input.len() - at - 1 < need {
        return Err(KbinError::DataRead { size: need });
    }
    let ghost packed = input@.subrange(at + 1, at + 1 + need);
    let mut bits: Vec<bool> = Vec::new();
    let mut j: usize = 0;
    proof {
        assert(packed.take(0) == Seq::<u8>::empty());
    }
    while j < need
        invariant
            j <= need,
            bits@ == spread(packed.take(j as int), 8),
        decreases need - j,
    {
        proof {
            let next = packed.take(j + 1);
            assert(next.drop_last() == packed.take(j as int));
            assert(next.last() == input@[at + 1 + j]);
        }
        push_bits(&mut bits, input[at + 1 + j], 8);
        j += 1;
    }
    proof {
        assert(packed.take(need as int) == packed);
        lemma_spread_len(packed, 8);
        reveal_with_fuel(pow2, 7);
    }
    let ghost expected = spec_unpack(input@, at as nat)->Ok_0.0;
    let mut chars: Vec<char> = Vec::new();
    let mut i: usize = 0;
    while i < n
        invariant
            i <= n,
            chars@ == expected.take(i as int),
        decreases n - i,
    {
        let code = group_value(&bits, 6 * i, 6);
        chars.push(symbol_of(code));
        i += 1;
        proof {
            assert(expected.take(i as int) == expected.take(i - 1).push(expected[i - 1]));
        }
    }
    proof {
        assert(expected.take(n as int) == expected);
    }
    Ok((string_of(&chars), at + 1 + need))
}

} // verus!
