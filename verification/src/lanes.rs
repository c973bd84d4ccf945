use crate::byte_order::{
    be_bytes, be_bytes_u16, be_bytes_u32, be_bytes_u64, be_value, lemma_pow256_values, pow256,
    read_be_u16, read_be_u32, read_be_u64,
};
use crate::error::KbinError;
use crate::node_types::{LaneKind, StandardType};
use crate::strings::{append_bytes, chars_of, string_of};
use crate::text::{decimal, parse_int, push_signed, push_unsigned, read_int, signed_decimal};
use crate::tokens::{join, pieces, push_joined, split, texts_of, tokens, words, Separator};
use vstd::prelude::*;

verus! {

/// A floating-point number as its bits.
///
/// The codec moves floating-point numbers as bits only; text for them is the
/// business of a `FloatText`.
#[derive(Clone, Copy, Debug, PartialEq, Eq)]
pub enum FloatBits {
    /// The bits of a single-precision number.
    Single(u32),
    /// The bits of a double-precision number.
    Double(u64),
}

/// How floating-point numbers are written as text and read from it.
///
/// Whoever wants text for floating-point values hands the codec a value of a
/// type with these two conversions. The codec puts the text it is given
/// between the blanks of a value, and the bits it is given into the bytes of
/// a lane; nothing is asked of the conversions, and what they gave is all
/// that is said of the result.
pub trait FloatText {
    /// The text of a floating-point number.
    fn text_of(&self, bits: FloatBits) -> String;

    /// The floating-point number that `text` denotes, if it denotes one;
    /// of double precision if `double` is set, of single precision otherwise.
    fn bits_of(&self, text: String, double: bool) -> Option<FloatBits>;
}

/// The floating-point number in the bytes of a lane: single precision in
/// four bytes, double precision in eight, most significant byte first.
pub open spec fn float_bits(lane: Seq<u8>) -> FloatBits {
    if lane.len() == 4 {
        FloatBits::Single(be_value(lane) as u32)
    } else {
        FloatBits::Double(be_value(lane) as u64)
    }
}

/// The floating-point numbers in the lanes of `input`, in order.
pub open spec fn float_lanes(size: nat, input: Seq<u8>) -> Seq<FloatBits> {
    Seq::new(input.len() / size, |i: int| float_bits(lane_at(input, size, i as nat)))
}

/// The views of a sequence of strings.
pub open spec fn views(texts: Seq<String>) -> Seq<Seq<char>> {
    texts.map_values(|s: String| s@)
}

/// Whether `texts` are texts that `floats` gave for the numbers of `lanes`, one for each.
pub open spec fn texts_given<F: FloatText>(
    floats: &F,
    lanes: Seq<FloatBits>,
    texts: Seq<String>,
) -> bool {
    &&& texts.len() == lanes.len()
    &&& forall|i: int| 0 <= i < lanes.len() ==> call_ensures(
            F::text_of,
            (floats, lanes[i]),
            #[trigger] texts[i],
        )
}

/// Whether `text` is the text of a floating-point value with the given
/// lanes: texts that `floats` gave for the lanes, separated by single blanks.
pub open spec fn float_text<F: FloatText>(
    floats: &F,
    lanes: Seq<FloatBits>,
    text: Seq<char>,
) -> bool {
    exists|texts: Seq<String>| #[trigger]
        texts_given(floats, lanes, texts) && text == join(views(texts), ' ')
}

/// The bytes of the lane that holds a floating-point number.
pub open spec fn bits_lane(bits: FloatBits) -> Seq<u8> {
    match bits {
        FloatBits::Single(b) => be_bytes(b as nat, 4),
        FloatBits::Double(b) => be_bytes(b as nat, 8),
    }
}

/// The bytes of the lanes that hold the given floating-point numbers, in order.
pub open spec fn bits_lanes(found: Seq<FloatBits>) -> Seq<u8>
    decreases found.len(),
{
    if found.len() == 0 {
        Seq::empty()
    } else {
        bits_lanes(found.drop_last()) + bits_lane(found.last())
    }
}

/// Whether `found` are numbers that `floats` gave for `texts`, one for
/// each, all of the precision that was asked for.
pub open spec fn bits_given<F: FloatText>(
    floats: &F,
    double: bool,
    texts: Seq<String>,
    found: Seq<FloatBits>,
) -> bool {
    &&& texts.len() == found.len()
    &&& forall|i: int|
        0 <= i < texts.len() ==> call_ensures(
            F::bits_of,
            (floats, texts[i], double),
            Some(#[trigger] found[i]),
        )
            && (found[i] is Double) == double
}

/// Whether `bytes` are the bytes of a floating-point value with the given
/// words: the lanes of numbers that `floats` gave for the words.
pub open spec fn float_bytes<F: FloatText>(
    floats: &F,
    double: bool,
    words: Seq<Seq<char>>,
    bytes: Seq<u8>,
) -> bool {
    exists|texts: Seq<String>, found: Seq<FloatBits>| #[trigger]
        bits_given(floats, double, texts, found) && views(texts) == words && bytes == bits_lanes(
            found,
        )
}

/// Whether `floats` turned one of the words down: gave no number for it, or
/// one of another precision than was asked for.
pub open spec fn float_refused<F: FloatText>(
    floats: &F,
    double: bool,
    words: Seq<Seq<char>>,
) -> bool {
    exists|text: String, got: Option<FloatBits>| #[trigger]
        call_ensures(F::bits_of, (floats, text, double), got) && words.contains(text@) && match got {
            None => true,
            Some(bits) => (bits is Double) != double,
        }
}

/// The lanes of `n` numbers of one precision are `n` times the bytes of that precision.
pub proof fn lemma_bits_lanes_len(found: Seq<FloatBits>, double: bool)
    requires
        forall|i: int| 0 <= i < found.len() ==> ((#[trigger] found[i]) is Double) == double,
    ensures
        bits_lanes(found).len() == found.len() * (if double {
            8nat
        } else {
            4nat
        }),
    decreases found.len(),
{
    if found.len() > 0 {
        let head = found.drop_last();
        assert forall|i: int| 0 <= i < head.len() implies ((#[trigger] head[i]) is Double)
            == double by {
            assert(head[i] == found[i]);
        }
        lemma_bits_lanes_len(head, double);
        assert((found[found.len() - 1] is Double) == double);
        crate::byte_order::lemma_be_bytes_len(
            match found.last() {
                FloatBits::Single(b) => b as nat,
                FloatBits::Double(b) => b as nat,
            },
            if double {
                8
            } else {
                4
            },
        );
    }
}

/// Whether lanes of `size` bytes can be read as `kind`.
pub open spec fn lane_fits(kind: LaneKind, size: nat) -> bool {
    match kind {
        LaneKind::Signed | LaneKind::Unsigned => size == 1 || size == 2 || size == 4 || size == 8,
        LaneKind::Float => size == 4 || size == 8,
        LaneKind::Bool => size == 1,
        LaneKind::Ip4 => size == 4,
        _ => false,
    }
}

/// The lanes of every type that has lanes can be read as the type's kind.
pub proof fn lemma_lane_fits(t: StandardType)
    requires
        t.has_lanes(),
    ensures
        lane_fits(t.spec_kind(), t.spec_size() as nat),
        1 <= t.spec_size() <= 8,
        1 <= t.spec_count() <= 16,
{
}

/// The number that the bytes of a lane denote in two's complement.
pub open spec fn lane_int(lane: Seq<u8>) -> int {
    let u = be_value(lane) as int;
    let m = pow256(lane.len()) as int;
    if 2 * u >= m {
        u - m
    } else {
        u
    }
}

/// The four numerals of an address.
pub open spec fn address_parts(lane: Seq<u8>) -> Seq<Seq<char>> {
    seq![
        decimal(lane[0] as nat),
        decimal(lane[1] as nat),
        decimal(lane[2] as nat),
        decimal(lane[3] as nat),
    ]
}

/// The text of one lane, for every kind but floating point.
///
/// Numbers are written in decimal, a boolean as `0` or `1`, an address as a
/// dotted quad. A boolean lane that holds anything but 0 or 1 is an error.
pub open spec fn parse_lane(kind: LaneKind, lane: Seq<u8>) -> Result<Seq<char>, KbinError> {
    match kind {
        LaneKind::Signed => Ok(signed_decimal(lane_int(lane))),
        LaneKind::Unsigned => Ok(decimal(be_value(lane))),
        LaneKind::Bool => if lane[0] <= 1 {
            Ok(decimal(lane[0] as nat))
        } else {
            Err(KbinError::InvalidBooleanInput { input: lane[0] })
        },
        LaneKind::Ip4 => Ok(join(address_parts(lane), '.')),
        _ => Ok(Seq::empty()),
    }
}

/// The `i`-th lane of `size` bytes in `input`.
pub open spec fn lane_at(input: Seq<u8>, size: nat, i: nat) -> Seq<u8> {
    input.subrange((i * size) as int, ((i + 1) * size) as int)
}

/// The texts of the first `n` lanes of `input`, or the error of the first lane that has one.
pub open spec fn parse_lanes(kind: LaneKind, size: nat, input: Seq<u8>, n: nat) -> Result<
    Seq<Seq<char>>,
    KbinError,
>
    decreases n,
{
    if n == 0 {
        Ok(Seq::empty())
    } else {
        match parse_lanes(kind, size, input, (n - 1) as nat) {
            Err(e) => Err(e),
            Ok(head) => match parse_lane(kind, lane_at(input, size, (n - 1) as nat)) {
                Err(e) => Err(e),
                Ok(t) => Ok(head.push(t)),
            },
        }
    }
}

/// The text of a result, where there is one.
pub open spec fn text_result(r: Result<String, KbinError>) -> Result<Seq<char>, KbinError> {
    match r {
        Ok(s) => Ok(s@),
        Err(e) => Err(e),
    }
}

/// The bytes of a result, where there are any.
pub open spec fn bytes_result(r: Result<Vec<u8>, KbinError>) -> Result<Seq<u8>, KbinError> {
    match r {
        Ok(b) => Ok(b@),
        Err(e) => Err(e),
    }
}

/// `n` times `size`, as far as a `usize` can hold it.
pub open spec fn capped_product(n: nat, size: nat) -> usize {
    if n * size > usize::MAX {
        usize::MAX
    } else {
        (n * size) as usize
    }
}

impl StandardType {
    /// Whether the lanes of the type have the width of double precision.
    pub open spec fn spec_double(self) -> bool {
        self.spec_size() == 8
    }

    /// Whether the bytes of `input` are whole values of this type.
    pub open spec fn whole_values(self, input: Seq<u8>) -> bool {
        self.has_lanes() && input.len() % self.footprint() == 0
    }

    /// The error that stops the reading of `input` before any lane is looked at, if any.
    pub open spec fn parse_refusal(self, input: Seq<u8>) -> Option<KbinError> {
        if !self.has_lanes() {
            Some(KbinError::InvalidNodeType { node_type: self.spec_id() })
        } else if input.len() % self.footprint() != 0 {
            Some(
                KbinError::SizeMismatch {
                    node_type: self.spec_name(),
                    expected: self.footprint() as usize,
                    actual: input.len() as usize,
                },
            )
        } else {
            None
        }
    }

    /// The text of the values that `input` holds, for every kind but floating point.
    ///
    /// The lanes are read in order, most significant byte first, and their
    /// texts are separated by single blanks. Types without lanes cannot be
    /// read this way, and `input` must consist of whole values.
    pub open spec fn spec_parse_bytes(self, input: Seq<u8>) -> Result<Seq<char>, KbinError> {
        match self.parse_refusal(input) {
            Some(e) => Err(e),
            None => match parse_lanes(
                self.spec_kind(),
                self.spec_size() as nat,
                input,
                input.len() / (self.spec_size() as nat),
            ) {
                Ok(texts) => Ok(join(texts, ' ')),
                Err(e) => Err(e),
            },
        }
    }
}

/// A single byte denotes itself.
pub proof fn lemma_be_value_one(s: Seq<u8>)
    requires
        s.len() == 1,
    ensures
        be_value(s) == s[0],
{
    reveal_with_fuel(be_value, 2);
    assert(s.drop_last().len() == 0);
}

/// The unsigned number in the `size` bytes of `input` from `at`, most significant byte first.
pub fn lane_value(input: &[u8], at: usize, size: usize) -> (r: u64)
    requires
        size == 1 || size == 2 || size == 4 || size == 8,
        at + size <= input.len(),
    ensures
        r == be_value(input@.subrange(at as int, at + size)),
{
    if size == 1 {
        proof {
            lemma_be_value_one(input@.subrange(at as int, at + 1));
        }
        input[at] as u64
    } else if size == 2 {
        read_be_u16(input, at) as u64
    } else if size == 4 {
        read_be_u32(input, at) as u64
    } else {
        read_be_u64(input, at)
    }
}

/// Appends the decimal text of the number in a lane to `output`.
pub fn int_from_kbin_bytes(
    output: &mut Vec<char>,
    input: &[u8],
    at: usize,
    size: usize,
    signed: bool,
)
    requires
        size == 1 || size == 2 || size == 4 || size == 8,
        at + size <= input.len(),
    ensures
        final(output)@ == old(output)@ + (if signed {
            signed_decimal(lane_int(input@.subrange(at as int, at + size)))
        } else {
            decimal(be_value(input@.subrange(at as int, at + size)))
        }),
{
    let u = lane_value(input, at, size);
    proof {
        lemma_pow256_values();
        crate::byte_order::lemma_be_value_bound(input@.subrange(at as int, at + size));
    }
    if signed {
        let half: u64 = if size == 1 {
            0x80
        } else if size == 2 {
            0x8000
        } else if size == 4 {
            0x8000_0000
        } else {
            0x8000_0000_0000_0000
        };
        let v: i128 = if u >= half {
            u as i128 - 2 * (half as i128)
        } else {
            u as i128
        };
        push_signed(output, v as i64);
    } else {
        push_unsigned(output, u);
    }
}

/// Appends the text of a boolean lane to `output`: `0` or `1`.
///
/// Any other byte is refused, and `output` stays as it is.
pub fn bool_from_kbin_bytes(output: &mut Vec<char>, input: &[u8], at: usize) -> (r: Result<
    (),
    KbinError,
>)
    requires
        at < input.len(),
    ensures
        match parse_lane(LaneKind::Bool, input@.subrange(at as int, at + 1)) {
            Ok(text) => r is Ok && final(output)@ == old(output)@ + text,
            Err(e) => r == Err::<(), KbinError>(e) && final(output)@ == old(output)@,
        },
{
    let b = input[at];
    if b > 1 {
        return Err(KbinError::InvalidBooleanInput { input: b });
    }
    push_unsigned(output, b as u64);
    Ok(())
}

/// Appends the text of an address lane to `output`: its four bytes in decimal,
/// with full stops between.
pub fn ip4_from_kbin_bytes(output: &mut Vec<char>, input: &[u8], at: usize)
    requires
        at + 4 <= input.len(),
    ensures
        final(output)@ == old(output)@ + join(
            address_parts(input@.subrange(at as int, at + 4)),
            '.',
        ),
{
    let mut parts: Vec<Vec<char>> = Vec::new();
    let mut i: usize = 0;
    let ghost lane = input@.subrange(at as int, at + 4);
    while i < 4
        invariant
            i <= 4,
            at + 4 <= input.len(),
            lane == input@.subrange(at as int, at + 4),
            parts.len() == i,
            forall|j: int| 0 <= j < i ==> (#[trigger] parts@[j])@ == decimal(lane[j] as nat),
        decreases 4 - i,
    {
        let mut part: Vec<char> = Vec::new();
        push_unsigned(&mut part, input[at + i] as u64);
        assert(part@ == Seq::<char>::empty() + decimal(lane[i as int] as nat));
        parts.push(part);
        i += 1;
    }
    assert(texts_of(parts@) == address_parts(lane));
    push_joined(output, &parts, '.');
}

/// Appends the text of one lane of a kind other than floating point to `texts`.
fn push_lane_text(
    texts: &mut Vec<Vec<char>>,
    kind: LaneKind,
    input: &[u8],
    at: usize,
    size: usize,
) -> (r: Result<(), KbinError>)
    requires
        lane_fits(kind, size as nat),
        kind != LaneKind::Float,
        at + size <= input.len(),
    ensures
        match r {
            Ok(()) => parse_lane(kind, input@.subrange(at as int, at + size)) == Ok::<
                Seq<char>,
                KbinError,
            >(final(texts)@.last()@) && final(texts)@.len() == old(texts)@.len() + 1
                && final(texts)@.drop_last() == old(texts)@,
            Err(e) => parse_lane(kind, input@.subrange(at as int, at + size)) == Err::<
                Seq<char>,
                KbinError,
            >(e),
        },
{
    let mut text: Vec<char> = Vec::new();
    match kind {
        LaneKind::Signed => {
            int_from_kbin_bytes(&mut text, input, at, size, true);
        },
        LaneKind::Unsigned => {
            int_from_kbin_bytes(&mut text, input, at, size, false);
        },
        LaneKind::Bool => {
            match bool_from_kbin_bytes(&mut text, input, at) {
                Ok(()) => {},
                Err(e) => {
                    return Err(e);
                },
            }
        },
        _ => {
            ip4_from_kbin_bytes(&mut text, input, at);
        },
    }
    proof {
        assert(Seq::<char>::empty() + text@ == text@);
    }
    let ghost before = texts@;
    texts.push(text);
    assert(texts@.drop_last() == before);
    Ok(())
}

impl StandardType {
    /// Collects the texts of the lanes of `input`, for every kind but floating point.
    #[verifier::loop_isolation(false)]
    pub fn parse_array(&self, input: &[u8]) -> (r: Result<Vec<Vec<char>>, KbinError>)
        requires
            self.whole_values(input@),
            self.spec_kind() != LaneKind::Float,
        ensures
            match r {
                Ok(texts) => parse_lanes(
                    self.spec_kind(),
                    self.spec_size() as nat,
                    input@,
                    input@.len() / (self.spec_size() as nat),
                ) == Ok::<Seq<Seq<char>>, KbinError>(texts_of(texts@)),
                Err(e) => parse_lanes(
                    self.spec_kind(),
                    self.spec_size() as nat,
                    input@,
                    input@.len() / (self.spec_size() as nat),
                ) == Err::<Seq<Seq<char>>, KbinError>(e),
            },
    {
        let kind = self.kind();
        let size = self.size() as usize;
        proof {
            lemma_lane_fits(*self);
        }
        let n = input.len() / size;
        let mut texts: Vec<Vec<char>> = Vec::new();
        let mut i: usize = 0;
        proof {
            lemma_whole_lanes(*self, input@.len());
            assert(texts_of(texts@) == Seq::<Seq<char>>::empty());
        }
        while i < n
            invariant
                i <= n,
                n * size == input.len(),
                1 <= size <= 8,
                size == self.spec_size(),
                kind == self.spec_kind(),
                kind != LaneKind::Float,
                lane_fits(kind, size as nat),
                parse_lanes(kind, size as nat, input@, i as nat) == Ok::<
                    Seq<Seq<char>>,
                    KbinError,
                >(texts_of(texts@)),
            decreases n - i,
        {
            proof {
                lemma_lane_bounds(i as nat, n as nat, size as nat);
            }
            let at = i * size;
            let ghost before = texts@;
            match push_lane_text(&mut texts, kind, input, at, size) {
                Ok(()) => {
                    proof {
                        assert(lane_at(input@, size as nat, i as nat) == input@.subrange(
                            at as int,
                            at + size,
                        ));
                        assert(texts_of(texts@) == texts_of(before).push(texts@.last()@));
                    }
                },
                Err(e) => {
                    proof {
                        assert(lane_at(input@, size as nat, i as nat) == input@.subrange(
                            at as int,
                            at + size,
                        ));
                        lemma_parse_lanes_error(kind, size as nat, input@, i as nat, n as nat);
                    }
                    return Err(e);
                },
            }
            i += 1;
        }
        Ok(texts)
    }
}

/// An input of whole values is made of whole lanes.
pub proof fn lemma_whole_lanes(t: StandardType, len: nat)
    requires
        t.has_lanes(),
        len % t.footprint() == 0,
    ensures
        (len / (t.spec_size() as nat)) * (t.spec_size() as nat) == len,
{
    let size = t.spec_size() as nat;
    let count = t.spec_count() as nat;
    let k = len / (size * count);
    assert(len == k * (size * count)) by (nonlinear_arith)
        requires
            len % (size * count) == 0,
            size * count > 0,
            k == len / (size * count),
    ;
    assert(len == (k * count) * size) by (nonlinear_arith)
        requires
            len == k * (size * count),
    ;
    assert(((k * count) * size) / size == k * count) by (nonlinear_arith)
        requires
            size > 0,
    ;
}

/// The `i`-th of `n` lanes lies within `n` lanes.
pub proof fn lemma_lane_bounds(i: nat, n: nat, size: nat)
    requires
        i < n,
    ensures
        i * size + size <= n * size,
        (i + 1) * size == i * size + size,
        i * size >= 0,
{
    assert(i * size + size <= n * size) by (nonlinear_arith)
        requires
            i < n,
    ;
    assert((i + 1) * size == i * size + size) by (nonlinear_arith);
}

/// An error among the first lanes is the error of all the lanes.
pub proof fn lemma_parse_lanes_error(kind: LaneKind, size: nat, input: Seq<u8>, i: nat, n: nat)
    requires
        i < n,
        parse_lanes(kind, size, input, i) is Ok,
        parse_lane(kind, lane_at(input, size, i)) is Err,
    ensures
        parse_lanes(kind, size, input, n) == Err::<Seq<Seq<char>>, KbinError>(
            parse_lane(kind, lane_at(input, size, i))->Err_0,
        ),
    decreases n - i,
{
    if n == i + 1 {
    } else {
        lemma_parse_lanes_error(kind, size, input, i, (n - 1) as nat);
    }
}

/// The least and the greatest number that a lane of `size` bytes can hold.
pub open spec fn int_bounds(signed: bool, size: nat) -> (int, int) {
    if signed {
        (-(pow256(size) as int / 2), pow256(size) as int / 2 - 1)
    } else {
        (0, pow256(size) as int - 1)
    }
}

/// The `size` bytes that hold `v`, in two's complement where `v` is negative.
pub open spec fn int_lane(v: int, size: nat) -> Seq<u8> {
    be_bytes(
        (if v < 0 {
            v + pow256(size)
        } else {
            v
        }) as nat,
        size,
    )
}

/// The bytes of a lane that holds the number that `token` denotes.
pub open spec fn format_int(token: Seq<char>, signed: bool, size: nat, node_type: &'static str)
    -> Result<Seq<u8>, KbinError> {
    match parse_int(token, int_bounds(signed, size).0, int_bounds(signed, size).1) {
        Some(v) => Ok(int_lane(v, size)),
        None => Err(KbinError::StringParseInt { node_type }),
    }
}

/// The byte of a lane that holds the boolean that `token` denotes.
///
/// The token is read as a number below 256; only 0 and 1 are booleans.
pub open spec fn format_bool(token: Seq<char>, node_type: &'static str) -> Result<
    Seq<u8>,
    KbinError,
> {
    match parse_int(token, 0, 255) {
        Some(v) => if v <= 1 {
            Ok(seq![v as u8])
        } else {
            Err(KbinError::InvalidBooleanInput { input: v as u8 })
        },
        None => Err(KbinError::StringParseInt { node_type }),
    }
}

/// The bytes that the numerals of `parts` denote, one byte each, or the error of
/// the first that denotes none.
pub open spec fn format_octets(parts: Seq<Seq<char>>, node_type: &'static str) -> Result<
    Seq<u8>,
    KbinError,
>
    decreases parts.len(),
{
    if parts.len() == 0 {
        Ok(Seq::empty())
    } else {
        match format_octets(parts.drop_last(), node_type) {
            Err(e) => Err(e),
            Ok(head) => match parse_int(parts.last(), 0, 255) {
                Some(v) => Ok(head.push(v as u8)),
                None => Err(KbinError::StringParseInt { node_type }),
            },
        }
    }
}

/// The four bytes of the address that `token` denotes as a dotted quad.
pub open spec fn format_ip4(token: Seq<char>, node_type: &'static str) -> Result<
    Seq<u8>,
    KbinError,
> {
    let parts = pieces(token, Separator::Dot);
    if parts.len() != 4 {
        Err(KbinError::SizeMismatch { node_type, expected: 4, actual: parts.len() as usize })
    } else {
        format_octets(parts, node_type)
    }
}

/// The bytes of one lane that holds what `token` denotes, for every kind but floating point.
pub open spec fn format_lane(
    kind: LaneKind,
    size: nat,
    node_type: &'static str,
    token: Seq<char>,
) -> Result<Seq<u8>, KbinError> {
    match kind {
        LaneKind::Signed => format_int(token, true, size, node_type),
        LaneKind::Unsigned => format_int(token, false, size, node_type),
        LaneKind::Bool => format_bool(token, node_type),
        LaneKind::Ip4 => format_ip4(token, node_type),
        _ => Ok(Seq::empty()),
    }
}

/// The bytes of the lanes that hold what the tokens denote, in order, or the
/// error of the first token that has one.
pub open spec fn format_lanes(
    kind: LaneKind,
    size: nat,
    node_type: &'static str,
    tokens: Seq<Seq<char>>,
) -> Result<Seq<u8>, KbinError>
    decreases tokens.len(),
{
    if tokens.len() == 0 {
        Ok(Seq::empty())
    } else {
        match format_lanes(kind, size, node_type, tokens.drop_last()) {
            Err(e) => Err(e),
            Ok(head) => match format_lane(kind, size, node_type, tokens.last()) {
                Err(e) => Err(e),
                Ok(lane) => Ok(head + lane),
            },
        }
    }
}

impl StandardType {
    /// The error that stops the writing of `text` before any token is looked at, if any.
    ///
    /// A type of varying length cannot be written lane by lane. A marker has
    /// no lanes and nothing to refuse. For a type with lanes there must be
    /// one word for each lane.
    pub open spec fn format_refusal(self, text: Seq<char>, arr_count: nat) -> Option<KbinError> {
        if self.spec_count() == -1 {
            Some(KbinError::InvalidNodeType { node_type: self.spec_id() })
        } else if self.has_lanes() && tokens(text).len() != arr_count * (
        self.spec_count() as nat) {
            Some(
                KbinError::SizeMismatch {
                    node_type: self.spec_name(),
                    expected: capped_product(arr_count, self.spec_count() as nat),
                    actual: tokens(text).len() as usize,
                },
            )
        } else {
            None
        }
    }

    /// The bytes of `arr_count` values of this type that `text` denotes, for
    /// every kind but floating point.
    ///
    /// The text is cut into words at white space; there must be one word for
    /// each lane, and each is written into its lane, most significant byte
    /// first. A marker has no lanes: whatever the text, it has no bytes.
    pub open spec fn spec_format_bytes(self, text: Seq<char>, arr_count: nat) -> Result<
        Seq<u8>,
        KbinError,
    > {
        match self.format_refusal(text, arr_count) {
            Some(e) => Err(e),
            None => if self.has_lanes() {
                format_lanes(
                    self.spec_kind(),
                    self.spec_size() as nat,
                    self.spec_name(),
                    tokens(text),
                )
            } else {
                Ok(Seq::empty())
            },
        }
    }
}

/// Appends the `size` bytes of `u` to `output`, most significant byte first.
pub fn push_lane_bytes(output: &mut Vec<u8>, u: u64, size: usize)
    requires
        size == 1 || size == 2 || size == 4 || size == 8,
        u < pow256(size as nat),
    ensures
        final(output)@ == old(output)@ + be_bytes(u as nat, size as nat),
{
    proof {
        lemma_pow256_values();
    }
    if size == 1 {
        output.push(u as u8);
        proof {
            reveal_with_fuel(be_bytes, 2);
            assert(be_bytes(u as nat, 1) == seq![u as u8]);
        }
    } else if size == 2 {
        let b = be_bytes_u16(u as u16);
        append_bytes(output, &b);
    } else if size == 4 {
        let b = be_bytes_u32(u as u32);
        append_bytes(output, &b);
    } else {
        let b = be_bytes_u64(u);
        append_bytes(output, &b);
    }
}

/// Appends to `output` the lane that holds the number that `token` denotes.
///
/// Where the token denotes no number that the lane can hold, `output` stays as it is.
pub fn int_to_kbin_bytes(
    output: &mut Vec<u8>,
    token: &Vec<char>,
    size: usize,
    signed: bool,
    node_type: &'static str,
) -> (r: Result<(), KbinError>)
    requires
        size == 1 || size == 2 || size == 4 || size == 8,
    ensures
        match format_int(token@, signed, size as nat, node_type) {
            Ok(lane) => r is Ok && final(output)@ == old(output)@ + lane,
            Err(e) => r == Err::<(), KbinError>(e) && final(output)@ == old(output)@,
        },
{
    proof {
        lemma_pow256_values();
    }
    let half: i128 = if size == 1 {
        0x80
    } else if size == 2 {
        0x8000
    } else if size == 4 {
        0x8000_0000
    } else {
        0x8000_0000_0000_0000
    };
    let lo: i128 = if signed {
        -half
    } else {
        0
    };
    let hi: i128 = if signed {
        half - 1
    } else {
        2 * half - 1
    };
    match read_int(token, lo, hi) {
        Some(v) => {
            let u: i128 = if v < 0 {
                v + 2 * half
            } else {
                v
            };
            push_lane_bytes(output, u as u64, size);
            Ok(())
        },
        None => Err(KbinError::StringParseInt { node_type }),
    }
}

/// Appends to `output` the lane that holds the boolean that `token` denotes.
///
/// Where the token denotes no boolean, `output` stays as it is.
pub fn bool_to_kbin_bytes(output: &mut Vec<u8>, token: &Vec<char>, node_type: &'static str) -> (r:
    Result<(), KbinError>)
    ensures
        match format_bool(token@, node_type) {
            Ok(lane) => r is Ok && final(output)@ == old(output)@ + lane,
            Err(e) => r == Err::<(), KbinError>(e) && final(output)@ == old(output)@,
        },
{
    match read_int(token, 0, 255) {
        Some(v) => {
            if v <= 1 {
                output.push(v as u8);
                assert(final(output)@ == old(output)@ + seq![v as u8]);
                Ok(())
            } else {
                Err(KbinError::InvalidBooleanInput { input: v as u8 })
            }
        },
        None => Err(KbinError::StringParseInt { node_type }),
    }
}

/// Appends to `output` the four bytes of the address that `token` denotes.
///
/// Where the token denotes no address, `output` stays as it is.
#[verifier::loop_isolation(false)]
pub fn ip4_to_kbin_bytes(output: &mut Vec<u8>, token: &Vec<char>, node_type: &'static str) -> (r:
    Result<(), KbinError>)
    ensures
        match format_ip4(token@, node_type) {
            Ok(lane) => r is Ok && final(output)@ == old(output)@ + lane,
            Err(e) => r == Err::<(), KbinError>(e) && final(output)@ == old(output)@,
        },
{
    let parts = split(token, Separator::Dot);
    if parts.len() != 4 {
        return Err(
            KbinError::SizeMismatch { node_type, expected: 4, actual: parts.len() },
        );
    }
    let mut lane: Vec<u8> = Vec::new();
    let mut i: usize = 0;
    proof {
        assert(texts_of(parts@).take(0) == Seq::<Seq<char>>::empty());
    }
    while i < 4
        invariant
            i <= 4,
            parts.len() == 4,
            format_octets(texts_of(parts@).take(i as int), node_type) == Ok::<Seq<u8>, KbinError>(
                lane@,
            ),
        decreases 4 - i,
    {
        proof {
            let next = texts_of(parts@).take(i + 1);
            assert(next.drop_last() == texts_of(parts@).take(i as int));
            assert(next.last() == parts@[i as int]@);
        }
        match read_int(&parts[i], 0, 255) {
            Some(v) => {
                lane.push(v as u8);
            },
            None => {
                proof {
                    lemma_format_octets_error(texts_of(parts@), node_type, i as nat);
                }
                return Err(KbinError::StringParseInt { node_type });
            },
        }
        i += 1;
    }
    proof {
        assert(texts_of(parts@).take(4) == texts_of(parts@));
    }
    append_bytes(output, &lane);
    Ok(())
}

/// A numeral that denotes no byte makes the whole address an error.
pub proof fn lemma_format_octets_error(parts: Seq<Seq<char>>, node_type: &'static str, i: nat)
    requires
        i < parts.len(),
        format_octets(parts.take(i as int), node_type) is Ok,
        parse_int(parts[i as int], 0, 255) is None,
    ensures
        format_octets(parts, node_type) == Err::<Seq<u8>, KbinError>(
            KbinError::StringParseInt { node_type },
        ),
    decreases parts.len() - i,
{
    let next = parts.take(i + 1 as int);
    assert(next.drop_last() == parts.take(i as int));
    assert(next.last() == parts[i as int]);
    lemma_format_octets_error_from(parts, node_type, (i + 1) as nat);
}

/// An error among the first numerals is the error of all of them.
pub proof fn lemma_format_octets_error_from(
    parts: Seq<Seq<char>>,
    node_type: &'static str,
    k: nat,
)
    requires
        k <= parts.len(),
        format_octets(parts.take(k as int), node_type) is Err,
    ensures
        format_octets(parts, node_type) == format_octets(parts.take(k as int), node_type),
    decreases parts.len() - k,
{
    if k == parts.len() {
        assert(parts.take(k as int) == parts);
    } else {
        let next = parts.take(k + 1 as int);
        assert(next.drop_last() == parts.take(k as int));
        lemma_format_octets_error_from(parts, node_type, k + 1);
    }
}

/// An error among the first tokens is the error of all of them.
pub proof fn lemma_format_lanes_error_from(
    kind: LaneKind,
    size: nat,
    node_type: &'static str,
    tokens: Seq<Seq<char>>,
    k: nat,
)
    requires
        k <= tokens.len(),
        format_lanes(kind, size, node_type, tokens.take(k as int)) is Err,
    ensures
        format_lanes(kind, size, node_type, tokens) == format_lanes(
            kind,
            size,
            node_type,
            tokens.take(k as int),
        ),
    decreases tokens.len() - k,
{
    if k == tokens.len() {
        assert(tokens.take(k as int) == tokens);
    } else {
        let next = tokens.take(k + 1 as int);
        assert(next.drop_last() == tokens.take(k as int));
        lemma_format_lanes_error_from(kind, size, node_type, tokens, k + 1);
    }
}

/// Appends to `output` the lane that holds what `token` denotes, for every kind but floating point.
fn push_lane(
    output: &mut Vec<u8>,
    kind: LaneKind,
    size: usize,
    node_type: &'static str,
    token: &Vec<char>,
) -> (r: Result<(), KbinError>)
    requires
        lane_fits(kind, size as nat),
        kind != LaneKind::Float,
    ensures
        match format_lane(kind, size as nat, node_type, token@) {
            Ok(lane) => r is Ok && final(output)@ == old(output)@ + lane,
            Err(e) => r == Err::<(), KbinError>(e) && final(output)@ == old(output)@,
        },
{
    match kind {
        LaneKind::Signed => int_to_kbin_bytes(output, token, size, true, node_type),
        LaneKind::Unsigned => int_to_kbin_bytes(output, token, size, false, node_type),
        LaneKind::Bool => bool_to_kbin_bytes(output, token, node_type),
        _ => ip4_to_kbin_bytes(output, token, node_type),
    }
}

impl StandardType {
    /// Appends to `output` the lanes that hold what the tokens denote, for
    /// every kind but floating point.
    pub fn to_array(&self, output: &mut Vec<u8>, tokens: &Vec<Vec<char>>) -> (r: Result<
        (),
        KbinError,
    >)
        requires
            self.has_lanes(),
            self.spec_kind() != LaneKind::Float,
        ensures
            match format_lanes(
                self.spec_kind(),
                self.spec_size() as nat,
                self.spec_name(),
                texts_of(tokens@),
            ) {
                Ok(lanes) => r is Ok && final(output)@ == old(output)@ + lanes,
                Err(e) => r == Err::<(), KbinError>(e),
            },
    {
        let kind = self.kind();
        let size = self.size() as usize;
        let name = self.name();
        proof {
            lemma_lane_fits(*self);
            assert(texts_of(tokens@).take(0) == Seq::<Seq<char>>::empty());
            assert(output@ == old(output)@ + Seq::<u8>::empty());
        }
        let ghost all = texts_of(tokens@);
        let ghost mut done: Seq<u8> = Seq::empty();
        let mut i: usize = 0;
        while i < tokens.len()
            invariant
                i <= tokens.len(),
                all == texts_of(tokens@),
                kind == self.spec_kind(),
                size == self.spec_size(),
                name == self.spec_name(),
                kind != LaneKind::Float,
                lane_fits(kind, size as nat),
                format_lanes(kind, size as nat, name, all.take(i as int)) == Ok::<
                    Seq<u8>,
                    KbinError,
                >(done),
                output@ == old(output)@ + done,
            decreases tokens.len() - i,
        {
            proof {
                let next = all.take(i + 1);
                assert(next.drop_last() == all.take(i as int));
                assert(next.last() == tokens@[i as int]@);
            }
            match push_lane(output, kind, size, name, &tokens[i]) {
                Ok(()) => {
                    proof {
                        let lane = format_lane(kind, size as nat, name, tokens@[i as int]@)->Ok_0;
                        assert(output@ == old(output)@ + (done + lane));
                        done = done + lane;
                    }
                },
                Err(e) => {
                    proof {
                        lemma_format_lanes_error_from(kind, size as nat, name, all, (i + 1) as nat);
                    }
                    return Err(e);
                },
            }
            i += 1;
        }
        proof {
            assert(all.take(tokens.len() as int) == all);
        }
        Ok(())
    }
}

impl StandardType {
    /// Collects the texts that `floats` gives for the floating-point lanes of `input`.
    #[verifier::loop_isolation(false)]
    fn float_texts<F: FloatText>(&self, input: &[u8], floats: &F) -> (texts: Vec<
        String,
    >)
        requires
            self.whole_values(input@),
            self.spec_kind() == LaneKind::Float,
        ensures
            texts_given(floats, float_lanes(self.spec_size() as nat, input@), texts@),
    {
        let size = self.size() as usize;
        proof {
            lemma_lane_fits(*self);
            lemma_whole_lanes(*self, input@.len());
            lemma_pow256_values();
        }
        let n = input.len() / size;
        let ghost lanes = float_lanes(size as nat, input@);
        let mut texts: Vec<String> = Vec::new();
        let mut i: usize = 0;
        while i < n
            invariant
                i <= n,
                texts@.len() == i,
                forall|j: int|
                    0 <= j < i ==> call_ensures(
                        F::text_of,
                        (floats, lanes[j]),
                        #[trigger] texts@[j],
                    ),
            decreases n - i,
        {
            proof {
                lemma_lane_bounds(i as nat, n as nat, size as nat);
            }
            let at = i * size;
            proof {
                let lane = input@.subrange(at as int, at + size);
                assert(lane_at(input@, size as nat, i as nat) == lane);
                crate::byte_order::lemma_be_value_bound(lane);
            }
            let bits = if size == 4 {
                FloatBits::Single(read_be_u32(input, at))
            } else {
                FloatBits::Double(read_be_u64(input, at))
            };
            assert(bits == lanes[i as int]);
            let text = floats.text_of(bits);
            texts.push(text);
            i += 1;
        }
        texts
    }

    /// The text of the values that `input` holds.
    ///
    /// The lanes are read in order, most significant byte first, and their
    /// texts are separated by single blanks. The text of a floating-point lane
    /// is the one that `floats` gives for its number.
    pub fn parse_bytes<F: FloatText>(&self, input: &[u8], floats: &F) -> (r: Result<
        String,
        KbinError,
    >)
        ensures
            self.spec_kind() != LaneKind::Float ==> text_result(r) == self.spec_parse_bytes(
                input@,
            ),
            self.spec_kind() == LaneKind::Float ==> match self.parse_refusal(input@) {
                Some(e) => r == Err::<String, KbinError>(e),
                None => r is Ok && float_text(
                    floats,
                    float_lanes(self.spec_size() as nat, input@),
                    r->Ok_0@,
                ),
            },
    {
        if self.count() < 1 {
            return Err(KbinError::InvalidNodeType { node_type: self.id() });
        }
        proof {
            lemma_lane_fits(*self);
        }
        proof {
            let z = self.spec_size() as int;
            let c = self.spec_count() as int;
            assert(0 < z * c <= 128) by (nonlinear_arith)
                requires
                    1 <= z <= 8,
                    1 <= c <= 16,
            ;
        }
        let footprint: usize = (self.size() as usize) * (self.count() as usize);
        if input.len() % footprint != 0 {
            return Err(
                KbinError::SizeMismatch {
                    node_type: self.name(),
                    expected: footprint,
                    actual: input.len(),
                },
            );
        }
        let mut out: Vec<char> = Vec::new();
        match self.kind() {
            LaneKind::Float => {
                let given = self.float_texts(input, floats);
                let texts = chars_of_all(&given);
                push_joined(&mut out, &texts, ' ');
                proof {
                    assert(out@ == join(views(given@), ' '));
                }
                Ok(string_of(&out))
            },
            _ => {
                match self.parse_array(input) {
                    Ok(texts) => {
                        push_joined(&mut out, &texts, ' ');
                        assert(out@ == join(texts_of(texts@), ' '));
                        Ok(string_of(&out))
                    },
                    Err(e) => Err(e),
                }
            },
        }
    }

    /// Appends to `output` the lanes that hold the numbers that `floats` gives for the tokens.
    ///
    /// A token for which it gives no number, or one of another precision, is refused.
    #[verifier::loop_isolation(false)]
    fn float_to_array<F: FloatText>(
        &self,
        output: &mut Vec<u8>,
        tokens: &Vec<Vec<char>>,
        floats: &F,
    ) -> (r: Result<(), KbinError>)
        requires
            self.has_lanes(),
            self.spec_kind() == LaneKind::Float,
        ensures
            match r {
                Ok(()) => exists|texts: Seq<String>, found: Seq<FloatBits>| #[trigger]
                    bits_given(floats, self.spec_double(), texts, found) && views(texts)
                        == texts_of(tokens@) && final(output)@ == old(output)@ + bits_lanes(found),
                Err(e) => e == (KbinError::StringParseFloat { node_type: self.spec_name() })
                    && float_refused(floats, self.spec_double(), texts_of(tokens@)),
            },
    {
        let size = self.size() as usize;
        let double = size == 8;
        proof {
            lemma_lane_fits(*self);
            lemma_pow256_values();
        }
        let ghost mut texts: Seq<String> = Seq::empty();
        let ghost mut found: Seq<FloatBits> = Seq::empty();
        let mut i: usize = 0;
        proof {
            assert(views(texts) == texts_of(tokens@).take(0));
            assert(output@ == old(output)@ + bits_lanes(found));
        }
        while i < tokens.len()
            invariant
                i <= tokens.len(),
                bits_given(floats, double, texts, found),
                texts.len() == i,
                views(texts) == texts_of(tokens@).take(i as int),
                output@ == old(output)@ + bits_lanes(found),
            decreases tokens.len() - i,
        {
            let text = string_of(&tokens[i]);
            let ghost given = text;
            let got = floats.bits_of(text, double);
            proof {
                assert(double == self.spec_double());
                assert(texts_of(tokens@)[i as int] == given@);
                assert(call_ensures(F::bits_of, (floats, given, double), got));
            }
            let bits = match got {
                Some(bits) => bits,
                None => {
                    return Err(KbinError::StringParseFloat { node_type: self.name() });
                },
            };
            let ghost before = output@;
            match bits {
                FloatBits::Single(b) => {
                    if double {
                        return Err(KbinError::StringParseFloat { node_type: self.name() });
                    }
                    push_lane_bytes(output, b as u64, 4);
                },
                FloatBits::Double(b) => {
                    if !double {
                        return Err(KbinError::StringParseFloat { node_type: self.name() });
                    }
                    push_lane_bytes(output, b, 8);
                },
            }
            proof {
                let grown = found.push(bits);
                assert(grown.drop_last() == found);
                assert(output@ == old(output)@ + (bits_lanes(found) + bits_lane(bits)));
                texts = texts.push(given);
                found = grown;
                assert(views(texts) == texts_of(tokens@).take(i + 1));
            }
            i += 1;
        }
        proof {
            assert(texts_of(tokens@).take(tokens.len() as int) == texts_of(tokens@));
            assert(double == self.spec_double());
            assert(bits_given(floats, self.spec_double(), texts, found) && views(texts)
                == texts_of(tokens@) && output@ == old(output)@ + bits_lanes(found));
        }
        Ok(())
    }

    /// The bytes of `arr_count` values of this type that `input` denotes.
    ///
    /// The text is cut into words at white space; there must be one word for
    /// each lane, and each is written into its lane, most significant byte
    /// first. A type of varying length is refused; a marker has no bytes. The
    /// number in a floating-point lane is the one that `floats` gives for
    /// its word and the precision of the type; a word for which it gives
    /// none, or one of another precision, is refused.
    pub fn format_bytes<F: FloatText>(
        &self,
        input: &str,
        arr_count: usize,
        floats: &F,
    ) -> (r: Result<Vec<u8>, KbinError>)
        ensures
            self.spec_kind() != LaneKind::Float ==> bytes_result(r) == self.spec_format_bytes(
                input@,
                arr_count as nat,
            ),
            self.spec_kind() == LaneKind::Float ==> match self.format_refusal(
                input@,
                arr_count as nat,
            ) {
                Some(e) => r == Err::<Vec<u8>, KbinError>(e),
                None => match r {
                    Ok(b) => b@.len() == arr_count * self.footprint() && float_bytes(
                        floats,
                        self.spec_double(),
                        tokens(input@),
                        b@,
                    ),
                    Err(e) => e == (KbinError::StringParseFloat { node_type: self.spec_name() })
                        && float_refused(floats, self.spec_double(), tokens(input@)),
                },
            },
    {
        if self.count() == -1 {
            return Err(KbinError::InvalidNodeType { node_type: self.id() });
        }
        if self.count() < 1 {
            return Ok(Vec::new());
        }
        proof {
            lemma_lane_fits(*self);
        }
        let chars = chars_of(input);
        let toks = words(&chars);
        let count = self.count() as usize;
        proof {
            assert(texts_of(toks@).len() == toks@.len());
        }
        let want = arr_count.checked_mul(count);
        let fits = match want {
            Some(w) => toks.len() == w,
            None => false,
        };
        if !fits {
            let expected = match want {
                Some(w) => w,
                None => usize::MAX,
            };
            return Err(
                KbinError::SizeMismatch {
                    node_type: self.name(),
                    expected,
                    actual: toks.len(),
                },
            );
        }
        let mut out: Vec<u8> = Vec::new();
        match self.kind() {
            LaneKind::Float => {
                match self.float_to_array(&mut out, &toks, floats) {
                    Ok(()) => {
                        proof {
                            let double = self.spec_double();
                            let (texts, found) = choose|texts: Seq<String>, found: Seq<FloatBits>|
                                #[trigger] bits_given(floats, double, texts, found) && views(
                                    texts,
                                ) == texts_of(toks@) && out@ == Seq::<u8>::empty() + bits_lanes(
                                    found,
                                );
                            assert(out@ == bits_lanes(found));
                            lemma_bits_lanes_len(found, double);
                            let a = arr_count as nat;
                            let c = self.spec_count() as nat;
                            let z = self.spec_size() as nat;
                            assert(found.len() == a * c);
                            assert((a * c) * z == a * (z * c)) by (nonlinear_arith);
                        }
                        Ok(out)
                    },
                    Err(e) => Err(e),
                }
            },
            _ => {
                match self.to_array(&mut out, &toks) {
                    Ok(()) => {
                        proof {
                            let lanes = self.spec_format_bytes(input@, arr_count as nat)->Ok_0;
                            assert(Seq::<u8>::empty() + lanes == lanes);
                        }
                        Ok(out)
                    },
                    Err(e) => Err(e),
                }
            },
        }
    }

    /// Appends to `output` the bytes of `arr_count` values of this type that `input` denotes.
    ///
    /// Where `input` is refused, `output` stays as it is.
    pub fn to_bytes<F: FloatText>(
        &self,
        output: &mut Vec<u8>,
        input: &str,
        arr_count: usize,
        floats: &F,
    ) -> (r: Result<(), KbinError>)
        ensures
            r is Err ==> final(output)@ == old(output)@,
            self.spec_kind() != LaneKind::Float ==> match self.spec_format_bytes(
                input@,
                arr_count as nat,
            ) {
                Ok(b) => r is Ok && final(output)@ == old(output)@ + b,
                Err(e) => r == Err::<(), KbinError>(e),
            },
            self.spec_kind() == LaneKind::Float ==> match self.format_refusal(
                input@,
                arr_count as nat,
            ) {
                Some(e) => r == Err::<(), KbinError>(e),
                None => match r {
                    Ok(()) => exists|b: Seq<u8>| #[trigger]
                        float_bytes(floats, self.spec_double(), tokens(input@), b) && b.len()
                            == arr_count * self.footprint() && final(output)@ == old(output)@ + b,
                    Err(e) => e == (KbinError::StringParseFloat { node_type: self.spec_name() })
                        && float_refused(floats, self.spec_double(), tokens(input@)),
                },
            },
    {
        match self.format_bytes(input, arr_count, floats) {
            Ok(b) => {
                append_bytes(output, &b);
                Ok(())
            },
            Err(e) => Err(e),
        }
    }
}

/// The characters of each of the strings.
pub fn chars_of_all(texts: &Vec<String>) -> (r: Vec<Vec<char>>)
    ensures
        texts_of(r@) == views(texts@),
{
    let mut r: Vec<Vec<char>> = Vec::new();
    let mut i: usize = 0;
    proof {
        assert(texts_of(r@) == views(texts@).take(0));
    }
    while i < texts.len()
        invariant
            i <= texts.len(),
            texts_of(r@) == views(texts@).take(i as int),
        decreases texts.len() - i,
    {
        let chars = chars_of(texts[i].as_str());
        let ghost before = r@;
        r.push(chars);
        proof {
            assert(texts_of(r@) == texts_of(before).push(chars@));
            assert(views(texts@).take(i + 1) == views(texts@).take(i as int).push(texts@[i as int]@));
        }
        i += 1;
    }
    proof {
        assert(views(texts@).take(texts.len() as int) == views(texts@));
    }
    r
}

} // verus!
