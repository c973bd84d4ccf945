use crate::byte_order::{
    be_bytes, be_value, lemma_be_bytes_of_value, lemma_be_value_bound, lemma_pow256_values, pow256,
};
use crate::error::KbinError;
use crate::lanes::{
    address_parts, format_lane, format_lanes, format_octets, int_bounds, int_lane, lane_at,
    lane_fits, lane_int, lemma_lane_fits, lemma_whole_lanes, parse_lane, parse_lanes,
};
use crate::node_types::{LaneKind, StandardType};
use crate::text::{
    all_digits, decimal, is_digit, lemma_decimal_value, lemma_parse_signed_decimal, parse_int,
    signed_decimal,
};
use crate::tokens::{
    free_of, join, lemma_pieces_join, lemma_tokens_join, Separator,
};
use vstd::prelude::*;

verus! {

/// Digits hold no separator.
pub proof fn lemma_digits_free(s: Seq<char>, sep: Separator)
    requires
        all_digits(s),
    ensures
        free_of(s, sep),
{
    assert forall|i: int| 0 <= i < s.len() implies !sep.spec_splits(#[trigger] s[i]) by {
        assert(is_digit(s[i]));
    }
}

/// A numeral, signed or not, is a word: not empty and free of white space.
pub proof fn lemma_numeral_is_word(v: int)
    ensures
        signed_decimal(v).len() > 0,
        free_of(signed_decimal(v), Separator::Space),
{
    if v < 0 {
        lemma_decimal_value((-v) as nat);
        let d = decimal((-v) as nat);
        let s = seq!['-'] + d;
        assert forall|i: int| 0 <= i < s.len() implies !Separator::Space.spec_splits(
            #[trigger] s[i],
        ) by {
            if i > 0 {
                assert(s[i] == d[i - 1]);
                assert(is_digit(d[i - 1]));
            }
        }
    } else {
        lemma_decimal_value(v as nat);
        lemma_digits_free(decimal(v as nat), Separator::Space);
    }
}

/// Texts that hold no separator, joined by a character that is none, hold none.
pub proof fn lemma_join_free(texts: Seq<Seq<char>>, between: char, sep: Separator)
    requires
        !sep.spec_splits(between),
        forall|i: int| 0 <= i < texts.len() ==> free_of(#[trigger] texts[i], sep),
    ensures
        free_of(join(texts, between), sep),
    decreases texts.len(),
{
    if texts.len() == 0 {
    } else if texts.len() == 1 {
        assert(free_of(texts[0], sep));
    } else {
        let head = texts.drop_last();
        assert forall|i: int| 0 <= i < head.len() implies free_of(#[trigger] head[i], sep) by {
            assert(head[i] == texts[i]);
        }
        lemma_join_free(head, between, sep);
        let a = join(head, between).push(between);
        let last = texts.last();
        assert(free_of(texts[texts.len() - 1], sep));
        let all = a + last;
        assert forall|i: int| 0 <= i < all.len() implies !sep.spec_splits(#[trigger] all[i]) by {
            if i < a.len() - 1 {
                assert(all[i] == join(head, between)[i]);
            } else if i == a.len() - 1 {
                assert(all[i] == between);
            } else {
                assert(all[i] == last[i - a.len()]);
            }
        }
    }
}

/// The numerals of an address are four, hold digits only, and denote the four bytes.
pub proof fn lemma_address_parts(lane: Seq<u8>, node_type: &'static str)
    requires
        lane.len() == 4,
    ensures
        address_parts(lane).len() == 4,
        forall|i: int|
            0 <= i < 4 ==> all_digits(#[trigger] address_parts(lane)[i]) && address_parts(
                lane,
            )[i].len() > 0,
        format_octets(address_parts(lane), node_type) == Ok::<Seq<u8>, KbinError>(lane),
{
    let parts = address_parts(lane);
    assert forall|i: int| 0 <= i < 4 implies all_digits(#[trigger] parts[i]) && parts[i].len()
        > 0 && parse_int(parts[i], 0, 255) == Some(lane[i] as int) by {
        lemma_decimal_value(lane[i] as nat);
        lemma_parse_signed_decimal(lane[i] as int, 0, 255);
    }
    let p1 = parts.take(1);
    let p2 = parts.take(2);
    let p3 = parts.take(3);
    assert(p1.drop_last() == Seq::<Seq<char>>::empty());
    assert(p2.drop_last() == p1);
    assert(p3.drop_last() == p2);
    assert(parts.drop_last() == p3);
    assert(p1.last() == parts[0]);
    assert(p2.last() == parts[1]);
    assert(p3.last() == parts[2]);
    assert(parts.last() == parts[3]);
    let e0 = Seq::<u8>::empty();
    let e1 = e0.push(lane[0]);
    let e2 = e1.push(lane[1]);
    let e3 = e2.push(lane[2]);
    let e4 = e3.push(lane[3]);
    assert(format_octets(p1.drop_last(), node_type) == Ok::<Seq<u8>, KbinError>(e0));
    assert(parse_int(p1.last(), 0, 255) == Some(lane[0] as int));
    assert(format_octets(p1, node_type) == Ok::<Seq<u8>, KbinError>(e1));
    assert(parse_int(p2.last(), 0, 255) == Some(lane[1] as int));
    assert(format_octets(p2, node_type) == Ok::<Seq<u8>, KbinError>(e2));
    assert(parse_int(p3.last(), 0, 255) == Some(lane[2] as int));
    assert(format_octets(p3, node_type) == Ok::<Seq<u8>, KbinError>(e3));
    assert(parse_int(parts.last(), 0, 255) == Some(lane[3] as int));
    assert(format_octets(parts, node_type) == Ok::<Seq<u8>, KbinError>(e4));
    assert(e4 == lane);
}

/// The text of a lane is a word: not empty and free of white space.
pub proof fn lemma_lane_text_is_word(kind: LaneKind, lane: Seq<u8>)
    requires
        lane_fits(kind, lane.len()),
        kind != LaneKind::Float,
        parse_lane(kind, lane) is Ok,
    ensures
        parse_lane(kind, lane)->Ok_0.len() > 0,
        free_of(parse_lane(kind, lane)->Ok_0, Separator::Space),
{
    match kind {
        LaneKind::Signed => {
            lemma_numeral_is_word(lane_int(lane));
        },
        LaneKind::Unsigned => {
            lemma_numeral_is_word(be_value(lane) as int);
        },
        LaneKind::Bool => {
            lemma_numeral_is_word(lane[0] as int);
        },
        _ => {
            let parts = address_parts(lane);
            lemma_address_parts(lane, "");
            assert forall|i: int| 0 <= i < parts.len() implies free_of(
                #[trigger] parts[i],
                Separator::Space,
            ) by {
                lemma_digits_free(parts[i], Separator::Space);
            }
            lemma_join_free(parts, '.', Separator::Space);
            let p3 = parts.drop_last();
            assert(join(parts, '.') == join(p3, '.').push('.') + parts.last());
            assert(parts[3].len() > 0);
        },
    }
}

/// Writing the text of a lane gives the lane back.
pub proof fn lemma_lane_round_trip(kind: LaneKind, lane: Seq<u8>, node_type: &'static str)
    requires
        lane_fits(kind, lane.len()),
        kind != LaneKind::Float,
        parse_lane(kind, lane) is Ok,
    ensures
        format_lane(kind, lane.len(), node_type, parse_lane(kind, lane)->Ok_0) == Ok::<
            Seq<u8>,
            KbinError,
        >(lane),
{
    let size = lane.len();
    lemma_pow256_values();
    lemma_be_value_bound(lane);
    lemma_be_bytes_of_value(lane);
    let u = be_value(lane) as int;
    let m = pow256(size) as int;
    match kind {
        LaneKind::Signed => {
            let v = lane_int(lane);
            lemma_parse_signed_decimal(v, int_bounds(true, size).0, int_bounds(true, size).1);
            assert(int_lane(v, size) == be_bytes(u as nat, size));
        },
        LaneKind::Unsigned => {
            lemma_parse_signed_decimal(u, 0, m - 1);
            assert(signed_decimal(u) == decimal(u as nat));
        },
        LaneKind::Bool => {
            lemma_parse_signed_decimal(lane[0] as int, 0, 255);
            assert(seq![lane[0]] == lane);
        },
        _ => {
            let parts = address_parts(lane);
            lemma_address_parts(lane, node_type);
            assert forall|i: int| 0 <= i < parts.len() implies free_of(
                #[trigger] parts[i],
                Separator::Dot,
            ) by {
                lemma_digits_free(parts[i], Separator::Dot);
            }
            lemma_pieces_join(parts, '.', Separator::Dot);
        },
    }
}

/// The texts of the lanes of an input are words, one for each lane, and
/// writing them gives the lanes back.
pub proof fn lemma_lanes_round_trip(
    kind: LaneKind,
    size: nat,
    input: Seq<u8>,
    n: nat,
    node_type: &'static str,
)
    requires
        lane_fits(kind, size),
        kind != LaneKind::Float,
        n * size <= input.len(),
        parse_lanes(kind, size, input, n) is Ok,
    ensures
        parse_lanes(kind, size, input, n)->Ok_0.len() == n,
        forall|i: int|
            0 <= i < n ==> (#[trigger] parse_lanes(kind, size, input, n)->Ok_0[i]).len() > 0
                && free_of(parse_lanes(kind, size, input, n)->Ok_0[i], Separator::Space),
        format_lanes(kind, size, node_type, parse_lanes(kind, size, input, n)->Ok_0) == Ok::<
            Seq<u8>,
            KbinError,
        >(input.take((n * size) as int)),
    decreases n,
{
    if n == 0 {
        assert(0 * size == 0) by (nonlinear_arith);
        assert(input.take(0) == Seq::<u8>::empty());
    } else {
        let k = (n - 1) as nat;
        assert(k * size + size == n * size) by (nonlinear_arith)
            requires
                k + 1 == n,
        ;
        assert(k * size >= 0) by (nonlinear_arith);
        lemma_lanes_round_trip(kind, size, input, k, node_type);
        let head = parse_lanes(kind, size, input, k)->Ok_0;
        let lane = lane_at(input, size, k);
        assert(lane.len() == size);
        lemma_lane_text_is_word(kind, lane);
        lemma_lane_round_trip(kind, lane, node_type);
        let texts = parse_lanes(kind, size, input, n)->Ok_0;
        assert(texts == head.push(parse_lane(kind, lane)->Ok_0));
        assert(texts.drop_last() == head);
        assert forall|i: int| 0 <= i < n implies (#[trigger] texts[i]).len() > 0 && free_of(
            texts[i],
            Separator::Space,
        ) by {
            if i < k {
                assert(texts[i] == head[i]);
            }
        }
        assert(input.take((k * size) as int) + lane == input.take((n * size) as int));
    }
}

/// Writing the text of values gives their bytes back: for every type with
/// lanes but the floating-point types, the text that is read from bytes
/// denotes those bytes, as many values as they hold.
pub proof fn lemma_value_round_trip(t: StandardType, bytes: Seq<u8>)
    requires
        t.spec_kind() != LaneKind::Float,
        t.spec_parse_bytes(bytes) is Ok,
    ensures
        t.spec_format_bytes(t.spec_parse_bytes(bytes)->Ok_0, bytes.len() / t.footprint()) == Ok::<
            Seq<u8>,
            KbinError,
        >(bytes),
{
    lemma_lane_fits(t);
    lemma_whole_lanes(t, bytes.len());
    let kind = t.spec_kind();
    let size = t.spec_size() as nat;
    let count = t.spec_count() as nat;
    let n = bytes.len() / size;
    let arr = bytes.len() / t.footprint();
    lemma_lanes_round_trip(kind, size, bytes, n, t.spec_name());
    let texts = parse_lanes(kind, size, bytes, n)->Ok_0;
    lemma_tokens_join(texts);
    assert(bytes.take((n * size) as int) == bytes);
    assert(n == arr * count) by (nonlinear_arith)
        requires
            n * size == bytes.len(),
            bytes.len() % (size * count) == 0,
            arr == bytes.len() / (size * count),
            size > 0,
            count > 0,
    ;
}

} // verus!
