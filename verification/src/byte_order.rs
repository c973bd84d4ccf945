use byteorder::ByteOrder;
use vstd::prelude::*;

verus! {

/// 256 to the power `w`: the number of values that `w` bytes can hold.
pub open spec fn pow256(w: nat) -> nat
    decreases w,
{
    if w == 0 {
        1
    } else {
        256 * pow256((w - 1) as nat)
    }
}

/// The number that a byte sequence denotes when its first byte is the most significant.
pub open spec fn be_value(s: Seq<u8>) -> nat
    decreases s.len(),
{
    if s.len() == 0 {
        0
    } else {
        be_value(s.drop_last()) * 256 + s.last() as nat
    }
}

/// The `w` bytes that denote `v`, most significant byte first.
pub open spec fn be_bytes(v: nat, w: nat) -> Seq<u8>
    decreases w,
{
    if w == 0 {
        Seq::empty()
    } else {
        be_bytes(v / 256, (w - 1) as nat).push((v % 256) as u8)
    }
}

/// The powers of 256 for the lane widths of the format.
pub proof fn lemma_pow256_values()
    ensures
        pow256(0) == 1,
        pow256(1) == 0x100,
        pow256(2) == 0x1_0000,
        pow256(3) == 0x100_0000,
        pow256(4) == 0x1_0000_0000,
        pow256(8) == 0x1_0000_0000_0000_0000,
{
    reveal_with_fuel(pow256, 9);
}

/// `w` bytes denote a number below 256 to the power `w`.
pub proof fn lemma_be_value_bound(s: Seq<u8>)
    ensures
        be_value(s) < pow256(s.len()),
    decreases s.len(),
{
    if s.len() > 0 {
        lemma_be_value_bound(s.drop_last());
    }
}

/// Writing a number in `w` bytes gives `w` bytes.
pub proof fn lemma_be_bytes_len(v: nat, w: nat)
    ensures
        be_bytes(v, w).len() == w,
    decreases w,
{
    if w > 0 {
        lemma_be_bytes_len(v / 256, (w - 1) as nat);
    }
}

/// Writing the number that a byte sequence denotes gives the sequence back.
pub proof fn lemma_be_bytes_of_value(s: Seq<u8>)
    ensures
        be_bytes(be_value(s), s.len()) == s,
    decreases s.len(),
{
    if s.len() > 0 {
        let head = s.drop_last();
        lemma_be_bytes_of_value(head);
        let v = be_value(s);
        assert(v / 256 == be_value(head));
        assert(v % 256 == s.last() as nat);
        assert(be_bytes(v, s.len()) == be_bytes(v / 256, (s.len() - 1) as nat).push(
            (v % 256) as u8,
        ));
        assert(head.push(s.last()) == s);
    }
}

/// Reading the bytes written for a number gives the number back, when it fits.
pub proof fn lemma_be_value_of_bytes(v: nat, w: nat)
    requires
        v < pow256(w),
    ensures
        be_value(be_bytes(v, w)) == v,
    decreases w,
{
    if w > 0 {
        lemma_be_value_of_bytes(v / 256, (w - 1) as nat);
        let s = be_bytes(v, w);
        assert(s.drop_last() == be_bytes(v / 256, (w - 1) as nat));
        assert(s.last() == (v % 256) as u8);
    }
}

/// Reads a 16-bit big-endian number from `buf`, starting at `at`.
///
/// Calls `byteorder::BigEndian::read_u16` on the rest of `buf` from `at`.
/// That function reads the first two bytes it is given, most significant
/// first, and panics on fewer than two: the contract demands two bytes and
/// claims their big-endian value.
#[verifier::external_body]
pub(crate) fn read_be_u16(buf: &[u8], at: usize) -> (r: u16)
    requires
        at + 2 <= buf.len(),
    ensures
        r == be_value(buf@.subrange(at as int, at + 2)),
{
    byteorder::BigEndian::read_u16(&buf[at..])
}

/// Reads a 32-bit big-endian number from `buf`, starting at `at`.
///
/// Calls `byteorder::BigEndian::read_u32` on the rest of `buf` from `at`.
/// That function reads the first four bytes it is given, most significant
/// first, and panics on fewer than four: the contract demands four bytes and
/// claims their big-endian value.
#[verifier::external_body]
pub(crate) fn read_be_u32(buf: &[u8], at: usize) -> (r: u32)
    requires
        at + 4 <= buf.len(),
    ensures
        r == be_value(buf@.subrange(at as int, at + 4)),
{
    byteorder::BigEndian::read_u32(&buf[at..])
}

/// Reads a 64-bit big-endian number from `buf`, starting at `at`.
///
/// Calls `byteorder::BigEndian::read_u64` on the rest of `buf` from `at`.
/// That function reads the first eight bytes it is given, most significant
/// first, and panics on fewer than eight: the contract demands eight bytes and
/// claims their big-endian value.
#[verifier::external_body]
pub(crate) fn read_be_u64(buf: &[u8], at: usize) -> (r: u64)
    requires
        at + 8 <= buf.len(),
    ensures
        r == be_value(buf@.subrange(at as int, at + 8)),
{
    byteorder::BigEndian::read_u64(&buf[at..])
}

/// The two bytes of `n`, most significant first.
///
/// Calls `byteorder::BigEndian::write_u16` on a buffer of two bytes, which it
/// fills with the big-endian form of `n`; the contract claims those two bytes.
#[verifier::external_body]
pub(crate) fn be_bytes_u16(n: u16) -> (r: Vec<u8>)
    ensures
        r@ == be_bytes(n as nat, 2),
{
    let mut buf = [0u8; 2];
    byteorder::BigEndian::write_u16(&mut buf, n);
    buf.to_vec()
}

/// The four bytes of `n`, most significant first.
///
/// Calls `byteorder::BigEndian::write_u32` on a buffer of four bytes, which it
/// fills with the big-endian form of `n`; the contract claims those four bytes.
#[verifier::external_body]
pub(crate) fn be_bytes_u32(n: u32) -> (r: Vec<u8>)
    ensures
        r@ == be_bytes(n as nat, 4),
{
    let mut buf = [0u8; 4];
    byteorder::BigEndian::write_u32(&mut buf, n);
    buf.to_vec()
}

/// The eight bytes of `n`, most significant first.
///
/// Calls `byteorder::BigEndian::write_u64` on a buffer of eight bytes, which it
/// fills with the big-endian form of `n`; the contract claims those eight bytes.
#[verifier::external_body]
pub(crate) fn be_bytes_u64(n: u64) -> (r: Vec<u8>)
    ensures
        r@ == be_bytes(n as nat, 8),
{
    let mut buf = [0u8; 8];
    byteorder::BigEndian::write_u64(&mut buf, n);
    buf.to_vec()
}

} // verus!
