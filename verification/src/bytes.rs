//! Little-endian integers inside byte sequences.

use vstd::prelude::*;

verus! {

/// The 16-bit little-endian integer at position `at` of `b`.
pub open spec fn le16(b: Seq<u8>, at: int) -> u16 {
    (b[at] + 256 * b[at + 1]) as u16
}

/// The 32-bit little-endian integer at position `at` of `b`.
pub open spec fn le32(b: Seq<u8>, at: int) -> u32 {
    (le16(b, at) + 65536 * le16(b, at + 2)) as u32
}

/// The 64-bit little-endian integer at position `at` of `b`.
pub open spec fn le64(b: Seq<u8>, at: int) -> u64 {
    (le32(b, at) + 4294967296 * le32(b, at + 4)) as u64
}

/// The two bytes of `v`, least significant first.
pub open spec fn le16_bytes(v: u16) -> Seq<u8> {
    seq![(v % 256) as u8, (v / 256) as u8]
}

/// The four bytes of `v`, least significant first.
pub open spec fn le32_bytes(v: u32) -> Seq<u8> {
    seq![
        (v % 256) as u8,
        (v / 256 % 256) as u8,
        (v / 65536 % 256) as u8,
        (v / 16777216) as u8,
    ]
}

/// Reading two bytes as an integer and writing that integer out again changes nothing.
pub proof fn le16_round_trip(b: Seq<u8>)
    requires
        b.len() == 2,
    ensures
        le16_bytes(le16(b, 0)) == b,
{
    assert(le16_bytes(le16(b, 0)) =~= b);
}

/// Writing a 32-bit integer out and reading it back gives the same integer.
pub proof fn le32_round_trip(v: u32)
    ensures
        le32(le32_bytes(v), 0) == v,
{
}

/// Four bytes are the encoding of the integer that they spell.
pub proof fn le32_bytes_round_trip(b: Seq<u8>)
    requires
        b.len() == 4,
    ensures
        le32_bytes(le32(b, 0)) == b,
{
    assert(le32_bytes(le32(b, 0)) =~= b);
}

/// Reads the 16-bit little-endian integer at `at`.
pub fn get_le16(b: &[u8], at: usize) -> (v: u16)
    requires
        at + 2 <= b@.len(),
    ensures
        v == le16(b@, at as int),
{
    let low: u16 = b[at] as u16;
    let high: u16 = b[at + 1] as u16;
    low + 256 * high
}

/// Reads the 32-bit little-endian integer at `at`.
pub fn get_le32(b: &[u8], at: usize) -> (v: u32)
    requires
        at + 4 <= b@.len(),
    ensures
        v == le32(b@, at as int),
{
    assert(at + 4 <= b.len());
    let low: u32 = get_le16(b, at) as u32;
    let high: u32 = get_le16(b, at + 2) as u32;
    low + 65536 * high
}

/// Reads the 64-bit little-endian integer at `at`.
pub fn get_le64(b: &[u8], at: usize) -> (v: u64)
    requires
        at + 8 <= b@.len(),
    ensures
        v == le64(b@, at as int),
{
    assert(at + 8 <= b.len());
    let low: u64 = get_le32(b, at) as u64;
    let high: u64 = get_le32(b, at + 4) as u64;
    low + 4294967296 * high
}

/// The two bytes of `v`, least significant first.
pub fn put_le16(v: u16) -> (b: Vec<u8>)
    ensures
        b@ == le16_bytes(v),
{
    let mut b: Vec<u8> = Vec::with_capacity(2);
    b.push((v % 256) as u8);
    b.push((v / 256) as u8);
    assert(b@ =~= le16_bytes(v));
    b
}

/// Appends the four bytes of `v` to `b`, least significant first.
pub fn push_le32(b: &mut Vec<u8>, v: u32)
    ensures
        final(b)@ == old(b)@ + le32_bytes(v),
{
    b.push((v % 256) as u8);
    b.push((v / 256 % 256) as u8);
    b.push((v / 65536 % 256) as u8);
    b.push((v / 16777216) as u8);
    assert(b@ =~= old(b)@ + le32_bytes(v));
}

} // verus!
