//! Little-endian integers and UTF-32LE code points over byte sequences.

use vstd::prelude::*;

verus! {

/// The `u32` whose little-endian bytes are `b0 b1 b2 b3`.
pub open spec fn u32_from_bytes(b0: u8, b1: u8, b2: u8, b3: u8) -> u32 {
    (b0 as u32) | ((b1 as u32) << 8u32) | ((b2 as u32) << 16u32) | ((b3 as u32) << 24u32)
}

/// The little-endian `u32` stored at `pos` in `b`.
pub open spec fn u32_at(b: Seq<u8>, pos: int) -> u32 {
    u32_from_bytes(b[pos], b[pos + 1], b[pos + 2], b[pos + 3])
}

/// The little-endian `i32` stored at `pos` in `b` (two's complement).
pub open spec fn i32_at(b: Seq<u8>, pos: int) -> i32 {
    u32_at(b, pos) as i32
}

/// The little-endian `u64` stored at `pos` in `b`.
pub open spec fn u64_at(b: Seq<u8>, pos: int) -> u64 {
    (u32_at(b, pos) as u64) | ((u32_at(b, pos + 4) as u64) << 32u64)
}

/// The four little-endian bytes of `v`.
pub open spec fn u32_bytes(v: u32) -> Seq<u8> {
    seq![(v & 0xff) as u8, ((v >> 8u32) & 0xff) as u8, ((v >> 16u32) & 0xff) as u8, ((v >> 24u32) & 0xff) as u8]
}

/// The four little-endian bytes of `v` (two's complement).
pub open spec fn i32_bytes(v: i32) -> Seq<u8> {
    u32_bytes(v as u32)
}

/// The eight little-endian bytes of `v`.
pub open spec fn u64_bytes(v: u64) -> Seq<u8> {
    u32_bytes((v & 0xffff_ffff) as u32) + u32_bytes((v >> 32u64) as u32)
}

/// `v` saturated at `usize::MAX`.
pub open spec fn sat(v: int) -> int {
    if v > usize::MAX {
        usize::MAX as int
    } else {
        v
    }
}

/// Reading back the four bytes of `v` gives `v`.
pub proof fn lemma_u32_round_trip(v: u32)
    ensures
        u32_bytes(v).len() == 4,
        u32_at(u32_bytes(v), 0) == v,
{
    let b = u32_bytes(v);
    let b0 = (v & 0xff) as u8;
    let b1 = ((v >> 8u32) & 0xff) as u8;
    let b2 = ((v >> 16u32) & 0xff) as u8;
    let b3 = ((v >> 24u32) & 0xff) as u8;
    assert(b[0] == b0 && b[1] == b1 && b[2] == b2 && b[3] == b3);
    assert(u32_from_bytes(b0, b1, b2, b3) == v) by (bit_vector)
        requires
            b0 == (v & 0xff) as u8,
            b1 == ((v >> 8u32) & 0xff) as u8,
            b2 == ((v >> 16u32) & 0xff) as u8,
            b3 == ((v >> 24u32) & 0xff) as u8,
    ;
}

/// Reading back the four bytes of `v` as an `i32` gives `v`.
pub proof fn lemma_i32_round_trip(v: i32)
    ensures
        i32_bytes(v).len() == 4,
        i32_at(i32_bytes(v), 0) == v,
{
    lemma_u32_round_trip(v as u32);
    assert((v as u32) as i32 == v) by (bit_vector);
}

/// Reading back the eight bytes of `v` gives `v`.
pub proof fn lemma_u64_round_trip(v: u64)
    ensures
        u64_bytes(v).len() == 8,
        u64_at(u64_bytes(v), 0) == v,
{
    let lo = (v & 0xffff_ffff) as u32;
    let hi = (v >> 32u64) as u32;
    lemma_u32_round_trip(lo);
    lemma_u32_round_trip(hi);
    let b = u64_bytes(v);
    assert(b.subrange(0, 4) =~= u32_bytes(lo));
    assert(b.subrange(4, 8) =~= u32_bytes(hi));
    assert(u32_at(b, 0) == u32_at(u32_bytes(lo), 0));
    assert(u32_at(b, 4) == u32_at(u32_bytes(hi), 0));
    assert(((lo as u64) | ((hi as u64) << 32u64)) == v) by (bit_vector)
        requires
            lo == (v & 0xffff_ffff) as u32,
            hi == (v >> 32u64) as u32,
    ;
}

/// A value read at `pos` depends only on the four bytes there.
pub proof fn lemma_u32_at_bytes(b: Seq<u8>, pos: int, v: u32)
    requires
        0 <= pos,
        pos + 4 <= b.len(),
        b.subrange(pos, pos + 4) == u32_bytes(v),
    ensures
        u32_at(b, pos) == v,
{
    lemma_u32_round_trip(v);
    let s = b.subrange(pos, pos + 4);
    assert(b[pos] == s[0] && b[pos + 1] == s[1] && b[pos + 2] == s[2] && b[pos + 3] == s[3]);
}

/// Four zero bytes read as zero.
pub proof fn lemma_u32_zero()
    ensures
        u32_from_bytes(0u8, 0u8, 0u8, 0u8) == 0,
{
    assert(((0u8 as u32) | ((0u8 as u32) << 8u32) | ((0u8 as u32) << 16u32) | ((0u8 as u32)
        << 24u32)) == 0u32) by (bit_vector);
}

/// An `i32` read at `pos` depends only on the four bytes there.
pub proof fn lemma_i32_at_bytes(b: Seq<u8>, pos: int, v: i32)
    requires
        0 <= pos,
        pos + 4 <= b.len(),
        b.subrange(pos, pos + 4) == i32_bytes(v),
    ensures
        i32_at(b, pos) == v,
{
    lemma_u32_at_bytes(b, pos, v as u32);
    assert((v as u32) as i32 == v) by (bit_vector);
}

/// A `u64` read at `pos` depends only on the eight bytes there.
pub proof fn lemma_u64_at_bytes(b: Seq<u8>, pos: int, v: u64)
    requires
        0 <= pos,
        pos + 8 <= b.len(),
        b.subrange(pos, pos + 8) == u64_bytes(v),
    ensures
        u64_at(b, pos) == v,
{
    lemma_u64_round_trip(v);
    let s = b.subrange(pos, pos + 8);
    assert(b.subrange(pos, pos + 8) =~= s);
    assert forall|k: int| 0 <= k < 8 implies b[pos + k] == s[k] by {}
    assert(u32_at(b, pos) == u32_at(s, 0));
    assert(u32_at(b, pos + 4) == u32_at(s, 4));
}

/// The `u32` read from the bytes `[b0, b1, b2, b3]` in exec code.
pub fn u32_from_le(b0: u8, b1: u8, b2: u8, b3: u8) -> (v: u32)
    ensures
        v == u32_from_bytes(b0, b1, b2, b3),
{
    (b0 as u32) | ((b1 as u32) << 8u32) | ((b2 as u32) << 16u32) | ((b3 as u32) << 24u32)
}

/// Append the four little-endian bytes of `v`.
pub fn put_u32(out: &mut Vec<u8>, v: u32)
    ensures
        final(out)@ == old(out)@ + u32_bytes(v),
{
    let ghost start = out@;
    out.push((v & 0xff) as u8);
    out.push(((v >> 8u32) & 0xff) as u8);
    out.push(((v >> 16u32) & 0xff) as u8);
    out.push(((v >> 24u32) & 0xff) as u8);
    assert(out@ =~= start + u32_bytes(v));
}

/// Append the four little-endian bytes of `v` (two's complement).
pub fn put_i32(out: &mut Vec<u8>, v: i32)
    ensures
        final(out)@ == old(out)@ + i32_bytes(v),
{
    put_u32(out, v as u32);
}

/// Append the eight little-endian bytes of `v`.
pub fn put_u64(out: &mut Vec<u8>, v: u64)
    ensures
        final(out)@ == old(out)@ + u64_bytes(v),
{
    let ghost start = out@;
    put_u32(out, (v & 0xffff_ffff) as u32);
    put_u32(out, (v >> 32u64) as u32);
    assert(out@ =~= start + u64_bytes(v));
}

} // verus!
