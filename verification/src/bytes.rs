//! Fixed-width integer codecs over byte buffers.
//!
//! The arena stores node headers, tower links and expiry timestamps as raw
//! bytes inside its region.  These helpers write and read little-endian
//! 16/32/64-bit words and the big-endian 64-bit expiry word, with proofs
//! that reading back what was written reproduces the original value.

use vstd::prelude::*;

verus! {

/// `s` with the bytes of `d` written over `s[off .. off + d.len()]` and
/// every other byte unchanged.
pub open spec fn splice(s: Seq<u8>, off: int, d: Seq<u8>) -> Seq<u8>
    recommends
        0 <= off,
        off + d.len() <= s.len(),
{
    Seq::new(s.len(), |i: int| if off <= i < off + d.len() { d[i - off] } else { s[i] })
}

/// What was spliced in is read back exactly, and the rest is untouched.
pub proof fn lemma_splice_reads_back(s: Seq<u8>, off: int, d: Seq<u8>)
    requires
        0 <= off,
        off + d.len() <= s.len(),
    ensures
        splice(s, off, d).len() == s.len(),
        splice(s, off, d).subrange(off, off + d.len()) == d,
        forall|i: int| 0 <= i < s.len() && !(off <= i < off + d.len()) ==> splice(s, off, d)[i] == s[i],
{
    assert(splice(s, off, d).subrange(off, off + d.len()) =~= d);
}

/// The little-endian byte image of a 16-bit word.
pub open spec fn u16_le(v: u16) -> Seq<u8> {
    seq![(v % 0x100) as u8, ((v / 0x100) % 0x100) as u8]
}

/// The 16-bit word denoted by two little-endian bytes.
pub open spec fn u16_from_le(s: Seq<u8>) -> u16
    recommends
        s.len() == 2,
{
    (s[0] + s[1] * 0x100) as u16
}

/// Reading two little-endian bytes back gives the word they encode.
pub proof fn lemma_u16_le_round_trip(v: u16)
    ensures
        u16_from_le(u16_le(v)) == v,
{
    assert(v % 0x100 + (v / 0x100) % 0x100 * 0x100 == v) by (bit_vector);
}

/// Writes `v` in little-endian order at `buf[off .. off + 2]`.
pub fn write_u16_le(buf: &mut Vec<u8>, off: usize, v: u16)
    requires
        off + 2 <= old(buf).len(),
    ensures
        final(buf)@ == splice(old(buf)@, off as int, u16_le(v)),
        final(buf).len() == old(buf).len(),
        final(buf)@.subrange(off as int, off + 2) == u16_le(v),
        forall|i: int|
            0 <= i < old(buf).len() && !(off <= i < off + 2) ==> final(buf)@[i] == old(buf)@[i],
{
    buf[off] = (v % 0x100) as u8;
    buf[off + 1] = ((v / 0x100) % 0x100) as u8;
    assert(buf@ =~= splice(old(buf)@, off as int, u16_le(v)));
    assert(buf@.subrange(off as int, off + 2) =~= u16_le(v));
}

/// Reads the little-endian word at `buf[off .. off + 2]`.
pub fn read_u16_le(buf: &Vec<u8>, off: usize) -> (r: u16)
    requires
        off + 2 <= buf.len(),
    ensures
        r == u16_from_le(buf@.subrange(off as int, off + 2)),
{
    let b0 = buf[off] as u16;
    let b1 = buf[off + 1] as u16;
    b0 + b1 * 0x100
}

/// The little-endian byte image of a 32-bit word.
pub open spec fn u32_le(v: u32) -> Seq<u8> {
    seq![
        (v % 0x100) as u8,
        ((v / 0x100) % 0x100) as u8,
        ((v / 0x10000) % 0x100) as u8,
        ((v / 0x1000000) % 0x100) as u8,
    ]
}

/// The 32-bit word denoted by four little-endian bytes.
pub open spec fn u32_from_le(s: Seq<u8>) -> u32
    recommends
        s.len() == 4,
{
    (s[0] + s[1] * 0x100 + s[2] * 0x10000 + s[3] * 0x1000000) as u32
}

/// Reading four little-endian bytes back gives the word they encode.
pub proof fn lemma_u32_le_round_trip(v: u32)
    ensures
        u32_from_le(u32_le(v)) == v,
{
    assert(v % 0x100 + (v / 0x100) % 0x100 * 0x100 + (v / 0x10000) % 0x100 * 0x10000 + (v
        / 0x1000000) % 0x100 * 0x1000000 == v) by (bit_vector);
}

/// Writes `v` in little-endian order at `buf[off .. off + 4]`.
pub fn write_u32_le(buf: &mut Vec<u8>, off: usize, v: u32)
    requires
        off + 4 <= old(buf).len(),
    ensures
        final(buf)@ == splice(old(buf)@, off as int, u32_le(v)),
        final(buf).len() == old(buf).len(),
        final(buf)@.subrange(off as int, off + 4) == u32_le(v),
        forall|i: int|
            0 <= i < old(buf).len() && !(off <= i < off + 4) ==> final(buf)@[i] == old(buf)@[i],
{
    buf[off] = (v % 0x100) as u8;
    buf[off + 1] = ((v / 0x100) % 0x100) as u8;
    buf[off + 2] = ((v / 0x10000) % 0x100) as u8;
    buf[off + 3] = ((v / 0x1000000) % 0x100) as u8;
    assert(buf@ =~= splice(old(buf)@, off as int, u32_le(v)));
    assert(buf@.subrange(off as int, off + 4) =~= u32_le(v));
}

/// Reads the little-endian word at `buf[off .. off + 4]`.
pub fn read_u32_le(buf: &Vec<u8>, off: usize) -> (r: u32)
    requires
        off + 4 <= buf.len(),
    ensures
        r == u32_from_le(buf@.subrange(off as int, off + 4)),
{
    let b0 = buf[off] as u32;
    let b1 = buf[off + 1] as u32;
    let b2 = buf[off + 2] as u32;
    let b3 = buf[off + 3] as u32;
    b0 + b1 * 0x100 + b2 * 0x10000 + b3 * 0x1000000
}

/// The little-endian byte image of a 64-bit word.
pub open spec fn u64_le(v: u64) -> Seq<u8> {
    seq![
        (v % 0x100) as u8,
        ((v / 0x100) % 0x100) as u8,
        ((v / 0x10000) % 0x100) as u8,
        ((v / 0x1000000) % 0x100) as u8,
        ((v / 0x100000000) % 0x100) as u8,
        ((v / 0x10000000000) % 0x100) as u8,
        ((v / 0x1000000000000) % 0x100) as u8,
        ((v / 0x100000000000000) % 0x100) as u8,
    ]
}

/// The 64-bit word denoted by eight little-endian bytes.
pub open spec fn u64_from_le(s: Seq<u8>) -> u64
    recommends
        s.len() == 8,
{
    (s[0] + s[1] * 0x100 + s[2] * 0x10000 + s[3] * 0x1000000 + s[4] * 0x100000000 + s[5]
        * 0x10000000000 + s[6] * 0x1000000000000 + s[7] * 0x100000000000000) as u64
}

/// Reading eight little-endian bytes back gives the word they encode.
pub proof fn lemma_u64_le_round_trip(v: u64)
    ensures
        u64_from_le(u64_le(v)) == v,
{
    assert(v % 0x100 + (v / 0x100) % 0x100 * 0x100 + (v / 0x10000) % 0x100 * 0x10000 + (v
        / 0x1000000) % 0x100 * 0x1000000 + (v / 0x100000000) % 0x100 * 0x100000000 + (v
        / 0x10000000000) % 0x100 * 0x10000000000 + (v / 0x1000000000000) % 0x100 * 0x1000000000000
        + (v / 0x100000000000000) % 0x100 * 0x100000000000000 == v) by (bit_vector);
}

/// Writes `v` in little-endian order at `buf[off .. off + 8]`.
pub fn write_u64_le(buf: &mut Vec<u8>, off: usize, v: u64)
    requires
        off + 8 <= old(buf).len(),
    ensures
        final(buf)@ == splice(old(buf)@, off as int, u64_le(v)),
        final(buf).len() == old(buf).len(),
        final(buf)@.subrange(off as int, off + 8) == u64_le(v),
        forall|i: int|
            0 <= i < old(buf).len() && !(off <= i < off + 8) ==> final(buf)@[i] == old(buf)@[i],
{
    buf[off] = (v % 0x100) as u8;
    buf[off + 1] = ((v / 0x100) % 0x100) as u8;
    buf[off + 2] = ((v / 0x10000) % 0x100) as u8;
    buf[off + 3] = ((v / 0x1000000) % 0x100) as u8;
    buf[off + 4] = ((v / 0x100000000) % 0x100) as u8;
    buf[off + 5] = ((v / 0x10000000000) % 0x100) as u8;
    buf[off + 6] = ((v / 0x1000000000000) % 0x100) as u8;
    buf[off + 7] = ((v / 0x100000000000000) % 0x100) as u8;
    assert(buf@ =~= splice(old(buf)@, off as int, u64_le(v)));
    assert(buf@.subrange(off as int, off + 8) =~= u64_le(v));
}

/// Reads the little-endian word at `buf[off .. off + 8]`.
pub fn read_u64_le(buf: &Vec<u8>, off: usize) -> (r: u64)
    requires
        off + 8 <= buf.len(),
    ensures
        r == u64_from_le(buf@.subrange(off as int, off + 8)),
{
    let b0 = buf[off] as u64;
    let b1 = buf[off + 1] as u64;
    let b2 = buf[off + 2] as u64;
    let b3 = buf[off + 3] as u64;
    let b4 = buf[off + 4] as u64;
    let b5 = buf[off + 5] as u64;
    let b6 = buf[off + 6] as u64;
    let b7 = buf[off + 7] as u64;
    b0 + b1 * 0x100 + b2 * 0x10000 + b3 * 0x1000000 + b4 * 0x100000000 + b5 * 0x10000000000 + b6
        * 0x1000000000000 + b7 * 0x100000000000000
}

/// The big-endian byte image of a 64-bit word (most significant byte first),
/// the order in which expiry timestamps are stored.
pub open spec fn u64_be(v: u64) -> Seq<u8> {
    seq![
        ((v / 0x100000000000000) % 0x100) as u8,
        ((v / 0x1000000000000) % 0x100) as u8,
        ((v / 0x10000000000) % 0x100) as u8,
        ((v / 0x100000000) % 0x100) as u8,
        ((v / 0x1000000) % 0x100) as u8,
        ((v / 0x10000) % 0x100) as u8,
        ((v / 0x100) % 0x100) as u8,
        (v % 0x100) as u8,
    ]
}

/// The 64-bit word denoted by eight big-endian bytes.
pub open spec fn u64_from_be(s: Seq<u8>) -> u64
    recommends
        s.len() == 8,
{
    (s[0] * 0x100000000000000 + s[1] * 0x1000000000000 + s[2] * 0x10000000000 + s[3] * 0x100000000
        + s[4] * 0x1000000 + s[5] * 0x10000 + s[6] * 0x100 + s[7]) as u64
}

/// Reading eight big-endian bytes back gives the word they encode.
pub proof fn lemma_u64_be_round_trip(v: u64)
    ensures
        u64_from_be(u64_be(v)) == v,
{
    assert((v / 0x100000000000000) % 0x100 * 0x100000000000000 + (v / 0x1000000000000) % 0x100
        * 0x1000000000000 + (v / 0x10000000000) % 0x100 * 0x10000000000 + (v / 0x100000000) % 0x100
        * 0x100000000 + (v / 0x1000000) % 0x100 * 0x1000000 + (v / 0x10000) % 0x100 * 0x10000 + (v
        / 0x100) % 0x100 * 0x100 + v % 0x100 == v) by (bit_vector);
}

/// Writes `v` in big-endian order at `buf[off .. off + 8]`.
pub fn write_u64_be(buf: &mut Vec<u8>, off: usize, v: u64)
    requires
        off + 8 <= old(buf).len(),
    ensures
        final(buf)@ == splice(old(buf)@, off as int, u64_be(v)),
        final(buf).len() == old(buf).len(),
        final(buf)@.subrange(off as int, off + 8) == u64_be(v),
        forall|i: int|
            0 <= i < old(buf).len() && !(off <= i < off + 8) ==> final(buf)@[i] == old(buf)@[i],
{
    buf[off] = ((v / 0x100000000000000) % 0x100) as u8;
    buf[off + 1] = ((v / 0x1000000000000) % 0x100) as u8;
    buf[off + 2] = ((v / 0x10000000000) % 0x100) as u8;
    buf[off + 3] = ((v / 0x100000000) % 0x100) as u8;
    buf[off + 4] = ((v / 0x1000000) % 0x100) as u8;
    buf[off + 5] = ((v / 0x10000) % 0x100) as u8;
    buf[off + 6] = ((v / 0x100) % 0x100) as u8;
    buf[off + 7] = (v % 0x100) as u8;
    assert(buf@ =~= splice(old(buf)@, off as int, u64_be(v)));
    assert(buf@.subrange(off as int, off + 8) =~= u64_be(v));
}

/// Reads the big-endian word at `buf[off .. off + 8]`.
pub fn read_u64_be(buf: &Vec<u8>, off: usize) -> (r: u64)
    requires
        off + 8 <= buf.len(),
    ensures
        r == u64_from_be(buf@.subrange(off as int, off + 8)),
{
    let b0 = buf[off] as u64;
    let b1 = buf[off + 1] as u64;
    let b2 = buf[off + 2] as u64;
    let b3 = buf[off + 3] as u64;
    let b4 = buf[off + 4] as u64;
    let b5 = buf[off + 5] as u64;
    let b6 = buf[off + 6] as u64;
    let b7 = buf[off + 7] as u64;
    b0 * 0x100000000000000 + b1 * 0x1000000000000 + b2 * 0x10000000000 + b3 * 0x100000000 + b4
        * 0x1000000 + b5 * 0x10000 + b6 * 0x100 + b7
}

} // verus!
