//! The node layout the arena allocates for, and the packed value word.
//!
//! A node is stored inside the arena as a 16-byte header followed by its
//! tower: one 32-bit link word per skip-list level, of which only `height`
//! entries are meaningful.  The header holds the key's offset and size, the
//! node's height, the timestamped flag, and one 64-bit word that packs the
//! value's offset and encoded length so an in-place value replacement is a
//! single store.

use vstd::prelude::*;

use crate::bytes::{
    splice, u16_from_le, u16_le, u32_from_le, u32_le, u64_from_le, u64_le,
};

verus! {

/// The largest number of skip-list levels a node can have.
pub const MAX_HEIGHT: usize = 20;

/// The byte size of one tower link word (a 32-bit offset).
pub const OFFSET_SIZE: usize = 4;

/// The byte size of the node header; the tower starts at this offset from
/// the node's own offset.
pub const TOWER_OFFSET: usize = 16;

/// The byte size of a node with a full-height tower.
pub const MAX_NODE_SIZE: usize = TOWER_OFFSET + MAX_HEIGHT * OFFSET_SIZE;

/// The alignment mask for node offsets: nodes are placed on 8-byte
/// boundaries (the alignment of the 64-bit value word), and this is
/// that alignment minus one.
pub const NODE_ALIGN: usize = 7;

/// A decoded node header.  Inside the arena the header lives as raw bytes;
/// this is the typed view a reader gets back.
pub struct Node {
    /// Arena offset of the key bytes.
    pub key_offset: u32,
    /// Number of key bytes (the expiry suffix, if any, is not counted).
    pub key_size: u16,
    /// Number of valid tower levels, `1 ..= MAX_HEIGHT`.
    pub height: u8,
    /// 1 when the key bytes are followed by an 8-byte big-endian expiry.
    pub timestamped: u8,
    /// The packed value offset and encoded value length.
    pub val: u64,
}

/// The value word packing an offset into the low 32 bits and the encoded
/// length into the high 32 bits.
pub open spec fn encoded_value(offset: u32, size: u32) -> u64 {
    ((size as u64) << 32) | (offset as u64)
}

/// The value offset held in a packed value word.
pub open spec fn value_offset(v: u64) -> u32 {
    (v & 0xFFFF_FFFF) as u32
}

/// The encoded value length held in a packed value word.
pub open spec fn value_size(v: u64) -> u32 {
    (v >> 32) as u32
}

/// Unpacking a packed value word gives back the offset and length that went
/// in, for every offset and length.
pub proof fn lemma_value_word_round_trip(offset: u32, size: u32)
    ensures
        value_offset(encoded_value(offset, size)) == offset,
        value_size(encoded_value(offset, size)) == size,
{
    assert(((((size as u64) << 32) | (offset as u64)) & 0xFFFF_FFFF) as u32 == offset)
        by (bit_vector);
    assert(((((size as u64) << 32) | (offset as u64)) >> 32) as u32 == size) by (bit_vector);
}

impl Node {
    /// Packs a value offset and its encoded byte length into one 64-bit word.
    pub fn encode_value(offset: u32, size: u32) -> (r: u64)
        ensures
            r == encoded_value(offset, size),
            value_offset(r) == offset,
            value_size(r) == size,
    {
        proof {
            lemma_value_word_round_trip(offset, size);
        }
        ((size as u64) << 32) | (offset as u64)
    }

    /// Unpacks a 64-bit value word into the value offset and encoded length.
    pub fn decode_value(v: u64) -> (r: (u32, u32))
        ensures
            r.0 == value_offset(v),
            r.1 == value_size(v),
    {
        (
            #[verifier::truncate]
            ((v & 0xFFFF_FFFF) as u32),
            (v >> 32) as u32,
        )
    }
}

/// The byte image of a node header as it lies in the arena: key offset,
/// key size, height, timestamped flag, then the packed value word.
pub open spec fn header_bytes(node: Node) -> Seq<u8> {
    u32_le(node.key_offset) + u16_le(node.key_size) + seq![node.height] + seq![node.timestamped]
        + u64_le(node.val)
}

/// The node header denoted by the 16 bytes at `off` in `region`.
pub open spec fn header_at(region: Seq<u8>, off: int) -> Node
    recommends
        0 <= off,
        off + TOWER_OFFSET <= region.len(),
{
    Node {
        key_offset: u32_from_le(region.subrange(off, off + 4)),
        key_size: u16_from_le(region.subrange(off + 4, off + 6)),
        height: region[off + 6],
        timestamped: region[off + 7],
        val: u64_from_le(region.subrange(off + 8, off + 16)),
    }
}

/// Decoding a header image written into a region gives back the node that
/// was encoded, whatever lay there before.
pub proof fn lemma_header_round_trip(region: Seq<u8>, off: int, node: Node)
    requires
        0 <= off,
        off + TOWER_OFFSET <= region.len(),
    ensures
        header_at(splice(region, off, header_bytes(node)), off) == node,
{
    let stored = splice(region, off, header_bytes(node));
    assert(stored.subrange(off, off + 4) =~= u32_le(node.key_offset));
    assert(stored.subrange(off + 4, off + 6) =~= u16_le(node.key_size));
    assert(stored.subrange(off + 8, off + 16) =~= u64_le(node.val));
    crate::bytes::lemma_u32_le_round_trip(node.key_offset);
    crate::bytes::lemma_u16_le_round_trip(node.key_size);
    crate::bytes::lemma_u64_le_round_trip(node.val);
}

} // verus!
