//! The arena: a fixed-capacity byte region handing out monotonically
//! increasing 32-bit offsets, plus the shared-region bookkeeping that lets
//! many handles agree on a single free point.
//!
//! Offset 0 is permanently reserved as the nil sentinel: the bump cursor
//! starts at 1, so no allocation ever returns 0, and translating offset 0
//! back to a node always yields "absent".

use vstd::prelude::*;

use crate::bytes::{
    lemma_splice_reads_back, lemma_u64_be_round_trip, read_u16_le, read_u32_le, read_u64_be,
    read_u64_le, splice, u32_from_le, u32_le, u64_be, u64_from_be, write_u16_le, write_u32_le,
    write_u64_be, write_u64_le,
};
use crate::key::{KeyRef, TIMESTAMP_SIZE};
use crate::node::{
    header_at, header_bytes, lemma_header_round_trip, value_offset, value_size, Node, MAX_HEIGHT,
    MAX_NODE_SIZE, NODE_ALIGN, OFFSET_SIZE, TOWER_OFFSET,
};
use crate::value::ValueRef;

verus! {

/// The largest byte capacity a region may have: every byte must be
/// addressable by a 32-bit offset.
pub const MAX_CAPACITY: usize = 0xFFFF_FFFF;

/// A fixed-capacity, zero-initialized byte region.  Capacity is fixed at
/// construction and never changes; the region is released exactly once,
/// when the value is dropped.
pub struct AlignedVec {
    data: Vec<u8>,
}

impl View for AlignedVec {
    type V = Seq<u8>;

    closed spec fn view(&self) -> Seq<u8> {
        self.data@
    }
}

impl AlignedVec {
    /// A zero-initialized region of exactly `capacity` bytes.
    pub fn new(capacity: usize) -> (r: AlignedVec)
        requires
            capacity <= MAX_CAPACITY,
        ensures
            r@.len() == capacity,
            forall|i: int| 0 <= i < capacity ==> r@[i] == 0u8,
    {
        let mut data: Vec<u8> = Vec::new();
        let mut i: usize = 0;
        while i < capacity
            invariant
                i <= capacity,
                data@.len() == i,
                forall|j: int| 0 <= j < i ==> data@[j] == 0u8,
            decreases capacity - i,
        {
            data.push(0u8);
            i = i + 1;
        }
        AlignedVec { data }
    }

    /// Mutable access to the region's bytes.
    pub fn as_mut_ptr(&mut self) -> (r: &mut Vec<u8>)
        ensures
            r@ == old(self)@,
            final(self)@ == final(r)@,
    {
        &mut self.data
    }

    /// Read-only access to the region's bytes.
    pub fn as_slice(&self) -> (r: &Vec<u8>)
        ensures
            r@ == self@,
    {
        &self.data
    }

    /// The region's fixed capacity in bytes.
    pub fn cap(&self) -> (r: usize)
        ensures
            r == self@.len(),
    {
        self.data.len()
    }
}

/// One raw region together with the atomic-style bump cursor and the count
/// of live handles sharing it: the unit of shared ownership.
pub struct Shared {
    n: u32,
    vec: AlignedVec,
    refs: usize,
}

impl Shared {
    /// The region's bytes.
    pub closed spec fn bytes(&self) -> Seq<u8> {
        self.vec@
    }

    /// The next free offset.  It only ever increases.
    pub closed spec fn cursor(&self) -> int {
        self.n as int
    }

    /// How many live handles reference this region.
    pub closed spec fn refs_count(&self) -> int {
        self.refs as int
    }

    /// The region's standing invariant: the cursor was initialized to 1
    /// (offset 0 is reserved as nil) and never passes the capacity, and the
    /// whole region is addressable by 32-bit offsets.
    pub open spec fn wf(&self) -> bool {
        &&& 1 <= self.cursor() <= self.bytes().len()
        &&& self.bytes().len() <= MAX_CAPACITY
    }

    /// A fresh region of `cap` zero bytes, with the cursor at 1 and one
    /// live reference.
    pub fn new(cap: usize) -> (r: Shared)
        requires
            1 <= cap <= MAX_CAPACITY,
        ensures
            r.wf(),
            r.cursor() == 1,
            r.refs_count() == 1,
            r.bytes().len() == cap,
            forall|i: int| 0 <= i < cap ==> r.bytes()[i] == 0u8,
    {
        let vec = AlignedVec::new(cap);
        Shared { vec, refs: 1, n: 1 }
    }

    /// Registers one more live handle.  Incrementing past half the counter's
    /// range would mean a reference leak, which the caller must rule out.
    pub fn acquire(&mut self)
        requires
            old(self).refs_count() <= usize::MAX / 2,
        ensures
            final(self).refs_count() == old(self).refs_count() + 1,
            final(self).bytes() == old(self).bytes(),
            final(self).cursor() == old(self).cursor(),
    {
        self.refs = self.refs + 1;
    }

    /// Unregisters one live handle.  Returns true exactly when this was the
    /// last one, i.e. when the caller must now release the region — so the
    /// region is freed exactly once, and never while a handle remains.
    pub fn release(&mut self) -> (freed: bool)
        requires
            old(self).refs_count() >= 1,
        ensures
            freed == (old(self).refs_count() == 1),
            final(self).refs_count() == old(self).refs_count() - 1,
            final(self).bytes() == old(self).bytes(),
            final(self).cursor() == old(self).cursor(),
    {
        let freed = self.refs == 1;
        self.refs = self.refs - 1;
        freed
    }
}

/// The reference count after a region born with one reference was acquired
/// `c` more times and then released `d` times.
pub open spec fn refs_after(c: nat, d: nat) -> int {
    1 + c - d
}

/// Refcount correctness: acquire a fresh region's counter `c` times (one
/// handle per clone, plus the original) and release all `c + 1` handles, and
/// the region is freed exactly once — by the last release and no earlier —
/// while every earlier state still holds at least one live reference.
pub proof fn lemma_refcount_frees_once(c: nat, d: nat)
    requires
        1 <= d <= c + 1,
    ensures
        (refs_after(c, (d - 1) as nat) == 1) <==> (d == c + 1),
        d < c + 1 ==> refs_after(c, d) >= 1,
        refs_after(c, (c + 1) as nat) == 0,
{
}

/// The arena handle: the facade over one shared region.  It caches the
/// region's capacity for fast bounds checks; every offset it hands out was
/// produced by `allocate` and lies inside the region.
pub struct Arena {
    inner: Shared,
    cap: usize,
}

impl Arena {
    /// The region's bytes.
    pub closed spec fn bytes(&self) -> Seq<u8> {
        self.inner.bytes()
    }

    /// The next free offset.
    pub closed spec fn cursor(&self) -> int {
        self.inner.cursor()
    }

    /// The cached capacity.
    pub closed spec fn spec_cap(&self) -> int {
        self.cap as int
    }

    /// How many live handles reference the shared region.
    pub closed spec fn refs_count(&self) -> int {
        self.inner.refs_count()
    }

    /// The handle's standing invariant: the shared region is well formed and
    /// the cached capacity agrees with it (see `lemma_wf_bounds`).
    pub closed spec fn wf(&self) -> bool {
        &&& self.inner.wf()
        &&& self.spec_cap() == self.bytes().len()
    }

    /// What well-formedness gives a caller: the cursor sits between 1 and
    /// the capacity, and the cached capacity is the region's byte length.
    pub proof fn lemma_wf_bounds(&self)
        requires
            self.wf(),
        ensures
            1 <= self.cursor() <= self.spec_cap(),
            self.spec_cap() == self.bytes().len(),
            self.spec_cap() <= MAX_CAPACITY,
    {
    }

    /// Whether a reservation of `sz` bytes still fits: allocating past the
    /// capacity is the fatal exhaustion condition, which callers must rule
    /// out by sizing the arena to the workload.
    pub open spec fn has_room(&self, sz: int) -> bool {
        self.cursor() + sz <= self.spec_cap()
    }

    /// A fresh arena over a zeroed region of `n` bytes — but never smaller
    /// than one maximum-sized node, so the first allocation always succeeds.
    pub fn new(n: usize) -> (r: Arena)
        requires
            n <= MAX_CAPACITY,
        ensures
            r.wf(),
            r.spec_cap() == if n > MAX_NODE_SIZE { n as int } else { MAX_NODE_SIZE as int },
            r.cursor() == 1,
            r.refs_count() == 1,
            forall|i: int| 0 <= i < r.spec_cap() ==> r.bytes()[i] == 0u8,
    {
        let cap = if n > MAX_NODE_SIZE {
            n
        } else {
            MAX_NODE_SIZE
        };
        let inner = Shared::new(cap);
        Arena { cap, inner }
    }

    /// The arena's fixed capacity in bytes.
    pub fn cap(&self) -> (r: usize)
        ensures
            r == self.spec_cap(),
    {
        self.cap
    }

    /// Reserves `[r, r + sz)`: atomically advances the free-offset cursor by
    /// `sz` and returns the offset before the advance.  The cursor starts at
    /// 1 and only grows, so no reservation ever includes offset 0 and no two
    /// reservations overlap.  A reservation that would cross the capacity is
    /// the fatal exhaustion condition and is ruled out by the precondition.
    pub fn allocate(&mut self, sz: u32) -> (r: u32)
        requires
            old(self).wf(),
            old(self).has_room(sz as int),
        ensures
            final(self).wf(),
            r == old(self).cursor(),
            1 <= r,
            r + sz <= final(self).spec_cap(),
            final(self).cursor() == old(self).cursor() + sz,
            final(self).bytes() == old(self).bytes(),
            final(self).spec_cap() == old(self).spec_cap(),
            final(self).refs_count() == old(self).refs_count(),
    {
        let offset = self.inner.n;
        self.inner.n = offset + sz;
        offset
    }

    /// The tail of a full-height tower that a node of `height` levels never
    /// uses, and therefore never allocates.
    pub fn unused_size(&self, height: usize) -> (r: usize)
        requires
            height <= MAX_HEIGHT,
        ensures
            r == (MAX_HEIGHT - height) * OFFSET_SIZE,
    {
        (MAX_HEIGHT - height) * OFFSET_SIZE
    }

    /// Allocates a node-shaped region sized for exactly `height` levels:
    /// a header, `height` link words, and just enough padding to place the
    /// node on an 8-byte boundary.  Returns the aligned node offset.  The
    /// full-height layout is never allocated for a shorter node.
    pub fn put_node(&mut self, height: usize) -> (offset: u32)
        requires
            old(self).wf(),
            1 <= height <= MAX_HEIGHT,
            old(self).has_room(node_alloc_size(height as int)),
        ensures
            final(self).wf(),
            offset == align_up(old(self).cursor()),
            offset as int % 8 == 0,
            1 <= old(self).cursor() <= offset,
            offset + TOWER_OFFSET + height * OFFSET_SIZE <= final(self).cursor(),
            final(self).cursor() == old(self).cursor() + node_alloc_size(height as int),
            height < MAX_HEIGHT ==> node_alloc_size(height as int) < MAX_NODE_SIZE + NODE_ALIGN,
            final(self).bytes() == old(self).bytes(),
            final(self).spec_cap() == old(self).spec_cap(),
            final(self).refs_count() == old(self).refs_count(),
    {
        let unused = self.unused_size(height);

        // Pad the allocation with enough bytes to ensure node alignment.
        let l = (MAX_NODE_SIZE - unused + NODE_ALIGN) as u32;
        let n = self.allocate(l);

        // Return the aligned offset.
        let m = n + NODE_ALIGN as u32;
        let aligned = m & !(NODE_ALIGN as u32);
        proof {
            assert(m & !7u32 == m / 8 * 8) by (bit_vector);
            lemma_align_up(n as int);
        }
        aligned
    }

    /// Copies `src` over the bytes at `off`, leaving everything else as it
    /// was.  Writing never moves the cursor: the range was reserved before.
    fn copy_into(&mut self, off: usize, src: &Vec<u8>)
        requires
            old(self).wf(),
            off + src.len() <= old(self).spec_cap(),
        ensures
            final(self).wf(),
            final(self).bytes() == splice(old(self).bytes(), off as int, src@),
            final(self).cursor() == old(self).cursor(),
            final(self).spec_cap() == old(self).spec_cap(),
            final(self).refs_count() == old(self).refs_count(),
    {
        let len = src.len();
        let mut i: usize = 0;
        while i < len
            invariant
                i <= len,
                len == src.len(),
                off + len <= self.inner.vec.data.len(),
                self.inner.vec.data.len() == old(self).bytes().len(),
                self.cursor() == old(self).cursor(),
                self.spec_cap() == old(self).spec_cap(),
                self.refs_count() == old(self).refs_count(),
                self.wf(),
                forall|j: int| 0 <= j < i ==> self.inner.vec.data@[off + j] == src@[j],
                forall|j: int|
                    0 <= j < old(self).bytes().len() && !(off <= j < off + i)
                        ==> self.inner.vec.data@[j] == old(self).bytes()[j],
            decreases len - i,
        {
            self.inner.vec.data[off + i] = src[i];
            i = i + 1;
        }
        assert(self.bytes() =~= splice(old(self).bytes(), off as int, src@));
    }

    /// Stores a key: its raw bytes, followed — only when the expiry is not
    /// 0 — by the 8-byte big-endian expiry.  Returns the key's offset and
    /// whether the expiry suffix was written.
    pub fn put_key(&mut self, key: &KeyRef) -> (r: (u32, bool))
        requires
            old(self).wf(),
            old(self).has_room(stored_key_size(key.data@, key.expires_at)),
        ensures
            final(self).wf(),
            r.0 == old(self).cursor(),
            1 <= r.0,
            r.1 == (key.expires_at != 0),
            final(self).cursor() == old(self).cursor() + stored_key_size(
                key.data@,
                key.expires_at,
            ),
            final(self).bytes() == splice(
                old(self).bytes(),
                r.0 as int,
                stored_key_bytes(key.data@, key.expires_at),
            ),
            final(self).bytes().subrange(r.0 as int, r.0 + key.data@.len()) == key.data@,
            r.1 ==> u64_from_be(
                final(self).bytes().subrange(
                    r.0 + key.data@.len(),
                    r.0 + key.data@.len() + TIMESTAMP_SIZE,
                ),
            ) == key.expires_at,
            final(self).spec_cap() == old(self).spec_cap(),
            final(self).refs_count() == old(self).refs_count(),
    {
        let ttl = key.ttl();
        if ttl == 0 {
            let key_size = key.len();
            let offset = self.allocate(key_size as u32);
            self.copy_into(offset as usize, key.as_ref());
            proof {
                lemma_splice_reads_back(old(self).bytes(), offset as int, key.data@);
            }
            (offset, false)
        } else {
            let key_size = TIMESTAMP_SIZE + key.len();
            let offset = self.allocate(key_size as u32);
            self.copy_into(offset as usize, key.as_ref());
            write_u64_be(&mut self.inner.vec.data, offset as usize + key.len(), ttl);
            proof {
                assert(self.bytes() =~= splice(
                    old(self).bytes(),
                    offset as int,
                    stored_key_bytes(key.data@, ttl),
                ));
                lemma_splice_reads_back(
                    old(self).bytes(),
                    offset as int,
                    stored_key_bytes(key.data@, ttl),
                );
                assert(self.bytes().subrange(offset as int, offset + key.data@.len())
                    =~= key.data@);
                assert(self.bytes().subrange(
                    offset + key.data@.len(),
                    offset + key.data@.len() + TIMESTAMP_SIZE,
                ) =~= u64_be(ttl));
                lemma_u64_be_round_trip(ttl);
            }
            (offset, true)
        }
    }

    /// Stores a value: copies exactly its encoded bytes in and returns the
    /// offset they were placed at.
    pub fn put_val(&mut self, val: &ValueRef) -> (r: u32)
        requires
            old(self).wf(),
            old(self).has_room(val.data@.len() as int),
        ensures
            final(self).wf(),
            r == old(self).cursor(),
            1 <= r,
            final(self).cursor() == old(self).cursor() + val.data@.len(),
            final(self).bytes() == splice(old(self).bytes(), r as int, val.data@),
            final(self).bytes().subrange(r as int, r + val.data@.len()) == val.data@,
            final(self).spec_cap() == old(self).spec_cap(),
            final(self).refs_count() == old(self).refs_count(),
    {
        let l = val.encoded_size();
        let offset = self.allocate(l as u32);
        self.copy_into(offset as usize, val.as_ref());
        proof {
            lemma_splice_reads_back(old(self).bytes(), offset as int, val.data@);
        }
        offset
    }

    /// Writes a node header at `off`, leaving every other byte as it was.
    fn write_header(&mut self, off: usize, node: &Node)
        requires
            old(self).wf(),
            off + TOWER_OFFSET <= old(self).spec_cap(),
        ensures
            final(self).wf(),
            final(self).bytes() == splice(old(self).bytes(), off as int, header_bytes(*node)),
            final(self).cursor() == old(self).cursor(),
            final(self).spec_cap() == old(self).spec_cap(),
            final(self).refs_count() == old(self).refs_count(),
    {
        write_u32_le(&mut self.inner.vec.data, off, node.key_offset);
        write_u16_le(&mut self.inner.vec.data, off + 4, node.key_size);
        self.inner.vec.data[off + 6] = node.height;
        self.inner.vec.data[off + 7] = node.timestamped;
        write_u64_le(&mut self.inner.vec.data, off + 8, node.val);
        assert(self.bytes() =~= splice(old(self).bytes(), off as int, header_bytes(*node)));
    }

    /// Materializes a new node: allocates a node region sized for `height`,
    /// then the key, then the value, and stitches the offsets and sizes
    /// into the node's header.  Returns the node view and the offset of its
    /// tower; only the tower links remain for the caller to wire.
    #[verifier::rlimit(100)]
    pub fn new_node(&mut self, key: &KeyRef, val: &ValueRef, height: usize) -> (r: (Node, u32))
        requires
            old(self).wf(),
            1 <= height <= MAX_HEIGHT,
            key.data@.len() <= u16::MAX,
            old(self).has_room(
                node_alloc_size(height as int) + stored_key_size(key.data@, key.expires_at)
                    + val.data@.len(),
            ),
        ensures
            final(self).wf(),
            final(self).spec_cap() == old(self).spec_cap(),
            final(self).refs_count() == old(self).refs_count(),
            final(self).cursor() == old(self).cursor() + node_alloc_size(height as int)
                + stored_key_size(key.data@, key.expires_at) + val.data@.len(),
            ({
                let node_off = align_up(old(self).cursor());
                let key_off = old(self).cursor() + node_alloc_size(height as int);
                let val_off = key_off + stored_key_size(key.data@, key.expires_at);
                &&& r.1 == node_off + TOWER_OFFSET
                &&& r.0.key_offset == key_off
                &&& r.0.key_size == key.data@.len()
                &&& r.0.height == height
                &&& r.0.timestamped == (if key.expires_at != 0 {
                    1u8
                } else {
                    0u8
                })
                &&& value_offset(r.0.val) == val_off
                &&& value_size(r.0.val) == val.data@.len()
                &&& header_at(final(self).bytes(), node_off) == r.0
                &&& final(self).bytes().subrange(key_off, key_off + key.data@.len())
                    == key.data@
                &&& (key.expires_at != 0 ==> u64_from_be(
                    final(self).bytes().subrange(
                        key_off + key.data@.len(),
                        key_off + key.data@.len() + TIMESTAMP_SIZE,
                    ),
                ) == key.expires_at)
                &&& final(self).bytes().subrange(val_off, val_off + val.data@.len())
                    == val.data@
                &&& forall|i: int|
                    0 <= i < old(self).bytes().len() && !(node_off <= i < node_off + TOWER_OFFSET)
                        && !(key_off <= i < val_off + val.data@.len()) ==> final(self).bytes()[i]
                        == old(self).bytes()[i]
            }),
    {
        let node_offset = self.put_node(height);

        let key_len = key.len();
        let (key_offset, timestamped) = self.put_key(key);
        let v_encode_size = val.encoded_size() as u32;
        let val_offset_word = self.put_val(val);
        let v = Node::encode_value(val_offset_word, v_encode_size);

        let node = Node {
            key_offset,
            key_size: key_len as u16,
            height: height as u8,
            timestamped: if timestamped {
                1
            } else {
                0
            },
            val: v,
        };
        self.write_header(node_offset as usize, &node);

        proof {
            let b0 = old(self).bytes();
            let node_off = node_offset as int;
            let key_off = key_offset as int;
            let val_off = val_offset_word as int;
            let b2 = splice(b0, key_off, stored_key_bytes(key.data@, key.expires_at));
            let b3 = splice(b2, val_off, val.data@);
            assert(node_off + TOWER_OFFSET <= key_off);
            assert(key_off + stored_key_size(key.data@, key.expires_at) == val_off);
            assert(self.bytes() == splice(b3, node_off, header_bytes(node)));
            lemma_header_round_trip(b3, node_off, node);
            assert(self.bytes().subrange(key_off, key_off + key.data@.len()) =~= b2.subrange(
                key_off,
                key_off + key.data@.len(),
            ));
            if key.expires_at != 0 {
                assert(self.bytes().subrange(
                    key_off + key.data@.len(),
                    key_off + key.data@.len() + TIMESTAMP_SIZE,
                ) =~= b2.subrange(
                    key_off + key.data@.len(),
                    key_off + key.data@.len() + TIMESTAMP_SIZE,
                ));
            }
            assert(self.bytes().subrange(val_off, val_off + val.data@.len()) =~= b3.subrange(
                val_off,
                val_off + val.data@.len(),
            ));
        }
        (node, node_offset + TOWER_OFFSET as u32)
    }

    /// Reconstructs a key from its offset, size and timestamped flag: the
    /// `size` raw bytes, and — when `timestamped` — the big-endian expiry
    /// that follows them (0 otherwise).
    pub fn get_key(&self, offset: u32, size: u16, timestamped: bool) -> (r: KeyRef)
        requires
            self.wf(),
            offset + size + (if timestamped {
                TIMESTAMP_SIZE as int
            } else {
                0
            }) <= self.spec_cap(),
        ensures
            r.data@ == self.bytes().subrange(offset as int, offset + size),
            r.expires_at == (if timestamped {
                u64_from_be(self.bytes().subrange(offset + size, offset + size + TIMESTAMP_SIZE))
            } else {
                0u64
            }),
    {
        let size = size as usize;
        let off = offset as usize;
        let mut data: Vec<u8> = Vec::new();
        let mut i: usize = 0;
        while i < size
            invariant
                i <= size,
                self.wf(),
                off + size <= self.bytes().len(),
                off == offset as int,
                data@.len() == i,
                forall|j: int| 0 <= j < i ==> data@[j] == self.bytes()[off + j],
            decreases size - i,
        {
            let b = self.inner.vec.data[off + i];
            data.push(b);
            i = i + 1;
        }
        assert(data@ =~= self.bytes().subrange(offset as int, offset as int + size as int));
        let expires_at = if timestamped {
            read_u64_be(&self.inner.vec.data, off + size)
        } else {
            0
        };
        KeyRef { data, expires_at }
    }

    /// Reconstructs a value from its offset and encoded length: exactly the
    /// bytes that were copied in.
    pub fn get_val(&self, offset: u32, size: u32) -> (r: ValueRef)
        requires
            self.wf(),
            offset + size <= self.spec_cap(),
        ensures
            r.data@ == self.bytes().subrange(offset as int, offset + size),
    {
        let size = size as usize;
        let off = offset as usize;
        let mut data: Vec<u8> = Vec::new();
        let mut i: usize = 0;
        while i < size
            invariant
                i <= size,
                self.wf(),
                off + size <= self.bytes().len(),
                off == offset as int,
                data@.len() == i,
                forall|j: int| 0 <= j < i ==> data@[j] == self.bytes()[off + j],
            decreases size - i,
        {
            let b = self.inner.vec.data[off + i];
            data.push(b);
            i = i + 1;
        }
        assert(data@ =~= self.bytes().subrange(offset as int, offset as int + size as int));
        ValueRef::decode(data)
    }

    /// Translates an offset back into a node view and the offset of the
    /// node's tower.  The nil sentinel 0, and any offset whose header would
    /// not lie inside the region, yields absent — whatever the arena holds.
    pub fn get_node(&self, offset: u32) -> (r: Option<(Node, u32)>)
        requires
            self.wf(),
        ensures
            offset == 0 ==> r is None,
            (offset == 0 || offset + TOWER_OFFSET > self.spec_cap()) <==> r is None,
            (1 <= offset && offset + TOWER_OFFSET <= self.spec_cap()) ==> r == Some(
                (
                    header_at(self.bytes(), offset as int),
                    (offset + TOWER_OFFSET as u32) as u32,
                ),
            ),
    {
        let off = offset as usize;
        if offset == 0 || off > self.cap || self.cap - off < TOWER_OFFSET {
            return None;
        }
        let buf = &self.inner.vec.data;
        let key_offset = read_u32_le(buf, off);
        let key_size = read_u16_le(buf, off + 4);
        let height = buf[off + 6];
        let timestamped = buf[off + 7];
        let val = read_u64_le(buf, off + 8);
        let node = Node { key_offset, key_size, height, timestamped, val };
        Some((node, offset + TOWER_OFFSET as u32))
    }

    /// The inverse translation, from a live node reference back to the
    /// offset it is stored at; an absent node maps to the nil sentinel 0.
    pub fn get_node_offset(&self, node: Option<u32>) -> (r: u32)
        ensures
            r == (match node {
                Option::None => 0u32,
                Option::Some(o) => o,
            }),
    {
        match node {
            Option::None => 0,
            Option::Some(o) => o,
        }
    }

    /// Reads the tower link word of level `height` for the tower that
    /// starts at `offset`.
    pub fn tower(&self, offset: usize, height: usize) -> (r: u32)
        requires
            self.wf(),
            offset + height * OFFSET_SIZE + OFFSET_SIZE <= self.spec_cap(),
        ensures
            r == u32_from_le(
                self.bytes().subrange(
                    offset + height * OFFSET_SIZE,
                    offset + height * OFFSET_SIZE + OFFSET_SIZE,
                ),
            ),
    {
        read_u32_le(&self.inner.vec.data, offset + height * OFFSET_SIZE)
    }

    /// Stores a tower link word: the one mutable cross-node link the arena
    /// offers the skip-list layer.
    pub fn tower_store(&mut self, offset: usize, height: usize, link: u32)
        requires
            old(self).wf(),
            offset + height * OFFSET_SIZE + OFFSET_SIZE <= old(self).spec_cap(),
        ensures
            final(self).wf(),
            final(self).bytes() == splice(
                old(self).bytes(),
                offset + height * OFFSET_SIZE,
                u32_le(link),
            ),
            final(self).cursor() == old(self).cursor(),
            final(self).spec_cap() == old(self).spec_cap(),
            final(self).refs_count() == old(self).refs_count(),
    {
        write_u32_le(&mut self.inner.vec.data, offset + height * OFFSET_SIZE, link);
        assert(self.bytes() =~= splice(
            old(self).bytes(),
            offset + height * OFFSET_SIZE,
            u32_le(link),
        ));
    }

    /// Compare-and-swap on a tower link word: replaces it with `link` and
    /// reports the old word when that word was `current`; otherwise leaves
    /// the region untouched and reports the word actually found.
    pub fn tower_cas(&mut self, offset: usize, height: usize, current: u32, link: u32) -> (r:
        Result<u32, u32>)
        requires
            old(self).wf(),
            offset + height * OFFSET_SIZE + OFFSET_SIZE <= old(self).spec_cap(),
        ensures
            final(self).wf(),
            ({
                let found = u32_from_le(
                    old(self).bytes().subrange(
                        offset + height * OFFSET_SIZE,
                        offset + height * OFFSET_SIZE + OFFSET_SIZE,
                    ),
                );
                if found == current {
                    &&& r == Ok::<u32, u32>(found)
                    &&& final(self).bytes() == splice(
                        old(self).bytes(),
                        offset + height * OFFSET_SIZE,
                        u32_le(link),
                    )
                } else {
                    &&& r == Err::<u32, u32>(found)
                    &&& final(self).bytes() == old(self).bytes()
                }
            }),
            final(self).cursor() == old(self).cursor(),
            final(self).spec_cap() == old(self).spec_cap(),
            final(self).refs_count() == old(self).refs_count(),
    {
        let found = self.tower(offset, height);
        if found == current {
            self.tower_store(offset, height, link);
            Ok(found)
        } else {
            Err(found)
        }
    }
}

/// The bytes a stored key occupies: the raw key bytes, plus the 8-byte
/// expiry suffix when the expiry is not 0.
pub open spec fn stored_key_size(data: Seq<u8>, ttl: u64) -> int {
    data.len() + if ttl == 0 {
        0
    } else {
        TIMESTAMP_SIZE as int
    }
}

/// The byte image of a stored key: the raw bytes, then — only for a
/// non-zero expiry — the expiry in big-endian order.
pub open spec fn stored_key_bytes(data: Seq<u8>, ttl: u64) -> Seq<u8> {
    if ttl == 0 {
        data
    } else {
        data + u64_be(ttl)
    }
}

/// The bytes a node of `height` levels takes from the arena: the header,
/// `height` link words, and the alignment padding.
pub open spec fn node_alloc_size(height: int) -> int {
    TOWER_OFFSET + height * OFFSET_SIZE + NODE_ALIGN
}

/// `n` rounded up to the next 8-byte boundary: where within its reserved
/// range a node is actually placed.
pub open spec fn align_up(n: int) -> int {
    (n + NODE_ALIGN) / 8 * 8
}

/// Rounding up to an 8-byte boundary moves an offset forward by at most 7
/// bytes and lands on a multiple of 8.
pub proof fn lemma_align_up(n: int)
    requires
        0 <= n,
    ensures
        n <= align_up(n) <= n + NODE_ALIGN,
        align_up(n) % 8 == 0,
{
    let m = n + 7;
    vstd::arithmetic::div_mod::lemma_fundamental_div_mod(m, 8);
    vstd::arithmetic::div_mod::lemma_mod_bound(m, 8);
    vstd::arithmetic::div_mod::lemma_mod_multiples_basic(m / 8, 8);
}

/// The total of a sequence of allocation sizes.
pub open spec fn sizes_total(sizes: Seq<u32>) -> int
    decreases sizes.len(),
{
    if sizes.len() == 0 {
        0
    } else {
        sizes_total(sizes.drop_last()) + sizes.last()
    }
}

/// The offset the `i`-th allocation of a fresh arena returns: the cursor
/// starts at 1 and each earlier allocation advanced it by its size.
pub open spec fn alloc_offset(sizes: Seq<u32>, i: int) -> int {
    1 + sizes_total(sizes.take(i))
}

proof fn lemma_sizes_total_step(sizes: Seq<u32>, i: int)
    requires
        0 <= i < sizes.len(),
    ensures
        sizes_total(sizes.take(i + 1)) == sizes_total(sizes.take(i)) + sizes[i],
{
    assert(sizes.take(i + 1).drop_last() =~= sizes.take(i));
    assert(sizes.take(i + 1).last() == sizes[i]);
}

proof fn lemma_alloc_offset_monotone(sizes: Seq<u32>, i: int, j: int)
    requires
        0 <= i <= j <= sizes.len(),
    ensures
        alloc_offset(sizes, i) <= alloc_offset(sizes, j),
    decreases j - i,
{
    if i < j {
        lemma_alloc_offset_monotone(sizes, i, j - 1);
        lemma_sizes_total_step(sizes, j - 1);
    }
}

/// Single writer per byte: for any sequence of allocations with sizes
/// `sizes` made on a fresh arena, the returned ranges
/// `[alloc_offset(k), alloc_offset(k) + sizes[k])` start at offset 1, are
/// collectively contiguous, and are pairwise disjoint — no byte is ever
/// handed to two reservations.
pub proof fn lemma_allocations_disjoint(sizes: Seq<u32>, i: int, j: int)
    requires
        0 <= i < sizes.len(),
        0 <= j < sizes.len(),
        i < j,
    ensures
        alloc_offset(sizes, 0) == 1,
        alloc_offset(sizes, i) + sizes[i] == alloc_offset(sizes, i + 1),
        alloc_offset(sizes, i) + sizes[i] <= alloc_offset(sizes, j),
{
    assert(sizes.take(0) =~= Seq::<u32>::empty());
    lemma_sizes_total_step(sizes, i);
    lemma_alloc_offset_monotone(sizes, i + 1, j);
}

/// Round-trip key: for any key bytes and any expiry, storing the key the
/// way `put_key` does and reading the stored range back the way `get_key`
/// does reproduces exactly the key bytes, and the expiry for a timestamped
/// key.  (An expiry of 0 stores no suffix, and reading with the returned
/// flag `false` reproduces expiry 0.)
pub proof fn lemma_key_round_trip(region: Seq<u8>, off: int, data: Seq<u8>, ttl: u64)
    requires
        0 <= off,
        off + stored_key_size(data, ttl) <= region.len(),
    ensures
        ({
            let stored = splice(region, off, stored_key_bytes(data, ttl));
            &&& stored.subrange(off, off + data.len()) == data
            &&& (ttl != 0 ==> u64_from_be(
                stored.subrange(off + data.len(), off + data.len() + TIMESTAMP_SIZE),
            ) == ttl)
        }),
{
    let stored = splice(region, off, stored_key_bytes(data, ttl));
    assert(stored.subrange(off, off + data.len()) =~= data);
    if ttl != 0 {
        assert(stored.subrange(off + data.len(), off + data.len() + TIMESTAMP_SIZE) =~= u64_be(
            ttl,
        ));
        lemma_u64_be_round_trip(ttl);
    }
}

/// Round-trip value: for any encoded value bytes, storing them the way
/// `put_val` does and reading the stored range back the way `get_val` does
/// reproduces an equal value.
pub proof fn lemma_val_round_trip(region: Seq<u8>, off: int, data: Seq<u8>)
    requires
        0 <= off,
        off + data.len() <= region.len(),
    ensures
        splice(region, off, data).subrange(off, off + data.len()) == data,
{
    assert(splice(region, off, data).subrange(off, off + data.len()) =~= data);
}

/// Exhaustion fatality, located exactly: on a fresh arena of capacity `cap`,
/// allocation `k` meets `allocate`'s precondition precisely when the sizes
/// up to and including it still fit below `cap`, and once one allocation
/// crosses the capacity every later one is refused as well — so the fatal
/// path triggers exactly at the allocation whose cumulative size first
/// crosses the capacity.
pub proof fn lemma_exhaustion_at_crossing(sizes: Seq<u32>, cap: int, k: int)
    requires
        0 <= k < sizes.len(),
    ensures
        (alloc_offset(sizes, k) + sizes[k] <= cap) <==> (1 + sizes_total(sizes.take(k + 1))
            <= cap),
        (alloc_offset(sizes, k) + sizes[k] > cap) ==> forall|j: int|
            k <= j < sizes.len() ==> alloc_offset(sizes, j) + sizes[j] > cap,
{
    lemma_sizes_total_step(sizes, k);
    assert forall|j: int|
        k <= j < sizes.len() && alloc_offset(sizes, k) + sizes[k] > cap implies alloc_offset(
        sizes,
        j,
    ) + sizes[j] > cap by {
        lemma_alloc_offset_monotone(sizes, k + 1, j + 1);
        lemma_sizes_total_step(sizes, j);
    }
}

} // verus!
