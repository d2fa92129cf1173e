//! Values as the arena stores them: an opaque encoded byte range.
//!
//! The arena copies exactly `encoded_size()` bytes in and hands the same
//! bytes back out; what they mean is the business of the layer above.

use vstd::prelude::*;

verus! {

/// An encoded value.  The arena records its offset and encoded length and
/// otherwise treats the bytes as opaque.
pub struct ValueRef {
    /// The encoded value bytes.
    pub data: Vec<u8>,
}

impl ValueRef {
    /// A value over the given encoded bytes.
    pub fn new(data: Vec<u8>) -> (r: ValueRef)
        ensures
            r.data@ == data@,
    {
        ValueRef { data }
    }

    /// The number of bytes `encode` writes.
    pub fn encoded_size(&self) -> (r: usize)
        ensures
            r == self.data@.len(),
    {
        self.data.len()
    }

    /// Reconstructs a value from raw encoded bytes.
    pub fn decode(data: Vec<u8>) -> (r: ValueRef)
        ensures
            r.data@ == data@,
    {
        ValueRef { data }
    }

    /// The encoded bytes.
    pub fn as_ref(&self) -> (r: &Vec<u8>)
        ensures
            r@ == self.data@,
    {
        &self.data
    }
}

} // verus!
