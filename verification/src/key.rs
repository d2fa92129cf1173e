//! Keys as the arena stores them: raw bytes with an optional expiry.
//!
//! A key whose expiry is 0 carries no timestamp suffix; any other expiry is
//! appended to the key bytes as an 8-byte big-endian word.

use vstd::prelude::*;

verus! {

/// The byte size of the big-endian expiry suffix.
pub const TIMESTAMP_SIZE: usize = 8;

/// A key together with its expiry.  Expiry 0 means the key never expires.
pub struct KeyRef {
    /// The raw key bytes.
    pub data: Vec<u8>,
    /// Absolute expiry time; 0 disables the timestamp suffix.
    pub expires_at: u64,
}

impl KeyRef {
    /// A key made of `data` that expires at `expires_at` (0: never).
    pub fn new(data: Vec<u8>, expires_at: u64) -> (r: KeyRef)
        ensures
            r.data@ == data@,
            r.expires_at == expires_at,
    {
        KeyRef { data, expires_at }
    }

    /// The key's expiry; 0 means it never expires.
    pub fn ttl(&self) -> (r: u64)
        ensures
            r == self.expires_at,
    {
        self.expires_at
    }

    /// The number of raw key bytes, not counting any expiry suffix.
    pub fn len(&self) -> (r: usize)
        ensures
            r == self.data@.len(),
    {
        self.data.len()
    }

    /// The raw key bytes.
    pub fn as_ref(&self) -> (r: &Vec<u8>)
        ensures
            r@ == self.data@,
    {
        &self.data
    }
}

} // verus!
