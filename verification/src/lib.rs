//! A lock-free-style, offset-addressed memory arena for a concurrent skip
//! list, modelled over a plain byte region.
//!
//! The arena pre-reserves one contiguous byte region and hands out
//! monotonically increasing 32-bit byte offsets into it.  Nodes, keys and
//! values are packed into the region; links between nodes are offsets, not
//! addresses, and offset 0 is permanently reserved as the nil sentinel.

pub mod arena;
pub mod bytes;
pub mod key;
pub mod node;
pub mod value;

use vstd::prelude::*;

verus! {

} // verus!
