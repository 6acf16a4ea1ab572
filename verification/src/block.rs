//! The identifiers and records that the store keeps: block hashes, block
//! payloads and per-block ancestry metadata.

use vstd::prelude::*;

verus! {

/// A fixed-size, content-derived identifier naming one block.
///
/// The value `0` is reserved: it never names a stored block and stands as
/// the parent identifier of a root block (a block of depth zero).
#[derive(Clone, Copy, Debug, PartialEq, Eq, Structural, Hash)]
pub struct HeaderHash {
    pub value: u64,
}

impl HeaderHash {
    /// Builds a hash from its raw value.
    pub fn new(value: u64) -> (h: HeaderHash)
        ensures
            h.value == value,
    {
        HeaderHash { value }
    }

    /// The reserved identifier that names no block; a block whose parent
    /// is this value is a root of the chain.
    pub fn zero() -> (h: HeaderHash)
        ensures
            h.value == 0,
    {
        HeaderHash { value: 0 }
    }

    /// True of the reserved identifier.
    pub fn is_zero(&self) -> (r: bool)
        ensures
            r == (self.value == 0),
    {
        self.value == 0
    }
}

/// The full payload persisted for one `HeaderHash`: its own identifier,
/// its parent's identifier, and the block's contents.
#[derive(Clone, Copy, Debug, PartialEq, Eq, Structural)]
pub struct Block {
    /// The block's own identifier (its content hash).
    pub id: HeaderHash,
    /// The identifier of the parent block; `HeaderHash::zero()` for a root.
    pub parent_id: HeaderHash,
    /// The block's body, abstracted to one word of data.
    pub contents: u64,
}

/// Ancestry metadata for one block: its hash, its parent's hash, and its
/// depth (number of parent steps from the root, the root having depth 0).
#[derive(Clone, Copy, Debug, PartialEq, Eq, Structural)]
pub struct BlockInfo {
    /// The block's identifier.
    pub id: HeaderHash,
    /// The identifier of the parent block; `HeaderHash::zero()` for a root.
    pub parent_id: HeaderHash,
    /// Distance in parent steps from the chain root to this block.
    pub depth: u64,
}

impl BlockInfo {
    /// The identifier of this block's parent.
    pub fn parent_id(&self) -> (p: HeaderHash)
        ensures
            p == self.parent_id,
    {
        self.parent_id
    }
}

} // verus!
