//! The storage facade: one logical operation per call against the
//! shared store, with the per-operation error policy of the access
//! layer.  Reads recover the store's not-found condition as an absent
//! value; an insert that reports it escalates to an invariant
//! violation; every other store fault is propagated verbatim.

use vstd::prelude::*;

use crate::block::Block;
use crate::block::BlockInfo;
use crate::block::HeaderHash;
use crate::store::NodeStorage;
use crate::store::StoreError;
use crate::stream::BlockStream;

verus! {

/// Errors an operation of the facade reports to its callers.
#[derive(Clone, Copy, Debug, PartialEq, Eq, Structural)]
pub enum StorageError {
    /// A store fault propagated verbatim; never raised for a mere
    /// absence on a read path.
    StoreFault(StoreError),
    /// A write path hit a condition that should be structurally
    /// impossible — a bug of the caller or of the store, not a
    /// transient failure.
    InvariantViolation,
}

/// A handle on the store through which every operation is serialized.
/// Exclusive access per operation is what `&self` / `&mut self` grant;
/// an embedding that shares the handle wraps it in a lock and holds the
/// lock for the duration of one call.
pub struct Storage {
    /// The underlying persistent store.
    pub store: NodeStorage,
}

impl Storage {
    /// Whether the wrapped store is well formed.
    pub open spec fn wf(self) -> bool {
        self.store.wf()
    }

    /// Wraps a store.
    pub fn new(storage: NodeStorage) -> (s: Storage)
        ensures
            s.store == storage,
    {
        Storage { store: storage }
    }

    /// Looks the tag up; an unset tag is an absent value, not an error.
    pub fn get_tag(&self, tag: &String) -> (r: Result<Option<HeaderHash>, StorageError>)
        ensures
            r == Ok::<Option<HeaderHash>, StorageError>(self.store.tag_of(tag@)),
    {
        Ok(self.store.get_tag(tag))
    }

    /// Overwrites (or creates) the tag's target.  No check that the
    /// hash names a stored block is made at this layer.
    pub fn put_tag(&mut self, tag: &String, header_hash: HeaderHash) -> (r: Result<
        (),
        StorageError,
    >)
        ensures
            r == Ok::<(), StorageError>(()),
            NodeStorage::put_tag_post(old(self).store, final(self).store, tag@, header_hash),
            old(self).wf() ==> final(self).wf(),
    {
        let r = self.store.put_tag(tag, header_hash);
        proof {
            if old(self).wf() {
                crate::store::lemma_wf_same_entries(old(self).store, self.store);
            }
        }
        match r {
            Ok(()) => Ok(()),
            Err(e) => Err(StorageError::StoreFault(e)),
        }
    }

    /// Fetches a block.  The store's not-found report is recovered
    /// locally as an absent value; any other fault propagates.
    pub fn get(&self, header_hash: HeaderHash) -> (r: Result<Option<Block>, StorageError>)
        ensures
            r == Ok::<Option<Block>, StorageError>(
                if self.store.has_block(header_hash.value) {
                    Some(self.store.block_of(header_hash.value))
                } else {
                    None
                },
            ),
    {
        match self.store.get_block(header_hash) {
            Err(StoreError::BlockNotFound) => Ok(None),
            Err(e) => Err(StorageError::StoreFault(e)),
            Ok((block, _block_info)) => Ok(Some(block)),
        }
    }

    /// Whether a block is stored, with the same not-found recovery as
    /// `get`: an absent block reads as `false`, never as an error.
    pub fn block_exists(&self, header_hash: HeaderHash) -> (r: Result<bool, StorageError>)
        ensures
            r == Ok::<bool, StorageError>(self.store.has_block(header_hash.value)),
    {
        match self.store.block_exists(header_hash) {
            Err(StoreError::BlockNotFound) => Ok(false),
            Err(e) => Err(StorageError::StoreFault(e)),
            Ok(existence) => Ok(existence),
        }
    }

    /// Inserts a new block.  A not-found report from the store on this
    /// path cannot arise from any well-formed use and escalates as an
    /// invariant violation instead of a routine error; other store
    /// faults propagate verbatim.
    pub fn put_block(&mut self, block: &Block) -> (r: Result<(), StorageError>)
        ensures
            old(self).wf() ==> {
                if old(self).store.has_block(block.id.value) {
                    &&& r == Err::<(), StorageError>(
                        StorageError::StoreFault(StoreError::BlockAlreadyPresent),
                    )
                    &&& *final(self) == *old(self)
                } else if block.id.value == 0 || (block.parent_id.value != 0
                    && !old(self).store.has_block(block.parent_id.value)) {
                    &&& r == Err::<(), StorageError>(StorageError::InvariantViolation)
                    &&& *final(self) == *old(self)
                } else if block.parent_id.value != 0 && old(self).store.depth_of(
                    block.parent_id.value,
                ) == u64::MAX {
                    &&& r == Err::<(), StorageError>(StorageError::StoreFault(StoreError::Backend))
                    &&& *final(self) == *old(self)
                } else {
                    &&& r == Ok::<(), StorageError>(())
                    &&& old(self).store.can_insert(*block)
                    &&& NodeStorage::put_block_post(old(self).store, final(self).store, *block)
                    &&& final(self).wf()
                }
            },
    {
        match self.store.put_block(block) {
            Err(StoreError::BlockNotFound) => Err(StorageError::InvariantViolation),
            Err(e) => Err(StorageError::StoreFault(e)),
            Ok(()) => Ok(()),
        }
    }

    /// Builds the lazy traversal of the chain segment between `from`
    /// and `to`: an absent value when `from` is no ancestor of `to`, a
    /// stream positioned at `from`'s depth otherwise.  A store fault
    /// during the ancestry or bounds lookup — including asking about an
    /// unstored block — propagates.
    pub fn stream_from_to(&self, from: HeaderHash, to: HeaderHash) -> (r: Result<
        Option<BlockStream>,
        StorageError,
    >)
        ensures
            self.wf() ==> {
                if !self.store.has_block(from.value) || !self.store.has_block(to.value) {
                    r == Err::<Option<BlockStream>, StorageError>(
                        StorageError::StoreFault(StoreError::BlockNotFound),
                    )
                } else if !self.store.spec_is_ancestor(from.value, to.value) {
                    r == Ok::<Option<BlockStream>, StorageError>(None)
                } else {
                    r matches Ok(Some(stream)) && {
                        &&& stream.wf_for(self.store)
                        &&& stream.to_hash@ == to.value
                        &&& stream.to_depth == self.store.depth_of(to.value)
                        &&& stream.cur_depth == self.store.depth_of(from.value)
                        &&& stream.pending_infos@ =~= seq![self.store.info_of(to.value)]
                    }
                }
            },
    {
        match self.store.is_ancestor(from, to) {
            Err(e) => Err(StorageError::StoreFault(e)),
            Ok(None) => Ok(None),
            Ok(Some(distance)) => match self.store.get_block_info(to) {
                Err(e) => Err(StorageError::StoreFault(e)),
                Ok(to_info) => {
                    if distance > to_info.depth {
                        return Err(StorageError::InvariantViolation);
                    }
                    let stream = BlockStream {
                        to_hash: Ghost(to.value),
                        to_depth: to_info.depth,
                        cur_depth: to_info.depth - distance,
                        pending_infos: vec![to_info],
                    };
                    proof {
                        if self.wf() {
                            assert(stream.pending_infos@[0] == to_info);
                            assert(self.store.ancestor_at(
                                to.value,
                                self.store.depth_of(to.value) as int,
                            ) == to.value);
                        }
                    }
                    Ok(Some(stream))
                }
            },
        }
    }
}

} // verus!
