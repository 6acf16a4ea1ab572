//! The persistent store collaborator, modelled in memory: blocks with
//! their ancestry metadata, and named tags.
//!
//! Newer entries stand at the front of each list and shadow older ones,
//! so a lookup takes the first match.  The store is append-only for
//! blocks: an identifier, once bound, is never rebound.

use vstd::prelude::*;

use crate::block::Block;
use crate::block::BlockInfo;
use crate::block::HeaderHash;

verus! {

/// Errors that the persistent store itself reports.
#[derive(Clone, Copy, Debug, PartialEq, Eq, Structural)]
pub enum StoreError {
    /// A requested block, or a required ancestor of one, is not stored.
    BlockNotFound,
    /// An insert named a block identifier that is already bound.
    BlockAlreadyPresent,
    /// A fault of the persistence engine (I/O failure, corruption).  The
    /// in-memory store raises it only when the depth counter is exhausted;
    /// it models the fault channel of an on-disk collaborator.
    Backend,
}

/// One stored block together with its computed depth.
#[derive(Clone, Copy, Debug, PartialEq, Eq, Structural)]
pub struct StoredEntry {
    /// The stored payload.
    pub block: Block,
    /// Parent-steps from the chain root down to this block.
    pub depth: u64,
}

/// One named pointer to a block.
pub struct TagEntry {
    /// The tag's name.
    pub name: String,
    /// The block the tag points at.
    pub hash: HeaderHash,
}

/// The persistent store: every block ever accepted, with its ancestry
/// metadata, and the current named pointers.
pub struct NodeStorage {
    /// Stored blocks, newest first.
    pub entries: Vec<StoredEntry>,
    /// Tag bindings, newest first; an earlier entry shadows later ones
    /// of the same name.
    pub tags: Vec<TagEntry>,
}

impl NodeStorage {
    /// The first entry of `s` whose block carries the identifier `h`.
    pub open spec fn find_in(s: Seq<StoredEntry>, h: u64) -> Option<StoredEntry>
        decreases s.len(),
    {
        if s.len() == 0 {
            None
        } else if s[0].block.id.value == h {
            Some(s[0])
        } else {
            Self::find_in(s.drop_first(), h)
        }
    }

    /// The stored entry bound to `h`, if any.
    pub open spec fn find_block(self, h: u64) -> Option<StoredEntry> {
        Self::find_in(self.entries@, h)
    }

    /// Whether a block with identifier `h` is stored.
    pub open spec fn has_block(self, h: u64) -> bool {
        self.find_block(h) is Some
    }

    /// The depth of the stored block `h`.
    pub open spec fn depth_of(self, h: u64) -> u64 {
        self.find_block(h)->Some_0.depth
    }

    /// The parent identifier of the stored block `h`.
    pub open spec fn parent_of(self, h: u64) -> u64 {
        self.find_block(h)->Some_0.block.parent_id.value
    }

    /// The payload of the stored block `h`.
    pub open spec fn block_of(self, h: u64) -> Block {
        self.find_block(h)->Some_0.block
    }

    /// The ancestry record of the stored block `h`.
    pub open spec fn info_of(self, h: u64) -> BlockInfo {
        BlockInfo {
            id: self.block_of(h).id,
            parent_id: self.block_of(h).parent_id,
            depth: self.depth_of(h),
        }
    }

    /// The first binding of `name` among the tags.
    pub open spec fn find_tag_in(s: Seq<TagEntry>, name: Seq<char>) -> Option<HeaderHash>
        decreases s.len(),
    {
        if s.len() == 0 {
            None
        } else if s[0].name@ == name {
            Some(s[0].hash)
        } else {
            Self::find_tag_in(s.drop_first(), name)
        }
    }

    /// The block the tag `name` currently points at, if any.
    pub open spec fn tag_of(self, name: Seq<char>) -> Option<HeaderHash> {
        Self::find_tag_in(self.tags@, name)
    }

    /// Well-formedness of the chain graph: identifiers are non-zero and
    /// bound to matching blocks, a root (parent zero) sits at depth 0,
    /// and every other block sits one step below its stored parent.
    pub open spec fn wf(self) -> bool {
        forall|h: u64| #[trigger] self.has_block(h) ==> {
            &&& h != 0
            &&& self.block_of(h).id.value == h
            &&& (self.parent_of(h) == 0 ==> self.depth_of(h) == 0)
            &&& (self.parent_of(h) != 0 ==> {
                &&& self.has_block(self.parent_of(h))
                &&& self.depth_of(h) == self.depth_of(self.parent_of(h)) + 1
            })
        }
    }

    /// Whether the store accepts an insert of `b`: the identifier is
    /// fresh and non-zero, and the parent is either the root marker or a
    /// stored block whose depth counter is not exhausted.
    pub open spec fn can_insert(self, b: Block) -> bool {
        &&& !self.has_block(b.id.value)
        &&& b.id.value != 0
        &&& (b.parent_id.value == 0 || (self.has_block(b.parent_id.value)
                && self.depth_of(b.parent_id.value) < u64::MAX))
    }

    /// The depth an insert of `b` computes for it.
    pub open spec fn new_depth(self, b: Block) -> u64 {
        if b.parent_id.value == 0 {
            0
        } else {
            (self.depth_of(b.parent_id.value) + 1) as u64
        }
    }

    /// How a successful insert of `b` changes the store.
    pub open spec fn put_block_post(pre: NodeStorage, post: NodeStorage, b: Block) -> bool {
        &&& post.entries@ == pre.entries@.insert(0, StoredEntry { block: b, depth: pre.new_depth(b) })
        &&& post.tags@ == pre.tags@
    }

    /// How a tag write of `name` to `h` changes the store.
    pub open spec fn put_tag_post(pre: NodeStorage, post: NodeStorage, name: Seq<char>, h: HeaderHash) -> bool {
        &&& post.tag_of(name) == Some(h)
        &&& forall|n: Seq<char>| n != name ==> #[trigger] post.tag_of(n) == pre.tag_of(n)
        &&& post.entries@ == pre.entries@
    }

    /// A fresh, empty store.
    pub fn new() -> (s: NodeStorage)
        ensures
            s.wf(),
            s.entries@.len() == 0,
            s.tags@.len() == 0,
            forall|h: u64| !(#[trigger] s.has_block(h)),
            forall|n: Seq<char>| #[trigger] s.tag_of(n) is None,
    {
        NodeStorage { entries: Vec::new(), tags: Vec::new() }
    }

    /// The position of the entry bound to `h`, if any.
    pub(crate) fn find_index(&self, h: u64) -> (r: Option<usize>)
        ensures
            match r {
                Some(i) => i < self.entries@.len() && self.find_block(h) == Some(self.entries@[i as int]),
                None => !self.has_block(h),
            },
    {
        let n = self.entries.len();
        let mut i: usize = 0;
        proof {
            assert(self.entries@.skip(0) =~= self.entries@);
        }
        while i < n
            invariant
                n == self.entries@.len(),
                i <= n,
                Self::find_in(self.entries@, h) == Self::find_in(self.entries@.skip(i as int), h),
            decreases n - i,
        {
            let ghost sub = self.entries@.skip(i as int);
            if self.entries[i].block.id.value == h {
                proof {
                    assert(sub[0] == self.entries@[i as int]);
                }
                return Some(i);
            }
            proof {
                assert(sub.drop_first() =~= self.entries@.skip(i as int + 1));
                assert(sub[0] == self.entries@[i as int]);
            }
            i = i + 1;
        }
        proof {
            assert(self.entries@.skip(n as int) =~= Seq::<StoredEntry>::empty());
        }
        None
    }

    /// Reads the tag `name`.  Absence is an ordinary outcome, not an
    /// error, so the result is an option.
    pub fn get_tag(&self, name: &String) -> (r: Option<HeaderHash>)
        ensures
            r == self.tag_of(name@),
    {
        let n = self.tags.len();
        let mut i: usize = 0;
        proof {
            assert(self.tags@.skip(0) =~= self.tags@);
        }
        while i < n
            invariant
                n == self.tags@.len(),
                i <= n,
                Self::find_tag_in(self.tags@, name@) == Self::find_tag_in(self.tags@.skip(i as int), name@),
            decreases n - i,
        {
            let ghost sub = self.tags@.skip(i as int);
            if self.tags[i].name == *name {
                proof {
                    assert(sub[0] == self.tags@[i as int]);
                }
                return Some(self.tags[i].hash);
            }
            proof {
                assert(sub.drop_first() =~= self.tags@.skip(i as int + 1));
                assert(sub[0] == self.tags@[i as int]);
            }
            i = i + 1;
        }
        proof {
            assert(self.tags@.skip(n as int) =~= Seq::<TagEntry>::empty());
        }
        None
    }

    /// Writes the tag `name`, overwriting any earlier binding.
    pub fn put_tag(&mut self, name: &String, hash: HeaderHash) -> (r: Result<(), StoreError>)
        ensures
            r == Ok::<(), StoreError>(()),
            Self::put_tag_post(*old(self), *final(self), name@, hash),
    {
        let entry = TagEntry { name: name.clone(), hash };
        self.tags.insert(0, entry);
        proof {
            assert(self.tags@.drop_first() =~= old(self).tags@);
            assert forall|n: Seq<char>| n != name@ implies #[trigger] self.tag_of(n) == old(self).tag_of(n) by {
                assert(self.tags@[0].name@ == name@);
            }
        }
        Ok(())
    }

    /// Fetches a block and its ancestry record; `BlockNotFound` when the
    /// identifier is not bound.
    pub fn get_block(&self, hash: HeaderHash) -> (r: Result<(Block, BlockInfo), StoreError>)
        ensures
            self.has_block(hash.value) ==> r == Ok::<(Block, BlockInfo), StoreError>((
                self.block_of(hash.value),
                self.info_of(hash.value),
            )),
            !self.has_block(hash.value) ==> r == Err::<(Block, BlockInfo), StoreError>(StoreError::BlockNotFound),
    {
        match self.find_index(hash.value) {
            Some(i) => {
                let e = &self.entries[i];
                let info = BlockInfo { id: e.block.id, parent_id: e.block.parent_id, depth: e.depth };
                Ok((e.block, info))
            }
            None => Err(StoreError::BlockNotFound),
        }
    }

    /// Fetches only the ancestry record of a block.
    pub fn get_block_info(&self, hash: HeaderHash) -> (r: Result<BlockInfo, StoreError>)
        ensures
            self.has_block(hash.value) ==> r == Ok::<BlockInfo, StoreError>(self.info_of(hash.value)),
            !self.has_block(hash.value) ==> r == Err::<BlockInfo, StoreError>(StoreError::BlockNotFound),
    {
        match self.find_index(hash.value) {
            Some(i) => {
                let e = &self.entries[i];
                Ok(BlockInfo { id: e.block.id, parent_id: e.block.parent_id, depth: e.depth })
            }
            None => Err(StoreError::BlockNotFound),
        }
    }

    /// Whether a block is stored.
    pub fn block_exists(&self, hash: HeaderHash) -> (r: Result<bool, StoreError>)
        ensures
            r == Ok::<bool, StoreError>(self.has_block(hash.value)),
    {
        match self.find_index(hash.value) {
            Some(_) => Ok(true),
            None => Ok(false),
        }
    }

    /// Inserts a new block, computing its depth from its stored parent.
    /// Reports `BlockAlreadyPresent` for a bound identifier,
    /// `BlockNotFound` for an insert whose parent (or whose own
    /// identifier) names no storable block, and `Backend` when the depth
    /// counter is exhausted.
    pub fn put_block(&mut self, block: &Block) -> (r: Result<(), StoreError>)
        ensures
            old(self).wf() ==> {
                if old(self).has_block(block.id.value) {
                    r == Err::<(), StoreError>(StoreError::BlockAlreadyPresent) && *final(self) == *old(self)
                } else if block.id.value == 0
                    || (block.parent_id.value != 0 && !old(self).has_block(block.parent_id.value)) {
                    r == Err::<(), StoreError>(StoreError::BlockNotFound) && *final(self) == *old(self)
                } else if block.parent_id.value != 0
                    && old(self).depth_of(block.parent_id.value) == u64::MAX {
                    r == Err::<(), StoreError>(StoreError::Backend) && *final(self) == *old(self)
                } else {
                    &&& r == Ok::<(), StoreError>(())
                    &&& old(self).can_insert(*block)
                    &&& Self::put_block_post(*old(self), *final(self), *block)
                    &&& final(self).wf()
                }
            },
    {
        match self.find_index(block.id.value) {
            Some(_) => Err(StoreError::BlockAlreadyPresent),
            None => {
                if block.id.value == 0 {
                    return Err(StoreError::BlockNotFound);
                }
                let depth: u64;
                if block.parent_id.value == 0 {
                    depth = 0;
                } else {
                    match self.find_index(block.parent_id.value) {
                        None => {
                            return Err(StoreError::BlockNotFound);
                        }
                        Some(i) => {
                            let parent_depth = self.entries[i].depth;
                            if parent_depth == u64::MAX {
                                return Err(StoreError::Backend);
                            }
                            depth = parent_depth + 1;
                        }
                    }
                }
                let entry = StoredEntry { block: *block, depth };
                self.entries.insert(0, entry);
                proof {
                    if old(self).wf() {
                        lemma_insert_front_wf(*old(self), *self, *block, entry);
                    }
                }
                Ok(())
            }
        }
    }
}

/// Well-formedness reads the block entries alone, so it carries over to
/// any store that holds the same ones.
pub proof fn lemma_wf_same_entries(pre: NodeStorage, post: NodeStorage)
    requires
        pre.wf(),
        post.entries@ == pre.entries@,
    ensures
        post.wf(),
{
    assert forall|h: u64| #[trigger] post.has_block(h) implies {
        &&& h != 0
        &&& post.block_of(h).id.value == h
        &&& (post.parent_of(h) == 0 ==> post.depth_of(h) == 0)
        &&& (post.parent_of(h) != 0 ==> {
            &&& post.has_block(post.parent_of(h))
            &&& post.depth_of(h) == post.depth_of(post.parent_of(h)) + 1
        })
    } by {
        assert(post.find_block(h) == pre.find_block(h));
        assert(pre.has_block(h));
        if pre.parent_of(h) != 0 {
            assert(pre.has_block(pre.parent_of(h)));
            assert(post.find_block(pre.parent_of(h)) == pre.find_block(pre.parent_of(h)));
        }
    }
}

/// Inserting a fresh, well-parented block at the front preserves every
/// earlier lookup and keeps the store well formed.
pub(crate) proof fn lemma_insert_front_wf(pre: NodeStorage, post: NodeStorage, b: Block, entry: StoredEntry)
    requires
        pre.wf(),
        !pre.has_block(b.id.value),
        b.id.value != 0,
        b.parent_id.value == 0 || pre.has_block(b.parent_id.value),
        b.parent_id.value != 0 ==> pre.depth_of(b.parent_id.value) < u64::MAX,
        entry.block == b,
        entry.depth == pre.new_depth(b),
        post.entries@ == pre.entries@.insert(0, entry),
    ensures
        post.wf(),
        post.has_block(b.id.value),
        post.block_of(b.id.value) == b,
        post.depth_of(b.id.value) == pre.new_depth(b),
        forall|h: u64| h != b.id.value ==> #[trigger] post.find_block(h) == pre.find_block(h),
{
    assert(post.entries@[0] == entry);
    assert(post.entries@.drop_first() =~= pre.entries@);
    assert forall|h: u64| h != b.id.value implies #[trigger] post.find_block(h) == pre.find_block(h) by {
        assert(post.entries@[0].block.id.value != h);
    }
    assert forall|h: u64| #[trigger] post.has_block(h) implies {
        &&& h != 0
        &&& post.block_of(h).id.value == h
        &&& (post.parent_of(h) == 0 ==> post.depth_of(h) == 0)
        &&& (post.parent_of(h) != 0 ==> {
            &&& post.has_block(post.parent_of(h))
            &&& post.depth_of(h) == post.depth_of(post.parent_of(h)) + 1
        })
    } by {
        if h == b.id.value {
            assert(post.find_block(h) == Some(entry));
            if b.parent_id.value != 0 {
                assert(pre.has_block(b.parent_id.value));
                assert(b.parent_id.value != b.id.value);
            }
        } else {
            assert(post.find_block(h) == pre.find_block(h));
            assert(pre.has_block(h));
            if pre.parent_of(h) != 0 {
                assert(pre.has_block(pre.parent_of(h)));
                assert(pre.parent_of(h) != b.id.value);
            }
        }
    }
}

} // verus!
