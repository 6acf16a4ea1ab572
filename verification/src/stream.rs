//! The lazy ancestor-range traversal: a value type that, one production
//! step at a time, yields the ancestry records between two related
//! blocks in ascending depth order, caching the records that each
//! multi-step ancestor jump passes through so no depth is derived twice.

use vstd::prelude::*;

use crate::ancestry::lemma_ancestor_at_compose;
use crate::ancestry::lemma_ancestor_at_parent;
use crate::ancestry::lemma_ancestor_at_props;
use crate::block::BlockInfo;
use crate::store::NodeStorage;
use crate::storage::StorageError;

verus! {

/// A one-directional traversal of the chain segment between two related
/// blocks.  The cursor starts at the lower endpoint's depth; each
/// production step advances it by one and yields the record at the new
/// depth, until the upper bound is reached.  `pending_infos` caches, as
/// a stack ordered deepest at the bottom, the records already
/// discovered on the path back from the upper endpoint.
pub struct BlockStream {
    /// The identifier of the upper endpoint, carried for specification
    /// purposes only.
    pub to_hash: Ghost<u64>,
    /// The depth of the upper endpoint; the stream is exhausted once
    /// the cursor reaches it.
    pub to_depth: u64,
    /// The depth of the most recently yielded record (initially the
    /// lower endpoint's depth).  Never decreases.
    pub cur_depth: u64,
    /// Records on the path back from the upper endpoint that have been
    /// discovered but not yet consumed, strictly decreasing in depth
    /// from bottom to top; the top is the next depth due or the
    /// nearest known descendant of it.
    pub pending_infos: Vec<BlockInfo>,
}

impl BlockStream {
    /// Well-formedness of the traversal with respect to the store it
    /// walks: the upper endpoint is stored at `to_depth`, the cursor
    /// has not passed the bound, and every cached record lies on the
    /// parent chain of the upper endpoint, above the cursor while items
    /// remain due, with the bottom of the stack at the bound itself.
    pub open spec fn wf_for(self, s: NodeStorage) -> bool {
        &&& s.wf()
        &&& s.has_block(self.to_hash@)
        &&& s.depth_of(self.to_hash@) == self.to_depth
        &&& self.cur_depth <= self.to_depth
        &&& (self.cur_depth < self.to_depth ==> self.pending_infos@.len() > 0)
        &&& (self.pending_infos@.len() > 0 ==> self.pending_infos@[0].depth == self.to_depth)
        &&& forall|i: int|
            0 <= i < self.pending_infos@.len() ==> {
                let d = (#[trigger] self.pending_infos@[i]).depth;
                &&& d <= self.to_depth
                &&& (self.cur_depth < self.to_depth ==> self.cur_depth < d)
                &&& self.pending_infos@[i] == s.info_of(s.ancestor_at(self.to_hash@, d as int))
            }
        &&& forall|i: int, j: int|
            0 <= i < j < self.pending_infos@.len() ==> (#[trigger] self.pending_infos@[i]).depth
                > (#[trigger] self.pending_infos@[j]).depth
    }

    /// Whether every item has been produced.
    pub fn exhausted(&self) -> (r: bool)
        ensures
            r == (self.cur_depth >= self.to_depth),
    {
        self.cur_depth >= self.to_depth
    }

    /// One production step.  An exhausted stream yields nothing and is
    /// left untouched; otherwise the cursor advances one depth and the
    /// record of the upper endpoint's ancestor at the new depth is
    /// yielded, from the cache when an earlier jump already passed
    /// through that depth, else by one multi-step ancestor jump whose
    /// intermediate records refill the cache.
    pub fn poll(&mut self, store: &NodeStorage) -> (r: Result<Option<BlockInfo>, StorageError>)
        ensures
            final(self).to_hash == old(self).to_hash,
            final(self).to_depth == old(self).to_depth,
            old(self).cur_depth >= old(self).to_depth ==> *final(self) == *old(self) && r == Ok::<
                Option<BlockInfo>,
                StorageError,
            >(None),
            r matches Ok(Some(_)) ==> old(self).cur_depth < old(self).to_depth
                && final(self).cur_depth == old(self).cur_depth + 1,
            old(self).wf_for(*store) ==> {
                &&& final(self).wf_for(*store)
                &&& (old(self).cur_depth < old(self).to_depth ==> {
                    &&& final(self).cur_depth == old(self).cur_depth + 1
                    &&& r == Ok::<Option<BlockInfo>, StorageError>(
                        Some(
                            store.info_of(
                                store.ancestor_at(old(self).to_hash@, old(self).cur_depth + 1),
                            ),
                        ),
                    )
                })
            },
    {
        if self.cur_depth >= self.to_depth {
            return Ok(None);
        }
        self.cur_depth = self.cur_depth + 1;
        let block_info = match self.pending_infos.pop() {
            Some(info) => info,
            None => {
                return Err(StorageError::InvariantViolation);
            }
        };
        let ghost top = self.pending_infos@.len() as int;
        proof {
            if old(self).wf_for(*store) {
                assert(block_info == old(self).pending_infos@[top]);
                assert(block_info.depth >= self.cur_depth);
            }
        }
        if block_info.depth == self.cur_depth {
            proof {
                if old(self).wf_for(*store) {
                    lemma_pop_keeps_wf(*old(self), *self, *store, top);
                }
            }
            Ok(Some(block_info))
        } else {
            if block_info.depth < self.cur_depth {
                return Err(StorageError::InvariantViolation);
            }
            let depth = block_info.depth;
            let parent = block_info.parent_id();
            self.pending_infos.push(block_info);
            let ghost to = old(self).to_hash@;
            let ghost start = store.ancestor_at(to, depth - 1);
            proof {
                if old(self).wf_for(*store) {
                    assert(self.pending_infos@ =~= old(self).pending_infos@);
                    lemma_ancestor_at_props(*store, to, depth as int);
                    lemma_ancestor_at_parent(*store, to, depth - 1);
                    assert(parent.value == start);
                }
            }
            let n = depth - self.cur_depth - 1;
            let ghost pre_walk = self.pending_infos@;
            match store.nth_ancestor(parent, n, &mut self.pending_infos) {
                Err(e) => Err(StorageError::StoreFault(e)),
                Ok(found) => {
                    proof {
                        if old(self).wf_for(*store) {
                            assert(self.pending_infos@ =~= pre_walk + Seq::new(
                                n as nat,
                                |k: int| store.info_of(store.ancestor_at(start, depth - 1 - k)),
                            ));
                            lemma_refill(*old(self), *self, *store, pre_walk, depth as int, n);
                            lemma_ancestor_at_compose(
                                *store,
                                to,
                                depth - 1,
                                self.cur_depth as int,
                            );
                            assert(found == store.info_of(
                                store.ancestor_at(to, self.cur_depth as int),
                            ));
                        }
                    }
                    Ok(Some(found))
                }
            }
        }
    }

    /// Drains the stream, returning every remaining item in production
    /// order: the records of the upper endpoint's ancestors at each
    /// depth above the cursor, up to and including the bound — no
    /// duplicates, no gaps.
    pub fn collect_remaining(&mut self, store: &NodeStorage) -> (r: Result<
        Vec<BlockInfo>,
        StorageError,
    >)
        ensures
            old(self).wf_for(*store) ==> {
                &&& final(self).wf_for(*store)
                &&& final(self).cur_depth == old(self).to_depth
                &&& r matches Ok(items) && items@ == store.chain_seq(
                    old(self).to_hash@,
                    old(self).cur_depth as int,
                    old(self).to_depth as int,
                )
            },
    {
        let mut items: Vec<BlockInfo> = Vec::new();
        proof {
            if old(self).wf_for(*store) {
                assert(items@ =~= store.chain_seq(
                    old(self).to_hash@,
                    old(self).cur_depth as int,
                    old(self).cur_depth as int,
                ));
            }
        }
        loop
            invariant
                self.to_hash == old(self).to_hash,
                self.to_depth == old(self).to_depth,
                old(self).wf_for(*store) ==> {
                    &&& self.wf_for(*store)
                    &&& old(self).cur_depth <= self.cur_depth
                    &&& items@ == store.chain_seq(
                        old(self).to_hash@,
                        old(self).cur_depth as int,
                        self.cur_depth as int,
                    )
                },
            decreases self.to_depth - self.cur_depth,
        {
            let ghost pre = *self;
            match self.poll(store) {
                Ok(None) => {
                    proof {
                        if old(self).wf_for(*store) {
                            assert(pre.cur_depth >= pre.to_depth);
                        }
                    }
                    return Ok(items);
                }
                Ok(Some(info)) => {
                    items.push(info);
                    proof {
                        if old(self).wf_for(*store) {
                            assert(items@ =~= store.chain_seq(
                                old(self).to_hash@,
                                old(self).cur_depth as int,
                                self.cur_depth as int,
                            ));
                        }
                    }
                }
                Err(e) => {
                    return Err(e);
                }
            }
        }
    }
}

/// Popping the cache's top record, when it sits exactly at the advanced
/// cursor, leaves the traversal well formed.
proof fn lemma_pop_keeps_wf(pre: BlockStream, post: BlockStream, s: NodeStorage, top: int)
    requires
        pre.wf_for(s),
        pre.cur_depth < pre.to_depth,
        post.to_hash == pre.to_hash,
        post.to_depth == pre.to_depth,
        post.cur_depth == pre.cur_depth + 1,
        top == pre.pending_infos@.len() - 1,
        top >= 0,
        post.pending_infos@ == pre.pending_infos@.subrange(0, top),
        pre.pending_infos@[top].depth == post.cur_depth,
    ensures
        post.wf_for(s),
{
    assert forall|i: int| 0 <= i < post.pending_infos@.len() implies {
        let d = (#[trigger] post.pending_infos@[i]).depth;
        &&& d <= post.to_depth
        &&& (post.cur_depth < post.to_depth ==> post.cur_depth < d)
        &&& post.pending_infos@[i] == s.info_of(s.ancestor_at(post.to_hash@, d as int))
    } by {
        assert(post.pending_infos@[i] == pre.pending_infos@[i]);
        assert(pre.pending_infos@[i].depth > pre.pending_infos@[top].depth);
    }
    assert forall|i: int, j: int|
        0 <= i < j < post.pending_infos@.len() implies (
    #[trigger] post.pending_infos@[i]).depth > (#[trigger] post.pending_infos@[j]).depth by {
        assert(pre.pending_infos@[i].depth > pre.pending_infos@[j].depth);
    }
    if post.cur_depth < post.to_depth {
        assert(pre.pending_infos@[0].depth == pre.to_depth);
        assert(pre.pending_infos@[top].depth < pre.to_depth);
        assert(top > 0);
    }
}

/// After a refilling jump the cache is well formed again: the jump
/// visited exactly the depths between the cursor and the record it was
/// started under, each lying on the upper endpoint's parent chain.
proof fn lemma_refill(
    pre: BlockStream,
    post: BlockStream,
    s: NodeStorage,
    pre_walk: Seq<BlockInfo>,
    depth: int,
    n: u64,
)
    requires
        pre.wf_for(s),
        pre.cur_depth < pre.to_depth,
        post.to_hash == pre.to_hash,
        post.to_depth == pre.to_depth,
        post.cur_depth == pre.cur_depth + 1,
        pre_walk == pre.pending_infos@,
        pre_walk.len() > 0,
        post.cur_depth < depth <= pre.to_depth,
        pre_walk[pre_walk.len() - 1].depth == depth,
        n == depth - post.cur_depth - 1,
        post.pending_infos@ == pre_walk + Seq::new(
            n as nat,
            |k: int| s.info_of(s.ancestor_at(s.ancestor_at(pre.to_hash@, depth - 1), depth - 1 - k)),
        ),
    ensures
        post.wf_for(s),
{
    let to = pre.to_hash@;
    let start = s.ancestor_at(to, depth - 1);
    let tail = Seq::new(n as nat, |k: int| s.info_of(s.ancestor_at(start, depth - 1 - k)));
    lemma_ancestor_at_props(s, to, depth - 1);
    assert forall|k: int| 0 <= k < n implies {
        &&& s.ancestor_at(start, depth - 1 - k) == s.ancestor_at(to, depth - 1 - k)
        &&& (#[trigger] tail[k]).depth == depth - 1 - k
        &&& tail[k] == s.info_of(s.ancestor_at(to, tail[k].depth as int))
    } by {
        lemma_ancestor_at_compose(s, to, depth - 1, depth - 1 - k);
        lemma_ancestor_at_props(s, to, depth - 1 - k);
    }
    let m = pre_walk.len() as int;
    assert forall|i: int| 0 <= i < post.pending_infos@.len() implies {
        let d = (#[trigger] post.pending_infos@[i]).depth;
        &&& d <= post.to_depth
        &&& (post.cur_depth < post.to_depth ==> post.cur_depth < d)
        &&& post.pending_infos@[i] == s.info_of(s.ancestor_at(post.to_hash@, d as int))
    } by {
        if i < m {
            assert(post.pending_infos@[i] == pre.pending_infos@[i]);
            if i < m - 1 {
                assert(pre.pending_infos@[i].depth > pre.pending_infos@[m - 1].depth);
            }
        } else {
            assert(post.pending_infos@[i] == tail[i - m]);
        }
    }
    assert forall|i: int, j: int|
        0 <= i < j < post.pending_infos@.len() implies (
    #[trigger] post.pending_infos@[i]).depth > (#[trigger] post.pending_infos@[j]).depth by {
        if j < m {
            assert(pre.pending_infos@[i].depth > pre.pending_infos@[j].depth);
        } else if i < m {
            if i < m - 1 {
                assert(pre.pending_infos@[i].depth > pre.pending_infos@[m - 1].depth);
            }
            assert(tail[j - m].depth == depth - 1 - (j - m));
        } else {
            assert(tail[i - m].depth == depth - 1 - (i - m));
            assert(tail[j - m].depth == depth - 1 - (j - m));
        }
    }
    assert(post.pending_infos@[0].depth == post.to_depth);
}

} // verus!
