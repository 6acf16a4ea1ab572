//! Ancestor arithmetic over the stored chain graph: the spec-level
//! parent walk, the distance query, and the multi-step ancestor
//! traversal that reports every block it passes through.

use vstd::prelude::*;

use crate::block::BlockInfo;
use crate::block::HeaderHash;
use crate::store::NodeStorage;
use crate::store::StoreError;

verus! {

impl NodeStorage {
    /// The identifier of the ancestor of `h` at depth `d`, reached by
    /// walking parent pointers.
    pub open spec fn ancestor_at(self, h: u64, d: int) -> u64
        decreases self.depth_of(h) - d
            when self.wf() && self.has_block(h) && 0 <= d <= self.depth_of(h)
    {
        if self.depth_of(h) == d {
            h
        } else {
            self.ancestor_at(self.parent_of(h), d)
        }
    }

    /// Whether `f` lies on the parent chain of `t`; a block counts as an
    /// ancestor of itself.
    pub open spec fn spec_is_ancestor(self, f: u64, t: u64) -> bool {
        &&& self.has_block(f)
        &&& self.has_block(t)
        &&& self.depth_of(f) <= self.depth_of(t)
        &&& self.ancestor_at(t, self.depth_of(f) as int) == f
    }

    /// Parent steps separating two related blocks.
    pub open spec fn spec_distance(self, f: u64, t: u64) -> u64 {
        (self.depth_of(t) - self.depth_of(f)) as u64
    }

    /// The ancestry records of the ancestors of `t` at depths `lo + 1`
    /// through `hi`, in ascending depth order.
    pub open spec fn chain_seq(self, t: u64, lo: int, hi: int) -> Seq<BlockInfo> {
        Seq::new((hi - lo) as nat, |k: int| self.info_of(self.ancestor_at(t, lo + 1 + k)))
    }
}

/// The ancestor of `h` at depth `d` is a stored block that does sit at
/// depth `d`, and the walk is the identity at `h`'s own depth.
pub proof fn lemma_ancestor_at_props(s: NodeStorage, h: u64, d: int)
    requires
        s.wf(),
        s.has_block(h),
        0 <= d <= s.depth_of(h),
    ensures
        s.has_block(s.ancestor_at(h, d)),
        s.depth_of(s.ancestor_at(h, d)) == d,
        d == s.depth_of(h) ==> s.ancestor_at(h, d) == h,
    decreases s.depth_of(h) - d,
{
    if s.depth_of(h) == d {
    } else {
        lemma_ancestor_at_props(s, s.parent_of(h), d);
    }
}

/// Walking down to depth `m` and on to depth `d` lands on the same block
/// as walking straight down to `d`.
pub proof fn lemma_ancestor_at_compose(s: NodeStorage, h: u64, m: int, d: int)
    requires
        s.wf(),
        s.has_block(h),
        0 <= d <= m <= s.depth_of(h),
    ensures
        s.ancestor_at(s.ancestor_at(h, m), d) == s.ancestor_at(h, d),
    decreases s.depth_of(h) - m,
{
    if s.depth_of(h) == m {
    } else {
        lemma_ancestor_at_compose(s, s.parent_of(h), m, d);
    }
}

/// One step down the chain goes through the parent pointer: the ancestor
/// at depth `d` is the stored parent of the ancestor at depth `d + 1`.
pub proof fn lemma_ancestor_at_parent(s: NodeStorage, h: u64, d: int)
    requires
        s.wf(),
        s.has_block(h),
        0 <= d < s.depth_of(h),
    ensures
        ({
            let a = s.ancestor_at(h, d + 1);
            &&& s.has_block(a)
            &&& s.depth_of(a) == d + 1
            &&& s.parent_of(a) != 0
            &&& s.parent_of(a) == s.ancestor_at(h, d)
        }),
{
    lemma_ancestor_at_props(s, h, d + 1);
    let a = s.ancestor_at(h, d + 1);
    assert(s.parent_of(a) != 0) by {
        if s.parent_of(a) == 0 {
            assert(s.depth_of(a) == 0);
        }
    }
    assert(s.depth_of(s.parent_of(a)) == d);
    lemma_ancestor_at_compose(s, h, d + 1, d);
    assert(s.ancestor_at(s.parent_of(a), d) == s.parent_of(a));
    assert(s.ancestor_at(a, d) == s.ancestor_at(s.parent_of(a), d));
}

/// Store growth that preserves every existing binding preserves every
/// ancestor walk: the walk only reads bindings that already existed.
pub proof fn lemma_ancestor_at_preserved(pre: NodeStorage, post: NodeStorage, h: u64, d: int)
    requires
        pre.wf(),
        post.wf(),
        forall|x: u64| #[trigger] pre.has_block(x) ==> post.find_block(x) == pre.find_block(x),
        pre.has_block(h),
        0 <= d <= pre.depth_of(h),
    ensures
        post.has_block(h),
        post.depth_of(h) == pre.depth_of(h),
        post.ancestor_at(h, d) == pre.ancestor_at(h, d),
    decreases pre.depth_of(h) - d,
{
    assert(post.find_block(h) == pre.find_block(h));
    if pre.depth_of(h) == d {
    } else {
        assert(pre.has_block(pre.parent_of(h)));
        lemma_ancestor_at_preserved(pre, post, pre.parent_of(h), d);
    }
}

impl NodeStorage {
    /// Reports the parent-step distance from `to` back to `from` when
    /// `from` is an ancestor of `to` (a block being an ancestor of
    /// itself), `None` when the two stored blocks are unrelated, and
    /// `BlockNotFound` when either identifier is not stored.
    pub fn is_ancestor(&self, from: HeaderHash, to: HeaderHash) -> (r: Result<Option<u64>, StoreError>)
        ensures
            self.wf() ==> {
                if !self.has_block(from.value) || !self.has_block(to.value) {
                    r == Err::<Option<u64>, StoreError>(StoreError::BlockNotFound)
                } else if self.spec_is_ancestor(from.value, to.value) {
                    r == Ok::<Option<u64>, StoreError>(Some(self.spec_distance(from.value, to.value)))
                } else {
                    r == Ok::<Option<u64>, StoreError>(None)
                }
            },
    {
        let from_info = match self.get_block_info(from) {
            Ok(i) => i,
            Err(e) => {
                return Err(e);
            }
        };
        let to_info = match self.get_block_info(to) {
            Ok(i) => i,
            Err(e) => {
                return Err(e);
            }
        };
        if from_info.depth > to_info.depth {
            return Ok(None);
        }
        let mut cur: u64 = to.value;
        let mut cur_depth: u64 = to_info.depth;
        while cur_depth > from_info.depth
            invariant
                self.has_block(from.value),
                self.has_block(to.value),
                from_info.depth == self.depth_of(from.value),
                to_info.depth == self.depth_of(to.value),
                from_info.depth <= cur_depth <= to_info.depth,
                self.wf() ==> {
                    &&& self.has_block(cur)
                    &&& self.depth_of(cur) == cur_depth
                    &&& self.ancestor_at(to.value, cur_depth as int) == cur
                },
            decreases cur_depth,
        {
            match self.find_index(cur) {
                None => {
                    return Err(StoreError::BlockNotFound);
                }
                Some(i) => {
                    proof {
                        if self.wf() {
                            lemma_ancestor_at_parent(*self, to.value, cur_depth - 1);
                        }
                    }
                    cur = self.entries[i].block.parent_id.value;
                    cur_depth = cur_depth - 1;
                }
            }
        }
        if cur == from.value {
            Ok(Some(to_info.depth - from_info.depth))
        } else {
            Ok(None)
        }
    }

    /// Walks `n` parent steps back from `start`, pushing onto `visited`
    /// the ancestry record of every block it passes through — `start`
    /// itself first, then each ancestor down to, but excluding, the
    /// target — and returns the record of the target, the ancestor
    /// exactly `n` steps back.  Walking from an unstored block, or past
    /// the root, reports `BlockNotFound` and leaves `visited` alone.
    pub fn nth_ancestor(&self, start: HeaderHash, n: u64, visited: &mut Vec<BlockInfo>) -> (r: Result<
        BlockInfo,
        StoreError,
    >)
        ensures
            self.wf() ==> {
                if self.has_block(start.value) && n <= self.depth_of(start.value) {
                    let sd = self.depth_of(start.value) as int;
                    &&& r == Ok::<BlockInfo, StoreError>(
                        self.info_of(self.ancestor_at(start.value, sd - n)),
                    )
                    &&& final(visited)@ == old(visited)@ + Seq::new(
                        n as nat,
                        |k: int| self.info_of(self.ancestor_at(start.value, sd - k)),
                    )
                } else {
                    &&& r == Err::<BlockInfo, StoreError>(StoreError::BlockNotFound)
                    &&& final(visited)@ == old(visited)@
                }
            },
    {
        let start_info = match self.get_block_info(start) {
            Ok(i) => i,
            Err(e) => {
                return Err(e);
            }
        };
        if n > start_info.depth {
            return Err(StoreError::BlockNotFound);
        }
        let ghost sd = self.depth_of(start.value) as int;
        let mut cur: u64 = start.value;
        let mut i: u64 = 0;
        proof {
            assert(visited@ =~= old(visited)@ + Seq::new(
                0,
                |k: int| self.info_of(self.ancestor_at(start.value, sd - k)),
            ));
        }
        while i < n
            invariant
                i <= n,
                n <= start_info.depth,
                self.has_block(start.value),
                start_info.depth == self.depth_of(start.value),
                sd == self.depth_of(start.value) as int,
                self.wf() ==> {
                    &&& self.has_block(cur)
                    &&& self.depth_of(cur) == sd - i
                    &&& self.ancestor_at(start.value, sd - i) == cur
                    &&& visited@ == old(visited)@ + Seq::new(
                        i as nat,
                        |k: int| self.info_of(self.ancestor_at(start.value, sd - k)),
                    )
                },
            decreases n - i,
        {
            match self.find_index(cur) {
                None => {
                    return Err(StoreError::BlockNotFound);
                }
                Some(idx) => {
                    let info = BlockInfo {
                        id: self.entries[idx].block.id,
                        parent_id: self.entries[idx].block.parent_id,
                        depth: self.entries[idx].depth,
                    };
                    visited.push(info);
                    proof {
                        if self.wf() {
                            lemma_ancestor_at_parent(*self, start.value, sd - i - 1);
                            assert(visited@ =~= old(visited)@ + Seq::new(
                                (i + 1) as nat,
                                |k: int| self.info_of(self.ancestor_at(start.value, sd - k)),
                            ));
                        }
                    }
                    cur = info.parent_id.value;
                    i = i + 1;
                }
            }
        }
        match self.find_index(cur) {
            None => Err(StoreError::BlockNotFound),
            Some(idx) => {
                Ok(
                    BlockInfo {
                        id: self.entries[idx].block.id,
                        parent_id: self.entries[idx].block.parent_id,
                        depth: self.entries[idx].depth,
                    },
                )
            }
        }
    }
}

} // verus!
