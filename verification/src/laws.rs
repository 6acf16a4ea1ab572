//! Laws of the access layer, stated and proved once over the spec
//! model: round trips for tags and blocks, and the shape of the
//! ancestry relation and of the chain segment a traversal yields.

use vstd::prelude::*;

use crate::ancestry::lemma_ancestor_at_compose;
use crate::ancestry::lemma_ancestor_at_preserved;
use crate::ancestry::lemma_ancestor_at_props;
use crate::stream::BlockStream;
use crate::block::Block;
use crate::block::BlockInfo;
use crate::block::HeaderHash;
use crate::store::NodeStorage;
use crate::store::StoredEntry;

verus! {

/// Tag round trip: after a tag write the name reads back as the written
/// hash; a second write to the same name overwrites it; every other
/// name, and the stored blocks, read as before either write.
pub proof fn lemma_tag_round_trip(
    s0: NodeStorage,
    s1: NodeStorage,
    s2: NodeStorage,
    name: Seq<char>,
    h1: HeaderHash,
    h2: HeaderHash,
)
    requires
        NodeStorage::put_tag_post(s0, s1, name, h1),
        NodeStorage::put_tag_post(s1, s2, name, h2),
    ensures
        s1.tag_of(name) == Some(h1),
        s2.tag_of(name) == Some(h2),
        forall|n: Seq<char>| n != name ==> #[trigger] s2.tag_of(n) == s0.tag_of(n),
        s2.entries@ == s0.entries@,
{
}

/// Block round trip: a block the store accepts is afterwards bound to
/// its hash with the payload given and the depth computed from its
/// parent, while every other identifier, and every tag, reads as
/// before — so `get` returns the block and `block_exists` affirms it.
pub proof fn lemma_block_round_trip(pre: NodeStorage, post: NodeStorage, b: Block)
    requires
        pre.wf(),
        pre.can_insert(b),
        NodeStorage::put_block_post(pre, post, b),
    ensures
        post.wf(),
        post.has_block(b.id.value),
        post.block_of(b.id.value) == b,
        post.depth_of(b.id.value) == pre.new_depth(b),
        forall|h: u64| h != b.id.value ==> #[trigger] post.find_block(h) == pre.find_block(h),
        post.tags@ == pre.tags@,
{
    assert(post.entries@[0] == StoredEntry { block: b, depth: pre.new_depth(b) });
    assert(post.entries@.drop_first() =~= pre.entries@);
    assert forall|h: u64| h != b.id.value implies #[trigger] post.find_block(h)
        == pre.find_block(h) by {
        assert(post.entries@[0].block.id.value != h);
    }
    crate::store::lemma_insert_front_wf(
        pre,
        post,
        b,
        StoredEntry { block: b, depth: pre.new_depth(b) },
    );
}

/// Equal endpoints: every stored block is an ancestor of itself at
/// distance zero, and the chain segment between a block and itself is
/// empty — a traversal with equal endpoints yields nothing.
pub proof fn lemma_equal_endpoints(s: NodeStorage, x: u64)
    requires
        s.wf(),
        s.has_block(x),
    ensures
        s.spec_is_ancestor(x, x),
        s.spec_distance(x, x) == 0,
        s.chain_seq(x, s.depth_of(x) as int, s.depth_of(x) as int) =~= Seq::<BlockInfo>::empty(),
{
}

/// A stored non-root block's parent is its ancestor at distance one.
pub proof fn lemma_parent_is_ancestor(s: NodeStorage, h: u64)
    requires
        s.wf(),
        s.has_block(h),
        s.parent_of(h) != 0,
    ensures
        s.spec_is_ancestor(s.parent_of(h), h),
        s.spec_distance(s.parent_of(h), h) == 1,
{
    let p = s.parent_of(h);
    assert(s.depth_of(p) + 1 == s.depth_of(h));
    assert(s.ancestor_at(p, s.depth_of(p) as int) == p);
    assert(s.ancestor_at(h, s.depth_of(p) as int) == s.ancestor_at(p, s.depth_of(p) as int));
}

/// Ancestry composes: an ancestor of an ancestor is an ancestor, at the
/// summed distance.
pub proof fn lemma_ancestry_transitive(s: NodeStorage, a: u64, b: u64, c: u64)
    requires
        s.wf(),
        s.spec_is_ancestor(a, b),
        s.spec_is_ancestor(b, c),
    ensures
        s.spec_is_ancestor(a, c),
        s.spec_distance(a, c) == s.spec_distance(a, b) + s.spec_distance(b, c),
{
    lemma_ancestor_at_compose(s, c, s.depth_of(b) as int, s.depth_of(a) as int);
}

/// A traversal in progress survives a block insert made between two of
/// its production steps: the store is append-only, so every record on
/// the path from the upper endpoint keeps its meaning.
pub proof fn lemma_stream_survives_put_block(
    stream: BlockStream,
    pre: NodeStorage,
    post: NodeStorage,
    b: Block,
)
    requires
        stream.wf_for(pre),
        pre.can_insert(b),
        NodeStorage::put_block_post(pre, post, b),
    ensures
        stream.wf_for(post),
{
    lemma_block_round_trip(pre, post, b);
    assert forall|x: u64| #[trigger] pre.has_block(x) implies post.find_block(x)
        == pre.find_block(x) by {
        assert(x != b.id.value);
    }
    lemma_ancestor_at_preserved(pre, post, stream.to_hash@, stream.to_depth as int);
    assert forall|i: int| 0 <= i < stream.pending_infos@.len() implies {
        let d = (#[trigger] stream.pending_infos@[i]).depth;
        &&& d <= stream.to_depth
        &&& (stream.cur_depth < stream.to_depth ==> stream.cur_depth < d)
        &&& stream.pending_infos@[i] == post.info_of(post.ancestor_at(stream.to_hash@, d as int))
    } by {
        let d = stream.pending_infos@[i].depth;
        lemma_ancestor_at_preserved(pre, post, stream.to_hash@, d as int);
        crate::ancestry::lemma_ancestor_at_props(pre, stream.to_hash@, d as int);
        lemma_ancestor_at_preserved(pre, post, pre.ancestor_at(stream.to_hash@, d as int), d as int);
    }
}

/// A traversal in progress survives a tag write made between two of its
/// production steps: tags and blocks live apart.
pub proof fn lemma_stream_survives_put_tag(
    stream: BlockStream,
    pre: NodeStorage,
    post: NodeStorage,
    name: Seq<char>,
    h: HeaderHash,
)
    requires
        stream.wf_for(pre),
        NodeStorage::put_tag_post(pre, post, name, h),
    ensures
        stream.wf_for(post),
{
    crate::store::lemma_wf_same_entries(pre, post);
    assert forall|x: u64| #[trigger] pre.has_block(x) implies post.find_block(x)
        == pre.find_block(x) by {
        assert(post.entries@ == pre.entries@);
    }
    lemma_ancestor_at_preserved(pre, post, stream.to_hash@, stream.to_depth as int);
    assert forall|i: int| 0 <= i < stream.pending_infos@.len() implies {
        let d = (#[trigger] stream.pending_infos@[i]).depth;
        &&& d <= stream.to_depth
        &&& (stream.cur_depth < stream.to_depth ==> stream.cur_depth < d)
        &&& stream.pending_infos@[i] == post.info_of(post.ancestor_at(stream.to_hash@, d as int))
    } by {
        let d = stream.pending_infos@[i].depth;
        lemma_ancestor_at_preserved(pre, post, stream.to_hash@, d as int);
        crate::ancestry::lemma_ancestor_at_props(pre, stream.to_hash@, d as int);
        lemma_ancestor_at_preserved(pre, post, pre.ancestor_at(stream.to_hash@, d as int), d as int);
    }
}

/// Exhaustive coverage: the chain segment of `t` above `lo` up to `hi`
/// holds one record per depth `lo + 1` through `hi`, in ascending
/// order — no gaps, no duplicates — and each record is the stored
/// ancestry record of the ancestor of `t` at that depth.
pub proof fn lemma_chain_seq_covers(s: NodeStorage, t: u64, lo: int, hi: int)
    requires
        s.wf(),
        s.has_block(t),
        0 <= lo <= hi <= s.depth_of(t),
    ensures
        s.chain_seq(t, lo, hi).len() == hi - lo,
        forall|k: int| 0 <= k < hi - lo ==> (#[trigger] s.chain_seq(t, lo, hi)[k]) == s.info_of(
            s.ancestor_at(t, lo + 1 + k),
        ),
        forall|k: int| 0 <= k < hi - lo ==> (#[trigger] s.chain_seq(t, lo, hi)[k]).depth == lo + 1
            + k,
        forall|k: int| 0 <= k < hi - lo ==> s.has_block(
            (#[trigger] s.chain_seq(t, lo, hi)[k]).id.value,
        ),
{
    assert forall|k: int| 0 <= k < hi - lo implies {
        &&& (#[trigger] s.chain_seq(t, lo, hi)[k]) == s.info_of(s.ancestor_at(t, lo + 1 + k))
        &&& s.chain_seq(t, lo, hi)[k].depth == lo + 1 + k
        &&& s.has_block(s.chain_seq(t, lo, hi)[k].id.value)
    } by {
        lemma_ancestor_at_props(s, t, lo + 1 + k);
        assert(s.has_block(s.ancestor_at(t, lo + 1 + k)));
    }
}

} // verus!
