//! The laws the pool's predicates obey, stated over the map a pool holds
//! and proved once for every pool.
use vstd::prelude::*;

use vstd::set_lib::lemma_len_subset;

use crate::block::Block;
use crate::pool::{
    chain_contains_rec, finalized_rec, notarized_chain_rec, pool_map_of, spec_chain_contains,
    spec_get_finalized, spec_notarized_chain,
};

verus! {

/// Chain conjunction: a child, even one that is itself notarized, rests on
/// a broken chain when the parent it links to lacks quorum, so the
/// notarized-chain predicate answers false for it.
pub proof fn lemma_notarized_chain_needs_parent_quorum(m: Map<u64, Block>, id: u64, n: nat)
    requires
        m.contains_key(id),
        m[id] is Child,
        m[id].spec_notarized(n),
        m.contains_key(m[id]->Child_parent.0),
        !m[m[id]->Child_parent.0].spec_notarized(n),
    ensures
        !spec_notarized_chain(m, id, n),
{
    let fuel = m.dom().len();
    if fuel > 0 {
        assert(!notarized_chain_rec(m, m[id]->Child_parent.0, n, (fuel - 1) as nat));
    }
}

/// Idempotence: re-inserting a block identical to the one already stored
/// under its identifier leaves the pool's map unchanged, so the answer of
/// every predicate over that map is unchanged too.
pub proof fn lemma_reinsert_identical_block(m: Map<u64, Block>, b: Block)
    requires
        m.contains_key(b.spec_id().0),
        m[b.spec_id().0] == b,
    ensures
        m.insert(b.spec_id().0, b) == m,
{
    assert(m.insert(b.spec_id().0, b) =~= m);
}

/// Within `s`, no two blocks share an identifier.
pub open spec fn distinct_ids(s: Seq<Block>) -> bool {
    forall|i: int, j: int| 0 <= i < j < s.len() ==> s[i].spec_id().0 != s[j].spec_id().0
}

/// What a pool built from `s` holds when the identifiers of `s` are
/// distinct: exactly the blocks of `s`, each under its own identifier.
pub proof fn lemma_pool_map_of_distinct(s: Seq<Block>)
    requires
        distinct_ids(s),
    ensures
        forall|k: u64| #[trigger] pool_map_of(s).contains_key(k) <==> exists|i: int|
            0 <= i < s.len() && (#[trigger] s[i]).spec_id().0 == k,
        forall|i: int| 0 <= i < s.len() ==> pool_map_of(s)[(#[trigger] s[i]).spec_id().0] == s[i],
    decreases s.len(),
{
    if s.len() > 0 {
        let s0 = s.drop_last();
        lemma_pool_map_of_distinct(s0);
        assert forall|i: int| 0 <= i < s.len() implies pool_map_of(s)[(#[trigger] s[i]).spec_id().0]
            == s[i] by {
            if i < s.len() - 1 {
                assert(s0[i] == s[i]);
                assert(s[i].spec_id().0 != s.last().spec_id().0);
            }
        }
        assert forall|k: u64| #[trigger] pool_map_of(s).contains_key(k) implies exists|i: int|
            0 <= i < s.len() && (#[trigger] s[i]).spec_id().0 == k by {
            if k == s.last().spec_id().0 {
                assert(s[s.len() - 1].spec_id().0 == k);
            } else {
                assert(pool_map_of(s0).contains_key(k));
                let i = choose|i: int| 0 <= i < s0.len() && (#[trigger] s0[i]).spec_id().0 == k;
                assert(s[i] == s0[i]);
                assert(s[i].spec_id().0 == k);
            }
        }
        assert forall|k: u64| (exists|i: int| 0 <= i < s.len() && (#[trigger] s[i]).spec_id().0
            == k) implies pool_map_of(s).contains_key(k) by {
            let i = choose|i: int| 0 <= i < s.len() && (#[trigger] s[i]).spec_id().0 == k;
            if i < s.len() - 1 {
                assert(s0[i].spec_id().0 == k);
            }
        }
    }
}

/// Order independence: pools built from the same blocks, with distinct
/// identifiers, hold the same map whatever the insertion order, so every
/// notarization and finalization answer agrees once insertion completes.
pub proof fn lemma_insertion_order_irrelevant(s1: Seq<Block>, s2: Seq<Block>)
    requires
        distinct_ids(s1),
        distinct_ids(s2),
        s1.to_multiset() == s2.to_multiset(),
    ensures
        pool_map_of(s1) == pool_map_of(s2),
{
    broadcast use vstd::seq_lib::group_to_multiset_ensures;

    lemma_pool_map_of_distinct(s1);
    lemma_pool_map_of_distinct(s2);
    assert forall|k: u64| pool_map_of(s1).contains_key(k)
        implies pool_map_of(s2).contains_key(k) && pool_map_of(s1)[k] == pool_map_of(s2)[k] by {
        let i = choose|i: int| 0 <= i < s1.len() && (#[trigger] s1[i]).spec_id().0 == k;
        assert(s1.contains(s1[i]));
        assert(s2.to_multiset().count(s1[i]) > 0);
        assert(s2.contains(s1[i]));
        let j = choose|j: int| 0 <= j < s2.len() && s2[j] == s1[i];
        assert(s2[j].spec_id().0 == k);
        assert(pool_map_of(s1)[k] == s1[i]);
        assert(pool_map_of(s2)[k] == s2[j]);
    }
    assert forall|k: u64| pool_map_of(s2).contains_key(k)
        implies pool_map_of(s1).contains_key(k) by {
        let j = choose|j: int| 0 <= j < s2.len() && (#[trigger] s2[j]).spec_id().0 == k;
        assert(s2.contains(s2[j]));
        assert(s1.to_multiset().count(s2[j]) > 0);
        assert(s1.contains(s2[j]));
        let i = choose|i: int| 0 <= i < s1.len() && s1[i] == s2[j];
        assert(s1[i].spec_id().0 == k);
    }
    assert(pool_map_of(s1) =~= pool_map_of(s2));
}

/// Every block in the map is stored under its own identifier; every pool
/// grown by `Pool::insert` satisfies this.
pub open spec fn keyed_by_id(m: Map<u64, Block>) -> bool {
    forall|k: u64| #[trigger] m.contains_key(k) ==> m[k].spec_id().0 == k
}

/// Growing a map the way `Pool::insert` grows it keeps every block under
/// its own identifier.
pub proof fn lemma_insert_preserves_keyed_by_id(m: Map<u64, Block>, b: Block)
    requires
        keyed_by_id(m),
    ensures
        keyed_by_id(m.insert(b.spec_id().0, b)),
{
}

/// A pool built from any block sequence keeps every block under its own
/// identifier, so `keyed_by_id` asks nothing beyond how pools are built.
pub proof fn lemma_pool_map_of_keyed_by_id(s: Seq<Block>)
    ensures
        keyed_by_id(pool_map_of(s)),
    decreases s.len(),
{
    if s.len() > 0 {
        lemma_pool_map_of_keyed_by_id(s.drop_last());
    }
}

/// Every child's parent is present in the map, with a strictly smaller
/// epoch: the expected shape of a tree whose proposals extend known blocks.
pub open spec fn parents_resolved(m: Map<u64, Block>) -> bool {
    forall|k: u64| #[trigger] m.contains_key(k) && m[k] is Child ==> {
        &&& m.contains_key(m[k]->Child_parent.0)
        &&& m[m[k]->Child_parent.0].spec_epoch().0 < m[k].spec_epoch().0
    }
}

/// The map holds at most one genesis block.
pub open spec fn unique_genesis(m: Map<u64, Block>) -> bool {
    forall|k1: u64, k2: u64|
        #![trigger m.contains_key(k1), m.contains_key(k2)]
        m.contains_key(k1) && m.contains_key(k2) && m[k1] is Genesis && m[k2] is Genesis ==> k1
            == k2
}

/// How a pool grown by the protocol looks after a proposal lands in the
/// epoch immediately after its parent's: from that epoch on, every block
/// descends from that proposal (or is that proposal). This is the local
/// trace that quorum voting leaves in an honestly grown tree.
pub open spec fn consecutive_step_dominates(m: Map<u64, Block>) -> bool {
    forall|c: u64, z: u64|
        #![trigger m.contains_key(c), m.contains_key(z)]
        ({
            &&& m.contains_key(c)
            &&& m[c] is Child
            &&& m.contains_key(m[c]->Child_parent.0)
            &&& m[m[c]->Child_parent.0].spec_epoch().0 + 1 == m[c].spec_epoch().0
            &&& m.contains_key(z)
            &&& m[z].spec_epoch().0 >= m[c].spec_epoch().0
        }) ==> spec_chain_contains(m, z, c)
}

/// Raising the fuel of the ancestor walk never turns a true answer false.
proof fn lemma_chain_contains_fuel_mono(
    m: Map<u64, Block>,
    head: u64,
    target: u64,
    fuel1: nat,
    fuel2: nat,
)
    requires
        fuel1 <= fuel2,
        chain_contains_rec(m, head, target, fuel1),
    ensures
        chain_contains_rec(m, head, target, fuel2),
    decreases fuel1,
{
    if head != target && m.contains_key(head) && m[head] is Child {
        let p = m[head]->Child_parent.0;
        if p != target {
            lemma_chain_contains_fuel_mono(m, p, target, (fuel1 - 1) as nat, (fuel2 - 1) as nat);
        }
    }
}

/// The keys whose block sits in an epoch strictly below that of the block
/// at `x`; walking parent links from `x` stays within this set.
spec fn keys_below(m: Map<u64, Block>, x: u64) -> Set<u64> {
    m.dom().filter(|k: u64| m[k].spec_epoch().0 < m[x].spec_epoch().0)
}

/// Parent links from any present block reach a genesis block within a walk
/// bounded by the number of strictly older blocks.
proof fn lemma_reaches_genesis_fueled(m: Map<u64, Block>, x: u64)
    requires
        m.dom().finite(),
        parents_resolved(m),
        m.contains_key(x),
    ensures
        exists|g: u64| m.contains_key(g) && m[g] is Genesis && chain_contains_rec(
            m,
            x,
            g,
            keys_below(m, x).len(),
        ),
    decreases m[x].spec_epoch().0,
{
    lemma_len_subset(keys_below(m, x), m.dom());
    if m[x] is Genesis {
        assert(m.contains_key(x) && m[x] is Genesis && chain_contains_rec(
            m,
            x,
            x,
            keys_below(m, x).len(),
        ));
    } else {
        let p = m[x]->Child_parent.0;
        lemma_reaches_genesis_fueled(m, p);
        let g = choose|g: u64| m.contains_key(g) && m[g] is Genesis && chain_contains_rec(
            m,
            p,
            g,
            keys_below(m, p).len(),
        );
        lemma_len_subset(keys_below(m, p), m.dom());
        assert(keys_below(m, p).insert(p).subset_of(keys_below(m, x)));
        lemma_len_subset(keys_below(m, p).insert(p), keys_below(m, x));
        assert(keys_below(m, p).insert(p).len() == keys_below(m, p).len() + 1);
        if x != g {
            lemma_chain_contains_fuel_mono(
                m,
                p,
                g,
                keys_below(m, p).len(),
                (keys_below(m, x).len() - 1) as nat,
            );
        }
        assert(m.contains_key(g) && m[g] is Genesis && chain_contains_rec(
            m,
            x,
            g,
            keys_below(m, x).len(),
        ));
    }
}

/// Parent links from any present block reach a genesis block.
proof fn lemma_reaches_genesis(m: Map<u64, Block>, x: u64)
    requires
        m.dom().finite(),
        parents_resolved(m),
        m.contains_key(x),
    ensures
        exists|g: u64| m.contains_key(g) && m[g] is Genesis && spec_chain_contains(m, x, g),
{
    lemma_reaches_genesis_fueled(m, x);
    let g = choose|g: u64| m.contains_key(g) && m[g] is Genesis && chain_contains_rec(
        m,
        x,
        g,
        keys_below(m, x).len(),
    );
    lemma_len_subset(keys_below(m, x), m.dom());
    lemma_chain_contains_fuel_mono(m, x, g, keys_below(m, x).len(), m.dom().len());
    assert(m.contains_key(g) && m[g] is Genesis && spec_chain_contains(m, x, g));
}

/// The walk behind `lemma_finalized_is_ancestor`: whatever the fueled
/// finalization walk answers lies on the chain of its starting block, and
/// an ancestor walk bounded by the number of strictly older blocks reaches
/// it.
proof fn lemma_finalized_is_ancestor_fueled(m: Map<u64, Block>, id: u64, n: nat, fuel: nat)
    requires
        m.dom().finite(),
        parents_resolved(m),
    ensures
        finalized_rec(m, id, n, fuel) matches Some(r) ==> chain_contains_rec(
            m,
            id,
            r.0,
            keys_below(m, id).len(),
        ),
    decreases fuel, 0nat,
{
    lemma_len_subset(keys_below(m, id), m.dom());
    if m.contains_key(id) && m[id] is Child {
        let parent = m[id]->Child_parent;
        let klen = keys_below(m, id).len();
        assert(keys_below(m, id).contains(parent.0));
        assert(keys_below(m, id).remove(parent.0).len() == klen - 1);
        if !m[id].spec_notarized(n) || !spec_notarized_chain(m, id, n) {
            if fuel > 0 {
                lemma_finalized_lift_through_parent(m, id, n, (fuel - 1) as nat);
            }
        } else if m.contains_key(parent.0) && m[parent.0] is Child {
            let grandparent = m[parent.0]->Child_parent;
            if m.contains_key(grandparent.0) {
                if m[grandparent.0] is Genesis {
                    // The verdict is the grandparent, two links up.
                    assert(chain_contains_rec(m, parent.0, grandparent.0, (klen - 1) as nat));
                } else if !(m[grandparent.0].spec_epoch().0 + 1 == m[parent.0].spec_epoch().0
                    && m[parent.0].spec_epoch().0 + 1 == m[id].spec_epoch().0) {
                    if fuel > 0 {
                        lemma_finalized_lift_through_parent(m, id, n, (fuel - 1) as nat);
                    }
                }
            }
        }
    }
}

/// Lifts the ancestor property one parent link up: when the finalization
/// walk at `id` delegates to `id`'s parent, whatever the parent's walk
/// answers also lies on the chain of `id`.
proof fn lemma_finalized_lift_through_parent(m: Map<u64, Block>, id: u64, n: nat, fuel: nat)
    requires
        m.dom().finite(),
        parents_resolved(m),
        m.contains_key(id),
        m[id] is Child,
    ensures
        finalized_rec(m, m[id]->Child_parent.0, n, fuel) matches Some(r) ==> chain_contains_rec(
            m,
            id,
            r.0,
            keys_below(m, id).len(),
        ),
    decreases fuel, 1nat,
{
    let parent = m[id]->Child_parent;
    lemma_finalized_is_ancestor_fueled(m, parent.0, n, fuel);
    if finalized_rec(m, parent.0, n, fuel) is Some {
        let r = finalized_rec(m, parent.0, n, fuel)->0;
        lemma_len_subset(keys_below(m, parent.0), m.dom());
        assert(keys_below(m, parent.0).insert(parent.0).subset_of(keys_below(m, id)));
        lemma_len_subset(keys_below(m, parent.0).insert(parent.0), keys_below(m, id));
        assert(keys_below(m, parent.0).insert(parent.0).len() == keys_below(m, parent.0).len()
            + 1);
        lemma_chain_contains_fuel_mono(
            m,
            parent.0,
            r.0,
            keys_below(m, parent.0).len(),
            (keys_below(m, id).len() - 1) as nat,
        );
    }
}

/// A finalization verdict never names a descendant or an unrelated block:
/// in a pool whose children all extend present, strictly older parents,
/// whatever `get_finalized` answers from the perspective of `id` lies on
/// the root-to-`id` path.
pub proof fn lemma_finalized_is_ancestor(m: Map<u64, Block>, id: u64, n: nat)
    requires
        m.dom().finite(),
        parents_resolved(m),
        spec_get_finalized(m, id, n) is Some,
    ensures
        spec_chain_contains(m, id, (spec_get_finalized(m, id, n)->0).0),
{
    lemma_finalized_is_ancestor_fueled(m, id, n, m.dom().len());
    lemma_len_subset(keys_below(m, id), m.dom());
    lemma_chain_contains_fuel_mono(
        m,
        id,
        (spec_get_finalized(m, id, n)->0).0,
        keys_below(m, id).len(),
        m.dom().len(),
    );
}

/// What a successful finalization verdict looks like: the returned
/// identifier is present and names either the genesis block or a child
/// sitting in the epoch immediately after its parent's.
proof fn lemma_finalized_shape(m: Map<u64, Block>, id: u64, n: nat, fuel: nat)
    requires
        keyed_by_id(m),
    ensures
        finalized_rec(m, id, n, fuel) matches Some(r) ==> {
            &&& m.contains_key(r.0)
            &&& (m[r.0] is Genesis || {
                &&& m[r.0] is Child
                &&& m.contains_key(m[r.0]->Child_parent.0)
                &&& m[m[r.0]->Child_parent.0].spec_epoch().0 + 1 == m[r.0].spec_epoch().0
            })
        },
    decreases fuel,
{
    if m.contains_key(id) && m[id] is Child {
        let parent = m[id]->Child_parent;
        if !m[id].spec_notarized(n) || !spec_notarized_chain(m, id, n) {
            if fuel > 0 {
                lemma_finalized_shape(m, parent.0, n, (fuel - 1) as nat);
            }
        } else if m.contains_key(parent.0) && m[parent.0] is Child {
            let grandparent = m[parent.0]->Child_parent;
            if m.contains_key(grandparent.0) && m[grandparent.0] is Child {
                let p_epoch = m[parent.0].spec_epoch().0;
                let gp_epoch = m[grandparent.0].spec_epoch().0;
                if !(gp_epoch + 1 == p_epoch && p_epoch + 1 == m[id].spec_epoch().0) {
                    if fuel > 0 {
                        lemma_finalized_shape(m, parent.0, n, (fuel - 1) as nat);
                    }
                }
            }
        }
    }
}

/// Core safety invariant: when finalization is resolved from two
/// perspectives and both yield a verdict, the verdict of greater epoch has
/// the other one on its own chain — two conflicting chains can never both
/// be finalized.
///
/// The hypotheses say that the pool is an honestly grown tree: every block
/// sits under its own identifier, every child extends a present, strictly
/// older parent, only one genesis anchors the tree, and whenever a proposal
/// lands in the epoch immediately after its parent's, all later blocks
/// build on it.
pub proof fn theorem_one_finalized_chain(m: Map<u64, Block>, n: nat, a: u64, b: u64)
    requires
        m.dom().finite(),
        keyed_by_id(m),
        parents_resolved(m),
        unique_genesis(m),
        consecutive_step_dominates(m),
        spec_get_finalized(m, a, n) is Some,
        spec_get_finalized(m, b, n) is Some,
        m[(spec_get_finalized(m, b, n)->0).0].spec_epoch().0 <= m[(spec_get_finalized(
            m,
            a,
            n,
        )->0).0].spec_epoch().0,
    ensures
        spec_chain_contains(m, (spec_get_finalized(m, a, n)->0).0, (spec_get_finalized(
            m,
            b,
            n,
        )->0).0),
{
    let ra = spec_get_finalized(m, a, n)->0;
    let rb = spec_get_finalized(m, b, n)->0;
    lemma_finalized_shape(m, a, n, m.dom().len());
    lemma_finalized_shape(m, b, n, m.dom().len());
    if m[rb.0] is Genesis {
        lemma_reaches_genesis(m, ra.0);
        let g = choose|g: u64| m.contains_key(g) && m[g] is Genesis && spec_chain_contains(
            m,
            ra.0,
            g,
        );
        assert(g == rb.0);
    } else {
        assert(m.contains_key(rb.0) && m.contains_key(ra.0));
        assert(spec_chain_contains(m, ra.0, rb.0));
    }
}

} // verus!

