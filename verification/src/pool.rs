use vstd::prelude::*;

use std::collections::HashMap;

use vstd::std_specs::iter::IteratorSpec;

use crate::block::{Block, BlockId};
use crate::epoch::Epoch;
use crate::player::PlayerId;

verus! {

broadcast use vstd::std_specs::hash::group_hash_axioms;

/// One step of the notarized-chain predicate over the map a pool holds.
/// `fuel` bounds how many parent links are followed, which keeps the
/// definition total even on a map whose parent links loop; a walk that runs
/// out of fuel answers false, the fail-closed default.
pub open spec fn notarized_chain_rec(m: Map<u64, Block>, id: u64, n: nat, fuel: nat) -> bool
    decreases fuel,
{
    if !m.contains_key(id) {
        false
    } else if !m[id].spec_notarized(n) {
        false
    } else {
        match m[id] {
            Block::Genesis { .. } => true,
            Block::Child { parent, .. } => fuel > 0 && notarized_chain_rec(
                m,
                parent.0,
                n,
                (fuel - 1) as nat,
            ),
        }
    }
}

/// Whether the block at `id` and its whole ancestry are notarized against
/// `n` declared players, terminating at genesis; any missing or unnotarized
/// ancestor makes it false. Fuel `m.dom().len()` is enough for every walk
/// that visits no block twice; a longer walk would be following a loop of
/// parent links and can never reach genesis anyway.
pub open spec fn spec_notarized_chain(m: Map<u64, Block>, id: u64, n: nat) -> bool {
    notarized_chain_rec(m, id, n, m.dom().len())
}

/// One step of the ancestor predicate: whether `target` is `head` itself or
/// is reached from `head` by parent links, following at most `fuel` of them.
pub open spec fn chain_contains_rec(m: Map<u64, Block>, head: u64, target: u64, fuel: nat) -> bool
    decreases fuel,
{
    if head == target {
        true
    } else if !m.contains_key(head) {
        false
    } else {
        match m[head] {
            Block::Genesis { id, .. } => id.0 == target,
            Block::Child { parent, .. } => parent.0 == target || (fuel > 0 && chain_contains_rec(
                m,
                parent.0,
                target,
                (fuel - 1) as nat,
            )),
        }
    }
}

/// Whether `target` lies on the root-to-`head` path: it equals `head` or is
/// reached from `head` by parent links through blocks present in the map. A
/// missing head or intermediate ancestor makes it false.
pub open spec fn spec_chain_contains(m: Map<u64, Block>, head: u64, target: u64) -> bool {
    chain_contains_rec(m, head, target, m.dom().len())
}

/// One step of finalization resolution from the perspective of the block at
/// `id`; `fuel` bounds how many times the walk may step to a parent.
pub open spec fn finalized_rec(m: Map<u64, Block>, id: u64, n: nat, fuel: nat) -> Option<BlockId>
    decreases fuel,
{
    if !m.contains_key(id) {
        None
    } else {
        match m[id] {
            Block::Genesis { id: gid, .. } => Some(gid),
            Block::Child { parent, epoch, .. } => {
                if !m[id].spec_notarized(n) || !spec_notarized_chain(m, id, n) {
                    // No new finality here: look from the parent instead.
                    if fuel > 0 {
                        finalized_rec(m, parent.0, n, (fuel - 1) as nat)
                    } else {
                        None
                    }
                } else if !m.contains_key(parent.0) {
                    None
                } else {
                    match m[parent.0] {
                        Block::Genesis { .. } => Some(parent),
                        Block::Child { parent: grandparent, epoch: parent_epoch, .. } => {
                            if !m.contains_key(grandparent.0) {
                                None
                            } else {
                                match m[grandparent.0] {
                                    Block::Genesis { .. } => Some(grandparent),
                                    Block::Child { epoch: grandparent_epoch, .. } => {
                                        if grandparent_epoch.0 + 1 == parent_epoch.0
                                            && parent_epoch.0 + 1 == epoch.0 {
                                            // Three notarized blocks in three
                                            // strictly consecutive epochs: the
                                            // middle one is finalized.
                                            Some(parent)
                                        } else if fuel > 0 {
                                            finalized_rec(m, parent.0, n, (fuel - 1) as nat)
                                        } else {
                                            None
                                        }
                                    },
                                }
                            }
                        },
                    }
                }
            },
        }
    }
}

/// The identifier of the youngest block finalized from the perspective of
/// the block at `id`, or nothing when `id` or a needed ancestor is absent.
pub open spec fn spec_get_finalized(m: Map<u64, Block>, id: u64, n: nat) -> Option<BlockId> {
    finalized_rec(m, id, n, m.dom().len())
}

/// The map a pool holds after inserting the blocks of `s` in order, each
/// under its own identifier; of two blocks with the same identifier the
/// later one wins.
pub open spec fn pool_map_of(s: Seq<Block>) -> Map<u64, Block>
    decreases s.len(),
{
    if s.len() == 0 {
        Map::empty()
    } else {
        pool_map_of(s.drop_last()).insert(s.last().spec_id().0, s.last())
    }
}

/// A pool of blocks indexed by identifier: a forked tree held as a flat map,
/// with parent links as lookup keys rather than references.
#[derive(Clone, Debug)]
pub struct Pool {
    blocks: HashMap<u64, Block>,
}

impl View for Pool {
    type V = Map<u64, Block>;

    closed spec fn view(&self) -> Map<u64, Block> {
        self.blocks@
    }
}

impl Pool {
    /// An empty pool.
    pub fn new() -> (p: Pool)
        ensures
            p@ == Map::<u64, Block>::empty(),
    {
        Pool { blocks: HashMap::new() }
    }

    /// Stores `block` under its own identifier, overwriting whatever block
    /// was stored there before; no validation of parent existence,
    /// authorship or vote authenticity happens here.
    pub fn insert(&mut self, block: Block)
        ensures
            final(self)@ == old(self)@.insert(block.spec_id().0, block),
    {
        let id = block.get_id();
        self.blocks.insert(id.0, block);
    }

    /// The block stored under `block_id`, if any.
    pub fn get(&self, block_id: &BlockId) -> (r: Option<&Block>)
        ensures
            match r {
                Some(b) => self@.contains_key(block_id.0) && *b == self@[block_id.0],
                None => !self@.contains_key(block_id.0),
            },
    {
        self.blocks.get(&block_id.0)
    }

    /// The epoch of the block stored under `block_id`, if any.
    pub fn get_epoch(&self, block_id: &BlockId) -> (r: Option<Epoch>)
        ensures
            match r {
                Some(e) => self@.contains_key(block_id.0) && e == self@[block_id.0].spec_epoch(),
                None => !self@.contains_key(block_id.0),
            },
    {
        match self.get(block_id) {
            None => None,
            Some(b) => Some(b.get_epoch()),
        }
    }

    /// The fueled walk behind `is_notarized_chain`.
    fn notarized_chain_from(&self, id: u64, players: &[PlayerId], fuel: usize) -> (r: bool)
        ensures
            r == notarized_chain_rec(self@, id, players@.len(), fuel as nat),
        decreases fuel,
    {
        let block = match self.blocks.get(&id) {
            None => {
                return false;
            },
            Some(b) => b,
        };
        if !block.is_notarized(players) {
            return false;
        }
        match block {
            Block::Genesis { .. } => true,
            Block::Child { parent, .. } => {
                fuel > 0 && self.notarized_chain_from(parent.0, players, fuel - 1)
            },
        }
    }

    /// Whether the block at `block_id` and its whole ancestry down to
    /// genesis are notarized against `players`. A block can be individually
    /// notarized while resting on a broken chain; this predicate then
    /// answers false.
    pub fn is_notarized_chain(&self, block_id: &BlockId, players: &[PlayerId]) -> (r: bool)
        ensures
            r == spec_notarized_chain(self@, block_id.0, players@.len()),
    {
        let fuel: usize = self.blocks.len();
        self.notarized_chain_from(block_id.0, players, fuel)
    }

    /// The fueled walk behind `chain_contains`.
    fn chain_contains_from(&self, head: u64, target: u64, fuel: usize) -> (r: bool)
        ensures
            r == chain_contains_rec(self@, head, target, fuel as nat),
        decreases fuel,
    {
        if head == target {
            return true;
        }
        match self.blocks.get(&head) {
            None => false,
            Some(Block::Genesis { id, .. }) => id.0 == target,
            Some(Block::Child { parent, .. }) => {
                parent.0 == target || (fuel > 0 && self.chain_contains_from(
                    parent.0,
                    target,
                    fuel - 1,
                ))
            },
        }
    }

    /// Whether `block` lies on the root-to-`head` path of the tree: it is
    /// `head` itself or an ancestor of it, genesis included. A missing head
    /// or intermediate ancestor yields false.
    pub fn chain_contains(&self, head: &BlockId, block: &BlockId) -> (r: bool)
        ensures
            r == spec_chain_contains(self@, head.0, block.0),
    {
        let fuel: usize = self.blocks.len();
        self.chain_contains_from(head.0, block.0, fuel)
    }

    /// The fueled walk behind `get_finalized`.
    fn finalized_from(&self, id: u64, players: &[PlayerId], fuel: usize) -> (r: Option<BlockId>)
        ensures
            r == finalized_rec(self@, id, players@.len(), fuel as nat),
        decreases fuel,
    {
        let block = match self.blocks.get(&id) {
            None => {
                return None;
            },
            Some(b) => b,
        };
        let is_notarized = block.is_notarized(players);
        match block {
            Block::Genesis { id: gid, .. } => Some(*gid),
            Block::Child { parent, epoch, .. } => {
                if !is_notarized || !self.is_notarized_chain(&BlockId(id), players) {
                    // No new finality here: look from the parent instead.
                    if fuel > 0 {
                        return self.finalized_from(parent.0, players, fuel - 1);
                    }
                    return None;
                }
                let (grandparent, parent_epoch) = match self.blocks.get(&parent.0) {
                    None => {
                        return None;
                    },
                    Some(Block::Genesis { .. }) => {
                        return Some(*parent);
                    },
                    Some(Block::Child { parent: gp, epoch: pe, .. }) => (*gp, *pe),
                };
                let grandparent_epoch = match self.blocks.get(&grandparent.0) {
                    None => {
                        return None;
                    },
                    Some(Block::Genesis { .. }) => {
                        return Some(grandparent);
                    },
                    Some(Block::Child { epoch: gpe, .. }) => *gpe,
                };
                // An epoch at the numeric ceiling has no consecutive
                // successor, so the guards lose nothing.
                if grandparent_epoch.0 < u64::MAX && grandparent_epoch.0 + 1 == parent_epoch.0
                    && parent_epoch.0 < u64::MAX && parent_epoch.0 + 1 == epoch.0 {
                    // Three notarized blocks in three strictly consecutive
                    // epochs: the middle one is finalized.
                    return Some(*parent);
                }
                if fuel > 0 {
                    return self.finalized_from(parent.0, players, fuel - 1);
                }
                None
            },
        }
    }

    /// The identifier of the youngest block finalized from the perspective
    /// of the block at `block_id`, or nothing when `block_id` or a needed
    /// ancestor is absent. Genesis is finalized from its own perspective.
    /// Blocks younger than `block_id` are not explored.
    pub fn get_finalized(&self, block_id: &BlockId, players: &[PlayerId]) -> (r: Option<BlockId>)
        ensures
            r == spec_get_finalized(self@, block_id.0, players@.len()),
            self@.contains_key(block_id.0) && self@[block_id.0] is Genesis ==> r == Some(
                self@[block_id.0].spec_id(),
            ),
    {
        let fuel: usize = self.blocks.len();
        self.finalized_from(block_id.0, players, fuel)
    }

    /// The identifiers of all blocks in the pool, in unspecified order;
    /// callers must not depend on the order.
    pub fn iter_blocks(&self) -> (ids: Vec<BlockId>)
        ensures
            ids@.len() == self@.dom().len(),
            forall|i: int| 0 <= i < ids@.len() ==> self@.contains_key(#[trigger] ids@[i].0),
            forall|k: u64| #[trigger] self@.contains_key(k) ==> exists|i: int|
                0 <= i < ids@.len() && ids@[i].0 == k,
            forall|i: int, j: int| 0 <= i < j < ids@.len() ==> ids@[i] != ids@[j],
    {
        let mut ids: Vec<BlockId> = Vec::new();
        for kv in it: self.blocks.iter()
            invariant
                ids@.len() == it.index(),
                it.seq() == vstd::std_specs::hash::spec_hash_map_iter(&self.blocks).remaining(),
                forall|i: int| 0 <= i < ids@.len() ==> ids@[i].0 == *(#[trigger] it.seq()[i]).0,
        {
            ids.push(BlockId(*kv.0));
        }
        proof {
            let v = vstd::std_specs::hash::spec_hash_map_iter(&self.blocks).remaining();
            assert forall|i: int| 0 <= i < ids@.len() implies self@.contains_key(ids@[i].0) by {
                assert(self.blocks@.contains_key(*v[i].0));
            }
            assert forall|i: int, j: int| 0 <= i < j < ids@.len() implies ids@[i] != ids@[j] by {
                if *v[i].0 == *v[j].0 {
                    assert(self.blocks@.contains_key(*v[i].0) && self.blocks@[*v[i].0]
                        == *v[i].1);
                    assert(self.blocks@.contains_key(*v[j].0) && self.blocks@[*v[j].0]
                        == *v[j].1);
                    assert(v[i] == v[j]);
                }
            }
        }
        ids
    }

    /// A pool holding every block of `blocks`, inserted in order; of two
    /// blocks with the same identifier the later one wins.
    pub fn from_iter(blocks: Vec<Block>) -> (p: Pool)
        ensures
            p@ == pool_map_of(blocks@),
    {
        let ghost all = blocks@;
        let mut p = Pool::new();
        for block in it: blocks.into_iter()
            invariant
                it.seq() == all,
                p@ == pool_map_of(all.take(it.index())),
        {
            p.insert(block);
            proof {
                assert(all.take(it.index() + 1).drop_last() =~= all.take(it.index()));
            }
        }
        proof {
            assert(all.take(all.len() as int) =~= all);
        }
        p
    }
}

} // verus!
