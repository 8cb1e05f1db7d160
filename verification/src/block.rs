use vstd::prelude::*;

use crate::epoch::Epoch;
use crate::player::PlayerId;

verus! {

/// Identity of a block, unique per tree; assigned outside the core, for
/// example as a content hash.
#[derive(Copy, Clone, Debug, Eq, Hash, PartialEq, PartialOrd, Ord, Structural)]
pub struct BlockId(pub u64);

/// Number of votes a child block needs to be notarized when `n` players are
/// declared: two thirds of `n`, rounded down. With 100 players the threshold
/// is exactly 66.
pub open spec fn quorum(n: nat) -> nat {
    n * 2 / 3
}

/// A block of the tree: either the trust anchor, or a child proposed by one
/// author for one epoch, linking to its parent and carrying the votes cast
/// for it. Votes are not deduplicated here; the collaborator that collects
/// them must guarantee one vote per author.
#[derive(Clone, Debug)]
pub enum Block {
    Genesis { id: BlockId, epoch: Epoch },
    Child { id: BlockId, author: PlayerId, parent: BlockId, votes: Vec<PlayerId>, epoch: Epoch },
}

impl Block {
    /// The identity of this block.
    pub open spec fn spec_id(&self) -> BlockId {
        match self {
            Block::Genesis { id, .. } => *id,
            Block::Child { id, .. } => *id,
        }
    }

    /// The epoch this block was proposed for.
    pub open spec fn spec_epoch(&self) -> Epoch {
        match self {
            Block::Genesis { epoch, .. } => *epoch,
            Block::Child { epoch, .. } => *epoch,
        }
    }

    /// Whether this block is endorsed by a quorum of `n` declared players:
    /// genesis needs no votes; a child needs at least `quorum(n)` of them.
    pub open spec fn spec_notarized(&self, n: nat) -> bool {
        match self {
            Block::Genesis { .. } => true,
            Block::Child { votes, .. } => votes@.len() >= quorum(n),
        }
    }

    /// Whether a quorum of the declared participant set endorses this block.
    /// Genesis is notarized unconditionally, against any participant set.
    pub fn is_notarized(&self, players: &[PlayerId]) -> (r: bool)
        ensures
            r == self.spec_notarized(players@.len()),
            self is Genesis ==> r,
    {
        match self {
            Block::Genesis { .. } => true,
            Block::Child { votes, .. } => {
                votes.len() as u128 >= players.len() as u128 * 2 / 3
            },
        }
    }

    /// Whether this block is the trust anchor.
    pub fn is_genesis(&self) -> (r: bool)
        ensures
            r == (self is Genesis),
    {
        match self {
            Block::Genesis { .. } => true,
            Block::Child { .. } => false,
        }
    }

    /// The identity of this block.
    pub fn get_id(&self) -> (id: BlockId)
        ensures
            id == self.spec_id(),
    {
        match self {
            Block::Genesis { id, .. } => *id,
            Block::Child { id, .. } => *id,
        }
    }

    /// The epoch this block was proposed for.
    pub fn get_epoch(&self) -> (e: Epoch)
        ensures
            e == self.spec_epoch(),
    {
        match self {
            Block::Genesis { epoch, .. } => *epoch,
            Block::Child { epoch, .. } => *epoch,
        }
    }
}

} // verus!
