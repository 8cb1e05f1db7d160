use vstd::prelude::*;

use crate::block::BlockId;
use crate::player::PlayerId;

verus! {

/// A single vote: `author` endorses the block identified by `block`.
#[derive(Copy, Clone, Debug, Eq, Hash, PartialEq, Structural)]
pub struct Vote {
    pub author: PlayerId,
    pub block: BlockId,
}

} // verus!
