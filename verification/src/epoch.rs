use vstd::prelude::*;

verus! {

/// A discrete protocol round index; each epoch offers one proposal
/// opportunity. Rounds are totally ordered and counted from zero.
#[derive(Copy, Clone, Debug, Eq, Hash, PartialEq, PartialOrd, Ord, Structural)]
pub struct Epoch(pub u64);

impl Epoch {
    /// The round of the genesis block.
    pub fn genesis() -> (e: Epoch)
        ensures
            e.0 == 0,
    {
        Epoch(0)
    }

    /// The round immediately following this one.
    pub fn consecutive(&self) -> (e: Epoch)
        requires
            self.0 < u64::MAX,
        ensures
            e.0 == self.0 + 1,
    {
        Epoch(self.0 + 1)
    }
}

impl From<u64> for Epoch {
    fn from(e: u64) -> (r: Epoch)
        ensures
            r.0 == e,
    {
        Epoch(e)
    }
}

impl vstd::std_specs::convert::FromSpecImpl<u64> for Epoch {
    open spec fn obeys_from_spec() -> bool {
        true
    }

    open spec fn from_spec(e: u64) -> Epoch {
        Epoch(e)
    }
}

} // verus!
