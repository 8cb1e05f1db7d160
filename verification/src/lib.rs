//! Safety core of an epoch-based, Streamlet-style blockchain consensus
//! protocol: a pool of blocks forming a forked tree, the quorum rule for
//! notarization, the notarized-chain predicate, and the three-consecutive-epoch
//! finalization rule, together with proofs of the laws they obey.
pub mod block;
pub mod epoch;
pub mod player;
pub mod pool;
pub mod safety;
pub mod schedule;
pub mod vote;
