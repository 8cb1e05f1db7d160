use vstd::prelude::*;

use crate::block::Block;
use crate::pool::Pool;
use crate::schedule::Schedule;

verus! {

/// Identity of a protocol participant; assigned outside the core.
#[derive(Copy, Clone, Debug, Eq, Hash, PartialEq, PartialOrd, Ord, Structural)]
pub struct PlayerId(pub u64);

impl From<u64> for PlayerId {
    fn from(id: u64) -> (r: PlayerId)
        ensures
            r.0 == id,
    {
        PlayerId(id)
    }
}

impl vstd::std_specs::convert::FromSpecImpl<u64> for PlayerId {
    open spec fn obeys_from_spec() -> bool {
        true
    }

    open spec fn from_spec(id: u64) -> PlayerId {
        PlayerId(id)
    }
}

/// Messages sent to a player. The protocol step defined here reads no
/// message content, so the one variant carries nothing.
pub enum Incoming {
    Empty,
}

/// Messages sent by a player. The protocol step defined here sends no
/// message, so the one variant carries nothing.
pub enum Outgoing {
    Empty,
}

/// One protocol participant: its identity, its local pool of blocks, and the
/// leader schedule it follows.
pub struct Player {
    id: PlayerId,
    pool: Pool,
    schedule: Schedule,
}

impl Player {
    /// This player's identity.
    pub closed spec fn spec_id(&self) -> PlayerId {
        self.id
    }

    /// The schedule this player follows.
    pub closed spec fn spec_schedule(&self) -> Schedule {
        self.schedule
    }

    /// This player's local view of the block tree.
    pub closed spec fn spec_pool(&self) -> Map<u64, Block> {
        self.pool@
    }

    /// A player that has seen no blocks yet.
    pub fn new(id: PlayerId, schedule: Schedule) -> (p: Player)
        ensures
            p.spec_id() == id,
            p.spec_schedule() == schedule,
            p.spec_pool() == Map::<u64, Block>::empty(),
    {
        Player { id, pool: Pool::new(), schedule }
    }

    /// Whether this player leads at second `now`. The host loop asks this to
    /// report leadership before stepping the player.
    pub fn is_leader(&self, now: u64) -> (r: bool)
        requires
            self.spec_schedule().spec_num_players() != 0,
        ensures
            r == (self.spec_schedule().spec_leader(now) == self.spec_id()),
    {
        let leader = self.schedule.leader(now);
        leader.0 == self.id.0
    }

    /// One step of the player at second `now`: consume the messages that
    /// arrived and produce the messages to send. No message kind exists yet,
    /// so the step changes nothing and sends nothing.
    pub fn next(&mut self, now: u64, incoming_msgs: Vec<Incoming>) -> (out: Vec<Outgoing>)
        ensures
            *final(self) == *old(self),
            out@.len() == 0,
    {
        let _ = incoming_msgs;
        let _ = now;
        Vec::new()
    }
}

} // verus!
