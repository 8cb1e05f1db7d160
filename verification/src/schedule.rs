use vstd::prelude::*;

use crate::epoch::Epoch;
use crate::player::PlayerId;

verus! {

/// When it is which player's turn to be the leader. Time enters the core as
/// the plain wall-clock second a host measured; the host owns the clock.
/// Before the schedule's start, the elapsed time counts as zero.
#[derive(Copy, Clone, Debug, Eq, Hash, PartialEq, PartialOrd, Ord, Structural)]
pub struct Schedule {
    start: u64,
    num_players: u8,
}

impl Schedule {
    /// The second the schedule starts at.
    pub closed spec fn spec_start(&self) -> u64 {
        self.start
    }

    /// How many players rotate through the leader role.
    pub closed spec fn spec_num_players(&self) -> u8 {
        self.num_players
    }

    /// Seconds elapsed at second `time`, saturating to zero before the start.
    pub open spec fn spec_elapsed(&self, time: u64) -> u64 {
        if time >= self.spec_start() {
            (time - self.spec_start()) as u64
        } else {
            0
        }
    }

    /// The leader at second `time`: players take turns, one second each.
    pub open spec fn spec_leader(&self, time: u64) -> PlayerId {
        PlayerId((self.spec_elapsed(time) as nat % self.spec_num_players() as nat) as u64)
    }

    /// The epoch running at second `time`: one epoch per elapsed second.
    pub open spec fn spec_epoch(&self, time: u64) -> Epoch {
        Epoch(self.spec_elapsed(time))
    }

    /// A schedule starting at second `start` with `num_players` players.
    pub fn new(start: u64, num_players: u8) -> (s: Schedule)
        ensures
            s.spec_start() == start,
            s.spec_num_players() == num_players,
    {
        Schedule { start, num_players }
    }

    /// The player whose turn it is at second `time`.
    pub fn leader(&self, time: u64) -> (leader: PlayerId)
        requires
            self.spec_num_players() != 0,
        ensures
            leader == self.spec_leader(time),
    {
        let elapsed: u64 = if time >= self.start {
            time - self.start
        } else {
            0
        };
        PlayerId(elapsed % self.num_players as u64)
    }

    /// The epoch running at second `time`.
    pub fn epoch(&self, time: u64) -> (e: Epoch)
        ensures
            e == self.spec_epoch(time),
    {
        let elapsed: u64 = if time >= self.start {
            time - self.start
        } else {
            0
        };
        Epoch(elapsed)
    }
}

} // verus!
