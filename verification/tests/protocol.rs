use streamlet::block::BlockId;
use streamlet::epoch::Epoch;
use streamlet::player::{Incoming, Player, PlayerId};
use streamlet::schedule::Schedule;
use streamlet::vote::Vote;

#[test]
fn leader_rotates_through_the_players() {
    let s = Schedule::new(10, 4);
    assert_eq!(PlayerId::from(0), s.leader(10));
    assert_eq!(PlayerId::from(1), s.leader(11));
    assert_eq!(PlayerId::from(3), s.leader(13));
    assert_eq!(PlayerId::from(0), s.leader(14));
    // Before the start, elapsed time saturates to zero.
    assert_eq!(PlayerId::from(0), s.leader(3));
}

#[test]
fn epoch_advances_once_per_second() {
    let s = Schedule::new(10, 4);
    assert_eq!(Epoch::from(0), s.epoch(10));
    assert_eq!(Epoch::from(5), s.epoch(15));
    assert_eq!(Epoch::from(0), s.epoch(2));
}

#[test]
fn player_step_sends_nothing() {
    let s = Schedule::new(0, 3);
    let mut p = Player::new(PlayerId::from(1), s);
    assert!(p.is_leader(1));
    assert!(!p.is_leader(0));
    let out = p.next(1, Vec::<Incoming>::new());
    assert!(out.is_empty());
}

#[test]
fn a_vote_binds_an_author_to_a_block() {
    let v = Vote { author: PlayerId::from(7), block: BlockId(9) };
    assert_eq!(PlayerId::from(7), v.author);
    assert_eq!(BlockId(9), v.block);
}
