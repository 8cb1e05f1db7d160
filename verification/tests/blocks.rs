use rand::Rng;

use streamlet::block::{Block, BlockId};
use streamlet::epoch::Epoch;
use streamlet::player::PlayerId;

fn new_id() -> BlockId {
    BlockId(rand::thread_rng().gen())
}

fn players(n: u64) -> Vec<PlayerId> {
    (0..n).map(|id| id.into()).collect::<Vec<PlayerId>>()
}

#[test]
fn block_is_notarized_returns_true_for_genesis() {
    assert!(Block::Genesis { id: new_id(), epoch: Epoch::genesis() }.is_notarized(&[]));
}

#[test]
fn block_is_notarized_returns_false_for_block_with_empty_votes() {
    let players = players(100);

    let genesis_epoch = Epoch::genesis();
    let genesis_block = Block::Genesis { id: new_id(), epoch: genesis_epoch };

    let child_block = Block::Child {
        id: new_id(),
        author: 0.into(),
        parent: genesis_block.get_id(),
        votes: vec![],
        epoch: genesis_epoch.consecutive(),
    };

    assert!(!child_block.is_notarized(players.as_slice()));
}

#[test]
fn block_with_two_thirds_is_notarized_returns_true() {
    let players = players(100);

    let genesis_epoch = Epoch::genesis();
    let genesis_block = Block::Genesis { id: new_id(), epoch: genesis_epoch };

    let child_block = Block::Child {
        id: new_id(),
        author: 0.into(),
        parent: genesis_block.get_id(),
        votes: players.iter().take(66).cloned().collect(),
        epoch: genesis_epoch.consecutive(),
    };

    assert!(child_block.is_notarized(players.as_slice()));
}

#[test]
fn block_with_one_vote_below_threshold_is_not_notarized() {
    let players = players(100);

    let child_block = Block::Child {
        id: new_id(),
        author: 0.into(),
        parent: new_id(),
        votes: players.iter().take(65).cloned().collect(),
        epoch: Epoch::from(1),
    };

    assert!(!child_block.is_notarized(players.as_slice()));
}

#[test]
fn genesis_is_notarized_even_against_many_players() {
    let players = players(100);
    assert!(Block::Genesis { id: new_id(), epoch: Epoch::genesis() }
        .is_notarized(players.as_slice()));
}

#[test]
fn threshold_rounds_down() {
    // With 5 players the threshold is floor(10 / 3) = 3, not 4.
    let players = players(5);

    let three_votes = Block::Child {
        id: new_id(),
        author: 0.into(),
        parent: new_id(),
        votes: players.iter().take(3).cloned().collect(),
        epoch: Epoch::from(1),
    };
    let two_votes = Block::Child {
        id: new_id(),
        author: 0.into(),
        parent: new_id(),
        votes: players.iter().take(2).cloned().collect(),
        epoch: Epoch::from(1),
    };

    assert!(three_votes.is_notarized(players.as_slice()));
    assert!(!two_votes.is_notarized(players.as_slice()));
}

#[test]
fn is_genesis_distinguishes_the_variants() {
    let g = Block::Genesis { id: new_id(), epoch: Epoch::genesis() };
    let c = Block::Child {
        id: new_id(),
        author: 0.into(),
        parent: g.get_id(),
        votes: vec![],
        epoch: Epoch::from(1),
    };
    assert!(g.is_genesis());
    assert!(!c.is_genesis());
}

#[test]
fn accessors_return_the_declared_fields() {
    let g = Block::Genesis { id: BlockId(9), epoch: Epoch::from(4) };
    let c = Block::Child {
        id: BlockId(10),
        author: 3.into(),
        parent: BlockId(9),
        votes: vec![],
        epoch: Epoch::from(5),
    };
    assert_eq!(BlockId(9), g.get_id());
    assert_eq!(Epoch::from(4), g.get_epoch());
    assert_eq!(BlockId(10), c.get_id());
    assert_eq!(Epoch::from(5), c.get_epoch());
}

#[test]
fn epoch_counts_from_zero_by_one() {
    assert_eq!(Epoch::genesis(), Epoch::from(0));
    assert_eq!(Epoch::genesis().consecutive(), Epoch::from(1));
    assert_eq!(Epoch::from(41).consecutive(), Epoch::from(42));
}
