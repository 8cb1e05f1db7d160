use rand::Rng;

use streamlet::block::{Block, BlockId};
use streamlet::epoch::Epoch;
use streamlet::player::PlayerId;
use streamlet::pool::Pool;

fn new_id() -> BlockId {
    BlockId(rand::thread_rng().gen())
}

fn players_100() -> Vec<PlayerId> {
    (0..100).map(|id| id.into()).collect::<Vec<PlayerId>>()
}

fn votes(players: &[PlayerId], n: usize) -> Vec<PlayerId> {
    players.iter().take(n).cloned().collect()
}

#[test]
fn is_notarized_chain_all_blocks_notarized() {
    let players = players_100();

    let genesis_epoch = Epoch::genesis();
    let genesis_block = Block::Genesis { id: new_id(), epoch: genesis_epoch };

    let first_child = Block::Child {
        id: new_id(),
        author: 0.into(),
        parent: genesis_block.get_id(),
        votes: votes(&players, 66),
        epoch: genesis_epoch.consecutive(),
    };

    let second_child_id = new_id();
    let second_child = Block::Child {
        id: second_child_id,
        author: 0.into(),
        parent: first_child.get_id(),
        votes: votes(&players, 66),
        epoch: genesis_epoch.consecutive(),
    };

    let p = Pool::from_iter(vec![genesis_block, first_child, second_child]);

    assert!(p.is_notarized_chain(&second_child_id, players.as_slice()));
}

#[test]
fn is_notarized_chain_one_block_not_notarized() {
    let players = players_100();

    let genesis_epoch = Epoch::genesis();
    let genesis_block = Block::Genesis { id: new_id(), epoch: genesis_epoch };

    let first_child = Block::Child {
        id: new_id(),
        author: 0.into(),
        parent: genesis_block.get_id(),
        votes: votes(&players, 66),
        epoch: genesis_epoch.consecutive(),
    };

    // Not notarized.
    let second_child = Block::Child {
        id: new_id(),
        author: 0.into(),
        parent: first_child.get_id(),
        votes: votes(&players, 60),
        epoch: genesis_epoch.consecutive(),
    };

    let third_child_id = new_id();
    let third_child = Block::Child {
        id: third_child_id,
        author: 0.into(),
        parent: second_child.get_id(),
        votes: votes(&players, 66),
        epoch: genesis_epoch.consecutive(),
    };

    let p = Pool::from_iter(vec![genesis_block, first_child, second_child, third_child]);

    assert!(!p.is_notarized_chain(&third_child_id, players.as_slice()));
}

#[test]
fn is_notarized_chain_fails_closed_on_missing_ancestor() {
    let players = players_100();

    // The parent of this notarized child is nowhere in the pool.
    let orphan_id = new_id();
    let orphan = Block::Child {
        id: orphan_id,
        author: 0.into(),
        parent: new_id(),
        votes: votes(&players, 66),
        epoch: Epoch::from(1),
    };

    let p = Pool::from_iter(vec![orphan]);

    assert!(!p.is_notarized_chain(&orphan_id, players.as_slice()));
    assert!(!p.is_notarized_chain(&new_id(), players.as_slice()));
}

#[test]
fn paper_figure_1() {
    let players = players_100();

    let block_0 = Block::Genesis { id: BlockId(0), epoch: Epoch::genesis() };

    let block_1 = Block::Child {
        id: BlockId(1),
        author: 0.into(),
        parent: block_0.get_id(),
        votes: votes(&players, 66),
        epoch: Epoch::from(1),
    };

    let block_2 = Block::Child {
        id: BlockId(2),
        author: 0.into(),
        parent: block_0.get_id(),
        votes: votes(&players, 66),
        epoch: Epoch::from(2),
    };

    let block_3 = Block::Child {
        id: BlockId(3),
        author: 0.into(),
        parent: block_1.get_id(),
        votes: votes(&players, 66),
        epoch: Epoch::from(3),
    };

    let block_4 = Block::Child {
        id: BlockId(4),
        author: 0.into(),
        parent: block_3.get_id(),
        votes: votes(&players, 66),
        epoch: Epoch::from(4),
    };

    let block_5 = Block::Child {
        id: BlockId(5),
        author: 0.into(),
        parent: block_2.get_id(),
        votes: votes(&players, 66),
        epoch: Epoch::from(5),
    };

    let block_6 = Block::Child {
        id: BlockId(6),
        author: 0.into(),
        parent: block_5.get_id(),
        votes: votes(&players, 66),
        epoch: Epoch::from(6),
    };

    let block_7 = Block::Child {
        id: BlockId(7),
        author: 0.into(),
        parent: block_6.get_id(),
        votes: votes(&players, 66),
        epoch: Epoch::from(7),
    };

    let p = Pool::from_iter(vec![
        block_0.clone(),
        block_1.clone(),
        block_2.clone(),
        block_3.clone(),
        block_4.clone(),
        block_5.clone(),
        block_6.clone(),
        block_7.clone(),
    ]);

    // Genesis is finalized.
    assert_eq!(Some(block_0.get_id()), p.get_finalized(&block_0.get_id(), &players));

    // Block 1 is not finalized.
    assert_eq!(Some(block_0.get_id()), p.get_finalized(&block_1.get_id(), &players));

    // Block 2 is not finalized from the perspective of itself.
    assert_eq!(Some(block_0.get_id()), p.get_finalized(&block_2.get_id(), &players));

    // Block 3 is not finalized.
    assert_eq!(Some(block_0.get_id()), p.get_finalized(&block_3.get_id(), &players));

    // Block 4 is not finalized.
    assert_eq!(Some(block_0.get_id()), p.get_finalized(&block_4.get_id(), &players));

    // Block 5 is not finalized from the perspective of itself.
    assert_eq!(Some(block_0.get_id()), p.get_finalized(&block_5.get_id(), &players));

    // Block 6 is not finalized from the perspective of itself.
    assert_eq!(Some(block_0.get_id()), p.get_finalized(&block_6.get_id(), &players));

    // Block 7 is not finalized, but block 6 is from the perspective of block 7.
    assert_eq!(Some(block_6.get_id()), p.get_finalized(&block_7.get_id(), &players));
}

#[test]
fn get_finalized_of_genesis_is_genesis() {
    let players = players_100();
    let g = Block::Genesis { id: BlockId(5), epoch: Epoch::genesis() };
    let mut p = Pool::new();
    p.insert(g.clone());
    assert_eq!(Some(BlockId(5)), p.get_finalized(&BlockId(5), &players));
    // Even against an empty participant set.
    assert_eq!(Some(BlockId(5)), p.get_finalized(&BlockId(5), &[]));
}

#[test]
fn queries_on_absent_ids_answer_not_found() {
    let players = players_100();
    let p = Pool::new();
    assert!(p.get(&BlockId(3)).is_none());
    assert!(p.get_epoch(&BlockId(3)).is_none());
    assert!(p.get_finalized(&BlockId(3), &players).is_none());
    assert!(!p.is_notarized_chain(&BlockId(3), &players));
    // A block trivially lies on its own chain, even before it is known ...
    assert!(p.chain_contains(&BlockId(3), &BlockId(3)));
    // ... but an absent head reaches nothing else.
    assert!(!p.chain_contains(&BlockId(3), &BlockId(4)));
}

#[test]
fn get_and_get_epoch_return_the_stored_block() {
    let g = Block::Genesis { id: BlockId(1), epoch: Epoch::from(0) };
    let c = Block::Child {
        id: BlockId(2),
        author: 0.into(),
        parent: BlockId(1),
        votes: vec![],
        epoch: Epoch::from(9),
    };
    let p = Pool::from_iter(vec![g, c]);
    assert_eq!(Some(Epoch::from(0)), p.get_epoch(&BlockId(1)));
    assert_eq!(Some(Epoch::from(9)), p.get_epoch(&BlockId(2)));
    assert_eq!(Some(BlockId(2)), p.get(&BlockId(2)).map(|b| b.get_id()));
}

#[test]
fn chain_contains_walks_to_the_root() {
    let players = players_100();
    let g = Block::Genesis { id: BlockId(0), epoch: Epoch::genesis() };
    let c1 = Block::Child {
        id: BlockId(1),
        author: 0.into(),
        parent: BlockId(0),
        votes: votes(&players, 66),
        epoch: Epoch::from(1),
    };
    let c2 = Block::Child {
        id: BlockId(2),
        author: 0.into(),
        parent: BlockId(1),
        votes: votes(&players, 66),
        epoch: Epoch::from(2),
    };
    let side = Block::Child {
        id: BlockId(3),
        author: 0.into(),
        parent: BlockId(0),
        votes: votes(&players, 66),
        epoch: Epoch::from(3),
    };
    let p = Pool::from_iter(vec![g, c1, c2, side]);

    assert!(p.chain_contains(&BlockId(2), &BlockId(2)));
    assert!(p.chain_contains(&BlockId(2), &BlockId(1)));
    assert!(p.chain_contains(&BlockId(2), &BlockId(0)));
    assert!(!p.chain_contains(&BlockId(2), &BlockId(3)));
    assert!(!p.chain_contains(&BlockId(1), &BlockId(2)));
}

#[test]
fn iter_blocks_yields_every_known_id_once() {
    let g = Block::Genesis { id: BlockId(0), epoch: Epoch::genesis() };
    let c1 = Block::Child {
        id: BlockId(1),
        author: 0.into(),
        parent: BlockId(0),
        votes: vec![],
        epoch: Epoch::from(1),
    };
    let p = Pool::from_iter(vec![g, c1]);
    let mut ids = p.iter_blocks();
    ids.sort();
    assert_eq!(vec![BlockId(0), BlockId(1)], ids);
    assert!(Pool::new().iter_blocks().is_empty());
}
