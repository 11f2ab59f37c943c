use chain_engine::fork::{reversed, BlockArena, BlockEntry, ForkDecision, ForkError};

// Builds a trunk of `n` blocks from height 0, each of work 5, and returns
// the arena with the place of the last one.
fn trunk(n: usize) -> (BlockArena, usize) {
    let mut arena = BlockArena::new();
    let mut last = arena.insert(None, 0, 5).unwrap();
    for _ in 1..n {
        last = arena.insert(Some(last), 0, 5).unwrap();
    }
    (arena, last)
}

// From a trunk up to height 10, grows two branches whose tips score 100 and
// 105; returns (arena, fork, low tip, high tip).
fn two_branches(low_first: bool) -> (BlockArena, usize, usize, usize) {
    let (mut arena, fork) = trunk(11);
    let base = arena.get(fork).unwrap().score;
    assert_eq!(arena.get(fork).unwrap().height, 10);
    assert_eq!(base, 55);
    let (low, high);
    if low_first {
        low = arena.insert(Some(fork), 0, 100 - base).unwrap();
        high = arena.insert(Some(fork), 0, 105 - base).unwrap();
    } else {
        high = arena.insert(Some(fork), 0, 105 - base).unwrap();
        low = arena.insert(Some(fork), 0, 100 - base).unwrap();
    }
    (arena, fork, low, high)
}

#[test]
fn insert_links_blocks_to_their_parents() {
    let mut arena = BlockArena::new();
    assert_eq!(arena.len(), 0);
    let root = arena.insert(None, 7, 3).unwrap();
    let child = arena.insert(Some(root), 0, 4).unwrap();
    assert_eq!(root, 0);
    assert_eq!(child, 1);
    assert_eq!(arena.get(root), Some(BlockEntry { parent: None, height: 7, score: 3 }));
    assert_eq!(arena.get(child), Some(BlockEntry { parent: Some(0), height: 8, score: 7 }));
    assert_eq!(arena.get(2), None);
    assert_eq!(arena.len(), 2);
}

#[test]
fn insert_refuses_a_missing_parent_and_numbers_that_do_not_fit() {
    let mut arena = BlockArena::new();
    assert_eq!(arena.insert(Some(0), 0, 1), None);
    let root = arena.insert(None, u64::MAX, u128::MAX - 1).unwrap();
    assert_eq!(arena.insert(Some(root), 0, 0), None);
    let other = arena.insert(None, 0, u128::MAX - 1).unwrap();
    assert_eq!(arena.insert(Some(other), 0, 2), None);
    assert_eq!(arena.insert(Some(other), 0, 1), Some(2));
    assert_eq!(arena.len(), 3);
}

#[test]
fn fork_point_of_two_branches_is_where_they_part() {
    let (mut arena, fork, low, high) = two_branches(true);
    let higher = arena.insert(Some(high), 0, 1).unwrap();
    assert_eq!(arena.find_fork_point(low, high), Some(fork));
    assert_eq!(arena.find_fork_point(high, low), Some(fork));
    assert_eq!(arena.find_fork_point(low, higher), Some(fork));
    assert_eq!(arena.find_fork_point(higher, low), Some(fork));
}

#[test]
fn fork_point_on_one_branch_is_the_lower_block() {
    let (arena, tip) = trunk(6);
    assert_eq!(arena.find_fork_point(tip, 2), Some(2));
    assert_eq!(arena.find_fork_point(2, tip), Some(2));
    assert_eq!(arena.find_fork_point(tip, tip), Some(tip));
}

#[test]
fn fork_point_is_missing_between_unrelated_chains() {
    let (mut arena, tip) = trunk(4);
    let stray = arena.insert(None, 2, 500).unwrap();
    let stray_child = arena.insert(Some(stray), 0, 1).unwrap();
    assert_eq!(arena.find_fork_point(tip, stray_child), None);
    assert_eq!(arena.find_fork_point(tip, 99), None);
    assert!(arena.tip_change(99, tip).is_none());
    assert!(matches!(arena.resolve(tip, 99), Err(ForkError::ForkPointNotFound)));
    assert!(matches!(
        arena.resolve(tip, stray_child),
        Err(ForkError::ForkPointNotFound)
    ));
}

#[test]
fn heavier_branch_wins_whichever_came_first() {
    for low_first in [true, false] {
        let (arena, fork, low, high) = two_branches(low_first);
        assert_eq!(arena.get(low).unwrap().score, 100);
        assert_eq!(arena.get(high).unwrap().score, 105);
        match arena.resolve(low, high) {
            Ok(ForkDecision::Switch { fork_point, detach, attach }) => {
                assert_eq!(fork_point, fork);
                assert_eq!(detach, vec![low]);
                assert_eq!(attach, vec![high]);
            }
            other => panic!("expected a switch, got {:?}", other),
        }
        assert!(matches!(arena.resolve(high, low), Ok(ForkDecision::Keep)));
    }
}

#[test]
fn equal_scores_keep_the_first_seen_tip() {
    let (mut arena, fork) = trunk(11);
    let first = arena.insert(Some(fork), 0, 5).unwrap();
    let second = arena.insert(Some(fork), 0, 5).unwrap();
    assert!(matches!(arena.resolve(first, second), Ok(ForkDecision::Keep)));
    assert!(matches!(arena.resolve(second, first), Ok(ForkDecision::Keep)));
}

#[test]
fn switch_lists_the_old_branch_downwards_and_the_new_one_upwards() {
    let (mut arena, fork) = trunk(3);
    let a1 = arena.insert(Some(fork), 0, 10).unwrap();
    let a2 = arena.insert(Some(a1), 0, 10).unwrap();
    let b1 = arena.insert(Some(fork), 0, 10).unwrap();
    let b2 = arena.insert(Some(b1), 0, 10).unwrap();
    let b3 = arena.insert(Some(b2), 0, 10).unwrap();
    match arena.resolve(a2, b3) {
        Ok(ForkDecision::Switch { fork_point, detach, attach }) => {
            assert_eq!(fork_point, fork);
            assert_eq!(detach, vec![a2, a1]);
            assert_eq!(attach, vec![b1, b2, b3]);
        }
        other => panic!("expected a switch, got {:?}", other),
    }
    let back = arena.tip_change(b3, fork).unwrap();
    assert_eq!(back.fork_point, fork);
    assert_eq!(back.detached, vec![b3, b2, b1]);
    assert_eq!(back.attached, Vec::<usize>::new());
    let stay = arena.tip_change(b3, b3).unwrap();
    assert!(stay.detached.is_empty() && stay.attached.is_empty());
}

#[test]
fn reversed_turns_the_order_round() {
    assert_eq!(reversed(&vec![1, 2, 3]), vec![3, 2, 1]);
    assert_eq!(reversed(&Vec::new()), Vec::<usize>::new());
}
