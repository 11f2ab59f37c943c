use chain_engine::cells::{BlockCells, CellError, CellStatus, Input};
use chain_engine::chain::{
    AcceptanceStatus, Block, ChainService, ChainTipSnapshot, RejectionReason,
};

fn cells(inputs: &[u64], outputs: &[u64]) -> BlockCells {
    BlockCells {
        inputs: inputs.iter().map(|c| Input { cell: *c, since: 0 }).collect(),
        deps: Vec::new(), outputs: outputs.to_vec(),
    }
}

fn submit(
    service: &mut ChainService,
    parent: Option<usize>,
    root_height: u64,
    work: u128,
    cells: BlockCells,
) -> Result<AcceptanceStatus, RejectionReason> {
    service.submit_block(Block { parent, root_height, work, cells })
}

fn statuses(service: &ChainService, upto: u64) -> Vec<CellStatus> {
    (0..upto).map(|c| service.get_cell(c)).collect()
}

// A service whose only block, at height 0, creates the cells 1, 2 and 3.
fn with_genesis() -> ChainService {
    let mut service = ChainService::new();
    assert_eq!(
        submit(&mut service, None, 0, 10, cells(&[], &[1, 2, 3])),
        Ok(AcceptanceStatus::Canonical)
    );
    service
}

#[test]
fn new_service_has_no_tip() {
    let service = ChainService::new();
    assert_eq!(service.canonical_tip(), None);
    assert_eq!(service.len(), 0);
    assert_eq!(service.get_cell(1), CellStatus::Unknown);
}

#[test]
fn first_block_becomes_the_tip() {
    let service = with_genesis();
    assert_eq!(
        service.canonical_tip(),
        Some(ChainTipSnapshot { id: 0, height: 0, score: 10 })
    );
    assert_eq!(service.get_cell(2), CellStatus::Live);
}

#[test]
fn competing_branch_takes_over_only_with_more_work() {
    let mut service = with_genesis();
    // B1 on top of the first block.
    assert_eq!(
        submit(&mut service, Some(0), 0, 10, cells(&[1], &[4])),
        Ok(AcceptanceStatus::Canonical)
    );
    assert_eq!(
        service.canonical_tip(),
        Some(ChainTipSnapshot { id: 1, height: 1, score: 20 })
    );
    let with_b1 = statuses(&service, 10);
    assert_eq!(service.get_cell(1), CellStatus::Dead);
    assert_eq!(service.get_cell(4), CellStatus::Live);
    // B1' competes at the same height with the same accumulated work.
    assert_eq!(
        submit(&mut service, Some(0), 0, 10, cells(&[2], &[5])),
        Ok(AcceptanceStatus::SideBranch)
    );
    assert_eq!(
        service.canonical_tip(),
        Some(ChainTipSnapshot { id: 1, height: 1, score: 20 })
    );
    assert_eq!(statuses(&service, 10), with_b1);
    // B2' extends B1' beyond the work of B1's branch.
    assert_eq!(
        submit(&mut service, Some(2), 0, 10, cells(&[5], &[6])),
        Ok(AcceptanceStatus::Canonical)
    );
    assert_eq!(
        service.canonical_tip(),
        Some(ChainTipSnapshot { id: 3, height: 2, score: 30 })
    );
    // B1's effects are gone: its input lives again, its output never was.
    assert_eq!(service.get_cell(1), CellStatus::Live);
    assert_eq!(service.get_cell(4), CellStatus::Unknown);
    assert_eq!(service.get_cell(2), CellStatus::Dead);
    assert_eq!(service.get_cell(5), CellStatus::Dead);
    assert_eq!(service.get_cell(6), CellStatus::Live);
    assert_eq!(service.get_cell(3), CellStatus::Live);
}

#[test]
fn heavier_competitor_at_the_same_height_takes_over() {
    let mut service = with_genesis();
    assert_eq!(
        submit(&mut service, Some(0), 0, 10, cells(&[1], &[4])),
        Ok(AcceptanceStatus::Canonical)
    );
    assert_eq!(
        submit(&mut service, Some(0), 0, 11, cells(&[1], &[5])),
        Ok(AcceptanceStatus::Canonical)
    );
    assert_eq!(
        service.canonical_tip(),
        Some(ChainTipSnapshot { id: 2, height: 1, score: 21 })
    );
    assert_eq!(service.get_cell(4), CellStatus::Unknown);
    assert_eq!(service.get_cell(5), CellStatus::Live);
}

#[test]
fn the_same_cell_may_be_spent_on_two_branches() {
    let mut service = with_genesis();
    assert_eq!(
        submit(&mut service, Some(0), 0, 10, cells(&[1], &[4])),
        Ok(AcceptanceStatus::Canonical)
    );
    assert_eq!(
        submit(&mut service, Some(0), 0, 5, cells(&[1], &[7])),
        Ok(AcceptanceStatus::SideBranch)
    );
    assert_eq!(service.get_cell(1), CellStatus::Dead);
    assert_eq!(service.get_cell(7), CellStatus::Unknown);
}

#[test]
fn double_spend_on_one_branch_is_rejected_and_changes_nothing() {
    let mut service = with_genesis();
    assert_eq!(
        submit(&mut service, Some(0), 0, 10, cells(&[1], &[4])),
        Ok(AcceptanceStatus::Canonical)
    );
    let before = statuses(&service, 10);
    assert_eq!(
        submit(&mut service, Some(1), 0, 10, cells(&[1], &[5])),
        Err(RejectionReason::Cells(CellError::DeadCell))
    );
    assert_eq!(
        submit(&mut service, Some(1), 0, 10, cells(&[9], &[5])),
        Err(RejectionReason::Cells(CellError::UnknownCell))
    );
    assert_eq!(
        submit(&mut service, Some(1), 0, 10, cells(&[2], &[4])),
        Err(RejectionReason::Cells(CellError::CellExists))
    );
    assert_eq!(statuses(&service, 10), before);
    assert_eq!(service.len(), 2);
    assert_eq!(service.canonical_tip().unwrap().id, 1);
}

#[test]
fn block_on_a_side_branch_is_judged_against_that_branch() {
    let mut service = with_genesis();
    assert_eq!(
        submit(&mut service, Some(0), 0, 10, cells(&[1], &[4])),
        Ok(AcceptanceStatus::Canonical)
    );
    assert_eq!(
        submit(&mut service, Some(0), 0, 1, cells(&[2], &[5])),
        Ok(AcceptanceStatus::SideBranch)
    );
    let before = statuses(&service, 10);
    // Cell 4 exists on the canonical branch only.
    assert_eq!(
        submit(&mut service, Some(2), 0, 50, cells(&[4], &[6])),
        Err(RejectionReason::Cells(CellError::UnknownCell))
    );
    // Cell 2 is dead on the side branch, live on the canonical one.
    assert_eq!(
        submit(&mut service, Some(2), 0, 50, cells(&[2], &[6])),
        Err(RejectionReason::Cells(CellError::DeadCell))
    );
    assert_eq!(statuses(&service, 10), before);
    assert_eq!(service.canonical_tip().unwrap().id, 1);
}

#[test]
fn block_without_a_held_parent_is_unconnectable() {
    let mut service = ChainService::new();
    assert_eq!(
        submit(&mut service, Some(0), 0, 10, cells(&[], &[1])),
        Err(RejectionReason::Unconnectable)
    );
    let mut service = with_genesis();
    assert_eq!(
        submit(&mut service, Some(5), 0, 10, cells(&[], &[9])),
        Err(RejectionReason::Unconnectable)
    );
    assert_eq!(
        submit(&mut service, None, 0, 10, cells(&[], &[9])),
        Err(RejectionReason::Unconnectable)
    );
    assert_eq!(service.len(), 1);
}

#[test]
fn block_whose_work_does_not_fit_is_out_of_range() {
    let mut service = with_genesis();
    assert_eq!(
        submit(&mut service, Some(0), 0, u128::MAX, cells(&[], &[9])),
        Err(RejectionReason::OutOfRange)
    );
    assert_eq!(
        submit(&mut service, Some(0), 0, u128::MAX - 10, cells(&[], &[9])),
        Ok(AcceptanceStatus::Canonical)
    );
}

#[test]
fn truncate_takes_the_blocks_above_the_target_back() {
    let mut service = with_genesis();
    let at_genesis = statuses(&service, 10);
    assert_eq!(
        submit(&mut service, Some(0), 0, 10, cells(&[1], &[4])),
        Ok(AcceptanceStatus::Canonical)
    );
    let at_one = statuses(&service, 10);
    assert_eq!(
        submit(&mut service, Some(1), 0, 10, cells(&[4, 2], &[5, 6])),
        Ok(AcceptanceStatus::Canonical)
    );
    assert_eq!(
        submit(&mut service, Some(2), 0, 10, cells(&[6], &[7])),
        Ok(AcceptanceStatus::Canonical)
    );
    assert!(service.truncate(1));
    assert_eq!(statuses(&service, 10), at_one);
    assert_eq!(service.canonical_tip().unwrap().id, 1);
    assert!(service.truncate(1));
    assert_eq!(statuses(&service, 10), at_one);
    assert!(service.truncate(0));
    assert_eq!(statuses(&service, 10), at_genesis);
    assert_eq!(
        service.canonical_tip(),
        Some(ChainTipSnapshot { id: 0, height: 0, score: 10 })
    );
    assert_eq!(service.len(), 4);
}

#[test]
fn truncate_refuses_a_target_off_the_canonical_branch() {
    let mut service = with_genesis();
    assert_eq!(
        submit(&mut service, Some(0), 0, 10, cells(&[1], &[4])),
        Ok(AcceptanceStatus::Canonical)
    );
    assert_eq!(
        submit(&mut service, Some(0), 0, 5, cells(&[2], &[5])),
        Ok(AcceptanceStatus::SideBranch)
    );
    let before = statuses(&service, 10);
    assert!(!service.truncate(2));
    assert!(!service.truncate(9));
    assert_eq!(statuses(&service, 10), before);
    assert_eq!(service.canonical_tip().unwrap().id, 1);
    let mut empty = ChainService::new();
    assert!(!empty.truncate(0));
}

#[test]
fn a_locked_input_is_judged_at_the_height_of_the_block() {
    let mut service = with_genesis();
    let locked = || BlockCells { inputs: vec![Input { cell: 1, since: 2 }], deps: Vec::new(), outputs: vec![4] };
    assert_eq!(
        submit(&mut service, Some(0), 0, 10, locked()),
        Err(RejectionReason::Cells(CellError::ImmatureCell))
    );
    assert_eq!(service.get_cell(1), CellStatus::Live);
    assert_eq!(
        submit(&mut service, Some(0), 0, 10, cells(&[2], &[5])),
        Ok(AcceptanceStatus::Canonical)
    );
    assert_eq!(
        submit(&mut service, Some(1), 0, 10, locked()),
        Ok(AcceptanceStatus::Canonical)
    );
    assert_eq!(service.canonical_tip().unwrap().height, 2);
    assert_eq!(service.get_cell(1), CellStatus::Dead);
}

#[test]
fn first_block_starts_at_the_height_it_is_given() {
    let mut service = ChainService::new();
    let locked = || BlockCells { inputs: Vec::new(), deps: Vec::new(), outputs: vec![1] };
    assert_eq!(submit(&mut service, None, 7, 3, locked()), Ok(AcceptanceStatus::Canonical));
    assert_eq!(
        service.canonical_tip(),
        Some(ChainTipSnapshot { id: 0, height: 7, score: 3 })
    );
}

#[test]
fn tip_change_lists_detached_and_attached_blocks_in_order() {
    let mut service = with_genesis();
    for (parent, work, spent, made) in
        [(0usize, 10u128, 1u64, 4u64), (1, 10, 4, 5), (0, 10, 2, 6), (3, 10, 6, 7), (4, 10, 7, 8)]
    {
        assert!(submit(&mut service, Some(parent), 0, work, cells(&[spent], &[made])).is_ok());
    }
    assert_eq!(service.canonical_tip().unwrap().id, 5);
    let change = service.tip_change(2, 5).unwrap();
    assert_eq!(change.fork_point, 0);
    assert_eq!(change.detached, vec![2, 1]);
    assert_eq!(change.attached, vec![3, 4, 5]);
    let none = service.tip_change(5, 5).unwrap();
    assert_eq!(none.fork_point, 5);
    assert!(none.detached.is_empty() && none.attached.is_empty());
    assert!(service.tip_change(5, 6).is_none());
}

#[test]
fn a_cell_can_be_looked_up_on_any_branch() {
    let mut service = with_genesis();
    assert!(submit(&mut service, Some(0), 0, 10, cells(&[1], &[4])).is_ok());
    assert!(submit(&mut service, Some(0), 0, 5, cells(&[2], &[5])).is_ok());
    let before = statuses(&service, 10);
    assert_eq!(service.get_cell_at(1, 1), Some(CellStatus::Dead));
    assert_eq!(service.get_cell_at(1, 2), Some(CellStatus::Live));
    assert_eq!(service.get_cell_at(2, 2), Some(CellStatus::Dead));
    assert_eq!(service.get_cell_at(5, 2), Some(CellStatus::Live));
    assert_eq!(service.get_cell_at(5, 1), Some(CellStatus::Unknown));
    assert_eq!(service.get_cell_at(4, 0), Some(CellStatus::Unknown));
    assert_eq!(service.get_cell_at(1, 0), Some(CellStatus::Live));
    assert_eq!(service.get_cell_at(1, 3), None);
    assert_eq!(statuses(&service, 10), before);
    assert_eq!(service.canonical_tip().unwrap().id, 1);
    assert_eq!(ChainService::new().get_cell_at(1, 0), None);
}

// Grows a chain to height 10 with 5 of work per block, then two branches
// whose tips have 100 and 105 of accumulated work, in the order asked for.
fn race(low_first: bool) -> (ChainService, usize, usize) {
    let mut service = ChainService::new();
    assert!(submit(&mut service, None, 0, 5, cells(&[], &[0])).is_ok());
    for h in 1..=10usize {
        assert!(submit(&mut service, Some(h - 1), 0, 5, cells(&[], &[h as u64])).is_ok());
    }
    assert_eq!(
        service.canonical_tip(),
        Some(ChainTipSnapshot { id: 10, height: 10, score: 55 })
    );
    let low = cells(&[3], &[100]);
    let high = cells(&[3], &[105]);
    if low_first {
        assert_eq!(submit(&mut service, Some(10), 0, 45, low), Ok(AcceptanceStatus::Canonical));
        assert_eq!(submit(&mut service, Some(10), 0, 50, high), Ok(AcceptanceStatus::Canonical));
        (service, 11, 12)
    } else {
        assert_eq!(submit(&mut service, Some(10), 0, 50, high), Ok(AcceptanceStatus::Canonical));
        assert_eq!(submit(&mut service, Some(10), 0, 45, low), Ok(AcceptanceStatus::SideBranch));
        (service, 12, 11)
    }
}

#[test]
fn the_heavier_of_two_branches_is_canonical_in_either_order_of_arrival() {
    for low_first in [true, false] {
        let (service, _low, high) = race(low_first);
        assert_eq!(
            service.canonical_tip(),
            Some(ChainTipSnapshot { id: high, height: 11, score: 105 })
        );
        assert_eq!(service.get_cell(105), CellStatus::Live);
        assert_eq!(service.get_cell(100), CellStatus::Unknown);
        assert_eq!(service.get_cell(3), CellStatus::Dead);
    }
}

#[test]
fn of_two_branches_of_equal_work_the_first_seen_stays() {
    let mut service = with_genesis();
    assert_eq!(
        submit(&mut service, Some(0), 0, 90, cells(&[1], &[4])),
        Ok(AcceptanceStatus::Canonical)
    );
    assert_eq!(
        submit(&mut service, Some(0), 0, 90, cells(&[1], &[5])),
        Ok(AcceptanceStatus::SideBranch)
    );
    assert_eq!(
        service.canonical_tip(),
        Some(ChainTipSnapshot { id: 1, height: 1, score: 100 })
    );
    assert_eq!(service.get_cell(4), CellStatus::Live);
    assert_eq!(service.get_cell(5), CellStatus::Unknown);
}
