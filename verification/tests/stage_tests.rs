use chain_engine::cells::CellError;
use chain_engine::chain::{AcceptanceStatus, RejectionReason};
use chain_engine::stage::{
    advance, classify, classify_placement, is_permanent, ErrorClass, Rejected, Stage, StageEvent,
};
use chain_engine::structure::{BlockRule, StructureError, TxRule};
use chain_engine::uncle::UncleError;

fn context(uncles: Result<(), UncleError>, scripts_ok: bool, cycles: u64) -> StageEvent {
    StageEvent::ContextChecked { uncles, scripts_ok, cycles }
}

#[test]
fn a_valid_block_passes_every_stage() {
    let mut stage = Stage::Received;
    stage = advance(stage, StageEvent::StructureChecked(Ok(())), 100);
    assert_eq!(stage, Stage::NonContextuallyValid);
    stage = advance(stage, StageEvent::CellsLookedUp(Ok(())), 100);
    assert_eq!(stage, Stage::CellsResolved);
    stage = advance(stage, context(Ok(()), true, 100), 100);
    assert_eq!(stage, Stage::ContextuallyVerified);
    stage = advance(stage, StageEvent::Placed(AcceptanceStatus::SideBranch), 100);
    assert_eq!(stage, Stage::Accepted(AcceptanceStatus::SideBranch));
}

#[test]
fn each_stage_can_reject() {
    let malformed = StructureError::MalformedBlock(BlockRule::UnclesRoot);
    assert_eq!(
        advance(Stage::Received, StageEvent::StructureChecked(Err(malformed)), 100),
        Stage::Rejected(Rejected::Structure(malformed))
    );
    assert_eq!(
        advance(
            Stage::NonContextuallyValid,
            StageEvent::CellsLookedUp(Err(CellError::DeadCell)),
            100
        ),
        Stage::Rejected(Rejected::Cells(CellError::DeadCell))
    );
    assert_eq!(
        advance(Stage::CellsResolved, context(Err(UncleError::UncleTooOld), false, 500), 100),
        Stage::Rejected(Rejected::Uncle(UncleError::UncleTooOld))
    );
    assert_eq!(
        advance(Stage::CellsResolved, context(Ok(()), false, 101), 100),
        Stage::Rejected(Rejected::ExceedsCycleLimit)
    );
    assert_eq!(
        advance(Stage::CellsResolved, context(Ok(()), false, 100), 100),
        Stage::Rejected(Rejected::Script)
    );
}

#[test]
fn terminal_stages_do_not_move() {
    let rejected = Stage::Rejected(Rejected::Script);
    let accepted = Stage::Accepted(AcceptanceStatus::Canonical);
    let events = [
        StageEvent::StructureChecked(Ok(())),
        StageEvent::CellsLookedUp(Ok(())),
        context(Ok(()), true, 0),
        StageEvent::Placed(AcceptanceStatus::SideBranch),
    ];
    for e in events {
        assert_eq!(advance(rejected, e, 100), rejected);
        assert_eq!(advance(accepted, e, 100), accepted);
    }
}

#[test]
fn an_event_out_of_turn_changes_nothing() {
    assert_eq!(
        advance(Stage::Received, StageEvent::Placed(AcceptanceStatus::Canonical), 100),
        Stage::Received
    );
    assert_eq!(
        advance(Stage::Received, StageEvent::CellsLookedUp(Ok(())), 100),
        Stage::Received
    );
    assert_eq!(
        advance(Stage::ContextuallyVerified, StageEvent::StructureChecked(Ok(())), 100),
        Stage::ContextuallyVerified
    );
}

#[test]
fn reasons_fall_into_their_classes() {
    let too_large = StructureError::MalformedBlock(BlockRule::TooLarge);
    let tx_too_large = StructureError::MalformedTransaction { index: 3, rule: TxRule::TooLarge };
    let tx_inputs = StructureError::MalformedTransaction { index: 3, rule: TxRule::TooManyInputs };
    let root = StructureError::MalformedBlock(BlockRule::TransactionsRoot);
    assert_eq!(classify(Rejected::Structure(too_large)), ErrorClass::ResourceExceeded);
    assert_eq!(classify(Rejected::Structure(tx_too_large)), ErrorClass::ResourceExceeded);
    assert_eq!(classify(Rejected::Structure(tx_inputs)), ErrorClass::MalformedInput);
    assert_eq!(classify(Rejected::Structure(root)), ErrorClass::MalformedInput);
    assert_eq!(classify(Rejected::ExceedsCycleLimit), ErrorClass::ResourceExceeded);
    assert_eq!(classify(Rejected::Cells(CellError::UnknownCell)), ErrorClass::StateInconsistency);
    assert_eq!(
        classify(Rejected::Uncle(UncleError::UncleNotYetDelayable)),
        ErrorClass::StateInconsistency
    );
    assert_eq!(classify(Rejected::Script), ErrorClass::StateInconsistency);
}

#[test]
fn only_state_inconsistencies_may_pass_later() {
    assert!(is_permanent(ErrorClass::MalformedInput));
    assert!(is_permanent(ErrorClass::ResourceExceeded));
    assert!(!is_permanent(ErrorClass::StateInconsistency));
    assert!(!is_permanent(ErrorClass::Unconnectable));
}

#[test]
fn reasons_of_the_service_fall_into_their_classes() {
    assert_eq!(classify_placement(RejectionReason::Unconnectable), ErrorClass::Unconnectable);
    assert_eq!(classify_placement(RejectionReason::OutOfRange), ErrorClass::ResourceExceeded);
    assert_eq!(
        classify_placement(RejectionReason::Cells(CellError::ImmatureCell)),
        ErrorClass::StateInconsistency
    );
}
