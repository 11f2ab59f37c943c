//! The path of one candidate block through the service, stage by stage, and
//! the classes of the reasons for which a block is turned away.

use crate::cells::CellError;
use crate::chain::{AcceptanceStatus, RejectionReason};
use crate::structure::{BlockRule, StructureError, TxRule};
use crate::uncle::UncleError;
use vstd::prelude::*;

verus! {

/// Why a candidate block is rejected.
#[derive(Clone, Copy, Debug, PartialEq, Eq, Structural)]
pub enum Rejected {
    /// The block or one of its transactions is malformed.
    Structure(StructureError),
    /// An input or dependency cannot be resolved on the block's branch.
    Cells(CellError),
    /// An uncle reference is not eligible.
    Uncle(UncleError),
    /// The script verifier refused a transaction.
    Script,
    /// The scripts used more cycles than a block may.
    ExceedsCycleLimit,
}

/// Where a candidate block stands.
#[derive(Clone, Copy, Debug, PartialEq, Eq, Structural)]
pub enum Stage {
    Received,
    NonContextuallyValid,
    CellsResolved,
    ContextuallyVerified,
    Rejected(Rejected),
    Accepted(AcceptanceStatus),
}

/// What a step of verification found.
#[derive(Clone, Copy, Debug, PartialEq, Eq)]
pub enum StageEvent {
    /// The checks on the block's own contents have run.
    StructureChecked(Result<(), StructureError>),
    /// The inputs and dependencies have been looked up.
    CellsLookedUp(Result<(), CellError>),
    /// The uncles have been judged and the scripts have run.
    ContextChecked { uncles: Result<(), UncleError>, scripts_ok: bool, cycles: u64 },
    /// The fork resolver has placed the block.
    Placed(AcceptanceStatus),
}

/// The classes of errors.
#[derive(Clone, Copy, Debug, PartialEq, Eq, Structural)]
pub enum ErrorClass {
    MalformedInput,
    StateInconsistency,
    ResourceExceeded,
    Unconnectable,
}

/// A block in this stage goes no further.
pub open spec fn is_terminal(stage: Stage) -> bool {
    stage is Rejected || stage is Accepted
}

/// How far a stage lies along the path; terminal stages lie at the end.
pub open spec fn rank(stage: Stage) -> nat {
    match stage {
        Stage::Received => 0,
        Stage::NonContextuallyValid => 1,
        Stage::CellsResolved => 2,
        Stage::ContextuallyVerified => 3,
        Stage::Rejected(_) => 4,
        Stage::Accepted(_) => 4,
    }
}

/// The stage after `event`, under a budget of `cycle_budget` cycles per
/// block. An event that does not belong to the stage changes nothing. Of the
/// findings of the contextual step the uncles count first, then the cycles,
/// then the scripts' verdict.
pub open spec fn next_stage(stage: Stage, event: StageEvent, cycle_budget: u64) -> Stage {
    match (stage, event) {
        (Stage::Received, StageEvent::StructureChecked(Ok(()))) => Stage::NonContextuallyValid,
        (Stage::Received, StageEvent::StructureChecked(Err(e))) => Stage::Rejected(
            Rejected::Structure(e),
        ),
        (Stage::NonContextuallyValid, StageEvent::CellsLookedUp(Ok(()))) => Stage::CellsResolved,
        (Stage::NonContextuallyValid, StageEvent::CellsLookedUp(Err(e))) => Stage::Rejected(
            Rejected::Cells(e),
        ),
        (Stage::CellsResolved, StageEvent::ContextChecked { uncles, scripts_ok, cycles }) => match uncles {
            Err(e) => Stage::Rejected(Rejected::Uncle(e)),
            Ok(()) => if cycles > cycle_budget {
                Stage::Rejected(Rejected::ExceedsCycleLimit)
            } else if !scripts_ok {
                Stage::Rejected(Rejected::Script)
            } else {
                Stage::ContextuallyVerified
            },
        },
        (Stage::ContextuallyVerified, StageEvent::Placed(status)) => Stage::Accepted(status),
        _ => stage,
    }
}

/// The class of a reason: broken size and cycle limits are resources
/// exceeded, other broken rules of form are malformed input, and what
/// depends on the branch is a state inconsistency.
pub open spec fn class_of(reason: Rejected) -> ErrorClass {
    match reason {
        Rejected::Structure(StructureError::MalformedBlock(BlockRule::TooLarge)) => ErrorClass::ResourceExceeded,
        Rejected::Structure(
            StructureError::MalformedTransaction { index, rule: TxRule::TooLarge },
        ) => ErrorClass::ResourceExceeded,
        Rejected::Structure(_) => ErrorClass::MalformedInput,
        Rejected::ExceedsCycleLimit => ErrorClass::ResourceExceeded,
        Rejected::Cells(_) => ErrorClass::StateInconsistency,
        Rejected::Uncle(_) => ErrorClass::StateInconsistency,
        Rejected::Script => ErrorClass::StateInconsistency,
    }
}

/// The class of a reason for which the service does not place a block: a
/// block without its ancestry is unconnectable, numbers that do not fit are
/// a resource exceeded, and cells that cannot be applied are a state
/// inconsistency.
pub open spec fn placement_class_of(reason: RejectionReason) -> ErrorClass {
    match reason {
        RejectionReason::Unconnectable => ErrorClass::Unconnectable,
        RejectionReason::OutOfRange => ErrorClass::ResourceExceeded,
        RejectionReason::Cells(_) => ErrorClass::StateInconsistency,
    }
}

/// A rejection of this class holds for the block's bytes for good. A state
/// inconsistency holds for the present state of the chain only, and an
/// unconnectable block waits for its ancestry.
pub open spec fn permanent(class: ErrorClass) -> bool {
    class == ErrorClass::MalformedInput || class == ErrorClass::ResourceExceeded
}

/// Moves a candidate block one step along its path.
pub fn advance(stage: Stage, event: StageEvent, cycle_budget: u64) -> (next: Stage)
    ensures
        next == next_stage(stage, event, cycle_budget),
{
    match (stage, event) {
        (Stage::Received, StageEvent::StructureChecked(found)) => match found {
            Ok(()) => Stage::NonContextuallyValid,
            Err(e) => Stage::Rejected(Rejected::Structure(e)),
        },
        (Stage::NonContextuallyValid, StageEvent::CellsLookedUp(found)) => match found {
            Ok(()) => Stage::CellsResolved,
            Err(e) => Stage::Rejected(Rejected::Cells(e)),
        },
        (Stage::CellsResolved, StageEvent::ContextChecked { uncles, scripts_ok, cycles }) => {
            match uncles {
                Err(e) => Stage::Rejected(Rejected::Uncle(e)),
                Ok(()) => {
                    if cycles > cycle_budget {
                        Stage::Rejected(Rejected::ExceedsCycleLimit)
                    } else if !scripts_ok {
                        Stage::Rejected(Rejected::Script)
                    } else {
                        Stage::ContextuallyVerified
                    }
                },
            }
        },
        (Stage::ContextuallyVerified, StageEvent::Placed(status)) => Stage::Accepted(status),
        (stage, _) => stage,
    }
}

/// Classifies a reason for rejection.
pub fn classify(reason: Rejected) -> (class: ErrorClass)
    ensures
        class == class_of(reason),
{
    match reason {
        Rejected::Structure(e) => match e {
            StructureError::MalformedBlock(BlockRule::TooLarge) => ErrorClass::ResourceExceeded,
            StructureError::MalformedTransaction { index: _, rule: TxRule::TooLarge } => ErrorClass::ResourceExceeded,
            _ => ErrorClass::MalformedInput,
        },
        Rejected::ExceedsCycleLimit => ErrorClass::ResourceExceeded,
        Rejected::Cells(_) => ErrorClass::StateInconsistency,
        Rejected::Uncle(_) => ErrorClass::StateInconsistency,
        Rejected::Script => ErrorClass::StateInconsistency,
    }
}

/// Classifies a reason for which the service did not place a block.
pub fn classify_placement(reason: RejectionReason) -> (class: ErrorClass)
    ensures
        class == placement_class_of(reason),
{
    match reason {
        RejectionReason::Unconnectable => ErrorClass::Unconnectable,
        RejectionReason::OutOfRange => ErrorClass::ResourceExceeded,
        RejectionReason::Cells(_) => ErrorClass::StateInconsistency,
    }
}

/// Whether a rejection of this class is final for the block's bytes.
pub fn is_permanent(class: ErrorClass) -> (yes: bool)
    ensures
        yes == permanent(class),
{
    match class {
        ErrorClass::MalformedInput => true,
        ErrorClass::ResourceExceeded => true,
        ErrorClass::StateInconsistency => false,
        ErrorClass::Unconnectable => false,
    }
}

/// A rejected or accepted block stays as it is, whatever comes after.
pub proof fn lemma_terminal_is_final(stage: Stage, event: StageEvent, cycle_budget: u64)
    requires
        is_terminal(stage),
    ensures
        next_stage(stage, event, cycle_budget) == stage,
{
}

/// A block never goes back along its path, and an event moves it by one
/// stage or to its end.
pub proof fn lemma_stage_moves_forward(stage: Stage, event: StageEvent, cycle_budget: u64)
    ensures
        rank(next_stage(stage, event, cycle_budget)) >= rank(stage),
        next_stage(stage, event, cycle_budget) != stage ==> rank(
            next_stage(stage, event, cycle_budget),
        ) == rank(stage) + 1 || next_stage(stage, event, cycle_budget) is Rejected,
{
}

/// Only a block that passed every check is accepted.
pub proof fn lemma_accepted_was_verified(stage: Stage, event: StageEvent, cycle_budget: u64)
    requires
        next_stage(stage, event, cycle_budget) is Accepted,
    ensures
        stage is Accepted || stage == Stage::ContextuallyVerified,
{
}

} // verus!
