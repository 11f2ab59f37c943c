//! Eligibility of uncle references: the delay before an uncle may be named,
//! the window after which it is too old, and the ban on naming one twice.

use vstd::prelude::*;

verus! {

/// Why an uncle reference is refused.
#[derive(Clone, Copy, Debug, PartialEq, Eq, Structural)]
pub enum UncleError {
    /// The including block lies further ahead of the uncle than the window allows.
    UncleTooOld,
    /// The uncle is already an uncle or an ancestor on the including branch.
    UncleAlreadyIncluded,
    /// Too few blocks have passed since the uncle's own height.
    UncleNotYetDelayable,
}

/// The two distances that bound an uncle reference.
#[derive(Clone, Copy, Debug, PartialEq, Eq, Structural)]
pub struct UncleWindow {
    /// An uncle at height `h` may be named only by blocks above `h + delay_window`.
    pub delay_window: u64,
    /// An uncle at height `h` may be named only by blocks up to `h + max_distance`.
    pub max_distance: u64,
}

/// The delay has passed: the including block stands more than `delay_window`
/// above the uncle.
pub open spec fn delay_elapsed(window: UncleWindow, uncle_height: u64, block_height: u64) -> bool {
    block_height > uncle_height + window.delay_window
}

/// The uncle is still inside the window behind the including block.
pub open spec fn within_window(window: UncleWindow, uncle_height: u64, block_height: u64) -> bool {
    block_height <= uncle_height + window.max_distance
}

/// The verdict on one uncle reference. The delay is tested first, then the
/// window, then whether the branch already holds the uncle.
pub open spec fn uncle_verdict(
    window: UncleWindow,
    uncle_id: u64,
    uncle_height: u64,
    block_height: u64,
    included: Seq<u64>,
) -> Result<(), UncleError> {
    if !delay_elapsed(window, uncle_height, block_height) {
        Err(UncleError::UncleNotYetDelayable)
    } else if !within_window(window, uncle_height, block_height) {
        Err(UncleError::UncleTooOld)
    } else if included.contains(uncle_id) {
        Err(UncleError::UncleAlreadyIncluded)
    } else {
        Ok(())
    }
}

/// Whether `id` occurs in `ids`.
pub fn contains_id(ids: &Vec<u64>, id: u64) -> (found: bool)
    ensures
        found == ids@.contains(id),
{
    let mut i: usize = 0;
    while i < ids.len()
        invariant
            i <= ids.len(),
            forall|j: int| 0 <= j < i ==> ids@[j] != id,
        decreases ids.len() - i,
    {
        if ids[i] == id {
            return true;
        }
        i += 1;
    }
    false
}

/// Decides whether a block at `block_height` may name the uncle `uncle_id` of
/// height `uncle_height`. `included` holds the ids of the uncles and ancestors
/// that the including branch already has.
pub fn verify_uncle(
    window: &UncleWindow,
    uncle_id: u64,
    uncle_height: u64,
    block_height: u64,
    included: &Vec<u64>,
) -> (verdict: Result<(), UncleError>)
    ensures
        verdict == uncle_verdict(*window, uncle_id, uncle_height, block_height, included@),
{
    if block_height <= uncle_height || block_height - uncle_height <= window.delay_window {
        return Err(UncleError::UncleNotYetDelayable);
    }
    if block_height - uncle_height > window.max_distance {
        return Err(UncleError::UncleTooOld);
    }
    if contains_id(included, uncle_id) {
        return Err(UncleError::UncleAlreadyIncluded);
    }
    Ok(())
}

/// No block at or below `uncle_height + delay_window` may name the uncle,
/// whatever else holds of it.
pub proof fn lemma_uncle_refused_within_delay(
    window: UncleWindow,
    uncle_id: u64,
    uncle_height: u64,
    block_height: u64,
    included: Seq<u64>,
)
    requires
        block_height <= uncle_height + window.delay_window,
    ensures
        uncle_verdict(window, uncle_id, uncle_height, block_height, included) == Err::<(), UncleError>(
            UncleError::UncleNotYetDelayable,
        ),
{
}

/// The first block past the delay may name the uncle, provided the uncle is
/// otherwise eligible: still inside the window and not yet on the branch.
pub proof fn lemma_uncle_accepted_after_delay(
    window: UncleWindow,
    uncle_id: u64,
    uncle_height: u64,
    block_height: u64,
    included: Seq<u64>,
)
    requires
        block_height == uncle_height + window.delay_window + 1,
        within_window(window, uncle_height, block_height),
        !included.contains(uncle_id),
    ensures
        uncle_verdict(window, uncle_id, uncle_height, block_height, included) == Ok::<(), UncleError>(()),
{
}

} // verus!
