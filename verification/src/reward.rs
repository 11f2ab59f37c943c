//! The reward of a finalized block: scheduled issuance plus the fees of its
//! transactions, held under the schedule's cap. All amounts are integers.

use vstd::prelude::*;

verus! {

/// What the issuance schedule grants at one height.
#[derive(Clone, Copy, Debug, PartialEq, Eq, Structural)]
pub struct Issuance {
    /// Primary issuance of the block.
    pub primary: u64,
    /// The block's share of secondary issuance.
    pub secondary: u64,
    /// The most that a block at this height may pay out.
    pub cap: u64,
}

/// The value that a transaction takes in and the value that it hands on.
#[derive(Clone, Copy, Debug, PartialEq, Eq, Structural)]
pub struct TxValue {
    pub inputs: u64,
    pub outputs: u64,
}

/// The record kept for a finalized block.
#[derive(Clone, Copy, Debug, PartialEq, Eq, Structural)]
pub struct RewardRecord {
    pub primary: u64,
    pub secondary: u64,
    /// Sum of the transactions' fees.
    pub fees: u128,
    /// What is paid out: issuance and fees together, clamped to the cap.
    pub total: u64,
}

/// No transaction hands on more than it takes in.
pub open spec fn fees_defined(txs: Seq<TxValue>) -> bool {
    forall|i: int| 0 <= i < txs.len() ==> (#[trigger] txs[i]).outputs <= txs[i].inputs
}

/// Sum of inputs less outputs over all transactions.
pub open spec fn fee_sum(txs: Seq<TxValue>) -> int
    decreases txs.len(),
{
    if txs.len() == 0 {
        0
    } else {
        fee_sum(txs.drop_last()) + (txs.last().inputs - txs.last().outputs)
    }
}

/// Issuance and fees together, cut down to the cap where they exceed it.
pub open spec fn clamped_total(issuance: Issuance, fees: int) -> int {
    let sum = issuance.primary + issuance.secondary + fees;
    if sum > issuance.cap {
        issuance.cap as int
    } else {
        sum
    }
}

/// The record of a block with these transactions under this issuance.
pub open spec fn reward_of(issuance: Issuance, txs: Seq<TxValue>) -> Option<RewardRecord> {
    if fees_defined(txs) {
        Some(
            RewardRecord {
                primary: issuance.primary,
                secondary: issuance.secondary,
                fees: fee_sum(txs) as u128,
                total: clamped_total(issuance, fee_sum(txs)) as u64,
            },
        )
    } else {
        None
    }
}

/// With every fee defined, the sum is neither negative nor beyond what `u64`
/// amounts can add up to.
pub proof fn lemma_fee_sum_bounds(txs: Seq<TxValue>)
    requires
        fees_defined(txs),
    ensures
        0 <= fee_sum(txs) <= txs.len() * 0xffff_ffff_ffff_ffff,
    decreases txs.len(),
{
    if txs.len() > 0 {
        assert(fees_defined(txs.drop_last())) by {
            assert forall|i: int| 0 <= i < txs.drop_last().len() implies (
            #[trigger] txs.drop_last()[i]).outputs <= txs.drop_last()[i].inputs by {
                assert(txs.drop_last()[i] == txs[i]);
            }
        }
        lemma_fee_sum_bounds(txs.drop_last());
        assert(txs[txs.len() - 1].outputs <= txs[txs.len() - 1].inputs);
    }
}

/// Adds up the fees. `None` where a transaction hands on more than it takes in.
pub fn fee_total(txs: &Vec<TxValue>) -> (fees: Option<u128>)
    ensures
        fees.is_some() == fees_defined(txs@),
        fees matches Some(f) ==> f == fee_sum(txs@),
{
    let mut acc: u128 = 0;
    let mut i: usize = 0;
    while i < txs.len()
        invariant
            i <= txs.len(),
            fees_defined(txs@.take(i as int)),
            acc == fee_sum(txs@.take(i as int)),
            acc <= i * 0xffff_ffff_ffff_ffff,
        decreases txs.len() - i,
    {
        let tx = txs[i];
        if tx.outputs > tx.inputs {
            return None;
        }
        let fee: u64 = tx.inputs - tx.outputs;
        proof {
            let next = txs@.take(i + 1);
            assert(next.drop_last() =~= txs@.take(i as int));
            assert(next.last() == txs@[i as int]);
            assert forall|j: int| 0 <= j < next.len() implies (#[trigger] next[j]).outputs
                <= next[j].inputs by {
                if j < i {
                    assert(txs@.take(i as int)[j] == next[j]);
                }
            }
        }
        acc = acc + (fee as u128);
        i += 1;
    }
    proof {
        assert(txs@.take(i as int) =~= txs@);
    }
    Some(acc)
}

/// Clamps issuance and fees to the cap.
pub fn clamp_total(issuance: &Issuance, fees: u128) -> (total: u64)
    ensures
        total == clamped_total(*issuance, fees as int),
{
    let issued: u128 = (issuance.primary as u128) + (issuance.secondary as u128);
    let cap: u128 = issuance.cap as u128;
    if issued > cap || fees > cap - issued {
        issuance.cap
    } else {
        (issued + fees) as u64
    }
}

/// Computes the reward record of a block from the issuance at its height and
/// the values of its transactions. `None` exactly where some fee is undefined.
pub fn block_reward(issuance: &Issuance, txs: &Vec<TxValue>) -> (record: Option<RewardRecord>)
    ensures
        record == reward_of(*issuance, txs@),
{
    match fee_total(txs) {
        None => None,
        Some(fees) => {
            let total = clamp_total(issuance, fees);
            Some(
                RewardRecord {
                    primary: issuance.primary,
                    secondary: issuance.secondary,
                    fees,
                    total,
                },
            )
        },
    }
}

/// A block without fees and without a share of secondary issuance is paid
/// exactly its primary issuance, as long as that lies under the cap.
pub proof fn lemma_reward_is_primary(issuance: Issuance, txs: Seq<TxValue>)
    requires
        fees_defined(txs),
        fee_sum(txs) == 0,
        issuance.secondary == 0,
        issuance.primary <= issuance.cap,
    ensures
        reward_of(issuance, txs) matches Some(record) && record.total == issuance.primary,
{
}

/// The total never exceeds the cap, and below the cap nothing is withheld.
pub proof fn lemma_reward_clamped(issuance: Issuance, txs: Seq<TxValue>)
    requires
        fees_defined(txs),
    ensures
        reward_of(issuance, txs) matches Some(record) && record.total <= issuance.cap && (
        issuance.primary + issuance.secondary + fee_sum(txs) <= issuance.cap ==> record.total
            == issuance.primary + issuance.secondary + fee_sum(txs)),
{
    lemma_fee_sum_bounds(txs);
}

} // verus!
