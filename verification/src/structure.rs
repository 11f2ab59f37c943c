//! Checks that need nothing but the block itself: declared roots against
//! the roots of the contents, sizes, counts, and the form of the proposal
//! window. They run before any look at the chain.

use vstd::prelude::*;

verus! {

/// The bounds that blocks and transactions are held to.
#[derive(Clone, Copy, Debug, PartialEq, Eq, Structural)]
pub struct Limits {
    pub max_block_bytes: u64,
    pub max_tx_bytes: u64,
    pub max_inputs: usize,
    pub max_outputs: usize,
    pub max_uncles: usize,
}

/// Size and counts of one transaction.
#[derive(Clone, Copy, Debug, PartialEq, Eq, Structural)]
pub struct TxShape {
    pub bytes: u64,
    pub inputs: usize,
    pub outputs: usize,
}

/// The three commitments of a header.
#[derive(Clone, Copy, Debug, PartialEq, Eq, Structural)]
pub struct Roots {
    pub transactions: u64,
    pub uncles: u64,
    pub proposals: u64,
}

/// The span of heights, counted from the proposing block, in which a
/// proposed transaction may be committed.
#[derive(Clone, Copy, Debug, PartialEq, Eq, Structural)]
pub struct ProposalWindow {
    pub closest: u64,
    pub farthest: u64,
}

/// What the checks read of a block. `computed` holds the roots of the
/// block's actual contents, as the hash function gave them.
#[derive(Debug)]
pub struct BlockShape {
    pub declared: Roots,
    pub computed: Roots,
    pub bytes: u64,
    pub uncles: usize,
    pub window: ProposalWindow,
    pub txs: Vec<TxShape>,
}

/// The rule that a transaction breaks.
#[derive(Clone, Copy, Debug, PartialEq, Eq, Structural)]
pub enum TxRule {
    TooLarge,
    TooManyInputs,
    TooManyOutputs,
}

/// The rule that a block breaks.
#[derive(Clone, Copy, Debug, PartialEq, Eq, Structural)]
pub enum BlockRule {
    TransactionsRoot,
    UnclesRoot,
    ProposalsRoot,
    TooLarge,
    TooManyUncles,
    ProposalWindow,
}

/// Why a block is malformed.
#[derive(Clone, Copy, Debug, PartialEq, Eq, Structural)]
pub enum StructureError {
    MalformedBlock(BlockRule),
    MalformedTransaction { index: usize, rule: TxRule },
}

/// The first rule that the transaction breaks: size, then inputs, then
/// outputs.
pub open spec fn tx_fault(limits: Limits, tx: TxShape) -> Option<TxRule> {
    if tx.bytes > limits.max_tx_bytes {
        Some(TxRule::TooLarge)
    } else if tx.inputs > limits.max_inputs {
        Some(TxRule::TooManyInputs)
    } else if tx.outputs > limits.max_outputs {
        Some(TxRule::TooManyOutputs)
    } else {
        None
    }
}

/// A window is well formed when it opens at least one block after the
/// proposal and does not close before it opens.
pub open spec fn window_ok(window: ProposalWindow) -> bool {
    1 <= window.closest <= window.farthest
}

/// The first rule that the block itself breaks: the three roots in the
/// header's order, then size, uncle count and proposal window.
pub open spec fn header_fault(
    limits: Limits,
    declared: Roots,
    computed: Roots,
    bytes: u64,
    uncles: usize,
    window: ProposalWindow,
) -> Option<BlockRule> {
    if declared.transactions != computed.transactions {
        Some(BlockRule::TransactionsRoot)
    } else if declared.uncles != computed.uncles {
        Some(BlockRule::UnclesRoot)
    } else if declared.proposals != computed.proposals {
        Some(BlockRule::ProposalsRoot)
    } else if bytes > limits.max_block_bytes {
        Some(BlockRule::TooLarge)
    } else if uncles > limits.max_uncles {
        Some(BlockRule::TooManyUncles)
    } else if !window_ok(window) {
        Some(BlockRule::ProposalWindow)
    } else {
        None
    }
}

/// The verdict on the transactions from place `from` on: the fault of the
/// first one that has any.
pub open spec fn txs_verdict(limits: Limits, txs: Seq<TxShape>, from: int) -> Result<
    (),
    StructureError,
>
    decreases txs.len() - from,
{
    if from < 0 || from >= txs.len() {
        Ok(())
    } else {
        match tx_fault(limits, txs[from]) {
            Some(rule) => Err(StructureError::MalformedTransaction { index: from as usize, rule }),
            None => txs_verdict(limits, txs, from + 1),
        }
    }
}

/// The verdict on a block: a fault of the block itself comes before any
/// fault of a transaction.
pub open spec fn block_verdict(
    limits: Limits,
    declared: Roots,
    computed: Roots,
    bytes: u64,
    uncles: usize,
    window: ProposalWindow,
    txs: Seq<TxShape>,
) -> Result<(), StructureError> {
    match header_fault(limits, declared, computed, bytes, uncles, window) {
        Some(rule) => Err(StructureError::MalformedBlock(rule)),
        None => txs_verdict(limits, txs, 0),
    }
}

/// The transactions from place `from` on pass exactly when none of them
/// breaks a rule.
pub proof fn lemma_txs_verdict_ok(limits: Limits, txs: Seq<TxShape>, from: int)
    requires
        0 <= from,
    ensures
        txs_verdict(limits, txs, from).is_ok() <==> forall|i: int|
            from <= i < txs.len() ==> (#[trigger] tx_fault(limits, txs[i])).is_none(),
    decreases txs.len() - from,
{
    if from < txs.len() {
        lemma_txs_verdict_ok(limits, txs, from + 1);
        if tx_fault(limits, txs[from]).is_none() {
            assert forall|i: int| from <= i < txs.len() && (forall|j: int|
                from + 1 <= j < txs.len() ==> (#[trigger] tx_fault(
                    limits,
                    txs[j],
                )).is_none()) implies (#[trigger] tx_fault(limits, txs[i])).is_none() by {
                if i > from {
                    assert(from + 1 <= i < txs.len());
                }
            }
        }
    }
}

/// Checks one transaction.
pub fn verify_transaction(limits: &Limits, tx: &TxShape) -> (verdict: Result<(), TxRule>)
    ensures
        verdict == match tx_fault(*limits, *tx) {
            Some(rule) => Err::<(), TxRule>(rule),
            None => Ok::<(), TxRule>(()),
        },
{
    if tx.bytes > limits.max_tx_bytes {
        Err(TxRule::TooLarge)
    } else if tx.inputs > limits.max_inputs {
        Err(TxRule::TooManyInputs)
    } else if tx.outputs > limits.max_outputs {
        Err(TxRule::TooManyOutputs)
    } else {
        Ok(())
    }
}

/// Checks the block's own rules, leaving its transactions aside.
pub fn verify_header(limits: &Limits, block: &BlockShape) -> (verdict: Result<(), BlockRule>)
    ensures
        verdict == match header_fault(
            *limits,
            block.declared,
            block.computed,
            block.bytes,
            block.uncles,
            block.window,
        ) {
            Some(rule) => Err::<(), BlockRule>(rule),
            None => Ok::<(), BlockRule>(()),
        },
{
    if block.declared.transactions != block.computed.transactions {
        Err(BlockRule::TransactionsRoot)
    } else if block.declared.uncles != block.computed.uncles {
        Err(BlockRule::UnclesRoot)
    } else if block.declared.proposals != block.computed.proposals {
        Err(BlockRule::ProposalsRoot)
    } else if block.bytes > limits.max_block_bytes {
        Err(BlockRule::TooLarge)
    } else if block.uncles > limits.max_uncles {
        Err(BlockRule::TooManyUncles)
    } else if block.window.closest < 1 || block.window.closest > block.window.farthest {
        Err(BlockRule::ProposalWindow)
    } else {
        Ok(())
    }
}

/// Checks a block by its own contents. The error names the rule that is
/// broken, and for a transaction its place in the block.
pub fn verify_block(limits: &Limits, block: &BlockShape) -> (verdict: Result<(), StructureError>)
    ensures
        verdict == block_verdict(
            *limits,
            block.declared,
            block.computed,
            block.bytes,
            block.uncles,
            block.window,
            block.txs@,
        ),
{
    match verify_header(limits, block) {
        Err(rule) => {
            return Err(StructureError::MalformedBlock(rule));
        },
        Ok(()) => {},
    }
    let mut i: usize = 0;
    while i < block.txs.len()
        invariant
            i <= block.txs.len(),
            header_fault(
                *limits,
                block.declared,
                block.computed,
                block.bytes,
                block.uncles,
                block.window,
            ).is_none(),
            txs_verdict(*limits, block.txs@, 0) == txs_verdict(*limits, block.txs@, i as int),
        decreases block.txs.len() - i,
    {
        match verify_transaction(limits, &block.txs[i]) {
            Err(rule) => {
                return Err(StructureError::MalformedTransaction { index: i, rule });
            },
            Ok(()) => {},
        }
        i += 1;
    }
    Ok(())
}

} // verus!
