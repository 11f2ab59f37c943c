use chain_engine::structure::{
    verify_block, verify_header, verify_transaction, BlockRule, BlockShape, Limits, ProposalWindow,
    Roots, StructureError, TxRule, TxShape,
};

fn limits() -> Limits {
    Limits { max_block_bytes: 1000, max_tx_bytes: 100, max_inputs: 3, max_outputs: 4, max_uncles: 2 }
}

fn roots() -> Roots {
    Roots { transactions: 11, uncles: 22, proposals: 33 }
}

fn good_block() -> BlockShape {
    BlockShape {
        declared: roots(),
        computed: roots(),
        bytes: 1000,
        uncles: 2,
        window: ProposalWindow { closest: 2, farthest: 10 },
        txs: vec![
            TxShape { bytes: 100, inputs: 3, outputs: 4 },
            TxShape { bytes: 0, inputs: 0, outputs: 0 },
        ],
    }
}

#[test]
fn block_at_its_limits_passes() {
    assert_eq!(verify_block(&limits(), &good_block()), Ok(()));
    let mut empty = good_block();
    empty.txs.clear();
    assert_eq!(verify_block(&limits(), &empty), Ok(()));
}

#[test]
fn each_root_is_held_against_the_contents() {
    let mut b = good_block();
    b.declared.proposals = 0;
    assert_eq!(
        verify_block(&limits(), &b),
        Err(StructureError::MalformedBlock(BlockRule::ProposalsRoot))
    );
    b.declared.uncles = 0;
    assert_eq!(
        verify_block(&limits(), &b),
        Err(StructureError::MalformedBlock(BlockRule::UnclesRoot))
    );
    b.computed.transactions = 0;
    assert_eq!(
        verify_block(&limits(), &b),
        Err(StructureError::MalformedBlock(BlockRule::TransactionsRoot))
    );
}

#[test]
fn block_size_and_uncle_count_are_bounded() {
    let mut b = good_block();
    b.uncles = 3;
    assert_eq!(verify_header(&limits(), &b), Err(BlockRule::TooManyUncles));
    b.bytes = 1001;
    assert_eq!(verify_header(&limits(), &b), Err(BlockRule::TooLarge));
    assert_eq!(
        verify_block(&limits(), &b),
        Err(StructureError::MalformedBlock(BlockRule::TooLarge))
    );
}

#[test]
fn proposal_window_must_open_after_the_block_and_not_close_early() {
    let mut b = good_block();
    b.window = ProposalWindow { closest: 0, farthest: 10 };
    assert_eq!(verify_header(&limits(), &b), Err(BlockRule::ProposalWindow));
    b.window = ProposalWindow { closest: 5, farthest: 4 };
    assert_eq!(verify_header(&limits(), &b), Err(BlockRule::ProposalWindow));
    b.window = ProposalWindow { closest: 1, farthest: 1 };
    assert_eq!(verify_header(&limits(), &b), Ok(()));
}

#[test]
fn first_malformed_transaction_is_named_with_its_place() {
    let mut b = good_block();
    b.txs.push(TxShape { bytes: 5, inputs: 4, outputs: 9 });
    b.txs.push(TxShape { bytes: 500, inputs: 0, outputs: 0 });
    assert_eq!(
        verify_block(&limits(), &b),
        Err(StructureError::MalformedTransaction { index: 2, rule: TxRule::TooManyInputs })
    );
    b.uncles = 9;
    assert_eq!(
        verify_block(&limits(), &b),
        Err(StructureError::MalformedBlock(BlockRule::TooManyUncles))
    );
}

#[test]
fn transaction_rules_are_tried_in_order() {
    let l = limits();
    assert_eq!(
        verify_transaction(&l, &TxShape { bytes: 101, inputs: 9, outputs: 9 }),
        Err(TxRule::TooLarge)
    );
    assert_eq!(
        verify_transaction(&l, &TxShape { bytes: 100, inputs: 4, outputs: 9 }),
        Err(TxRule::TooManyInputs)
    );
    assert_eq!(
        verify_transaction(&l, &TxShape { bytes: 100, inputs: 3, outputs: 5 }),
        Err(TxRule::TooManyOutputs)
    );
    assert_eq!(verify_transaction(&l, &TxShape { bytes: 100, inputs: 3, outputs: 4 }), Ok(()));
}
