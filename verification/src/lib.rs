//! Chain-state rules of a proof-of-work ledger over spendable cells, with the
//! small process helpers of the node binary that hosts them.

pub mod helper;
pub mod uncle;
pub mod reward;
pub mod fork;
pub mod cells;
pub mod cache;
pub mod chain;
pub mod structure;
pub mod stage;
