//! Why the ledger refuses a block or a transaction.

use vstd::prelude::*;

verus! {

/// Why the ledger refuses a block or a transaction.
#[derive(Clone, Copy, Debug, PartialEq, Eq, Structural)]
pub enum BlockChainError {
    InvalidTransaction,
    InvalidBlock,
    InvalidBlockHeader,
    InvalidTransactionInput,
    InvalidTransactionOutput,
    InvalidMerkleRoot,
}

} // verus!
