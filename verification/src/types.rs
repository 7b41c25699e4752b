//! The parts of the ledger.

pub mod block;
pub mod blockchain;
pub mod transaction;

pub use block::{Block, BlockHeader};
pub use blockchain::Blockchain;
pub use transaction::{Transaction, TransactionInput, TransactionOutput};
