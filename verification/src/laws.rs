//! What holds of the library as a whole.

pub mod admission;
pub mod answers;
pub mod chain;
pub mod checks;
pub mod encoding;
pub mod hashes;
pub mod keys;
pub mod ledger;
pub mod merkle;
pub mod mining;
pub mod node;
pub mod payment;
pub mod pool;
pub mod replay;
pub mod texts;
pub mod values;
pub mod views;
pub mod wallet;
