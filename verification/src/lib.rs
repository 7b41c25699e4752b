//! A toy Bitcoin: proof-of-work mining, a ledger of unspent transaction
//! outputs, and the decisions of the node, the miner and the wallet that work
//! on it. Every function is verified but for the wrappers of calls into outside
//! crates: those are marked `external_body`, and their contracts are trusted.

use crate::u256::U256;
use vstd::prelude::*;

pub mod bytes;
pub mod cbor;
pub mod command;
pub mod crypto;
pub mod decimal;
pub mod error;
pub mod laws;
pub mod miner;
pub mod network;
pub mod node;
pub mod screen;
pub mod sha256;
pub mod table;
pub mod text;
pub mod time;
pub mod types;
pub mod u256;
pub mod unique_id;
pub mod util;
pub mod wallet;

verus! {

/// The reward of the first blocks, in whole coins of 10^8 base units.
pub const INITIAL_REWARD: u64 = 50;

/// The number of blocks after which the reward halves.
pub const HALVING_INTERVAL: u64 = 210;

/// The number of seconds that a block should take.
pub const IDEAL_BLOCK_TIME: u64 = 10;

/// The number of blocks after which the target is adjusted.
pub const DIFFICULTY_UPDATE_INTERVAL: u64 = 50;

/// The number of seconds for which a transaction may wait for a block.
pub const MAX_MEMPOOL_TRANSACTION_AGE: u64 = 3600;

/// The number of transactions that a block may hold, its coinbase included.
pub const BLOCK_TRANSACTION_CAP: usize = 20;

/// The upper half of the easiest target.
pub const MIN_TARGET_HI: u128 = 0x0000_ffff_ffff_ffff_ffff_ffff_ffff_ffff;

/// The lower half of the easiest target.
pub const MIN_TARGET_LO: u128 = 0xffff_ffff_ffff_ffff_ffff_ffff_ffff_ffff;

/// The easiest target: no target is larger.
pub open spec fn easiest_target() -> U256 {
    U256 { hi: MIN_TARGET_HI, lo: MIN_TARGET_LO }
}

/// The easiest target, which asks for the least work.
pub fn min_target() -> (r: U256)
    ensures
        r == easiest_target(),
{
    U256 { hi: MIN_TARGET_HI, lo: MIN_TARGET_LO }
}

} // verus!
