use vstd::prelude::*;

pub mod hash;
pub mod types;
pub mod encoding;
pub mod ledger;
pub mod chain;
pub mod mempool;
pub mod miner;
pub mod peer;

verus! {

/// Fixed reward credited by the coinbase transaction of every block.
pub const BLOCK_SUBSIDY: u64 = 100;

} // verus!
