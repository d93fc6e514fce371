//! The parameters of the chains.

use crate::crypto::hash::H256;
use vstd::prelude::*;

verus! {

/// Where the proposer content stands among the contents of a miner.
pub const PROPOSER_INDEX: u16 = 0;

/// Where the transaction content stands among the contents of a miner.
pub const TRANSACTION_INDEX: u16 = 1;

/// Where the content of the first voter chain stands among the contents of a miner.
pub const FIRST_VOTER_INDEX: u16 = 2;

/// The parameters of the chains.
#[derive(Debug)]
pub struct BlockchainConfig {
    /// Number of voter chains.
    pub voter_chains: u16,
    /// Maximum number of transactions in a transaction block.
    pub tx_txs: u32,
    /// Maximum number of transaction blocks that a proposer block refers to.
    pub proposer_tx_refs: u32,
    /// Hash of the proposer genesis block.
    pub proposer_genesis: H256,
    /// Hashes of the voter genesis blocks, one for each chain.
    pub voter_genesis: Vec<H256>,
    /// The difficulty where no block sets one.
    pub default_difficulty: H256,
}

impl BlockchainConfig {
    /// Whether every voter chain has a genesis block, and every content an index.
    pub open spec fn valid(&self) -> bool {
        &&& self.voter_chains <= self.voter_genesis@.len()
        &&& FIRST_VOTER_INDEX + self.voter_chains <= u16::MAX + 1
    }
}

} // verus!
