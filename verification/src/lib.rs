//! The memory pool, the transactions and the mining loop of a Prism node.

pub mod block;
pub mod config;
pub mod crypto;
pub mod miner;
pub mod order;
pub mod table;
pub mod transaction;
