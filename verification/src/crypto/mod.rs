//! Hashes, keys and signatures.

pub mod hash;
pub mod sign;
