//! The miner.

pub mod context;
pub mod context_laws;
pub mod context_view;
pub mod keys;
pub mod memory_pool;
pub mod pool_laws;
pub mod pool_view;
pub mod signals;

pub use context::{initial_updates, new, Context};
pub use signals::ContextUpdateSignal;
