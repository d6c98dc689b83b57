//! Transactions over shared objects in (possibly persistent) memory.

pub mod laws;
pub mod parnvm;
pub mod piece;
pub mod plog;
pub mod tcore;
pub mod txn;
pub mod workload;
