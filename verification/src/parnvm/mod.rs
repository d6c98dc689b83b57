//! Transactions that run as a sequence of pieces.

pub mod nvm_txn;
pub mod nvm_txn_occ;
