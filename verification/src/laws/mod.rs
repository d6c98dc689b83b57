//! What holds of the library as a whole.

pub mod accesses;
pub mod commits;
pub mod durability;
pub mod execution;
pub mod isolation;
pub mod waiting;
