//! The buffer layer: the fixed-size frame pool with its page table, the
//! eviction policies, and the buffer manager that orchestrates them.

pub mod eviction;
pub mod manager;
