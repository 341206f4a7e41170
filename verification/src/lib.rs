//! An embedded storage engine's buffer layer: a fixed-size in-memory page
//! cache over a block-structured disk, with pluggable eviction policies,
//! pin-count-based page lifetimes, and dirty-page write-back.

pub mod buffer;
pub mod common;
pub mod disk;
pub mod page;
pub mod relation;
