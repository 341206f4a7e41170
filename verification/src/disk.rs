//! Block-level storage: allocation of block identifiers and block contents.

pub mod manager;
