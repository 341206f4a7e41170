//! The record layer: database records and their addresses. Records consume
//! buffer-pool handles; their binary layout is interpreted elsewhere.

pub mod record;
