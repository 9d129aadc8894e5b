//! Builds the node/link graph of a tinc mesh from the daemon's topology dump.

pub mod decimal;
pub mod domain;
pub mod failure;
pub mod fields;
pub mod poll;
pub mod tinc_tcp_stream;
