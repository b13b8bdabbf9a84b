//! A scripted transfer from one node to a multicast group, with its results kept in files.

pub mod artifacts;
pub mod group_info;
pub mod harness;
pub mod script;
pub mod transfer;
