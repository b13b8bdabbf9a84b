//! Verified core of the Nextmini dataplane.
//!
//! A dataplane node forwards traffic along routes that a controller installs. This crate holds the
//! rules such a node follows: how packets map to flows, how routes are chosen, how reordered TCP
//! segments are put back in order, how flow statistics are kept, and how control messages move the
//! node from start-up to a ready topology. Sockets, timers and devices stay with the caller, which
//! hands in plain values and carries out the actions that come back.

pub mod actors;
pub mod dataplane;
pub mod lines;
pub mod messages;
pub mod net;
pub mod node;
pub mod numbering;
pub mod text;
