//! Many nodes on one machine, each in a network namespace of its own.

pub mod manager;
pub mod network;
pub mod spawner;
