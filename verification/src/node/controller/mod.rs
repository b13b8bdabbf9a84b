//! What the node does on behalf of the controller.

pub mod interface;
pub mod lossless_unicast;
pub mod probe;
pub mod message_laws;
pub mod topology_laws;
pub mod connect;
pub mod flow_laws;
pub mod flowstats;
pub mod reporter;
