//! Which messages of the controller a processor hears of.

use vstd::prelude::*;

use crate::messages::{ControllerToDataplane, RoutingTableEntry};
use crate::node::NodeId;

verus! {

/// What the processors are told.
#[derive(Debug)]
pub enum ProcessorUpdate {
    /// A neighbor is connected, and has a scheduler.
    AddNode { node_id: NodeId, addr: String },
    /// The routes are replaced.
    UpdateRoutingTable { routes: Vec<RoutingTableEntry> },
    /// Nothing, since link rates do not concern the processors.
    Nothing,
    /// Nothing, since the message is not supported.
    Unsupported,
}

/// What the processors are told of a message of the controller.
pub fn processor_update(msg: ControllerToDataplane) -> (update: ProcessorUpdate)
    ensures
        update == match msg {
            ControllerToDataplane::AddNode { remote_node_id, remote_addr } => (
            ProcessorUpdate::AddNode { node_id: remote_node_id, addr: remote_addr }),
            ControllerToDataplane::SetLinkRate { .. } => ProcessorUpdate::Nothing,
            ControllerToDataplane::InstallRoutes { routes } => (
            ProcessorUpdate::UpdateRoutingTable { routes }),
            _ => ProcessorUpdate::Unsupported,
        },
{
    match msg {
        ControllerToDataplane::AddNode { remote_node_id, remote_addr } => ProcessorUpdate::AddNode {
            node_id: remote_node_id,
            addr: remote_addr,
        },
        ControllerToDataplane::SetLinkRate { .. } => ProcessorUpdate::Nothing,
        ControllerToDataplane::InstallRoutes { routes } => ProcessorUpdate::UpdateRoutingTable {
            routes,
        },
        _ => ProcessorUpdate::Unsupported,
    }
}

} // verus!
