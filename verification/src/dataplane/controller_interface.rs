//! What the dataplane core does about the messages of the controller.

use std::collections::HashSet;

use vstd::prelude::*;

use crate::dataplane::NodeId;
use crate::messages::{Protocol, RoutingTableEntry};

verus! {

broadcast use vstd::std_specs::hash::group_hash_axioms;

/// A message of the controller to the dataplane core.
#[derive(Debug)]
pub enum ControlMessage {
    /// Install default routes for a number of flows.
    InstallFlow { num_flows: usize },
    AddNode { protocol: Protocol, node_id: NodeId, addr: String },
    SetLinkRate { node_id: NodeId, rate: usize },
    InstallRoutes { routes: Vec<RoutingTableEntry> },
    /// Any other message.
    Other,
}

/// What is done about a message.
#[derive(Debug)]
pub enum ControlAction {
    /// Replace the routes of all processors.
    UpdateSimpleRoutes { routes: Vec<RoutingTableEntry> },
    /// Connect to a node, then hand the new sender to all processors.
    Connect { protocol: Protocol, node_id: NodeId, addr: String },
    /// Give a link its first rate limiter.
    AddLimiter { node_id: NodeId, rate: usize },
    /// Replace the rate limiter of a link.
    ReplaceLimiter { node_id: NodeId, rate: usize },
    /// Nothing, since the message is not supported.
    Unsupported,
}

/// The route that is installed for a flow by default: from node 1 to node 4 by way of node 2.
pub open spec fn default_route(route_id: usize) -> RoutingTableEntry {
    RoutingTableEntry { route_id, next_hop: 2, src_node_id: 1, dst_node_id: 4 }
}

/// The routes that are installed for flows by default.
fn default_routes(num_flows: usize) -> (routes: Vec<RoutingTableEntry>)
    ensures
        routes@ == Seq::new(num_flows as nat, |i: int| default_route(i as usize)),
{
    let mut routes: Vec<RoutingTableEntry> = Vec::new();
    let mut i: usize = 0;
    while i < num_flows
        invariant
            i <= num_flows,
            routes@ == Seq::new(i as nat, |j: int| default_route(j as usize)),
        decreases num_flows - i,
    {
        routes.push(
            RoutingTableEntry { route_id: i, next_hop: 2, src_node_id: 1, dst_node_id: 4 },
        );
        i = i + 1;
        assert(routes@ =~= Seq::new(i as nat, |j: int| default_route(j as usize)));
    }
    routes
}

/// Turns messages of the controller into actions.
#[derive(Debug)]
pub struct ControllerReceiver {
    /// The nodes whose links have a rate limiter.
    pub limited: HashSet<NodeId>,
}

impl ControllerReceiver {
    /// No link is limited.
    pub fn new() -> (receiver: Self)
        ensures
            receiver.limited@ == Set::<NodeId>::empty(),
    {
        ControllerReceiver { limited: HashSet::new() }
    }

    /// Decides what is done about a message.
    pub fn process_control_msg(&mut self, msg: ControlMessage) -> (action: ControlAction)
        ensures
            final(self).limited@ == match msg {
                ControlMessage::SetLinkRate { node_id, .. } => old(self).limited@.insert(node_id),
                _ => old(self).limited@,
            },
            match msg {
                ControlMessage::InstallFlow { num_flows } => {
                    action matches ControlAction::UpdateSimpleRoutes { routes } && routes@
                        == Seq::new(num_flows as nat, |i: int| default_route(i as usize))
                },
                ControlMessage::AddNode { protocol, node_id, addr } => action
                    == (ControlAction::Connect { protocol, node_id, addr }),
                ControlMessage::SetLinkRate { node_id, rate } => action == (if old(
                    self,
                ).limited@.contains(node_id) {
                    ControlAction::ReplaceLimiter { node_id, rate }
                } else {
                    ControlAction::AddLimiter { node_id, rate }
                }),
                ControlMessage::InstallRoutes { routes } => action
                    == (ControlAction::UpdateSimpleRoutes { routes }),
                ControlMessage::Other => action is Unsupported,
            },
    {
        match msg {
            ControlMessage::InstallFlow { num_flows } => ControlAction::UpdateSimpleRoutes {
                routes: default_routes(num_flows),
            },
            ControlMessage::AddNode { protocol, node_id, addr } => ControlAction::Connect {
                protocol,
                node_id,
                addr,
            },
            ControlMessage::SetLinkRate { node_id, rate } => {
                let known = !self.limited.insert(node_id);
                if known {
                    ControlAction::ReplaceLimiter { node_id, rate }
                } else {
                    ControlAction::AddLimiter { node_id, rate }
                }
            },
            ControlMessage::InstallRoutes { routes } => ControlAction::UpdateSimpleRoutes {
                routes,
            },
            ControlMessage::Other => ControlAction::Unsupported,
        }
    }
}

/// By default flows go from node 1 to node 4 by way of node 2, each on a route of its own.
pub proof fn law_default_route(route_id: usize)
    ensures
        default_route(route_id).route_id == route_id,
        default_route(route_id).src_node_id == 1,
        default_route(route_id).dst_node_id == 4,
        default_route(route_id).next_hop == 2,
{
}

} // verus!
