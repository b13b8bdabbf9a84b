//! A minimal processor: packets go to the local writer or to the sender of their next hop.

use std::collections::HashMap;

use vstd::prelude::*;

use crate::node::NodeId;

verus! {

broadcast use vstd::std_specs::hash::group_hash_axioms;

/// Where a packet goes. Senders are known by number.
#[derive(Clone, Copy, Debug, PartialEq, Eq, Structural)]
pub enum Destination {
    /// To the local writer.
    Local,
    Sender(usize),
    /// Nowhere: there is no sender to the next hop.
    NoSender(NodeId),
    /// Nowhere: the flow has no route.
    NoRoute,
}

/// A processor of a node.
#[derive(Debug)]
pub struct Processor {
    pub local_id: NodeId,
    pub senders: HashMap<NodeId, usize>,
}

impl Processor {
    /// Decides where a packet goes whose next hop was looked up.
    pub fn dispatch(&self, next_hop: Option<NodeId>) -> (destination: Destination)
        ensures
            destination == match next_hop {
                None => Destination::NoRoute,
                Some(next_hop) => if next_hop == self.local_id {
                    Destination::Local
                } else if self.senders@.contains_key(next_hop) {
                    Destination::Sender(self.senders@[next_hop])
                } else {
                    Destination::NoSender(next_hop)
                },
            },
    {
        let next_hop: NodeId = match next_hop {
            Some(next_hop) => next_hop,
            None => {
                return Destination::NoRoute;
            },
        };
        if next_hop == self.local_id {
            return Destination::Local;
        }
        match self.senders.get(&next_hop) {
            Some(sender) => Destination::Sender(*sender),
            None => Destination::NoSender(next_hop),
        }
    }
}

} // verus!
