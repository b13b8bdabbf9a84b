//! Which flows of the controller concern a node.

use vstd::prelude::*;

use crate::messages::Flow;
use crate::net::Ipv4Addr;
use crate::node::NodeId;

verus! {

/// The user-space TCP stack of a node.
#[derive(Debug)]
pub struct UserSpaceTcp {
    pub node_id: NodeId,
    pub user_space_address: Ipv4Addr,
    /// Whether there are a client and a server.
    pub started: bool,
}

/// What is to be done about new flows.
#[derive(Debug)]
pub struct NewFlows {
    /// Whether a client and a server are to be created first.
    pub create_handles: bool,
    /// The flows that the server receives.
    pub incoming: Vec<Flow>,
    /// The flows that the client sends.
    pub outgoing: Vec<Flow>,
}

/// The flows that end at a node.
pub open spec fn flows_to(flows: Seq<Flow>, node_id: NodeId) -> Seq<Flow> {
    flows.filter(|f: Flow| f.dst_node_id == node_id)
}

/// The flows that start at a node.
pub open spec fn flows_from(flows: Seq<Flow>, node_id: NodeId) -> Seq<Flow> {
    flows.filter(|f: Flow| f.src_node_id == node_id)
}

impl UserSpaceTcp {
    /// A stack without flows.
    pub fn new(node_id: NodeId, user_space_address: Ipv4Addr) -> (tcp: Self)
        ensures
            tcp == (UserSpaceTcp { node_id, user_space_address, started: false }),
    {
        UserSpaceTcp { node_id, user_space_address, started: false }
    }

    /// Sorts new flows into those that this node receives and those that it sends. The first call
    /// starts the client and the server, unless the node has no user-space address; without them
    /// the flows are dropped.
    pub fn add_flows(&mut self, flows: &Vec<Flow>) -> (added: NewFlows)
        ensures
            added.create_handles == (!old(self).started && old(self).user_space_address.bits != 0),
            *final(self) == (UserSpaceTcp {
                started: old(self).started || added.create_handles,
                ..*old(self)
            }),
            added.incoming@ == if final(self).started {
                flows_to(flows@, old(self).node_id)
            } else {
                Seq::empty()
            },
            added.outgoing@ == if final(self).started {
                flows_from(flows@, old(self).node_id)
            } else {
                Seq::empty()
            },
    {
        let create_handles = !self.started && self.user_space_address.bits != 0;
        if create_handles {
            self.started = true;
        }
        let mut incoming: Vec<Flow> = Vec::new();
        let mut outgoing: Vec<Flow> = Vec::new();
        if self.started {
            let ghost to = |f: Flow| f.dst_node_id == self.node_id;
            let ghost from = |f: Flow| f.src_node_id == self.node_id;
            let mut i: usize = 0;
            proof {
                reveal(Seq::filter);
                assert(flows@.take(0) =~= Seq::<Flow>::empty());
            }
            while i < flows.len()
                invariant
                    i <= flows.len(),
                    to == (|f: Flow| f.dst_node_id == self.node_id),
                    from == (|f: Flow| f.src_node_id == self.node_id),
                    incoming@ == flows@.take(i as int).filter(to),
                    outgoing@ == flows@.take(i as int).filter(from),
                decreases flows.len() - i,
            {
                let flow = flows[i];
                proof {
                    reveal(Seq::filter);
                    assert(flows@.take(i + 1).drop_last() =~= flows@.take(i as int));
                }
                if flow.dst_node_id == self.node_id {
                    incoming.push(flow);
                }
                if flow.src_node_id == self.node_id {
                    outgoing.push(flow);
                }
                i = i + 1;
            }
            assert(flows@.take(i as int) =~= flows@);
        }
        NewFlows { create_handles, incoming, outgoing }
    }
}

/// A flow reaches both its ends: it is outgoing at its source and incoming at its destination.
pub proof fn law_both_ends_take_a_flow(flows: Seq<Flow>, i: int)
    requires
        0 <= i < flows.len(),
    ensures
        flows_to(flows, flows[i].dst_node_id).contains(flows[i]),
        flows_from(flows, flows[i].src_node_id).contains(flows[i]),
{
    let flow = flows[i];
    flows.lemma_filter_contains(|f: Flow| f.dst_node_id == flow.dst_node_id, i);
    flows.lemma_filter_contains(|f: Flow| f.src_node_id == flow.src_node_id, i);
}

/// A node receives the flows of which it is the destination and sends those of which it is the
/// source, and no others.
pub proof fn law_flows_are_taken_by_their_ends(flows: Seq<Flow>, node_id: NodeId, flow: Flow)
    ensures
        flows_to(flows, node_id).contains(flow) <==> flows.contains(flow) && flow.dst_node_id
            == node_id,
        flows_from(flows, node_id).contains(flow) <==> flows.contains(flow) && flow.src_node_id
            == node_id,
    decreases flows.len(),
{
    reveal(Seq::filter);
    if flows.len() > 0 {
        let earlier = flows.drop_last();
        let last = flows.last();
        law_flows_are_taken_by_their_ends(earlier, node_id, flow);
        assert(flows =~= earlier.push(last));
        lemma_push_contains(earlier, last, flow);
        lemma_push_contains(flows_to(earlier, node_id), last, flow);
        lemma_push_contains(flows_from(earlier, node_id), last, flow);
    }
}

proof fn lemma_push_contains(flows: Seq<Flow>, last: Flow, flow: Flow)
    ensures
        flows.push(last).contains(flow) <==> flows.contains(flow) || flow == last,
{
    let all = flows.push(last);
    if flows.contains(flow) {
        let i = choose|i: int| 0 <= i < flows.len() && flows[i] == flow;
        assert(all[i] == flow);
    }
    if flow == last {
        assert(all[flows.len() as int] == flow);
    }
    if all.contains(flow) {
        let i = choose|i: int| 0 <= i < all.len() && all[i] == flow;
        if i < flows.len() {
            assert(flows[i] == flow);
        }
    }
}

} // verus!
