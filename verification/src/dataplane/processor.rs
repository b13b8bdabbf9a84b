//! What a processor does with a packet, and which processor a flow is handed to.

use vstd::prelude::*;

use crate::dataplane::routes::{self, Routing, RoutingTable};
use crate::dataplane::{FlowId, NodeId};
use crate::messages::RoutingTableEntry;
use crate::node;
use crate::numbering::{fx_get, fx_insert, fx_new};
use crate::text::append_decimal;

verus! {

broadcast use vstd::std_specs::hash::group_hash_axioms;

/// Where a packet goes.
#[derive(Clone, Copy, Debug, PartialEq, Eq, Structural)]
pub enum Delivery {
    /// To the applications on this node.
    Local,
    /// To a neighbor, through the sender with this number.
    Sender(usize),
}

/// Why a packet is dropped.
#[derive(Clone, Copy, Debug, PartialEq, Eq, Structural)]
pub enum RouteError {
    /// No route leads from the source to the destination of the flow.
    NoRoute { flow_id: FlowId },
    /// The route has the ID 0, which stands for no route.
    NotSelectable,
    /// The route has no next hop.
    NoNextHop { route_id: usize, flow_id: FlowId },
    /// There is no connection to the next hop.
    Unreachable { next_hop_id: NodeId, flow_id: FlowId },
}

impl RouteError {
    /// The error in words.
    pub open spec fn text(self) -> Seq<char> {
        match self {
            RouteError::NoRoute { flow_id } => "No route is found for flow "@ + crate::text::decimal(
                flow_id as nat,
            ) + ": the routing table may be misconfigured."@,
            RouteError::NotSelectable => "No route can be selected."@,
            RouteError::NoNextHop { route_id, flow_id } => "No next hop is found for route id "@
                + crate::text::decimal(route_id as nat) + " on flow "@ + crate::text::decimal(
                flow_id as nat,
            ) + ": routing inconsistency detected."@,
            RouteError::Unreachable { next_hop_id, flow_id } => "Next hop node "@
                + crate::text::decimal(next_hop_id as nat)
                + " is offline or unreachable for flow "@ + crate::text::decimal(flow_id as nat)
                + ": connection may have been lost."@,
        }
    }

    /// The error in words.
    pub fn message(&self) -> (message: String)
        ensures
            message@ == self.text(),
    {
        let mut message = String::new();
        match *self {
            RouteError::NoRoute { flow_id } => {
                message.append("No route is found for flow ");
                append_decimal(&mut message, flow_id);
                message.append(": the routing table may be misconfigured.");
            },
            RouteError::NotSelectable => {
                message.append("No route can be selected.");
            },
            RouteError::NoNextHop { route_id, flow_id } => {
                message.append("No next hop is found for route id ");
                append_decimal(&mut message, route_id as u128);
                message.append(" on flow ");
                append_decimal(&mut message, flow_id);
                message.append(": routing inconsistency detected.");
            },
            RouteError::Unreachable { next_hop_id, flow_id } => {
                message.append("Next hop node ");
                append_decimal(&mut message, next_hop_id as u128);
                message.append(" is offline or unreachable for flow ");
                append_decimal(&mut message, flow_id);
                message.append(": connection may have been lost.");
            },
        }
        assert(message@ =~= self.text());
        message
    }
}

/// Where a packet goes whose next hop is known.
pub open spec fn next_hop_delivery(
    next_hop_id: NodeId,
    flow_id: FlowId,
    local_id: NodeId,
    senders: Map<NodeId, usize>,
) -> Result<Delivery, RouteError> {
    if next_hop_id == local_id {
        Ok(Delivery::Local)
    } else if senders.contains_key(next_hop_id) {
        Ok(Delivery::Sender(senders[next_hop_id]))
    } else {
        Err(RouteError::Unreachable { next_hop_id, flow_id })
    }
}

/// Where a packet of a flow goes.
pub open spec fn flow_delivery(
    table: Routing,
    senders: Map<NodeId, usize>,
    flow_id: FlowId,
) -> Result<Delivery, RouteError> {
    let direction = routes::flow_direction(flow_id, table.base_ip);
    if !table.directions.contains_key(direction) {
        Err(RouteError::NoRoute { flow_id })
    } else {
        let route_id = routes::route_choice(table.directions[direction], flow_id);
        if route_id == 0 {
            Err(RouteError::NotSelectable)
        } else {
            next_hop_delivery(table.next_hops[route_id], flow_id, table.local_id, senders)
        }
    }
}

/// Sends packets on according to a routing table.
pub struct Processor {
    pub routing_table: RoutingTable,
    /// The number of the sender to each connected neighbor.
    pub senders: fxhash::FxHashMap<NodeId, usize>,
}

impl Processor {
    /// A processor without connections.
    pub fn new(routing_table: RoutingTable) -> (processor: Self)
        ensures
            processor.routing_table == routing_table,
            processor.senders@ == Map::<NodeId, usize>::empty(),
    {
        Processor { routing_table, senders: fx_new() }
    }

    /// Takes note of the sender to a neighbor.
    pub fn add_sender(&mut self, node_id: NodeId, sender: usize)
        ensures
            final(self).senders@ == old(self).senders@.insert(node_id, sender),
            final(self).routing_table == old(self).routing_table,
    {
        fx_insert(&mut self.senders, node_id, sender);
    }

    /// Replaces the routes, for addresses that count from 10.0.0.0.
    pub fn update_simple_routes(&mut self, routes: Vec<RoutingTableEntry>)
        requires
            old(self).routing_table.wf(),
        ensures
            final(self).routing_table.wf(),
            final(self).senders@ == old(self).senders@,
            final(self).routing_table@ == (Routing {
                next_hops: routes::next_hops_of(routes@),
                directions: routes::directions_of(routes@),
                cache: Map::empty(),
                local_id: old(self).routing_table@.local_id,
                base_ip: 0x0A00_0000,
            }),
    {
        self.routing_table.set_base_ipv4_addr([10, 0, 0, 0]);
        self.routing_table.install_routes(routes);
    }

    /// Decides where a packet of a flow goes.
    pub fn process_packet(&mut self, flow_id: FlowId) -> (delivery: Result<Delivery, RouteError>)
        requires
            old(self).routing_table.wf(),
            node::flow_src(flow_id) >= old(self).routing_table@.base_ip,
            node::flow_dst(flow_id) >= old(self).routing_table@.base_ip,
            old(self).routing_table@.can_select(flow_id),
        ensures
            final(self).routing_table.wf(),
            final(self).senders@ == old(self).senders@,
            final(self).routing_table@ == old(self).routing_table@.selected(flow_id),
            delivery == flow_delivery(old(self).routing_table@, old(self).senders@, flow_id),
    {
        let route_id: usize = match self.routing_table.select_route_for_flow(flow_id) {
            Some(route_id) => route_id,
            None => {
                return Err(RouteError::NoRoute { flow_id });
            },
        };
        if route_id == 0 {
            return Err(RouteError::NotSelectable);
        }
        match self.routing_table.get_next_hop_by_route(route_id) {
            Some(next_hop_id) => self.send_packet_to_next_hop(next_hop_id, flow_id),
            None => Err(RouteError::NoNextHop { route_id, flow_id }),
        }
    }

    /// Decides where a packet goes whose next hop is known.
    pub fn send_packet_to_next_hop(&self, next_hop_id: NodeId, flow_id: FlowId) -> (delivery: Result<
        Delivery,
        RouteError,
    >)
        ensures
            delivery == next_hop_delivery(
                next_hop_id,
                flow_id,
                self.routing_table@.local_id,
                self.senders@,
            ),
    {
        if next_hop_id == self.routing_table.local_id {
            return Ok(Delivery::Local);
        }
        match fx_get(&self.senders, &next_hop_id) {
            Some(sender) => Ok(Delivery::Sender(sender)),
            None => Err(RouteError::Unreachable { next_hop_id, flow_id }),
        }
    }
}

/// How flows are spread over processors.
#[verifier::ext_equal]
pub struct Spread {
    /// The processor of each flow that was seen.
    pub assigned: Map<FlowId, usize>,
    /// The processor of the next new flow.
    pub current: int,
    /// The number of processors.
    pub processors: int,
}

impl Spread {
    /// No flow was seen.
    pub open spec fn initial(processors: int) -> Spread {
        Spread { assigned: Map::empty(), current: 0, processors }
    }

    /// Flows are assigned to processors that exist. Without processors no flow was seen.
    pub open spec fn wf(self) -> bool {
        &&& 0 <= self.current
        &&& self.current < self.processors || self.current == 0
        &&& 0 <= self.processors <= usize::MAX
        &&& forall|f: FlowId| #[trigger]
            self.assigned.contains_key(f) ==> self.assigned[f] < self.processors
    }

    /// The processor that takes a packet of a flow.
    pub open spec fn place(self, flow_id: FlowId) -> usize {
        if self.assigned.contains_key(flow_id) {
            self.assigned[flow_id]
        } else {
            self.current as usize
        }
    }

    /// What a packet of a flow leaves behind: a new flow stays with the processor whose turn it is.
    pub open spec fn after(self, flow_id: FlowId) -> Spread {
        if self.assigned.contains_key(flow_id) {
            self
        } else {
            Spread {
                assigned: self.assigned.insert(flow_id, self.current as usize),
                current: (self.current + 1) % self.processors,
                ..self
            }
        }
    }

    /// What packets of flows leave behind.
    pub open spec fn after_all(self, flows: Seq<FlowId>) -> Spread
        decreases flows.len(),
    {
        if flows.len() == 0 {
            self
        } else {
            self.after_all(flows.drop_last()).after(flows.last())
        }
    }
}

/// All packets of a flow go to the same processor, whatever packets come in between, so that they
/// are not reordered there.
pub proof fn law_flow_stays_with_its_processor(spread: Spread, flow_id: FlowId, between: Seq<FlowId>)
    ensures
        spread.after(flow_id).after_all(between).place(flow_id) == spread.place(flow_id),
{
    lemma_assignment_stays(spread.after(flow_id), flow_id, between);
}

proof fn lemma_assignment_stays(spread: Spread, flow_id: FlowId, flows: Seq<FlowId>)
    requires
        spread.assigned.contains_key(flow_id),
    ensures
        spread.after_all(flows).assigned.contains_key(flow_id),
        spread.after_all(flows).assigned[flow_id] == spread.assigned[flow_id],
    decreases flows.len(),
{
    if flows.len() > 0 {
        lemma_assignment_stays(spread, flow_id, flows.drop_last());
    }
}

/// New flows take turns: the processors get them one after the other, over and over.
pub proof fn law_new_flows_take_turns(processors: int, flows: Seq<FlowId>, i: int)
    requires
        0 < processors <= usize::MAX,
        flows.no_duplicates(),
        0 <= i < flows.len(),
    ensures
        Spread::initial(processors).after_all(flows).place(flows[i]) == i % processors,
{
    lemma_turns(processors, flows);
}

proof fn lemma_turns(processors: int, flows: Seq<FlowId>)
    requires
        0 < processors <= usize::MAX,
        flows.no_duplicates(),
    ensures
        ({
            let spread = Spread::initial(processors).after_all(flows);
            &&& spread.processors == processors
            &&& spread.current == flows.len() as int % processors
            &&& forall|f: FlowId| #[trigger] spread.assigned.contains_key(f) <==> flows.contains(f)
            &&& forall|i: int|
                0 <= i < flows.len() ==> spread.assigned[#[trigger] flows[i]] == i % processors
        }),
    decreases flows.len(),
{
    vstd::arithmetic::div_mod::lemma_mod_pos_bound(flows.len() as int, processors);
    if flows.len() == 0 {
        vstd::arithmetic::div_mod::lemma_small_mod(0, processors as nat);
    } else {
        let earlier = flows.drop_last();
        let before = Spread::initial(processors).after_all(earlier);
        let last = flows.last();
        let spread = before.after(last);
        lemma_turns(processors, earlier);
        assert(!earlier.contains(last)) by {
            if earlier.contains(last) {
                let i = choose|i: int| 0 <= i < earlier.len() && earlier[i] == last;
                assert(flows[i] == flows[flows.len() - 1]);
            }
        }
        vstd::arithmetic::div_mod::lemma_mod_pos_bound(earlier.len() as int, processors);
        vstd::arithmetic::div_mod::lemma_add_mod_noop_right(1, earlier.len() as int, processors);
        assert forall|f: FlowId| #[trigger]
            spread.assigned.contains_key(f) <==> flows.contains(f) by {
            if earlier.contains(f) {
                let i = choose|i: int| 0 <= i < earlier.len() && earlier[i] == f;
                assert(flows[i] == f);
            }
            if flows.contains(f) && f != last {
                let i = choose|i: int| 0 <= i < flows.len() && flows[i] == f;
                assert(earlier[i] == f);
            }
            assert(flows[flows.len() - 1] == last);
        }
        assert forall|i: int| 0 <= i < flows.len() implies spread.assigned[#[trigger] flows[i]] == i
            % processors by {
            if i < earlier.len() {
                assert(earlier[i] == flows[i]);
                assert(flows[i] != last);
            }
        }
    }
}

/// Spreads flows over processors: each new flow goes to the next processor in turn, and stays with
/// it.
pub struct SenderLoadBalancer {
    tx_current: usize,
    flow2proc: fxhash::FxHashMap<FlowId, usize>,
    n_proc: usize,
}

impl View for SenderLoadBalancer {
    type V = Spread;

    closed spec fn view(&self) -> Spread {
        Spread {
            assigned: self.flow2proc@,
            current: self.tx_current as int,
            processors: self.n_proc as int,
        }
    }
}

impl Clone for SenderLoadBalancer {
    /// A balancer that has seen the same flows.
    fn clone(&self) -> (copy: Self)
        ensures
            copy@ == self@,
    {
        SenderLoadBalancer {
            tx_current: self.tx_current,
            flow2proc: self.flow2proc.clone(),
            n_proc: self.n_proc,
        }
    }
}

impl SenderLoadBalancer {
    /// A balancer for a number of processors.
    pub fn new(n_proc: usize) -> (balancer: Self)
        ensures
            balancer@.wf(),
            balancer@ == Spread::initial(n_proc as int),
    {
        SenderLoadBalancer { tx_current: 0, flow2proc: fx_new(), n_proc }
    }

    /// The processor that takes the packets of a flow.
    pub fn try_send(&mut self, flow_id: FlowId) -> (proc_id: usize)
        requires
            old(self)@.wf(),
            old(self)@.processors > 0,
        ensures
            final(self)@.wf(),
            proc_id == old(self)@.place(flow_id),
            proc_id < old(self)@.processors,
            final(self)@ == old(self)@.after(flow_id),
    {
        match fx_get(&self.flow2proc, &flow_id) {
            Some(proc_id) => {
                assert(self@.assigned.contains_key(flow_id));
                proc_id
            },
            None => {
                let proc_id: usize = self.tx_current;
                fx_insert(&mut self.flow2proc, flow_id, proc_id);
                proof {
                    vstd::arithmetic::div_mod::lemma_mod_pos_bound(
                        self.tx_current + 1,
                        self.n_proc as int,
                    );
                }
                self.tx_current = (self.tx_current + 1) % self.n_proc;
                assert forall|f: FlowId| #[trigger]
                    self@.assigned.contains_key(f) implies self@.assigned[f]
                    < self@.processors by {
                    assert(f == flow_id || old(self)@.assigned.contains_key(f));
                }
                proc_id
            },
        }
    }
}

/// A packet whose next hop is this node stays here. One for a connected neighbor goes to the sender of
/// that neighbor, and one for any other node is dropped.
pub proof fn law_packets_go_to_their_next_hop(
    next_hop_id: NodeId,
    flow_id: FlowId,
    local_id: NodeId,
    senders: Map<NodeId, usize>,
)
    ensures
        ({
            let delivery = next_hop_delivery(next_hop_id, flow_id, local_id, senders);
            &&& delivery == Ok::<Delivery, RouteError>(Delivery::Local) <==> next_hop_id == local_id
            &&& next_hop_id != local_id && senders.contains_key(next_hop_id) ==> delivery == Ok::<
                Delivery,
                RouteError,
            >(Delivery::Sender(senders[next_hop_id]))
            &&& delivery is Err <==> next_hop_id != local_id && !senders.contains_key(next_hop_id)
            &&& delivery is Err ==> delivery->Err_0 == (RouteError::Unreachable {
                next_hop_id,
                flow_id,
            })
        }),
{
}

/// A packet of a flow goes to the next hop of the route that the flow was given. Without a route in
/// its direction it is dropped, and so it is on the route with the ID 0.
pub proof fn law_packets_follow_the_route_of_their_flow(
    table: Routing,
    senders: Map<NodeId, usize>,
    flow_id: FlowId,
)
    requires
        table.base_ip <= node::flow_src(flow_id),
        table.base_ip <= node::flow_dst(flow_id),
    ensures
        ({
            let direction = (
                (node::flow_src(flow_id) - table.base_ip) as usize,
                (node::flow_dst(flow_id) - table.base_ip) as usize,
            );
            let delivery = flow_delivery(table, senders, flow_id);
            let available = table.directions[direction];
            let routed = table.directions.contains_key(direction);
            let route_id = table.selected(flow_id).cache[flow_id];
            &&& !routed ==> delivery is Err && delivery->Err_0 == (RouteError::NoRoute { flow_id })
            &&& routed && route_id == 0 ==> delivery is Err && delivery->Err_0
                == RouteError::NotSelectable
            &&& routed && route_id != 0 ==> delivery == next_hop_delivery(
                table.next_hops[route_id],
                flow_id,
                table.local_id,
                senders,
            )
            &&& routed && available.len() == 1 ==> route_id == available[0]
            &&& routed && available.len() > 1 ==> route_id == available[node::jump_slot(
                0x1234567890ABCDEF,
                0xFEDCBA0987654321,
                flow_id,
                available.len() as u32,
            ) as int]
        }),
{
}

/// An error in words names the flow, and the route or the node that it is about, in decimal.
pub proof fn law_errors_name_what_they_are_about(
    flow_id: FlowId,
    route_id: usize,
    next_hop_id: NodeId,
)
    ensures
        (RouteError::NoRoute { flow_id }).text() == "No route is found for flow "@
            + crate::text::decimal(flow_id as nat)
            + ": the routing table may be misconfigured."@,
        (RouteError::NoNextHop { route_id, flow_id }).text()
            == "No next hop is found for route id "@ + crate::text::decimal(route_id as nat)
            + " on flow "@ + crate::text::decimal(flow_id as nat)
            + ": routing inconsistency detected."@,
        (RouteError::Unreachable { next_hop_id, flow_id }).text() == "Next hop node "@
            + crate::text::decimal(next_hop_id as nat) + " is offline or unreachable for flow "@
            + crate::text::decimal(flow_id as nat) + ": connection may have been lost."@,
        RouteError::NotSelectable.text() == "No route can be selected."@,
{
}

} // verus!
