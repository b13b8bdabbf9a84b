//! The sending side of user-space TCP flows.

use std::time::Instant;

use vstd::prelude::*;

use crate::messages::{Flow, FlowLen};
use crate::node::config::LocalConfig;
use crate::node::flow::state::{self, current_time, ConnectionState};
use crate::node::flow::SOCKET_BUFFER_SIZE;
use crate::node::{self, flow_id_from_parts, FlowId, FlowIdExt, NodeId, NodeIdExt};

verus! {

/// The byte that flows are filled with.
pub const FILLER: u8 = 0xAA;

/// What is to be done for a new flow.
#[derive(Clone, Copy, Debug, PartialEq, Eq, Structural)]
pub enum ClientAction {
    /// Packets of the flow take a route.
    SetRoute { flow_id: FlowId, route_id: usize },
    /// Packets of the flow are handed to its client.
    Connect { flow_id: FlowId },
    /// The flow has a weight among those that share a link.
    SetWeight { flow_id: FlowId, weight: usize },
    /// The client of the flow starts.
    Start { flow: Flow, flow_id: FlowId, client_port: u16 },
}

/// Hands out clients to the flows that start at a node.
#[derive(Debug)]
pub struct UserSpaceClientHandle {
    pub config: LocalConfig,
    pub next_client_port: u16,
}

/// Whether both ends of a flow have user-space addresses.
pub open spec fn ends_fit(config: LocalConfig, flow: Flow) -> bool {
    &&& config.node_id.fits_network(config.user_space_base_addr, config.local_netmask)
    &&& flow.dst_node_id.fits_network(config.user_space_base_addr, config.local_netmask)
}

/// The ID under which a client receives: from the server to the client.
pub open spec fn client_flow_id(config: LocalConfig, flow: Flow, client_port: u16) -> FlowId {
    node::flow_id_of(
        flow.dst_node_id.offset_addr(config.user_space_base_addr).bits,
        config.node_id.offset_addr(config.user_space_base_addr).bits,
        config.user_space_server_port,
        client_port,
    )
}

/// What is to be done for a flow. Route and weight are bound to the direction from the client to
/// the server.
pub open spec fn flow_actions(config: LocalConfig, flow: Flow, client_port: u16) -> Seq<
    ClientAction,
> {
    let flow_id = client_flow_id(config, flow, client_port);
    let route = match flow.route_id {
        Some(route_id) => seq![
            ClientAction::SetRoute { flow_id: node::flow_reverse(flow_id), route_id },
        ],
        None => Seq::empty(),
    };
    let weight = match flow.flow_spec.flow_weight {
        Some(weight) => seq![
            ClientAction::SetWeight { flow_id: node::flow_reverse(flow_id), weight },
        ],
        None => Seq::empty(),
    };
    route + seq![ClientAction::Connect { flow_id }] + weight + seq![
        ClientAction::Start { flow, flow_id, client_port },
    ]
}

/// What is to be done for flows in turn, of which the first takes the port after `port`.
pub open spec fn all_actions(config: LocalConfig, flows: Seq<Flow>, port: u16) -> Seq<ClientAction>
    decreases flows.len(),
{
    if flows.len() == 0 {
        Seq::empty()
    } else {
        all_actions(config, flows.drop_last(), port) + flow_actions(
            config,
            flows.last(),
            (port + flows.len()) as u16,
        )
    }
}

impl UserSpaceClientHandle {
    /// No flow has started.
    pub fn new(config: LocalConfig) -> (handle: Self)
        ensures
            handle.config == config,
            handle.next_client_port == config.user_space_client_port,
    {
        let next_client_port: u16 = config.user_space_client_port;
        UserSpaceClientHandle { config, next_client_port }
    }

    fn add_flow(&mut self, flow: Flow, actions: &mut Vec<ClientAction>)
        requires
            ends_fit(old(self).config, flow),
            old(self).next_client_port < u16::MAX,
        ensures
            final(self).config == old(self).config,
            final(self).next_client_port == old(self).next_client_port + 1,
            final(actions)@ == old(actions)@ + flow_actions(
                old(self).config,
                flow,
                (old(self).next_client_port + 1) as u16,
            ),
    {
        self.next_client_port = self.next_client_port + 1;
        let client_port: u16 = self.next_client_port;
        let client_ip = self.config.node_id.ip_addr(
            self.config.user_space_base_addr,
            self.config.local_netmask,
        );
        let server_ip = flow.dst_node_id.ip_addr(
            self.config.user_space_base_addr,
            self.config.local_netmask,
        );
        let flow_id: FlowId = flow_id_from_parts(
            server_ip,
            self.config.user_space_server_port,
            client_ip,
            client_port,
        );
        if let Some(route_id) = flow.route_id {
            actions.push(ClientAction::SetRoute { flow_id: flow_id.reverse(), route_id });
        }
        actions.push(ClientAction::Connect { flow_id });
        if let Some(weight) = flow.flow_spec.flow_weight {
            actions.push(ClientAction::SetWeight { flow_id: flow_id.reverse(), weight });
        }
        actions.push(ClientAction::Start { flow, flow_id, client_port });
        assert(actions@ =~= old(actions)@ + flow_actions(self.config, flow, client_port));
    }

    /// Starts a client for each flow, on a port of its own.
    pub fn add_flows(&mut self, flows: &Vec<Flow>) -> (actions: Vec<ClientAction>)
        requires
            forall|i: int| 0 <= i < flows@.len() ==> ends_fit(old(self).config, #[trigger] flows@[i]),
            old(self).next_client_port + flows@.len() <= u16::MAX,
        ensures
            final(self).config == old(self).config,
            final(self).next_client_port == old(self).next_client_port + flows@.len(),
            actions@ == all_actions(old(self).config, flows@, old(self).next_client_port),
    {
        let mut actions: Vec<ClientAction> = Vec::new();
        let mut i: usize = 0;
        assert(flows@.take(0) =~= Seq::<Flow>::empty());
        while i < flows.len()
            invariant
                i <= flows.len(),
                forall|j: int|
                    0 <= j < flows@.len() ==> ends_fit(self.config, #[trigger] flows@[j]),
                self.config == old(self).config,
                self.next_client_port == old(self).next_client_port + i,
                old(self).next_client_port + flows@.len() <= u16::MAX,
                actions@ == all_actions(
                    self.config,
                    flows@.take(i as int),
                    old(self).next_client_port,
                ),
            decreases flows.len() - i,
        {
            assert(flows@.take(i + 1).drop_last() =~= flows@.take(i as int));
            self.add_flow(flows[i], &mut actions);
            i = i + 1;
        }
        assert(flows@.take(i as int) =~= flows@);
        actions
    }
}

/// Clients on different ports have different flow IDs, whichever flows they serve.
pub proof fn law_clients_are_told_apart(
    config: LocalConfig,
    first: Flow,
    second: Flow,
    first_port: u16,
    second_port: u16,
)
    requires
        client_flow_id(config, first, first_port) == client_flow_id(config, second, second_port),
    ensures
        first_port == second_port,
{
    let server = config.user_space_server_port;
    let client = config.node_id.offset_addr(config.user_space_base_addr).bits;
    node::law_flow_id_parts(
        first.dst_node_id.offset_addr(config.user_space_base_addr).bits,
        client,
        server,
        first_port,
    );
    node::law_flow_id_parts(
        second.dst_node_id.offset_addr(config.user_space_base_addr).bits,
        client,
        server,
        second_port,
    );
}

/// What a client may send next.
#[derive(Clone, Copy, Debug, PartialEq, Eq, Structural)]
pub struct SendPlan {
    /// The flow whose start the controller is to be told of.
    pub report_start: Option<i32>,
    /// The most bytes that may be sent.
    pub remaining: u64,
}

/// Sends one flow.
#[derive(Debug)]
pub struct UserSpaceClient {
    pub node_id: NodeId,
    pub flow: Flow,
    pub flow_id: FlowId,
    pub client_port: u16,
    pub state: ConnectionState,
    pub start_reported: bool,
}

/// The bytes that a flow may still send: up to its length, or a buffer at a time where its length
/// is a time.
pub open spec fn bytes_left(flow_len: FlowLen, bytes_total: u64) -> u64 {
    match flow_len {
        FlowLen::Bytes(size) => (size - bytes_total) as u64,
        FlowLen::Duration(_) => SOCKET_BUFFER_SIZE as u64,
    }
}

impl UserSpaceClient {
    /// No more was sent than the flow is long, and what was sent since the last report is part of
    /// it.
    pub open spec fn wf(&self) -> bool {
        &&& self.flow.flow_spec.flow_len matches FlowLen::Bytes(size) ==> self.state.bytes_total
            <= size
        &&& self.state.bytes_last_updated <= self.state.bytes_total
    }

    /// A client that has sent nothing.
    pub fn new(node_id: NodeId, flow: Flow, flow_id: FlowId, client_port: u16) -> (client: Self)
        ensures
            client.wf(),
            client.node_id == node_id,
            client.flow == flow,
            client.flow_id == flow_id,
            client.client_port == client_port,
            client.state.bytes_total == 0,
            client.state.bytes_last_updated == 0,
            !client.start_reported,
    {
        let state = ConnectionState::new(current_time());
        UserSpaceClient { node_id, flow, flow_id, client_port, state, start_reported: false }
    }

    /// Decides what to send on a socket that can send. The start of the flow is reported before
    /// its first bytes, and never again; a flow that is not from the controller is not reported.
    pub fn prepare_send(&mut self) -> (plan: SendPlan)
        requires
            old(self).wf(),
        ensures
            final(self).wf(),
            *final(self) == (UserSpaceClient { start_reported: true, ..*old(self) }),
            plan.report_start == if old(self).start_reported {
                None
            } else {
                old(self).flow.controller_id
            },
            plan.remaining == bytes_left(
                old(self).flow.flow_spec.flow_len,
                old(self).state.bytes_total,
            ),
    {
        let report_start: Option<i32> = if self.start_reported {
            None
        } else {
            self.flow.controller_id
        };
        self.start_reported = true;
        let remaining: u64 = match self.flow.flow_spec.flow_len {
            FlowLen::Bytes(size) => size as u64 - self.state.bytes_total,
            FlowLen::Duration(_) => SOCKET_BUFFER_SIZE as u64,
        };
        SendPlan { report_start, remaining }
    }

    /// Takes note of bytes that were sent, no more than were left.
    pub fn sent(&mut self, bytes: u64)
        requires
            old(self).wf(),
            bytes <= bytes_left(old(self).flow.flow_spec.flow_len, old(self).state.bytes_total),
            old(self).state.bytes_total + bytes <= u64::MAX,
        ensures
            final(self).wf(),
            *final(self) == (UserSpaceClient { state: final(self).state, ..*old(self) }),
            exists|started: Instant, now: Instant|
                final(self).state == #[trigger] old(self).state.after(
                    bytes,
                    started,
                    now,
                    state::nanos_between(now, old(self).state.time_last_updated),
                ),
            final(self).state.bytes_total == old(self).state.bytes_total + bytes,
    {
        self.state.update(self.node_id, self.flow.dst_node_id, bytes);
    }

    /// Whether the flow has come to its end. Whether the time of a flow is over depends on the
    /// clock.
    pub fn is_complete(&self, time_over: bool) -> (complete: bool)
        ensures
            complete == match self.flow.flow_spec.flow_len {
                FlowLen::Bytes(size) => self.state.bytes_total >= size,
                FlowLen::Duration(_) => time_over,
            },
    {
        match self.flow.flow_spec.flow_len {
            FlowLen::Bytes(size) => self.state.bytes_total >= size as u64,
            FlowLen::Duration(_) => time_over,
        }
    }
}

/// Fills the start of a buffer with as many bytes as may be sent.
pub fn fill_payload(buf: &mut [u8], remaining: u64) -> (filled: usize)
    ensures
        filled == if remaining <= old(buf)@.len() {
            remaining as int
        } else {
            old(buf)@.len() as int
        },
        final(buf)@ == Seq::new(
            old(buf)@.len(),
            |i: int|
                if i < filled {
                    FILLER
                } else {
                    old(buf)@[i]
                },
        ),
{
    let to_send: usize = if remaining <= buf.len() as u64 {
        remaining as usize
    } else {
        buf.len()
    };
    let ghost before = buf@;
    let mut i: usize = 0;
    while i < to_send
        invariant
            i <= to_send <= buf@.len(),
            before.len() == buf@.len(),
            buf@ == Seq::new(
                before.len(),
                |k: int|
                    if k < i {
                        FILLER
                    } else {
                        before[k]
                    },
            ),
        decreases to_send - i,
    {
        buf[i] = FILLER;
        i = i + 1;
        assert(buf@ =~= Seq::new(
            before.len(),
            |k: int|
                if k < i {
                    FILLER
                } else {
                    before[k]
                },
        ));
    }
    to_send
}

/// A client receives what the server at the destination of its flow sends to its own port.
pub proof fn law_client_receives_from_its_server(config: LocalConfig, flow: Flow, client_port: u16)
    ensures
        ({
            let flow_id = client_flow_id(config, flow, client_port);
            let sending = node::flow_reverse(flow_id);
            let server = flow.dst_node_id.offset_addr(config.user_space_base_addr);
            let client = config.node_id.offset_addr(config.user_space_base_addr);
            &&& node::flow_src(flow_id) == server.bits
            &&& node::flow_dst(flow_id) == client.bits
            &&& node::flow_src_port(flow_id) == config.user_space_server_port
            &&& node::flow_dst_port(flow_id) == client_port
            &&& node::flow_src(sending) == client.bits
            &&& node::flow_dst(sending) == server.bits
            &&& node::flow_src_port(sending) == client_port
            &&& node::flow_dst_port(sending) == config.user_space_server_port
        }),
{
    let server = flow.dst_node_id.offset_addr(config.user_space_base_addr).bits;
    let client = config.node_id.offset_addr(config.user_space_base_addr).bits;
    node::law_flow_id_parts(server, client, config.user_space_server_port, client_port);
    node::law_flow_id_parts(client, server, client_port, config.user_space_server_port);
}

/// For a new flow its client is connected and then started, once. Before that its packets are given
/// their route, where the flow has one, and before the start their weight: both for the direction in
/// which the flow sends.
pub proof fn law_flow_is_prepared_before_it_starts(
    config: LocalConfig,
    flow: Flow,
    client_port: u16,
)
    ensures
        ({
            let actions = flow_actions(config, flow, client_port);
            let flow_id = client_flow_id(config, flow, client_port);
            let sending = node::flow_reverse(flow_id);
            let n = actions.len();
            &&& n == 2 + if flow.route_id is Some {
                1int
            } else {
                0int
            } + if flow.flow_spec.flow_weight is Some {
                1int
            } else {
                0int
            }
            &&& actions[n - 1] == (ClientAction::Start { flow, flow_id, client_port })
            &&& flow.route_id matches Some(route_id) ==> actions[0] == (ClientAction::SetRoute {
                flow_id: sending,
                route_id,
            })
            &&& actions[if flow.route_id is Some {
                1int
            } else {
                0int
            }] == (ClientAction::Connect { flow_id })
            &&& flow.flow_spec.flow_weight matches Some(weight) ==> actions[n - 2]
                == (ClientAction::SetWeight { flow_id: sending, weight })
        }),
{
}

/// Every flow is started, each on the port after that of the flow before it.
pub proof fn law_every_flow_is_started(config: LocalConfig, flows: Seq<Flow>, port: u16, i: int)
    requires
        0 <= i < flows.len(),
        port + flows.len() <= u16::MAX,
    ensures
        all_actions(config, flows, port).contains(
            ClientAction::Start {
                flow: flows[i],
                flow_id: client_flow_id(config, flows[i], (port + 1 + i) as u16),
                client_port: (port + 1 + i) as u16,
            },
        ),
        starts_in(all_actions(config, flows, port)) == flows.len(),
    decreases flows.len(),
{
    let earlier = flows.drop_last();
    let last = flow_actions(config, flows.last(), (port + flows.len()) as u16);
    let before = all_actions(config, earlier, port);
    let all = all_actions(config, flows, port);
    lemma_starts_in(config, flows, port);
    let start = ClientAction::Start {
        flow: flows[i],
        flow_id: client_flow_id(config, flows[i], (port + 1 + i) as u16),
        client_port: (port + 1 + i) as u16,
    };
    if i < flows.len() - 1 {
        law_every_flow_is_started(config, earlier, port, i);
        assert(earlier[i] == flows[i]);
        let k = choose|k: int| 0 <= k < before.len() && before[k] == start;
        assert(all[k] == start);
    } else {
        assert(last[last.len() - 1] == start);
        assert(all[all.len() - 1] == start);
    }
}

/// How many of the actions start a client.
pub open spec fn starts_in(actions: Seq<ClientAction>) -> nat
    decreases actions.len(),
{
    if actions.len() == 0 {
        0
    } else {
        starts_in(actions.drop_last()) + if actions.last() is Start {
            1nat
        } else {
            0nat
        }
    }
}

proof fn lemma_starts_add(a: Seq<ClientAction>, b: Seq<ClientAction>)
    ensures
        starts_in(a + b) == starts_in(a) + starts_in(b),
    decreases b.len(),
{
    if b.len() == 0 {
        assert(a + b =~= a);
    } else {
        lemma_starts_add(a, b.drop_last());
        assert((a + b).drop_last() =~= a + b.drop_last());
    }
}

proof fn lemma_starts_in(config: LocalConfig, flows: Seq<Flow>, port: u16)
    ensures
        starts_in(all_actions(config, flows, port)) == flows.len(),
    decreases flows.len(),
{
    if flows.len() > 0 {
        lemma_starts_in(config, flows.drop_last(), port);
        let last = flow_actions(config, flows.last(), (port + flows.len()) as u16);
        lemma_starts_add(all_actions(config, flows.drop_last(), port), last);
        reveal_with_fuel(starts_in, 5);
    }
}

/// A flow of a given length sends exactly that many bytes: what is left makes up the rest, and
/// nothing is left of a flow that sent all. A flow of a given time sends up to a megabyte at once.
pub proof fn law_what_is_left_completes_the_flow(size: usize, bits: u64, sent: u64)
    requires
        sent <= size,
    ensures
        sent + bytes_left(FlowLen::Bytes(size), sent) == size,
        bytes_left(FlowLen::Duration(bits), sent) == 1_048_576,
{
}

} // verus!
