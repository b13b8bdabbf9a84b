//! What a node does about lossless unicast flows that the controller assigned.

use std::collections::hash_map::DefaultHasher;
use std::hash::Hasher;

use vstd::bytes::{u32_to_le_bytes, u64_to_le_bytes};
use vstd::prelude::*;
use vstd::std_specs::hash::DefaultHasherAdditionalSpecFns;

use crate::messages::{Flow, FlowLen, TokenBucketSpec};
use crate::net::Ipv4Addr;
use crate::node::config::{LocalConfig, LosslessRuntimeConfig};
use crate::node::flow::client::FILLER;
use crate::node::{self, flow_id_from_parts, FlowId, NodeId, NodeIdExt};

verus! {

/// The ID of a session.
pub type SessionId = u64;

/// The bit that marks the sessions of assigned flows.
pub const ASSIGNED_SESSION: u64 = 0x8000_0000_0000_0000;

/// What a flow is recognized by: its controller ID, its ends and its length, as chunks of bytes.
pub open spec fn session_key(flow: Flow) -> Seq<Seq<u8>> {
    let id = match flow.controller_id {
        None => seq![vstd::bytes::spec_u64_to_le_bytes(0)],
        Some(id) => seq![
            vstd::bytes::spec_u64_to_le_bytes(1),
            vstd::bytes::spec_u32_to_le_bytes(id as u32),
        ],
    };
    let len = match flow.flow_spec.flow_len {
        FlowLen::Bytes(bytes) => seq![
            vstd::bytes::spec_u64_to_le_bytes(0),
            vstd::bytes::spec_u64_to_le_bytes(bytes as u64),
        ],
        FlowLen::Duration(bits) => seq![
            vstd::bytes::spec_u64_to_le_bytes(1),
            vstd::bytes::spec_u64_to_le_bytes(bits),
        ],
    };
    id + seq![
        vstd::bytes::spec_u64_to_le_bytes(flow.src_node_id as u64),
        vstd::bytes::spec_u64_to_le_bytes(flow.dst_node_id as u64),
    ] + len
}

/// The session of a flow: a hash of what it is recognized by, with the mark of assigned flows.
pub open spec fn session_of(flow: Flow) -> SessionId {
    DefaultHasher::spec_finish(session_key(flow)) | ASSIGNED_SESSION
}

/// Generates a deterministic session ID from a flow, the same at both of its ends.
pub fn session_id_for_flow(flow: &Flow) -> (session_id: SessionId)
    ensures
        session_id == session_of(*flow),
        session_id >= ASSIGNED_SESSION,
{
    let mut hasher = DefaultHasher::new();
    match flow.controller_id {
        None => {
            hasher.write(u64_to_le_bytes(0).as_slice());
        },
        Some(id) => {
            hasher.write(u64_to_le_bytes(1).as_slice());
            hasher.write(u32_to_le_bytes(id as u32).as_slice());
        },
    }
    hasher.write(u64_to_le_bytes(flow.src_node_id as u64).as_slice());
    hasher.write(u64_to_le_bytes(flow.dst_node_id as u64).as_slice());
    match flow.flow_spec.flow_len {
        FlowLen::Bytes(bytes) => {
            hasher.write(u64_to_le_bytes(0).as_slice());
            hasher.write(u64_to_le_bytes(bytes as u64).as_slice());
        },
        FlowLen::Duration(bits) => {
            hasher.write(u64_to_le_bytes(1).as_slice());
            hasher.write(u64_to_le_bytes(bits).as_slice());
        },
    }
    assert(hasher@ =~= session_key(*flow));
    let hash: u64 = hasher.finish();
    assert((hash & 0x7FFF_FFFF_FFFF_FFFF) | 0x8000_0000_0000_0000 == hash | 0x8000_0000_0000_0000)
        by (bit_vector);
    assert(hash | 0x8000_0000_0000_0000 >= 0x8000_0000_0000_0000) by (bit_vector);
    (hash & 0x7FFF_FFFF_FFFF_FFFF) | ASSIGNED_SESSION
}

/// The client port of a flow: the controller ID counts from the first client port, modulo the
/// number of ports.
pub open spec fn client_port_of(flow: Flow, base_port: u16) -> u16 {
    let offset = match flow.controller_id {
        Some(id) => id as u16,
        None => 0,
    };
    ((base_port + offset) % 0x1_0000) as u16
}

/// Generates a deterministic client port from a flow, the same at both of its ends.
pub fn client_port_for_flow(flow: &Flow, base_port: u16) -> (port: u16)
    ensures
        port == client_port_of(*flow, base_port),
{
    let offset: u16 = match flow.controller_id {
        Some(id) => #[verifier::truncate] (id as u16),
        None => 0,
    };
    base_port.wrapping_add(offset)
}

/// Flows whose controller IDs are less than the number of ports apart have different client ports.
pub proof fn law_flows_have_ports_of_their_own(first: Flow, second: Flow, base_port: u16)
    requires
        first.controller_id is Some,
        second.controller_id is Some,
        first.controller_id != second.controller_id,
        -0x1_0000 < first.controller_id->0 - second.controller_id->0 < 0x1_0000,
    ensures
        client_port_of(first, base_port) != client_port_of(second, base_port),
{
    let a = first.controller_id->0;
    let b = second.controller_id->0;
    assert(a as u16 == b as u16 ==> (a == b || a - b >= 0x1_0000 || b - a >= 0x1_0000))
        by (bit_vector);
}

/// The number of bytes that a flow carries. `timed_bytes` is what a flow of a given time carries
/// at its rate.
pub fn flow_bytes(flow: &Flow, timed_bytes: u64) -> (bytes: Option<u64>)
    ensures
        bytes == bytes_of(*flow, timed_bytes),
{
    match flow.flow_spec.flow_len {
        FlowLen::Bytes(bytes) => Some(bytes as u64),
        FlowLen::Duration(_) => match flow.flow_spec.flow_rate {
            Some(_) => Some(timed_bytes),
            None => None,
        },
    }
}

/// The number of bytes that a flow carries, which is not known of a time without a rate.
pub open spec fn bytes_of(flow: Flow, timed_bytes: u64) -> Option<u64> {
    match flow.flow_spec.flow_len {
        FlowLen::Bytes(bytes) => Some(bytes as u64),
        FlowLen::Duration(_) => if flow.flow_spec.flow_rate is Some {
            Some(timed_bytes)
        } else {
            None
        },
    }
}

/// The pacing of a flow: its own rate with a burst of two seconds, or the default.
pub open spec fn pacing_of(
    flow_rate: Option<usize>,
    default_bucket: Option<TokenBucketSpec>,
) -> Option<TokenBucketSpec> {
    match flow_rate {
        Some(rate) => Some(
            TokenBucketSpec {
                rate,
                bucket_size: if rate * 2 <= usize::MAX {
                    (rate * 2) as usize
                } else {
                    usize::MAX
                },
            },
        ),
        None => default_bucket,
    }
}

/// Builds a token bucket for the rate of a flow, falling back to the default where it has none.
pub fn bucket_from_flow_rate(flow_rate: Option<usize>, default_bucket: &Option<TokenBucketSpec>)
    -> (bucket: Option<TokenBucketSpec>)
    ensures
        bucket == pacing_of(flow_rate, *default_bucket),
{
    match flow_rate {
        Some(rate) => Some(TokenBucketSpec { rate, bucket_size: rate.saturating_add(rate) }),
        None => *default_bucket,
    }
}

/// Whether both ends of a flow have user-space addresses.
pub open spec fn both_ends_fit(cfg: LocalConfig, flow: Flow) -> bool {
    &&& flow.src_node_id.fits_network(cfg.user_space_base_addr, cfg.local_netmask)
    &&& flow.dst_node_id.fits_network(cfg.user_space_base_addr, cfg.local_netmask)
}

/// The ID of a flow from its source to its destination.
pub open spec fn unicast_flow_id(cfg: LocalConfig, flow: Flow, src_port: u16, dst_port: u16) -> FlowId {
    node::flow_id_of(
        flow.src_node_id.offset_addr(cfg.user_space_base_addr).bits,
        flow.dst_node_id.offset_addr(cfg.user_space_base_addr).bits,
        src_port,
        dst_port,
    )
}

/// Encodes addresses and ports of a unicast flow into its ID.
pub fn flow_id_for_unicast(cfg: &LocalConfig, flow: &Flow, src_port: u16, dst_port: u16) -> (flow_id:
    FlowId)
    requires
        both_ends_fit(*cfg, *flow),
    ensures
        flow_id == unicast_flow_id(*cfg, *flow, src_port, dst_port),
{
    let src_ip = flow.src_node_id.ip_addr(cfg.user_space_base_addr, cfg.local_netmask);
    let dst_ip = flow.dst_node_id.ip_addr(cfg.user_space_base_addr, cfg.local_netmask);
    flow_id_from_parts(src_ip, src_port, dst_ip, dst_port)
}

/// The addresses and ports of a session, as seen from one end.
#[derive(Clone, Copy, Debug, PartialEq, Eq, Structural)]
pub struct TransportRoute {
    pub src_ip: Ipv4Addr,
    pub dst_ip: Ipv4Addr,
    pub src_port: u16,
    pub dst_port: u16,
}

/// The request to send a flow.
#[derive(Debug)]
pub struct SenderRequest {
    pub session_id: SessionId,
    pub block_size: usize,
    pub route: TransportRoute,
    pub pacing: Option<TokenBucketSpec>,
    pub receiver_id: NodeId,
    pub total_bytes: u64,
    pub source_buffer: Vec<u8>,
    pub ready_grace_ms: u64,
    pub peer_report_timeout_ms: u64,
}

/// The request to receive a flow.
#[derive(Clone, Copy, Debug, PartialEq, Eq, Structural)]
pub struct ReceiverRequest {
    pub session_id: SessionId,
    pub route: TransportRoute,
    pub local_node_id: NodeId,
}

/// The request to send a flow, as a value.
#[verifier::ext_equal]
pub struct SenderView {
    pub session_id: SessionId,
    pub block_size: usize,
    pub route: TransportRoute,
    pub pacing: Option<TokenBucketSpec>,
    pub receiver_id: NodeId,
    pub total_bytes: u64,
    pub source_buffer: Seq<u8>,
    pub ready_grace_ms: u64,
    pub peer_report_timeout_ms: u64,
}

impl View for SenderRequest {
    type V = SenderView;

    open spec fn view(&self) -> SenderView {
        SenderView {
            session_id: self.session_id,
            block_size: self.block_size,
            route: self.route,
            pacing: self.pacing,
            receiver_id: self.receiver_id,
            total_bytes: self.total_bytes,
            source_buffer: self.source_buffer@,
            ready_grace_ms: self.ready_grace_ms,
            peer_report_timeout_ms: self.peer_report_timeout_ms,
        }
    }
}

/// What is to be done at the source of a flow, in this order: bind its route, give it its weight,
/// and start to send.
#[derive(Debug)]
pub struct SenderPlan {
    pub flow_id: FlowId,
    pub pin_route: Option<usize>,
    pub set_weight: Option<usize>,
    /// The request to the runtime, unless the flow is too large for a buffer.
    pub start: Option<SenderRequest>,
}

/// What is to be done about a flow at this node.
#[derive(Debug)]
pub struct FlowPlan {
    pub send: Option<SenderPlan>,
    pub receive: Option<ReceiverRequest>,
}

/// The route of a session from a node to its peer.
pub open spec fn session_route(cfg: LocalConfig, peer: NodeId, client_port: u16) -> TransportRoute {
    TransportRoute {
        src_ip: cfg.node_id.offset_addr(cfg.user_space_base_addr),
        dst_ip: peer.offset_addr(cfg.user_space_base_addr),
        src_port: client_port,
        dst_port: cfg.user_space_server_port,
    }
}

/// The request to send a flow of a known number of bytes.
pub open spec fn sender_request(
    cfg: LocalConfig,
    runtime: LosslessRuntimeConfig,
    flow: Flow,
    total_bytes: u64,
) -> SenderView {
    SenderView {
        session_id: session_of(flow),
        block_size: runtime.default_block_size,
        route: session_route(
            cfg,
            flow.dst_node_id,
            client_port_of(flow, cfg.user_space_client_port),
        ),
        pacing: pacing_of(flow.flow_spec.flow_rate, runtime.data_bucket),
        receiver_id: flow.dst_node_id,
        total_bytes,
        source_buffer: Seq::new(total_bytes as nat, |i: int| FILLER),
        ready_grace_ms: runtime.ready_grace_ms,
        peer_report_timeout_ms: runtime.peer_report_timeout_ms,
    }
}

/// The request to receive a flow.
pub open spec fn receiver_request(cfg: LocalConfig, flow: Flow) -> ReceiverRequest {
    ReceiverRequest {
        session_id: session_of(flow),
        route: session_route(
            cfg,
            flow.src_node_id,
            client_port_of(flow, cfg.user_space_client_port),
        ),
        local_node_id: cfg.node_id,
    }
}

/// Whether a flow carries anything.
pub open spec fn carries_data(flow: Flow, timed_bytes: u64) -> bool {
    bytes_of(flow, timed_bytes) matches Some(bytes) && bytes > 0
}

/// Whether a node has something to do about a flow, so that it needs the addresses of its ends.
pub open spec fn needs_addresses(cfg: LocalConfig, flow: Flow, timed_bytes: u64) -> bool {
    carries_data(flow, timed_bytes) && (flow.src_node_id == cfg.node_id || flow.dst_node_id
        == cfg.node_id)
}

impl FlowPlan {
    /// Whether this is what is to be done about a flow: the source sends and the destination
    /// receives, unless the flow carries nothing.
    pub open spec fn serves(
        &self,
        cfg: LocalConfig,
        runtime: LosslessRuntimeConfig,
        flow: Flow,
        timed_bytes: u64,
    ) -> bool {
        let data = carries_data(flow, timed_bytes);
        let total_bytes = bytes_of(flow, timed_bytes)->0;
        &&& self.send is Some == (flow.src_node_id == cfg.node_id && data)
        &&& self.send matches Some(plan) ==> {
            &&& plan.flow_id == unicast_flow_id(
                cfg,
                flow,
                client_port_of(flow, cfg.user_space_client_port),
                cfg.user_space_server_port,
            )
            &&& plan.pin_route == flow.route_id
            &&& plan.start is Some == (total_bytes <= usize::MAX)
            &&& plan.set_weight == if plan.start is Some {
                flow.flow_spec.flow_weight
            } else {
                None
            }
            &&& plan.start matches Some(request) ==> request@ == sender_request(
                cfg,
                runtime,
                flow,
                total_bytes,
            )
        }
        &&& self.receive == if flow.dst_node_id == cfg.node_id && data {
            Some(receiver_request(cfg, flow))
        } else {
            None
        }
    }
}

/// Manages controller-assigned lossless unicast flows on a node.
#[derive(Debug)]
pub struct LosslessUnicastFlowManager {
    pub cfg: LocalConfig,
    pub runtime: LosslessRuntimeConfig,
}

impl LosslessUnicastFlowManager {
    /// A manager for a node.
    pub fn new(cfg: LocalConfig, runtime: LosslessRuntimeConfig) -> (manager: Self)
        ensures
            manager.cfg == cfg,
            manager.runtime == runtime,
    {
        LosslessUnicastFlowManager { cfg, runtime }
    }

    fn route_to(&self, peer: NodeId, client_port: u16) -> (route: TransportRoute)
        requires
            self.cfg.node_id.fits_network(self.cfg.user_space_base_addr, self.cfg.local_netmask),
            peer.fits_network(self.cfg.user_space_base_addr, self.cfg.local_netmask),
        ensures
            route == session_route(self.cfg, peer, client_port),
    {
        TransportRoute {
            src_ip: self.cfg.node_id.ip_addr(self.cfg.user_space_base_addr, self.cfg.local_netmask),
            dst_ip: peer.ip_addr(self.cfg.user_space_base_addr, self.cfg.local_netmask),
            src_port: client_port,
            dst_port: self.cfg.user_space_server_port,
        }
    }

    /// Plans the sending side of a flow that starts at this node.
    pub fn run_sender_flow(
        &self,
        flow: &Flow,
        session_id: SessionId,
        client_port: u16,
        timed_bytes: u64,
    ) -> (plan: Option<SenderPlan>)
        requires
            flow.src_node_id == self.cfg.node_id,
            carries_data(*flow, timed_bytes) ==> both_ends_fit(self.cfg, *flow),
            session_id == session_of(*flow),
            client_port == client_port_of(*flow, self.cfg.user_space_client_port),
        ensures
            (FlowPlan {
                send: plan,
                receive: if flow.dst_node_id == self.cfg.node_id && carries_data(
                    *flow,
                    timed_bytes,
                ) {
                    Some(receiver_request(self.cfg, *flow))
                } else {
                    None
                },
            }).serves(self.cfg, self.runtime, *flow, timed_bytes),
    {
        let total_bytes: u64 = match flow_bytes(flow, timed_bytes) {
            Some(total_bytes) => total_bytes,
            None => {
                return None;
            },
        };
        if total_bytes == 0 {
            return None;
        }
        let src_port: u16 = client_port;
        let dst_port: u16 = self.cfg.user_space_server_port;
        let flow_id: FlowId = flow_id_for_unicast(&self.cfg, flow, src_port, dst_port);
        if total_bytes > usize::MAX as u64 {
            return Some(
                SenderPlan { flow_id, pin_route: flow.route_id, set_weight: None, start: None },
            );
        }
        let source_buffer: Vec<u8> = vec![FILLER; total_bytes as usize];
        let request = SenderRequest {
            session_id,
            block_size: self.runtime.default_block_size,
            route: self.route_to(flow.dst_node_id, client_port),
            pacing: bucket_from_flow_rate(flow.flow_spec.flow_rate, &self.runtime.data_bucket),
            receiver_id: flow.dst_node_id,
            total_bytes,
            source_buffer,
            ready_grace_ms: self.runtime.ready_grace_ms,
            peer_report_timeout_ms: self.runtime.peer_report_timeout_ms,
        };
        assert(request@ =~= sender_request(self.cfg, self.runtime, *flow, total_bytes));
        Some(
            SenderPlan {
                flow_id,
                pin_route: flow.route_id,
                set_weight: flow.flow_spec.flow_weight,
                start: Some(request),
            },
        )
    }

    /// Plans the receiving side of a flow that ends at this node.
    pub fn run_receiver_flow(
        &self,
        flow: &Flow,
        session_id: SessionId,
        client_port: u16,
        timed_bytes: u64,
    ) -> (request: Option<ReceiverRequest>)
        requires
            flow.dst_node_id == self.cfg.node_id,
            carries_data(*flow, timed_bytes) ==> both_ends_fit(self.cfg, *flow),
            session_id == session_of(*flow),
            client_port == client_port_of(*flow, self.cfg.user_space_client_port),
        ensures
            request == if carries_data(*flow, timed_bytes) {
                Some(receiver_request(self.cfg, *flow))
            } else {
                None
            },
    {
        let total_bytes: u64 = match flow_bytes(flow, timed_bytes) {
            Some(total_bytes) => total_bytes,
            None => {
                return None;
            },
        };
        if total_bytes == 0 {
            return None;
        }
        Some(
            ReceiverRequest {
                session_id,
                route: self.route_to(flow.src_node_id, client_port),
                local_node_id: self.cfg.node_id,
            },
        )
    }

    /// Plans what this node does about assigned flows. `timed_bytes` holds for each flow what a
    /// flow of its time carries at its rate.
    pub fn add_flows(&self, flows: &Vec<Flow>, timed_bytes: &Vec<u64>) -> (plans: Vec<FlowPlan>)
        requires
            timed_bytes@.len() == flows@.len(),
            forall|i: int|
                0 <= i < flows@.len() && needs_addresses(
                    self.cfg,
                    #[trigger] flows@[i],
                    timed_bytes@[i],
                ) ==> both_ends_fit(self.cfg, flows@[i]),
        ensures
            plans@.len() == flows@.len(),
            forall|i: int|
                0 <= i < flows@.len() ==> #[trigger] plans@[i].serves(
                    self.cfg,
                    self.runtime,
                    flows@[i],
                    timed_bytes@[i],
                ),
    {
        let mut plans: Vec<FlowPlan> = Vec::new();
        let mut i: usize = 0;
        while i < flows.len()
            invariant
                i <= flows.len(),
                timed_bytes@.len() == flows@.len(),
                forall|j: int|
                    0 <= j < flows@.len() && needs_addresses(
                        self.cfg,
                        #[trigger] flows@[j],
                        timed_bytes@[j],
                    ) ==> both_ends_fit(self.cfg, flows@[j]),
                plans@.len() == i,
                forall|j: int|
                    0 <= j < i ==> #[trigger] plans@[j].serves(
                        self.cfg,
                        self.runtime,
                        flows@[j],
                        timed_bytes@[j],
                    ),
            decreases flows.len() - i,
        {
            let flow = flows[i];
            let session_id: SessionId = session_id_for_flow(&flow);
            let client_port: u16 = client_port_for_flow(&flow, self.cfg.user_space_client_port);
            let mut send: Option<SenderPlan> = None;
            let mut receive: Option<ReceiverRequest> = None;
            if flow.src_node_id == self.cfg.node_id {
                send = self.run_sender_flow(&flow, session_id, client_port, timed_bytes[i]);
            }
            if flow.dst_node_id == self.cfg.node_id {
                receive = self.run_receiver_flow(&flow, session_id, client_port, timed_bytes[i]);
            }
            plans.push(FlowPlan { send, receive });
            i = i + 1;
        }
        plans
    }
}

/// What the controller is told of a flow.
#[allow(inconsistent_fields)]
#[derive(Clone, Copy, Debug, PartialEq, Eq, Structural)]
pub enum FlowReport {
    Started { flow_id: FlowId, controller_id: i32 },
    Finished { flow_id: FlowId, controller_id: Option<i32> },
}

/// What the controller is told once the runtime has answered the request to send: a flow that was
/// accepted has started, unless it is not from the controller, and one that was rejected has
/// finished.
pub fn report_on_start(flow: &Flow, flow_id: FlowId, accepted: bool) -> (report: Option<FlowReport>)
    ensures
        report == if !accepted {
            Some(FlowReport::Finished { flow_id, controller_id: flow.controller_id })
        } else {
            match flow.controller_id {
                Some(controller_id) => Some(FlowReport::Started { flow_id, controller_id }),
                None => None,
            }
        },
{
    if !accepted {
        return Some(FlowReport::Finished { flow_id, controller_id: flow.controller_id });
    }
    match flow.controller_id {
        Some(controller_id) => Some(FlowReport::Started { flow_id, controller_id }),
        None => None,
    }
}

/// The two ends of a flow agree on its session, whatever route, rate or weight they were told.
pub proof fn law_ends_agree_on_the_session(at_source: Flow, at_destination: Flow)
    requires
        at_source.controller_id == at_destination.controller_id,
        at_source.src_node_id == at_destination.src_node_id,
        at_source.dst_node_id == at_destination.dst_node_id,
        at_source.flow_spec.flow_len == at_destination.flow_spec.flow_len,
    ensures
        session_of(at_source) == session_of(at_destination),
{
}

/// The two ends of a flow address each other, on the same client port.
pub proof fn law_ends_address_each_other(
    source: LocalConfig,
    destination: LocalConfig,
    runtime: LosslessRuntimeConfig,
    flow: Flow,
    total_bytes: u64,
)
    requires
        source.node_id == flow.src_node_id,
        destination.node_id == flow.dst_node_id,
        source.user_space_base_addr == destination.user_space_base_addr,
        source.user_space_client_port == destination.user_space_client_port,
        source.user_space_server_port == destination.user_space_server_port,
    ensures
        ({
            let sender = sender_request(source, runtime, flow, total_bytes);
            let receiver = receiver_request(destination, flow);
            &&& sender.session_id == receiver.session_id
            &&& sender.route == TransportRoute {
                src_ip: receiver.route.dst_ip,
                dst_ip: receiver.route.src_ip,
                ..receiver.route
            }
            &&& sender.receiver_id == receiver.local_node_id
        }),
{
}

/// The session of a flow is one of the upper half, and flows that differ in controller ID, ends or
/// length are told apart by what is hashed.
pub proof fn law_sessions_tell_flows_apart(a: Flow, b: Flow)
    ensures
        session_of(a) & ASSIGNED_SESSION == ASSIGNED_SESSION,
        session_of(a) >= 0x8000_0000_0000_0000,
        session_key(a) == session_key(b) ==> {
            &&& a.controller_id == b.controller_id
            &&& a.src_node_id == b.src_node_id
            &&& a.dst_node_id == b.dst_node_id
            &&& a.flow_spec.flow_len == b.flow_spec.flow_len
        },
{
    let hash = DefaultHasher::spec_finish(session_key(a));
    assert((hash | 0x8000_0000_0000_0000) & 0x8000_0000_0000_0000 == 0x8000_0000_0000_0000)
        by (bit_vector);
    assert(hash | 0x8000_0000_0000_0000 >= 0x8000_0000_0000_0000) by (bit_vector);
    if session_key(a) == session_key(b) {
        vstd::bytes::lemma_auto_spec_u64_to_from_le_bytes();
        vstd::bytes::lemma_auto_spec_u32_to_from_le_bytes();
        let (x, y) = (session_key(a), session_key(b));
        assert(x.len() == y.len());
        let n = x.len() as int;
        assert(x[n - 1] == y[n - 1] && x[n - 2] == y[n - 2]);
        assert(x[n - 3] == y[n - 3] && x[n - 4] == y[n - 4]);
        assert(x[n - 3] == vstd::bytes::spec_u64_to_le_bytes(a.dst_node_id as u64));
        assert(y[n - 3] == vstd::bytes::spec_u64_to_le_bytes(b.dst_node_id as u64));
        assert(x[n - 4] == vstd::bytes::spec_u64_to_le_bytes(a.src_node_id as u64));
        assert(y[n - 4] == vstd::bytes::spec_u64_to_le_bytes(b.src_node_id as u64));
        if a.controller_id is Some && b.controller_id is Some {
            let (p, q) = (a.controller_id->0, b.controller_id->0);
            assert(x[1] == y[1]);
            assert(x[1] == vstd::bytes::spec_u32_to_le_bytes(p as u32));
            assert(y[1] == vstd::bytes::spec_u32_to_le_bytes(q as u32));
            assert(p as u32 == q as u32);
            assert(p as u32 == q as u32 ==> p == q) by (bit_vector);
        }
    }
}

/// The client port of a flow lies as far above the first client port as its controller ID says,
/// modulo the number of ports.
pub proof fn law_client_port_counts_from_the_first(flow: Flow, base_port: u16)
    ensures
        client_port_of(flow, base_port) == (base_port + match flow.controller_id {
            Some(id) => id as int,
            None => 0,
        }) % 0x1_0000,
{
    if let Some(id) = flow.controller_id {
        assert((id as u16) as int == (id as int) % 0x1_0000) by {
            let wide = id as i64 + 0x8000_0000;
            assert(id as u16 == ((id as i64 + 0x8000_0000) as u64 % 0x1_0000) as u16) by (bit_vector);
            assert((wide as int) % 0x1_0000 == (id as int) % 0x1_0000);
        }
    }
}

/// A flow is paced at its own rate, with a burst of twice the rate as far as that can be counted; a
/// flow without a rate is paced by default.
pub proof fn law_flows_are_paced_at_their_rate(
    flow_rate: Option<usize>,
    default_bucket: Option<TokenBucketSpec>,
)
    ensures
        flow_rate is None ==> pacing_of(flow_rate, default_bucket) == default_bucket,
        flow_rate matches Some(rate) ==> (pacing_of(flow_rate, default_bucket) matches Some(bucket)
            && bucket.rate == rate && (bucket.bucket_size == rate + rate || rate + rate > usize::MAX
            && bucket.bucket_size == usize::MAX)),
{
}

/// The session of a flow runs between the ends that its flow ID names, so that the route and the
/// weight that are given to the flow ID count for its packets: from the client port to the port of
/// the user-space servers. The receiver expects it there, at the source.
pub proof fn law_session_runs_where_the_flow_does(
    plan: FlowPlan,
    cfg: LocalConfig,
    runtime: LosslessRuntimeConfig,
    flow: Flow,
    timed_bytes: u64,
)
    requires
        plan.serves(cfg, runtime, flow, timed_bytes),
    ensures
        plan.send matches Some(send) ==> {
            &&& send.pin_route == flow.route_id
            &&& node::flow_src(send.flow_id) == flow.src_node_id.offset_addr(
                cfg.user_space_base_addr,
            ).bits
            &&& node::flow_dst(send.flow_id) == flow.dst_node_id.offset_addr(
                cfg.user_space_base_addr,
            ).bits
            &&& node::flow_dst_port(send.flow_id) == cfg.user_space_server_port
            &&& send.start matches Some(request) ==> {
                &&& node::flow_id_of(
                    request.route.src_ip.bits,
                    request.route.dst_ip.bits,
                    request.route.src_port,
                    request.route.dst_port,
                ) == send.flow_id
                &&& request.route.dst_port == cfg.user_space_server_port
                &&& request.receiver_id == flow.dst_node_id
                &&& send.set_weight == flow.flow_spec.flow_weight
                &&& request.block_size == runtime.default_block_size
                &&& request.ready_grace_ms == runtime.ready_grace_ms
                &&& request.peer_report_timeout_ms == runtime.peer_report_timeout_ms
                &&& request.source_buffer@.len() == request.total_bytes
                &&& flow.flow_spec.flow_len matches FlowLen::Bytes(bytes) ==> request.total_bytes
                    == bytes
                &&& flow.flow_spec.flow_len is Duration ==> request.total_bytes == timed_bytes
            }
        },
        plan.receive matches Some(request) ==> {
            &&& request.route.dst_port == cfg.user_space_server_port
            &&& request.route.dst_ip == flow.src_node_id.offset_addr(cfg.user_space_base_addr)
            &&& request.route.src_ip == flow.dst_node_id.offset_addr(cfg.user_space_base_addr)
            &&& request.local_node_id == flow.dst_node_id
        },
        plan.send matches Some(send) ==> send.start matches Some(sending) ==> (
        plan.receive matches Some(receiving) ==> sending.session_id == receiving.session_id
            && sending.route.src_port == receiving.route.src_port),
{
    let client_port = client_port_of(flow, cfg.user_space_client_port);
    node::law_flow_id_parts(
        flow.src_node_id.offset_addr(cfg.user_space_base_addr).bits,
        flow.dst_node_id.offset_addr(cfg.user_space_base_addr).bits,
        client_port,
        cfg.user_space_server_port,
    );
    if let Some(send) = plan.send {
        if let Some(request) = send.start {
            assert(request@.source_buffer.len() == request@.total_bytes);
            assert(request@.route == request.route);
            assert(request@.total_bytes == request.total_bytes);
        }
    }
}

/// A node sends a flow exactly if it is its source, and receives it exactly if it is its destination,
/// unless the flow carries nothing: no bytes, or a time without a rate.
pub proof fn law_both_ends_of_a_flow_take_part(
    plan: FlowPlan,
    cfg: LocalConfig,
    runtime: LosslessRuntimeConfig,
    flow: Flow,
    timed_bytes: u64,
)
    requires
        plan.serves(cfg, runtime, flow, timed_bytes),
    ensures
        ({
            let carries = match flow.flow_spec.flow_len {
                FlowLen::Bytes(bytes) => bytes > 0,
                FlowLen::Duration(_) => flow.flow_spec.flow_rate is Some && timed_bytes > 0,
            };
            &&& plan.send is Some <==> carries && flow.src_node_id == cfg.node_id
            &&& plan.receive is Some <==> carries && flow.dst_node_id == cfg.node_id
            &&& plan.send matches Some(send) ==> (flow.flow_spec.flow_len is Bytes
                ==> send.start is Some)
        }),
{
}

/// What is said of a request is said of its fields.
pub proof fn law_request_stands_for_itself(request: SenderRequest)
    ensures
        request@.session_id == request.session_id,
        request@.block_size == request.block_size,
        request@.route == request.route,
        request@.pacing == request.pacing,
        request@.receiver_id == request.receiver_id,
        request@.total_bytes == request.total_bytes,
        request@.source_buffer == request.source_buffer@,
        request@.ready_grace_ms == request.ready_grace_ms,
        request@.peer_report_timeout_ms == request.peer_report_timeout_ms,
{
}

/// The session keeps all bits of the hash but the highest, which marks assigned flows. What is hashed
/// are little-endian words: whether there is a controller ID, that ID, the two ends, and the kind and
/// the amount of the length.
pub proof fn law_session_holds_the_hash(flow: Flow)
    ensures
        session_of(flow) & 0x7FFF_FFFF_FFFF_FFFF == DefaultHasher::spec_finish(session_key(flow))
            & 0x7FFF_FFFF_FFFF_FFFF,
        ({
            let key = session_key(flow);
            let n = key.len() as int;
            let ids: int = if flow.controller_id is Some {
                1
            } else {
                0
            };
            &&& n == 5 + ids
            &&& vstd::bytes::spec_u64_from_le_bytes(key[0]) == ids
            &&& flow.controller_id matches Some(id) ==> vstd::bytes::spec_u32_from_le_bytes(key[1])
                == id as u32
            &&& vstd::bytes::spec_u64_from_le_bytes(key[n - 4]) == flow.src_node_id
            &&& vstd::bytes::spec_u64_from_le_bytes(key[n - 3]) == flow.dst_node_id
            &&& flow.flow_spec.flow_len matches FlowLen::Bytes(bytes)
                ==> vstd::bytes::spec_u64_from_le_bytes(key[n - 2]) == 0
                && vstd::bytes::spec_u64_from_le_bytes(key[n - 1]) == bytes
            &&& flow.flow_spec.flow_len matches FlowLen::Duration(bits)
                ==> vstd::bytes::spec_u64_from_le_bytes(key[n - 2]) == 1
                && vstd::bytes::spec_u64_from_le_bytes(key[n - 1]) == bits
        }),
{
    let hash = DefaultHasher::spec_finish(session_key(flow));
    assert((hash | 0x8000_0000_0000_0000) & 0x7FFF_FFFF_FFFF_FFFF == hash & 0x7FFF_FFFF_FFFF_FFFF)
        by (bit_vector);
    vstd::bytes::lemma_auto_spec_u64_to_from_le_bytes();
    vstd::bytes::lemma_auto_spec_u32_to_from_le_bytes();
    let key = session_key(flow);
    let n = key.len() as int;
    assert(key[n - 4] == vstd::bytes::spec_u64_to_le_bytes(flow.src_node_id as u64));
    assert(key[n - 3] == vstd::bytes::spec_u64_to_le_bytes(flow.dst_node_id as u64));
    match flow.controller_id {
        Some(id) => {
            assert(key[0] == vstd::bytes::spec_u64_to_le_bytes(1));
            assert(key[1] == vstd::bytes::spec_u32_to_le_bytes(id as u32));
        },
        None => {
            assert(key[0] == vstd::bytes::spec_u64_to_le_bytes(0));
        },
    }
    match flow.flow_spec.flow_len {
        FlowLen::Bytes(bytes) => {
            assert(key[n - 2] == vstd::bytes::spec_u64_to_le_bytes(0));
            assert(key[n - 1] == vstd::bytes::spec_u64_to_le_bytes(bytes as u64));
        },
        FlowLen::Duration(bits) => {
            assert(key[n - 2] == vstd::bytes::spec_u64_to_le_bytes(1));
            assert(key[n - 1] == vstd::bytes::spec_u64_to_le_bytes(bits));
        },
    }
}

} // verus!
