//! The messages that pass between the controller and a dataplane node, as plain values.

use vstd::prelude::*;

use crate::net::Ipv4Addr;

verus! {

/// The ID of a multicast group.
pub type GroupId = usize;

/// The node ID that stands for no node.
pub const INVALID: usize = usize::MAX;

/// How long a flow runs.
#[derive(Clone, Copy, Debug, PartialEq, Eq, Structural, Hash)]
pub enum FlowLen {
    /// Until this many bytes were sent.
    Bytes(usize),
    /// For a number of seconds, given as the bits of a double-precision number.
    Duration(u64),
}

/// What carries a flow.
#[derive(Clone, Copy, Debug, PartialEq, Eq, Structural, Hash)]
pub enum FlowTransport {
    Tcp,
    LosslessUnicast,
}

/// What the controller asks of a flow.
#[derive(Clone, Copy, Debug, PartialEq, Eq, Structural, Hash)]
pub struct FlowSpec {
    pub flow_len: FlowLen,
    /// Bytes per second.
    pub flow_rate: Option<usize>,
    pub flow_weight: Option<usize>,
    pub transport: FlowTransport,
}

/// A flow that the controller assigned.
#[derive(Clone, Copy, Debug, PartialEq, Eq, Structural, Hash)]
pub struct Flow {
    pub controller_id: Option<i32>,
    pub src_node_id: usize,
    pub dst_node_id: usize,
    pub route_id: Option<usize>,
    pub flow_spec: FlowSpec,
}

/// A rate in bytes per second, and the burst in bytes that it tolerates.
#[derive(Clone, Copy, Debug, PartialEq, Eq, Structural, Hash)]
pub struct TokenBucketSpec {
    pub rate: usize,
    pub bucket_size: usize,
}

/// One hop of a unicast route.
#[derive(Clone, Copy, Debug, PartialEq, Eq, Structural, Hash)]
pub struct RoutingTableEntry {
    pub route_id: usize,
    pub next_hop: usize,
    pub src_node_id: usize,
    pub dst_node_id: usize,
}

/// The address of a multicast group.
#[derive(Clone, Copy, Debug, PartialEq, Eq, Structural, Hash)]
pub struct GroupDirectoryEntry {
    pub group_id: GroupId,
    pub group_ip: Ipv4Addr,
}

/// One hop of a multicast route.
#[derive(Debug, PartialEq, Eq)]
pub struct GroupRoutingTableEntry {
    pub route_id: usize,
    pub next_hops: Vec<usize>,
    pub src_node_id: usize,
    pub group_id: GroupId,
}

/// The protocol that carries packets between nodes.
#[derive(Clone, Copy, Debug, PartialEq, Eq, Structural)]
pub enum Protocol {
    Tcp,
    Quic,
    Udp,
}

/// The order in which queued packets leave a node.
#[derive(Clone, Copy, Debug, PartialEq, Eq, Structural)]
pub enum SchedulingDiscipline {
    Fifo,
    Wrr,
}

/// How a node takes part in the network.
#[derive(Clone, Copy, Debug, PartialEq, Eq, Structural)]
pub enum OperatingMode {
    /// Packets enter and leave through a TUN device and user-space engines.
    Normal,
    /// The node relays between external endpoints.
    Max,
}

/// A message from the controller to a node.
#[allow(inconsistent_fields)]
#[derive(Debug, PartialEq, Eq)]
pub enum ControllerToDataplane {
    StartUp(StartUp),
    AddNode { remote_node_id: usize, remote_addr: String },
    AddNodeAddress { remote_node_id: usize, remote_max_server_addr: String },
    SetLinkRate { node_id: usize, spec: TokenBucketSpec },
    InstallRoutes { routes: Vec<RoutingTableEntry> },
    AddFlows { flows: Vec<Flow> },
    TopologyReady,
    GroupCreated { group_id: GroupId, group_ip: Ipv4Addr, src_node_id: usize },
    InstallGroupDirectory { groups: Vec<GroupDirectoryEntry> },
    InstallGroupRoutes {
        group_id: GroupId,
        src_node_id: usize,
        routes: Vec<GroupRoutingTableEntry>,
    },
    ProbeLink { remote_node_id: usize, probe_id: u64, probe_bytes: usize },
}

/// The settings with which the controller answers a node that starts.
#[derive(Clone, Copy, Debug, PartialEq, Eq, Structural)]
pub struct StartUp {
    pub node_id: usize,
    pub net_mask: Ipv4Addr,
    pub virtual_base_addr: Ipv4Addr,
    pub user_space_base_addr: Ipv4Addr,
    pub external_base_addr: Ipv4Addr,
    pub max_server_port: u16,
    pub protocol: Protocol,
    pub scheduler_type: SchedulingDiscipline,
    pub operating_mode: OperatingMode,
}

/// The start of an application flow.
#[derive(Clone, Copy, Debug, PartialEq, Eq)]
pub struct AppFlow {
    pub flow_id: [u8; 16],
    pub src_node_id: usize,
    pub dst_node_id: usize,
    pub start_time: i64,
}

/// The route that a flow takes.
#[derive(Clone, Copy, Debug, PartialEq, Eq)]
pub struct RouteAssignment {
    pub flow_id: [u8; 16],
    pub route_id: usize,
    pub time: i64,
}

/// The end of a flow.
#[derive(Clone, Copy, Debug, PartialEq, Eq)]
pub struct FlowFinishedInfo {
    pub flow_id: [u8; 16],
    pub controller_id: Option<i32>,
    pub start_time: i64,
    pub finish_time: i64,
}

/// The start of a user-space flow.
#[derive(Clone, Copy, Debug, PartialEq, Eq)]
pub struct UserFlowStart {
    pub controller_id: i32,
    pub flow_id: [u8; 16],
    pub start_time: i64,
}

/// The bytes that a flow carried between two reports.
#[derive(Clone, Copy, Debug, PartialEq, Eq)]
pub struct Metric {
    pub flow_id: [u8; 16],
    pub bytes: usize,
    pub local_node_id: usize,
    pub remote_node_id: usize,
    /// When the bytes were read, in microseconds since the start of 1970.
    pub time_read: i64,
}

/// A message from a node to the controller.
#[allow(inconsistent_fields)]
#[derive(Debug, PartialEq, Eq)]
pub enum DataplaneToController {
    StartUp {
        private_network_name: String,
        private_network_addr: String,
        public_network_addr: String,
        node_id: Option<usize>,
    },
    NodeTopologyReady { node_id: usize },
    AppFlowStart { appflows: Vec<AppFlow> },
    UserFlowStart { flows: Vec<UserFlowStart> },
    RouteAssigned { assignments: Vec<RouteAssignment> },
    FlowFinished { flows: Vec<FlowFinishedInfo> },
    Metrics { metrics: Vec<Metric> },
}

} // verus!
