//! The settings of a node, and what follows from them.

use vstd::prelude::*;

use crate::messages::{
    ControllerToDataplane, Flow, FlowLen, FlowSpec, FlowTransport, OperatingMode, Protocol,
    SchedulingDiscipline, TokenBucketSpec, INVALID,
};
use crate::net::{self, Ipv4Addr};
use crate::node::{self, FlowId, FlowIdExt, NodeId, NodeIdExt};
use crate::text::{self, ipv4_to_string};

verus! {

/// The choice of congestion control algorithm in QUIC.
#[derive(Clone, Copy, Debug, PartialEq, Eq, Structural)]
pub enum CongestionControl {
    Bbr,
    Cubic,
}

impl Default for CongestionControl {
    fn default() -> (choice: Self)
        ensures
            choice == CongestionControl::Bbr,
    {
        CongestionControl::Bbr
    }
}

/// The processing mode for processing packets.
#[derive(Clone, Copy, Debug, PartialEq, Eq, Structural)]
pub enum Feature {
    /// No packets are reordered: all packets of a flow are handled by the same packet processor.
    Sequential,
    /// Packets are processed in parallel, and put back in order before they reach the TUN interface.
    Concurrent,
}

impl Default for Feature {
    fn default() -> (feature: Self)
        ensures
            feature == Feature::Sequential,
    {
        Feature::Sequential
    }
}

/// What a full queue does with packets.
#[derive(Clone, Copy, Debug, PartialEq, Eq, Structural)]
pub enum DropStrategy {
    TailDrop,
    Red,
}

/// Settings of the reliable sessions.
#[derive(Clone, Copy, Debug, PartialEq, Eq, Structural)]
pub struct ReliableConfig {
    /// Default data chunk size in bytes.
    pub default_chunk_size: usize,
    /// Optional token bucket for data pacing.
    pub data_bucket: Option<TokenBucketSpec>,
    /// Grace period (ms) to wait for receiver READY before opening the data gate.
    pub ready_grace_ms: u64,
}

/// The grace period that a configuration without one has.
pub fn default_ready_grace_ms() -> (ms: u64)
    ensures
        ms == 1500,
{
    1500
}

impl Default for ReliableConfig {
    fn default() -> (config: Self)
        ensures
            config == (ReliableConfig {
                default_chunk_size: 8500,
                data_bucket: None,
                ready_grace_ms: 1500,
            }),
    {
        ReliableConfig {
            default_chunk_size: 8500,
            data_bucket: None,
            ready_grace_ms: default_ready_grace_ms(),
        }
    }
}

/// Settings of the lossless sessions.
#[derive(Clone, Copy, Debug, PartialEq, Eq, Structural)]
pub struct LosslessRuntimeConfig {
    /// Block size in bytes of sessions that do not say otherwise.
    pub default_block_size: usize,
    /// Optional token bucket for data pacing.
    pub data_bucket: Option<TokenBucketSpec>,
    /// Grace period (ms) to wait for receivers.
    pub ready_grace_ms: u64,
    /// How long (ms) to wait for reports of peers.
    pub peer_report_timeout_ms: u64,
}

/// An address of a network interface.
#[derive(Clone, Copy, Debug, PartialEq, Eq, Structural)]
pub enum InterfaceAddr {
    V4(Ipv4Addr),
    V6,
}

/// A network interface of the machine.
#[derive(Debug)]
pub struct Interface {
    pub name: String,
    pub addrs: Vec<InterfaceAddr>,
}

/// Configuration options for the dataplane.
#[derive(Clone, Debug)]
pub struct LocalConfig {
    /// The controller address.
    pub controller_addr: String,
    /// The path of the configuration file, kept for namespace children.
    pub config_path: String,
    /// The name of the private network that this node may share with other nodes.
    pub private_network_name: String,
    /// The interface towards nodes on the same subnet.
    pub private_network_interface: String,
    /// The port towards nodes on the same subnet.
    pub private_network_port: String,
    /// The interface towards nodes on other subnets.
    pub public_network_interface: String,
    /// The port towards nodes on other subnets.
    pub public_network_port: String,
    /// The port of the connection-on-demand TCP server.
    pub max_server_port: u16,
    pub node_id: NodeId,
    /// Added to computed node IDs in namespace mode, to avoid clashes across machines.
    pub node_id_offset: usize,
    /// Whether to enable IPv4 forwarding on the host.
    pub auto_enable_ip_forward: bool,
    /// Whether to add FORWARD rules between the namespace bridge and the outbound interface.
    pub auto_add_forward_rules: bool,
    /// Whether to add a MASQUERADE rule for the namespace subnet.
    pub auto_add_nat: bool,
    /// Whether there is a TUN interface.
    pub enable_local_interface: bool,
    /// The seconds between two reports of metrics.
    pub metrics_collection_interval: u64,
    /// Whether round-trip times are probed.
    pub enable_probe_rtt: bool,
    /// Whether throughput is probed.
    pub enable_probe_throughput: bool,
    /// The UDP port of the probe service.
    pub probe_port: u16,
    /// The seconds between two probe rounds.
    pub probe_interval_secs: u64,
    /// The number of nodes deployed.
    pub n_nodes: usize,
    /// The number of local TUN queues.
    pub num_tun_queues: usize,
    /// The number of packet processors; 0 stands for the number of processors of the machine.
    pub num_packet_processors: usize,
    /// The capacity of channels.
    pub channel_capacity: usize,
    /// The address towards nodes on the same subnet.
    pub private_network_addr: String,
    /// The address towards nodes over the public Internet.
    pub public_network_addr: String,
    /// The name of the local TUN interface.
    pub tun_interface_name: String,
    /// The MTU of the TUN interface.
    pub mtu: i32,
    /// Whether to restart when the connection to the controller is lost.
    pub restart_on_disconnect: bool,
    /// Microseconds to wait for a missing TCP segment before newer data is passed on.
    pub delay_tolerance: u64,
    /// Queued TCP data packets to tolerate before delivery is forced; 0 turns this off.
    pub backlog_tolerance: u64,
    /// Whether TCP packets are put in order before delivery.
    pub enforce_tcp_order: bool,
    /// QUIC congestion control algorithm to use.
    pub quic_congestion_control: CongestionControl,
    /// The local network address.
    pub local_address: Ipv4Addr,
    /// The address from which TUN addresses count.
    pub virtual_base_addr: Ipv4Addr,
    /// The user-space network address.
    pub user_space_address: Ipv4Addr,
    /// The address from which user-space addresses count.
    pub user_space_base_addr: Ipv4Addr,
    /// The address of the default external client.
    pub external_base_address: Ipv4Addr,
    /// The address from which external addresses count.
    pub external_base_addr: Ipv4Addr,
    /// The local network mask.
    pub local_netmask: Ipv4Addr,
    /// The transport protocol.
    pub protocol: Protocol,
    /// The scheduling discipline.
    pub scheduler_type: SchedulingDiscipline,
    /// The capacity of each scheduler queue.
    pub queue_capacity: usize,
    /// The drop strategy of the scheduler.
    pub scheduler_drop_strategy: DropStrategy,
    /// The processing mode for processing packets.
    pub feature: Feature,
    /// The operating mode.
    pub operating_mode: OperatingMode,
    /// Whether full channels hold senders back rather than drop packets.
    pub channel_backpressure: bool,
    /// The flows received from the controller.
    pub flow: Vec<Flow>,
    /// The first port of user-space clients.
    pub user_space_client_port: u16,
    /// The port of the user-space server.
    pub user_space_server_port: u16,
    /// The bridge of namespace mode.
    pub bridge_name: String,
    /// The IPv4 address of the bridge.
    pub bridge_ip: String,
    /// The prefix length of the network of the bridge.
    pub subnet: u8,
    /// Milliseconds between the creation of two nodes in namespace mode.
    pub interval_between_spawn: u64,
    /// Milliseconds to wait for a veth interface to come up in namespace mode.
    pub carrier_max_wait_ms: u64,
    /// Milliseconds between two checks of a veth interface in namespace mode.
    pub carrier_poll_interval_ms: u64,
    /// Milliseconds between the start of a child and the handshake in namespace mode.
    pub child_start_delay_ms: u64,
    /// Milliseconds to wait for the handshake of a child in namespace mode.
    pub handshake_timeout_ms: u64,
    /// The settings of the reliable sessions.
    pub reliable_runtime_config: ReliableConfig,
}

/// The flow with which a node without flows from the controller starts.
pub open spec fn default_flow() -> Flow {
    Flow {
        controller_id: None,
        src_node_id: 0,
        dst_node_id: 0,
        route_id: None,
        flow_spec: FlowSpec {
            flow_len: FlowLen::Bytes(1_000_000_000),
            flow_rate: None,
            flow_weight: None,
            transport: FlowTransport::Tcp,
        },
    }
}

/// The local address of a node without a controller.
pub fn default_local_address() -> (ip: Ipv4Addr)
    ensures
        ip.bits == net::be32(10, 0, 0, 1),
{
    Ipv4Addr::new(10, 0, 0, 1)
}

/// The address from which TUN addresses count by default.
pub fn default_virtual_base_addr() -> (ip: Ipv4Addr)
    ensures
        ip.bits == net::be32(10, 0, 0, 0),
{
    Ipv4Addr::new(10, 0, 0, 0)
}

/// The user-space address of a node without a controller.
pub fn default_user_space_address() -> (ip: Ipv4Addr)
    ensures
        ip.bits == net::be32(192, 168, 0, 1),
{
    Ipv4Addr::new(192, 168, 0, 1)
}

/// The address from which user-space addresses count by default.
pub fn default_user_space_base_addr() -> (ip: Ipv4Addr)
    ensures
        ip.bits == net::be32(192, 168, 0, 0),
{
    Ipv4Addr::new(192, 168, 0, 0)
}

/// The address of the default external client.
pub fn default_external_base_address() -> (ip: Ipv4Addr)
    ensures
        ip.bits == net::be32(172, 16, 8, 3),
{
    Ipv4Addr::new(172, 16, 8, 3)
}

/// The address from which external addresses count by default.
pub fn default_external_base_addr() -> (ip: Ipv4Addr)
    ensures
        ip.bits == net::be32(172, 16, 8, 3),
{
    Ipv4Addr::new(172, 16, 8, 3)
}

/// The network mask of a node without a controller.
pub fn default_netmask() -> (ip: Ipv4Addr)
    ensures
        ip.bits == net::be32(255, 255, 255, 0),
{
    Ipv4Addr::new(255, 255, 255, 0)
}

impl Default for LocalConfig {
    fn default() -> (config: Self)
        ensures
            config.controller_addr@ == ""@,
            config.config_path@ == ""@,
            config.private_network_name@ == ""@,
            config.private_network_interface@ == "eth0"@,
            config.private_network_port@ == "8080"@,
            config.public_network_interface@ == "eth0"@,
            config.public_network_port@ == "8080"@,
            config.max_server_port == 8081,
            config.node_id == 0,
            config.node_id_offset == 0,
            !config.auto_enable_ip_forward,
            !config.auto_add_forward_rules,
            !config.auto_add_nat,
            config.enable_local_interface,
            config.metrics_collection_interval == 5,
            config.enable_probe_rtt,
            config.enable_probe_throughput,
            config.probe_port == 9090,
            config.probe_interval_secs == 10,
            config.n_nodes == 1,
            config.num_tun_queues == 1,
            config.num_packet_processors == 0,
            config.channel_capacity == 1000,
            config.private_network_addr@ == ""@,
            config.public_network_addr@ == ""@,
            config.tun_interface_name@ == "utun"@,
            config.mtu == 1400,
            !config.restart_on_disconnect,
            config.delay_tolerance == 500,
            config.backlog_tolerance == 0,
            config.enforce_tcp_order,
            config.quic_congestion_control is Bbr,
            config.local_address.bits == net::be32(10, 0, 0, 1),
            config.virtual_base_addr.bits == net::be32(10, 0, 0, 0),
            config.user_space_address.bits == net::be32(192, 168, 0, 1),
            config.user_space_base_addr.bits == net::be32(192, 168, 0, 0),
            config.external_base_address.bits == net::be32(172, 16, 8, 3),
            config.external_base_addr.bits == net::be32(172, 16, 8, 3),
            config.local_netmask.bits == net::be32(255, 255, 255, 0),
            config.protocol is Quic,
            config.scheduler_type is Fifo,
            config.queue_capacity == 1000,
            config.scheduler_drop_strategy is TailDrop,
            config.feature is Sequential,
            config.operating_mode is Normal,
            !config.channel_backpressure,
            config.flow@ == seq![default_flow()],
            config.user_space_client_port == 45535,
            config.user_space_server_port == 8888,
            config.bridge_name@ == "isobr0"@,
            config.bridge_ip@ == "172.16.8.1"@,
            config.subnet == 16,
            config.interval_between_spawn == 50,
            config.carrier_max_wait_ms == 20000,
            config.carrier_poll_interval_ms == 100,
            config.child_start_delay_ms == 150,
            config.handshake_timeout_ms == 25000,
            config.reliable_runtime_config == (ReliableConfig {
                default_chunk_size: 8500,
                data_bucket: None,
                ready_grace_ms: 1500,
            }),
    {
        let mut flow: Vec<Flow> = Vec::new();
        flow.push(
            Flow {
                controller_id: None,
                src_node_id: 0,
                dst_node_id: 0,
                route_id: None,
                flow_spec: FlowSpec {
                    flow_len: FlowLen::Bytes(1_000_000_000),
                    flow_rate: None,
                    flow_weight: None,
                    transport: FlowTransport::Tcp,
                },
            },
        );
        assert(flow@ =~= seq![default_flow()]);
        LocalConfig {
            controller_addr: "".to_owned(),
            config_path: "".to_owned(),
            private_network_name: "".to_owned(),
            private_network_interface: "eth0".to_owned(),
            private_network_port: "8080".to_owned(),
            public_network_interface: "eth0".to_owned(),
            public_network_port: "8080".to_owned(),
            max_server_port: 8081,
            node_id: 0,
            node_id_offset: 0,
            auto_enable_ip_forward: false,
            auto_add_forward_rules: false,
            auto_add_nat: false,
            enable_local_interface: true,
            metrics_collection_interval: 5,
            enable_probe_rtt: true,
            enable_probe_throughput: true,
            probe_port: 9090,
            probe_interval_secs: 10,
            n_nodes: 1,
            num_tun_queues: 1,
            num_packet_processors: 0,
            channel_capacity: 1000,
            private_network_addr: "".to_owned(),
            public_network_addr: "".to_owned(),
            tun_interface_name: "utun".to_owned(),
            mtu: 1400,
            restart_on_disconnect: false,
            delay_tolerance: 500,
            backlog_tolerance: 0,
            enforce_tcp_order: true,
            quic_congestion_control: CongestionControl::Bbr,
            local_address: default_local_address(),
            virtual_base_addr: default_virtual_base_addr(),
            user_space_address: default_user_space_address(),
            user_space_base_addr: default_user_space_base_addr(),
            external_base_address: default_external_base_address(),
            external_base_addr: default_external_base_addr(),
            local_netmask: default_netmask(),
            protocol: Protocol::Quic,
            scheduler_type: SchedulingDiscipline::Fifo,
            queue_capacity: 1000,
            scheduler_drop_strategy: DropStrategy::TailDrop,
            feature: Feature::Sequential,
            operating_mode: OperatingMode::Normal,
            channel_backpressure: false,
            flow,
            user_space_client_port: 45535,
            user_space_server_port: 8888,
            bridge_name: "isobr0".to_owned(),
            bridge_ip: "172.16.8.1".to_owned(),
            subnet: 16,
            interval_between_spawn: 50,
            carrier_max_wait_ms: 20000,
            carrier_poll_interval_ms: 100,
            child_start_delay_ms: 150,
            handshake_timeout_ms: 25000,
            reliable_runtime_config: ReliableConfig::default(),
        }
    }
}

/// The base address of the network that an address belongs to: TUN, then user space, then external.
pub open spec fn network_base(config: LocalConfig, ip: u32) -> Option<u32> {
    let mask = config.local_netmask.bits;
    if net::same_network(ip, config.virtual_base_addr.bits, mask) {
        Some(config.virtual_base_addr.bits)
    } else if net::same_network(ip, config.user_space_base_addr.bits, mask) {
        Some(config.user_space_base_addr.bits)
    } else if net::same_network(ip, config.external_base_addr.bits, mask) {
        Some(config.external_base_addr.bits)
    } else {
        None
    }
}

/// Whether an address lies below the base address of its network, so that it stands for no node.
pub open spec fn below_base(config: LocalConfig, ip: u32) -> bool {
    network_base(config, ip) matches Some(base) && ip < base
}

/// The node that an address stands for.
pub open spec fn node_of_ip(config: LocalConfig, ip: u32) -> NodeId {
    match network_base(config, ip) {
        Some(base) => (ip - base) as usize,
        None => INVALID,
    }
}

/// The last IPv4 address in a list.
pub open spec fn last_v4(addrs: Seq<InterfaceAddr>) -> Option<Ipv4Addr>
    decreases addrs.len(),
{
    if addrs.len() == 0 {
        None
    } else {
        match addrs.last() {
            InterfaceAddr::V4(ip) => Some(ip),
            InterfaceAddr::V6 => last_v4(addrs.drop_last()),
        }
    }
}

/// The last IPv4 address of the interfaces with a name.
pub open spec fn interface_ipv4(interfaces: Seq<Interface>, name: Seq<char>) -> Option<Ipv4Addr>
    decreases interfaces.len(),
{
    if interfaces.len() == 0 {
        None
    } else {
        let earlier = interface_ipv4(interfaces.drop_last(), name);
        if interfaces.last().name@ == name && last_v4(interfaces.last().addrs@) is Some {
            last_v4(interfaces.last().addrs@)
        } else {
            earlier
        }
    }
}

/// An optional address as text; nothing where there is none.
pub open spec fn optional_dotted(ip: Option<Ipv4Addr>) -> Seq<char> {
    match ip {
        Some(ip) => text::dotted(ip.bits),
        None => Seq::empty(),
    }
}

/// The last IPv4 address of the interfaces with a name.
pub fn find_interface_ipv4(interfaces: &Vec<Interface>, name: &String) -> (ip: Option<Ipv4Addr>)
    ensures
        ip == interface_ipv4(interfaces@, name@),
{
    let mut found: Option<Ipv4Addr> = None;
    let mut i: usize = 0;
    assert(interfaces@.take(0) =~= Seq::<Interface>::empty());
    while i < interfaces.len()
        invariant
            i <= interfaces.len(),
            found == interface_ipv4(interfaces@.take(i as int), name@),
        decreases interfaces.len() - i,
    {
        assert(interfaces@.take(i + 1).drop_last() =~= interfaces@.take(i as int));
        if interfaces[i].name == *name {
            let addrs = &interfaces[i].addrs;
            let ghost before = found;
            let mut j: usize = 0;
            assert(addrs@.take(0) =~= Seq::<InterfaceAddr>::empty());
            while j < addrs.len()
                invariant
                    j <= addrs.len(),
                    found == (match last_v4(addrs@.take(j as int)) {
                        Some(ip) => Some(ip),
                        None => before,
                    }),
                decreases addrs.len() - j,
            {
                assert(addrs@.take(j + 1).drop_last() =~= addrs@.take(j as int));
                if let InterfaceAddr::V4(ip) = addrs[j] {
                    found = Some(ip);
                }
                j = j + 1;
            }
            assert(addrs@.take(j as int) =~= addrs@);
        }
        i = i + 1;
    }
    assert(interfaces@.take(i as int) =~= interfaces@);
    found
}

/// A configured address, or that of an interface where none is configured.
pub open spec fn known_address(
    configured: Seq<char>,
    interfaces: Seq<Interface>,
    name: Seq<char>,
) -> Seq<char> {
    if configured.len() == 0 {
        optional_dotted(interface_ipv4(interfaces, name))
    } else {
        configured
    }
}

/// A configured node ID, or the distance of the private address from the external base where
/// neither an ID nor a private address is configured.
pub open spec fn known_node_id(
    configured: NodeId,
    configured_addr: Seq<char>,
    found: Option<Ipv4Addr>,
    base: Ipv4Addr,
) -> NodeId {
    if configured == 0 && configured_addr.len() == 0 && found is Some {
        (found->0.bits - base.bits) as usize
    } else {
        configured
    }
}

fn find_address(configured: &String, interfaces: &Vec<Interface>, name: &String) -> (text: String)
    ensures
        text@ == known_address(configured@, interfaces@, name@),
{
    if configured.as_str().unicode_len() == 0 {
        match find_interface_ipv4(interfaces, name) {
            Some(ip) => ipv4_to_string(ip),
            None => String::new(),
        }
    } else {
        configured.clone()
    }
}

fn find_node_id(
    configured: NodeId,
    configured_addr: &String,
    interfaces: &Vec<Interface>,
    name: &String,
    base: Ipv4Addr,
) -> (node_id: NodeId)
    requires
        configured_addr@.len() == 0 ==> (interface_ipv4(interfaces@, name@) matches Some(ip)
            ==> ip.bits >= base.bits),
    ensures
        node_id == known_node_id(
            configured,
            configured_addr@,
            interface_ipv4(interfaces@, name@),
            base,
        ),
{
    if configured_addr.as_str().unicode_len() != 0 {
        return configured;
    }
    match find_interface_ipv4(interfaces, name) {
        Some(ip) => {
            let computed: usize = (ip.bits - base.bits) as usize;
            if configured == 0 {
                computed
            } else {
                configured
            }
        },
        None => configured,
    }
}

impl LocalConfig {
    /// The configuration of a node in a namespace of its own: it is the only node there, has the
    /// address of the namespace towards all networks, and finds the controller at an address that
    /// can be reached from there. All else is as on the machine.
    pub fn for_child(self, node_id: NodeId, ns_ip: String, controller_addr: String) -> (child: Self)
        ensures
            child.private_network_addr@ == ns_ip@,
            child.public_network_addr@ == ns_ip@,
            child.controller_addr == controller_addr,
            child == (LocalConfig {
                n_nodes: 1,
                node_id,
                private_network_addr: child.private_network_addr,
                public_network_addr: child.public_network_addr,
                controller_addr,
                ..self
            }),
    {
        let private_network_addr = ns_ip.clone();
        LocalConfig {
            n_nodes: 1,
            node_id,
            private_network_addr,
            public_network_addr: ns_ip,
            controller_addr,
            ..self
        }
    }

    /// Converts IP address to node ID, supporting both TUN and user space networks. An address
    /// outside all networks stands for no node.
    pub fn ip_to_node_id(&self, ip: Ipv4Addr) -> (node_id: NodeId)
        requires
            !below_base(*self, ip.bits),
        ensures
            node_id == node_of_ip(*self, ip.bits),
    {
        let netmask: u32 = self.local_netmask.bits;
        let tun_base: u32 = self.virtual_base_addr.bits;
        let user_space_base: u32 = self.user_space_base_addr.bits;
        let external_base: u32 = self.external_base_addr.bits;
        let subnet: u32 = ip.bits & netmask;
        if subnet == tun_base & netmask {
            (ip.bits - tun_base) as usize
        } else if subnet == user_space_base & netmask {
            (ip.bits - user_space_base) as usize
        } else if subnet == external_base & netmask {
            (ip.bits - external_base) as usize
        } else {
            INVALID
        }
    }

    /// Whether `ip_to_node_id` is defined for an address.
    pub fn has_node_id(&self, ip: Ipv4Addr) -> (defined: bool)
        ensures
            defined == !below_base(*self, ip.bits),
    {
        let netmask: u32 = self.local_netmask.bits;
        let subnet: u32 = ip.bits & netmask;
        if subnet == self.virtual_base_addr.bits & netmask {
            ip.bits >= self.virtual_base_addr.bits
        } else if subnet == self.user_space_base_addr.bits & netmask {
            ip.bits >= self.user_space_base_addr.bits
        } else if subnet == self.external_base_addr.bits & netmask {
            ip.bits >= self.external_base_addr.bits
        } else {
            true
        }
    }

    /// The nodes at the ends of a flow.
    pub fn extract_node_ids_from_flow(&self, flow_id: FlowId) -> (nodes: (NodeId, NodeId))
        requires
            !below_base(*self, node::flow_src(flow_id)),
            !below_base(*self, node::flow_dst(flow_id)),
        ensures
            nodes == (
                node_of_ip(*self, node::flow_src(flow_id)),
                node_of_ip(*self, node::flow_dst(flow_id)),
            ),
    {
        (self.ip_to_node_id(flow_id.src_ip()), self.ip_to_node_id(flow_id.dst_ip()))
    }

    /// Attempts to extract node IDs, returning `None` when either IP is outside the configured
    /// subnets.
    pub fn try_extract_node_ids_from_flow(&self, flow_id: FlowId) -> (nodes: Option<
        (NodeId, NodeId),
    >)
        requires
            !below_base(*self, node::flow_src(flow_id)),
            !below_base(*self, node::flow_dst(flow_id)),
        ensures
            ({
                let src = node_of_ip(*self, node::flow_src(flow_id));
                let dst = node_of_ip(*self, node::flow_dst(flow_id));
                nodes == if src == INVALID || dst == INVALID {
                    None
                } else {
                    Some((src, dst))
                }
            }),
    {
        let (src_node_id, dst_node_id) = self.extract_node_ids_from_flow(flow_id);
        if src_node_id == INVALID || dst_node_id == INVALID {
            None
        } else {
            Some((src_node_id, dst_node_id))
        }
    }

    /// Returns the effective settings for TCP reordering tolerance: whether order is enforced, the
    /// microseconds after which a gap is given up, and the backlog after which delivery is forced.
    pub fn reorder_tolerances(&self) -> (tolerances: (bool, Option<u64>, usize))
        ensures
            tolerances.0 == self.enforce_tcp_order,
            tolerances.1 == if self.enforce_tcp_order && self.delay_tolerance > 0 {
                Some(self.delay_tolerance)
            } else {
                None
            },
            tolerances.2 == if !self.enforce_tcp_order {
                0
            } else if self.backlog_tolerance <= usize::MAX {
                self.backlog_tolerance as usize
            } else {
                usize::MAX
            },
    {
        let enforce = self.enforce_tcp_order;
        let gap_timeout: Option<u64> = if enforce && self.delay_tolerance > 0 {
            Some(self.delay_tolerance)
        } else {
            None
        };
        let backlog: usize = if enforce && self.backlog_tolerance > 0 {
            if self.backlog_tolerance <= usize::MAX as u64 {
                self.backlog_tolerance as usize
            } else {
                usize::MAX
            }
        } else {
            0
        };
        (enforce, gap_timeout, backlog)
    }

    /// Fills in what the machine knows: addresses of interfaces, a node ID, and the number of
    /// packet processors. What is configured stays.
    pub fn populate_runtime_defaults(&mut self, interfaces: &Vec<Interface>, num_cpus: usize)
        requires
            old(self).private_network_addr@.len() == 0 ==> (interface_ipv4(
                interfaces@,
                old(self).private_network_interface@,
            ) matches Some(ip) ==> ip.bits >= old(self).external_base_addr.bits),
        ensures
            *final(self) == (LocalConfig {
                private_network_addr: final(self).private_network_addr,
                public_network_addr: final(self).public_network_addr,
                node_id: final(self).node_id,
                num_packet_processors: final(self).num_packet_processors,
                ..*old(self)
            }),
            final(self).private_network_addr@ == known_address(
                old(self).private_network_addr@,
                interfaces@,
                old(self).private_network_interface@,
            ),
            final(self).public_network_addr@ == known_address(
                old(self).public_network_addr@,
                interfaces@,
                old(self).public_network_interface@,
            ),
            final(self).node_id == known_node_id(
                old(self).node_id,
                old(self).private_network_addr@,
                interface_ipv4(interfaces@, old(self).private_network_interface@),
                old(self).external_base_addr,
            ),
            final(self).num_packet_processors == if old(self).num_packet_processors == 0 {
                num_cpus
            } else {
                old(self).num_packet_processors
            },
    {
        let node_id: usize = find_node_id(
            self.node_id,
            &self.private_network_addr,
            interfaces,
            &self.private_network_interface,
            self.external_base_addr,
        );
        let private_network_addr = find_address(
            &self.private_network_addr,
            interfaces,
            &self.private_network_interface,
        );
        let public_network_addr = find_address(
            &self.public_network_addr,
            interfaces,
            &self.public_network_interface,
        );
        let processors: usize = if self.num_packet_processors == 0 {
            num_cpus
        } else {
            self.num_packet_processors
        };
        self.node_id = node_id;
        self.private_network_addr = private_network_addr;
        self.public_network_addr = public_network_addr;
        self.num_packet_processors = processors;
    }

    /// Makes this the configuration of a node in a namespace. Its ID is its place plus one.
    pub fn set_for_namespace(
        &mut self,
        config_path: String,
        ns_addr: String,
        node_index: usize,
        num_cpus: usize,
    )
        requires
            node_index < usize::MAX,
        ensures
            *final(self) == (LocalConfig {
                private_network_addr: ns_addr,
                public_network_addr: ns_addr,
                node_id: (node_index + 1) as usize,
                num_packet_processors: if old(self).num_packet_processors == 0 {
                    num_cpus
                } else {
                    old(self).num_packet_processors
                },
                config_path,
                ..*old(self)
            }),
    {
        let processors: usize = if self.num_packet_processors == 0 {
            num_cpus
        } else {
            self.num_packet_processors
        };
        let private_network_addr = ns_addr.clone();
        self.private_network_addr = private_network_addr;
        self.public_network_addr = ns_addr;
        self.node_id = node_index + 1;
        self.num_packet_processors = processors;
        self.config_path = config_path;
    }

    /// Takes over what the controller answers to a node that starts. A message that is neither
    /// settings nor flows changes nothing.
    pub fn update(&mut self, response: ControllerToDataplane)
        requires
            response matches ControllerToDataplane::StartUp(start) ==> start.node_id.fits_network(
                start.virtual_base_addr,
                start.net_mask,
            ) && start.node_id.fits_network(start.user_space_base_addr, start.net_mask),
        ensures
            *final(self) == (match response {
                ControllerToDataplane::StartUp(start) => LocalConfig {
                    node_id: start.node_id,
                    protocol: start.protocol,
                    local_netmask: start.net_mask,
                    virtual_base_addr: start.virtual_base_addr,
                    user_space_base_addr: start.user_space_base_addr,
                    external_base_addr: start.external_base_addr,
                    local_address: start.node_id.offset_addr(start.virtual_base_addr),
                    user_space_address: start.node_id.offset_addr(start.user_space_base_addr),
                    max_server_port: start.max_server_port,
                    scheduler_type: start.scheduler_type,
                    operating_mode: start.operating_mode,
                    ..*old(self)
                },
                ControllerToDataplane::AddFlows { flows } => LocalConfig {
                    flow: flows,
                    ..*old(self)
                },
                _ => *old(self),
            }),
    {
        match response {
            ControllerToDataplane::StartUp(start) => {
                self.node_id = start.node_id;
                self.protocol = start.protocol;
                self.local_netmask = start.net_mask;
                self.virtual_base_addr = start.virtual_base_addr;
                self.user_space_base_addr = start.user_space_base_addr;
                self.external_base_addr = start.external_base_addr;
                self.local_address = start.node_id.ip_addr(
                    start.virtual_base_addr,
                    start.net_mask,
                );
                self.user_space_address = start.node_id.ip_addr(
                    start.user_space_base_addr,
                    start.net_mask,
                );
                self.max_server_port = start.max_server_port;
                self.scheduler_type = start.scheduler_type;
                self.operating_mode = start.operating_mode;
            },
            ControllerToDataplane::AddFlows { flows } => {
                self.flow = flows;
            },
            _ => {},
        }
    }
}

/// The TUN address of a node stands for that node.
pub proof fn law_tun_address_round_trip(config: LocalConfig, node_id: NodeId)
    requires
        node_id.fits_network(config.virtual_base_addr, config.local_netmask),
        config.virtual_base_addr.bits + node_id <= u32::MAX,
    ensures
        !below_base(config, node_id.offset_addr(config.virtual_base_addr).bits),
        node_of_ip(config, node_id.offset_addr(config.virtual_base_addr).bits) == node_id,
{
}

/// The user-space address of a node stands for that node, where the user-space network is not the
/// TUN network.
pub proof fn law_user_space_address_round_trip(config: LocalConfig, node_id: NodeId)
    requires
        node_id.fits_network(config.user_space_base_addr, config.local_netmask),
        config.user_space_base_addr.bits + node_id <= u32::MAX,
        !net::same_network(
            config.user_space_base_addr.bits,
            config.virtual_base_addr.bits,
            config.local_netmask.bits,
        ),
    ensures
        !below_base(config, node_id.offset_addr(config.user_space_base_addr).bits),
        node_of_ip(config, node_id.offset_addr(config.user_space_base_addr).bits) == node_id,
{
}

/// An address stands for the node whose ID is its distance from the base address of its network. The
/// TUN network comes first, then that of user space, then the external one; an address in none of
/// them stands for no node.
pub proof fn law_addresses_count_from_their_base(config: LocalConfig, ip: u32)
    ensures
        ({
            let mask = config.local_netmask.bits;
            let tun = ip & mask == config.virtual_base_addr.bits & mask;
            let user = ip & mask == config.user_space_base_addr.bits & mask;
            let external = ip & mask == config.external_base_addr.bits & mask;
            &&& tun ==> below_base(config, ip) == (ip < config.virtual_base_addr.bits)
            &&& tun && !below_base(config, ip) ==> config.virtual_base_addr.bits + node_of_ip(
                config,
                ip,
            ) == ip
            &&& !tun && user ==> below_base(config, ip) == (ip < config.user_space_base_addr.bits)
            &&& !tun && user && !below_base(config, ip) ==> config.user_space_base_addr.bits
                + node_of_ip(config, ip) == ip
            &&& !tun && !user && external ==> below_base(config, ip) == (ip
                < config.external_base_addr.bits)
            &&& !tun && !user && external && !below_base(config, ip)
                ==> config.external_base_addr.bits + node_of_ip(config, ip) == ip
            &&& !tun && !user && !external ==> !below_base(config, ip) && node_of_ip(config, ip)
                == usize::MAX
        }),
{
}

/// What is configured stays. An address that is not configured is that of the interface with the
/// given name, and a node without an ID and without a private address is numbered by the address of
/// that interface, counted from the external base.
pub proof fn law_configured_values_stay(
    configured: Seq<char>,
    interfaces: Seq<Interface>,
    name: Seq<char>,
    node_id: NodeId,
    ip: Ipv4Addr,
    base: Ipv4Addr,
)
    requires
        ip.bits >= base.bits,
    ensures
        configured.len() > 0 ==> known_address(configured, interfaces, name) == configured,
        configured.len() == 0 ==> known_address(configured, interfaces, name)
            == match interface_ipv4(interfaces, name) {
            Some(found) => text::dotted(found.bits),
            None => Seq::empty(),
        },
        configured.len() > 0 || node_id != 0 ==> known_node_id(node_id, configured, Some(ip), base)
            == node_id,
        configured.len() == 0 && node_id == 0 ==> base.bits + known_node_id(
            node_id,
            configured,
            Some(ip),
            base,
        ) == ip.bits,
        known_node_id(node_id, configured, None, base) == node_id,
{
}

/// Whether an IPv4 address stands at a place in the lists of interfaces.
pub open spec fn stands_at(interfaces: Seq<Interface>, i: int, k: int, ip: Ipv4Addr) -> bool {
    &&& 0 <= i < interfaces.len()
    &&& 0 <= k < interfaces[i].addrs@.len()
    &&& interfaces[i].addrs@[k] == InterfaceAddr::V4(ip)
}

proof fn lemma_last_v4(addrs: Seq<InterfaceAddr>)
    ensures
        last_v4(addrs) matches Some(ip) ==> exists|k: int|
            0 <= k < addrs.len() && #[trigger] addrs[k] == InterfaceAddr::V4(ip) && forall|m: int|
                k < m < addrs.len() ==> (#[trigger] addrs[m]) is V6,
        last_v4(addrs) is None ==> forall|m: int| 0 <= m < addrs.len() ==> (#[trigger] addrs[m]) is V6,
    decreases addrs.len(),
{
    if addrs.len() > 0 {
        let earlier = addrs.drop_last();
        let end = addrs.len() - 1;
        lemma_last_v4(earlier);
        if addrs[end] is V6 {
            if let Some(ip) = last_v4(earlier) {
                let k = choose|k: int|
                    0 <= k < earlier.len() && #[trigger] earlier[k] == InterfaceAddr::V4(ip)
                        && forall|m: int|
                        k < m < earlier.len() ==> (#[trigger] earlier[m]) is V6;
                assert(addrs[k] == InterfaceAddr::V4(ip));
                assert forall|m: int| k < m < addrs.len() implies (#[trigger] addrs[m]) is V6 by {
                    if m < end {
                        assert(earlier[m] == addrs[m]);
                    }
                }
            } else {
                assert forall|m: int| 0 <= m < addrs.len() implies (#[trigger] addrs[m]) is V6 by {
                    if m < end {
                        assert(earlier[m] == addrs[m]);
                    }
                }
            }
        } else {
            assert(addrs[end] == InterfaceAddr::V4(last_v4(addrs)->0));
        }
    }
}

/// The address of an interface is the last IPv4 address that is listed under its name. There is none
/// exactly if no such address is listed.
pub proof fn law_interface_has_its_last_address(interfaces: Seq<Interface>, name: Seq<char>)
    ensures
        interface_ipv4(interfaces, name) matches Some(ip) ==> exists|i: int, k: int| #[trigger]
            stands_at(interfaces, i, k, ip) && interfaces[i].name@ == name && forall|
                j: int,
                m: int,
                other: Ipv4Addr,
            | #[trigger]
                stands_at(interfaces, j, m, other) && interfaces[j].name@ == name ==> j < i || j == i
                    && m <= k,
        interface_ipv4(interfaces, name) is None ==> forall|j: int, m: int, other: Ipv4Addr|
            #[trigger] stands_at(interfaces, j, m, other) ==> interfaces[j].name@ != name,
    decreases interfaces.len(),
{
    if interfaces.len() > 0 {
        let earlier = interfaces.drop_last();
        let end = interfaces.len() - 1;
        law_interface_has_its_last_address(earlier, name);
        let addrs = interfaces[end].addrs@;
        lemma_last_v4(addrs);
        if interfaces[end].name@ == name && last_v4(addrs) is Some {
            let ip = last_v4(addrs)->0;
            let k = choose|k: int|
                0 <= k < addrs.len() && #[trigger] addrs[k] == InterfaceAddr::V4(ip) && forall|m: int|
                    k < m < addrs.len() ==> (#[trigger] addrs[m]) is V6;
            assert(stands_at(interfaces, end, k, ip));
            assert forall|j: int, m: int, other: Ipv4Addr| #[trigger]
                stands_at(interfaces, j, m, other) && interfaces[j].name@ == name implies j < end
                || j == end && m <= k by {
                if j == end && m > k {
                    assert(addrs[m] is V6);
                }
            }
        } else {
            if let Some(ip) = interface_ipv4(earlier, name) {
                let (i, k) = choose|i: int, k: int| #[trigger]
                    stands_at(earlier, i, k, ip) && earlier[i].name@ == name && forall|
                        j: int,
                        m: int,
                        other: Ipv4Addr,
                    | #[trigger]
                        stands_at(earlier, j, m, other) && earlier[j].name@ == name ==> j < i || j
                            == i && m <= k;
                assert(stands_at(interfaces, i, k, ip));
                assert forall|j: int, m: int, other: Ipv4Addr| #[trigger]
                    stands_at(interfaces, j, m, other) && interfaces[j].name@ == name implies j < i
                    || j == i && m <= k by {
                    if j < end {
                        assert(stands_at(earlier, j, m, other));
                    } else {
                        assert(addrs[m] is V4);
                    }
                }
            } else {
                assert forall|j: int, m: int, other: Ipv4Addr| #[trigger]
                    stands_at(interfaces, j, m, other) implies interfaces[j].name@ != name by {
                    if j < end {
                        assert(stands_at(earlier, j, m, other));
                    } else {
                        assert(addrs[m] is V4);
                    }
                }
            }
        }
    }
}

/// Without flows of its own, a node has one TCP flow of a billion bytes to itself, on any route and
/// without a rate.
pub proof fn law_default_flow()
    ensures
        default_flow().controller_id is None,
        default_flow().src_node_id == 0,
        default_flow().dst_node_id == 0,
        default_flow().route_id is None,
        default_flow().flow_spec.flow_len == FlowLen::Bytes(1_000_000_000),
        default_flow().flow_spec.flow_rate is None,
        default_flow().flow_spec.flow_weight is None,
        default_flow().flow_spec.transport is Tcp,
{
}

} // verus!
