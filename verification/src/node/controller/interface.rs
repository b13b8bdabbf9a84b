//! How a node answers the controller.
//!
//! The controller brings a network up by sending each node its neighbors, routes, multicast groups
//! and flows. `ControllerToDataplaneReceiver` keeps what a node has heard so far and turns every
//! message into the actions that the node takes, in order. The caller carries the actions out one
//! after the other before it hands in the next message.

use std::collections::{HashMap, HashSet};

use vstd::prelude::*;

use crate::messages::{
    ControllerToDataplane, Flow, FlowTransport, GroupDirectoryEntry, GroupId,
    GroupRoutingTableEntry, RoutingTableEntry, TokenBucketSpec,
};
use crate::net::Ipv4Addr;

verus! {

broadcast use vstd::std_specs::hash::group_hash_axioms;

/// How long multicast routes must have been left alone before lossless sessions may start, in
/// nanoseconds.
pub const LOSSLESS_GROUP_ROUTE_QUIET_PERIOD: u64 = 500_000_000;

/// The payload of one probe packet: with 20 bytes of IP header and 20 bytes of TCP header it makes
/// a virtual packet of 1400 bytes.
pub const PROBE_PAYLOAD_SIZE: usize = 1360;

/// Which of the connections to a neighbor a packet takes.
#[derive(Clone, Copy, Debug, PartialEq, Eq, Structural, Hash)]
pub enum TransportScope {
    /// The connection that all unicast traffic shares.
    Default,
    /// The connection of one multicast tree.
    Tree(u16),
}

/// The addresses and ports between which a packet travels.
#[derive(Clone, Copy, Debug, PartialEq, Eq, Structural)]
pub struct Ends {
    pub src_ip: Ipv4Addr,
    pub src_port: u16,
    pub dst_ip: Ipv4Addr,
    pub dst_port: u16,
}

/// The ends of a probe packet: it goes over one link, from 127.0.0.1 to 127.0.0.2, without ports.
pub open spec fn probe_ends() -> Ends {
    Ends {
        src_ip: Ipv4Addr { bits: 0x7F00_0001 },
        src_port: 0,
        dst_ip: Ipv4Addr { bits: 0x7F00_0002 },
        dst_port: 0,
    }
}

/// Something the node does in answer to the controller.
#[allow(inconsistent_fields)]
#[derive(Debug, PartialEq, Eq)]
pub enum Action {
    /// Connect to a neighbor and hand the connection to the packet processors.
    Connect { remote_node_id: usize, remote_addr: String, scope: TransportScope },
    /// Tell the packet processors where a node can be reached.
    AddNodeAddress { remote_node_id: usize, remote_addr: String },
    /// Limit the rate of the link to a node.
    LimitRate { node_id: usize, spec: TokenBucketSpec },
    /// Replace the unicast routes.
    UpdateRoutingTable { routes: Vec<RoutingTableEntry> },
    /// Wait until every packet processor has taken up what it was told.
    SyncWorkers,
    /// Let the user-space server expect a flow.
    StoreFlowSpec { flow: Flow },
    /// Start user-space TCP flows.
    StartTcpFlows { flows: Vec<Flow> },
    /// Start lossless unicast flows.
    StartLosslessFlows { flows: Vec<Flow> },
    /// Replace the directory of multicast groups.
    UpdateGroupDirectory { groups: Vec<GroupDirectoryEntry> },
    /// Replace the routes of a multicast group.
    UpdateGroupRoutes {
        group_id: GroupId,
        src_node_id: usize,
        routes: Vec<GroupRoutingTableEntry>,
    },
    /// Report back, with the time, that the routes of a multicast group are in place.
    ConfirmGroupRoutes { group_id: GroupId },
    /// Hand in an activation event with this nonce once the quiet period has passed.
    ScheduleActivation { nonce: u64 },
    /// Open or close the lossless runtime for sessions.
    SetLosslessTopologyReady { ready: bool },
    /// Tell the controller that this node is ready.
    NotifyTopologyReady { node_id: usize },
    /// Send probe packets with these ends and payloads over the link to a node.
    SendProbe { remote_node_id: usize, ends: Ends, payloads: Vec<Vec<u8>> },
    /// Log a message that a running node does not expect.
    RejectMessage,
}

/// What an action stands for.
#[allow(inconsistent_fields)]
#[verifier::ext_equal]
pub enum ActionView {
    Connect { remote_node_id: usize, remote_addr: Seq<char>, scope: TransportScope },
    AddNodeAddress { remote_node_id: usize, remote_addr: Seq<char> },
    LimitRate { node_id: usize, spec: TokenBucketSpec },
    UpdateRoutingTable { routes: Seq<RoutingTableEntry> },
    SyncWorkers,
    StoreFlowSpec { flow: Flow },
    StartTcpFlows { flows: Seq<Flow> },
    StartLosslessFlows { flows: Seq<Flow> },
    UpdateGroupDirectory { groups: Seq<GroupDirectoryEntry> },
    UpdateGroupRoutes {
        group_id: GroupId,
        src_node_id: usize,
        routes: Seq<GroupRoutingTableEntry>,
    },
    ConfirmGroupRoutes { group_id: GroupId },
    ScheduleActivation { nonce: int },
    SetLosslessTopologyReady { ready: bool },
    NotifyTopologyReady { node_id: usize },
    SendProbe { remote_node_id: usize, ends: Ends, payloads: Seq<Seq<u8>> },
    RejectMessage,
}

/// The contents of a list of byte strings.
pub open spec fn payload_views(payloads: Seq<Vec<u8>>) -> Seq<Seq<u8>> {
    Seq::new(payloads.len(), |i: int| payloads[i]@)
}

impl View for Action {
    type V = ActionView;

    open spec fn view(&self) -> ActionView {
        match *self {
            Action::Connect { remote_node_id, remote_addr, scope } => ActionView::Connect {
                remote_node_id,
                remote_addr: remote_addr@,
                scope,
            },
            Action::AddNodeAddress { remote_node_id, remote_addr } => ActionView::AddNodeAddress {
                remote_node_id,
                remote_addr: remote_addr@,
            },
            Action::LimitRate { node_id, spec } => ActionView::LimitRate { node_id, spec },
            Action::UpdateRoutingTable { routes } => ActionView::UpdateRoutingTable {
                routes: routes@,
            },
            Action::SyncWorkers => ActionView::SyncWorkers,
            Action::StoreFlowSpec { flow } => ActionView::StoreFlowSpec { flow },
            Action::StartTcpFlows { flows } => ActionView::StartTcpFlows { flows: flows@ },
            Action::StartLosslessFlows { flows } => ActionView::StartLosslessFlows {
                flows: flows@,
            },
            Action::UpdateGroupDirectory { groups } => ActionView::UpdateGroupDirectory {
                groups: groups@,
            },
            Action::UpdateGroupRoutes { group_id, src_node_id, routes } => {
                ActionView::UpdateGroupRoutes { group_id, src_node_id, routes: routes@ }
            },
            Action::ConfirmGroupRoutes { group_id } => ActionView::ConfirmGroupRoutes { group_id },
            Action::ScheduleActivation { nonce } => ActionView::ScheduleActivation {
                nonce: nonce as int,
            },
            Action::SetLosslessTopologyReady { ready } => ActionView::SetLosslessTopologyReady {
                ready,
            },
            Action::NotifyTopologyReady { node_id } => ActionView::NotifyTopologyReady { node_id },
            Action::SendProbe { remote_node_id, ends, payloads } => ActionView::SendProbe {
                remote_node_id,
                ends,
                payloads: payload_views(payloads@),
            },
            Action::RejectMessage => ActionView::RejectMessage,
        }
    }
}

/// What a list of actions stands for.
pub open spec fn views(actions: Seq<Action>) -> Seq<ActionView> {
    Seq::new(actions.len(), |i: int| actions[i]@)
}

proof fn lemma_views_push(actions: Seq<Action>, action: Action)
    ensures
        views(actions.push(action)) == views(actions).push(action@),
{
    assert(views(actions.push(action)) =~= views(actions).push(action@));
}

/// What a node knows of the network.
#[verifier::ext_equal]
pub struct Topology {
    pub node_id: usize,
    /// The number of trees that the route IDs of one group leave room for.
    pub multitree_stride: usize,
    pub topology_ready: bool,
    pub lossless_topology_ready: bool,
    pub pending_tcp_flows: Seq<Flow>,
    pub pending_lossless_flows: Seq<Flow>,
    pub expected_neighbors: int,
    pub connected_neighbors: int,
    pub neighbor_addrs: Map<usize, String>,
    pub connected_scopes: Set<(usize, TransportScope)>,
    pub routes_installed: bool,
    pub group_directory_installed: bool,
    pub installed_group_routes: Set<GroupId>,
    pub group_ips: Map<GroupId, Ipv4Addr>,
    pub local_topology_ready_sent: bool,
    pub last_group_route_update_at: Option<u64>,
    pub group_route_nonce: int,
}

/// A state and the actions that led to it.
#[verifier::ext_equal]
pub struct Outcome {
    pub state: Topology,
    pub actions: Seq<ActionView>,
}

impl Outcome {
    /// The outcome of staying put.
    pub open spec fn of(state: Topology) -> Outcome {
        Outcome { state, actions: Seq::empty() }
    }

    /// One more action.
    pub open spec fn act(self, action: ActionView) -> Outcome {
        Outcome { state: self.state, actions: self.actions.push(action) }
    }

    /// A further step after this one.
    pub open spec fn and(self, next: Outcome) -> Outcome {
        Outcome { state: next.state, actions: self.actions + next.actions }
    }
}

impl Topology {
    /// What a node knows before the first message.
    pub open spec fn initial(node_id: usize, multitree_stride: usize) -> Topology {
        Topology {
            node_id,
            multitree_stride,
            topology_ready: false,
            lossless_topology_ready: false,
            pending_tcp_flows: Seq::empty(),
            pending_lossless_flows: Seq::empty(),
            expected_neighbors: 0,
            connected_neighbors: 0,
            neighbor_addrs: Map::empty(),
            connected_scopes: Set::empty(),
            routes_installed: false,
            group_directory_installed: false,
            installed_group_routes: Set::empty(),
            group_ips: Map::empty(),
            local_topology_ready_sent: false,
            last_group_route_update_at: None,
            group_route_nonce: 0,
        }
    }

    /// Whether this node has what it needs to call itself ready.
    pub open spec fn locally_ready(self) -> bool {
        &&& self.connected_neighbors >= self.expected_neighbors
        &&& self.routes_installed
        &&& self.group_directory_installed
    }

    /// Whether this node has what it needs to call itself ready, and has not done so yet.
    pub open spec fn may_notify(self) -> bool {
        !self.local_topology_ready_sent && self.locally_ready()
    }

    /// Tells the controller that this node is ready, once.
    pub open spec fn notify(self) -> Outcome {
        if self.may_notify() {
            Outcome::of(Topology { local_topology_ready_sent: true, ..self }).act(
                ActionView::NotifyTopologyReady { node_id: self.node_id },
            )
        } else {
            Outcome::of(self)
        }
    }

    /// Whether the multicast routes have been left alone for the quiet period.
    pub open spec fn quiet(self, now: u64) -> bool {
        match self.last_group_route_update_at {
            Some(at) => now - at >= LOSSLESS_GROUP_ROUTE_QUIET_PERIOD,
            None => true,
        }
    }

    /// Whether lossless sessions may start: the network is up, every known group has routes, and
    /// those routes have settled.
    pub open spec fn may_activate(self, now: u64) -> bool {
        &&& !self.lossless_topology_ready
        &&& self.topology_ready
        &&& self.quiet(now)
        &&& self.group_directory_installed
        &&& self.installed_group_routes.len() >= self.group_ips.dom().len()
    }

    /// Opens the lossless runtime where that is due, and starts the flows that waited for it.
    pub open spec fn activate(self, now: u64) -> Outcome {
        if self.may_activate(now) {
            let opened = Outcome::of(
                Topology {
                    lossless_topology_ready: true,
                    pending_lossless_flows: Seq::empty(),
                    ..self
                },
            ).act(ActionView::SetLosslessTopologyReady { ready: true });
            if self.pending_lossless_flows.len() == 0 {
                opened
            } else {
                opened.act(ActionView::StartLosslessFlows { flows: self.pending_lossless_flows })
            }
        } else {
            Outcome::of(self)
        }
    }

    /// Closes the lossless runtime where it is open.
    pub open spec fn deactivate(self) -> Outcome {
        if self.lossless_topology_ready {
            Outcome::of(Topology { lossless_topology_ready: false, ..self }).act(
                ActionView::SetLosslessTopologyReady { ready: false },
            )
        } else {
            Outcome::of(self)
        }
    }

    /// Connects to a neighbor in a scope, unless that was done before.
    pub open spec fn connect(
        self,
        remote_node_id: usize,
        remote_addr: Seq<char>,
        scope: TransportScope,
    ) -> Outcome {
        if self.connected_scopes.contains((remote_node_id, scope)) {
            Outcome::of(self)
        } else {
            Outcome::of(
                Topology {
                    connected_scopes: self.connected_scopes.insert((remote_node_id, scope)),
                    ..self
                },
            ).act(ActionView::Connect { remote_node_id, remote_addr, scope })
        }
    }

    /// Learns of a neighbor and connects to it. The first connection counts toward readiness.
    pub open spec fn add_node(self, remote_node_id: usize, remote_addr: String) -> Outcome {
        let known = Topology {
            expected_neighbors: self.expected_neighbors + 1,
            neighbor_addrs: self.neighbor_addrs.insert(remote_node_id, remote_addr),
            ..self
        };
        if known.connected_scopes.contains((remote_node_id, TransportScope::Default)) {
            Outcome::of(known)
        } else {
            let connected = known.connect(remote_node_id, remote_addr@, TransportScope::Default);
            connected.and(
                Topology {
                    connected_neighbors: known.connected_neighbors + 1,
                    ..connected.state
                }.notify(),
            )
        }
    }

    /// The connection that the route with this ID takes.
    pub open spec fn tree_scope(self, route_id: usize) -> TransportScope {
        TransportScope::Tree((route_id % self.multitree_stride) as u16)
    }

    /// Connects to one next hop of a multicast route. This node itself, and nodes whose address is
    /// not known, are passed over.
    pub open spec fn connect_hop(self, next_hop: usize, scope: TransportScope) -> Outcome {
        if next_hop != self.node_id && self.neighbor_addrs.contains_key(next_hop) {
            self.connect(next_hop, self.neighbor_addrs[next_hop]@, scope)
        } else {
            Outcome::of(self)
        }
    }

    /// Connects to next hops, in order.
    pub open spec fn connect_hops(self, next_hops: Seq<usize>, scope: TransportScope) -> Outcome
        decreases next_hops.len(),
    {
        if next_hops.len() == 0 {
            Outcome::of(self)
        } else {
            let before = self.connect_hops(next_hops.drop_last(), scope);
            before.and(before.state.connect_hop(next_hops.last(), scope))
        }
    }

    /// Connects to the next hops of multicast routes, in order.
    pub open spec fn connect_routes(self, routes: Seq<GroupRoutingTableEntry>) -> Outcome
        decreases routes.len(),
    {
        if routes.len() == 0 {
            Outcome::of(self)
        } else {
            let before = self.connect_routes(routes.drop_last());
            before.and(
                before.state.connect_hops(
                    routes.last().next_hops@,
                    self.tree_scope(routes.last().route_id),
                ),
            )
        }
    }

    /// Flows that end here over TCP.
    pub open spec fn served_here(self) -> spec_fn(Flow) -> bool {
        |flow: Flow| flow.flow_spec.transport is Tcp && flow.dst_node_id == self.node_id
    }

    /// Flows that start here over TCP.
    pub open spec fn started_here(self) -> spec_fn(Flow) -> bool {
        |flow: Flow| flow.flow_spec.transport is Tcp && flow.src_node_id == self.node_id
    }

    /// Lossless flows that start or end here.
    pub open spec fn lossless_here(self) -> spec_fn(Flow) -> bool {
        |flow: Flow|
            flow.flow_spec.transport is LosslessUnicast && (flow.src_node_id == self.node_id
                || flow.dst_node_id == self.node_id)
    }

    /// Starts TCP flows, or keeps them until the network is up.
    pub open spec fn take_tcp_flows(self, flows: Seq<Flow>) -> Outcome {
        if flows.len() == 0 {
            Outcome::of(self)
        } else if self.topology_ready {
            Outcome::of(self).act(ActionView::StartTcpFlows { flows })
        } else {
            Outcome::of(Topology { pending_tcp_flows: self.pending_tcp_flows + flows, ..self })
        }
    }

    /// Starts lossless flows, or keeps them until the lossless runtime is open.
    pub open spec fn take_lossless_flows(self, flows: Seq<Flow>) -> Outcome {
        if flows.len() == 0 {
            Outcome::of(self)
        } else if self.lossless_topology_ready {
            Outcome::of(self).act(ActionView::StartLosslessFlows { flows })
        } else {
            Outcome::of(
                Topology { pending_lossless_flows: self.pending_lossless_flows + flows, ..self },
            )
        }
    }

    /// Takes up the flows that concern this node.
    pub open spec fn add_flows(self, flows: Seq<Flow>) -> Outcome {
        let stored = Outcome {
            state: self,
            actions: flows.filter(self.served_here()).map_values(
                |flow: Flow| ActionView::StoreFlowSpec { flow },
            ),
        };
        let tcp = self.take_tcp_flows(flows.filter(self.started_here()));
        stored.and(tcp).and(
            tcp.state.take_lossless_flows(flows.filter(self.lossless_here())),
        )
    }

    /// The network is up.
    pub open spec fn become_ready(self, now: u64) -> Outcome {
        let ready = Topology { topology_ready: true, pending_tcp_flows: Seq::empty(), ..self };
        let started = if self.pending_tcp_flows.len() == 0 {
            Outcome::of(ready)
        } else {
            Outcome::of(ready).act(ActionView::StartTcpFlows { flows: self.pending_tcp_flows })
        };
        started.and(ready.activate(now))
    }

    /// Replaces the group directory. The routes of all groups are then awaited anew.
    pub open spec fn install_directory(
        self,
        groups: Seq<GroupDirectoryEntry>,
        now: u64,
    ) -> Outcome {
        let closed = if groups.len() == 0 {
            Outcome::of(self)
        } else {
            self.deactivate()
        };
        let installed = Topology {
            group_ips: directory(groups),
            installed_group_routes: Set::empty(),
            group_directory_installed: true,
            ..closed.state
        };
        let activated = installed.activate(now);
        closed.act(ActionView::UpdateGroupDirectory { groups }).and(activated).and(
            activated.state.notify(),
        )
    }

    /// Replaces the routes of a group: closes the lossless runtime, connects to the next hops, and
    /// hands the routes out between two waits for the packet processors.
    pub open spec fn install_group_routes(
        self,
        group_id: GroupId,
        src_node_id: usize,
        routes: Seq<GroupRoutingTableEntry>,
    ) -> Outcome {
        let closed = self.deactivate();
        closed.and(closed.state.connect_routes(routes)).act(ActionView::SyncWorkers).act(
            ActionView::UpdateGroupRoutes { group_id, src_node_id, routes },
        ).act(ActionView::SyncWorkers).act(ActionView::ConfirmGroupRoutes { group_id })
    }

    /// The routes of a group are in place since `updated_at`; `now` is a later reading.
    pub open spec fn confirm_group_routes(
        self,
        group_id: GroupId,
        updated_at: u64,
        now: u64,
    ) -> Outcome {
        let nonce = self.group_route_nonce + 1;
        let confirmed = Topology {
            installed_group_routes: self.installed_group_routes.insert(group_id),
            last_group_route_update_at: Some(updated_at),
            group_route_nonce: nonce,
            ..self
        };
        let activated = confirmed.activate(now);
        Outcome::of(confirmed).act(ActionView::ScheduleActivation { nonce }).and(activated).and(
            activated.state.notify(),
        )
    }

    /// The quiet period that began with this nonce has passed.
    pub open spec fn activation_due(self, nonce: int, now: u64) -> Outcome {
        if nonce == self.group_route_nonce {
            self.activate(now)
        } else {
            Outcome::of(self)
        }
    }

    /// What a message from the controller leads to.
    pub open spec fn after(self, msg: ControllerToDataplane, now: u64) -> Outcome {
        match msg {
            ControllerToDataplane::AddNode { remote_node_id, remote_addr } => self.add_node(
                remote_node_id,
                remote_addr,
            ),
            ControllerToDataplane::AddNodeAddress { remote_node_id, remote_max_server_addr } => {
                Outcome::of(
                    Topology {
                        neighbor_addrs: self.neighbor_addrs.insert(
                            remote_node_id,
                            remote_max_server_addr,
                        ),
                        ..self
                    },
                ).act(
                    ActionView::AddNodeAddress {
                        remote_node_id,
                        remote_addr: remote_max_server_addr@,
                    },
                )
            },
            ControllerToDataplane::SetLinkRate { node_id, spec } => Outcome::of(self).act(
                ActionView::LimitRate { node_id, spec },
            ),
            ControllerToDataplane::InstallRoutes { routes } => {
                let installed = Topology { routes_installed: true, ..self };
                Outcome::of(installed).act(
                    ActionView::UpdateRoutingTable { routes: routes@ },
                ).act(ActionView::SyncWorkers).and(installed.notify())
            },
            ControllerToDataplane::AddFlows { flows } => self.add_flows(flows@),
            ControllerToDataplane::TopologyReady => self.become_ready(now),
            ControllerToDataplane::GroupCreated { group_id, group_ip, src_node_id } => Outcome::of(
                self,
            ),
            ControllerToDataplane::InstallGroupDirectory { groups } => self.install_directory(
                groups@,
                now,
            ),
            ControllerToDataplane::InstallGroupRoutes { group_id, src_node_id, routes } => {
                self.install_group_routes(group_id, src_node_id, routes@)
            },
            ControllerToDataplane::ProbeLink { remote_node_id, probe_id, probe_bytes } => {
                Outcome::of(self).act(
                    ActionView::SendProbe {
                        remote_node_id,
                        ends: probe_ends(),
                        payloads: probe_train(self.node_id, probe_id, probe_bytes),
                    },
                )
            },
            ControllerToDataplane::StartUp(_) => Outcome::of(self).act(ActionView::RejectMessage),
        }
    }
}

/// The address of each group in a directory; the last entry for a group counts.
pub open spec fn directory(groups: Seq<GroupDirectoryEntry>) -> Map<GroupId, Ipv4Addr>
    decreases groups.len(),
{
    if groups.len() == 0 {
        Map::empty()
    } else {
        directory(groups.drop_last()).insert(groups.last().group_id, groups.last().group_ip)
    }
}

/// A probe payload: a flag that marks the last packet, the probe ID, the ID of the sender, and
/// zeros up to the payload size.
pub open spec fn probe_payload(is_last: bool, probe_id: u64, sender_id: u64) -> Seq<u8> {
    (seq![if is_last { 1u8 } else { 0u8 }] + crate::net::be64_bytes(probe_id)
        + crate::net::be64_bytes(sender_id)) + Seq::new(
        (PROBE_PAYLOAD_SIZE - 17) as nat,
        |i: int| 0u8,
    )
}

/// How many packets make up a probe of so many bytes: as many as fit, and one at least.
pub open spec fn probe_packets(probe_bytes: usize) -> nat {
    if probe_bytes / PROBE_PAYLOAD_SIZE > 1 {
        (probe_bytes / PROBE_PAYLOAD_SIZE) as nat
    } else {
        1
    }
}

/// The payloads of a probe.
pub open spec fn probe_train(node_id: usize, probe_id: u64, probe_bytes: usize) -> Seq<Seq<u8>> {
    Seq::new(
        probe_packets(probe_bytes),
        |i: int| probe_payload(i == probe_packets(probe_bytes) - 1, probe_id, node_id as u64),
    )
}

/// Keeps what a node has heard from the controller and decides what it does next.
pub struct ControllerToDataplaneReceiver {
    node_id: usize,
    multitree_stride: usize,
    group_ip_by_id: HashMap<GroupId, Ipv4Addr>,
    topology_ready: bool,
    lossless_topology_ready: bool,
    pending_tcp_flows: Vec<Flow>,
    pending_lossless_flows: Vec<Flow>,
    expected_neighbor_count: usize,
    connected_neighbor_count: usize,
    neighbor_addrs: HashMap<usize, String>,
    connected_scopes: Vec<(usize, TransportScope)>,
    routes_installed: bool,
    group_directory_installed: bool,
    installed_group_route_ids: HashSet<GroupId>,
    local_topology_ready_sent: bool,
    last_group_route_update_at: Option<u64>,
    latest_group_route_nonce: u64,
}

/// Adds an action at the end of a list.
fn emit(actions: &mut Vec<Action>, action: Action)
    ensures
        views(final(actions)@) == views(old(actions)@).push(action@),
{
    proof {
        lemma_views_push(actions@, action);
    }
    actions.push(action);
}

impl View for ControllerToDataplaneReceiver {
    type V = Topology;

    closed spec fn view(&self) -> Topology {
        Topology {
            node_id: self.node_id,
            multitree_stride: self.multitree_stride,
            topology_ready: self.topology_ready,
            lossless_topology_ready: self.lossless_topology_ready,
            pending_tcp_flows: self.pending_tcp_flows@,
            pending_lossless_flows: self.pending_lossless_flows@,
            expected_neighbors: self.expected_neighbor_count as int,
            connected_neighbors: self.connected_neighbor_count as int,
            neighbor_addrs: self.neighbor_addrs@,
            connected_scopes: self.connected_scopes@.to_set(),
            routes_installed: self.routes_installed,
            group_directory_installed: self.group_directory_installed,
            installed_group_routes: self.installed_group_route_ids@,
            group_ips: self.group_ip_by_id@,
            local_topology_ready_sent: self.local_topology_ready_sent,
            last_group_route_update_at: self.last_group_route_update_at,
            group_route_nonce: self.latest_group_route_nonce as int,
        }
    }
}

impl ControllerToDataplaneReceiver {
    /// No connection is listed twice, and there are no more counted neighbors than connections.
    pub closed spec fn wf(&self) -> bool {
        &&& self.connected_scopes@.no_duplicates()
        &&& self.connected_neighbor_count <= self.connected_scopes@.len()
        &&& self.multitree_stride > 0
    }

    /// A node that has heard nothing yet.
    pub fn new(node_id: usize, multitree_stride: usize) -> (receiver: Self)
        requires
            multitree_stride > 0,
        ensures
            receiver.wf(),
            receiver@ == Topology::initial(node_id, multitree_stride),
    {
        let receiver = ControllerToDataplaneReceiver {
            node_id,
            multitree_stride,
            group_ip_by_id: HashMap::new(),
            topology_ready: false,
            lossless_topology_ready: false,
            pending_tcp_flows: Vec::new(),
            pending_lossless_flows: Vec::new(),
            expected_neighbor_count: 0,
            connected_neighbor_count: 0,
            neighbor_addrs: HashMap::new(),
            connected_scopes: Vec::new(),
            routes_installed: false,
            group_directory_installed: false,
            installed_group_route_ids: HashSet::new(),
            local_topology_ready_sent: false,
            last_group_route_update_at: None,
            latest_group_route_nonce: 0,
        };
        assert(receiver@ =~= Topology::initial(node_id, multitree_stride));
        receiver
    }

    /// Whether lossless sessions may run.
    pub fn lossless_topology_ready(&self) -> (ready: bool)
        ensures
            ready == self@.lossless_topology_ready,
    {
        self.lossless_topology_ready
    }

    /// Tells the controller that this node is ready, once it has what it needs and unless it was
    /// told before.
    pub fn maybe_send_local_topology_ready(&mut self, actions: &mut Vec<Action>)
        requires
            old(self).wf(),
        ensures
            final(self).wf(),
            final(self)@ == old(self)@.notify().state,
            views(final(actions)@) == views(old(actions)@) + old(self)@.notify().actions,
    {
        if self.local_topology_ready_sent {
            return;
        }
        if self.connected_neighbor_count < self.expected_neighbor_count {
            return;
        }
        if !self.routes_installed || !self.group_directory_installed {
            return;
        }
        self.local_topology_ready_sent = true;
        emit(actions, Action::NotifyTopologyReady { node_id: self.node_id });
    }

    fn flush_pending_lossless_flows(&mut self, actions: &mut Vec<Action>)
        requires
            old(self).wf(),
        ensures
            final(self).wf(),
            final(self)@ == (Topology { pending_lossless_flows: Seq::empty(), ..old(self)@ }),
            views(final(actions)@) == (if old(self)@.pending_lossless_flows.len() == 0 {
                views(old(actions)@)
            } else {
                views(old(actions)@).push(
                    ActionView::StartLosslessFlows { flows: old(self)@.pending_lossless_flows },
                )
            }),
    {
        if self.pending_lossless_flows.len() > 0 {
            let mut pending: Vec<Flow> = Vec::new();
            std::mem::swap(&mut pending, &mut self.pending_lossless_flows);
            emit(actions, Action::StartLosslessFlows { flows: pending });
        }
        assert(self@ =~= (Topology { pending_lossless_flows: Seq::empty(), ..old(self)@ }));
    }

    fn flush_pending_tcp_flows(&mut self, actions: &mut Vec<Action>)
        requires
            old(self).wf(),
        ensures
            final(self).wf(),
            final(self)@ == (Topology { pending_tcp_flows: Seq::empty(), ..old(self)@ }),
            views(final(actions)@) == (if old(self)@.pending_tcp_flows.len() == 0 {
                views(old(actions)@)
            } else {
                views(old(actions)@).push(
                    ActionView::StartTcpFlows { flows: old(self)@.pending_tcp_flows },
                )
            }),
    {
        if self.pending_tcp_flows.len() > 0 {
            let mut pending: Vec<Flow> = Vec::new();
            std::mem::swap(&mut pending, &mut self.pending_tcp_flows);
            emit(actions, Action::StartTcpFlows { flows: pending });
        }
        assert(self@ =~= (Topology { pending_tcp_flows: Seq::empty(), ..old(self)@ }));
    }

    fn maybe_activate_lossless_topology(&mut self, now: u64, actions: &mut Vec<Action>)
        requires
            old(self).wf(),
        ensures
            final(self).wf(),
            final(self)@ == old(self)@.activate(now).state,
            views(final(actions)@) == views(old(actions)@) + old(self)@.activate(now).actions,
    {
        if self.lossless_topology_ready {
            return;
        }
        if !self.topology_ready {
            return;
        }
        if let Some(last_update_at) = self.last_group_route_update_at {
            if now.saturating_sub(last_update_at) < LOSSLESS_GROUP_ROUTE_QUIET_PERIOD {
                return;
            }
        }
        if !self.group_directory_installed {
            return;
        }
        if self.installed_group_route_ids.len() < self.group_ip_by_id.len() {
            return;
        }
        assert(self@.may_activate(now));
        self.lossless_topology_ready = true;
        emit(actions, Action::SetLosslessTopologyReady { ready: true });
        self.flush_pending_lossless_flows(actions);
        assert(views(actions@) =~= views(old(actions)@) + old(self)@.activate(now).actions);
    }

    fn deactivate_lossless_topology(&mut self, actions: &mut Vec<Action>)
        requires
            old(self).wf(),
        ensures
            final(self).wf(),
            final(self)@ == old(self)@.deactivate().state,
            views(final(actions)@) == views(old(actions)@) + old(self)@.deactivate().actions,
    {
        if !self.lossless_topology_ready {
            return;
        }
        self.lossless_topology_ready = false;
        emit(actions, Action::SetLosslessTopologyReady { ready: false });
    }

    /// Whether a connection to this neighbor in this scope is listed.
    fn is_connected(&self, remote_node_id: usize, scope: TransportScope) -> (connected: bool)
        ensures
            connected == self@.connected_scopes.contains((remote_node_id, scope)),
    {
        let mut i: usize = 0;
        while i < self.connected_scopes.len()
            invariant
                i <= self.connected_scopes.len(),
                forall|j: int|
                    0 <= j < i ==> self.connected_scopes@[j] != (remote_node_id, scope),
            decreases self.connected_scopes.len() - i,
        {
            if self.connected_scopes[i].0 == remote_node_id && self.connected_scopes[i].1 == scope {
                assert(self.connected_scopes@[i as int] == (remote_node_id, scope));
                return true;
            }
            i = i + 1;
        }
        false
    }

    fn ensure_scope_connection(
        &mut self,
        remote_node_id: usize,
        remote_addr: String,
        scope: TransportScope,
        actions: &mut Vec<Action>,
    ) -> (connected: bool)
        requires
            old(self).wf(),
        ensures
            final(self).wf(),
            connected == !old(self)@.connected_scopes.contains((remote_node_id, scope)),
            connected ==> final(self).can_count_neighbor(),
            final(self)@ == old(self)@.connect(remote_node_id, remote_addr@, scope).state,
            views(final(actions)@) == views(old(actions)@) + old(self)@.connect(
                remote_node_id,
                remote_addr@,
                scope,
            ).actions,
    {
        if self.is_connected(remote_node_id, scope) {
            return false;
        }
        let ghost before = self.connected_scopes@;
        self.connected_scopes.push((remote_node_id, scope));
        proof {
            assert(self.connected_scopes@.to_set() =~= before.to_set().insert(
                (remote_node_id, scope),
            )) by {
                assert(self.connected_scopes@[before.len() as int] == (remote_node_id, scope));
                assert forall|x: (usize, TransportScope)| before.contains(x) implies
                    self.connected_scopes@.contains(x) by {
                    let i = choose|i: int| 0 <= i < before.len() && before[i] == x;
                    assert(self.connected_scopes@[i] == x);
                }
            }
        }
        emit(actions, Action::Connect { remote_node_id, remote_addr, scope });
        true
    }

    closed spec fn can_count_neighbor(&self) -> bool {
        self.connected_neighbor_count < self.connected_scopes@.len()
    }

    fn add_node(&mut self, remote_node_id: usize, remote_addr: String, actions: &mut Vec<Action>)
        requires
            old(self).wf(),
            old(self)@.expected_neighbors < usize::MAX,
        ensures
            final(self).wf(),
            final(self)@ == old(self)@.add_node(remote_node_id, remote_addr).state,
            views(final(actions)@) == views(old(actions)@) + old(self)@.add_node(
                remote_node_id,
                remote_addr,
            ).actions,
    {
        self.expected_neighbor_count = self.expected_neighbor_count + 1;
        self.neighbor_addrs.insert(remote_node_id, remote_addr.clone());
        let ghost known = self@;
        let connected = self.ensure_scope_connection(
            remote_node_id,
            remote_addr,
            TransportScope::Default,
            actions,
        );
        if connected {
            let ghost opened = known.connect(remote_node_id, remote_addr@, TransportScope::Default);
            assert(self.connected_scopes.len() <= usize::MAX);
            self.connected_neighbor_count = self.connected_neighbor_count + 1;
            assert(self@ =~= (Topology {
                connected_neighbors: known.connected_neighbors + 1,
                ..opened.state
            }));
            let ghost counted = self@;
            self.maybe_send_local_topology_ready(actions);
            assert(views(actions@) =~= views(old(actions)@) + opened.and(counted.notify()).actions);
        }
    }

    fn connect_hop(&mut self, next_hop: usize, scope: TransportScope, actions: &mut Vec<Action>)
        requires
            old(self).wf(),
        ensures
            final(self).wf(),
            final(self)@ == old(self)@.connect_hop(next_hop, scope).state,
            views(final(actions)@) == views(old(actions)@) + old(self)@.connect_hop(
                next_hop,
                scope,
            ).actions,
    {
        if next_hop == self.node_id {
            return;
        }
        match self.neighbor_addrs.get(&next_hop) {
            Some(addr) => {
                let remote_addr = addr.clone();
                self.ensure_scope_connection(next_hop, remote_addr, scope, actions);
            },
            None => {},
        }
    }

    fn connect_hops(
        &mut self,
        next_hops: &Vec<usize>,
        scope: TransportScope,
        actions: &mut Vec<Action>,
    )
        requires
            old(self).wf(),
        ensures
            final(self).wf(),
            final(self)@ == old(self)@.connect_hops(next_hops@, scope).state,
            views(final(actions)@) == views(old(actions)@) + old(self)@.connect_hops(
                next_hops@,
                scope,
            ).actions,
    {
        let mut i: usize = 0;
        assert(next_hops@.take(0) =~= Seq::<usize>::empty());
        while i < next_hops.len()
            invariant
                i <= next_hops.len(),
                self.wf(),
                self@ == old(self)@.connect_hops(next_hops@.take(i as int), scope).state,
                views(actions@) == views(old(actions)@) + old(self)@.connect_hops(
                    next_hops@.take(i as int),
                    scope,
                ).actions,
            decreases next_hops.len() - i,
        {
            let ghost before = old(self)@.connect_hops(next_hops@.take(i as int), scope);
            assert(next_hops@.take(i + 1).drop_last() =~= next_hops@.take(i as int));
            self.connect_hop(next_hops[i], scope, actions);
            i = i + 1;
            assert(views(actions@) =~= views(old(actions)@) + old(self)@.connect_hops(
                next_hops@.take(i as int),
                scope,
            ).actions);
        }
        assert(next_hops@.take(i as int) =~= next_hops@);
    }

    fn ensure_tree_scope_connections(
        &mut self,
        routes: &Vec<GroupRoutingTableEntry>,
        actions: &mut Vec<Action>,
    )
        requires
            old(self).wf(),
        ensures
            final(self).wf(),
            final(self)@ == old(self)@.connect_routes(routes@).state,
            views(final(actions)@) == views(old(actions)@) + old(self)@.connect_routes(
                routes@,
            ).actions,
    {
        let mut i: usize = 0;
        assert(routes@.take(0) =~= Seq::<GroupRoutingTableEntry>::empty());
        while i < routes.len()
            invariant
                i <= routes.len(),
                self.wf(),
                self.multitree_stride == old(self).multitree_stride,
                self@ == old(self)@.connect_routes(routes@.take(i as int)).state,
                views(actions@) == views(old(actions)@) + old(self)@.connect_routes(
                    routes@.take(i as int),
                ).actions,
            decreases routes.len() - i,
        {
            let ghost before = old(self)@.connect_routes(routes@.take(i as int));
            assert(routes@.take(i + 1).drop_last() =~= routes@.take(i as int));
            let tree_id: usize = routes[i].route_id % self.multitree_stride;
            let scope = TransportScope::Tree(tree_id as u16);
            assert(scope == old(self)@.tree_scope(routes@[i as int].route_id));
            let ghost stride = self@.multitree_stride;
            self.connect_hops(&routes[i].next_hops, scope, actions);
            proof {
                lemma_connect_hops_keeps(
                    before.state,
                    routes@[i as int].next_hops@,
                    scope,
                );
            }
            i = i + 1;
            assert(views(actions@) =~= views(old(actions)@) + old(self)@.connect_routes(
                routes@.take(i as int),
            ).actions);
        }
        assert(routes@.take(i as int) =~= routes@);
    }

    fn add_flows(&mut self, flows: &Vec<Flow>, actions: &mut Vec<Action>)
        requires
            old(self).wf(),
        ensures
            final(self).wf(),
            final(self)@ == old(self)@.add_flows(flows@).state,
            views(final(actions)@) == views(old(actions)@) + old(self)@.add_flows(flows@).actions,
    {
        let ghost state = self@;
        let mut tcp_flows: Vec<Flow> = Vec::new();
        let mut lossless_flows: Vec<Flow> = Vec::new();
        let mut i: usize = 0;
        proof {
            reveal(Seq::filter);
        }
        assert(flows@.take(0) =~= Seq::<Flow>::empty());
        assert(views(actions@) =~= views(old(actions)@) + stored(state, flows@.take(0)));
        while i < flows.len()
            invariant
                i <= flows.len(),
                self.wf(),
                *self == *old(self),
                state == self@,
                views(actions@) == views(old(actions)@) + stored(state, flows@.take(i as int)),
                tcp_flows@ == flows@.take(i as int).filter(state.started_here()),
                lossless_flows@ == flows@.take(i as int).filter(state.lossless_here()),
            decreases flows.len() - i,
        {
            let ghost prior = actions@;
            let flow = flows[i];
            proof {
                reveal(Seq::filter);
                assert(flows@.take(i + 1).drop_last() =~= flows@.take(i as int));
            }
            match flow.flow_spec.transport {
                FlowTransport::Tcp => {
                    if flow.dst_node_id == self.node_id {
                        emit(actions, Action::StoreFlowSpec { flow });
                    }
                    if flow.src_node_id == self.node_id {
                        tcp_flows.push(flow);
                    }
                },
                FlowTransport::LosslessUnicast => {
                    if flow.src_node_id == self.node_id || flow.dst_node_id == self.node_id {
                        lossless_flows.push(flow);
                    }
                },
            }
            i = i + 1;
            assert(views(actions@) =~= views(old(actions)@) + stored(
                state,
                flows@.take(i as int),
            ));
        }
        assert(flows@.take(i as int) =~= flows@);
        let ghost kept = views(actions@);
        let ghost tcp = state.take_tcp_flows(flows@.filter(state.started_here()));
        if tcp_flows.len() > 0 {
            if self.topology_ready {
                emit(actions, Action::StartTcpFlows { flows: tcp_flows });
            } else {
                self.pending_tcp_flows.append(&mut tcp_flows);
            }
        }
        assert(self@ =~= tcp.state);
        assert(views(actions@) =~= kept + tcp.actions);
        let ghost lossless = tcp.state.take_lossless_flows(flows@.filter(state.lossless_here()));
        if lossless_flows.len() > 0 {
            if self.lossless_topology_ready {
                emit(actions, Action::StartLosslessFlows { flows: lossless_flows });
            } else {
                self.pending_lossless_flows.append(&mut lossless_flows);
            }
        }
        assert(self@ =~= lossless.state);
        assert(views(actions@) =~= kept + tcp.actions + lossless.actions);
        assert(views(actions@) =~= views(old(actions)@) + old(self)@.add_flows(flows@).actions);
    }

    fn install_group_directory(
        &mut self,
        groups: Vec<GroupDirectoryEntry>,
        now: u64,
        actions: &mut Vec<Action>,
    )
        requires
            old(self).wf(),
        ensures
            final(self).wf(),
            final(self)@ == old(self)@.install_directory(groups@, now).state,
            views(final(actions)@) == views(old(actions)@) + old(self)@.install_directory(
                groups@,
                now,
            ).actions,
    {
        let ghost closed = if groups@.len() == 0 {
            Outcome::of(self@)
        } else {
            self@.deactivate()
        };
        if groups.len() > 0 {
            self.deactivate_lossless_topology(actions);
        }
        assert(self@ == closed.state);
        self.group_ip_by_id.clear();
        self.installed_group_route_ids.clear();
        let mut i: usize = 0;
        assert(groups@.take(0) =~= Seq::<GroupDirectoryEntry>::empty());
        while i < groups.len()
            invariant
                i <= groups.len(),
                self.wf(),
                self.group_ip_by_id@ == directory(groups@.take(i as int)),
                self@ =~= (Topology {
                    group_ips: directory(groups@.take(i as int)),
                    installed_group_routes: Set::empty(),
                    ..closed.state
                }),
            decreases groups.len() - i,
        {
            assert(groups@.take(i + 1).drop_last() =~= groups@.take(i as int));
            self.group_ip_by_id.insert(groups[i].group_id, groups[i].group_ip);
            i = i + 1;
        }
        assert(groups@.take(i as int) =~= groups@);
        emit(actions, Action::UpdateGroupDirectory { groups });
        self.group_directory_installed = true;
        let ghost installed = self@;
        let ghost updated = closed.act(ActionView::UpdateGroupDirectory { groups: groups@ });
        assert(views(actions@) =~= views(old(actions)@) + updated.actions);
        self.maybe_activate_lossless_topology(now, actions);
        let ghost activated = installed.activate(now);
        assert(views(actions@) =~= views(old(actions)@) + updated.and(activated).actions);
        self.maybe_send_local_topology_ready(actions);
        assert(views(actions@) =~= views(old(actions)@) + updated.and(activated).and(
            activated.state.notify(),
        ).actions);
    }

    fn install_group_routes(
        &mut self,
        group_id: GroupId,
        src_node_id: usize,
        routes: Vec<GroupRoutingTableEntry>,
        actions: &mut Vec<Action>,
    )
        requires
            old(self).wf(),
        ensures
            final(self).wf(),
            final(self)@ == old(self)@.install_group_routes(group_id, src_node_id, routes@).state,
            views(final(actions)@) == views(old(actions)@) + old(self)@.install_group_routes(
                group_id,
                src_node_id,
                routes@,
            ).actions,
    {
        self.deactivate_lossless_topology(actions);
        self.ensure_tree_scope_connections(&routes, actions);
        emit(actions, Action::SyncWorkers);
        emit(actions, Action::UpdateGroupRoutes { group_id, src_node_id, routes });
        emit(actions, Action::SyncWorkers);
        emit(actions, Action::ConfirmGroupRoutes { group_id });
        assert(views(actions@) =~= views(old(actions)@) + old(self)@.install_group_routes(
            group_id,
            src_node_id,
            routes@,
        ).actions);
    }

    /// Takes a message from the controller at time `now`, in nanoseconds, and returns what to do.
    pub fn process_control_msg(&mut self, msg: ControllerToDataplane, now: u64) -> (actions: Vec<
        Action,
    >)
        requires
            old(self).wf(),
            msg is AddNode ==> old(self)@.expected_neighbors < usize::MAX,
        ensures
            final(self).wf(),
            final(self)@ == old(self)@.after(msg, now).state,
            views(actions@) == old(self)@.after(msg, now).actions,
    {
        let mut actions: Vec<Action> = Vec::new();
        let ghost none = views(actions@);
        assert(none =~= Seq::<ActionView>::empty());
        match msg {
            ControllerToDataplane::AddNode { remote_node_id, remote_addr } => {
                self.add_node(remote_node_id, remote_addr, &mut actions);
            },
            ControllerToDataplane::AddNodeAddress { remote_node_id, remote_max_server_addr } => {
                self.neighbor_addrs.insert(remote_node_id, remote_max_server_addr.clone());
                emit(
                    &mut actions,
                    Action::AddNodeAddress { remote_node_id, remote_addr: remote_max_server_addr },
                );
            },
            ControllerToDataplane::SetLinkRate { node_id, spec } => {
                emit(&mut actions, Action::LimitRate { node_id, spec });
            },
            ControllerToDataplane::InstallRoutes { routes } => {
                emit(&mut actions, Action::UpdateRoutingTable { routes });
                emit(&mut actions, Action::SyncWorkers);
                self.routes_installed = true;
                self.maybe_send_local_topology_ready(&mut actions);
            },
            ControllerToDataplane::AddFlows { flows } => {
                self.add_flows(&flows, &mut actions);
            },
            ControllerToDataplane::TopologyReady => {
                self.topology_ready = true;
                self.flush_pending_tcp_flows(&mut actions);
                self.maybe_activate_lossless_topology(now, &mut actions);
            },
            ControllerToDataplane::GroupCreated { .. } => {},
            ControllerToDataplane::InstallGroupDirectory { groups } => {
                self.install_group_directory(groups, now, &mut actions);
            },
            ControllerToDataplane::InstallGroupRoutes { group_id, src_node_id, routes } => {
                self.install_group_routes(group_id, src_node_id, routes, &mut actions);
            },
            ControllerToDataplane::ProbeLink { remote_node_id, probe_id, probe_bytes } => {
                let payloads = probe_payloads(self.node_id, probe_id, probe_bytes);
                let ends = Ends {
                    src_ip: Ipv4Addr::new(127, 0, 0, 1),
                    src_port: 0,
                    dst_ip: Ipv4Addr::new(127, 0, 0, 2),
                    dst_port: 0,
                };
                emit(&mut actions, Action::SendProbe { remote_node_id, ends, payloads });
            },
            ControllerToDataplane::StartUp(_) => {
                emit(&mut actions, Action::RejectMessage);
            },
        }
        assert(views(actions@) =~= old(self)@.after(msg, now).actions);
        actions
    }

    /// Takes the news that the routes of a group are in place since `updated_at`; `now` is read
    /// after that.
    pub fn confirm_group_routes(&mut self, group_id: GroupId, updated_at: u64, now: u64) -> (actions:
        Vec<Action>)
        requires
            old(self).wf(),
            old(self)@.group_route_nonce < u64::MAX,
        ensures
            final(self).wf(),
            final(self)@ == old(self)@.confirm_group_routes(group_id, updated_at, now).state,
            views(actions@) == old(self)@.confirm_group_routes(group_id, updated_at, now).actions,
    {
        let mut actions: Vec<Action> = Vec::new();
        self.installed_group_route_ids.insert(group_id);
        self.last_group_route_update_at = Some(updated_at);
        self.latest_group_route_nonce = self.latest_group_route_nonce + 1;
        emit(&mut actions, Action::ScheduleActivation { nonce: self.latest_group_route_nonce });
        let ghost confirmed = self@;
        self.maybe_activate_lossless_topology(now, &mut actions);
        self.maybe_send_local_topology_ready(&mut actions);
        assert(views(actions@) =~= old(self)@.confirm_group_routes(
            group_id,
            updated_at,
            now,
        ).actions);
        actions
    }

    /// Takes the event that was scheduled with `nonce`. It is stale where routes changed since.
    pub fn handle_local_event(&mut self, nonce: u64, now: u64) -> (actions: Vec<Action>)
        requires
            old(self).wf(),
        ensures
            final(self).wf(),
            final(self)@ == old(self)@.activation_due(nonce as int, now).state,
            views(actions@) == old(self)@.activation_due(nonce as int, now).actions,
    {
        let mut actions: Vec<Action> = Vec::new();
        if nonce == self.latest_group_route_nonce {
            self.maybe_activate_lossless_topology(now, &mut actions);
        }
        assert(views(actions@) =~= old(self)@.activation_due(nonce as int, now).actions);
        actions
    }
}

/// The actions that store the flows which end at this node.
spec fn stored(state: Topology, flows: Seq<Flow>) -> Seq<ActionView> {
    flows.filter(state.served_here()).map_values(|flow: Flow| ActionView::StoreFlowSpec { flow })
}

proof fn lemma_connect_hops_keeps(
    state: Topology,
    next_hops: Seq<usize>,
    scope: TransportScope,
)
    ensures
        state.connect_hops(next_hops, scope).state == (Topology {
            connected_scopes: state.connect_hops(next_hops, scope).state.connected_scopes,
            ..state
        }),
    decreases next_hops.len(),
{
    if next_hops.len() > 0 {
        lemma_connect_hops_keeps(state, next_hops.drop_last(), scope);
    }
}

/// The payloads of a probe of `probe_bytes` bytes.
fn probe_payloads(node_id: usize, probe_id: u64, probe_bytes: usize) -> (payloads: Vec<Vec<u8>>)
    ensures
        payload_views(payloads@) == probe_train(node_id, probe_id, probe_bytes),
{
    let whole: usize = probe_bytes / PROBE_PAYLOAD_SIZE;
    let num_packets: usize = if whole > 1 {
        whole
    } else {
        1
    };
    let sender_id: u64 = node_id as u64;
    let mut payloads: Vec<Vec<u8>> = Vec::new();
    let mut i: usize = 0;
    while i < num_packets
        invariant
            i <= num_packets,
            num_packets == probe_packets(probe_bytes),
            sender_id == node_id as u64,
            payloads.len() == i,
            forall|j: int|
                0 <= j < i ==> (#[trigger] payloads@[j])@ == probe_payload(
                    j == num_packets - 1,
                    probe_id,
                    sender_id,
                ),
        decreases num_packets - i,
    {
        let payload = build_probe_payload(i == num_packets - 1, probe_id, sender_id);
        payloads.push(payload);
        i = i + 1;
    }
    assert(payload_views(payloads@) =~= probe_train(node_id, probe_id, probe_bytes));
    payloads
}

fn build_probe_payload(is_last: bool, probe_id: u64, sender_id: u64) -> (payload: Vec<u8>)
    ensures
        payload@ == probe_payload(is_last, probe_id, sender_id),
{
    let mut payload: Vec<u8> = Vec::new();
    payload.push(if is_last {
        1
    } else {
        0
    });
    crate::net::push_be64(&mut payload, probe_id);
    crate::net::push_be64(&mut payload, sender_id);
    let ghost header = payload@;
    assert(header =~= seq![if is_last { 1u8 } else { 0u8 }] + crate::net::be64_bytes(probe_id)
        + crate::net::be64_bytes(sender_id));
    let mut i: usize = 17;
    while i < PROBE_PAYLOAD_SIZE
        invariant
            17 <= i <= PROBE_PAYLOAD_SIZE,
            payload@ == header + Seq::new((i - 17) as nat, |j: int| 0u8),
        decreases PROBE_PAYLOAD_SIZE - i,
    {
        payload.push(0);
        i = i + 1;
        assert(payload@ =~= header + Seq::new((i - 17) as nat, |j: int| 0u8));
    }
    payload
}

} // verus!
