//! What each message of the controller leads to, in terms of what the message holds.

use vstd::prelude::*;

use crate::messages::{
    ControllerToDataplane, Flow, FlowTransport, GroupDirectoryEntry, GroupId,
    GroupRoutingTableEntry, RoutingTableEntry, TokenBucketSpec,
};
use crate::net::Ipv4Addr;
use crate::node::controller::interface::{
    self, Action, ActionView, Outcome, Topology, TransportScope,
};
use crate::node::controller::topology_laws;

verus! {

proof fn lemma_filter_contains(flows: Seq<Flow>, keep: spec_fn(Flow) -> bool, flow: Flow)
    ensures
        flows.filter(keep).contains(flow) <==> flows.contains(flow) && keep(flow),
    decreases flows.len(),
{
    reveal(Seq::filter);
    if flows.len() > 0 {
        let earlier = flows.drop_last();
        let last = flows.last();
        lemma_filter_contains(earlier, keep, flow);
        assert(flows =~= earlier.push(last));
        lemma_push_contains(earlier, last, flow);
        lemma_push_contains(earlier.filter(keep), last, flow);
    }
}

proof fn lemma_push_contains(flows: Seq<Flow>, last: Flow, flow: Flow)
    ensures
        flows.push(last).contains(flow) <==> flows.contains(flow) || flow == last,
{
    let all = flows.push(last);
    if flows.contains(flow) {
        let i = choose|i: int| 0 <= i < flows.len() && flows[i] == flow;
        assert(all[i] == flow);
    }
    if flow == last {
        assert(all[flows.len() as int] == flow);
    }
    if all.contains(flow) {
        let i = choose|i: int| 0 <= i < all.len() && all[i] == flow;
        if i < flows.len() {
            assert(flows[i] == flow);
        }
    }
}

/// Whether a node has a part in a lossless flow: it sends it or receives it.
pub open spec fn has_part_in(node_id: usize, flow: Flow) -> bool {
    flow.flow_spec.transport == FlowTransport::LosslessUnicast && (flow.src_node_id == node_id
        || flow.dst_node_id == node_id)
}

/// Of the lossless flows in a message, a node starts those that it sends or receives and no others,
/// in the order of the message. Where the lossless runtime is closed they wait instead, behind those
/// that wait already.
pub proof fn law_lossless_flows_concern_both_ends(
    state: Topology,
    flows: Vec<Flow>,
    now: u64,
    flow: Flow,
)
    ensures
        ({
            let outcome = state.after(ControllerToDataplane::AddFlows { flows }, now);
            let started = topology_laws::lossless_started(outcome.actions);
            let waiting = outcome.state.pending_lossless_flows;
            let wanted = flows@.contains(flow) && flow.flow_spec.transport
                == FlowTransport::LosslessUnicast && (flow.src_node_id == state.node_id
                || flow.dst_node_id == state.node_id);
            &&& state.lossless_topology_ready ==> {
                &&& started.contains(flow) <==> wanted
                &&& started == flows@.filter(|f: Flow| has_part_in(state.node_id, f))
                &&& waiting == state.pending_lossless_flows
            }
            &&& !state.lossless_topology_ready ==> {
                &&& started.len() == 0
                &&& waiting.contains(flow) <==> wanted || state.pending_lossless_flows.contains(flow)
                &&& waiting == state.pending_lossless_flows + flows@.filter(
                    |f: Flow| has_part_in(state.node_id, f),
                )
            }
        }),
{
    lemma_added_flows(state, flows@);
    let asked = flows@.filter(state.lossless_here());
    lemma_filter_contains(flows@, state.lossless_here(), flow);
    assert(state.lossless_here() =~= (|f: Flow| has_part_in(state.node_id, f)));
    lemma_sum_contains(state.pending_lossless_flows, asked, flow);
    assert(Seq::<Flow>::empty() + asked =~= asked);
    assert(state.pending_lossless_flows + Seq::<Flow>::empty() =~= state.pending_lossless_flows);
}

proof fn lemma_sum_contains(a: Seq<Flow>, b: Seq<Flow>, flow: Flow)
    ensures
        (a + b).contains(flow) <==> a.contains(flow) || b.contains(flow),
{
    if a.contains(flow) {
        let i = choose|i: int| 0 <= i < a.len() && a[i] == flow;
        assert((a + b)[i] == flow);
    }
    if b.contains(flow) {
        let i = choose|i: int| 0 <= i < b.len() && b[i] == flow;
        assert((a + b)[a.len() + i] == flow);
    }
    if (a + b).contains(flow) {
        let i = choose|i: int| 0 <= i < (a + b).len() && (a + b)[i] == flow;
        if i < a.len() {
            assert(a[i] == flow);
        } else {
            assert(b[i - a.len()] == flow);
        }
    }
}

/// What added flows lead to.
proof fn lemma_added_flows(state: Topology, flows: Seq<Flow>)
    ensures
        ({
            let outcome = state.add_flows(flows);
            let stored = flows.filter(state.served_here()).map_values(
                |flow: Flow| ActionView::StoreFlowSpec { flow },
            );
            let tcp = flows.filter(state.started_here());
            let lossless = flows.filter(state.lossless_here());
            &&& topology_laws::tcp_started(outcome.actions) == if state.topology_ready {
                tcp
            } else {
                Seq::empty()
            }
            &&& topology_laws::lossless_started(outcome.actions) == if state.lossless_topology_ready {
                lossless
            } else {
                Seq::empty()
            }
            &&& topology_laws::announcements(outcome.actions) == 0
            &&& stored.len() <= outcome.actions.len()
            &&& outcome.actions.take(stored.len() as int) == stored
            &&& forall|i: int|
                stored.len() <= i < outcome.actions.len() ==> !((
                #[trigger] outcome.actions[i]) is StoreFlowSpec)
            &&& outcome.state == (Topology {
                pending_tcp_flows: if state.topology_ready {
                    state.pending_tcp_flows
                } else {
                    state.pending_tcp_flows + tcp
                },
                pending_lossless_flows: if state.lossless_topology_ready {
                    state.pending_lossless_flows
                } else {
                    state.pending_lossless_flows + lossless
                },
                ..state
            })
        }),
{
    let here = flows.filter(state.served_here());
    let stored = here.map_values(|flow: Flow| ActionView::StoreFlowSpec { flow });
    topology_laws::lemma_stored_is_plain(here);
    let tcp = state.take_tcp_flows(flows.filter(state.started_here()));
    let lossless = tcp.state.take_lossless_flows(flows.filter(state.lossless_here()));
    if tcp.actions.len() > 0 {
        topology_laws::lemma_counts_push(Seq::empty(), tcp.actions.last());
    }
    if lossless.actions.len() > 0 {
        topology_laws::lemma_counts_push(Seq::empty(), lossless.actions.last());
    }
    topology_laws::lemma_counts_add(stored, tcp.actions);
    topology_laws::lemma_counts_add(stored + tcp.actions, lossless.actions);
    let outcome = state.add_flows(flows);
    assert(outcome.actions == stored + tcp.actions + lossless.actions);
    assert(outcome.actions.take(stored.len() as int) =~= stored);
    assert(topology_laws::tcp_started(outcome.actions) =~= if state.topology_ready {
        flows.filter(state.started_here())
    } else {
        Seq::empty()
    });
    assert(topology_laws::lossless_started(outcome.actions) =~= if state.lossless_topology_ready {
        flows.filter(state.lossless_here())
    } else {
        Seq::empty()
    });
    assert(state.pending_tcp_flows + Seq::<Flow>::empty() =~= state.pending_tcp_flows);
    assert(state.pending_lossless_flows + Seq::<Flow>::empty() =~= state.pending_lossless_flows);
    assert(outcome.state =~= (Topology {
        pending_tcp_flows: if state.topology_ready {
            state.pending_tcp_flows
        } else {
            state.pending_tcp_flows + flows.filter(state.started_here())
        },
        pending_lossless_flows: if state.lossless_topology_ready {
            state.pending_lossless_flows
        } else {
            state.pending_lossless_flows + flows.filter(state.lossless_here())
        },
        ..state
    }));
}

/// Of the TCP flows in a message, a node starts those whose source it is and no others, in the order
/// of the message, and lets its server expect those whose destination it is. Before the network is
/// up, the flows that it is to start wait instead.
pub proof fn law_tcp_flows_start_at_their_source(
    state: Topology,
    flows: Vec<Flow>,
    now: u64,
    flow: Flow,
)
    ensures
        ({
            let outcome = state.after(ControllerToDataplane::AddFlows { flows }, now);
            let started = topology_laws::tcp_started(outcome.actions);
            let waiting = outcome.state.pending_tcp_flows;
            let sent_here = flows@.contains(flow) && flow.flow_spec.transport == FlowTransport::Tcp
                && flow.src_node_id == state.node_id;
            let starts = |f: Flow|
                f.flow_spec.transport == FlowTransport::Tcp && f.src_node_id == state.node_id;
            &&& state.topology_ready ==> {
                &&& started.contains(flow) <==> sent_here
                &&& started == flows@.filter(starts)
                &&& waiting == state.pending_tcp_flows
            }
            &&& !state.topology_ready ==> {
                &&& started.len() == 0
                &&& waiting.contains(flow) <==> sent_here || state.pending_tcp_flows.contains(flow)
                &&& waiting == state.pending_tcp_flows + flows@.filter(starts)
            }
            &&& outcome.actions.contains(ActionView::StoreFlowSpec { flow }) <==> flows@.contains(
                flow,
            ) && flow.flow_spec.transport == FlowTransport::Tcp && flow.dst_node_id
                == state.node_id
            &&& topology_laws::announcements(outcome.actions) == 0
        }),
{
    lemma_added_flows(state, flows@);
    let starts = |f: Flow|
        f.flow_spec.transport == FlowTransport::Tcp && f.src_node_id == state.node_id;
    assert(state.started_here() =~= starts);
    lemma_filter_contains(flows@, starts, flow);
    lemma_sum_contains(state.pending_tcp_flows, flows@.filter(starts), flow);
    let outcome = state.after(ControllerToDataplane::AddFlows { flows }, now);
    let here = flows@.filter(state.served_here());
    lemma_filter_contains(flows@, state.served_here(), flow);
    let store = ActionView::StoreFlowSpec { flow };
    let stored = here.map_values(|flow: Flow| ActionView::StoreFlowSpec { flow });
    if here.contains(flow) {
        let i = choose|i: int| 0 <= i < here.len() && here[i] == flow;
        assert(stored[i] == store);
        assert(outcome.actions.take(stored.len() as int)[i] == outcome.actions[i]);
        assert(outcome.actions[i] == store);
    }
    if outcome.actions.contains(store) {
        let i = choose|i: int| 0 <= i < outcome.actions.len() && outcome.actions[i] == store;
        assert(i < stored.len());
        assert(outcome.actions.take(stored.len() as int)[i] == stored[i]);
        assert(here[i] == flow);
    }
}

/// Flows that waited start when what they waited for is there, in the order in which they came: TCP
/// flows when the network is up, lossless flows when the lossless runtime opens.
pub proof fn law_waiting_flows_start(state: Topology, now: u64)
    requires
        topology_laws::reachable_inv(state),
    ensures
        ({
            let outcome = state.after(ControllerToDataplane::TopologyReady, now);
            &&& outcome.state.topology_ready
            &&& topology_laws::tcp_started(outcome.actions) == state.pending_tcp_flows
            &&& outcome.state.pending_tcp_flows.len() == 0
            &&& outcome.state.lossless_topology_ready && !state.lossless_topology_ready ==> {
                &&& topology_laws::lossless_started(outcome.actions) == state.pending_lossless_flows
                &&& outcome.state.pending_lossless_flows.len() == 0
            }
        }),
{
    topology_laws::lemma_sound_step(
        state,
        topology_laws::Event::Message { msg: ControllerToDataplane::TopologyReady, now },
    );
    let outcome = state.after(ControllerToDataplane::TopologyReady, now);
    assert(topology_laws::tcp_asked(
        state,
        topology_laws::Event::Message { msg: ControllerToDataplane::TopologyReady, now },
    ) =~= Seq::empty());
    assert(topology_laws::tcp_started(outcome.actions) + Seq::<Flow>::empty()
        =~= topology_laws::tcp_started(outcome.actions));
    assert(topology_laws::tcp_started(outcome.actions) =~= state.pending_tcp_flows);
    if outcome.state.lossless_topology_ready {
        assert(topology_laws::lossless_started(outcome.actions) =~= state.pending_lossless_flows);
    }
}

/// The lossless runtime opens when the network comes up exactly if a group directory is installed,
/// every group in it has routes, and the last change of such routes is at least half a second ago.
pub proof fn law_lossless_runtime_opens_when_all_is_settled(state: Topology, now: u64)
    requires
        !state.lossless_topology_ready,
    ensures
        ({
            let settled = state.group_directory_installed && state.installed_group_routes.len()
                >= state.group_ips.dom().len() && match state.last_group_route_update_at {
                Some(at) => now >= at + 500_000_000,
                None => true,
            };
            let outcome = state.after(ControllerToDataplane::TopologyReady, now);
            let due = state.activation_due(state.group_route_nonce, now);
            &&& outcome.state.lossless_topology_ready == settled
            &&& outcome.actions.contains(ActionView::SetLosslessTopologyReady { ready: true })
                == settled
            &&& due.state.lossless_topology_ready == (settled && state.topology_ready)
        }),
{
    let open = ActionView::SetLosslessTopologyReady { ready: true };
    let outcome = state.after(ControllerToDataplane::TopologyReady, now);
    let ready = Topology { topology_ready: true, pending_tcp_flows: Seq::empty(), ..state };
    let first = if state.pending_tcp_flows.len() == 0 {
        Seq::empty()
    } else {
        seq![ActionView::StartTcpFlows { flows: state.pending_tcp_flows }]
    };
    assert(outcome.actions =~= first + ready.activate(now).actions);
    if ready.may_activate(now) {
        assert(ready.activate(now).actions[0] == open);
        assert(outcome.actions[first.len() as int] == open);
    }
}

/// A neighbor is expected and its address is kept. It is connected to at that address, unless it is
/// connected already.
pub proof fn law_neighbors_are_connected(
    state: Topology,
    remote_node_id: usize,
    remote_addr: String,
    now: u64,
)
    ensures
        ({
            let outcome = state.after(
                ControllerToDataplane::AddNode { remote_node_id, remote_addr },
                now,
            );
            let link = (remote_node_id, TransportScope::Default);
            let known = state.connected_scopes.contains(link);
            &&& outcome.state.expected_neighbors == state.expected_neighbors + 1
            &&& outcome.state.neighbor_addrs == state.neighbor_addrs.insert(
                remote_node_id,
                remote_addr,
            )
            &&& outcome.state.connected_scopes == state.connected_scopes.insert(link)
            &&& outcome.state.connected_neighbors == state.connected_neighbors + if known {
                0int
            } else {
                1int
            }
            &&& known ==> outcome.actions.len() == 0
            &&& !known ==> outcome.actions[0] == (ActionView::Connect {
                remote_node_id,
                remote_addr: remote_addr@,
                scope: TransportScope::Default,
            })
            &&& forall|i: int|
                0 < i < outcome.actions.len() ==> #[trigger] outcome.actions[i]
                    == (ActionView::NotifyTopologyReady { node_id: state.node_id })
            &&& outcome.state == (Topology {
                expected_neighbors: outcome.state.expected_neighbors,
                connected_neighbors: outcome.state.connected_neighbors,
                neighbor_addrs: outcome.state.neighbor_addrs,
                connected_scopes: outcome.state.connected_scopes,
                local_topology_ready_sent: outcome.state.local_topology_ready_sent,
                ..state
            })
        }),
{
    let link = (remote_node_id, TransportScope::Default);
    if state.connected_scopes.contains(link) {
        assert(state.connected_scopes.insert(link) =~= state.connected_scopes);
    }
}

/// Messages that carry one order are carried out as they say, and change nothing else.
pub proof fn law_single_orders(
    state: Topology,
    node_id: usize,
    spec: TokenBucketSpec,
    address: String,
    group_id: GroupId,
    group_ip: Ipv4Addr,
    settings: crate::messages::StartUp,
    now: u64,
)
    ensures
        state.after(ControllerToDataplane::SetLinkRate { node_id, spec }, now).actions == seq![
            ActionView::LimitRate { node_id, spec },
        ],
        state.after(ControllerToDataplane::SetLinkRate { node_id, spec }, now).state == state,
        ({
            let outcome = state.after(
                ControllerToDataplane::AddNodeAddress {
                    remote_node_id: node_id,
                    remote_max_server_addr: address,
                },
                now,
            );
            &&& outcome.actions == seq![
                ActionView::AddNodeAddress { remote_node_id: node_id, remote_addr: address@ },
            ]
            &&& outcome.state.neighbor_addrs.contains_key(node_id)
            &&& outcome.state.neighbor_addrs[node_id] == address
            &&& forall|other: usize|
                other != node_id ==> (#[trigger] outcome.state.neighbor_addrs.contains_key(other)
                    == state.neighbor_addrs.contains_key(other))
                    && outcome.state.neighbor_addrs[other] == state.neighbor_addrs[other]
            &&& outcome.state == (Topology {
                neighbor_addrs: outcome.state.neighbor_addrs,
                ..state
            })
        }),
        state.after(
            ControllerToDataplane::GroupCreated { group_id, group_ip, src_node_id: node_id },
            now,
        ) == Outcome::of(state),
        Outcome::of(state).state == state,
        Outcome::of(state).actions.len() == 0,
        state.after(ControllerToDataplane::StartUp(settings), now).actions == seq![
            ActionView::RejectMessage,
        ],
        state.after(ControllerToDataplane::StartUp(settings), now).state == state,
{
    assert(state.after(ControllerToDataplane::SetLinkRate { node_id, spec }, now).actions =~= seq![
        ActionView::LimitRate { node_id, spec },
    ]);
    assert(state.after(ControllerToDataplane::StartUp(settings), now).actions =~= seq![
        ActionView::RejectMessage,
    ]);
    assert(state.after(
        ControllerToDataplane::AddNodeAddress {
            remote_node_id: node_id,
            remote_max_server_addr: address,
        },
        now,
    ).actions =~= seq![
        ActionView::AddNodeAddress { remote_node_id: node_id, remote_addr: address@ },
    ]);
}

/// Unicast routes are handed to the packet processors as they came, before anything else, and the
/// node waits until they are taken up. If that was all that it lacked, it calls itself ready.
pub proof fn law_routes_are_handed_out(
    state: Topology,
    routes: Vec<RoutingTableEntry>,
    now: u64,
)
    ensures
        ({
            let outcome = state.after(ControllerToDataplane::InstallRoutes { routes }, now);
            let announces = !state.local_topology_ready_sent && state.connected_neighbors
                >= state.expected_neighbors && state.group_directory_installed;
            &&& outcome.actions.take(2) == seq![
                ActionView::UpdateRoutingTable { routes: routes@ },
                ActionView::SyncWorkers,
            ]
            &&& outcome.actions.skip(2) == if announces {
                seq![ActionView::NotifyTopologyReady { node_id: state.node_id }]
            } else {
                Seq::empty()
            }
            &&& outcome.state.routes_installed
            &&& outcome.state == (Topology {
                routes_installed: true,
                local_topology_ready_sent: state.local_topology_ready_sent || announces,
                ..state
            })
        }),
{
    let outcome = state.after(ControllerToDataplane::InstallRoutes { routes }, now);
    assert(outcome.actions.take(2) =~= seq![
        ActionView::UpdateRoutingTable { routes: routes@ },
        ActionView::SyncWorkers,
    ]);
    let installed = Topology { routes_installed: true, ..state };
    assert(outcome.actions.skip(2) =~= installed.notify().actions);
    assert(installed.notify().actions =~= if installed.may_notify() {
        seq![ActionView::NotifyTopologyReady { node_id: state.node_id }]
    } else {
        Seq::empty()
    });
}

/// A group has the address of its last entry in the directory, and a group without an entry has
/// none.
pub proof fn law_directory_holds_the_last_entries(groups: Seq<GroupDirectoryEntry>, i: int)
    requires
        0 <= i < groups.len(),
    ensures
        interface::directory(groups).contains_key(groups[i].group_id),
        (forall|j: int| i < j < groups.len() ==> (#[trigger] groups[j]).group_id
            != groups[i].group_id) ==> interface::directory(groups)[groups[i].group_id]
            == groups[i].group_ip,
        forall|group_id: GroupId| #[trigger]
            interface::directory(groups).contains_key(group_id) ==> exists|k: int|
                0 <= k < groups.len() && (#[trigger] groups[k]).group_id == group_id,
    decreases groups.len(),
{
    let earlier = groups.drop_last();
    let last = groups.len() - 1;
    lemma_directory_keys(groups);
    if i < last {
        law_directory_holds_the_last_entries(earlier, i);
        assert(earlier[i] == groups[i]);
        if forall|j: int| i < j < groups.len() ==> (#[trigger] groups[j]).group_id
            != groups[i].group_id {
            assert(groups[last].group_id != groups[i].group_id);
            assert forall|j: int| i < j < earlier.len() implies (#[trigger] earlier[j]).group_id
                != earlier[i].group_id by {
                assert(earlier[j] == groups[j]);
            }
        }
    }
}

proof fn lemma_directory_keys(groups: Seq<GroupDirectoryEntry>)
    ensures
        forall|group_id: GroupId| #[trigger]
            interface::directory(groups).contains_key(group_id) ==> exists|k: int|
                0 <= k < groups.len() && (#[trigger] groups[k]).group_id == group_id,
    decreases groups.len(),
{
    if groups.len() > 0 {
        let earlier = groups.drop_last();
        lemma_directory_keys(earlier);
        assert forall|group_id: GroupId| #[trigger]
            interface::directory(groups).contains_key(group_id) implies exists|k: int|
            0 <= k < groups.len() && (#[trigger] groups[k]).group_id == group_id by {
            if group_id == groups.last().group_id {
                assert(groups[groups.len() - 1].group_id == group_id);
            } else {
                assert(interface::directory(earlier).contains_key(group_id));
                let k = choose|k: int|
                    0 <= k < earlier.len() && (#[trigger] earlier[k]).group_id == group_id;
                assert(groups[k].group_id == group_id);
            }
        }
    }
}

/// A group directory replaces the one before, and the routes of all groups are awaited anew. A
/// directory that lists groups closes an open lossless runtime before it is handed out.
pub proof fn law_directory_is_replaced(
    state: Topology,
    groups: Vec<GroupDirectoryEntry>,
    now: u64,
)
    requires
        topology_laws::reachable_inv(state),
    ensures
        ({
            let outcome = state.after(
                ControllerToDataplane::InstallGroupDirectory { groups },
                now,
            );
            let closes = groups@.len() > 0 && state.lossless_topology_ready;
            let at = if closes {
                1int
            } else {
                0int
            };
            &&& outcome.state.group_directory_installed
            &&& outcome.state.group_ips == interface::directory(groups@)
            &&& outcome.state.installed_group_routes == Set::<GroupId>::empty()
            &&& closes ==> outcome.actions[0] == (ActionView::SetLosslessTopologyReady {
                ready: false,
            })
            &&& outcome.actions.len() > at
            &&& outcome.actions[at] == (ActionView::UpdateGroupDirectory { groups: groups@ })
            &&& groups@.len() > 0 ==> !outcome.state.lossless_topology_ready
            &&& groups@.len() == 0 && state.lossless_topology_ready
                ==> outcome.state.lossless_topology_ready
            &&& outcome.state == (Topology {
                group_directory_installed: true,
                group_ips: outcome.state.group_ips,
                installed_group_routes: Set::empty(),
                lossless_topology_ready: outcome.state.lossless_topology_ready,
                pending_lossless_flows: outcome.state.pending_lossless_flows,
                local_topology_ready_sent: outcome.state.local_topology_ready_sent,
                ..state
            })
        }),
{
    if groups@.len() > 0 {
        law_directory_holds_the_last_entries(groups@, 0);
        let ids = interface::directory(groups@).dom();
        lemma_directory_finite(groups@);
        assert(ids.contains(groups@[0].group_id));
        vstd::set_lib::lemma_set_empty_equivalency_len(ids);
        assert(ids.len() > 0);
    }
}

proof fn lemma_directory_finite(groups: Seq<GroupDirectoryEntry>)
    ensures
        interface::directory(groups).dom().finite(),
    decreases groups.len(),
{
    if groups.len() > 0 {
        lemma_directory_finite(groups.drop_last());
    }
}

/// Whether an action connects to a next hop of one of the routes, at its known address and over the
/// connection of the tree of the route.
pub open spec fn connects_a_next_hop(
    state: Topology,
    routes: Seq<GroupRoutingTableEntry>,
    action: ActionView,
) -> bool {
    exists|i: int, hop: usize|
        {
            &&& 0 <= i < routes.len()
            &&& (#[trigger] routes[i]).next_hops@.contains(hop)
            &&& hop != state.node_id
            &&& #[trigger] state.neighbor_addrs.contains_key(hop)
            &&& action == (ActionView::Connect {
                remote_node_id: hop,
                remote_addr: state.neighbor_addrs[hop]@,
                scope: TransportScope::Tree((routes[i].route_id % state.multitree_stride) as u16),
            })
        }
}

proof fn lemma_hops_are_connected(
    start: Topology,
    state: Topology,
    routes: Seq<GroupRoutingTableEntry>,
    at: int,
    hops: Seq<usize>,
)
    requires
        0 <= at < routes.len(),
        forall|hop: usize| #[trigger] hops.contains(hop) ==> routes[at].next_hops@.contains(hop),
        state.node_id == start.node_id,
        state.neighbor_addrs == start.neighbor_addrs,
        state.multitree_stride == start.multitree_stride,
    ensures
        ({
            let scope = TransportScope::Tree((routes[at].route_id % start.multitree_stride) as u16);
            let outcome = state.connect_hops(hops, scope);
            &&& outcome.state.node_id == start.node_id
            &&& outcome.state.neighbor_addrs == start.neighbor_addrs
            &&& outcome.state.multitree_stride == start.multitree_stride
            &&& forall|k: int|
                0 <= k < outcome.actions.len() ==> connects_a_next_hop(
                    start,
                    routes,
                    #[trigger] outcome.actions[k],
                )
        }),
    decreases hops.len(),
{
    let scope = TransportScope::Tree((routes[at].route_id % start.multitree_stride) as u16);
    if hops.len() > 0 {
        let earlier = hops.drop_last();
        assert forall|hop: usize| #[trigger] earlier.contains(hop) implies
            routes[at].next_hops@.contains(hop) by {
            let k = choose|k: int| 0 <= k < earlier.len() && earlier[k] == hop;
            assert(hops[k] == hop);
            assert(hops.contains(hop));
        }
        lemma_hops_are_connected(start, state, routes, at, earlier);
        let before = state.connect_hops(earlier, scope);
        let hop = hops.last();
        assert(hops[hops.len() - 1] == hop);
        assert(hops.contains(hop));
        let last = before.state.connect_hop(hop, scope);
        let outcome = state.connect_hops(hops, scope);
        assert(outcome.actions == before.actions + last.actions);
        assert forall|k: int| 0 <= k < outcome.actions.len() implies connects_a_next_hop(
            start,
            routes,
            #[trigger] outcome.actions[k],
        ) by {
            if k < before.actions.len() {
                assert(outcome.actions[k] == before.actions[k]);
            } else {
                assert(outcome.actions[k] == last.actions[k - before.actions.len()]);
                assert(routes[at].next_hops@.contains(hop));
                assert(start.neighbor_addrs.contains_key(hop));
            }
        }
    }
}

proof fn lemma_routes_are_connected(
    start: Topology,
    routes: Seq<GroupRoutingTableEntry>,
    n: int,
)
    requires
        0 <= n <= routes.len(),
    ensures
        ({
            let outcome = start.connect_routes(routes.take(n));
            &&& outcome.state.node_id == start.node_id
            &&& outcome.state.neighbor_addrs == start.neighbor_addrs
            &&& outcome.state.multitree_stride == start.multitree_stride
            &&& forall|k: int|
                0 <= k < outcome.actions.len() ==> connects_a_next_hop(
                    start,
                    routes,
                    #[trigger] outcome.actions[k],
                )
        }),
    decreases n,
{
    if n > 0 {
        lemma_routes_are_connected(start, routes, n - 1);
        assert(routes.take(n).drop_last() =~= routes.take(n - 1));
        assert(routes.take(n).last() == routes[n - 1]);
        let before = start.connect_routes(routes.take(n - 1));
        let hops = routes[n - 1].next_hops@;
        lemma_hops_are_connected(start, before.state, routes, n - 1, hops);
        let scope = TransportScope::Tree(
            (routes[n - 1].route_id % start.multitree_stride) as u16,
        );
        let last = before.state.connect_hops(hops, scope);
        let outcome = start.connect_routes(routes.take(n));
        assert(outcome.actions == before.actions + last.actions);
        assert forall|k: int| 0 <= k < outcome.actions.len() implies connects_a_next_hop(
            start,
            routes,
            #[trigger] outcome.actions[k],
        ) by {
            if k < before.actions.len() {
                assert(outcome.actions[k] == before.actions[k]);
            } else {
                assert(outcome.actions[k] == last.actions[k - before.actions.len()]);
            }
        }
    }
}

/// Multicast routes are handed out as they came, between two waits for the packet processors, and
/// then confirmed. Before that, an open lossless runtime is closed, and next hops are connected:
/// each at its known address and over the connection of the tree of its route.
pub proof fn law_group_routes_are_handed_out(
    state: Topology,
    group_id: GroupId,
    src_node_id: usize,
    routes: Vec<GroupRoutingTableEntry>,
    now: u64,
)
    ensures
        ({
            let outcome = state.after(
                ControllerToDataplane::InstallGroupRoutes { group_id, src_node_id, routes },
                now,
            );
            let n = outcome.actions.len();
            let first = if state.lossless_topology_ready {
                1int
            } else {
                0int
            };
            &&& n >= first + 4
            &&& outcome.actions.skip(n - 4) == seq![
                ActionView::SyncWorkers,
                ActionView::UpdateGroupRoutes { group_id, src_node_id, routes: routes@ },
                ActionView::SyncWorkers,
                ActionView::ConfirmGroupRoutes { group_id },
            ]
            &&& state.lossless_topology_ready ==> outcome.actions[0]
                == (ActionView::SetLosslessTopologyReady { ready: false })
            &&& !outcome.state.lossless_topology_ready
            &&& forall|k: int|
                first <= k < n - 4 ==> connects_a_next_hop(
                    state,
                    routes@,
                    #[trigger] outcome.actions[k],
                )
        }),
{
    let closed = state.deactivate();
    let connected = closed.state.connect_routes(routes@);
    lemma_routes_are_connected(closed.state, routes@, routes@.len() as int);
    assert(routes@.take(routes@.len() as int) =~= routes@);
    lemma_routes_keep_the_runtime_closed(closed.state, routes@);
    let outcome = state.install_group_routes(group_id, src_node_id, routes@);
    let n = outcome.actions.len();
    let both = closed.actions + connected.actions;
    assert(outcome.actions =~= both + seq![
        ActionView::SyncWorkers,
        ActionView::UpdateGroupRoutes { group_id, src_node_id, routes: routes@ },
        ActionView::SyncWorkers,
        ActionView::ConfirmGroupRoutes { group_id },
    ]);
    assert(outcome.actions.skip(n - 4) =~= seq![
        ActionView::SyncWorkers,
        ActionView::UpdateGroupRoutes { group_id, src_node_id, routes: routes@ },
        ActionView::SyncWorkers,
        ActionView::ConfirmGroupRoutes { group_id },
    ]);
    let first = closed.actions.len() as int;
    assert forall|k: int| first <= k < n - 4 implies connects_a_next_hop(
        state,
        routes@,
        #[trigger] outcome.actions[k],
    ) by {
        assert(outcome.actions[k] == connected.actions[k - first]);
        assert(connects_a_next_hop(closed.state, routes@, connected.actions[k - first]));
        let (i, hop) = choose|i: int, hop: usize|
            {
                &&& 0 <= i < routes@.len()
                &&& (#[trigger] routes@[i]).next_hops@.contains(hop)
                &&& hop != closed.state.node_id
                &&& #[trigger] closed.state.neighbor_addrs.contains_key(hop)
                &&& connected.actions[k - first] == (ActionView::Connect {
                    remote_node_id: hop,
                    remote_addr: closed.state.neighbor_addrs[hop]@,
                    scope: TransportScope::Tree(
                        (routes@[i].route_id % closed.state.multitree_stride) as u16,
                    ),
                })
            };
        assert(routes@[i].next_hops@.contains(hop) && state.neighbor_addrs.contains_key(hop));
    }
}

proof fn lemma_routes_keep_the_runtime_closed(
    state: Topology,
    routes: Seq<GroupRoutingTableEntry>,
)
    ensures
        state.connect_routes(routes).state.lossless_topology_ready == state.lossless_topology_ready,
    decreases routes.len(),
{
    if routes.len() > 0 {
        lemma_routes_keep_the_runtime_closed(state, routes.drop_last());
        let before = state.connect_routes(routes.drop_last());
        lemma_hops_keep_the_runtime_closed(
            before.state,
            routes.last().next_hops@,
            state.tree_scope(routes.last().route_id),
        );
    }
}

proof fn lemma_hops_keep_the_runtime_closed(
    state: Topology,
    hops: Seq<usize>,
    scope: TransportScope,
)
    ensures
        state.connect_hops(hops, scope).state.lossless_topology_ready
            == state.lossless_topology_ready,
    decreases hops.len(),
{
    if hops.len() > 0 {
        lemma_hops_keep_the_runtime_closed(state, hops.drop_last(), scope);
    }
}

/// Confirmed routes of a group count from the time of the update. The activation that is scheduled
/// for them has a nonce of its own, so that it is told from those that were scheduled before.
pub proof fn law_confirmed_routes_are_remembered(
    state: Topology,
    group_id: GroupId,
    updated_at: u64,
    now: u64,
)
    ensures
        ({
            let outcome = state.confirm_group_routes(group_id, updated_at, now);
            &&& outcome.state.installed_group_routes == state.installed_group_routes.insert(group_id)
            &&& outcome.state.last_group_route_update_at == Some(updated_at)
            &&& outcome.state.group_route_nonce == state.group_route_nonce + 1
            &&& outcome.actions[0] == (ActionView::ScheduleActivation {
                nonce: state.group_route_nonce + 1,
            })
            &&& outcome.state.group_ips == state.group_ips
            &&& outcome.state.connected_scopes == state.connected_scopes
            &&& outcome.state.neighbor_addrs == state.neighbor_addrs
            &&& outcome.state.pending_tcp_flows == state.pending_tcp_flows
            &&& outcome.state.topology_ready == state.topology_ready
            &&& outcome.state.routes_installed == state.routes_installed
        }),
{
}

/// A probe goes to the node that the message names, from 127.0.0.1 to 127.0.0.2 without ports. It
/// takes as many packets as the bytes asked for fill, and one at least. Each has a payload of 1360
/// bytes: a byte that is 1 in the last packet only, the probe ID, the ID of this node, and zeros.
pub proof fn law_probe_has_the_size_asked_for(
    state: Topology,
    remote_node_id: usize,
    probe_id: u64,
    probe_bytes: usize,
    now: u64,
    i: int,
)
    ensures
        ({
            let outcome = state.after(
                ControllerToDataplane::ProbeLink { remote_node_id, probe_id, probe_bytes },
                now,
            );
            &&& outcome.state == state
            &&& outcome.actions.len() == 1
            &&& outcome.actions[0] matches ActionView::SendProbe { remote_node_id: to, ends, payloads }
            &&& to == remote_node_id
            &&& ends.src_ip.bits == 0x7F00_0001 && ends.dst_ip.bits == 0x7F00_0002
            &&& ends.src_port == 0 && ends.dst_port == 0
            &&& payloads.len() >= 1
            &&& payloads.len() > 1 ==> payloads.len() * 1360 <= probe_bytes
            &&& probe_bytes < (payloads.len() + 1) * 1360
            &&& 0 <= i < payloads.len() ==> {
                &&& payloads[i].len() == 1360
                &&& payloads[i][0] == if i == payloads.len() - 1 {
                    1u8
                } else {
                    0u8
                }
                &&& crate::net::be64(payloads[i].subrange(1, 9)) == probe_id
                &&& crate::net::be64(payloads[i].subrange(9, 17)) == state.node_id
                &&& forall|k: int| 17 <= k < 1360 ==> #[trigger] payloads[i][k] == 0
            }
        }),
{
    let packets = interface::probe_packets(probe_bytes);
    let train = interface::probe_train(state.node_id, probe_id, probe_bytes);
    vstd::arithmetic::div_mod::lemma_fundamental_div_mod(probe_bytes as int, 1360);
    if 0 <= i < train.len() {
        let payload = train[i];
        let sender = state.node_id as u64;
        crate::net::lemma_be64_round_trip(probe_id);
        crate::net::lemma_be64_round_trip(sender);
        assert(payload == interface::probe_payload(i == packets - 1, probe_id, sender));
        assert(payload.subrange(1, 9) =~= crate::net::be64_bytes(probe_id));
        assert(payload.subrange(9, 17) =~= crate::net::be64_bytes(sender));
    }
}

/// What is said of actions is said of the actions themselves, each at its place.
pub proof fn law_actions_stand_for_themselves(actions: Seq<Action>, i: int)
    requires
        0 <= i < actions.len(),
    ensures
        interface::views(actions).len() == actions.len(),
        interface::views(actions)[i] == actions[i]@,
        actions[i]@ matches ActionView::Connect { remote_node_id, remote_addr, scope } ==> (
        actions[i] matches Action::Connect { remote_node_id: node, remote_addr: addr, scope: s }
            && node == remote_node_id && addr@ == remote_addr && s == scope),
        actions[i]@ matches ActionView::AddNodeAddress { remote_node_id, remote_addr } ==> (
        actions[i] matches Action::AddNodeAddress { remote_node_id: node, remote_addr: addr }
            && node == remote_node_id && addr@ == remote_addr),
        actions[i]@ matches ActionView::LimitRate { node_id, spec } ==> actions[i]
            == (Action::LimitRate { node_id, spec }),
        actions[i]@ matches ActionView::UpdateRoutingTable { routes } ==> (
        actions[i] matches Action::UpdateRoutingTable { routes: r } && r@ == routes),
        actions[i]@ is SyncWorkers ==> actions[i] is SyncWorkers,
        actions[i]@ matches ActionView::StoreFlowSpec { flow } ==> actions[i]
            == (Action::StoreFlowSpec { flow }),
        actions[i]@ matches ActionView::StartTcpFlows { flows } ==> (
        actions[i] matches Action::StartTcpFlows { flows: f } && f@ == flows),
        actions[i]@ matches ActionView::StartLosslessFlows { flows } ==> (
        actions[i] matches Action::StartLosslessFlows { flows: f } && f@ == flows),
        actions[i]@ matches ActionView::UpdateGroupDirectory { groups } ==> (
        actions[i] matches Action::UpdateGroupDirectory { groups: g } && g@ == groups),
        actions[i]@ matches ActionView::UpdateGroupRoutes { group_id, src_node_id, routes } ==> (
        actions[i] matches Action::UpdateGroupRoutes { group_id: g, src_node_id: src, routes: r }
            && g == group_id && src == src_node_id && r@ == routes),
        actions[i]@ matches ActionView::ConfirmGroupRoutes { group_id } ==> actions[i]
            == (Action::ConfirmGroupRoutes { group_id }),
        actions[i]@ matches ActionView::ScheduleActivation { nonce } ==> (
        actions[i] matches Action::ScheduleActivation { nonce: n } && n == nonce),
        actions[i]@ matches ActionView::SetLosslessTopologyReady { ready } ==> actions[i]
            == (Action::SetLosslessTopologyReady { ready }),
        actions[i]@ matches ActionView::NotifyTopologyReady { node_id } ==> actions[i]
            == (Action::NotifyTopologyReady { node_id }),
        actions[i]@ matches ActionView::SendProbe { remote_node_id, ends, payloads } ==> (
        actions[i] matches Action::SendProbe { remote_node_id: node, ends: e, payloads: p } && node
            == remote_node_id && e == ends && p@.len() == payloads.len() && forall|k: int|
            0 <= k < payloads.len() ==> #[trigger] payloads[k] == p@[k]@),
        actions[i]@ is RejectMessage ==> actions[i] is RejectMessage,
{
}

} // verus!
