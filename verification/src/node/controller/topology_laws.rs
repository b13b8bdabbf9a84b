//! What holds of a node over all the messages that the controller may send.

use vstd::prelude::*;

use crate::messages::{ControllerToDataplane, Flow, GroupId, GroupRoutingTableEntry};
use crate::node::controller::interface::{ActionView, Outcome, Topology, TransportScope};

verus! {

/// What can happen to a node.
pub enum Event {
    /// A message arrives from the controller.
    Message { msg: ControllerToDataplane, now: u64 },
    /// The routes of a group are in place.
    GroupRoutesInPlace { group_id: GroupId, updated_at: u64, now: u64 },
    /// A scheduled activation comes due.
    ActivationDue { nonce: int, now: u64 },
}

impl Event {
    /// When the event is looked at.
    pub open spec fn now(self) -> u64 {
        match self {
            Event::Message { msg, now } => now,
            Event::GroupRoutesInPlace { group_id, updated_at, now } => now,
            Event::ActivationDue { nonce, now } => now,
        }
    }
}

/// What an event leads to.
pub open spec fn step(state: Topology, event: Event) -> Outcome {
    match event {
        Event::Message { msg, now } => state.after(msg, now),
        Event::GroupRoutesInPlace { group_id, updated_at, now } => state.confirm_group_routes(
            group_id,
            updated_at,
            now,
        ),
        Event::ActivationDue { nonce, now } => state.activation_due(nonce, now),
    }
}

/// What a series of events leads to.
pub open spec fn run(state: Topology, events: Seq<Event>) -> Outcome
    decreases events.len(),
{
    if events.len() == 0 {
        Outcome::of(state)
    } else {
        let before = run(state, events.drop_last());
        before.and(step(before.state, events.last()))
    }
}

/// How many of the actions tell the controller that the node is ready.
pub open spec fn announcements(actions: Seq<ActionView>) -> nat
    decreases actions.len(),
{
    if actions.len() == 0 {
        0
    } else {
        announcements(actions.drop_last()) + if actions.last() is NotifyTopologyReady {
            1nat
        } else {
            0nat
        }
    }
}

/// The TCP flows that the actions start, in order.
pub open spec fn tcp_started(actions: Seq<ActionView>) -> Seq<Flow>
    decreases actions.len(),
{
    if actions.len() == 0 {
        Seq::empty()
    } else {
        tcp_started(actions.drop_last()) + match actions.last() {
            ActionView::StartTcpFlows { flows } => flows,
            _ => Seq::empty(),
        }
    }
}

/// The lossless flows that the actions start, in order.
pub open spec fn lossless_started(actions: Seq<ActionView>) -> Seq<Flow>
    decreases actions.len(),
{
    if actions.len() == 0 {
        Seq::empty()
    } else {
        lossless_started(actions.drop_last()) + match actions.last() {
            ActionView::StartLosslessFlows { flows } => flows,
            _ => Seq::empty(),
        }
    }
}

/// Whether some action opens the lossless runtime.
pub open spec fn opens_lossless(actions: Seq<ActionView>) -> bool {
    exists|i: int|
        0 <= i < actions.len() && actions[i] == (ActionView::SetLosslessTopologyReady {
            ready: true,
        })
}

/// The TCP flows that an event asks this node to start.
pub open spec fn tcp_asked(state: Topology, event: Event) -> Seq<Flow> {
    match event {
        Event::Message { msg: ControllerToDataplane::AddFlows { flows }, now } => flows@.filter(
            state.started_here(),
        ),
        _ => Seq::empty(),
    }
}

/// The lossless flows that an event asks this node to take part in.
pub open spec fn lossless_asked(state: Topology, event: Event) -> Seq<Flow> {
    match event {
        Event::Message { msg: ControllerToDataplane::AddFlows { flows }, now } => flows@.filter(
            state.lossless_here(),
        ),
        _ => Seq::empty(),
    }
}

/// The neighbors that are connected in the shared scope.
pub open spec fn neighbors(state: Topology) -> Set<(usize, TransportScope)> {
    state.connected_scopes.filter(|link: (usize, TransportScope)| link.1 is Default)
}

/// What holds of every state that a node reaches.
pub open spec fn reachable_inv(state: Topology) -> bool {
    &&& state.connected_scopes.finite()
    &&& state.connected_neighbors == neighbors(state).len()
    &&& state.connected_neighbors <= state.expected_neighbors
    &&& state.topology_ready ==> state.pending_tcp_flows.len() == 0
    &&& state.lossless_topology_ready ==> state.pending_lossless_flows.len() == 0
    &&& state.lossless_topology_ready ==> state.topology_ready && state.group_directory_installed
    &&& !state.may_notify()
}

pub proof fn lemma_counts_add(a: Seq<ActionView>, b: Seq<ActionView>)
    ensures
        announcements(a + b) == announcements(a) + announcements(b),
        tcp_started(a + b) == tcp_started(a) + tcp_started(b),
        lossless_started(a + b) == lossless_started(a) + lossless_started(b),
    decreases b.len(),
{
    if b.len() == 0 {
        assert(a + b =~= a);
    } else {
        lemma_counts_add(a, b.drop_last());
        assert((a + b).drop_last() =~= a + b.drop_last());
        assert((a + b).last() == b.last());
        assert(tcp_started(a + b) =~= tcp_started(a) + tcp_started(b));
        assert(lossless_started(a + b) =~= lossless_started(a) + lossless_started(b));
    }
}

pub proof fn lemma_counts_push(a: Seq<ActionView>, action: ActionView)
    ensures
        announcements(a.push(action)) == announcements(a) + if action is NotifyTopologyReady {
            1nat
        } else {
            0nat
        },
        tcp_started(a.push(action)) == tcp_started(a) + match action {
            ActionView::StartTcpFlows { flows } => flows,
            _ => Seq::empty(),
        },
        lossless_started(a.push(action)) == lossless_started(a) + match action {
            ActionView::StartLosslessFlows { flows } => flows,
            _ => Seq::empty(),
        },
{
    assert(a.push(action).drop_last() =~= a);
}

/// An outcome whose actions neither announce readiness nor start flows.
pub open spec fn plain(actions: Seq<ActionView>) -> bool {
    &&& announcements(actions) == 0
    &&& tcp_started(actions).len() == 0
    &&& lossless_started(actions).len() == 0
}

proof fn lemma_notify(state: Topology)
    ensures
        announcements(state.notify().actions) == if state.may_notify() {
            1nat
        } else {
            0nat
        },
        tcp_started(state.notify().actions).len() == 0,
        lossless_started(state.notify().actions).len() == 0,
        !opens_lossless(state.notify().actions),
        !state.notify().state.may_notify(),
{
    if state.may_notify() {
        lemma_counts_push(
            Seq::empty(),
            ActionView::NotifyTopologyReady { node_id: state.node_id },
        );
    }
}

proof fn lemma_activate(state: Topology, now: u64)
    requires
        state.lossless_topology_ready ==> state.pending_lossless_flows.len() == 0,
    ensures
        announcements(state.activate(now).actions) == 0,
        tcp_started(state.activate(now).actions).len() == 0,
        lossless_started(state.activate(now).actions)
            + state.activate(now).state.pending_lossless_flows == state.pending_lossless_flows,
        opens_lossless(state.activate(now).actions) ==> state.may_activate(now),
{
    if state.may_activate(now) {
        let open = ActionView::SetLosslessTopologyReady { ready: true };
        let start = ActionView::StartLosslessFlows { flows: state.pending_lossless_flows };
        lemma_counts_push(Seq::empty(), open);
        lemma_counts_push(Seq::empty().push(open), start);
    }
    assert(lossless_started(state.activate(now).actions)
        + state.activate(now).state.pending_lossless_flows =~= state.pending_lossless_flows);
}

proof fn lemma_deactivate(state: Topology)
    ensures
        plain(state.deactivate().actions),
        !opens_lossless(state.deactivate().actions),
{
    lemma_counts_push(Seq::empty(), ActionView::SetLosslessTopologyReady { ready: false });
}

/// Connecting touches the list of connections only, adds tree connections only, and says nothing
/// to the controller.
proof fn lemma_connect_hops(state: Topology, next_hops: Seq<usize>, tree: u16)
    requires
        state.connected_scopes.finite(),
    ensures
        ({
            let scope = TransportScope::Tree(tree);
            let outcome = state.connect_hops(next_hops, scope);
            &&& plain(outcome.actions)
            &&& !opens_lossless(outcome.actions)
            &&& outcome.state == (Topology {
                connected_scopes: outcome.state.connected_scopes,
                ..state
            })
            &&& outcome.state.connected_scopes.finite()
            &&& neighbors(outcome.state) =~= neighbors(state)
            &&& forall|link: (usize, TransportScope)|
                #![trigger outcome.state.connected_scopes.contains(link)]
                outcome.state.connected_scopes.contains(link) <==> {
                    ||| state.connected_scopes.contains(link)
                    ||| link.1 == scope && next_hops.contains(link.0) && link.0 != state.node_id
                        && state.neighbor_addrs.contains_key(link.0)
                }
        }),
    decreases next_hops.len(),
{
    let scope = TransportScope::Tree(tree);
    if next_hops.len() > 0 {
        let before = state.connect_hops(next_hops.drop_last(), scope);
        let hop = next_hops.last();
        lemma_connect_hops(state, next_hops.drop_last(), tree);
        let last = before.state.connect_hop(hop, scope);
        if last.actions.len() > 0 {
            lemma_counts_push(Seq::empty(), last.actions.last());
        }
        lemma_counts_add(before.actions, last.actions);
        assert(next_hops =~= next_hops.drop_last().push(hop));
        assert forall|x: usize| #[trigger]
            next_hops.contains(x) <==> next_hops.drop_last().contains(x) || x == hop by {
            if next_hops.contains(x) {
                let i = choose|i: int| 0 <= i < next_hops.len() && next_hops[i] == x;
                if i < next_hops.len() - 1 {
                    assert(next_hops.drop_last()[i] == x);
                }
            }
            if next_hops.drop_last().contains(x) {
                let i = choose|i: int|
                    0 <= i < next_hops.drop_last().len() && next_hops.drop_last()[i] == x;
                assert(next_hops[i] == x);
            }
            if x == hop {
                assert(next_hops[next_hops.len() - 1] == x);
            }
        }
    }
}

/// The scope and next hop pairs that multicast routes call for.
pub open spec fn wanted(
    state: Topology,
    routes: Seq<GroupRoutingTableEntry>,
    link: (usize, TransportScope),
) -> bool {
    exists|i: int|
        0 <= i < routes.len() && (#[trigger] routes[i]).next_hops@.contains(link.0) && link.1
            == state.tree_scope(routes[i].route_id) && link.0 != state.node_id
            && state.neighbor_addrs.contains_key(link.0)
}

pub proof fn lemma_connect_routes(state: Topology, routes: Seq<GroupRoutingTableEntry>)
    requires
        state.connected_scopes.finite(),
    ensures
        ({
            let outcome = state.connect_routes(routes);
            &&& plain(outcome.actions)
            &&& !opens_lossless(outcome.actions)
            &&& outcome.state == (Topology {
                connected_scopes: outcome.state.connected_scopes,
                ..state
            })
            &&& outcome.state.connected_scopes.finite()
            &&& neighbors(outcome.state) =~= neighbors(state)
            &&& forall|link: (usize, TransportScope)|
                #![trigger outcome.state.connected_scopes.contains(link)]
                outcome.state.connected_scopes.contains(link) <==> {
                    ||| state.connected_scopes.contains(link)
                    ||| wanted(state, routes, link)
                }
        }),
    decreases routes.len(),
{
    if routes.len() > 0 {
        let before = state.connect_routes(routes.drop_last());
        let route = routes.last();
        lemma_connect_routes(state, routes.drop_last());
        let scope = state.tree_scope(route.route_id);
        lemma_connect_hops(before.state, route.next_hops@, scope->Tree_0);
        lemma_counts_add(before.actions, before.state.connect_hops(route.next_hops@, scope).actions);
        assert forall|link: (usize, TransportScope)| #[trigger]
            wanted(state, routes, link) <==> (wanted(state, routes.drop_last(), link) || (link.1
                == scope && route.next_hops@.contains(link.0) && link.0 != state.node_id
                && state.neighbor_addrs.contains_key(link.0))) by {
            if wanted(state, routes, link) {
                let i = choose|i: int|
                    0 <= i < routes.len() && (#[trigger] routes[i]).next_hops@.contains(link.0)
                        && link.1 == state.tree_scope(routes[i].route_id) && link.0
                        != state.node_id && state.neighbor_addrs.contains_key(link.0);
                if i < routes.len() - 1 {
                    assert(routes.drop_last()[i] == routes[i]);
                }
            }
            if wanted(state, routes.drop_last(), link) {
                let i = choose|i: int|
                    0 <= i < routes.len() - 1 && (#[trigger] routes.drop_last()[i]).next_hops@.contains(
                        link.0,
                    ) && link.1 == state.tree_scope(routes.drop_last()[i].route_id);
                assert(routes[i] == routes.drop_last()[i]);
            }
            assert(routes[routes.len() - 1] == route);
        }
    }
}

proof fn lemma_opens_add(a: Seq<ActionView>, b: Seq<ActionView>)
    ensures
        opens_lossless(a + b) <==> opens_lossless(a) || opens_lossless(b),
{
    let open = ActionView::SetLosslessTopologyReady { ready: true };
    if opens_lossless(a) {
        let i = choose|i: int| 0 <= i < a.len() && a[i] == open;
        assert((a + b)[i] == open);
    }
    if opens_lossless(b) {
        let i = choose|i: int| 0 <= i < b.len() && b[i] == open;
        assert((a + b)[a.len() + i] == open);
    }
    if opens_lossless(a + b) {
        let i = choose|i: int| 0 <= i < (a + b).len() && (a + b)[i] == open;
        if i < a.len() {
            assert(a[i] == open);
        } else {
            assert(b[i - a.len()] == open);
        }
    }
}

/// Everything that the laws below say of one step.
pub open spec fn sound_step(state: Topology, event: Event) -> bool {
    let outcome = step(state, event);
    let next = outcome.state;
    &&& reachable_inv(next)
    &&& next.node_id == state.node_id
    &&& state.local_topology_ready_sent ==> next.local_topology_ready_sent
    &&& announcements(outcome.actions) == if next.local_topology_ready_sent
        && !state.local_topology_ready_sent {
        1nat
    } else {
        0nat
    }
    &&& next.local_topology_ready_sent && !state.local_topology_ready_sent
        ==> next.connected_neighbors >= next.expected_neighbors && next.routes_installed
        && next.group_directory_installed
    &&& tcp_started(outcome.actions) + next.pending_tcp_flows =~= state.pending_tcp_flows
        + tcp_asked(state, event)
    &&& lossless_started(outcome.actions) + next.pending_lossless_flows
        =~= state.pending_lossless_flows + lossless_asked(state, event)
    &&& opens_lossless(outcome.actions) ==> next.lossless_topology_ready && next.quiet(event.now())
        && next.installed_group_routes.len() >= next.group_ips.dom().len()
    &&& lossless_started(outcome.actions).len() > 0 ==> next.lossless_topology_ready
    &&& state.connected_scopes.subset_of(next.connected_scopes)
}

proof fn lemma_add_node(state: Topology, remote_node_id: usize, remote_addr: String, now: u64)
    requires
        reachable_inv(state),
    ensures
        sound_step(
            state,
            Event::Message { msg: ControllerToDataplane::AddNode { remote_node_id, remote_addr }, now },
        ),
{
    let link = (remote_node_id, TransportScope::Default);
    let outcome = state.add_node(remote_node_id, remote_addr);
    if !state.connected_scopes.contains(link) {
        let known = Topology {
            expected_neighbors: state.expected_neighbors + 1,
            neighbor_addrs: state.neighbor_addrs.insert(remote_node_id, remote_addr),
            ..state
        };
        let connected = known.connect(remote_node_id, remote_addr@, TransportScope::Default);
        let counted = Topology {
            connected_neighbors: known.connected_neighbors + 1,
            ..connected.state
        };
        lemma_notify(counted);
        lemma_counts_push(Seq::empty(), connected.actions.last());
        lemma_counts_add(connected.actions, counted.notify().actions);
        lemma_opens_add(connected.actions, counted.notify().actions);
        assert(neighbors(outcome.state) =~= neighbors(state).insert(link));
        assert(!neighbors(state).contains(link));
    } else {
        assert(neighbors(outcome.state) =~= neighbors(state));
    }
}

proof fn lemma_add_flows(state: Topology, flows: Vec<Flow>, now: u64)
    requires
        reachable_inv(state),
    ensures
        sound_step(state, Event::Message { msg: ControllerToDataplane::AddFlows { flows }, now }),
{
    let here = flows@.filter(state.served_here());
    let stored = here.map_values(|flow: Flow| ActionView::StoreFlowSpec { flow });
    lemma_stored_is_plain(here);
    let tcp = state.take_tcp_flows(flows@.filter(state.started_here()));
    let lossless = tcp.state.take_lossless_flows(flows@.filter(state.lossless_here()));
    if tcp.actions.len() > 0 {
        lemma_counts_push(Seq::empty(), tcp.actions.last());
    }
    if lossless.actions.len() > 0 {
        lemma_counts_push(Seq::empty(), lossless.actions.last());
    }
    lemma_counts_add(stored, tcp.actions);
    lemma_counts_add(stored + tcp.actions, lossless.actions);
    lemma_opens_add(stored, tcp.actions);
    lemma_opens_add(stored + tcp.actions, lossless.actions);
    assert(neighbors(lossless.state) =~= neighbors(state));
}

pub proof fn lemma_stored_is_plain(flows: Seq<Flow>)
    ensures
        plain(flows.map_values(|flow: Flow| ActionView::StoreFlowSpec { flow })),
        !opens_lossless(flows.map_values(|flow: Flow| ActionView::StoreFlowSpec { flow })),
    decreases flows.len(),
{
    let store = |flow: Flow| ActionView::StoreFlowSpec { flow };
    if flows.len() > 0 {
        lemma_stored_is_plain(flows.drop_last());
        assert(flows.map_values(store) =~= flows.drop_last().map_values(store).push(
            store(flows.last()),
        ));
        lemma_counts_push(flows.drop_last().map_values(store), store(flows.last()));
    }
}

proof fn lemma_become_ready(state: Topology, now: u64)
    requires
        reachable_inv(state),
    ensures
        sound_step(state, Event::Message { msg: ControllerToDataplane::TopologyReady, now }),
{
    let ready = Topology { topology_ready: true, pending_tcp_flows: Seq::empty(), ..state };
    lemma_activate(ready, now);
    let start = ActionView::StartTcpFlows { flows: state.pending_tcp_flows };
    lemma_counts_push(Seq::empty(), start);
    let started = if state.pending_tcp_flows.len() == 0 {
        Seq::empty()
    } else {
        Seq::empty().push(start)
    };
    lemma_counts_add(started, ready.activate(now).actions);
    lemma_opens_add(started, ready.activate(now).actions);
    assert(neighbors(ready.activate(now).state) =~= neighbors(state));
}

proof fn lemma_install_directory(
    state: Topology,
    groups: Vec<crate::messages::GroupDirectoryEntry>,
    now: u64,
)
    requires
        reachable_inv(state),
    ensures
        sound_step(
            state,
            Event::Message { msg: ControllerToDataplane::InstallGroupDirectory { groups }, now },
        ),
{
    let closed = if groups@.len() == 0 {
        Outcome::of(state)
    } else {
        state.deactivate()
    };
    lemma_deactivate(state);
    let updated = closed.act(ActionView::UpdateGroupDirectory { groups: groups@ });
    lemma_counts_push(closed.actions, ActionView::UpdateGroupDirectory { groups: groups@ });
    let installed = Topology {
        group_ips: crate::node::controller::interface::directory(groups@),
        installed_group_routes: Set::empty(),
        group_directory_installed: true,
        ..closed.state
    };
    let activated = installed.activate(now);
    lemma_activate(installed, now);
    lemma_notify(activated.state);
    lemma_counts_add(updated.actions, activated.actions);
    lemma_counts_add(updated.actions + activated.actions, activated.state.notify().actions);
    lemma_opens_add(closed.actions, seq![ActionView::UpdateGroupDirectory { groups: groups@ }]);
    assert(updated.actions =~= closed.actions + seq![
        ActionView::UpdateGroupDirectory { groups: groups@ },
    ]);
    lemma_opens_add(updated.actions, activated.actions);
    lemma_opens_add(updated.actions + activated.actions, activated.state.notify().actions);
    assert(neighbors(activated.state.notify().state) =~= neighbors(state));
}

proof fn lemma_install_group_routes(
    state: Topology,
    group_id: GroupId,
    src_node_id: usize,
    routes: Vec<GroupRoutingTableEntry>,
    now: u64,
)
    requires
        reachable_inv(state),
    ensures
        sound_step(
            state,
            Event::Message {
                msg: ControllerToDataplane::InstallGroupRoutes { group_id, src_node_id, routes },
                now,
            },
        ),
{
    let closed = state.deactivate();
    lemma_deactivate(state);
    let connected = closed.state.connect_routes(routes@);
    assert(neighbors(closed.state) =~= neighbors(state));
    lemma_connect_routes(closed.state, routes@);
    lemma_counts_add(closed.actions, connected.actions);
    lemma_opens_add(closed.actions, connected.actions);
    let both = closed.actions + connected.actions;
    let update = ActionView::UpdateGroupRoutes { group_id, src_node_id, routes: routes@ };
    let confirm = ActionView::ConfirmGroupRoutes { group_id };
    lemma_counts_push(both, ActionView::SyncWorkers);
    lemma_counts_push(both.push(ActionView::SyncWorkers), update);
    lemma_counts_push(both.push(ActionView::SyncWorkers).push(update), ActionView::SyncWorkers);
    lemma_counts_push(
        both.push(ActionView::SyncWorkers).push(update).push(ActionView::SyncWorkers),
        confirm,
    );
    let tail = seq![ActionView::SyncWorkers, update, ActionView::SyncWorkers, confirm];
    assert(both.push(ActionView::SyncWorkers).push(update).push(ActionView::SyncWorkers).push(
        confirm,
    ) =~= both + tail);
    lemma_opens_add(both, tail);
    assert(closed.state.connected_scopes.subset_of(connected.state.connected_scopes));
}

proof fn lemma_confirm_group_routes(state: Topology, group_id: GroupId, updated_at: u64, now: u64)
    requires
        reachable_inv(state),
    ensures
        sound_step(state, Event::GroupRoutesInPlace { group_id, updated_at, now }),
{
    let nonce = state.group_route_nonce + 1;
    let confirmed = Topology {
        installed_group_routes: state.installed_group_routes.insert(group_id),
        last_group_route_update_at: Some(updated_at),
        group_route_nonce: nonce,
        ..state
    };
    let first = Seq::empty().push(ActionView::ScheduleActivation { nonce });
    lemma_counts_push(Seq::empty(), ActionView::ScheduleActivation { nonce });
    let activated = confirmed.activate(now);
    lemma_activate(confirmed, now);
    lemma_notify(activated.state);
    lemma_counts_add(first, activated.actions);
    lemma_counts_add(first + activated.actions, activated.state.notify().actions);
    lemma_opens_add(first, activated.actions);
    lemma_opens_add(first + activated.actions, activated.state.notify().actions);
    assert(neighbors(activated.state.notify().state) =~= neighbors(state));
}

pub proof fn lemma_sound_step(state: Topology, event: Event)
    requires
        reachable_inv(state),
    ensures
        sound_step(state, event),
{
    match event {
        Event::Message { msg, now } => {
            match msg {
                ControllerToDataplane::AddNode { remote_node_id, remote_addr } => {
                    lemma_add_node(state, remote_node_id, remote_addr, now);
                },
                ControllerToDataplane::InstallRoutes { routes } => {
                    let installed = Topology { routes_installed: true, ..state };
                    let update = ActionView::UpdateRoutingTable { routes: routes@ };
                    let first = Seq::empty().push(update).push(ActionView::SyncWorkers);
                    lemma_counts_push(Seq::empty(), update);
                    lemma_counts_push(Seq::empty().push(update), ActionView::SyncWorkers);
                    lemma_notify(installed);
                    lemma_counts_add(first, installed.notify().actions);
                    lemma_opens_add(first, installed.notify().actions);
                    assert(neighbors(installed.notify().state) =~= neighbors(state));
                },
                ControllerToDataplane::AddFlows { flows } => {
                    lemma_add_flows(state, flows, now);
                },
                ControllerToDataplane::TopologyReady => {
                    lemma_become_ready(state, now);
                },
                ControllerToDataplane::InstallGroupDirectory { groups } => {
                    lemma_install_directory(state, groups, now);
                },
                ControllerToDataplane::InstallGroupRoutes { group_id, src_node_id, routes } => {
                    lemma_install_group_routes(state, group_id, src_node_id, routes, now);
                },
                _ => {
                    let outcome = step(state, event);
                    if outcome.actions.len() > 0 {
                        lemma_counts_push(Seq::empty(), outcome.actions.last());
                    }
                    assert(neighbors(outcome.state) =~= neighbors(state));
                },
            }
        },
        Event::GroupRoutesInPlace { group_id, updated_at, now } => {
            lemma_confirm_group_routes(state, group_id, updated_at, now);
        },
        Event::ActivationDue { nonce, now } => {
            lemma_activate(state, now);
            assert(neighbors(step(state, event).state) =~= neighbors(state));
        },
    }
}

/// A node keeps its bookkeeping straight: the counted neighbors are the connected ones and never
/// more than expected, flows wait only while what they wait for is missing, the lossless runtime
/// is open only in a network that is up, and readiness is announced as soon as it is reached.
pub proof fn law_invariant(node_id: usize, multitree_stride: usize, events: Seq<Event>)
    ensures
        reachable_inv(run(Topology::initial(node_id, multitree_stride), events).state),
    decreases events.len(),
{
    let initial = Topology::initial(node_id, multitree_stride);
    if events.len() == 0 {
        assert(neighbors(initial) =~= Set::empty());
    } else {
        law_invariant(node_id, multitree_stride, events.drop_last());
        lemma_sound_step(run(initial, events.drop_last()).state, events.last());
    }
}

/// Whatever happens, a node tells the controller at most once that it is ready.
pub proof fn law_readiness_is_announced_at_most_once(
    node_id: usize,
    multitree_stride: usize,
    events: Seq<Event>,
)
    ensures
        announcements(run(Topology::initial(node_id, multitree_stride), events).actions) == if run(
            Topology::initial(node_id, multitree_stride),
            events,
        ).state.local_topology_ready_sent {
            1nat
        } else {
            0nat
        },
    decreases events.len(),
{
    let initial = Topology::initial(node_id, multitree_stride);
    if events.len() > 0 {
        let before = run(initial, events.drop_last());
        law_readiness_is_announced_at_most_once(node_id, multitree_stride, events.drop_last());
        law_invariant(node_id, multitree_stride, events.drop_last());
        lemma_sound_step(before.state, events.last());
        lemma_counts_add(before.actions, step(before.state, events.last()).actions);
    }
}

/// A node announces readiness only with all expected neighbors connected, its routes installed and
/// its group directory installed.
pub proof fn law_readiness_needs_the_whole_topology(state: Topology, event: Event)
    requires
        reachable_inv(state),
        announcements(step(state, event).actions) > 0,
    ensures
        ({
            let next = step(state, event).state;
            &&& next.connected_neighbors == next.expected_neighbors
            &&& next.routes_installed
            &&& next.group_directory_installed
        }),
{
    lemma_sound_step(state, event);
}

/// The lossless runtime is opened only in a network that is up, with a group directory, with
/// routes for as many groups as the directory lists, and after the quiet period.
pub proof fn law_lossless_opens_only_when_settled(state: Topology, event: Event)
    requires
        reachable_inv(state),
        opens_lossless(step(state, event).actions),
    ensures
        ({
            let next = step(state, event).state;
            &&& next.topology_ready
            &&& next.group_directory_installed
            &&& next.installed_group_routes.len() >= next.group_ips.dom().len()
            &&& next.quiet(event.now())
        }),
{
    lemma_sound_step(state, event);
}

/// While the routes of a group change, no lossless session starts: an open runtime is closed before
/// the routes are handed out, and it stays closed when they are in place until they have settled.
pub proof fn law_group_routes_hold_senders_back(
    state: Topology,
    group_id: GroupId,
    src_node_id: usize,
    routes: Vec<GroupRoutingTableEntry>,
    updated_at: u64,
    now: u64,
)
    requires
        reachable_inv(state),
        now - updated_at < crate::node::controller::interface::LOSSLESS_GROUP_ROUTE_QUIET_PERIOD,
    ensures
        ({
            let installed = state.install_group_routes(group_id, src_node_id, routes@);
            let confirmed = installed.state.confirm_group_routes(group_id, updated_at, now);
            &&& state.lossless_topology_ready ==> installed.actions[0]
                == (ActionView::SetLosslessTopologyReady { ready: false })
            &&& !installed.state.lossless_topology_ready
            &&& !opens_lossless(installed.actions)
            &&& lossless_started(installed.actions).len() == 0
            &&& !confirmed.state.lossless_topology_ready
            &&& !opens_lossless(confirmed.actions)
            &&& lossless_started(confirmed.actions).len() == 0
        }),
{
    let install = Event::Message {
        msg: ControllerToDataplane::InstallGroupRoutes { group_id, src_node_id, routes },
        now,
    };
    lemma_sound_step(state, install);
    let closed = state.deactivate();
    lemma_connect_routes(closed.state, routes@);
    let installed = state.install_group_routes(group_id, src_node_id, routes@);
    assert(!installed.state.lossless_topology_ready);
    lemma_sound_step(
        installed.state,
        Event::GroupRoutesInPlace { group_id, updated_at, now },
    );
}

/// Once routes have settled, the activation that was scheduled for them opens the runtime.
pub proof fn law_settled_routes_open_lossless(state: Topology, now: u64)
    requires
        state.may_activate(now),
    ensures
        step(state, Event::ActivationDue { nonce: state.group_route_nonce, now }).state
            .lossless_topology_ready,
        opens_lossless(
            step(state, Event::ActivationDue { nonce: state.group_route_nonce, now }).actions,
        ),
{
    let actions = step(state, Event::ActivationDue { nonce: state.group_route_nonce, now }).actions;
    assert(actions[0] == (ActionView::SetLosslessTopologyReady { ready: true }));
}

/// An activation that was scheduled before the latest route change does nothing.
pub proof fn law_stale_activation_is_ignored(state: Topology, nonce: int, now: u64)
    requires
        nonce != state.group_route_nonce,
    ensures
        step(state, Event::ActivationDue { nonce, now }) == Outcome::of(state),
{
}

/// Every TCP flow that this node was asked to start is started exactly once and in the order of
/// asking, or still waits.
pub proof fn law_tcp_flows_start_once(
    node_id: usize,
    multitree_stride: usize,
    events: Seq<Event>,
)
    ensures
        ({
            let initial = Topology::initial(node_id, multitree_stride);
            let outcome = run(initial, events);
            tcp_started(outcome.actions) + outcome.state.pending_tcp_flows == tcp_asked_by(
                initial,
                events,
            )
        }),
    decreases events.len(),
{
    let initial = Topology::initial(node_id, multitree_stride);
    if events.len() == 0 {
        assert(tcp_started(Seq::empty()) + initial.pending_tcp_flows =~= Seq::<Flow>::empty());
    } else {
        let before = run(initial, events.drop_last());
        let last = step(before.state, events.last());
        law_tcp_flows_start_once(node_id, multitree_stride, events.drop_last());
        law_invariant(node_id, multitree_stride, events.drop_last());
        lemma_sound_step(before.state, events.last());
        lemma_counts_add(before.actions, last.actions);
        lemma_node_id_stays(node_id, multitree_stride, events.drop_last());
        assert(before.state.started_here() =~= initial.started_here());
        let asked = tcp_asked(initial, events.last());
        assert(tcp_started(before.actions) + tcp_started(last.actions)
            + last.state.pending_tcp_flows =~= tcp_started(before.actions) + (tcp_started(
            last.actions,
        ) + last.state.pending_tcp_flows));
        assert(tcp_started(before.actions) + (before.state.pending_tcp_flows + asked) =~= (
        tcp_started(before.actions) + before.state.pending_tcp_flows) + asked);
    }
}

/// Every lossless flow that concerns this node is started exactly once and in the order of asking,
/// or still waits.
pub proof fn law_lossless_flows_start_once(
    node_id: usize,
    multitree_stride: usize,
    events: Seq<Event>,
)
    ensures
        ({
            let initial = Topology::initial(node_id, multitree_stride);
            let outcome = run(initial, events);
            lossless_started(outcome.actions) + outcome.state.pending_lossless_flows
                == lossless_asked_by(initial, events)
        }),
    decreases events.len(),
{
    let initial = Topology::initial(node_id, multitree_stride);
    if events.len() == 0 {
        assert(lossless_started(Seq::empty()) + initial.pending_lossless_flows =~= Seq::<
            Flow,
        >::empty());
    } else {
        let before = run(initial, events.drop_last());
        let last = step(before.state, events.last());
        law_lossless_flows_start_once(node_id, multitree_stride, events.drop_last());
        law_invariant(node_id, multitree_stride, events.drop_last());
        lemma_sound_step(before.state, events.last());
        lemma_counts_add(before.actions, last.actions);
        lemma_node_id_stays(node_id, multitree_stride, events.drop_last());
        assert(before.state.lossless_here() =~= initial.lossless_here());
        let asked = lossless_asked(initial, events.last());
        assert(lossless_started(before.actions) + lossless_started(last.actions)
            + last.state.pending_lossless_flows =~= lossless_started(before.actions) + (
        lossless_started(last.actions) + last.state.pending_lossless_flows));
        assert(lossless_started(before.actions) + (before.state.pending_lossless_flows + asked)
            =~= (lossless_started(before.actions) + before.state.pending_lossless_flows) + asked);
    }
}

/// Lossless flows start only while the runtime is open.
pub proof fn law_lossless_flows_need_an_open_runtime(state: Topology, event: Event)
    requires
        reachable_inv(state),
        lossless_started(step(state, event).actions).len() > 0,
    ensures
        step(state, event).state.lossless_topology_ready,
{
    lemma_sound_step(state, event);
}

/// Installing multicast routes connects exactly the next hops that have an address and are not
/// this node, each in the scope of its tree, on top of the connections that there were.
pub proof fn law_group_routes_connect_their_next_hops(
    state: Topology,
    group_id: GroupId,
    src_node_id: usize,
    routes: Seq<GroupRoutingTableEntry>,
    link: (usize, TransportScope),
)
    requires
        state.connected_scopes.finite(),
    ensures
        state.install_group_routes(group_id, src_node_id, routes).state.connected_scopes.contains(
            link,
        ) <==> state.connected_scopes.contains(link) || wanted(state, routes, link),
{
    let closed = state.deactivate();
    lemma_connect_routes(closed.state, routes);
    if wanted(closed.state, routes, link) {
        let i = choose|i: int|
            0 <= i < routes.len() && (#[trigger] routes[i]).next_hops@.contains(link.0) && link.1
                == closed.state.tree_scope(routes[i].route_id) && link.0 != closed.state.node_id
                && closed.state.neighbor_addrs.contains_key(link.0);
        assert(link.1 == state.tree_scope(routes[i].route_id));
    }
    if wanted(state, routes, link) {
        let i = choose|i: int|
            0 <= i < routes.len() && (#[trigger] routes[i]).next_hops@.contains(link.0) && link.1
                == state.tree_scope(routes[i].route_id) && link.0 != state.node_id
                && state.neighbor_addrs.contains_key(link.0);
        assert(link.1 == closed.state.tree_scope(routes[i].route_id));
    }
}

/// A connection, once made, stays listed, so that it is not made again.
pub proof fn law_connections_stay(state: Topology, event: Event)
    requires
        reachable_inv(state),
    ensures
        state.connected_scopes.subset_of(step(state, event).state.connected_scopes),
{
    lemma_sound_step(state, event);
}

proof fn lemma_node_id_stays(node_id: usize, multitree_stride: usize, events: Seq<Event>)
    ensures
        run(Topology::initial(node_id, multitree_stride), events).state.node_id == node_id,
    decreases events.len(),
{
    let initial = Topology::initial(node_id, multitree_stride);
    if events.len() > 0 {
        lemma_node_id_stays(node_id, multitree_stride, events.drop_last());
        law_invariant(node_id, multitree_stride, events.drop_last());
        lemma_sound_step(run(initial, events.drop_last()).state, events.last());
    }
}

/// The TCP flows that a series of events asks a node to start.
pub open spec fn tcp_asked_by(state: Topology, events: Seq<Event>) -> Seq<Flow>
    decreases events.len(),
{
    if events.len() == 0 {
        Seq::empty()
    } else {
        tcp_asked_by(state, events.drop_last()) + tcp_asked(state, events.last())
    }
}

/// The lossless flows that a series of events asks a node to take part in.
pub open spec fn lossless_asked_by(state: Topology, events: Seq<Event>) -> Seq<Flow>
    decreases events.len(),
{
    if events.len() == 0 {
        Seq::empty()
    } else {
        lossless_asked_by(state, events.drop_last()) + lossless_asked(state, events.last())
    }
}

/// Whether a node finds itself in these states, in order, when it is about to see whether it may
/// call itself ready. In between anything may change but its memory of having done so.
pub open spec fn successive_checks(checks: Seq<Topology>) -> bool {
    &&& checks.len() > 0 ==> !checks[0].local_topology_ready_sent
    &&& forall|i: int|
        0 < i < checks.len() ==> (#[trigger] checks[i]).local_topology_ready_sent == checks[i
            - 1].notify().state.local_topology_ready_sent
}

/// Whether a node had what it needs at some check before the given one.
pub open spec fn ready_before(checks: Seq<Topology>, i: int) -> bool {
    exists|j: int| 0 <= j < i && j < checks.len() && #[trigger] checks[j].locally_ready()
}

/// However the counters and flags of a node change between its checks, the controller is told that
/// the node is ready exactly at the first check at which it has what it needs, and at no other. The
/// node remembers it from then on, and checks before that change nothing.
pub proof fn law_readiness_is_announced_at_the_first_chance(checks: Seq<Topology>, i: int)
    requires
        successive_checks(checks),
        0 <= i < checks.len(),
    ensures
        checks[i].notify().actions == if checks[i].locally_ready() && !ready_before(checks, i) {
            seq![ActionView::NotifyTopologyReady { node_id: checks[i].node_id }]
        } else {
            Seq::empty()
        },
        checks[i].local_topology_ready_sent == ready_before(checks, i),
        checks[i].notify().state.local_topology_ready_sent == ready_before(checks, i + 1),
        checks[i].notify().state == (Topology {
            local_topology_ready_sent: ready_before(checks, i + 1),
            ..checks[i]
        }),
        !ready_before(checks, i + 1) ==> checks[i].notify().state == checks[i],
    decreases i,
{
    if i > 0 {
        law_readiness_is_announced_at_the_first_chance(checks, i - 1);
        assert(checks[i].local_topology_ready_sent == checks[i
            - 1].notify().state.local_topology_ready_sent);
    }
    if checks[i].locally_ready() {
        assert(ready_before(checks, i + 1));
    } else if ready_before(checks, i) {
        let j = choose|j: int|
            0 <= j < i && j < checks.len() && #[trigger] checks[j].locally_ready();
        assert(0 <= j < i + 1 && checks[j].locally_ready());
    }
    assert(checks[i].notify().actions =~= if checks[i].may_notify() {
        seq![ActionView::NotifyTopologyReady { node_id: checks[i].node_id }]
    } else {
        Seq::empty()
    });
}

} // verus!
