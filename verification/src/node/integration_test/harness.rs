//! What others are told of the messages of the controller, and how they wait for it, whatever
//! order it comes in.

use vstd::prelude::*;

use crate::messages::{ControllerToDataplane, GroupRoutingTableEntry};
use crate::net::Ipv4Addr;
use crate::text::{self, append_decimal};

verus! {

/// An event of the controller.
#[derive(Clone, Copy, Debug, PartialEq, Eq, Structural)]
pub enum HarnessEvent {
    TopologyReady,
    GroupCreated { group_id: usize, src_node_id: usize, group_ip: Ipv4Addr },
    /// Routes of a group were installed, this many.
    GroupRoutesInstalled { group_id: usize, src_node_id: usize, num_routes: usize },
    /// The directory of multicast groups was replaced by one with this many entries.
    GroupDirectoryUpdated { num_entries: usize },
    /// This node receives what is sent to a group.
    LocalMemberJoined { group_id: usize, node_id: usize },
}

/// Whether a node is a next hop of one of the routes.
pub open spec fn is_next_hop(routes: Seq<GroupRoutingTableEntry>, node_id: usize) -> bool {
    exists|i: int| 0 <= i < routes.len() && (#[trigger] routes[i]).next_hops@.contains(node_id)
}

/// What others are told of a message of the controller.
pub open spec fn told(msg: ControllerToDataplane, node_id: usize) -> Seq<HarnessEvent> {
    match msg {
        ControllerToDataplane::TopologyReady => seq![HarnessEvent::TopologyReady],
        ControllerToDataplane::GroupCreated { group_id, group_ip, src_node_id } => seq![
            HarnessEvent::GroupCreated { group_id, src_node_id, group_ip },
        ],
        ControllerToDataplane::InstallGroupDirectory { groups } => seq![
            HarnessEvent::GroupDirectoryUpdated { num_entries: groups@.len() as usize },
        ],
        ControllerToDataplane::InstallGroupRoutes { group_id, src_node_id, routes } => {
            let installed = seq![
                HarnessEvent::GroupRoutesInstalled {
                    group_id,
                    src_node_id,
                    num_routes: routes@.len() as usize,
                },
            ];
            if is_next_hop(routes@, node_id) {
                installed.push(HarnessEvent::LocalMemberJoined { group_id, node_id })
            } else {
                installed
            }
        },
        _ => Seq::empty(),
    }
}

/// Whether a list holds a node.
fn holds(ids: &Vec<usize>, node_id: usize) -> (held: bool)
    ensures
        held == ids@.contains(node_id),
{
    let mut i: usize = 0;
    while i < ids.len()
        invariant
            i <= ids@.len(),
            forall|j: int| 0 <= j < i ==> ids@[j] != node_id,
        decreases ids@.len() - i,
    {
        if ids[i] == node_id {
            return true;
        }
        i = i + 1;
    }
    false
}

/// Whether a node is a next hop of one of the routes.
fn joins(routes: &Vec<GroupRoutingTableEntry>, node_id: usize) -> (joined: bool)
    ensures
        joined == is_next_hop(routes@, node_id),
{
    let mut i: usize = 0;
    while i < routes.len()
        invariant
            i <= routes@.len(),
            forall|j: int| 0 <= j < i ==> !(#[trigger] routes@[j]).next_hops@.contains(node_id),
        decreases routes@.len() - i,
    {
        if holds(&routes[i].next_hops, node_id) {
            return true;
        }
        i = i + 1;
    }
    false
}

/// What others are told of a message of the controller, in order. A node that is a next hop of a
/// group's routes joins the group, once for all of them.
pub fn events_of(msg: &ControllerToDataplane, node_id: usize) -> (events: Vec<HarnessEvent>)
    ensures
        events@ == told(*msg, node_id),
{
    let mut events: Vec<HarnessEvent> = Vec::new();
    match msg {
        ControllerToDataplane::TopologyReady => {
            events.push(HarnessEvent::TopologyReady);
        },
        ControllerToDataplane::GroupCreated { group_id, group_ip, src_node_id } => {
            events.push(
                HarnessEvent::GroupCreated {
                    group_id: *group_id,
                    src_node_id: *src_node_id,
                    group_ip: *group_ip,
                },
            );
        },
        ControllerToDataplane::InstallGroupDirectory { groups } => {
            events.push(HarnessEvent::GroupDirectoryUpdated { num_entries: groups.len() });
        },
        ControllerToDataplane::InstallGroupRoutes { group_id, src_node_id, routes } => {
            events.push(
                HarnessEvent::GroupRoutesInstalled {
                    group_id: *group_id,
                    src_node_id: *src_node_id,
                    num_routes: routes.len(),
                },
            );
            if joins(routes, node_id) {
                events.push(HarnessEvent::LocalMemberJoined { group_id: *group_id, node_id });
            }
        },
        _ => {},
    }
    assert(events@ =~= told(*msg, node_id));
    events
}

/// An event that is waited for.
#[derive(Clone, Copy, Debug, PartialEq, Eq, Structural)]
pub enum Wanted {
    TopologyReady,
    GroupCreated,
    /// Routes of this group from this source, at least one.
    RoutesInstalled { group_id: usize, src_node_id: usize },
}

impl Wanted {
    /// Whether an event is the one that is waited for.
    pub open spec fn is_met_by(self, event: HarnessEvent) -> bool {
        match (self, event) {
            (Wanted::TopologyReady, HarnessEvent::TopologyReady) => true,
            (Wanted::GroupCreated, HarnessEvent::GroupCreated { .. }) => true,
            (
                Wanted::RoutesInstalled { group_id, src_node_id },
                HarnessEvent::GroupRoutesInstalled { group_id: gid, src_node_id: sid, num_routes },
            ) => gid == group_id && sid == src_node_id && num_routes > 0,
            _ => false,
        }
    }

    /// Whether an event is the one that is waited for.
    pub fn matches_event(&self, event: &HarnessEvent) -> (met: bool)
        ensures
            met == self.is_met_by(*event),
    {
        match (*self, *event) {
            (Wanted::TopologyReady, HarnessEvent::TopologyReady) => true,
            (Wanted::GroupCreated, HarnessEvent::GroupCreated { .. }) => true,
            (
                Wanted::RoutesInstalled { group_id, src_node_id },
                HarnessEvent::GroupRoutesInstalled { group_id: gid, src_node_id: sid, num_routes },
            ) => gid == group_id && sid == src_node_id && num_routes > 0,
            _ => false,
        }
    }
}

/// The first event in a list that is waited for.
pub open spec fn first_match(events: Seq<HarnessEvent>, wanted: Wanted) -> Option<int>
    decreases events.len(),
{
    if events.len() == 0 {
        None
    } else {
        match first_match(events.drop_last(), wanted) {
            Some(at) => Some(at),
            None => if wanted.is_met_by(events.last()) {
                Some(events.len() - 1)
            } else {
                None
            },
        }
    }
}

/// The events that came in before they were waited for.
#[derive(Debug)]
pub struct ControllerHarness {
    pub stash: Vec<HarnessEvent>,
}

impl ControllerHarness {
    /// No event came in.
    pub fn new() -> (harness: Self)
        ensures
            harness.stash@ == Seq::<HarnessEvent>::empty(),
    {
        ControllerHarness { stash: Vec::new() }
    }

    /// Takes the first event that is waited for out of those that came in before.
    pub fn take_stashed(&mut self, wanted: &Wanted) -> (event: Option<HarnessEvent>)
        ensures
            match first_match(old(self).stash@, *wanted) {
                Some(at) => {
                    &&& 0 <= at < old(self).stash@.len()
                    &&& event == Some(old(self).stash@[at])
                    &&& wanted.is_met_by(old(self).stash@[at])
                    &&& final(self).stash@ == old(self).stash@.remove(at)
                },
                None => event is None && final(self).stash@ == old(self).stash@,
            },
    {
        let mut i: usize = 0;
        assert(self.stash@.take(0) =~= Seq::<HarnessEvent>::empty());
        while i < self.stash.len()
            invariant
                i <= self.stash@.len(),
                self.stash@ == old(self).stash@,
                first_match(self.stash@.take(i as int), *wanted) is None,
            decreases self.stash@.len() - i,
        {
            proof {
                assert(self.stash@.take(i + 1).drop_last() =~= self.stash@.take(i as int));
            }
            if wanted.matches_event(&self.stash[i]) {
                proof {
                    assert(first_match(self.stash@.take(i + 1), *wanted) == Some(i as int));
                    lemma_first_match_of_prefix(self.stash@, *wanted, i + 1);
                }
                return Some(self.stash.remove(i));
            }
            i = i + 1;
        }
        assert(self.stash@.take(i as int) =~= self.stash@);
        None
    }

    /// Takes in an event: the one that is waited for is handed out, and others are kept.
    pub fn offer(&mut self, wanted: &Wanted, event: HarnessEvent) -> (taken: Option<HarnessEvent>)
        ensures
            wanted.is_met_by(event) ==> taken == Some(event) && final(self).stash@ == old(
                self,
            ).stash@,
            !wanted.is_met_by(event) ==> taken is None && final(self).stash@ == old(
                self,
            ).stash@.push(event),
    {
        if wanted.matches_event(&event) {
            return Some(event);
        }
        self.stash.push(event);
        None
    }
}

/// The first match in the start of a list is the first match in the list.
proof fn lemma_first_match_of_prefix(events: Seq<HarnessEvent>, wanted: Wanted, n: int)
    requires
        0 <= n <= events.len(),
        first_match(events.take(n), wanted) is Some,
    ensures
        first_match(events, wanted) == first_match(events.take(n), wanted),
    decreases events.len() - n,
{
    if n < events.len() {
        assert(events.take(n + 1).drop_last() =~= events.take(n));
        lemma_first_match_of_prefix(events, wanted, n + 1);
    } else {
        assert(events.take(n) =~= events);
    }
}

/// An event that was kept is found when it is waited for, unless one like it came before.
pub proof fn law_kept_events_are_found(stash: Seq<HarnessEvent>, event: HarnessEvent, wanted: Wanted)
    requires
        wanted.is_met_by(event),
        first_match(stash, wanted) is None,
    ensures
        first_match(stash.push(event), wanted) == Some(stash.len() as int),
{
    assert(stash.push(event).drop_last() =~= stash);
}

/// The error where routes were not installed in time.
pub fn routes_timeout(group_id: usize) -> (message: String)
    ensures
        message@ == "timed out waiting for GroupRoutesInstalled for group "@ + text::decimal(
            group_id as nat,
        ),
{
    let mut message = "timed out waiting for GroupRoutesInstalled for group ".to_owned();
    append_decimal(&mut message, group_id as u128);
    message
}

/// Others are told of what a message says: of a ready topology, of a group with its source and
/// address, of the size of a directory, and of routes that were installed. A node that is a next hop
/// of such routes has joined the group, which is told after the routes.
pub proof fn law_messages_are_told(
    group_id: usize,
    group_ip: Ipv4Addr,
    src_node_id: usize,
    groups: Vec<crate::messages::GroupDirectoryEntry>,
    routes: Vec<GroupRoutingTableEntry>,
    node_id: usize,
)
    ensures
        told(ControllerToDataplane::TopologyReady, node_id) == seq![HarnessEvent::TopologyReady],
        told(
            ControllerToDataplane::GroupCreated { group_id, group_ip, src_node_id },
            node_id,
        ) == seq![HarnessEvent::GroupCreated { group_id, src_node_id, group_ip }],
        told(ControllerToDataplane::InstallGroupDirectory { groups }, node_id) == seq![
            HarnessEvent::GroupDirectoryUpdated { num_entries: groups@.len() as usize },
        ],
        ({
            let events = told(
                ControllerToDataplane::InstallGroupRoutes { group_id, src_node_id, routes },
                node_id,
            );
            let joins = exists|i: int, k: int|
                0 <= i < routes@.len() && 0 <= k < routes@[i].next_hops@.len()
                    && #[trigger] routes@[i].next_hops@[k] == node_id;
            &&& events.len() == if joins {
                2int
            } else {
                1int
            }
            &&& events[0] == (HarnessEvent::GroupRoutesInstalled {
                group_id,
                src_node_id,
                num_routes: routes@.len() as usize,
            })
            &&& joins ==> events[1] == (HarnessEvent::LocalMemberJoined { group_id, node_id })
        }),
{
    if is_next_hop(routes@, node_id) {
        let i = choose|i: int|
            0 <= i < routes@.len() && (#[trigger] routes@[i]).next_hops@.contains(node_id);
        let hops = routes@[i].next_hops@;
        let k = choose|k: int| 0 <= k < hops.len() && hops[k] == node_id;
        assert(routes@[i].next_hops@[k] == node_id);
    }
    if exists|i: int, k: int|
        0 <= i < routes@.len() && 0 <= k < routes@[i].next_hops@.len()
            && #[trigger] routes@[i].next_hops@[k] == node_id {
        let (i, k) = choose|i: int, k: int|
            0 <= i < routes@.len() && 0 <= k < routes@[i].next_hops@.len()
                && #[trigger] routes@[i].next_hops@[k] == node_id;
        assert(routes@[i].next_hops@.contains(node_id));
    }
}

/// Waiting for the topology or for a group is met by any such event. Waiting for routes is met only
/// by an event that tells of at least one route of that group from that source.
pub proof fn law_what_is_waited_for(event: HarnessEvent, group_id: usize, src_node_id: usize)
    ensures
        Wanted::TopologyReady.is_met_by(event) == (event is TopologyReady),
        Wanted::GroupCreated.is_met_by(event) == (event is GroupCreated),
        (Wanted::RoutesInstalled { group_id, src_node_id }).is_met_by(event) == exists|n: usize|
            n > 0 && #[trigger] installed(group_id, src_node_id, n) == event,
{
    if let HarnessEvent::GroupRoutesInstalled { group_id: g, src_node_id: s, num_routes } = event {
        assert(installed(g, s, num_routes) == event);
    }
}

/// The event that tells of a number of routes of a group from a source.
pub open spec fn installed(group_id: usize, src_node_id: usize, num_routes: usize) -> HarnessEvent {
    HarnessEvent::GroupRoutesInstalled { group_id, src_node_id, num_routes }
}

/// Of the events that were kept, the first that is waited for is found, and none only if there is
/// none.
pub proof fn law_first_kept_event_is_found(events: Seq<HarnessEvent>, wanted: Wanted)
    ensures
        match first_match(events, wanted) {
            Some(at) => {
                &&& 0 <= at < events.len()
                &&& wanted.is_met_by(events[at])
                &&& forall|i: int| 0 <= i < at ==> !wanted.is_met_by(#[trigger] events[i])
            },
            None => forall|i: int|
                0 <= i < events.len() ==> !wanted.is_met_by(#[trigger] events[i]),
        },
    decreases events.len(),
{
    if events.len() > 0 {
        let earlier = events.drop_last();
        law_first_kept_event_is_found(earlier, wanted);
        assert forall|i: int| 0 <= i < earlier.len() implies #[trigger] events[i] == earlier[i] by {}
    }
}

} // verus!
