//! Which route a flow takes, and where a route leads.
//!
//! The controller sends routes; the node decides which flow takes which of them. All packets of a
//! flow take the same route.

use std::collections::HashMap;

use vstd::prelude::*;

use crate::dataplane::{FlowId, NodeId};
use crate::messages::RoutingTableEntry;
use crate::net::{self, read_be32};
use crate::node::{self, jump_hash_slot};

verus! {

broadcast use vstd::std_specs::hash::group_hash_axioms;

/// A route entry with the nodes at its ends.
#[derive(Clone, Copy, Debug, PartialEq, Eq, Structural)]
pub struct EnhancedRouteEntry {
    pub route_id: usize,
    pub next_hop: NodeId,
    pub src_node_id: NodeId,
    pub dst_node_id: NodeId,
}

impl EnhancedRouteEntry {
    /// The same entry, as the controller sends it.
    pub open spec fn simple(self) -> RoutingTableEntry {
        RoutingTableEntry {
            route_id: self.route_id,
            next_hop: self.next_hop,
            src_node_id: self.src_node_id,
            dst_node_id: self.dst_node_id,
        }
    }
}

/// Two node IDs as one number.
pub open spec fn direction_key(direction: (NodeId, NodeId)) -> u128 {
    (direction.0 * 0x1_0000_0000_0000_0000 + direction.1) as u128
}

/// The two node IDs that a number stands for.
spec fn key_direction(key: u128) -> (NodeId, NodeId) {
    ((key / 0x1_0000_0000_0000_0000) as usize, (key % 0x1_0000_0000_0000_0000) as usize)
}

proof fn lemma_key_round_trip(direction: (NodeId, NodeId))
    ensures
        key_direction(direction_key(direction)) == direction,
{
    vstd::arithmetic::div_mod::lemma_fundamental_div_mod_converse(
        direction_key(direction) as int,
        0x1_0000_0000_0000_0000,
        direction.0 as int,
        direction.1 as int,
    );
}

/// The routes from one node to another, for all pairs of nodes that have any.
pub struct DirectionRoutes {
    map: HashMap<u128, Vec<usize>>,
}

impl View for DirectionRoutes {
    type V = Map<(NodeId, NodeId), Seq<usize>>;

    closed spec fn view(&self) -> Map<(NodeId, NodeId), Seq<usize>> {
        Map::new(
            |direction: (NodeId, NodeId)| self.map@.contains_key(direction_key(direction)),
            |direction: (NodeId, NodeId)| self.map@[direction_key(direction)]@,
        )
    }
}

/// A new list of routes, with one more.
pub open spec fn with_route(
    routes: Map<(NodeId, NodeId), Seq<usize>>,
    direction: (NodeId, NodeId),
    route_id: usize,
) -> Map<(NodeId, NodeId), Seq<usize>> {
    if routes.contains_key(direction) {
        routes.insert(direction, routes[direction].push(route_id))
    } else {
        routes.insert(direction, seq![route_id])
    }
}

impl DirectionRoutes {
    /// Every number in use stands for a pair of nodes.
    pub closed spec fn wf(&self) -> bool {
        forall|key: u128| #[trigger]
            self.map@.contains_key(key) ==> direction_key(key_direction(key)) == key
    }

    /// No routes.
    pub fn new() -> (routes: Self)
        ensures
            routes.wf(),
            routes@ == Map::<(NodeId, NodeId), Seq<usize>>::empty(),
    {
        let routes = DirectionRoutes { map: HashMap::new() };
        assert(routes@ =~= Map::<(NodeId, NodeId), Seq<usize>>::empty());
        routes
    }

    fn key(direction: (NodeId, NodeId)) -> (key: u128)
        ensures
            key == direction_key(direction),
    {
        direction.0 as u128 * 0x1_0000_0000_0000_0000 + direction.1 as u128
    }

    /// The routes in a direction.
    pub fn get(&self, direction: &(NodeId, NodeId)) -> (routes: Option<&Vec<usize>>)
        ensures
            routes is Some == self@.contains_key(*direction),
            routes matches Some(routes) ==> routes@ == self@[*direction],
    {
        let key: u128 = DirectionRoutes::key(*direction);
        self.map.get(&key)
    }

    /// The number of directions that have routes.
    pub fn len(&self) -> (len: usize)
        requires
            self.wf(),
        ensures
            len == self@.dom().len(),
    {
        proof {
            let keys = self.map@.dom();
            let directions = self@.dom();
            assert(directions =~= keys.map(|key: u128| key_direction(key))) by {
                assert forall|d: (NodeId, NodeId)| directions.contains(d) implies keys.map(
                    |key: u128| key_direction(key),
                ).contains(d) by {
                    lemma_key_round_trip(d);
                    assert(keys.contains(direction_key(d)));
                }
            }
            vstd::set_lib::lemma_map_size(keys, directions, |key: u128| key_direction(key));
        }
        self.map.len()
    }

    /// Adds a route in a direction.
    fn add_route(&mut self, direction: (NodeId, NodeId), route_id: usize)
        requires
            old(self).wf(),
        ensures
            final(self).wf(),
            final(self)@ == with_route(old(self)@, direction, route_id),
    {
        let key: u128 = DirectionRoutes::key(direction);
        let mut routes: Vec<usize> = match self.map.remove(&key) {
            Some(routes) => routes,
            None => Vec::new(),
        };
        routes.push(route_id);
        self.map.insert(key, routes);
        proof {
            lemma_key_round_trip(direction);
            assert forall|d: (NodeId, NodeId)| direction_key(d) == key implies d == direction by {
                lemma_key_round_trip(d);
            }
            assert(self@ =~= with_route(old(self)@, direction, route_id));
        }
    }

    /// Forgets all routes.
    fn clear(&mut self)
        ensures
            final(self).wf(),
            final(self)@ == Map::<(NodeId, NodeId), Seq<usize>>::empty(),
    {
        self.map.clear();
        assert(self@ =~= Map::<(NodeId, NodeId), Seq<usize>>::empty());
    }
}

impl Clone for DirectionRoutes {
    /// The same routes.
    fn clone(&self) -> (copy: Self)
        ensures
            copy@ == self@,
            copy.wf() == self.wf(),
    {
        let copy = DirectionRoutes { map: self.map.clone() };
        assert(copy.map@ == self.map@);
        assert(copy@ =~= self@);
        assert(self.wf() ==> copy.wf());
        assert(copy.wf() ==> self.wf());
        copy
    }
}

/// What an `ahash::AHashMap` from flows to routes holds.
pub uninterp spec fn cached_routes(map: ahash::AHashMap<FlowId, usize>) -> Map<FlowId, usize>;

/// Calls `ahash::AHashMap::new`: the new map holds nothing.
#[verifier::external_body]
fn cache_new() -> (map: ahash::AHashMap<FlowId, usize>)
    ensures
        (cached_routes(map) == Map::<FlowId, usize>::empty()),
{
    ahash::AHashMap::new()
}

/// Calls `ahash::AHashMap::insert`: the value now stands under the key.
#[verifier::external_body]
fn cache_insert(map: &mut ahash::AHashMap<FlowId, usize>, flow_id: FlowId, route_id: usize)
    ensures
        cached_routes(*final(map)) == cached_routes(*old(map)).insert(flow_id, route_id),
{
    map.insert(flow_id, route_id);
}

/// Calls `clear` on the map inside an `ahash::AHashMap`: the map then holds nothing.
#[verifier::external_body]
fn cache_clear(map: &mut ahash::AHashMap<FlowId, usize>)
    ensures
        (cached_routes(*final(map)) == Map::<FlowId, usize>::empty()),
{
    map.clear();
}

/// Calls `ahash::AHashMap::clone`: the copy holds the same.
#[verifier::external_body]
fn cache_clone(map: &ahash::AHashMap<FlowId, usize>) -> (copy: ahash::AHashMap<FlowId, usize>)
    ensures
        cached_routes(copy) == cached_routes(*map),
{
    map.clone()
}

/// Routing table that maps routes to next hops.
pub struct RoutingTable {
    /// The next hop of each route.
    pub route_next_hop: HashMap<usize, NodeId>,
    /// The routes in each direction.
    pub direction_routes: DirectionRoutes,
    /// The route that each flow was given.
    pub flow_route_cache: ahash::AHashMap<FlowId, usize>,
    /// The ID of this node.
    pub local_id: NodeId,
    /// The address of the node with ID 0.
    pub base_ipv4_addr: [u8; 4],
}

/// What a routing table holds.
#[verifier::ext_equal]
pub struct Routing {
    pub next_hops: Map<usize, NodeId>,
    pub directions: Map<(NodeId, NodeId), Seq<usize>>,
    /// The routes that flows were given.
    pub cache: Map<FlowId, usize>,
    pub local_id: NodeId,
    /// The address of the node with ID 0.
    pub base_ip: u32,
}

impl Routing {
    /// The table once a list of routes is installed: nothing is left of the routes before, nor of
    /// which flow took which.
    pub open spec fn installed(self, routes: Seq<RoutingTableEntry>) -> Routing {
        Routing {
            next_hops: next_hops_of(routes),
            directions: directions_of(routes),
            cache: Map::empty(),
            ..self
        }
    }

    /// The table once a route was selected for a flow: the choice is remembered. Where no route
    /// leads that way, nothing changes.
    pub open spec fn selected(self, flow_id: FlowId) -> Routing {
        let direction = flow_direction(flow_id, self.base_ip);
        if self.directions.contains_key(direction) {
            Routing {
                cache: self.cache.insert(
                    flow_id,
                    route_choice(self.directions[direction], flow_id),
                ),
                ..self
            }
        } else {
            self
        }
    }

    /// The table once routes were selected for flows, one after the other.
    pub open spec fn selected_all(self, flows: Seq<FlowId>) -> Routing
        decreases flows.len(),
    {
        if flows.len() == 0 {
            self
        } else {
            self.selected_all(flows.drop_last()).selected(flows.last())
        }
    }

    /// Whether the hash that picks a route for a flow has a place to pick: it counts places in 32
    /// bits. It is not asked where there is one route.
    pub open spec fn can_select(self, flow_id: FlowId) -> bool {
        let direction = flow_direction(flow_id, self.base_ip);
        self.directions.contains_key(direction) ==> self.directions[direction].len() == 1
            || self.directions[direction].len() as u32 > 0
    }
}

/// Whether an entry of a list installs a route in a direction.
pub open spec fn leads(route: RoutingTableEntry, direction: (NodeId, NodeId)) -> bool {
    route.next_hop != 0 && (route.src_node_id, route.dst_node_id) == direction
}

/// The next hops that a list of routes installs; the last entry for a route counts, and a next hop
/// of 0 is none.
pub open spec fn next_hops_of(routes: Seq<RoutingTableEntry>) -> Map<usize, NodeId>
    decreases routes.len(),
{
    if routes.len() == 0 {
        Map::empty()
    } else if routes.last().next_hop == 0 {
        next_hops_of(routes.drop_last())
    } else {
        next_hops_of(routes.drop_last()).insert(routes.last().route_id, routes.last().next_hop)
    }
}

/// The routes that a list of routes installs in each direction, in the order of the list.
pub open spec fn directions_of(routes: Seq<RoutingTableEntry>) -> Map<(NodeId, NodeId), Seq<usize>>
    decreases routes.len(),
{
    if routes.len() == 0 {
        Map::empty()
    } else if routes.last().next_hop == 0 {
        directions_of(routes.drop_last())
    } else {
        with_route(
            directions_of(routes.drop_last()),
            (routes.last().src_node_id, routes.last().dst_node_id),
            routes.last().route_id,
        )
    }
}

/// The nodes at the ends of a flow, for a base address at or below both addresses.
pub open spec fn flow_direction(flow_id: FlowId, base_ip: u32) -> (NodeId, NodeId) {
    (
        (node::flow_src(flow_id) - base_ip) as usize,
        (node::flow_dst(flow_id) - base_ip) as usize,
    )
}

/// The route that a flow takes among those available: the only one, or the one that the hash of
/// the flow picks.
pub open spec fn route_choice(available: Seq<usize>, flow_id: FlowId) -> usize {
    if available.len() == 1 {
        available[0]
    } else {
        available[node::jump_slot(
            node::JUMP_KEY_FIRST,
            node::JUMP_KEY_SECOND,
            flow_id,
            available.len() as u32,
        ) as int]
    }
}

/// Every route that is available has a next hop other than 0.
pub open spec fn consistent(
    next_hops: Map<usize, NodeId>,
    directions: Map<(NodeId, NodeId), Seq<usize>>,
) -> bool {
    forall|direction: (NodeId, NodeId), i: int|
        directions.contains_key(direction) && 0 <= i < directions[direction].len()
            ==> next_hops.contains_key(#[trigger] directions[direction][i])
            && next_hops[directions[direction][i]] != 0
}

/// Installed routes are consistent: whatever route a flow is given leads somewhere, so that no
/// packet is dropped for want of a next hop. Each direction that is listed has a route, and no
/// direction has more routes than were sent.
pub proof fn law_installed_routes_are_consistent(routes: Seq<RoutingTableEntry>)
    ensures
        consistent(next_hops_of(routes), directions_of(routes)),
        forall|direction: (NodeId, NodeId)| #[trigger]
            directions_of(routes).contains_key(direction) ==> 0 < directions_of(
                routes,
            )[direction].len() <= routes.len(),
    decreases routes.len(),
{
    if routes.len() > 0 {
        let earlier = routes.drop_last();
        law_installed_routes_are_consistent(earlier);
        let last = routes.last();
        if last.next_hop != 0 {
            let dir = (last.src_node_id, last.dst_node_id);
            assert forall|direction: (NodeId, NodeId), i: int|
                directions_of(routes).contains_key(direction) && 0 <= i < directions_of(
                    routes,
                )[direction].len() implies next_hops_of(routes).contains_key(
                #[trigger] directions_of(routes)[direction][i],
            ) && next_hops_of(routes)[directions_of(routes)[direction][i]] != 0 by {
                if directions_of(earlier).contains_key(direction) && i < directions_of(
                    earlier,
                )[direction].len() {
                    assert(directions_of(routes)[direction][i] == directions_of(
                        earlier,
                    )[direction][i]);
                }
            }
        }
    }
}

/// Exactly the routes whose next hop is not 0 are available, each in its own direction.
pub proof fn law_directions_list_the_routes(
    routes: Seq<RoutingTableEntry>,
    direction: (NodeId, NodeId),
    route_id: usize,
)
    ensures
        (directions_of(routes).contains_key(direction) && directions_of(
            routes,
        )[direction].contains(route_id)) <==> exists|i: int|
            0 <= i < routes.len() && (#[trigger] routes[i]).route_id == route_id
                && routes[i].next_hop != 0 && (routes[i].src_node_id, routes[i].dst_node_id)
                == direction,
    decreases routes.len(),
{
    if routes.len() > 0 {
        let earlier = routes.drop_last();
        let last = routes.last();
        law_directions_list_the_routes(earlier, direction, route_id);
        assert(routes[routes.len() - 1] == last);
        assert(forall|i: int| 0 <= i < earlier.len() ==> #[trigger] routes[i] == earlier[i]);
        assert(forall|i: int| 0 <= i < earlier.len() ==> #[trigger] earlier[i] == routes[i]);
        if last.next_hop != 0 && (last.src_node_id, last.dst_node_id) == direction {
            let list = directions_of(routes)[direction];
            if directions_of(earlier).contains_key(direction) {
                let before = directions_of(earlier)[direction];
                assert(list =~= before.push(last.route_id));
                assert(list[before.len() as int] == last.route_id);
                if before.contains(route_id) {
                    let k = choose|k: int| 0 <= k < before.len() && before[k] == route_id;
                    assert(list[k] == route_id);
                }
                if list.contains(route_id) {
                    let k = choose|k: int| 0 <= k < list.len() && list[k] == route_id;
                    if k < before.len() {
                        assert(before[k] == route_id);
                    }
                }
            } else {
                assert(list =~= seq![last.route_id]);
                assert(list[0] == last.route_id);
            }
        }
    }
}

impl View for RoutingTable {
    type V = Routing;

    open spec fn view(&self) -> Routing {
        Routing {
            next_hops: self.route_next_hop@,
            directions: self.direction_routes@,
            cache: cached_routes(self.flow_route_cache),
            local_id: self.local_id,
            base_ip: net::be32(
                self.base_ipv4_addr@[0],
                self.base_ipv4_addr@[1],
                self.base_ipv4_addr@[2],
                self.base_ipv4_addr@[3],
            ),
        }
    }
}

impl Clone for RoutingTable {
    /// A table that holds the same.
    fn clone(&self) -> (copy: Self)
        ensures
            copy@ == self@,
            copy.wf() == self.wf(),
    {
        RoutingTable {
            route_next_hop: self.route_next_hop.clone(),
            direction_routes: self.direction_routes.clone(),
            flow_route_cache: cache_clone(&self.flow_route_cache),
            local_id: self.local_id,
            base_ipv4_addr: self.base_ipv4_addr,
        }
    }
}

impl RoutingTable {
    /// Every available route has a next hop, and no direction is listed without a route.
    pub open spec fn wf(&self) -> bool {
        &&& self.direction_routes.wf()
        &&& consistent(self.route_next_hop@, self.direction_routes@)
        &&& forall|direction: (NodeId, NodeId)| #[trigger]
            self.direction_routes@.contains_key(direction) ==> 0
                < self.direction_routes@[direction].len()
    }

    /// A table without routes, for addresses that count from 10.0.0.0.
    pub fn new(local_id: NodeId) -> (table: Self)
        ensures
            table.wf(),
            table@ == (Routing {
                next_hops: Map::empty(),
                directions: Map::empty(),
                cache: Map::empty(),
                local_id,
                base_ip: 0x0A00_0000,
            }),
    {
        RoutingTable {
            route_next_hop: HashMap::new(),
            direction_routes: DirectionRoutes::new(),
            flow_route_cache: cache_new(),
            local_id,
            base_ipv4_addr: [10, 0, 0, 0],
        }
    }

    /// Set the base IPv4 address for node ID calculation.
    pub fn set_base_ipv4_addr(&mut self, base_addr: [u8; 4])
        requires
            old(self).wf(),
        ensures
            final(self).wf(),
            final(self)@ == (Routing {
                base_ip: net::be32(base_addr@[0], base_addr@[1], base_addr@[2], base_addr@[3]),
                ..old(self)@
            }),
    {
        self.base_ipv4_addr = base_addr;
    }

    /// Replaces all routes, and forgets which flow took which.
    pub fn install_routes(&mut self, routes: Vec<RoutingTableEntry>)
        ensures
            final(self).wf(),
            final(self)@ == old(self)@.installed(routes@),
    {
        self.route_next_hop.clear();
        self.direction_routes.clear();
        cache_clear(&mut self.flow_route_cache);
        let mut i: usize = 0;
        assert(routes@.take(0) =~= Seq::<RoutingTableEntry>::empty());
        while i < routes.len()
            invariant
                i <= routes.len(),
                self.direction_routes.wf(),
                self.route_next_hop@ == next_hops_of(routes@.take(i as int)),
                self.direction_routes@ == directions_of(routes@.take(i as int)),
                (cached_routes(self.flow_route_cache) == Map::<FlowId, usize>::empty()),
                self.local_id == old(self).local_id,
                self.base_ipv4_addr == old(self).base_ipv4_addr,
            decreases routes.len() - i,
        {
            assert(routes@.take(i + 1).drop_last() =~= routes@.take(i as int));
            let route = routes[i];
            if route.next_hop != 0 {
                self.route_next_hop.insert(route.route_id, route.next_hop);
                self.direction_routes.add_route(
                    (route.src_node_id, route.dst_node_id),
                    route.route_id,
                );
            }
            i = i + 1;
        }
        proof {
            assert(routes@.take(i as int) =~= routes@);
            law_installed_routes_are_consistent(routes@);
        }
    }

    /// Replaces all routes, as `install_routes` does.
    pub fn install_routes_enhanced(&mut self, routes: Vec<EnhancedRouteEntry>)
        ensures
            final(self).wf(),
            final(self)@ == old(self)@.installed(
                routes@.map_values(|route: EnhancedRouteEntry| route.simple()),
            ),
    {
        let mut simple_routes: Vec<RoutingTableEntry> = Vec::new();
        let mut i: usize = 0;
        while i < routes.len()
            invariant
                i <= routes.len(),
                simple_routes@.len() == i,
                forall|j: int| 0 <= j < i ==> #[trigger] simple_routes@[j] == routes@[j].simple(),
            decreases routes.len() - i,
        {
            let route = routes[i];
            simple_routes.push(
                RoutingTableEntry {
                    route_id: route.route_id,
                    next_hop: route.next_hop,
                    src_node_id: route.src_node_id,
                    dst_node_id: route.dst_node_id,
                },
            );
            i = i + 1;
        }
        assert(simple_routes@ =~= routes@.map_values(|route: EnhancedRouteEntry| route.simple()));
        self.install_routes(simple_routes);
    }

    /// The nodes at the ends of a flow.
    pub fn extract_src_dst_from_flow(&self, flow_id: FlowId) -> (direction: (NodeId, NodeId))
        requires
            node::flow_src(flow_id) >= self@.base_ip,
            node::flow_dst(flow_id) >= self@.base_ip,
        ensures
            direction == flow_direction(flow_id, self@.base_ip),
    {
        let src_ip: u32 = (flow_id / 0x1_0000_0000_0000_0000_0000_0000) as u32;
        let dst_ip: u32 = (flow_id / 0x1_0000_0000_0000_0000 % 0x1_0000_0000) as u32;
        (self.ip_to_node_id(src_ip), self.ip_to_node_id(dst_ip))
    }

    /// The node that has an address: its distance from the base address.
    pub fn ip_to_node_id(&self, ip: u32) -> (node_id: NodeId)
        requires
            ip >= self@.base_ip,
        ensures
            node_id == ip - self@.base_ip,
    {
        let base_ip: u32 = read_be32(
            self.base_ipv4_addr[0],
            self.base_ipv4_addr[1],
            self.base_ipv4_addr[2],
            self.base_ipv4_addr[3],
        );
        (ip - base_ip) as usize
    }

    /// The bucket of a flow. The same flow always has the same bucket.
    pub fn jump_hash(&self, flow_id: FlowId, num_buckets: usize) -> (bucket: usize)
        requires
            num_buckets as u32 > 0,
        ensures
            bucket == node::jump_slot(
                node::JUMP_KEY_FIRST,
                node::JUMP_KEY_SECOND,
                flow_id,
                num_buckets as u32,
            ),
            bucket < num_buckets as u32,
    {
        jump_hash_slot(
            node::JUMP_KEY_FIRST,
            node::JUMP_KEY_SECOND,
            flow_id,
            num_buckets as u32,
        ) as usize
    }

    /// Chooses a route for a flow among those from its source to its destination, and remembers
    /// the choice. There is none where that direction has no route.
    pub fn select_route_for_flow(&mut self, flow_id: FlowId) -> (route_id: Option<usize>)
        requires
            old(self).wf(),
            node::flow_src(flow_id) >= old(self)@.base_ip,
            node::flow_dst(flow_id) >= old(self)@.base_ip,
            old(self)@.can_select(flow_id),
        ensures
            final(self).wf(),
            final(self)@ == old(self)@.selected(flow_id),
            ({
                let direction = flow_direction(flow_id, old(self)@.base_ip);
                if old(self)@.directions.contains_key(direction) {
                    let choice = route_choice(old(self)@.directions[direction], flow_id);
                    &&& route_id == Some(choice)
                    &&& old(self)@.next_hops.contains_key(choice)
                    &&& old(self)@.next_hops[choice] != 0
                } else {
                    route_id is None
                }
            }),
    {
        let direction = self.extract_src_dst_from_flow(flow_id);
        let choice: usize = match self.direction_routes.get(&direction) {
            Some(available) => {
                assert(self.direction_routes@.contains_key(direction));
                let slot: usize = if available.len() == 1 {
                    0
                } else {
                    self.jump_hash(flow_id, available.len())
                };
                assert(slot < available@.len()) by {
                    let len = available.len();
                    assert(len as u32 <= len) by (bit_vector);
                }
                assert(self.direction_routes@[direction][slot as int] == available@[slot as int]);
                pick_route(available, slot)
            },
            None => {
                return None;
            },
        };
        cache_insert(&mut self.flow_route_cache, flow_id, choice);
        Some(choice)
    }

    /// The next hop of a route.
    pub fn get_next_hop_by_route(&self, route_id: usize) -> (next_hop: Option<NodeId>)
        ensures
            next_hop == (if self@.next_hops.contains_key(route_id) {
                Some(self@.next_hops[route_id])
            } else {
                None
            }),
    {
        match self.route_next_hop.get(&route_id) {
            Some(next_hop) => Some(*next_hop),
            None => None,
        }
    }
}

/// The route that stands at the place which a hash gave.
pub fn pick_route(available: &Vec<usize>, slot: usize) -> (route_id: usize)
    requires
        slot < available@.len(),
    ensures
        route_id == available@[slot as int],
{
    available[slot]
}

/// Whether an entry of a list is the last for its route whose next hop is not 0.
pub open spec fn is_last_entry(routes: Seq<RoutingTableEntry>, i: int) -> bool {
    &&& 0 <= i < routes.len()
    &&& routes[i].next_hop != 0
    &&& forall|j: int|
        i < j < routes.len() && (#[trigger] routes[j]).route_id == routes[i].route_id
            ==> routes[j].next_hop == 0
}

/// The next hop of a route is that of the last entry for it whose next hop is not 0, and a route
/// without such an entry has none.
pub proof fn law_last_entry_gives_the_next_hop(routes: Seq<RoutingTableEntry>, route_id: usize)
    ensures
        next_hops_of(routes).contains_key(route_id) <==> exists|i: int| #[trigger]
            is_last_entry(routes, i) && routes[i].route_id == route_id,
        forall|i: int| #[trigger]
            is_last_entry(routes, i) && routes[i].route_id == route_id ==> next_hops_of(
                routes,
            )[route_id] == routes[i].next_hop,
    decreases routes.len(),
{
    if routes.len() > 0 {
        let earlier = routes.drop_last();
        let last = routes.last();
        let end = routes.len() - 1;
        law_last_entry_gives_the_next_hop(earlier, route_id);
        if last.next_hop != 0 && last.route_id == route_id {
            assert(is_last_entry(routes, end));
            assert forall|i: int| #[trigger]
                is_last_entry(routes, i) && routes[i].route_id == route_id implies i == end by {
                assert(routes[end].route_id == route_id);
            }
        } else {
            assert forall|i: int| routes[i].route_id == route_id && #[trigger] is_last_entry(
                earlier,
                i,
            ) implies is_last_entry(routes, i) by {
                assert(earlier[i] == routes[i]);
                assert forall|j: int|
                    i < j < routes.len() && (#[trigger] routes[j]).route_id
                        == routes[i].route_id implies routes[j].next_hop == 0 by {
                    if j < end {
                        assert(earlier[j] == routes[j]);
                    }
                }
            }
            assert forall|i: int| routes[i].route_id == route_id && #[trigger] is_last_entry(
                routes,
                i,
            ) implies is_last_entry(earlier, i) by {
                assert(i != end);
                assert(earlier[i] == routes[i]);
                assert forall|j: int|
                    i < j < earlier.len() && (#[trigger] earlier[j]).route_id
                        == earlier[i].route_id implies earlier[j].next_hop == 0 by {
                    assert(earlier[j] == routes[j]);
                }
            }
            if exists|i: int| #[trigger]
                is_last_entry(earlier, i) && earlier[i].route_id == route_id {
                let i = choose|i: int| #[trigger]
                    is_last_entry(earlier, i) && earlier[i].route_id == route_id;
                assert(earlier[i] == routes[i]);
                assert(is_last_entry(routes, i));
            }
            assert forall|i: int| #[trigger]
                is_last_entry(routes, i) && routes[i].route_id == route_id implies next_hops_of(
                routes,
            ).contains_key(route_id) && next_hops_of(routes)[route_id] == routes[i].next_hop by {
                assert(is_last_entry(earlier, i));
                assert(earlier[i] == routes[i]);
            }
        }
    }
}

/// The routes in a direction are those that the list gives for it, in the order of the list.
pub proof fn law_routes_keep_their_order(
    routes: Seq<RoutingTableEntry>,
    direction: (NodeId, NodeId),
)
    ensures
        ({
            let listed = routes.filter(|route: RoutingTableEntry| leads(route, direction));
            &&& directions_of(routes).contains_key(direction) <==> listed.len() > 0
            &&& listed.len() > 0 ==> directions_of(routes)[direction] == listed.map_values(
                |route: RoutingTableEntry| route.route_id,
            )
        }),
    decreases routes.len(),
{
    reveal(Seq::filter);
    if routes.len() > 0 {
        let earlier = routes.drop_last();
        let last = routes.last();
        law_routes_keep_their_order(earlier, direction);
        let before = earlier.filter(|route: RoutingTableEntry| leads(route, direction));
        let id = |route: RoutingTableEntry| route.route_id;
        if leads(last, direction) {
            assert(before.push(last).map_values(id) =~= before.map_values(id).push(last.route_id));
            if before.len() == 0 {
                assert(before.push(last).map_values(id) =~= seq![last.route_id]);
            }
        }
    }
}

/// Routes that are installed replace all that were installed before: nothing of the old table is
/// left but the ID of the node and the base address, no flow has a route yet, and to install the
/// same routes once more changes nothing.
pub proof fn law_installed_routes_replace_all_others(
    table: Routing,
    before: Seq<RoutingTableEntry>,
    routes: Seq<RoutingTableEntry>,
)
    ensures
        table.installed(before).installed(routes) == table.installed(routes),
        table.installed(routes).installed(routes) == table.installed(routes),
        table.installed(routes).cache == Map::<FlowId, usize>::empty(),
        table.installed(routes).local_id == table.local_id,
        table.installed(routes).base_ip == table.base_ip,
{
}

/// Between two installations of routes, a flow is always given the same route, and it is remembered,
/// whatever routes are selected for other flows or for the same one.
pub proof fn law_flow_keeps_its_route(table: Routing, flow_id: FlowId, later: Seq<FlowId>)
    requires
        table.directions.contains_key(flow_direction(flow_id, table.base_ip)),
    ensures
        ({
            let after = table.selected(flow_id).selected_all(later);
            let choice = route_choice(
                table.directions[flow_direction(flow_id, table.base_ip)],
                flow_id,
            );
            &&& after == (Routing { cache: after.cache, ..table })
            &&& after.cache.contains_key(flow_id)
            &&& after.cache[flow_id] == choice
            &&& after.selected(flow_id).cache[flow_id] == choice
        }),
    decreases later.len(),
{
    if later.len() > 0 {
        law_flow_keeps_its_route(table, flow_id, later.drop_last());
    }
}

/// Selecting a route for a flow changes nothing but what is remembered of that flow, and nothing at
/// all where no route leads from the node of its source to the node of its destination.
pub proof fn law_selection_concerns_one_flow(table: Routing, flow_id: FlowId, other: FlowId)
    requires
        table.base_ip <= node::flow_src(flow_id),
        table.base_ip <= node::flow_dst(flow_id),
    ensures
        ({
            let direction = (
                (node::flow_src(flow_id) - table.base_ip) as usize,
                (node::flow_dst(flow_id) - table.base_ip) as usize,
            );
            let after = table.selected(flow_id);
            &&& after.next_hops == table.next_hops
            &&& after.directions == table.directions
            &&& after.local_id == table.local_id
            &&& after.base_ip == table.base_ip
            &&& other != flow_id ==> (after.cache.contains_key(other)
                <==> table.cache.contains_key(other))
            &&& other != flow_id && table.cache.contains_key(other) ==> after.cache[other]
                == table.cache[other]
            &&& !table.directions.contains_key(direction) ==> after == table
            &&& table.directions.contains_key(direction) && table.directions[direction].len() == 1
                ==> after.cache.contains_key(flow_id) && after.cache[flow_id]
                == table.directions[direction][0]
        }),
{
}

/// An entry with the nodes at its ends is installed as the controller sends it.
pub proof fn law_entries_keep_their_fields(entry: EnhancedRouteEntry)
    ensures
        entry.simple().route_id == entry.route_id,
        entry.simple().next_hop == entry.next_hop,
        entry.simple().src_node_id == entry.src_node_id,
        entry.simple().dst_node_id == entry.dst_node_id,
{
}

} // verus!
