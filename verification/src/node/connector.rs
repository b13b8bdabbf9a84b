//! Where packets and connections go in the operating mode that relays between external endpoints.

use vstd::prelude::*;

use crate::node::{self, FlowId, FlowIdExt, NodeId};
use crate::numbering::{self, numbers_get, numbers_insert, numbers_new};
use crate::text::{self, append_decimal, ipv4_to_string};

verus! {

/// What is done with a packet for a next hop.
#[derive(Debug)]
pub enum Forward {
    /// The packet goes to a scheduler that exists.
    Send { next_hop_id: NodeId, scheduler: usize },
    /// A connection to the address is opened for the flow, and the packet goes to its scheduler,
    /// which is given a number.
    Connect { next_hop_id: NodeId, remote_addr: String, scheduler: usize },
    /// The packet is dropped: the address of the node is not known.
    NoAddress { next_hop_id: NodeId },
    /// The packet is dropped: there is nothing to connect with yet.
    NotConnected { next_hop_id: NodeId },
}

/// What is done with a packet for a next hop, as a value.
pub enum ForwardView {
    Send { next_hop_id: NodeId, scheduler: usize },
    Connect { next_hop_id: NodeId, remote_addr: Seq<char>, scheduler: usize },
    NoAddress { next_hop_id: NodeId },
    NotConnected { next_hop_id: NodeId },
}

impl View for Forward {
    type V = ForwardView;

    open spec fn view(&self) -> ForwardView {
        match *self {
            Forward::Send { next_hop_id, scheduler } => ForwardView::Send {
                next_hop_id,
                scheduler,
            },
            Forward::Connect { next_hop_id, remote_addr, scheduler } => ForwardView::Connect {
                next_hop_id,
                remote_addr: remote_addr@,
                scheduler,
            },
            Forward::NoAddress { next_hop_id } => ForwardView::NoAddress { next_hop_id },
            Forward::NotConnected { next_hop_id } => ForwardView::NotConnected { next_hop_id },
        }
    }
}

/// The values of a list of actions.
pub open spec fn forward_views(actions: Seq<Forward>) -> Seq<ForwardView> {
    Seq::new(actions.len(), |i: int| actions[i]@)
}

/// What is done with an inbound connection.
#[derive(Debug)]
pub enum Inbound {
    /// The flow ends here: answers to it go to a new scheduler on the connection.
    Deliver { scheduler: usize },
    /// The connection is spliced with one to the next hop. Another node is sent a header that
    /// names the flow; an external server is not.
    Relay { addr: String, with_header: bool },
}

/// What a connector knows.
#[verifier::ext_equal]
pub struct Links {
    pub local_id: NodeId,
    /// Whether connections can be opened.
    pub connected: bool,
    /// The addresses of nodes.
    pub addresses: Map<NodeId, Seq<char>>,
    /// The scheduler of each flow towards each next hop.
    pub schedulers: Map<(FlowId, NodeId), usize>,
    /// The number of the next scheduler.
    pub next_scheduler: usize,
}

impl Links {
    /// What is done with a packet of a flow for one next hop; nothing for the node itself.
    pub open spec fn forward_to(self, flow_id: FlowId, hop: NodeId) -> Option<ForwardView> {
        if hop == self.local_id {
            None
        } else if self.schedulers.contains_key((flow_id, hop)) {
            Some(
                ForwardView::Send {
                    next_hop_id: hop,
                    scheduler: self.schedulers[(flow_id, hop)],
                },
            )
        } else if !self.addresses.contains_key(hop) {
            Some(ForwardView::NoAddress { next_hop_id: hop })
        } else if !self.connected {
            Some(ForwardView::NotConnected { next_hop_id: hop })
        } else {
            Some(
                ForwardView::Connect {
                    next_hop_id: hop,
                    remote_addr: self.addresses[hop],
                    scheduler: self.next_scheduler,
                },
            )
        }
    }

    /// What is known after a packet for one next hop: a new connection has a scheduler.
    pub open spec fn after(self, flow_id: FlowId, hop: NodeId) -> Links {
        if self.forward_to(flow_id, hop) matches Some(ForwardView::Connect { .. }) {
            self.with_scheduler(flow_id, hop)
        } else {
            self
        }
    }

    /// A new scheduler for a flow towards a next hop.
    pub open spec fn with_scheduler(self, flow_id: FlowId, hop: NodeId) -> Links {
        Links {
            schedulers: self.schedulers.insert((flow_id, hop), self.next_scheduler),
            next_scheduler: (self.next_scheduler + 1) as usize,
            ..self
        }
    }

    /// What is known after a packet for several next hops in turn.
    pub open spec fn after_all(self, flow_id: FlowId, hops: Seq<NodeId>) -> Links
        decreases hops.len(),
    {
        if hops.len() == 0 {
            self
        } else {
            self.after_all(flow_id, hops.drop_last()).after(flow_id, hops.last())
        }
    }

    /// What is done with a packet for several next hops in turn.
    pub open spec fn forwards(self, flow_id: FlowId, hops: Seq<NodeId>) -> Seq<ForwardView>
        decreases hops.len(),
    {
        if hops.len() == 0 {
            Seq::empty()
        } else {
            let earlier = self.forwards(flow_id, hops.drop_last());
            match self.after_all(flow_id, hops.drop_last()).forward_to(flow_id, hops.last()) {
                Some(action) => earlier.push(action),
                None => earlier,
            }
        }
    }

    /// Schedulers have numbers of their own.
    pub open spec fn inv(self) -> bool {
        &&& forall|key: (FlowId, NodeId)| #[trigger]
            self.schedulers.contains_key(key) ==> self.schedulers[key] < self.next_scheduler
        &&& forall|a: (FlowId, NodeId), b: (FlowId, NodeId)|
            #[trigger] self.schedulers.contains_key(a) && #[trigger] self.schedulers.contains_key(b)
                && self.schedulers[a] == self.schedulers[b] ==> a == b
    }
}

/// The scheduler that the first packet of a flow to a next hop was given also takes the next one.
pub proof fn law_connections_are_reused(links: Links, flow_id: FlowId, hop: NodeId)
    requires
        links.forward_to(flow_id, hop) matches Some(ForwardView::Connect { .. }),
    ensures
        links.after(flow_id, hop).forward_to(flow_id, hop) == Some(
            ForwardView::Send { next_hop_id: hop, scheduler: links.next_scheduler },
        ),
{
}

/// A packet is handed on at most once for each of its next hops.
pub proof fn law_one_copy_per_hop(links: Links, flow_id: FlowId, hops: Seq<NodeId>)
    ensures
        links.forwards(flow_id, hops).len() <= hops.len(),
    decreases hops.len(),
{
    if hops.len() > 0 {
        law_one_copy_per_hop(links, flow_id, hops.drop_last());
    }
}

/// No two flows share a scheduler, and no two next hops of a flow do, whichever packets are sent.
pub proof fn law_schedulers_are_not_shared(links: Links, flow_id: FlowId, hops: Seq<NodeId>)
    requires
        links.inv(),
        links.next_scheduler + hops.len() <= usize::MAX,
    ensures
        links.after_all(flow_id, hops).inv(),
        links.after_all(flow_id, hops).next_scheduler <= links.next_scheduler + hops.len(),
    decreases hops.len(),
{
    if hops.len() > 0 {
        law_schedulers_are_not_shared(links, flow_id, hops.drop_last());
        let before = links.after_all(flow_id, hops.drop_last());
        lemma_inv_kept(before, flow_id, hops.last());
    }
}

proof fn lemma_inv_kept(links: Links, flow_id: FlowId, hop: NodeId)
    requires
        links.inv(),
        links.next_scheduler < usize::MAX,
    ensures
        links.after(flow_id, hop).inv(),
        links.with_scheduler(flow_id, hop).inv(),
{
    let later = links.with_scheduler(flow_id, hop);
    assert forall|key: (FlowId, NodeId)| #[trigger] later.schedulers.contains_key(key) implies
        later.schedulers[key] < later.next_scheduler by {
        assert(key == (flow_id, hop) || links.schedulers.contains_key(key));
    }
    assert forall|a: (FlowId, NodeId), b: (FlowId, NodeId)|
        #[trigger] later.schedulers.contains_key(a) && #[trigger] later.schedulers.contains_key(b)
            && later.schedulers[a] == later.schedulers[b] implies a == b by {
        assert(a == (flow_id, hop) || links.schedulers.contains_key(a));
        assert(b == (flow_id, hop) || links.schedulers.contains_key(b));
    }
}

/// Forwards packets over connections of their own for each flow.
pub struct Connector {
    pub local_id: NodeId,
    pub connected: bool,
    /// The place of the address of each node.
    pub address_places: ahash::AHashMap<u128, usize>,
    pub address_list: Vec<String>,
    /// The place of the schedulers of each flow.
    pub flow_places: ahash::AHashMap<u128, usize>,
    /// The scheduler towards each next hop, for each flow.
    pub hop_schedulers: Vec<ahash::AHashMap<u128, usize>>,
    pub next_scheduler: usize,
}

impl Connector {
    /// The scheduler of a flow towards a next hop.
    pub open spec fn scheduler_of(&self, flow_id: FlowId, hop: NodeId) -> Option<usize> {
        let places = numbering::numbered(self.flow_places);
        if places.contains_key(flow_id) && numbering::numbered(
            self.hop_schedulers@[places[flow_id] as int],
        ).contains_key(hop as u128) {
            Some(
                numbering::numbered(self.hop_schedulers@[places[flow_id] as int])[hop as u128],
            )
        } else {
            None
        }
    }

    /// The addresses of nodes.
    pub open spec fn addresses(&self) -> Map<NodeId, Seq<char>> {
        let places = numbering::numbered(self.address_places);
        Map::new(
            |id: NodeId| places.contains_key(id as u128),
            |id: NodeId| self.address_list@[places[id as u128] as int]@,
        )
    }

    /// What the connector knows.
    pub open spec fn links(&self) -> Links {
        Links {
            local_id: self.local_id,
            connected: self.connected,
            addresses: self.addresses(),
            schedulers: Map::new(
                |key: (FlowId, NodeId)| self.scheduler_of(key.0, key.1) is Some,
                |key: (FlowId, NodeId)| self.scheduler_of(key.0, key.1)->0,
            ),
            next_scheduler: self.next_scheduler,
        }
    }

    /// Places lie within their lists and are not shared, and schedulers have numbers of their own.
    pub open spec fn wf(&self) -> bool {
        let addresses = numbering::numbered(self.address_places);
        let flows = numbering::numbered(self.flow_places);
        &&& forall|id: u128| #[trigger]
            addresses.contains_key(id) ==> addresses[id] < self.address_list@.len()
        &&& forall|a: u128, b: u128|
            #[trigger] addresses.contains_key(a) && #[trigger] addresses.contains_key(b)
                && addresses[a] == addresses[b] ==> a == b
        &&& forall|flow_id: FlowId| #[trigger]
            flows.contains_key(flow_id) ==> flows[flow_id] < self.hop_schedulers@.len()
        &&& forall|a: FlowId, b: FlowId|
            #[trigger] flows.contains_key(a) && #[trigger] flows.contains_key(b) && flows[a]
                == flows[b] ==> a == b
        &&& self.links().inv()
    }

    /// A connector without connections.
    pub fn new(local_id: NodeId) -> (connector: Self)
        ensures
            connector.wf(),
            connector.links() == (Links {
                local_id,
                connected: false,
                addresses: Map::empty(),
                schedulers: Map::empty(),
                next_scheduler: 0,
            }),
    {
        let connector = Connector {
            local_id,
            connected: false,
            address_places: numbers_new(),
            address_list: Vec::new(),
            flow_places: numbers_new(),
            hop_schedulers: Vec::new(),
            next_scheduler: 0,
        };
        assert(connector.links() =~= Links {
            local_id,
            connected: false,
            addresses: Map::empty(),
            schedulers: Map::empty(),
            next_scheduler: 0,
        });
        connector
    }

    /// From now on connections can be opened.
    pub fn connect_max_client(&mut self)
        requires
            old(self).wf(),
        ensures
            final(self).wf(),
            final(self).links() == (Links { connected: true, ..old(self).links() }),
    {
        self.connected = true;
        assert(self.links() =~= Links { connected: true, ..old(self).links() });
    }

    /// Takes note of the address of a node.
    pub fn add_node_address(&mut self, node_id: NodeId, address: String)
        requires
            old(self).wf(),
        ensures
            final(self).wf(),
            final(self).links() == (Links {
                addresses: old(self).links().addresses.insert(node_id, address@),
                ..old(self).links()
            }),
    {
        let ghost before = numbering::numbered(self.address_places);
        match numbers_get(&self.address_places, node_id as u128) {
            Some(place) => {
                assert(before.contains_key(node_id as u128));
                self.address_list.set(place, address);
            },
            None => {
                let place: usize = self.address_list.len();
                self.address_list.push(address);
                numbers_insert(&mut self.address_places, node_id as u128, place);
            },
        }
        proof {
            let now = numbering::numbered(self.address_places);
            assert forall|a: u128, b: u128|
                #[trigger] now.contains_key(a) && #[trigger] now.contains_key(b) && now[a]
                    == now[b] implies a == b by {
                assert(a == node_id as u128 || before.contains_key(a));
                assert(b == node_id as u128 || before.contains_key(b));
            }
            assert forall|id: u128| #[trigger] now.contains_key(id) implies now[id]
                < self.address_list@.len() by {
                assert(id == node_id as u128 || before.contains_key(id));
            }
            let expected = old(self).addresses().insert(node_id, address@);
            assert forall|id: NodeId| #[trigger] self.addresses().contains_key(id) implies
                self.addresses()[id] == expected[id] by {
                if id != node_id {
                    assert(before.contains_key(id as u128));
                    assert(now.contains_key(node_id as u128));
                }
            }
            assert(self.addresses() =~= expected);
            assert(self.links().schedulers =~= old(self).links().schedulers);
            assert(self.links() =~= Links {
                addresses: expected,
                ..old(self).links()
            });
        }
    }

    fn find_scheduler(&self, flow_id: FlowId, hop: NodeId) -> (scheduler: Option<usize>)
        requires
            self.wf(),
        ensures
            scheduler == self.scheduler_of(flow_id, hop),
    {
        match numbers_get(&self.flow_places, flow_id) {
            Some(place) => {
                assert(numbering::numbered(self.flow_places).contains_key(flow_id));
                numbers_get(&self.hop_schedulers[place], hop as u128)
            },
            None => None,
        }
    }

    fn find_address(&self, node_id: NodeId) -> (address: Option<String>)
        requires
            self.wf(),
        ensures
            address is Some == self.addresses().contains_key(node_id),
            address matches Some(address) ==> address@ == self.addresses()[node_id],
    {
        match numbers_get(&self.address_places, node_id as u128) {
            Some(place) => {
                assert(numbering::numbered(self.address_places).contains_key(node_id as u128));
                Some(self.address_list[place].clone())
            },
            None => None,
        }
    }

    /// Gives a flow a new scheduler towards a next hop.
    fn add_scheduler(&mut self, flow_id: FlowId, hop: NodeId) -> (scheduler: usize)
        requires
            old(self).wf(),
            old(self).next_scheduler < usize::MAX,
        ensures
            final(self).wf(),
            final(self).links() == old(self).links().with_scheduler(flow_id, hop),
            scheduler == old(self).next_scheduler,
    {
        let scheduler: usize = self.next_scheduler;
        self.next_scheduler = self.next_scheduler + 1;
        let ghost before = numbering::numbered(self.flow_places);
        let known = numbers_get(&self.flow_places, flow_id);
        match known {
            Some(place) => {
                assert(before.contains_key(flow_id));
                let mut hops = numbers_new();
                std::mem::swap(&mut hops, &mut self.hop_schedulers[place]);
                numbers_insert(&mut hops, hop as u128, scheduler);
                std::mem::swap(&mut hops, &mut self.hop_schedulers[place]);
            },
            None => {
                let mut hops = numbers_new();
                numbers_insert(&mut hops, hop as u128, scheduler);
                let place: usize = self.hop_schedulers.len();
                self.hop_schedulers.push(hops);
                numbers_insert(&mut self.flow_places, flow_id, place);
            },
        }
        proof {
            let flows = numbering::numbered(self.flow_places);
            assert forall|f: FlowId| #[trigger] flows.contains_key(f) implies flows[f]
                < self.hop_schedulers@.len() by {
                assert(f == flow_id || before.contains_key(f));
            }
            assert forall|a: FlowId, b: FlowId|
                #[trigger] flows.contains_key(a) && #[trigger] flows.contains_key(b) && flows[a]
                    == flows[b] implies a == b by {
                assert(a == flow_id || before.contains_key(a));
                assert(b == flow_id || before.contains_key(b));
            }
            let expected = old(self).links().with_scheduler(flow_id, hop);
            assert forall|f: FlowId, h: NodeId|
                #[trigger] self.scheduler_of(f, h) == if f == flow_id && h == hop {
                    Some(scheduler)
                } else {
                    old(self).scheduler_of(f, h)
                } by {
                if f != flow_id && before.contains_key(f) {
                    assert(flows[f] == before[f]);
                    assert(self.hop_schedulers@[flows[f] as int]
                        == old(self).hop_schedulers@[before[f] as int]);
                }
            }
            assert(self.links().schedulers =~= expected.schedulers);
            assert(self.links().addresses =~= expected.addresses);
            assert(self.links() =~= expected);
            lemma_inv_kept(old(self).links(), flow_id, hop);
        }
        scheduler
    }

    fn forward(&mut self, flow_id: FlowId, hop: NodeId) -> (action: Option<Forward>)
        requires
            old(self).wf(),
            old(self).next_scheduler < usize::MAX,
        ensures
            final(self).wf(),
            final(self).next_scheduler <= old(self).next_scheduler + 1,
            final(self).links() == old(self).links().after(flow_id, hop),
            (match action {
                Some(action) => Some(action@),
                None => None,
            }) == old(self).links().forward_to(flow_id, hop),
    {
        if hop == self.local_id {
            return None;
        }
        if let Some(scheduler) = self.find_scheduler(flow_id, hop) {
            return Some(Forward::Send { next_hop_id: hop, scheduler });
        }
        let remote_addr = match self.find_address(hop) {
            Some(remote_addr) => remote_addr,
            None => {
                return Some(Forward::NoAddress { next_hop_id: hop });
            },
        };
        if !self.connected {
            return Some(Forward::NotConnected { next_hop_id: hop });
        }
        let scheduler: usize = self.add_scheduler(flow_id, hop);
        Some(Forward::Connect { next_hop_id: hop, remote_addr, scheduler })
    }

    /// Decides what is done with a packet at the source of a flow, whose next hops are known. Each
    /// next hop gets a copy; what is for the node itself is left to the processor.
    pub fn process_packet(&mut self, flow_id: FlowId, next_hops: &Vec<NodeId>) -> (actions: Vec<
        Forward,
    >)
        requires
            old(self).wf(),
            old(self).next_scheduler + next_hops@.len() <= usize::MAX,
        ensures
            final(self).wf(),
            final(self).links() == old(self).links().after_all(flow_id, next_hops@),
            forward_views(actions@) == old(self).links().forwards(flow_id, next_hops@),
    {
        let mut actions: Vec<Forward> = Vec::new();
        let mut i: usize = 0;
        assert(next_hops@.take(0) =~= Seq::<NodeId>::empty());
        assert(forward_views(actions@) =~= Seq::<ForwardView>::empty());
        while i < next_hops.len()
            invariant
                i <= next_hops.len(),
                self.wf(),
                self.next_scheduler <= old(self).next_scheduler + i,
                old(self).next_scheduler + next_hops@.len() <= usize::MAX,
                self.links() == old(self).links().after_all(flow_id, next_hops@.take(i as int)),
                forward_views(actions@) == old(self).links().forwards(
                    flow_id,
                    next_hops@.take(i as int),
                ),
            decreases next_hops.len() - i,
        {
            assert(next_hops@.take(i + 1).drop_last() =~= next_hops@.take(i as int));
            let ghost earlier = actions@;
            if let Some(action) = self.forward(flow_id, next_hops[i]) {
                actions.push(action);
                assert(forward_views(actions@) =~= forward_views(earlier).push(action@));
            }
            i = i + 1;
        }
        assert(next_hops@.take(i as int) =~= next_hops@);
        actions
    }

    /// Decides what is done with an inbound connection of a flow, as its destination or as a relay.
    /// `src_node_id` is the node at which the flow starts.
    pub fn handle_inbound_request(
        &mut self,
        flow_id: FlowId,
        next_hop_id: NodeId,
        src_node_id: NodeId,
    ) -> (inbound: Inbound)
        requires
            old(self).wf(),
            old(self).connected,
            old(self).next_scheduler < usize::MAX,
        ensures
            final(self).wf(),
            next_hop_id == old(self).local_id ==> {
                &&& inbound matches Inbound::Deliver { scheduler } && scheduler
                    == old(self).next_scheduler
                &&& final(self).links() == old(self).links().with_scheduler(
                    node::flow_reverse(flow_id),
                    src_node_id,
                )
            },
            next_hop_id != old(self).local_id ==> {
                let known = old(self).links().addresses.contains_key(next_hop_id);
                &&& inbound matches Inbound::Relay { addr, with_header } && with_header == known
                    && addr@ == if known {
                    old(self).links().addresses[next_hop_id]
                } else {
                    external_address(flow_id)
                }
                &&& final(self).links() == old(self).links()
            },
    {
        if next_hop_id == self.local_id {
            let scheduler: usize = self.add_scheduler(flow_id.reverse(), src_node_id);
            return Inbound::Deliver { scheduler };
        }
        match self.find_address(next_hop_id) {
            Some(addr) => Inbound::Relay { addr, with_header: true },
            None => {
                let mut addr = ipv4_to_string(flow_id.dst_ip());
                addr.append(":");
                append_decimal(&mut addr, flow_id.dst_port() as u128);
                proof {
                    reveal_strlit(":");
                    assert(addr@ =~= external_address(flow_id));
                }
                Inbound::Relay { addr, with_header: false }
            },
        }
    }
}

/// The address of the destination of a flow, with its port.
pub open spec fn external_address(flow_id: FlowId) -> Seq<char> {
    text::dotted(node::flow_dst(flow_id)) + seq![':'] + text::decimal(
        node::flow_dst_port(flow_id) as nat,
    )
}

/// The next hop that an action is for.
pub open spec fn hop_of(action: ForwardView) -> NodeId {
    match action {
        ForwardView::Send { next_hop_id, scheduler } => next_hop_id,
        ForwardView::Connect { next_hop_id, remote_addr, scheduler } => next_hop_id,
        ForwardView::NoAddress { next_hop_id } => next_hop_id,
        ForwardView::NotConnected { next_hop_id } => next_hop_id,
    }
}

/// Every next hop of a packet is served, in order, but for the node itself.
pub proof fn law_every_next_hop_is_served(links: Links, flow_id: FlowId, hops: Seq<NodeId>)
    ensures
        links.forwards(flow_id, hops).map_values(|action: ForwardView| hop_of(action))
            == hops.filter(|hop: NodeId| hop != links.local_id),
        links.after_all(flow_id, hops).local_id == links.local_id,
        links.after_all(flow_id, hops).addresses == links.addresses,
        links.after_all(flow_id, hops).connected == links.connected,
    decreases hops.len(),
{
    reveal(Seq::filter);
    let served = |action: ForwardView| hop_of(action);
    let all = links.forwards(flow_id, hops);
    if hops.len() > 0 {
        law_every_next_hop_is_served(links, flow_id, hops.drop_last());
        let earlier = links.forwards(flow_id, hops.drop_last());
        if hops.last() != links.local_id {
            let action = links.after_all(flow_id, hops.drop_last()).forward_to(
                flow_id,
                hops.last(),
            )->0;
            assert(all =~= earlier.push(action));
            assert(all.map_values(served) =~= earlier.map_values(served).push(hops.last()));
        }
    } else {
        assert(all.map_values(served) =~= Seq::empty());
    }
}

/// A packet for a next hop goes to the scheduler that its flow has for that next hop. Without one, a
/// connection to the known address of the next hop is opened, and given the next number. Without an
/// address, or without the means to connect, the packet is dropped.
pub proof fn law_next_hop_is_served_over_its_connection(
    links: Links,
    flow_id: FlowId,
    hop: NodeId,
)
    requires
        hop != links.local_id,
    ensures
        ({
            let action = links.forward_to(flow_id, hop);
            let known = links.schedulers.contains_key((flow_id, hop));
            let addressed = links.addresses.contains_key(hop);
            &&& known ==> action == Some(
                ForwardView::Send {
                    next_hop_id: hop,
                    scheduler: links.schedulers[(flow_id, hop)],
                },
            )
            &&& !known && !addressed ==> action == Some(ForwardView::NoAddress { next_hop_id: hop })
            &&& !known && addressed && !links.connected ==> action == Some(
                ForwardView::NotConnected { next_hop_id: hop },
            )
            &&& !known && addressed && links.connected ==> action == Some(
                ForwardView::Connect {
                    next_hop_id: hop,
                    remote_addr: links.addresses[hop],
                    scheduler: links.next_scheduler,
                },
            )
        }),
{
}

/// Opening a connection takes note of its scheduler for that flow and next hop and for no other, and
/// uses up its number; a packet that opens none changes nothing.
pub proof fn law_new_connections_are_remembered(
    links: Links,
    flow_id: FlowId,
    hop: NodeId,
    other: (FlowId, NodeId),
)
    requires
        links.next_scheduler < usize::MAX,
    ensures
        ({
            let opens = hop != links.local_id && !links.schedulers.contains_key((flow_id, hop))
                && links.addresses.contains_key(hop) && links.connected;
            let later = links.after(flow_id, hop);
            &&& !opens ==> later == links
            &&& opens ==> later == links.with_scheduler(flow_id, hop)
        }),
        ({
            let later = links.with_scheduler(flow_id, hop);
            &&& later.schedulers.contains_key((flow_id, hop))
            &&& later.schedulers[(flow_id, hop)] == links.next_scheduler
            &&& later.next_scheduler == links.next_scheduler + 1
            &&& other != (flow_id, hop) ==> later.schedulers.contains_key(other)
                == links.schedulers.contains_key(other) && later.schedulers[other]
                == links.schedulers[other]
            &&& later.addresses == links.addresses
            &&& later.connected == links.connected
            &&& later.local_id == links.local_id
        }),
{
}

/// An external server is reached at the destination address and port of the flow.
pub proof fn law_external_server_is_the_destination(
    src_ip: u32,
    dst_ip: u32,
    src_port: u16,
    dst_port: u16,
)
    ensures
        external_address(node::flow_id_of(src_ip, dst_ip, src_port, dst_port)) == text::dotted(
            dst_ip,
        ) + ":"@ + text::decimal(dst_port as nat),
{
    node::law_flow_id_parts(src_ip, dst_ip, src_port, dst_port);
    reveal_strlit(":");
    assert(":"@ =~= seq![':']);
}

/// What is said of actions is said of the actions themselves, each at its place.
pub proof fn law_actions_stand_for_themselves(actions: Seq<Forward>, i: int)
    requires
        0 <= i < actions.len(),
    ensures
        forward_views(actions).len() == actions.len(),
        forward_views(actions)[i] == actions[i]@,
        actions[i]@ matches ForwardView::Send { next_hop_id, scheduler } ==> actions[i]
            == (Forward::Send { next_hop_id, scheduler }),
        actions[i]@ matches ForwardView::Connect { next_hop_id, remote_addr, scheduler } ==> (
        actions[i] matches Forward::Connect { next_hop_id: hop, remote_addr: addr, scheduler: s }
            && hop == next_hop_id && addr@ == remote_addr && s == scheduler),
        actions[i]@ matches ForwardView::NoAddress { next_hop_id } ==> actions[i]
            == (Forward::NoAddress { next_hop_id }),
        actions[i]@ matches ForwardView::NotConnected { next_hop_id } ==> actions[i]
            == (Forward::NotConnected { next_hop_id }),
{
}

} // verus!
