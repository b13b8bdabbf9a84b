//! The receiving side of user-space TCP flows.

use vstd::prelude::*;

use crate::messages::{Flow, FlowSpec};
use crate::node::config::LocalConfig;
use crate::node::{self, FlowId, FlowIdExt, NodeIdExt};
use crate::numbering::{self, numbers_get, numbers_insert, numbers_new};

verus! {

/// From this rate on (bytes per second) a server polls without a pause.
pub const BUSY_POLL_RATE: usize = 200_000_000;

/// How a packet reaches the server of its flow.
#[derive(Clone, Copy, Debug, PartialEq, Eq, Structural)]
pub enum ServerAction {
    /// The flow has a server, which receives through the channel with this number.
    Existing { sender: usize },
    /// A server is to start, which listens on a port and receives through the new channel.
    Start { sender: usize, flow_rate: Option<usize>, listen_port: u16 },
}

/// Hands out servers to the flows that end at a node. Channels are known by number.
pub struct UserSpaceServerHandle {
    pub config: LocalConfig,
    /// The place of the specification for each source address.
    pub spec_places: ahash::AHashMap<u128, usize>,
    pub specs: Vec<FlowSpec>,
    /// The channel of each flow that has a server.
    pub packet_senders: ahash::AHashMap<u128, usize>,
}

impl UserSpaceServerHandle {
    /// The specification that is stored for a source address.
    pub open spec fn flow_spec(&self, src_ip: u32) -> Option<FlowSpec> {
        if numbering::numbered(self.spec_places).contains_key(src_ip as u128) {
            Some(self.specs@[numbering::numbered(self.spec_places)[src_ip as u128] as int])
        } else {
            None
        }
    }

    /// The channel of each flow that has a server.
    pub open spec fn senders(&self) -> Map<FlowId, usize> {
        numbering::numbered(self.packet_senders)
    }

    /// Every source address has a place of its own among the specifications.
    pub open spec fn wf(&self) -> bool {
        let places = numbering::numbered(self.spec_places);
        &&& forall|ip: u128| #[trigger] places.contains_key(ip) ==> places[ip] < self.specs@.len()
        &&& forall|a: u128, b: u128|
            #[trigger] places.contains_key(a) && #[trigger] places.contains_key(b) && places[a]
                == places[b] ==> a == b
    }

    /// The rate that is stored for the source of a flow.
    pub open spec fn rate_of(&self, flow_id: FlowId) -> Option<usize> {
        match self.flow_spec(node::flow_src(flow_id)) {
            Some(spec) => spec.flow_rate,
            None => None,
        }
    }

    /// No flow is known.
    pub fn new(config: LocalConfig) -> (handle: Self)
        ensures
            handle.wf(),
            handle.config == config,
            handle.senders() == Map::<FlowId, usize>::empty(),
            forall|src_ip: u32| #[trigger] handle.flow_spec(src_ip) is None,
    {
        UserSpaceServerHandle {
            config,
            spec_places: numbers_new(),
            specs: Vec::new(),
            packet_senders: numbers_new(),
        }
    }

    /// Stores the specification of a flow under the address of its source, for the server that a
    /// connection from there will be given.
    pub fn store_flow_spec(&mut self, flow: Flow)
        requires
            old(self).wf(),
            flow.src_node_id.fits_network(
                old(self).config.user_space_base_addr,
                old(self).config.local_netmask,
            ),
        ensures
            final(self).wf(),
            final(self).config == old(self).config,
            final(self).senders() == old(self).senders(),
            forall|src_ip: u32| #[trigger]
                final(self).flow_spec(src_ip) == if src_ip == flow.src_node_id.offset_addr(
                    old(self).config.user_space_base_addr,
                ).bits {
                    Some(flow.flow_spec)
                } else {
                    old(self).flow_spec(src_ip)
                },
    {
        let src_ip = flow.src_node_id.ip_addr(
            self.config.user_space_base_addr,
            self.config.local_netmask,
        );
        let ghost before = numbering::numbered(self.spec_places);
        match numbers_get(&self.spec_places, src_ip.bits as u128) {
            Some(place) => {
                assert(before.contains_key(src_ip.bits as u128));
                self.specs.set(place, flow.flow_spec);
            },
            None => {
                let place: usize = self.specs.len();
                self.specs.push(flow.flow_spec);
                numbers_insert(&mut self.spec_places, src_ip.bits as u128, place);
            },
        }
        proof {
            let places = numbering::numbered(self.spec_places);
            assert forall|ip: u128| #[trigger] places.contains_key(ip) implies places[ip]
                < self.specs@.len() by {
                assert(ip == src_ip.bits as u128 || before.contains_key(ip));
            }
            assert forall|a: u128, b: u128|
                #[trigger] places.contains_key(a) && #[trigger] places.contains_key(b) && places[a]
                    == places[b] implies a == b by {
                assert(a == src_ip.bits as u128 || before.contains_key(a));
                assert(b == src_ip.bits as u128 || before.contains_key(b));
            }
            assert forall|other: u32| #[trigger]
                self.flow_spec(other) == if other == src_ip.bits {
                    Some(flow.flow_spec)
                } else {
                    old(self).flow_spec(other)
                } by {
                if other != src_ip.bits && before.contains_key(other as u128) {
                    assert(before[other as u128] < old(self).specs@.len());
                    assert(places.contains_key(src_ip.bits as u128));
                    assert(places.contains_key(other as u128));
                }
            }
        }
    }

    /// The specification that is stored for a source address.
    pub fn stored_flow_spec(&self, src_ip: u32) -> (spec: Option<FlowSpec>)
        requires
            self.wf(),
        ensures
            spec == self.flow_spec(src_ip),
    {
        match numbers_get(&self.spec_places, src_ip as u128) {
            Some(place) => {
                assert(numbering::numbered(self.spec_places).contains_key(src_ip as u128));
                Some(self.specs[place])
            },
            None => None,
        }
    }

    /// Gives a flow its server. Only the first request for a flow starts one, which receives
    /// through the channel `new_sender`.
    pub fn add_server(&mut self, flow_id: FlowId, new_sender: usize) -> (action: ServerAction)
        requires
            old(self).wf(),
        ensures
            final(self).wf(),
            final(self).config == old(self).config,
            forall|src_ip: u32| #[trigger]
                final(self).flow_spec(src_ip) == old(self).flow_spec(src_ip),
            old(self).senders().contains_key(flow_id) ==> {
                &&& action == ServerAction::Existing { sender: old(self).senders()[flow_id] }
                &&& final(self).senders() == old(self).senders()
            },
            !old(self).senders().contains_key(flow_id) ==> {
                &&& action == ServerAction::Start {
                    sender: new_sender,
                    flow_rate: old(self).rate_of(flow_id),
                    listen_port: node::flow_dst_port(flow_id),
                }
                &&& final(self).senders() == old(self).senders().insert(flow_id, new_sender)
            },
    {
        match numbers_get(&self.packet_senders, flow_id) {
            Some(sender) => ServerAction::Existing { sender },
            None => {
                numbers_insert(&mut self.packet_senders, flow_id, new_sender);
                let flow_rate: Option<usize> = match self.stored_flow_spec(flow_id.src_ip().bits) {
                    Some(spec) => spec.flow_rate,
                    None => None,
                };
                ServerAction::Start {
                    sender: new_sender,
                    flow_rate,
                    listen_port: flow_id.dst_port(),
                }
            },
        }
    }
}

/// Whether a server pauses before it polls again: at low rates, when nothing has arrived.
pub fn should_pause(flow_rate: Option<usize>, nothing_arrived: bool) -> (pause: bool)
    ensures
        pause == (nothing_arrived && (flow_rate matches Some(rate) && rate < BUSY_POLL_RATE)),
        pause ==> (flow_rate matches Some(rate) && rate < 200_000_000),
        nothing_arrived && (flow_rate matches Some(rate) && rate < 200_000_000) ==> pause,
{
    match flow_rate {
        Some(rate) => rate < BUSY_POLL_RATE && nothing_arrived,
        None => false,
    }
}

/// A server is given the rate that was stored for the source of its flow, and none where nothing was
/// stored.
pub proof fn law_server_has_the_rate_of_its_source(
    handle: UserSpaceServerHandle,
    src_ip: u32,
    dst_ip: u32,
    src_port: u16,
    dst_port: u16,
)
    ensures
        handle.rate_of(node::flow_id_of(src_ip, dst_ip, src_port, dst_port)) == match handle.flow_spec(
            src_ip,
        ) {
            Some(spec) => spec.flow_rate,
            None => None,
        },
{
    node::law_flow_id_parts(src_ip, dst_ip, src_port, dst_port);
}

/// A specification that is stored for a source stands at the place of that source.
pub proof fn law_stored_specifications_are_found(handle: UserSpaceServerHandle, src_ip: u32)
    requires
        handle.wf(),
    ensures
        ({
            let places = numbering::numbered(handle.spec_places);
            &&& places.contains_key(src_ip as u128) ==> handle.flow_spec(src_ip) == Some(
                handle.specs@[places[src_ip as u128] as int],
            )
            &&& !places.contains_key(src_ip as u128) ==> handle.flow_spec(src_ip) is None
        }),
{
}

} // verus!
