//! Measures the links to other nodes with probe packets.
//!
//! In every round a node sends probes to its peers, which echo them. `ProbeService` keeps the books:
//! which probes are on their way, which came back after what time, and what is reported at the end
//! of the round.

use std::collections::HashMap;

use vstd::prelude::*;
use vstd::slice::slice_subrange;

use crate::net::{self, push_be32, push_be64, read_be32, read_be64};
use crate::node::NodeId;
use crate::numbering::{self, numbers_get, numbers_insert, numbers_new};
use crate::text::{self, append_decimal, find_last_char};

verus! {

broadcast use vstd::std_specs::hash::group_hash_axioms;

/// The first byte of a probe packet.
pub const PROBE_MAGIC_FIRST: u8 = 0x4E;

/// The second byte of a probe packet.
pub const PROBE_MAGIC_SECOND: u8 = 0x50;

/// The length of the header of a probe packet.
pub const PROBE_HEADER_LEN: usize = 14;

/// The bytes of data in a packet of a throughput burst.
pub const BURST_DATA_LEN: usize = 1200;

/// The bytes of a probe packet: two letters, the node that sent it, its number, and data.
pub open spec fn probe_packet(node_id: u32, seq: u64, data: Seq<u8>) -> Seq<u8> {
    seq![PROBE_MAGIC_FIRST, PROBE_MAGIC_SECOND] + net::be32_bytes(node_id) + net::be64_bytes(seq)
        + data
}

/// The node and the number in a probe packet; nothing where the bytes are no probe packet.
pub open spec fn probe_header(packet: Seq<u8>) -> Option<(u32, u64)> {
    if packet.len() < PROBE_HEADER_LEN || packet[0] != PROBE_MAGIC_FIRST || packet[1]
        != PROBE_MAGIC_SECOND {
        None
    } else {
        Some(
            (
                net::be32(packet[2], packet[3], packet[4], packet[5]),
                net::be64(packet.subrange(6, 14)),
            ),
        )
    }
}

/// A node recognizes the probes that it sent: their node and number can be read back.
pub proof fn law_probe_header_round_trip(node_id: u32, seq: u64, data: Seq<u8>)
    ensures
        probe_header(probe_packet(node_id, seq, data)) == Some((node_id, seq)),
{
    let packet = probe_packet(node_id, seq, data);
    net::lemma_be32_round_trip(node_id);
    net::lemma_be64_round_trip(seq);
    assert(packet.subrange(2, 6) =~= net::be32_bytes(node_id));
    assert(packet[2] == packet.subrange(2, 6)[0] && packet[3] == packet.subrange(2, 6)[1]
        && packet[4] == packet.subrange(2, 6)[2] && packet[5] == packet.subrange(2, 6)[3]);
    assert(packet.subrange(6, 14) =~= net::be64_bytes(seq));
}

/// The address at which a peer answers probes: its host, and the probe port.
pub open spec fn probe_address(addr: Seq<char>, probe_port: u16) -> Option<Seq<char>> {
    match text::last_place(addr, ':') {
        Some(at) => Some(addr.take(at) + seq![':'] + text::decimal(probe_port as nat)),
        None => None,
    }
}

/// A peer.
#[derive(Debug)]
pub struct Peer {
    pub node_id: NodeId,
    pub addr: String,
}

/// What the books of a round hold.
#[verifier::ext_equal]
pub struct Round {
    /// The probes on their way: to which peer, and when they were sent.
    pub pending: Map<u64, (NodeId, u64)>,
    /// The round-trip times of each peer in nanoseconds, in the order in which they came in.
    pub rtts: Map<NodeId, Seq<u64>>,
    /// The probes sent to each peer.
    pub sent: Map<NodeId, u32>,
    /// The bytes sent to each peer.
    pub sent_bytes: Map<NodeId, usize>,
    /// The bytes of probes that each peer echoed.
    pub recv_bytes: Map<NodeId, usize>,
}

/// What a map holds under a key, or nothing.
pub open spec fn count_of(counts: Map<NodeId, usize>, peer_id: NodeId) -> usize {
    if counts.contains_key(peer_id) {
        counts[peer_id]
    } else {
        0
    }
}

/// The round-trip times of a peer.
pub open spec fn rtts_of(rtts: Map<NodeId, Seq<u64>>, peer_id: NodeId) -> Seq<u64> {
    if rtts.contains_key(peer_id) {
        rtts[peer_id]
    } else {
        Seq::empty()
    }
}

/// The probes sent to a peer.
pub open spec fn probes_of(sent: Map<NodeId, u32>, peer_id: NodeId) -> u32 {
    if sent.contains_key(peer_id) {
        sent[peer_id]
    } else {
        0
    }
}

impl Round {
    /// Nothing was sent.
    pub open spec fn empty() -> Round {
        Round {
            pending: Map::empty(),
            rtts: Map::empty(),
            sent: Map::empty(),
            sent_bytes: Map::empty(),
            recv_bytes: Map::empty(),
        }
    }

    /// A probe leaves for a peer.
    pub open spec fn probe(self, peer_id: NodeId, seq: u64, now: u64) -> Round {
        Round {
            pending: self.pending.insert(seq, (peer_id, now)),
            sent: self.sent.insert(peer_id, (probes_of(self.sent, peer_id) + 1) as u32),
            ..self
        }
    }

    /// A number of bytes was sent to a peer.
    pub open spec fn bytes_sent(self, peer_id: NodeId, bytes: usize) -> Round {
        Round {
            sent_bytes: self.sent_bytes.insert(
                peer_id,
                (count_of(self.sent_bytes, peer_id) + bytes) as usize,
            ),
            ..self
        }
    }

    /// A probe of this node came back. One that is not on its way does not count.
    pub open spec fn returned(self, seq: u64, len: usize, now: u64) -> Round {
        if self.pending.contains_key(seq) {
            let (peer_id, sent_at) = self.pending[seq];
            Round {
                pending: self.pending.remove(seq),
                rtts: self.rtts.insert(
                    peer_id,
                    rtts_of(self.rtts, peer_id).push(
                        if now >= sent_at {
                            (now - sent_at) as u64
                        } else {
                            0
                        },
                    ),
                ),
                recv_bytes: self.recv_bytes.insert(
                    peer_id,
                    (count_of(self.recv_bytes, peer_id) + len) as usize,
                ),
                ..self
            }
        } else {
            self
        }
    }
}

/// A probe counts once, however often its echo comes in.
pub proof fn law_an_echo_counts_once(round: Round, seq: u64, len: usize, now: u64, later: u64)
    ensures
        round.returned(seq, len, now).returned(seq, len, later) == round.returned(seq, len, now),
{
}

/// A probe that a peer echoes is booked to that peer, with the time it took.
pub proof fn law_an_echo_is_booked(round: Round, peer_id: NodeId, seq: u64, len: usize, sent_at: u64, now: u64)
    requires
        sent_at <= now,
    ensures
        rtts_of(round.probe(peer_id, seq, sent_at).returned(seq, len, now).rtts, peer_id)
            == rtts_of(round.rtts, peer_id).push((now - sent_at) as u64),
{
}

/// What a round tells of the link to a peer.
#[derive(Debug)]
pub struct LinkProbe {
    pub dst_node_id: NodeId,
    /// The probes that were sent.
    pub samples: u32,
    /// The probes that did not come back.
    pub lost: u32,
    /// The round-trip times in nanoseconds.
    pub rtts: Vec<u64>,
    /// The bytes that the peer echoed, where throughput can be told from them.
    pub echoed_bytes: Option<usize>,
}

impl LinkProbe {
    /// Whether this is what a round tells of the link to a peer.
    pub open spec fn tells(&self, round: Round, peer_id: NodeId) -> bool {
        let received = rtts_of(round.rtts, peer_id).len();
        &&& self.dst_node_id == peer_id
        &&& self.samples == round.sent[peer_id]
        &&& self.lost == if received <= self.samples {
            self.samples - received
        } else {
            0
        }
        &&& self.rtts@ == rtts_of(round.rtts, peer_id)
        &&& self.echoed_bytes == if count_of(round.sent_bytes, peer_id) > 0 && received > 0
            && round.recv_bytes.contains_key(peer_id) {
            Some(round.recv_bytes[peer_id])
        } else {
            None
        }
    }
}

/// Whether results tell of every peer that was sent probes, once each, in some order.
pub open spec fn results_of(round: Round, results: Seq<LinkProbe>) -> bool {
    exists|order: Seq<NodeId>| #[trigger] results_in_order(round, results, order)
}

/// Whether results tell of every peer that was sent probes, in an order.
pub open spec fn results_in_order(round: Round, results: Seq<LinkProbe>, order: Seq<NodeId>) -> bool {
    &&& order.no_duplicates()
    &&& order.to_set() == round.sent.dom()
    &&& results.len() == order.len()
    &&& forall|i: int| 0 <= i < results.len() ==> (#[trigger] results[i]).tells(round, order[i])
}

/// What is done about a packet that came in.
#[derive(Clone, Copy, Debug, PartialEq, Eq, Structural)]
pub enum PacketAnswer {
    /// The packet is no probe, or an echo that was booked.
    Nothing,
    /// The packet goes back to where it came from.
    Echo,
}

/// Where a probe of a round goes.
#[derive(Debug)]
pub struct Target {
    pub node_id: NodeId,
    /// Host and port.
    pub addr: String,
}

/// Keeps the books of the probes between this node and its peers.
pub struct ProbeService {
    pub local_node_id: NodeId,
    pub probe_port: u16,
    pub enable_probe_rtt: bool,
    pub enable_probe_throughput: bool,
    /// The place of each peer in the list.
    pub places: ahash::AHashMap<u128, usize>,
    pub peers: Vec<Peer>,
    pub pending: HashMap<u64, (NodeId, u64)>,
    pub rtts: HashMap<NodeId, Vec<u64>>,
    pub sent: HashMap<NodeId, u32>,
    pub sent_bytes: HashMap<NodeId, usize>,
    pub recv_bytes: HashMap<NodeId, usize>,
    pub seq: u64,
}

/// The number after a number: numbers run on from 1, and 0 is never one.
pub open spec fn seq_after(seq: u64) -> u64 {
    if seq == u64::MAX {
        1
    } else {
        (seq + 1) as u64
    }
}

/// Adds to what is counted for a peer.
fn add_count(counts: &mut HashMap<NodeId, usize>, peer_id: NodeId, more: usize)
    requires
        count_of(old(counts)@, peer_id) + more <= usize::MAX,
    ensures
        final(counts)@ == old(counts)@.insert(
            peer_id,
            (count_of(old(counts)@, peer_id) + more) as usize,
        ),
{
    let known: usize = match counts.get(&peer_id) {
        Some(known) => *known,
        None => 0,
    };
    counts.insert(peer_id, known + more);
}

/// The keys of a count of probes, in some order.
fn probed_peers(sent: &HashMap<NodeId, u32>) -> (list: Vec<NodeId>)
    ensures
        list@.no_duplicates(),
        list@.to_set() == sent@.dom(),
{
    let mut list: Vec<NodeId> = Vec::new();
    let keys = sent.keys();
    let ghost all = vstd::std_specs::iter::IteratorSpec::remaining(&keys).unref();
    for peer_id in iter: keys
        invariant
            iter.seq().unref() == all,
            list@ == all.take(iter.index()),
    {
        list.push(*peer_id);
        assert(list@ =~= all.take(iter.index() + 1));
    }
    assert(list@ =~= all);
    list
}

impl ProbeService {
    /// The books of the round.
    pub open spec fn round(&self) -> Round {
        Round {
            pending: self.pending@,
            rtts: self.rtts@.map_values(|times: Vec<u64>| times@),
            sent: self.sent@,
            sent_bytes: self.sent_bytes@,
            recv_bytes: self.recv_bytes@,
        }
    }

    /// The address that a peer was registered with.
    pub open spec fn address_of(&self, node_id: NodeId) -> Option<Seq<char>> {
        if numbering::numbered(self.places).contains_key(node_id as u128) {
            Some(
                self.peers@[numbering::numbered(self.places)[node_id as u128] as int].addr@,
            )
        } else {
            None
        }
    }

    /// Every peer stands in the list once, at its place, and packet numbers are not 0.
    pub open spec fn wf(&self) -> bool {
        let places = numbering::numbered(self.places);
        &&& self.seq > 0
        &&& forall|id: u128| #[trigger]
            places.contains_key(id) ==> places[id] < self.peers@.len()
                && self.peers@[places[id] as int].node_id == id
        &&& forall|i: int|
            0 <= i < self.peers@.len() ==> places.contains_key(
                (#[trigger] self.peers@[i]).node_id as u128,
            ) && places[self.peers@[i].node_id as u128] == i
    }

    /// All but the books of the round is the same.
    pub open spec fn same_setup(&self, other: &ProbeService) -> bool {
        &&& self.local_node_id == other.local_node_id
        &&& self.probe_port == other.probe_port
        &&& self.enable_probe_rtt == other.enable_probe_rtt
        &&& self.enable_probe_throughput == other.enable_probe_throughput
        &&& self.places == other.places
        &&& self.peers == other.peers
    }

    /// A service without peers.
    pub fn new(
        local_node_id: NodeId,
        probe_port: u16,
        enable_probe_rtt: bool,
        enable_probe_throughput: bool,
    ) -> (service: Self)
        ensures
            service.wf(),
            service.local_node_id == local_node_id,
            service.probe_port == probe_port,
            service.enable_probe_rtt == enable_probe_rtt,
            service.enable_probe_throughput == enable_probe_throughput,
            service.peers@.len() == 0,
            forall|id: NodeId| #[trigger] service.address_of(id) is None,
            service.round() == Round::empty(),
            service.seq == 1,
    {
        let service = ProbeService {
            local_node_id,
            probe_port,
            enable_probe_rtt,
            enable_probe_throughput,
            places: numbers_new(),
            peers: Vec::new(),
            pending: HashMap::new(),
            rtts: HashMap::new(),
            sent: HashMap::new(),
            sent_bytes: HashMap::new(),
            recv_bytes: HashMap::new(),
            seq: 1,
        };
        assert(service.round() =~= Round::empty());
        service
    }

    /// Registers a peer, or its new address.
    pub fn register_peer(&mut self, node_id: NodeId, addr: String)
        requires
            old(self).wf(),
        ensures
            final(self).wf(),
            final(self).round() == old(self).round(),
            final(self).seq == old(self).seq,
            final(self).local_node_id == old(self).local_node_id,
            final(self).probe_port == old(self).probe_port,
            final(self).enable_probe_rtt == old(self).enable_probe_rtt,
            final(self).enable_probe_throughput == old(self).enable_probe_throughput,
            forall|id: NodeId| #[trigger]
                final(self).address_of(id) == if id == node_id {
                    Some(addr@)
                } else {
                    old(self).address_of(id)
                },
    {
        let ghost places = numbering::numbered(self.places);
        match numbers_get(&self.places, node_id as u128) {
            Some(place) => {
                assert(places.contains_key(node_id as u128));
                self.peers.set(place, Peer { node_id, addr });
                assert forall|id: NodeId| #[trigger]
                    self.address_of(id) == if id == node_id {
                        Some(addr@)
                    } else {
                        old(self).address_of(id)
                    } by {
                    if id != node_id && places.contains_key(id as u128) {
                        assert(old(self).peers@[places[id as u128] as int].node_id == id);
                    }
                }
            },
            None => {
                let place: usize = self.peers.len();
                self.peers.push(Peer { node_id, addr });
                numbers_insert(&mut self.places, node_id as u128, place);
                let ghost now = numbering::numbered(self.places);
                assert forall|id: u128| #[trigger] now.contains_key(id) implies now[id]
                    < self.peers@.len() && self.peers@[now[id] as int].node_id == id by {
                    assert(id == node_id as u128 || places.contains_key(id));
                }
                assert forall|i: int| 0 <= i < self.peers@.len() implies now.contains_key(
                    (#[trigger] self.peers@[i]).node_id as u128,
                ) && now[self.peers@[i].node_id as u128] == i by {
                    if i < place {
                        assert(self.peers@[i] == old(self).peers@[i]);
                        assert(places.contains_key(old(self).peers@[i].node_id as u128));
                    }
                }
                assert forall|id: NodeId| #[trigger]
                    self.address_of(id) == if id == node_id {
                        Some(addr@)
                    } else {
                        old(self).address_of(id)
                    } by {
                    if id != node_id && places.contains_key(id as u128) {
                        assert(places[id as u128] < old(self).peers@.len());
                    }
                }
            },
        }
    }

    /// The address at which a peer answers probes.
    pub fn addr_with_probe_port(&self, addr: &str) -> (dest: Option<String>)
        ensures
            dest is Some == probe_address(addr@, self.probe_port) is Some,
            dest matches Some(dest) ==> Some(dest@) == probe_address(addr@, self.probe_port),
    {
        match find_last_char(addr, ':') {
            Some(at) => {
                let mut dest = addr.substring_char(0, at).to_owned();
                dest.append(":");
                append_decimal(&mut dest, self.probe_port as u128);
                proof {
                    reveal_strlit(":");
                    assert(dest@ =~= addr@.take(at as int) + seq![':'] + text::decimal(
                        self.probe_port as nat,
                    ));
                }
                Some(dest)
            },
            None => None,
        }
    }

    /// Where probes go: every peer whose address has a port, once.
    pub fn probe_targets(&self) -> (targets: Vec<Target>)
        requires
            self.wf(),
        ensures
            forall|i: int, j: int|
                0 <= i < j < targets@.len() ==> (#[trigger] targets@[i]).node_id != (
                #[trigger] targets@[j]).node_id,
            forall|i: int|
                0 <= i < targets@.len() ==> {
                    &&& self.address_of((#[trigger] targets@[i]).node_id) is Some
                    &&& probe_address(
                        self.address_of(targets@[i].node_id)->0,
                        self.probe_port,
                    ) == Some(targets@[i].addr@)
                },
            forall|id: NodeId|
                (#[trigger] self.address_of(id)) is Some && probe_address(
                    self.address_of(id)->0,
                    self.probe_port,
                ) is Some ==> exists|i: int|
                    0 <= i < targets@.len() && (#[trigger] targets@[i]).node_id == id,
    {
        let mut targets: Vec<Target> = Vec::new();
        let ghost mut from: Seq<int> = Seq::empty();
        let mut k: usize = 0;
        while k < self.peers.len()
            invariant
                self.wf(),
                k <= self.peers@.len(),
                from.len() == targets@.len(),
                forall|i: int|
                    0 <= i < targets@.len() ==> {
                        &&& 0 <= #[trigger] from[i] < k
                        &&& targets@[i].node_id == self.peers@[from[i]].node_id
                        &&& probe_address(self.peers@[from[i]].addr@, self.probe_port) == Some(
                            targets@[i].addr@,
                        )
                    },
                forall|i: int, j: int|
                    0 <= i < j < targets@.len() ==> #[trigger] from[i] < #[trigger] from[j],
                forall|p: int|
                    0 <= p < k && probe_address((#[trigger] self.peers@[p]).addr@, self.probe_port)
                        is Some ==> exists|i: int|
                        0 <= i < targets@.len() && (#[trigger] targets@[i]).node_id
                            == self.peers@[p].node_id,
            decreases self.peers@.len() - k,
        {
            let node_id: NodeId = self.peers[k].node_id;
            let dest = self.addr_with_probe_port(self.peers[k].addr.as_str());
            let ghost before = targets@;
            if let Some(addr) = dest {
                targets.push(Target { node_id, addr });
                proof {
                    from = from.push(k as int);
                }
                assert(targets@[before.len() as int].node_id == self.peers@[k as int].node_id);
            }
            assert forall|p: int|
                0 <= p < k + 1 && probe_address((#[trigger] self.peers@[p]).addr@, self.probe_port)
                    is Some implies exists|i: int|
                0 <= i < targets@.len() && (#[trigger] targets@[i]).node_id
                    == self.peers@[p].node_id by {
                if p < k {
                    let i = choose|i: int|
                        0 <= i < before.len() && (#[trigger] before[i]).node_id
                            == self.peers@[p].node_id;
                    assert(targets@[i] == before[i]);
                }
            }
            k = k + 1;
        }
        assert forall|i: int, j: int| 0 <= i < j < targets@.len() implies (
        #[trigger] targets@[i]).node_id != (#[trigger] targets@[j]).node_id by {
            assert(from[i] < from[j]);
            assert(self.peers@[from[i]].node_id != self.peers@[from[j]].node_id);
        }
        assert forall|i: int| 0 <= i < targets@.len() implies {
            &&& self.address_of((#[trigger] targets@[i]).node_id) is Some
            &&& probe_address(self.address_of(targets@[i].node_id)->0, self.probe_port) == Some(
                targets@[i].addr@,
            )
        } by {
            assert(self.peers@[from[i]].node_id == targets@[i].node_id);
        }
        assert forall|id: NodeId|
            (#[trigger] self.address_of(id)) is Some && probe_address(
                self.address_of(id)->0,
                self.probe_port,
            ) is Some implies exists|i: int|
            0 <= i < targets@.len() && (#[trigger] targets@[i]).node_id == id by {
            let p = numbering::numbered(self.places)[id as u128] as int;
            assert(self.peers@[p].node_id == id);
        }
        targets
    }

    /// The next packet number.
    pub fn next_seq(&mut self) -> (seq: u64)
        requires
            old(self).wf(),
        ensures
            final(self).wf(),
            final(self).same_setup(old(self)),
            final(self).round() == old(self).round(),
            seq == old(self).seq,
            seq > 0,
            final(self).seq == seq_after(seq),
    {
        let current: u64 = self.seq;
        let next: u64 = self.seq.wrapping_add(1);
        self.seq = if next > 1 {
            next
        } else {
            1
        };
        current
    }

    /// A probe packet with a number of zero bytes behind its header.
    pub fn build_payload(&self, seq: u64, pad_len: usize) -> (payload: Vec<u8>)
        ensures
            payload@ == probe_packet(
                (self.local_node_id as int % 0x1_0000_0000) as u32,
                seq,
                Seq::new(pad_len as nat, |i: int| 0u8),
            ),
    {
        let mut payload: Vec<u8> = Vec::new();
        payload.push(PROBE_MAGIC_FIRST);
        payload.push(PROBE_MAGIC_SECOND);
        let wide: u64 = self.local_node_id as u64;
        assert(wide as u32 == wide % 0x1_0000_0000) by (bit_vector);
        let node_id: u32 = #[verifier::truncate] (wide as u32);
        push_be32(&mut payload, node_id);
        push_be64(&mut payload, seq);
        let ghost header = payload@;
        let mut i: usize = 0;
        while i < pad_len
            invariant
                i <= pad_len,
                payload@ == header + Seq::new(i as nat, |j: int| 0u8),
            decreases pad_len - i,
        {
            payload.push(0);
            i = i + 1;
            assert(payload@ =~= header + Seq::new(i as nat, |j: int| 0u8));
        }
        assert(payload@ =~= probe_packet(node_id, seq, Seq::new(pad_len as nat, |j: int| 0u8)));
        payload
    }

    /// Opens new books.
    pub fn begin_round(&mut self)
        requires
            old(self).wf(),
        ensures
            final(self).wf(),
            final(self).same_setup(old(self)),
            final(self).seq == old(self).seq,
            final(self).round() == Round::empty(),
    {
        self.rtts.clear();
        self.sent.clear();
        self.sent_bytes.clear();
        self.recv_bytes.clear();
        self.pending.clear();
        assert(self.round() =~= Round::empty());
    }

    /// Makes a probe for a peer, and books it as on its way since `now`.
    pub fn start_probe(&mut self, peer_id: NodeId, now: u64) -> (probe: (u64, Vec<u8>))
        requires
            old(self).wf(),
            probes_of(old(self).round().sent, peer_id) < u32::MAX,
        ensures
            final(self).wf(),
            final(self).same_setup(old(self)),
            final(self).seq == seq_after(old(self).seq),
            probe.0 == old(self).seq,
            probe.1@ == probe_packet(
                (old(self).local_node_id as int % 0x1_0000_0000) as u32,
                old(self).seq,
                Seq::empty(),
            ),
            final(self).round() == old(self).round().probe(peer_id, old(self).seq, now),
    {
        let seq: u64 = self.next_seq();
        let payload = self.build_payload(seq, 0);
        assert(Seq::new(0nat, |i: int| 0u8) =~= Seq::<u8>::empty());
        self.pending.insert(seq, (peer_id, now));
        let known: u32 = match self.sent.get(&peer_id) {
            Some(known) => *known,
            None => 0,
        };
        self.sent.insert(peer_id, known + 1);
        assert(self.round() =~= old(self).round().probe(peer_id, seq, now));
        (seq, payload)
    }

    /// Books whether a probe of `len` bytes could be sent.
    pub fn probe_sent(&mut self, peer_id: NodeId, seq: u64, len: usize, ok: bool)
        requires
            old(self).wf(),
            count_of(old(self).round().sent_bytes, peer_id) + len <= usize::MAX,
        ensures
            final(self).wf(),
            final(self).same_setup(old(self)),
            final(self).seq == old(self).seq,
            final(self).round() == if ok {
                old(self).round().bytes_sent(peer_id, len)
            } else {
                Round { pending: old(self).round().pending.remove(seq), ..old(self).round() }
            },
    {
        if ok {
            add_count(&mut self.sent_bytes, peer_id, len);
            assert(self.round() =~= old(self).round().bytes_sent(peer_id, len));
        } else {
            self.pending.remove(&seq);
            assert(self.round() =~= Round {
                pending: old(self).round().pending.remove(seq),
                ..old(self).round()
            });
        }
    }

    /// Makes a packet of a throughput burst.
    pub fn burst_packet(&mut self) -> (packet: Vec<u8>)
        requires
            old(self).wf(),
        ensures
            final(self).wf(),
            final(self).same_setup(old(self)),
            final(self).seq == seq_after(old(self).seq),
            final(self).round() == old(self).round(),
            packet@ == probe_packet(
                (old(self).local_node_id as int % 0x1_0000_0000) as u32,
                old(self).seq,
                Seq::new(BURST_DATA_LEN as nat, |i: int| 0u8),
            ),
    {
        let seq: u64 = self.next_seq();
        self.build_payload(seq, BURST_DATA_LEN)
    }

    /// Books the bytes of a burst to a peer.
    pub fn burst_sent(&mut self, peer_id: NodeId, bytes: usize)
        requires
            old(self).wf(),
            count_of(old(self).round().sent_bytes, peer_id) + bytes <= usize::MAX,
        ensures
            final(self).wf(),
            final(self).same_setup(old(self)),
            final(self).seq == old(self).seq,
            final(self).round() == if bytes > 0 {
                old(self).round().bytes_sent(peer_id, bytes)
            } else {
                old(self).round()
            },
    {
        if bytes > 0 {
            add_count(&mut self.sent_bytes, peer_id, bytes);
            assert(self.round() =~= old(self).round().bytes_sent(peer_id, bytes));
        }
    }

    /// Takes in a packet: a probe of this node is booked as returned, and that of another node is
    /// echoed. Other packets are ignored.
    pub fn handle_packet(&mut self, packet: &[u8], now: u64) -> (answer: PacketAnswer)
        requires
            old(self).wf(),
            forall|peer_id: NodeId|
                count_of(old(self).round().recv_bytes, peer_id) + packet@.len() <= usize::MAX,
        ensures
            final(self).wf(),
            final(self).same_setup(old(self)),
            final(self).seq == old(self).seq,
            match probe_header(packet@) {
                None => answer is Nothing && final(self).round() == old(self).round(),
                Some((node_id, seq)) => if node_id == old(self).local_node_id {
                    &&& answer is Nothing
                    &&& final(self).round() == old(self).round().returned(
                        seq,
                        packet@.len() as usize,
                        now,
                    )
                } else {
                    answer is Echo && final(self).round() == old(self).round()
                },
            },
    {
        if packet.len() < PROBE_HEADER_LEN || packet[0] != PROBE_MAGIC_FIRST || packet[1]
            != PROBE_MAGIC_SECOND {
            return PacketAnswer::Nothing;
        }
        let src_node_id: u32 = read_be32(packet[2], packet[3], packet[4], packet[5]);
        let seq: u64 = read_be64(slice_subrange(packet, 6, 14));
        if src_node_id as u64 != self.local_node_id as u64 {
            return PacketAnswer::Echo;
        }
        if let Some((peer_id, sent_at)) = self.pending.remove(&seq) {
            let rtt: u64 = if now >= sent_at {
                now - sent_at
            } else {
                0
            };
            let mut times: Vec<u64> = match self.rtts.remove(&peer_id) {
                Some(times) => times,
                None => Vec::new(),
            };
            times.push(rtt);
            self.rtts.insert(peer_id, times);
            assert(count_of(old(self).round().recv_bytes, peer_id) + packet@.len() <= usize::MAX);
            add_count(&mut self.recv_bytes, peer_id, packet.len());
        }
        assert(self.round() =~= old(self).round().returned(seq, packet@.len() as usize, now));
        PacketAnswer::Nothing
    }

    fn link_probe(&self, peer_id: NodeId) -> (result: LinkProbe)
        requires
            self.round().sent.contains_key(peer_id),
        ensures
            result.tells(self.round(), peer_id),
    {
        let mut rtts: Vec<u64> = Vec::new();
        if let Some(times) = self.rtts.get(&peer_id) {
            let mut i: usize = 0;
            while i < times.len()
                invariant
                    i <= times.len(),
                    rtts@ == times@.take(i as int),
                decreases times.len() - i,
            {
                rtts.push(times[i]);
                i = i + 1;
                assert(rtts@ =~= times@.take(i as int));
            }
            assert(rtts@ =~= times@);
        }
        assert(rtts@ =~= rtts_of(self.round().rtts, peer_id));
        let samples: u32 = *self.sent.get(&peer_id).unwrap();
        let received: usize = rtts.len();
        let lost: u32 = if received <= samples as usize {
            samples - received as u32
        } else {
            0
        };
        let sent_bytes: usize = match self.sent_bytes.get(&peer_id) {
            Some(bytes) => *bytes,
            None => 0,
        };
        let echoed_bytes: Option<usize> = if sent_bytes > 0 && received > 0 {
            match self.recv_bytes.get(&peer_id) {
                Some(bytes) => Some(*bytes),
                None => None,
            }
        } else {
            None
        };
        LinkProbe { dst_node_id: peer_id, samples, lost, rtts, echoed_bytes }
    }

    /// Closes the books: what the round tells of each peer that was sent probes.
    pub fn finish_round(&mut self) -> (results: Vec<LinkProbe>)
        requires
            old(self).wf(),
        ensures
            final(self).wf(),
            final(self).same_setup(old(self)),
            final(self).seq == old(self).seq,
            final(self).round() == (Round { sent: Map::empty(), ..old(self).round() }),
            results_of(old(self).round(), results@),
    {
        let mut results: Vec<LinkProbe> = Vec::new();
        let order = probed_peers(&self.sent);
        let mut i: usize = 0;
        while i < order.len()
            invariant
                i <= order.len(),
                order@.to_set() == self.round().sent.dom(),
                results@.len() == i,
                forall|j: int|
                    0 <= j < i ==> (#[trigger] results@[j]).tells(self.round(), order@[j]),
            decreases order.len() - i,
        {
            assert(order@.to_set().contains(order@[i as int]));
            results.push(self.link_probe(order[i]));
            i = i + 1;
        }
        assert(results_in_order(self.round(), results@, order@));
        self.sent.clear();
        assert(self.round() =~= Round { sent: Map::empty(), ..old(self).round() });
        results
    }
}

/// A probe packet is 14 bytes of header and its data: the letters N and P, four bytes of the node
/// that sent it and eight bytes of its number, most significant byte first.
pub proof fn law_probe_layout(node_id: u32, seq: u64, data: Seq<u8>)
    ensures
        ({
            let packet = probe_packet(node_id, seq, data);
            &&& packet.len() == 14 + data.len()
            &&& packet[0] == 0x4E && packet[1] == 0x50
            &&& packet[2] * 0x100_0000 + packet[3] * 0x1_0000 + packet[4] * 0x100 + packet[5]
                == node_id
            &&& packet[6] * 0x100_0000_0000_0000 + packet[7] * 0x1_0000_0000_0000 + packet[8]
                * 0x100_0000_0000 + packet[9] * 0x1_0000_0000 + packet[10] * 0x100_0000 + packet[11]
                * 0x1_0000 + packet[12] * 0x100 + packet[13] == seq
            &&& packet.skip(14) == data
        }),
{
    let packet = probe_packet(node_id, seq, data);
    net::lemma_be32_round_trip(node_id);
    net::lemma_be64_round_trip(seq);
    let number = net::be64_bytes(seq);
    assert(packet.skip(14) =~= data);
    assert(packet.subrange(2, 6) =~= net::be32_bytes(node_id));
    assert(packet.subrange(6, 14) =~= number);
    assert forall|k: int| 0 <= k < 8 implies packet[6 + k] == #[trigger] number[k] by {
        assert(packet.subrange(6, 14)[k] == packet[6 + k]);
    }
    assert forall|k: int| 0 <= k < 4 implies packet[2 + k] == #[trigger] net::be32_bytes(node_id)[k]
    by {
        assert(packet.subrange(2, 6)[k] == packet[2 + k]);
    }
    assert(packet[6] == number[0] && packet[7] == number[1] && packet[8] == number[2]);
    assert(packet[9] == number[3] && packet[10] == number[4] && packet[11] == number[5]);
    assert(packet[12] == number[6] && packet[13] == number[7]);
    let high = net::be32(number[0], number[1], number[2], number[3]);
    let low = net::be32(number[4], number[5], number[6], number[7]);
    assert(high * 0x1_0000_0000 + low == seq);
}

/// What is shorter than a header or does not begin with the two letters is no probe.
pub proof fn law_other_bytes_are_no_probe(packet: Seq<u8>)
    ensures
        probe_header(packet) is None <==> packet.len() < 14 || packet[0] != 0x4E || packet[1] != 0x50,
{
}

/// A probe is booked to its peer as sent and on its way, bytes are booked to their peer, and nothing
/// is booked to other peers.
pub proof fn law_probes_are_booked_to_their_peer(
    round: Round,
    peer_id: NodeId,
    other: NodeId,
    seq: u64,
    bytes: usize,
    now: u64,
)
    requires
        peer_id != other,
        probes_of(round.sent, peer_id) < u32::MAX,
        count_of(round.sent_bytes, peer_id) + bytes <= usize::MAX,
    ensures
        ({
            let probed = round.probe(peer_id, seq, now);
            let sent = round.bytes_sent(peer_id, bytes);
            &&& probed.pending.contains_key(seq)
            &&& probed.pending[seq] == (peer_id, now)
            &&& probes_of(probed.sent, peer_id) == probes_of(round.sent, peer_id) + 1
            &&& probed.sent.contains_key(peer_id)
            &&& probes_of(probed.sent, other) == probes_of(round.sent, other)
            &&& probed.rtts == round.rtts && probed.sent_bytes == round.sent_bytes
                && probed.recv_bytes == round.recv_bytes
            &&& count_of(sent.sent_bytes, peer_id) == count_of(round.sent_bytes, peer_id) + bytes
            &&& count_of(sent.sent_bytes, other) == count_of(round.sent_bytes, other)
            &&& sent.pending == round.pending && sent.rtts == round.rtts && sent.sent == round.sent
                && sent.recv_bytes == round.recv_bytes
        }),
{
}

/// An echo is booked to the peer that the probe went to: its bytes, and the time since it was sent. It
/// is then no longer on its way. What is not on its way changes nothing, and nothing is booked to
/// other peers.
pub proof fn law_echoes_are_booked_to_their_peer(
    round: Round,
    seq: u64,
    len: usize,
    now: u64,
    other: NodeId,
    another: u64,
)
    ensures
        ({
            let later = round.returned(seq, len, now);
            let (peer_id, sent_at) = round.pending[seq];
            &&& !round.pending.contains_key(seq) ==> later == round
            &&& round.pending.contains_key(seq) ==> {
                &&& !later.pending.contains_key(seq)
                &&& another != seq ==> later.pending.contains_key(another)
                    == round.pending.contains_key(another)
                &&& count_of(round.recv_bytes, peer_id) + len <= usize::MAX ==> count_of(
                    later.recv_bytes,
                    peer_id,
                ) == count_of(round.recv_bytes, peer_id) + len
                &&& later.recv_bytes.contains_key(peer_id)
                &&& rtts_of(later.rtts, peer_id).len() == rtts_of(round.rtts, peer_id).len() + 1
                &&& now >= sent_at ==> rtts_of(later.rtts, peer_id).last() == now - sent_at
                &&& now < sent_at ==> rtts_of(later.rtts, peer_id).last() == 0
                &&& rtts_of(later.rtts, peer_id).drop_last() == rtts_of(round.rtts, peer_id)
                &&& other != peer_id ==> rtts_of(later.rtts, other) == rtts_of(round.rtts, other)
                    && count_of(later.recv_bytes, other) == count_of(round.recv_bytes, other)
                &&& later.sent == round.sent && later.sent_bytes == round.sent_bytes
            }
        }),
{
    let (peer_id, sent_at) = round.pending[seq];
    let later = round.returned(seq, len, now);
    if round.pending.contains_key(seq) {
        assert(rtts_of(later.rtts, peer_id).drop_last() =~= rtts_of(round.rtts, peer_id));
    }
}

/// What a round tells of a link adds up: the probes that came back and those that were lost are those
/// that were sent. Every peer that was sent probes is told of, once.
pub proof fn law_results_add_up(round: Round, results: Seq<LinkProbe>, peer_id: NodeId)
    requires
        results_of(round, results),
        round.sent.contains_key(peer_id),
        rtts_of(round.rtts, peer_id).len() <= probes_of(round.sent, peer_id),
    ensures
        exists|i: int|
            {
                &&& 0 <= i < results.len()
                &&& (#[trigger] results[i]).dst_node_id == peer_id
                &&& results[i].samples == probes_of(round.sent, peer_id)
                &&& results[i].lost + results[i].rtts@.len() == results[i].samples
                &&& results[i].rtts@ == rtts_of(round.rtts, peer_id)
                &&& results[i].echoed_bytes matches Some(bytes) ==> bytes == count_of(
                    round.recv_bytes,
                    peer_id,
                )
                &&& results[i].rtts@.len() > 0 && count_of(round.sent_bytes, peer_id) > 0
                    && round.recv_bytes.contains_key(peer_id) ==> results[i].echoed_bytes is Some
            },
        forall|i: int, j: int|
            0 <= i < j < results.len() ==> (#[trigger] results[i]).dst_node_id != (
            #[trigger] results[j]).dst_node_id,
        results.len() == round.sent.dom().len(),
{
    let order = choose|order: Seq<NodeId>| #[trigger] results_in_order(round, results, order);
    order.unique_seq_to_set();
    assert(order.to_set().contains(peer_id));
    let i = choose|i: int| 0 <= i < order.len() && order[i] == peer_id;
    assert(results[i].tells(round, order[i]));
    assert forall|i: int, j: int| 0 <= i < j < results.len() implies (
    #[trigger] results[i]).dst_node_id != (#[trigger] results[j]).dst_node_id by {
        assert(results[i].tells(round, order[i]));
        assert(results[j].tells(round, order[j]));
    }
}

/// Packet numbers run on one by one, and none is 0.
pub proof fn law_packet_numbers_run_on(seq: u64)
    ensures
        seq_after(seq) > 0,
        seq < u64::MAX ==> seq_after(seq) == seq + 1,
        seq_after(u64::MAX) == 1,
{
}

/// A peer answers probes at its own host, on the probe port: the port of its address is replaced. An
/// address without a port has no such place.
pub proof fn law_probes_go_to_the_host_of_the_peer(
    host: Seq<char>,
    port: Seq<char>,
    probe_port: u16,
)
    requires
        forall|k: int| 0 <= k < port.len() ==> port[k] != ':',
    ensures
        probe_address(host + seq![':'] + port, probe_port) == Some(
            host + seq![':'] + text::decimal(probe_port as nat),
        ),
        probe_address(port, probe_port) is None,
{
    text::law_last_place_has_none_behind(host, ':', port);
    assert(host + seq![':'] + port =~= host.push(':') + port);
    assert((host.push(':') + port).take(host.len() as int) =~= host);
}

/// What concerns the books of a round leaves the node, its settings and its peers as they are.
pub proof fn law_books_concern_nothing_else(service: ProbeService, other: ProbeService, peer: NodeId)
    requires
        service.same_setup(&other),
    ensures
        service.local_node_id == other.local_node_id,
        service.probe_port == other.probe_port,
        service.enable_probe_rtt == other.enable_probe_rtt,
        service.enable_probe_throughput == other.enable_probe_throughput,
        service.address_of(peer) == other.address_of(peer),
{
}

/// Every peer in the list has the address that stands beside it, and no other node has one.
pub proof fn law_listed_peers_have_addresses(service: ProbeService, peer: NodeId)
    requires
        service.wf(),
    ensures
        forall|i: int|
            0 <= i < service.peers@.len() && (#[trigger] service.peers@[i]).node_id == peer
                ==> service.address_of(peer) == Some(service.peers@[i].addr@),
        service.address_of(peer) is Some ==> exists|i: int|
            0 <= i < service.peers@.len() && (#[trigger] service.peers@[i]).node_id == peer,
{
    let places = numbering::numbered(service.places);
    if places.contains_key(peer as u128) {
        assert(service.peers@[places[peer as u128] as int].node_id == peer);
    }
}

} // verus!
