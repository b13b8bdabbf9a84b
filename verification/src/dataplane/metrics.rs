//! Adds up the bytes of each flow on each socket.

use vstd::prelude::*;

use crate::dataplane::NodeId;
use crate::net;
use crate::numbering::{fx_get, fx_insert, fx_new};
use crate::text::{self, append_decimal};

verus! {

broadcast use vstd::std_specs::hash::group_hash_axioms;

/// The two ports of a socket.
pub type SocketId = (u16, u16);

/// The bytes of a flow, which is identified by its pair of addresses, on a socket.
#[derive(Debug)]
pub struct SocketBytes {
    pub flow_id: u64,
    pub socket_id: SocketId,
    /// The node that the first bytes came from.
    pub node_id: NodeId,
    pub bytes: usize,
}

/// The number of a flow on a socket.
pub open spec fn socket_key(flow_id: u64, socket_id: SocketId) -> u128 {
    (flow_id * 0x1_0000_0000 + socket_id.0 * 0x1_0000 + socket_id.1) as u128
}

/// No two sockets of flows have the same number.
proof fn lemma_socket_key(a: (u64, SocketId), b: (u64, SocketId))
    requires
        socket_key(a.0, a.1) == socket_key(b.0, b.1),
    ensures
        a == b,
{
}

/// The bytes of all sockets.
#[verifier::ext_equal]
pub struct Totals {
    pub sockets: Map<(u64, SocketId), (NodeId, usize)>,
}

impl Totals {
    /// What is known after bytes on a socket: they are added up, and the node of the first ones
    /// stays.
    pub open spec fn add(
        self,
        flow_id: u64,
        socket_id: SocketId,
        node_id: NodeId,
        n_bytes: usize,
    ) -> Totals {
        let key = (flow_id, socket_id);
        if self.sockets.contains_key(key) {
            let (first_node, bytes) = self.sockets[key];
            Totals { sockets: self.sockets.insert(key, (first_node, (bytes + n_bytes) as usize)) }
        } else {
            Totals { sockets: self.sockets.insert(key, (node_id, n_bytes)) }
        }
    }
}

/// One line of a report.
#[derive(Debug)]
pub struct ReportLine {
    /// The bytes of the flow ID, most significant byte first.
    pub flow_id: Vec<i32>,
    pub bytes: usize,
    pub src_node_id: NodeId,
    /// The two ports, separated by a colon.
    pub stream_id: String,
}

impl ReportLine {
    /// Whether this tells of the bytes of a flow on a socket.
    pub open spec fn tells(&self, flow_id: u64, socket_id: SocketId, total: (NodeId, usize)) -> bool {
        &&& self.flow_id@ == net::be64_bytes(flow_id).map_values(|b: u8| b as i32)
        &&& self.src_node_id == total.0
        &&& self.bytes == total.1
        &&& self.stream_id@ == text::decimal(socket_id.0 as nat) + seq![':'] + text::decimal(
            socket_id.1 as nat,
        )
    }
}

/// Whether lines tell of every socket once, in an order.
pub open spec fn lines_in_order(
    totals: Totals,
    lines: Seq<ReportLine>,
    order: Seq<(u64, SocketId)>,
) -> bool {
    &&& order.no_duplicates()
    &&& order.to_set() == totals.sockets.dom()
    &&& lines.len() == order.len()
    &&& forall|i: int|
        0 <= i < lines.len() ==> (#[trigger] lines[i]).tells(
            order[i].0,
            order[i].1,
            totals.sockets[order[i]],
        )
}

/// Collects the bytes of flows.
pub struct Collector {
    /// The place of each flow on each socket.
    pub places: fxhash::FxHashMap<u128, usize>,
    pub entries: Vec<SocketBytes>,
}

impl Collector {
    /// Every entry stands at the place of its flow and socket.
    pub open spec fn wf(&self) -> bool {
        &&& forall|key: u128| #[trigger]
            self.places@.contains_key(key) ==> self.places@[key] < self.entries@.len()
                && socket_key(
                self.entries@[self.places@[key] as int].flow_id,
                self.entries@[self.places@[key] as int].socket_id,
            ) == key
        &&& forall|i: int|
            0 <= i < self.entries@.len() ==> {
                let key = socket_key((#[trigger] self.entries@[i]).flow_id, self.entries@[i].socket_id);
                self.places@.contains_key(key) && self.places@[key] == i
            }
    }

    /// What was collected.
    pub open spec fn totals(&self) -> Totals {
        Totals {
            sockets: Map::new(
                |key: (u64, SocketId)| self.places@.contains_key(socket_key(key.0, key.1)),
                |key: (u64, SocketId)|
                    {
                        let entry = self.entries@[self.places@[socket_key(key.0, key.1)] as int];
                        (entry.node_id, entry.bytes)
                    },
            ),
        }
    }

    /// Nothing was collected.
    pub fn new() -> (collector: Self)
        ensures
            collector.wf(),
            collector.totals() == (Totals { sockets: Map::empty() }),
    {
        let collector = Collector { places: fx_new(), entries: Vec::new() };
        assert(collector.totals() =~= Totals { sockets: Map::empty() });
        collector
    }

    /// Adds up bytes.
    pub fn record(&mut self, flow_id: u64, socket_id: SocketId, node_id: NodeId, n_bytes: usize)
        requires
            old(self).wf(),
            old(self).totals().sockets.contains_key((flow_id, socket_id)) ==> old(
                self,
            ).totals().sockets[(flow_id, socket_id)].1 + n_bytes <= usize::MAX,
        ensures
            final(self).wf(),
            final(self).totals() == old(self).totals().add(flow_id, socket_id, node_id, n_bytes),
    {
        let key: u128 = flow_id as u128 * 0x1_0000_0000 + socket_id.0 as u128 * 0x1_0000
            + socket_id.1 as u128;
        let ghost expected = old(self).totals().add(flow_id, socket_id, node_id, n_bytes);
        match fx_get(&self.places, &key) {
            Some(place) => {
                assert(self.places@.contains_key(key));
                proof {
                    let entry = self.entries@[place as int];
                    lemma_socket_key((entry.flow_id, entry.socket_id), (flow_id, socket_id));
                    assert(old(self).totals().sockets.contains_key((flow_id, socket_id)));
                }
                let first_node: NodeId = self.entries[place].node_id;
                let bytes: usize = self.entries[place].bytes + n_bytes;
                self.entries.set(
                    place,
                    SocketBytes { flow_id, socket_id, node_id: first_node, bytes },
                );
            },
            None => {
                let place: usize = self.entries.len();
                self.entries.push(SocketBytes { flow_id, socket_id, node_id, bytes: n_bytes });
                fx_insert(&mut self.places, key, place);
            },
        }
        proof {
            assert forall|k: u128| #[trigger] self.places@.contains_key(k) implies self.places@[k]
                < self.entries@.len() && socket_key(
                self.entries@[self.places@[k] as int].flow_id,
                self.entries@[self.places@[k] as int].socket_id,
            ) == k by {
                assert(k == key || old(self).places@.contains_key(k));
            }
            assert forall|i: int| 0 <= i < self.entries@.len() implies {
                let k = socket_key((#[trigger] self.entries@[i]).flow_id, self.entries@[i].socket_id);
                self.places@.contains_key(k) && self.places@[k] == i
            } by {
                if i < old(self).entries@.len() {
                    assert(socket_key(
                        old(self).entries@[i].flow_id,
                        old(self).entries@[i].socket_id,
                    ) == socket_key(self.entries@[i].flow_id, self.entries@[i].socket_id));
                }
            }
            assert forall|k: (u64, SocketId)| #[trigger]
                self.totals().sockets.contains_key(k) implies self.totals().sockets[k]
                == expected.sockets[k] by {
                if k != (flow_id, socket_id) {
                    if socket_key(k.0, k.1) == key {
                        lemma_socket_key(k, (flow_id, socket_id));
                    }
                    let place = old(self).places@[socket_key(k.0, k.1)] as int;
                    assert(old(self).places@.contains_key(socket_key(k.0, k.1)));
                    assert(self.entries@[place] == old(self).entries@[place]);
                }
            }
            assert forall|k: (u64, SocketId)|
                self.totals().sockets.contains_key(k) == #[trigger] expected.sockets.contains_key(
                    k,
                ) by {
                if k != (flow_id, socket_id) && socket_key(k.0, k.1) == key {
                    lemma_socket_key(k, (flow_id, socket_id));
                }
            }
            assert(self.totals().sockets =~= expected.sockets);
        }
    }

    /// Hands out what was collected, and starts over.
    pub fn take_report(&mut self) -> (lines: Vec<ReportLine>)
        requires
            old(self).wf(),
        ensures
            final(self).wf(),
            final(self).totals() == (Totals { sockets: Map::empty() }),
            exists|order: Seq<(u64, SocketId)>| #[trigger]
                lines_in_order(old(self).totals(), lines@, order),
    {
        let mut lines: Vec<ReportLine> = Vec::new();
        let ghost order = Seq::new(
            self.entries@.len(),
            |i: int| (self.entries@[i].flow_id, self.entries@[i].socket_id),
        );
        let mut i: usize = 0;
        while i < self.entries.len()
            invariant
                i <= self.entries@.len(),
                *self == *old(self),
                lines@.len() == i,
                order.len() == self.entries@.len(),
                forall|j: int|
                    0 <= j < order.len() ==> #[trigger] order[j] == (
                        self.entries@[j].flow_id,
                        self.entries@[j].socket_id,
                    ),
                forall|j: int|
                    0 <= j < i ==> (#[trigger] lines@[j]).tells(
                        order[j].0,
                        order[j].1,
                        (self.entries@[j].node_id, self.entries@[j].bytes),
                    ),
            decreases self.entries@.len() - i,
        {
            lines.push(report_line(&self.entries[i]));
            i = i + 1;
        }
        proof {
            let totals = old(self).totals();
            assert forall|j: int| 0 <= j < order.len() implies totals.sockets.contains_key(
                #[trigger] order[j],
            ) && totals.sockets[order[j]] == (
                old(self).entries@[j].node_id,
                old(self).entries@[j].bytes,
            ) by {
                let entry = old(self).entries@[j];
                assert(old(self).places@.contains_key(socket_key(entry.flow_id, entry.socket_id)));
            }
            assert(order.no_duplicates()) by {
                assert forall|a: int, b: int|
                    0 <= a < order.len() && 0 <= b < order.len() && a != b implies order[a]
                    != order[b] by {
                    let entry = old(self).entries@[a];
                    assert(old(self).places@[socket_key(entry.flow_id, entry.socket_id)] == a);
                    let other = old(self).entries@[b];
                    assert(old(self).places@[socket_key(other.flow_id, other.socket_id)] == b);
                }
            }
            assert(order.to_set() =~= totals.sockets.dom()) by {
                assert forall|k: (u64, SocketId)| totals.sockets.dom().contains(k) implies
                    order.to_set().contains(k) by {
                    let place = old(self).places@[socket_key(k.0, k.1)] as int;
                    let entry = old(self).entries@[place];
                    lemma_socket_key((entry.flow_id, entry.socket_id), k);
                    assert(order[place] == k);
                }
            }
            assert(lines_in_order(totals, lines@, order));
        }
        self.places = fx_new();
        self.entries = Vec::new();
        assert(self.totals().sockets =~= Map::empty());
        lines
    }
}

fn report_line(entry: &SocketBytes) -> (line: ReportLine)
    ensures
        line.tells(entry.flow_id, entry.socket_id, (entry.node_id, entry.bytes)),
{
    let mut bytes: Vec<u8> = Vec::new();
    net::push_be64(&mut bytes, entry.flow_id);
    assert(bytes@ =~= net::be64_bytes(entry.flow_id));
    let mut flow_id: Vec<i32> = Vec::new();
    let mut i: usize = 0;
    while i < bytes.len()
        invariant
            i <= bytes.len(),
            flow_id@ == bytes@.take(i as int).map_values(|b: u8| b as i32),
        decreases bytes.len() - i,
    {
        flow_id.push(bytes[i] as i32);
        i = i + 1;
        assert(flow_id@ =~= bytes@.take(i as int).map_values(|b: u8| b as i32));
    }
    assert(bytes@.take(i as int) =~= bytes@);
    let mut stream_id = String::new();
    append_decimal(&mut stream_id, entry.socket_id.0 as u128);
    stream_id.append(":");
    append_decimal(&mut stream_id, entry.socket_id.1 as u128);
    proof {
        reveal_strlit(":");
        assert(stream_id@ =~= text::decimal(entry.socket_id.0 as nat) + seq![':'] + text::decimal(
            entry.socket_id.1 as nat,
        ));
    }
    ReportLine { flow_id, bytes: entry.bytes, src_node_id: entry.node_id, stream_id }
}

/// Bytes that arrive on a socket are added to what it had, and nothing else changes.
pub proof fn law_bytes_are_added_up(
    totals: Totals,
    flow_id: u64,
    socket_id: SocketId,
    node_id: NodeId,
    n_bytes: usize,
    other: (u64, SocketId),
)
    requires
        totals.sockets.contains_key((flow_id, socket_id)) ==> totals.sockets[(
            flow_id,
            socket_id,
        )].1 + n_bytes <= usize::MAX,
    ensures
        ({
            let later = totals.add(flow_id, socket_id, node_id, n_bytes).sockets;
            let before = if totals.sockets.contains_key((flow_id, socket_id)) {
                totals.sockets[(flow_id, socket_id)].1 as int
            } else {
                0
            };
            &&& later[(flow_id, socket_id)].1 == before + n_bytes
            &&& other != (flow_id, socket_id) ==> later.contains_key(other)
                == totals.sockets.contains_key(other) && (totals.sockets.contains_key(other)
                ==> later[other] == totals.sockets[other])
        }),
{
}

/// The node that the first bytes on a socket came from stays; every socket that carried bytes is
/// known.
pub proof fn law_first_node_stays(
    totals: Totals,
    flow_id: u64,
    socket_id: SocketId,
    node_id: NodeId,
    n_bytes: usize,
)
    ensures
        ({
            let key = (flow_id, socket_id);
            let later = totals.add(flow_id, socket_id, node_id, n_bytes).sockets;
            &&& later.contains_key(key)
            &&& totals.sockets.contains_key(key) ==> later[key].0 == totals.sockets[key].0
            &&& !totals.sockets.contains_key(key) ==> later[key] == (node_id, n_bytes)
        }),
{
}

/// A report has one line for each socket that carried bytes: with the bytes, the node they came from,
/// the eight bytes of the flow, and the two ports with a colon between them.
pub proof fn law_report_tells_of_every_socket(
    totals: Totals,
    lines: Seq<ReportLine>,
    order: Seq<(u64, SocketId)>,
    flow_id: u64,
    socket_id: SocketId,
)
    requires
        lines_in_order(totals, lines, order),
        totals.sockets.contains_key((flow_id, socket_id)),
    ensures
        lines.len() == totals.sockets.dom().len(),
        exists|i: int|
            {
                &&& 0 <= i < lines.len()
                &&& (#[trigger] lines[i]).src_node_id == totals.sockets[(flow_id, socket_id)].0
                &&& lines[i].bytes == totals.sockets[(flow_id, socket_id)].1
                &&& lines[i].stream_id@ == text::decimal(socket_id.0 as nat) + ":"@ + text::decimal(
                    socket_id.1 as nat,
                )
                &&& lines[i].flow_id@.len() == 8
                &&& forall|k: int|
                    0 <= k < 8 ==> #[trigger] lines[i].flow_id@[k] == net::be64_bytes(flow_id)[k]
            },
{
    let key = (flow_id, socket_id);
    order.unique_seq_to_set();
    assert(order.to_set().contains(key));
    let i = choose|i: int| 0 <= i < order.len() && order[i] == key;
    assert(lines[i].tells(order[i].0, order[i].1, totals.sockets[order[i]]));
    reveal_strlit(":");
    assert(":"@ =~= seq![':']);
    net::lemma_be64_round_trip(flow_id);
}

/// No two sockets of flows are mixed up.
pub proof fn law_sockets_are_told_apart(a: (u64, SocketId), b: (u64, SocketId))
    ensures
        socket_key(a.0, a.1) == socket_key(b.0, b.1) ==> a == b,
{
    if socket_key(a.0, a.1) == socket_key(b.0, b.1) {
        lemma_socket_key(a, b);
    }
}

} // verus!
