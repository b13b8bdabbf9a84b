//! Puts TCP segments in order by letting a few of them gather.
//!
//! Segments that carry data gather per flow. Once a flow holds more of them than the reorder
//! tolerance, all flows are emptied, each in the order of sequence numbers.

use std::collections::{HashMap, HashSet};

use vstd::prelude::*;

use crate::node::local::heap::{self, flow_list, PacketHeap, SequencedPacket};
use crate::node::local::writer;
use crate::node::packet::Packet;
use crate::node::FlowId;

verus! {

broadcast use vstd::std_specs::hash::group_hash_axioms;

/// The packets of a queue in the order in which they come out.
pub open spec fn in_sequence(queue: Seq<SequencedPacket>) -> Seq<Packet>
    decreases queue.len(),
{
    if queue.len() == 0 {
        Seq::empty()
    } else {
        proof {
            heap::lemma_next_index_bound(queue);
        }
        seq![heap::top(queue).packet] + in_sequence(heap::popped(queue))
    }
}

/// What to do with a packet.
pub struct Gathered {
    /// The packet, where it is not to be held back.
    pub immediate: Option<Packet>,
    /// Whether enough segments have gathered to empty the queues.
    pub notify: bool,
}

/// The segments that have gathered, per flow.
pub struct GatheringQueues {
    queue_map: HashMap<FlowId, PacketHeap>,
    active_flows: HashSet<FlowId>,
}

impl GatheringQueues {
    /// The segments of a flow that have gathered, in order of arrival.
    pub closed spec fn queue(&self, flow_id: FlowId) -> Seq<SequencedPacket> {
        if self.queue_map@.contains_key(flow_id) {
            self.queue_map@[flow_id]@
        } else {
            Seq::empty()
        }
    }

    /// Whether a flow is to be emptied.
    pub closed spec fn active(&self, flow_id: FlowId) -> bool {
        self.active_flows@.contains(flow_id)
    }

    /// Every queue holds data of its own flow, and exactly the flows with a queue are active.
    pub open spec fn wf(&self) -> bool {
        forall|f: FlowId|
            {
                &&& writer::belongs(#[trigger] self.queue(f), f)
                &&& self.queue(f).len() > 0 <==> self.active(f)
            }
    }

    /// Nothing has gathered yet.
    pub fn new() -> (queues: Self)
        ensures
            queues.wf(),
            forall|f: FlowId| #[trigger] queues.queue(f) == Seq::<SequencedPacket>::empty(),
    {
        GatheringQueues { queue_map: HashMap::new(), active_flows: HashSet::new() }
    }

    /// Takes in a packet: data gathers, and everything else passes at once.
    pub fn accept(&mut self, packet: Packet, reorder_tolerance: usize) -> (gathered: Gathered)
        requires
            old(self).wf(),
        ensures
            final(self).wf(),
            final(self).queue(packet.flow_id) == if packet.spec_is_data() {
                old(self).queue(packet.flow_id).push(
                    SequencedPacket { seq: packet.spec_seq(), packet },
                )
            } else {
                old(self).queue(packet.flow_id)
            },
            forall|f: FlowId|
                f != packet.flow_id ==> #[trigger] final(self).queue(f) == old(self).queue(f),
            gathered.immediate == if packet.spec_is_data() {
                None
            } else {
                Some(packet)
            },
            gathered.notify == (packet.spec_is_data() && old(self).queue(packet.flow_id).len() + 1
                > reorder_tolerance),
    {
        if !packet.is_tcp_data() {
            return Gathered { immediate: Some(packet), notify: false };
        }
        let flow_id = packet.flow_id;
        let seq: u32 = packet.seq_num();
        let mut heap = match self.queue_map.remove(&flow_id) {
            Some(heap) => heap,
            None => PacketHeap::new(),
        };
        assert(heap@ == old(self).queue(flow_id));
        heap.push(SequencedPacket { seq, packet });
        let notify = heap.len() > reorder_tolerance;
        self.queue_map.insert(flow_id, heap);
        self.active_flows.insert(flow_id);
        assert forall|f: FlowId| {
            &&& writer::belongs(#[trigger] self.queue(f), f)
            &&& self.queue(f).len() > 0 <==> self.active(f)
        } by {
            assert(writer::belongs(old(self).queue(f), f));
        }
        Gathered { immediate: None, notify }
    }

    fn drain_flow(&mut self, flow_id: FlowId, packets: &mut Vec<Packet>)
        requires
            old(self).wf(),
        ensures
            final(self).wf(),
            final(self).queue(flow_id) == Seq::<SequencedPacket>::empty(),
            forall|f: FlowId| f != flow_id ==> #[trigger] final(self).queue(f) == old(self).queue(f),
            writer::of_flow(final(packets)@, flow_id) == writer::of_flow(old(packets)@, flow_id)
                + in_sequence(old(self).queue(flow_id)),
            forall|f: FlowId|
                f != flow_id ==> #[trigger] writer::of_flow(final(packets)@, f) == writer::of_flow(
                    old(packets)@,
                    f,
                ),
    {
        let mut heap = match self.queue_map.remove(&flow_id) {
            Some(heap) => heap,
            None => PacketHeap::new(),
        };
        assert(heap@ == old(self).queue(flow_id));
        assert(writer::belongs(heap@, flow_id));
        while !heap.is_empty()
            invariant
                writer::belongs(heap@, flow_id),
                writer::of_flow(packets@, flow_id) + in_sequence(heap@) == writer::of_flow(
                    old(packets)@,
                    flow_id,
                ) + in_sequence(old(self).queue(flow_id)),
                forall|f: FlowId|
                    f != flow_id ==> #[trigger] writer::of_flow(packets@, f) == writer::of_flow(
                        old(packets)@,
                        f,
                    ),
            decreases heap@.len(),
        {
            let ghost seen = packets@;
            let ghost waiting = heap@;
            proof {
                heap::lemma_next_index_bound(waiting);
                writer::lemma_belongs_popped(waiting, flow_id);
            }
            if let Some(sequenced) = heap.pop() {
                let packet = sequenced.packet;
                proof {
                    assert forall|f: FlowId| #[trigger]
                        writer::of_flow(seen.push(packet), f) == if f == flow_id {
                            writer::of_flow(seen, f).push(packet)
                        } else {
                            writer::of_flow(seen, f)
                        } by {
                        writer::lemma_of_flow_push(seen, packet, f);
                    }
                    assert(writer::of_flow(seen, flow_id).push(packet) + in_sequence(heap@)
                        =~= writer::of_flow(seen, flow_id) + (seq![packet] + in_sequence(heap@)));
                }
                packets.push(packet);
            }
        }
        self.active_flows.remove(&flow_id);
        assert(writer::of_flow(packets@, flow_id) + in_sequence(heap@) =~= writer::of_flow(
            packets@,
            flow_id,
        ));
        assert forall|f: FlowId| {
            &&& writer::belongs(#[trigger] self.queue(f), f)
            &&& self.queue(f).len() > 0 <==> self.active(f)
        } by {
            assert(writer::belongs(old(self).queue(f), f));
        }
    }

    /// Empties all queues, flow by flow.
    pub fn drain(&mut self) -> (packets: Vec<Packet>)
        requires
            old(self).wf(),
        ensures
            final(self).wf(),
            forall|f: FlowId| #[trigger]
                final(self).queue(f) == Seq::<SequencedPacket>::empty(),
            forall|f: FlowId| #[trigger]
                writer::of_flow(packets@, f) == in_sequence(old(self).queue(f)),
    {
        let mut packets: Vec<Packet> = Vec::new();
        let flow_ids = flow_list(&self.active_flows);
        let mut i: usize = 0;
        proof {
            reveal(Seq::filter);
            assert forall|f: FlowId| self.queue(f).len() > 0 implies flow_ids@.contains(f) by {
                assert(self.active(f));
                assert(flow_ids@.to_set().contains(f));
            }
        }
        while i < flow_ids.len()
            invariant
                i <= flow_ids.len(),
                flow_ids@.no_duplicates(),
                self.wf(),
                forall|f: FlowId| #[trigger] old(self).queue(f).len() > 0 ==> flow_ids@.contains(f),
                forall|j: int|
                    0 <= j < i ==> {
                        &&& (#[trigger] self.queue(flow_ids@[j])).len() == 0
                        &&& writer::of_flow(packets@, flow_ids@[j]) == in_sequence(
                            old(self).queue(flow_ids@[j]),
                        )
                    },
                forall|f: FlowId|
                    !flow_ids@.take(i as int).contains(f) ==> {
                        &&& #[trigger] self.queue(f) == old(self).queue(f)
                        &&& writer::of_flow(packets@, f) == Seq::<Packet>::empty()
                    },
            decreases flow_ids.len() - i,
        {
            let flow_id = flow_ids[i];
            let ghost prior = *self;
            let ghost seen = packets@;
            let ghost done = flow_ids@.take(i as int);
            assert(!done.contains(flow_id));
            assert(self.queue(flow_id) == old(self).queue(flow_id));
            self.drain_flow(flow_id, &mut packets);
            proof {
                assert(flow_ids@.take(i + 1) =~= done.push(flow_id));
                assert(Seq::<Packet>::empty() + in_sequence(old(self).queue(flow_id))
                    =~= in_sequence(old(self).queue(flow_id)));
                assert forall|j: int| 0 <= j < i + 1 implies {
                    &&& (#[trigger] self.queue(flow_ids@[j])).len() == 0
                    &&& writer::of_flow(packets@, flow_ids@[j]) == in_sequence(
                        old(self).queue(flow_ids@[j]),
                    )
                } by {
                    if j < i {
                        assert(flow_ids@[j] != flow_id);
                        assert(prior.queue(flow_ids@[j]).len() == 0);
                    }
                }
                assert forall|f: FlowId| !flow_ids@.take(i + 1).contains(f) implies {
                    &&& #[trigger] self.queue(f) == old(self).queue(f)
                    &&& writer::of_flow(packets@, f) == Seq::<Packet>::empty()
                } by {
                    assert(done.push(flow_id)[done.len() as int] == flow_id);
                    if done.contains(f) {
                        let k = choose|k: int| 0 <= k < done.len() && done[k] == f;
                        assert(done.push(flow_id)[k] == f);
                    }
                    assert(prior.queue(f) == old(self).queue(f));
                }
            }
            i = i + 1;
        }
        proof {
            assert forall|f: FlowId| {
                &&& (#[trigger] self.queue(f)).len() == 0
                &&& writer::of_flow(packets@, f) == in_sequence(old(self).queue(f))
            } by {
                if flow_ids@.contains(f) {
                    let j = choose|j: int| 0 <= j < flow_ids@.len() && flow_ids@[j] == f;
                    assert(self.queue(flow_ids@[j]).len() == 0);
                } else {
                    assert(flow_ids@.take(i as int) =~= flow_ids@);
                    assert(self.queue(f) == old(self).queue(f));
                    assert(in_sequence(old(self).queue(f)) =~= Seq::<Packet>::empty());
                }
            }
            assert forall|f: FlowId| #[trigger] self.queue(f) == Seq::<SequencedPacket>::empty() by {
                assert(self.queue(f).len() == 0);
            }
            assert forall|f: FlowId| #[trigger] writer::of_flow(packets@, f) == in_sequence(
                old(self).queue(f),
            ) by {
                assert(self.queue(f).len() == 0);
            }
        }
        packets
    }
}

/// Within half the sequence space, a queue comes out in the order of sequence numbers.
pub proof fn law_queue_comes_out_in_sequence(
    queue: Seq<SequencedPacket>,
    flow_id: FlowId,
    start: u32,
    i: int,
    j: int,
)
    requires
        writer::belongs(queue, flow_id),
        heap::in_window(queue, start),
        0 <= i <= j < in_sequence(queue).len(),
    ensures
        heap::ahead(in_sequence(queue)[i].spec_seq(), start) <= heap::ahead(
            in_sequence(queue)[j].spec_seq(),
            start,
        ),
        exists|k: int| 0 <= k < queue.len() && (#[trigger] queue[k]).packet == in_sequence(queue)[j],
    decreases queue.len(),
{
    let rest = heap::popped(queue);
    let at = heap::next_index(queue);
    heap::lemma_next_index_bound(queue);
    writer::lemma_belongs_popped(queue, flow_id);
    heap::law_next_is_first(queue, start);
    assert forall|k: int| 0 <= k < rest.len() implies heap::ahead(#[trigger] rest[k].seq, start)
        < 0x8000_0000 by {
        if k < at {
            assert(rest[k] == queue[k]);
        } else {
            assert(rest[k] == queue[k + 1]);
        }
    }
    if j == 0 {
        assert(queue[at].packet == in_sequence(queue)[0]);
    } else {
        assert(in_sequence(queue)[j] == in_sequence(rest)[j - 1]);
        let first = if i > 0 {
            i - 1
        } else {
            j - 1
        };
        law_queue_comes_out_in_sequence(rest, flow_id, start, first, j - 1);
        let k = choose|k: int|
            0 <= k < rest.len() && (#[trigger] rest[k]).packet == in_sequence(rest)[j - 1];
        let source = if k < at {
            k
        } else {
            k + 1
        };
        assert(rest[k] == queue[source]);
        assert(queue[source].packet == in_sequence(queue)[j]);
        if i == 0 {
            assert(!heap::before(queue[source].seq, heap::top(queue).seq));
            heap::law_order_within_a_window(start, queue[source].seq, heap::top(queue).seq);
            assert(heap::ahead(queue[at].seq, start) < 0x8000_0000);
        } else {
            assert(in_sequence(queue)[i] == in_sequence(rest)[i - 1]);
        }
    }
}

/// Nothing is lost or invented when a queue comes out: its packets come out once each.
pub proof fn law_queue_comes_out_whole(queue: Seq<SequencedPacket>)
    ensures
        in_sequence(queue).to_multiset() == queue.map_values(
            |s: SequencedPacket| s.packet,
        ).to_multiset(),
        in_sequence(queue).len() == queue.len(),
    decreases queue.len(),
{
    broadcast use vstd::seq_lib::group_to_multiset_ensures;

    let packets = |s: SequencedPacket| s.packet;
    let waiting = queue.map_values(packets);
    if queue.len() == 0 {
        assert(in_sequence(queue) =~= waiting);
    } else {
        heap::lemma_next_index_bound(queue);
        let at = heap::next_index(queue);
        let rest = heap::popped(queue);
        law_queue_comes_out_whole(rest);
        assert(rest.map_values(packets) =~= waiting.remove(at));
        let first = seq![waiting[at]];
        vstd::seq_lib::lemma_multiset_commutative(first, in_sequence(rest));
        assert(first =~= Seq::empty().push(waiting[at]));
        assert(waiting.contains(waiting[at]));
        assert(waiting.to_multiset().count(waiting[at]) > 0);
        assert(waiting.to_multiset().remove(waiting[at]).insert(waiting[at])
            =~= waiting.to_multiset());
        assert(in_sequence(queue) == first + in_sequence(rest));
        assert(in_sequence(queue).to_multiset() =~= waiting.to_multiset());
    }
}

} // verus!
