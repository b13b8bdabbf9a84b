//! Puts the TCP segments of each flow back in order before they reach an application.
//!
//! Segments that carry data wait in a queue per flow until the sequence number that is due arrives.
//! Segments that lie behind it were delivered before and are dropped. Everything else passes at
//! once.

use std::collections::{HashMap, HashSet};

use vstd::prelude::*;

use crate::node::local::heap::{self, flow_list, PacketHeap, SequencedPacket};
use crate::node::packet::Packet;
use crate::node::FlowId;

verus! {

broadcast use vstd::std_specs::hash::group_hash_axioms;

/// What is known of one flow.
#[verifier::ext_equal]
pub struct FlowQueue {
    /// The segments that wait, in order of arrival.
    pub queue: Seq<SequencedPacket>,
    /// The sequence number that is due, once that is known.
    pub expected: Option<u32>,
    /// Whether the flow is looked at when segments are delivered.
    pub active: bool,
}

/// What a look at a flow leads to.
#[verifier::ext_equal]
pub struct Visit {
    pub state: FlowQueue,
    pub delivered: Seq<Packet>,
}

/// The sequence number after `seq`.
pub open spec fn after_one(seq: u32) -> u32 {
    ((seq + 1) % 0x1_0000_0000) as u32
}

/// The sequence number that is due once a segment with the number `expected` is delivered: its
/// payload is counted, and FIN or RST as one more.
pub open spec fn due_after(expected: u32, packet: Packet) -> u32 {
    ((expected + packet.spec_payload() + if packet.spec_is_fin_or_rst() {
        1int
    } else {
        0int
    }) % 0x1_0000_0000) as u32
}

/// What is left of a queue once segments that come before `expected` are taken out from its front.
pub open spec fn without_stale(queue: Seq<SequencedPacket>, expected: u32) -> Seq<SequencedPacket>
    decreases queue.len(),
{
    if queue.len() > 0 && heap::before(heap::top(queue).seq, expected) {
        proof {
            heap::lemma_next_index_bound(queue);
        }
        without_stale(heap::popped(queue), expected)
    } else {
        queue
    }
}

impl FlowQueue {
    /// A flow of which nothing is known.
    pub open spec fn unknown() -> FlowQueue {
        FlowQueue { queue: Seq::empty(), expected: None, active: false }
    }

    /// Takes in a packet. Data waits; SYN says which number is due; FIN and RST forget it.
    pub open spec fn accept(self, packet: Packet) -> FlowQueue {
        if packet.spec_is_data() {
            FlowQueue {
                queue: self.queue.push(SequencedPacket { seq: packet.spec_seq(), packet }),
                active: true,
                ..self
            }
        } else if packet.spec_is_syn() {
            FlowQueue { expected: Some(after_one(packet.spec_seq())), active: true, ..self }
        } else if packet.spec_is_fin_or_rst() {
            FlowQueue { expected: None, ..self }
        } else {
            self
        }
    }

    /// The number that is due: the known one, or else that of the next segment.
    pub open spec fn due(self) -> u32 {
        match self.expected {
            Some(expected) => expected,
            None => heap::top(self.queue).seq,
        }
    }

    /// Looks at an active flow: drops what lies behind the due number and delivers the segment
    /// with that number. A flow that has nothing left is retired.
    pub open spec fn visit(self) -> Visit {
        if !self.active {
            Visit { state: self, delivered: Seq::empty() }
        } else if self.queue.len() == 0 {
            Visit { state: FlowQueue { active: false, ..self }, delivered: Seq::empty() }
        } else {
            let due = self.due();
            let fresh = without_stale(self.queue, due);
            if fresh.len() > 0 && heap::top(fresh).seq == due {
                let packet = heap::top(fresh).packet;
                let rest = heap::popped(fresh);
                Visit {
                    state: if rest.len() == 0 {
                        FlowQueue { queue: rest, expected: None, active: false }
                    } else {
                        FlowQueue {
                            queue: rest,
                            expected: Some(due_after(due, packet)),
                            active: true,
                        }
                    },
                    delivered: seq![packet],
                }
            } else {
                Visit {
                    state: FlowQueue { queue: fresh, expected: Some(due), active: true },
                    delivered: Seq::empty(),
                }
            }
        }
    }

    /// The segments that can be delivered now, in the order in which they are.
    pub open spec fn in_order(self) -> Seq<Packet>
        decreases self.queue.len(),
    {
        if self.visit().delivered.len() == 0 {
            Seq::empty()
        } else {
            proof {
                lemma_visit_shrinks(self);
            }
            self.visit().delivered + self.visit().state.in_order()
        }
    }

    /// Whether there is nothing to do about a flow: a look delivers nothing and drops nothing. It
    /// may only retire a flow that has nothing left.
    pub open spec fn settled(self) -> bool {
        &&& self.visit().delivered.len() == 0
        &&& self.visit().state == (FlowQueue {
            active: self.active && self.queue.len() > 0,
            ..self
        })
    }

    /// What `n` looks lead to.
    pub open spec fn visits(self, n: nat) -> Visit
        decreases n,
    {
        if n == 0 {
            Visit { state: self, delivered: Seq::empty() }
        } else {
            let earlier = self.visits((n - 1) as nat);
            let last = earlier.state.visit();
            Visit { state: last.state, delivered: earlier.delivered + last.delivered }
        }
    }
}

/// Taking out what lies behind only shortens a queue, and what stays does not lie behind.
pub proof fn lemma_without_stale(queue: Seq<SequencedPacket>, expected: u32)
    ensures
        without_stale(queue, expected).len() <= queue.len(),
        without_stale(queue, expected).len() > 0 ==> !heap::before(
            heap::top(without_stale(queue, expected)).seq,
            expected,
        ),
        without_stale(without_stale(queue, expected), expected) == without_stale(queue, expected),
    decreases queue.len(),
{
    if queue.len() > 0 && heap::before(heap::top(queue).seq, expected) {
        heap::lemma_next_index_bound(queue);
        lemma_without_stale(heap::popped(queue), expected);
    }
}

/// A look never adds to a queue, and one that delivers takes from it.
pub proof fn lemma_visit_shrinks(flow: FlowQueue)
    ensures
        flow.visit().state.queue.len() <= flow.queue.len(),
        flow.visit().delivered.len() > 0 ==> flow.visit().state.queue.len() < flow.queue.len(),
{
    if flow.active && flow.queue.len() > 0 {
        lemma_without_stale(flow.queue, flow.due());
        let fresh = without_stale(flow.queue, flow.due());
        if fresh.len() > 0 {
            heap::lemma_next_index_bound(fresh);
        }
    }
}

/// After a look that delivers nothing, another one delivers nothing either, and there is nothing
/// left to do about a flow whose segments are looked at.
pub proof fn law_idle_look_stays_idle(flow: FlowQueue)
    requires
        flow.visit().delivered.len() == 0,
    ensures
        flow.visit().state.visit().delivered.len() == 0,
        (flow.queue.len() > 0 ==> flow.active) ==> flow.visit().state.settled(),
{
    if flow.active && flow.queue.len() > 0 {
        lemma_without_stale(flow.queue, flow.due());
    }
}

/// Looking on until nothing more comes delivers exactly the segments that are in order.
pub proof fn law_visits_deliver_in_order(flow: FlowQueue, n: nat)
    ensures
        flow.visits(n).delivered + flow.visits(n).state.in_order() == flow.in_order(),
    decreases n,
{
    if n == 0 {
        assert(flow.visits(0).delivered + flow.in_order() =~= flow.in_order());
    } else {
        let earlier = flow.visits((n - 1) as nat);
        law_visits_deliver_in_order(flow, (n - 1) as nat);
        let last = earlier.state.visit();
        if last.delivered.len() == 0 {
            law_idle_look_stays_idle(earlier.state);
            assert(last.state.in_order() =~= Seq::<Packet>::empty());
            assert(earlier.state.in_order() =~= Seq::<Packet>::empty());
            assert(earlier.delivered + last.delivered =~= earlier.delivered);
        } else {
            assert((earlier.delivered + last.delivered) + last.state.in_order()
                =~= earlier.delivered + (last.delivered + last.state.in_order()));
        }
    }
}

/// Whether the segments of a queue belong to a flow and carry data, each under its own number.
pub open spec fn belongs(queue: Seq<SequencedPacket>, flow_id: FlowId) -> bool {
    forall|i: int|
        0 <= i < queue.len() ==> {
            &&& (#[trigger] queue[i]).packet.flow_id == flow_id
            &&& queue[i].packet.spec_is_data()
            &&& queue[i].seq == queue[i].packet.spec_seq()
        }
}

/// The segments of a flow among the delivered ones.
pub open spec fn of_flow(packets: Seq<Packet>, flow_id: FlowId) -> Seq<Packet> {
    packets.filter(|packet: Packet| packet.flow_id == flow_id)
}

proof fn lemma_belongs_without_stale(queue: Seq<SequencedPacket>, expected: u32, flow_id: FlowId)
    requires
        belongs(queue, flow_id),
    ensures
        belongs(without_stale(queue, expected), flow_id),
    decreases queue.len(),
{
    if queue.len() > 0 && heap::before(heap::top(queue).seq, expected) {
        heap::lemma_next_index_bound(queue);
        lemma_belongs_popped(queue, flow_id);
        lemma_belongs_without_stale(heap::popped(queue), expected, flow_id);
    }
}

/// What is delivered together is one gapless run: it begins at the number that was due, and each
/// further segment begins where the one before it ended.
pub proof fn law_deliveries_are_gapless(flow: FlowQueue, flow_id: FlowId, i: int)
    requires
        belongs(flow.queue, flow_id),
        0 <= i < flow.in_order().len(),
    ensures
        flow.in_order()[i].flow_id == flow_id,
        flow.in_order()[i].spec_is_data(),
        flow.in_order()[i].spec_seq() == if i == 0 {
            flow.due()
        } else {
            due_after(flow.in_order()[i - 1].spec_seq(), flow.in_order()[i - 1])
        },
    decreases i,
{
    let first = flow.visit();
    let fresh = without_stale(flow.queue, flow.due());
    lemma_belongs_without_stale(flow.queue, flow.due(), flow_id);
    heap::lemma_next_index_bound(fresh);
    lemma_belongs_popped(fresh, flow_id);
    assert(heap::top(fresh).seq == heap::top(fresh).packet.spec_seq());
    assert(flow.in_order()[0] == first.delivered[0]);
    if i > 0 {
        assert(flow.in_order()[i] == first.state.in_order()[i - 1]);
        law_deliveries_are_gapless(first.state, flow_id, i - 1);
        if i > 1 {
            assert(flow.in_order()[i - 1] == first.state.in_order()[i - 2]);
        }
    }
}

/// Once a SYN was seen, delivery begins with the number after it.
pub proof fn law_syn_seeds_the_order(flow: FlowQueue, syn: Packet, data: Packet)
    requires
        flow.queue.len() == 0,
        !syn.spec_is_data(),
        syn.spec_is_syn(),
        data.spec_is_data(),
    ensures
        flow.accept(syn).accept(data).in_order().len() > 0 <==> data.spec_seq() == after_one(
            syn.spec_seq(),
        ),
{
    let seeded = flow.accept(syn).accept(data);
    lemma_without_stale(seeded.queue, seeded.due());
    assert(seeded.queue[0].seq == data.spec_seq());
    heap::lemma_next_index_bound(seeded.queue);
    lemma_without_stale(heap::popped(seeded.queue), seeded.due());
}

/// Reorders the segments of all flows that leave through one device.
pub struct ReorderQueues {
    queue_map: HashMap<FlowId, PacketHeap>,
    active_flows: HashSet<FlowId>,
    expected_seq_map: HashMap<FlowId, u32>,
}

/// Whether packets and states are what a number of looks at each flow lead to.
pub open spec fn visited(
    earlier: ReorderQueues,
    later: ReorderQueues,
    packets: Seq<Packet>,
    rounds: nat,
) -> bool {
    forall|f: FlowId|
        {
            &&& #[trigger] later.flow(f) == earlier.flow(f).visits(rounds).state
            &&& of_flow(packets, f) == earlier.flow(f).visits(rounds).delivered
        }
}

/// Whether some flow delivered in the round with this number, counted from 1.
pub open spec fn some_delivered(queues: ReorderQueues, round: nat) -> bool {
    exists|f: FlowId|
        (#[trigger] queues.flow(f)).visits((round - 1) as nat).state.visit().delivered.len() > 0
}

/// Whether the round with this number, counted from 1, is the first in which no flow delivered.
pub open spec fn is_last_round(queues: ReorderQueues, rounds: nat) -> bool {
    &&& rounds > 0
    &&& !some_delivered(queues, rounds)
    &&& forall|n: nat| 0 < n < rounds ==> #[trigger] some_delivered(queues, n)
}

/// The number of segments of some flows that wait.
spec fn waiting(queues: ReorderQueues, flows: Seq<FlowId>) -> nat
    decreases flows.len(),
{
    if flows.len() == 0 {
        0
    } else {
        waiting(queues, flows.drop_last()) + queues.flow(flows.last()).queue.len()
    }
}

proof fn lemma_waiting(before: ReorderQueues, after: ReorderQueues, flows: Seq<FlowId>)
    requires
        forall|f: FlowId| #[trigger]
            after.flow(f).queue.len() <= before.flow(f).queue.len(),
    ensures
        waiting(after, flows) <= waiting(before, flows),
        forall|f: FlowId|
            flows.contains(f) && #[trigger] after.flow(f).queue.len() < before.flow(f).queue.len()
                ==> waiting(after, flows) < waiting(before, flows),
    decreases flows.len(),
{
    if flows.len() > 0 {
        lemma_waiting(before, after, flows.drop_last());
        assert(after.flow(flows.last()).queue.len() <= before.flow(flows.last()).queue.len());
        assert forall|f: FlowId|
            flows.contains(f) && #[trigger] after.flow(f).queue.len() < before.flow(
                f,
            ).queue.len() implies waiting(after, flows) < waiting(before, flows) by {
            let i = choose|i: int| 0 <= i < flows.len() && flows[i] == f;
            if i < flows.len() - 1 {
                assert(flows.drop_last()[i] == f);
            }
        }
    }
}

pub proof fn lemma_of_flow_push(packets: Seq<Packet>, packet: Packet, flow_id: FlowId)
    ensures
        of_flow(packets.push(packet), flow_id) == if packet.flow_id == flow_id {
            of_flow(packets, flow_id).push(packet)
        } else {
            of_flow(packets, flow_id)
        },
{
    reveal(Seq::filter);
    assert(packets.push(packet).drop_last() =~= packets);
}

pub proof fn lemma_belongs_popped(queue: Seq<SequencedPacket>, flow_id: FlowId)
    requires
        queue.len() > 0,
        belongs(queue, flow_id),
    ensures
        belongs(heap::popped(queue), flow_id),
        heap::top(queue).packet.flow_id == flow_id,
        heap::top(queue).packet.spec_is_data(),
{
    heap::lemma_next_index_bound(queue);
    let at = next_at(queue);
    assert forall|i: int| 0 <= i < heap::popped(queue).len() implies {
        &&& (#[trigger] heap::popped(queue)[i]).packet.flow_id == flow_id
        &&& heap::popped(queue)[i].packet.spec_is_data()
        &&& heap::popped(queue)[i].seq == heap::popped(queue)[i].packet.spec_seq()
    } by {
        if i < at {
            assert(heap::popped(queue)[i] == queue[i]);
        } else {
            assert(heap::popped(queue)[i] == queue[i + 1]);
        }
    }
}

spec fn next_at(queue: Seq<SequencedPacket>) -> int {
    heap::next_index(queue)
}

impl ReorderQueues {
    /// What is known of a flow.
    pub closed spec fn flow(&self, flow_id: FlowId) -> FlowQueue {
        FlowQueue {
            queue: if self.queue_map@.contains_key(flow_id) {
                self.queue_map@[flow_id]@
            } else {
                Seq::empty()
            },
            expected: if self.expected_seq_map@.contains_key(flow_id) {
                Some(self.expected_seq_map@[flow_id])
            } else {
                None
            },
            active: self.active_flows@.contains(flow_id),
        }
    }

    /// Every queue holds data of its own flow, and a flow with a queue is active.
    pub open spec fn wf(&self) -> bool {
        forall|f: FlowId|
            {
                &&& belongs((#[trigger] self.flow(f)).queue, f)
                &&& self.flow(f).queue.len() > 0 ==> self.flow(f).active
            }
    }

    /// No flow is known yet.
    pub fn new() -> (queues: Self)
        ensures
            queues.wf(),
            forall|f: FlowId| #[trigger] queues.flow(f) == FlowQueue::unknown(),
    {
        let queues = ReorderQueues {
            queue_map: HashMap::new(),
            active_flows: HashSet::new(),
            expected_seq_map: HashMap::new(),
        };
        assert forall|f: FlowId| #[trigger] queues.flow(f) == FlowQueue::unknown() by {
            assert(queues.flow(f) =~= FlowQueue::unknown());
        }
        queues
    }

    /// Takes in a packet. One that is not to be held back is returned, for immediate delivery.
    pub fn accept(&mut self, packet: Packet) -> (immediate: Option<Packet>)
        requires
            old(self).wf(),
        ensures
            final(self).wf(),
            final(self).flow(packet.flow_id) == old(self).flow(packet.flow_id).accept(packet),
            forall|f: FlowId|
                f != packet.flow_id ==> #[trigger] final(self).flow(f) == old(self).flow(f),
            immediate == if packet.spec_is_data() {
                None
            } else {
                Some(packet)
            },
    {
        let flow_id = packet.flow_id;
        let ghost known = self.flow(flow_id);
        if !packet.is_tcp_data() {
            if packet.is_tcp_syn() {
                let start: u32 = packet.seq_num().wrapping_add(1);
                self.expected_seq_map.insert(flow_id, start);
                self.active_flows.insert(flow_id);
            } else if packet.is_tcp_fin_or_rst() {
                self.expected_seq_map.remove(&flow_id);
            }
            assert(self.flow(flow_id) =~= known.accept(packet));
            assert forall|f: FlowId| f != flow_id implies #[trigger] self.flow(f) == old(self).flow(
                f,
            ) by {
                assert(self.flow(f) =~= old(self).flow(f));
            }
            return Some(packet);
        }
        let seq: u32 = packet.seq_num();
        let mut heap = match self.queue_map.remove(&flow_id) {
            Some(heap) => heap,
            None => PacketHeap::new(),
        };
        assert(heap@ == known.queue);
        heap.push(SequencedPacket { seq, packet });
        self.queue_map.insert(flow_id, heap);
        self.active_flows.insert(flow_id);
        assert(self.flow(flow_id) =~= known.accept(packet));
        assert forall|f: FlowId| f != flow_id implies #[trigger] self.flow(f) == old(self).flow(
            f,
        ) by {
            assert(self.flow(f) =~= old(self).flow(f));
        }
        None
    }

    /// Looks at one active flow.
    fn visit_flow(&mut self, flow_id: FlowId) -> (delivered: Option<Packet>)
        requires
            old(self).wf(),
            old(self).flow(flow_id).active,
        ensures
            final(self).wf(),
            final(self).flow(flow_id) == old(self).flow(flow_id).visit().state,
            forall|f: FlowId| f != flow_id ==> #[trigger] final(self).flow(f) == old(self).flow(f),
            old(self).flow(flow_id).visit().delivered == (match delivered {
                Some(packet) => seq![packet],
                None => Seq::empty(),
            }),
            delivered matches Some(packet) ==> packet.flow_id == flow_id,
    {
        let ghost known = self.flow(flow_id);
        let mut heap = match self.queue_map.remove(&flow_id) {
            Some(heap) => heap,
            None => PacketHeap::new(),
        };
        assert(heap@ == known.queue);
        let top_seq: u32 = match heap.peek_seq() {
            Some(seq) => seq,
            None => {
                self.active_flows.remove(&flow_id);
                assert(self.flow(flow_id) =~= known.visit().state);
                assert forall|f: FlowId| f != flow_id implies #[trigger] self.flow(f) == old(
                    self,
                ).flow(f) by {
                    assert(self.flow(f) =~= old(self).flow(f));
                }
                return None;
            },
        };
        let expected: u32 = match self.expected_seq_map.get(&flow_id) {
            Some(expected) => *expected,
            None => top_seq,
        };
        self.expected_seq_map.insert(flow_id, expected);
        assert(expected == known.due());
        let mut next: Option<u32> = Some(top_seq);
        while is_stale(next, expected)
            invariant
                belongs(heap@, flow_id),
                next == (if heap@.len() == 0 {
                    None
                } else {
                    Some(heap::top(heap@).seq)
                }),
                without_stale(heap@, expected) == without_stale(known.queue, expected),
            decreases heap@.len(),
        {
            proof {
                heap::lemma_next_index_bound(heap@);
                lemma_belongs_popped(heap@, flow_id);
            }
            heap.pop();
            next = heap.peek_seq();
        }
        let mut delivered: Option<Packet> = None;
        if let Some(seq) = next {
            if seq == expected {
                proof {
                    heap::lemma_next_index_bound(heap@);
                    lemma_belongs_popped(heap@, flow_id);
                }
                if let Some(sequenced) = heap.pop() {
                    let packet = sequenced.packet;
                    let due: u32 = due_seq(expected, &packet);
                    self.expected_seq_map.insert(flow_id, due);
                    if heap.is_empty() {
                        self.active_flows.remove(&flow_id);
                        self.expected_seq_map.remove(&flow_id);
                    }
                    delivered = Some(packet);
                }
            }
        }
        self.queue_map.insert(flow_id, heap);
        assert(self.flow(flow_id) =~= known.visit().state);
        assert forall|f: FlowId| f != flow_id implies #[trigger] self.flow(f) == old(self).flow(
            f,
        ) by {
            assert(self.flow(f) =~= old(self).flow(f));
        }
        delivered
    }

    /// Delivers what is in order: in rounds, each active flow is looked at once, up to the first
    /// round in which no flow delivers.
    pub fn drain(&mut self) -> (delivered: Vec<Packet>)
        requires
            old(self).wf(),
        ensures
            final(self).wf(),
            forall|f: FlowId| #[trigger]
                of_flow(delivered@, f) == old(self).flow(f).in_order(),
            forall|f: FlowId| (#[trigger] final(self).flow(f)).settled(),
            exists|rounds: nat|
                {
                    &&& #[trigger] is_last_round(*old(self), rounds)
                    &&& visited(*old(self), *final(self), delivered@, rounds)
                },
    {
        let mut delivered: Vec<Packet> = Vec::new();
        let first = flow_list(&self.active_flows);
        let ghost flows = first@;
        let ghost mut rounds: nat = 0;
        proof {
            reveal(Seq::filter);
            assert forall|f: FlowId| self.flow(f).active implies flows.contains(f) by {
                assert(flows.to_set().contains(f));
            }
        }
        loop
            invariant_except_break
                forall|n: nat| 0 < n <= rounds ==> #[trigger] some_delivered(*old(self), n),
            invariant
                self.wf(),
                visited(*old(self), *self, delivered@, rounds),
                forall|f: FlowId| self.flow(f).active ==> flows.contains(f),
            ensures
                is_last_round(*old(self), rounds),
                forall|f: FlowId| (#[trigger] self.flow(f)).settled(),
            decreases waiting(*self, flows),
        {
            let ghost round = *self;
            let ghost seen = delivered@;
            let flow_ids = flow_list(&self.active_flows);
            let mut progressed_any: bool = false;
            let ghost mut done: Set<FlowId> = Set::empty();
            let mut i: usize = 0;
            proof {
                assert forall|f: FlowId| self.flow(f).active <==> flow_ids@.contains(f) by {
                    assert(flow_ids@.to_set().contains(f) <==> self.active_flows@.contains(f));
                }
            }
            while i < flow_ids.len()
                invariant
                    i <= flow_ids.len(),
                    flow_ids@.no_duplicates(),
                    self.wf(),
                    forall|f: FlowId| #[trigger] round.flow(f).active <==> flow_ids@.contains(f),
                    forall|f: FlowId| #[trigger]
                        done.contains(f) <==> flow_ids@.take(i as int).contains(f),
                    forall|f: FlowId| #[trigger]
                        self.flow(f) == if done.contains(f) {
                            round.flow(f).visit().state
                        } else {
                            round.flow(f)
                        },
                    forall|f: FlowId| #[trigger]
                        of_flow(delivered@, f) == if done.contains(f) {
                            of_flow(seen, f) + round.flow(f).visit().delivered
                        } else {
                            of_flow(seen, f)
                        },
                    progressed_any == exists|f: FlowId| #[trigger]
                        done.contains(f) && round.flow(f).visit().delivered.len() > 0,
                decreases flow_ids.len() - i,
            {
                let flow_id = flow_ids[i];
                let ghost earlier = done;
                let ghost so_far = delivered@;
                proof {
                    let taken = flow_ids@.take(i as int);
                    assert(flow_ids@.take(i + 1) =~= taken.push(flow_id));
                    if taken.contains(flow_id) {
                        let j = choose|j: int| 0 <= j < taken.len() && taken[j] == flow_id;
                        assert(flow_ids@[j] == flow_ids@[i as int]);
                    }
                    assert(!done.contains(flow_id));
                    assert(flow_ids@.contains(flow_id));
                    assert(round.flow(flow_id).active);
                    assert(self.flow(flow_id) == round.flow(flow_id));
                    assert(of_flow(delivered@, flow_id) == of_flow(seen, flow_id));
                    done = done.insert(flow_id);
                    assert forall|f: FlowId| #[trigger]
                        done.contains(f) <==> flow_ids@.take(i + 1).contains(f) by {
                        assert(earlier.contains(f) <==> taken.contains(f));
                        if f == flow_id {
                            assert(flow_ids@.take(i + 1)[i as int] == f);
                        }
                        if taken.contains(f) {
                            let j = choose|j: int| 0 <= j < taken.len() && taken[j] == f;
                            assert(flow_ids@.take(i + 1)[j] == f);
                        }
                    }
                }
                let next = self.visit_flow(flow_id);
                let ghost looked = round.flow(flow_id).visit().delivered;
                if let Some(packet) = next {
                    proof {
                        assert forall|f: FlowId| #[trigger]
                            of_flow(so_far.push(packet), f) == if f == flow_id {
                                of_flow(so_far, f).push(packet)
                            } else {
                                of_flow(so_far, f)
                            } by {
                            lemma_of_flow_push(so_far, packet, f);
                        }
                    }
                    delivered.push(packet);
                    progressed_any = true;
                }
                proof {
                    assert(of_flow(delivered@, flow_id) =~= of_flow(so_far, flow_id) + looked);
                    assert(done.contains(flow_id));
                    assert(forall|f: FlowId| #[trigger]
                        done.contains(f) ==> f == flow_id || earlier.contains(f));
                    assert(forall|f: FlowId| #[trigger] earlier.contains(f) ==> done.contains(f));
                }
                i = i + 1;
            }
            proof {
                assert(flow_ids@.take(i as int) =~= flow_ids@);
                lemma_round_is_over(*old(self), round, *self, seen, delivered@, done, rounds);
                lemma_round_shrinks(round, *self, flows, done);
                rounds = rounds + 1;
            }
            if !progressed_any {
                proof {
                    assert forall|f: FlowId| (#[trigger] self.flow(f)).settled() by {
                        assert(done.contains(f) <==> round.flow(f).active);
                        if done.contains(f) {
                            law_idle_look_stays_idle(round.flow(f));
                        }
                    }
                }
                break;
            }
        }
        proof {
            assert forall|f: FlowId| #[trigger] of_flow(delivered@, f) == old(self).flow(
                f,
            ).in_order() by {
                assert(self.flow(f) == old(self).flow(f).visits(rounds).state);
                law_visits_deliver_in_order(old(self).flow(f), rounds);
                assert(self.flow(f).settled());
                assert(of_flow(delivered@, f) + self.flow(f).in_order() =~= of_flow(
                    delivered@,
                    f,
                ));
            }
        }
        delivered
    }
}

/// Once every active flow was looked at, one more round is over.
proof fn lemma_round_is_over(
    start: ReorderQueues,
    round: ReorderQueues,
    later: ReorderQueues,
    seen: Seq<Packet>,
    delivered: Seq<Packet>,
    done: Set<FlowId>,
    rounds: nat,
)
    requires
        visited(start, round, seen, rounds),
        forall|f: FlowId| #[trigger] done.contains(f) <==> round.flow(f).active,
        forall|f: FlowId| #[trigger]
            later.flow(f) == if done.contains(f) {
                round.flow(f).visit().state
            } else {
                round.flow(f)
            },
        forall|f: FlowId| #[trigger]
            of_flow(delivered, f) == if done.contains(f) {
                of_flow(seen, f) + round.flow(f).visit().delivered
            } else {
                of_flow(seen, f)
            },
    ensures
        visited(start, later, delivered, rounds + 1),
        some_delivered(start, rounds + 1) == exists|f: FlowId| #[trigger]
            done.contains(f) && round.flow(f).visit().delivered.len() > 0,
{
    assert forall|f: FlowId|
        {
            &&& #[trigger] later.flow(f) == start.flow(f).visits(rounds + 1).state
            &&& of_flow(delivered, f) == start.flow(f).visits(rounds + 1).delivered
        } by {
        assert(round.flow(f) == start.flow(f).visits(rounds).state);
        assert(done.contains(f) <==> round.flow(f).active);
        assert(of_flow(delivered, f) == if done.contains(f) {
            of_flow(seen, f) + round.flow(f).visit().delivered
        } else {
            of_flow(seen, f)
        });
        assert(of_flow(seen, f) + Seq::<Packet>::empty() =~= of_flow(seen, f));
    }
    assert forall|f: FlowId|
        (#[trigger] start.flow(f)).visits(rounds).state.visit().delivered.len() > 0 <==> (
        done.contains(f) && round.flow(f).visit().delivered.len() > 0) by {
        assert(round.flow(f) == start.flow(f).visits(rounds).state);
        assert(done.contains(f) <==> round.flow(f).active);
    }
    if exists|f: FlowId| #[trigger]
        done.contains(f) && round.flow(f).visit().delivered.len() > 0 {
        let f = choose|f: FlowId| #[trigger]
            done.contains(f) && round.flow(f).visit().delivered.len() > 0;
        assert(start.flow(f).visits(rounds).state.visit().delivered.len() > 0);
    }
}

/// A round in which a segment was delivered leaves fewer that wait, and no round activates a flow.
proof fn lemma_round_shrinks(
    round: ReorderQueues,
    later: ReorderQueues,
    flows: Seq<FlowId>,
    done: Set<FlowId>,
)
    requires
        forall|f: FlowId| #[trigger] done.contains(f) ==> flows.contains(f),
        forall|f: FlowId| #[trigger]
            later.flow(f) == if done.contains(f) {
                round.flow(f).visit().state
            } else {
                round.flow(f)
            },
    ensures
        (exists|f: FlowId| #[trigger]
            done.contains(f) && round.flow(f).visit().delivered.len() > 0) ==> waiting(later, flows)
            < waiting(round, flows),
        forall|f: FlowId| (#[trigger] later.flow(f)).active ==> round.flow(f).active,
{
    assert forall|f: FlowId| #[trigger]
        later.flow(f).queue.len() <= round.flow(f).queue.len() by {
        lemma_visit_shrinks(round.flow(f));
    }
    lemma_waiting(round, later, flows);
    if exists|f: FlowId| #[trigger]
        done.contains(f) && round.flow(f).visit().delivered.len() > 0 {
        let f = choose|f: FlowId| #[trigger]
            done.contains(f) && round.flow(f).visit().delivered.len() > 0;
        lemma_visit_shrinks(round.flow(f));
        assert(later.flow(f).queue.len() < round.flow(f).queue.len());
    }
}

/// Whether the next segment comes before the number that is due.
fn is_stale(next: Option<u32>, expected: u32) -> (stale: bool)
    ensures
        stale == (next matches Some(seq) && heap::before(seq, expected)),
{
    match next {
        Some(seq) => SequencedPacket::seq_less(seq, expected),
        None => false,
    }
}

/// The number that is due after a segment.
pub(crate) fn due_seq(expected: u32, packet: &Packet) -> (due: u32)
    ensures
        due == due_after(expected, *packet),
{
    let payload: usize = packet.tcp_payload_len();
    proof {
        let wide = payload as u64;
        assert(wide as u32 == wide % 0x1_0000_0000) by (bit_vector);
    }
    let counted: u32 = expected.wrapping_add(payload as u32);
    if packet.is_tcp_fin_or_rst() {
        counted.wrapping_add(1)
    } else {
        counted
    }
}

} // verus!
