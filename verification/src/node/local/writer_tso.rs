//! Puts the TCP segments of each flow back in order, and gives up on a gap after a while.
//!
//! As in the plain writer, segments that carry data wait until the sequence number that is due
//! arrives. Here the number that is due never moves back, segments that lie behind it are passed on
//! rather than dropped, and a gap is skipped once its deadline has passed. Packets leave in batches.

use std::collections::{HashMap, HashSet};

use vstd::prelude::*;

use crate::node::local::heap::{self, flow_list, PacketHeap, SequencedPacket};
use crate::node::local::writer::{self, due_seq};
use crate::node::packet::Packet;
use crate::node::FlowId;

verus! {

broadcast use vstd::std_specs::hash::group_hash_axioms;

/// What is known of one flow.
#[verifier::ext_equal]
pub struct GapQueue {
    /// The segments that wait, in order of arrival.
    pub queue: Seq<SequencedPacket>,
    /// The sequence number that is due, once that is known.
    pub expected: Option<u32>,
    /// Whether the flow is looked at when segments are delivered.
    pub active: bool,
    /// When the gap in front of the next segment is given up, in nanoseconds.
    pub deadline: Option<u64>,
}

/// What looks at a flow lead to.
#[verifier::ext_equal]
pub struct Look {
    pub state: GapQueue,
    pub delivered: Seq<Packet>,
    /// Whether there may be more to do at once.
    pub again: bool,
    /// Whether a deadline was set.
    pub armed: bool,
}

/// The later of two sequence numbers, where the second counts only if it is ahead of the first.
pub open spec fn forward(current: u32, proposed: u32) -> u32 {
    if heap::before(current, proposed) {
        proposed
    } else {
        current
    }
}

impl GapQueue {
    /// A flow of which nothing is known.
    pub open spec fn unknown() -> GapQueue {
        GapQueue { queue: Seq::empty(), expected: None, active: false, deadline: None }
    }

    /// Takes in a packet. Data waits; SYN says which number is due; FIN and RST may move that
    /// number forward, never back.
    pub open spec fn accept(self, packet: Packet) -> GapQueue {
        let next = writer::after_one(packet.spec_seq());
        if packet.spec_is_data() {
            GapQueue {
                queue: self.queue.push(SequencedPacket { seq: packet.spec_seq(), packet }),
                active: true,
                ..self
            }
        } else if packet.spec_is_syn() {
            GapQueue { expected: Some(next), active: true, deadline: None, ..self }
        } else if packet.spec_is_fin_or_rst() {
            GapQueue {
                expected: Some(
                    match self.expected {
                        Some(expected) => forward(expected, next),
                        None => next,
                    },
                ),
                deadline: None,
                ..self
            }
        } else {
            self
        }
    }

    /// The number that is due: the known one, or else that of the next segment.
    pub open spec fn due(self) -> u32 {
        match self.expected {
            Some(expected) => expected,
            None => heap::top(self.queue).seq,
        }
    }

    /// Whether the next segment lies ahead of the number that is due.
    pub open spec fn has_gap(self) -> bool {
        self.queue.len() > 0 && heap::top(self.queue).seq != self.due() && !heap::before(
            heap::top(self.queue).seq,
            self.due(),
        )
    }

    /// Looks at a flow once, at time `now`.
    pub open spec fn look(self, now: u64, gap_timeout: u64) -> Look {
        if self.queue.len() == 0 {
            Look {
                state: GapQueue { active: false, deadline: None, ..self },
                delivered: Seq::empty(),
                again: false,
                armed: false,
            }
        } else {
            let due = self.due();
            let known = GapQueue { expected: Some(due), ..self };
            let packet = heap::top(self.queue).packet;
            let rest = heap::popped(self.queue);
            if heap::before(heap::top(self.queue).seq, due) {
                Look {
                    state: GapQueue { queue: rest, ..known },
                    delivered: seq![packet],
                    again: true,
                    armed: false,
                }
            } else if heap::top(self.queue).seq == due {
                Look {
                    state: GapQueue {
                        queue: rest,
                        expected: Some(forward(due, writer::due_after(due, packet))),
                        active: self.active && rest.len() > 0,
                        deadline: None,
                    },
                    delivered: seq![packet],
                    again: true,
                    armed: false,
                }
            } else {
                match self.deadline {
                    Some(deadline) => if now >= deadline {
                        Look {
                            state: GapQueue {
                                expected: Some(heap::top(self.queue).seq),
                                deadline: None,
                                ..self
                            },
                            delivered: Seq::empty(),
                            again: true,
                            armed: false,
                        }
                    } else {
                        Look {
                            state: known,
                            delivered: Seq::empty(),
                            again: false,
                            armed: false,
                        }
                    },
                    None => Look {
                        state: GapQueue { deadline: Some((now + gap_timeout) as u64), ..known },
                        delivered: Seq::empty(),
                        again: false,
                        armed: true,
                    },
                }
            }
        }
    }

    /// A number that every look which leads on makes smaller, and no look makes larger.
    pub open spec fn effort(self) -> nat {
        self.queue.len() * 4 + if !self.has_gap() {
            0nat
        } else if self.deadline is None {
            2nat
        } else {
            1nat
        }
    }

    /// What a turn leads to: looks at a flow until there is nothing more to do at once. It moves
    /// something where the first look leads on.
    pub open spec fn turn(self, now: u64, gap_timeout: u64) -> Look
        decreases self.effort(),
    {
        let look = self.look(now, gap_timeout);
        if look.again {
            proof {
                lemma_look_effort(self, now, gap_timeout);
            }
            let rest = look.state.turn(now, gap_timeout);
            Look {
                state: rest.state,
                delivered: look.delivered + rest.delivered,
                again: true,
                armed: look.armed || rest.armed,
            }
        } else {
            look
        }
    }

    /// What `n` turns lead to, of which an inactive flow takes none; `again` tells whether the last
    /// of them moved anything.
    pub open spec fn turns(self, n: nat, now: u64, gap_timeout: u64) -> Look
        decreases n,
    {
        if n == 0 {
            Look { state: self, delivered: Seq::empty(), again: false, armed: false }
        } else {
            let earlier = self.turns((n - 1) as nat, now, gap_timeout);
            if earlier.state.active {
                let last = earlier.state.turn(now, gap_timeout);
                Look {
                    state: last.state,
                    delivered: earlier.delivered + last.delivered,
                    again: last.again,
                    armed: earlier.armed || last.armed,
                }
            } else {
                Look { again: false, ..earlier }
            }
        }
    }

    /// The segments that leave at time `now`: those that lie behind, those that are in order, and
    /// those behind a gap whose deadline has passed.
    pub open spec fn released(self, now: u64, gap_timeout: u64) -> Seq<Packet> {
        self.turn(now, gap_timeout).delivered
    }
}

/// A look takes from the effort that is left, and a look that leads on takes something.
pub proof fn lemma_look_effort(flow: GapQueue, now: u64, gap_timeout: u64)
    ensures
        flow.look(now, gap_timeout).state.effort() <= flow.effort(),
        flow.look(now, gap_timeout).again ==> flow.look(now, gap_timeout).state.effort()
            < flow.effort(),
{
    if flow.queue.len() > 0 {
        heap::lemma_next_index_bound(flow.queue);
    }
}

/// A turn takes from the effort that is left, and one that moves anything takes something. It
/// activates no flow.
proof fn lemma_turn_effort(flow: GapQueue, now: u64, gap_timeout: u64)
    ensures
        flow.turn(now, gap_timeout).state.effort() <= flow.effort(),
        flow.turn(now, gap_timeout).again ==> flow.turn(now, gap_timeout).state.effort()
            < flow.effort(),
        flow.turn(now, gap_timeout).state.active ==> flow.active,
    decreases flow.effort(),
{
    lemma_look_effort(flow, now, gap_timeout);
    let look = flow.look(now, gap_timeout);
    if look.again {
        lemma_turn_effort(look.state, now, gap_timeout);
    }
}

/// With a positive timeout, a flow that was looked at in vain has nothing to do at the same time.
pub proof fn law_idle_look_stays_idle(flow: GapQueue, now: u64, gap_timeout: u64)
    requires
        gap_timeout > 0,
        now + gap_timeout <= u64::MAX,
        !flow.look(now, gap_timeout).again,
    ensures
        !flow.look(now, gap_timeout).state.look(now, gap_timeout).again,
        flow.look(now, gap_timeout).state.look(now, gap_timeout).delivered.len() == 0,
        flow.released(now, gap_timeout).len() == 0,
        flow.look(now, gap_timeout).state.released(now, gap_timeout).len() == 0,
{
}

/// With a positive timeout, a flow has nothing to do at the same time once it took its turn.
pub proof fn law_turn_leaves_nothing_to_do(flow: GapQueue, now: u64, gap_timeout: u64)
    requires
        gap_timeout > 0,
        now + gap_timeout <= u64::MAX,
    ensures
        !flow.turn(now, gap_timeout).state.turn(now, gap_timeout).again,
        flow.turn(now, gap_timeout).state.released(now, gap_timeout) == Seq::<Packet>::empty(),
    decreases flow.effort(),
{
    let look = flow.look(now, gap_timeout);
    if look.again {
        lemma_look_effort(flow, now, gap_timeout);
        law_turn_leaves_nothing_to_do(look.state, now, gap_timeout);
    } else {
        law_idle_look_stays_idle(flow, now, gap_timeout);
    }
}

/// With a positive timeout, an active flow releases in its first turn all that leaves, and further
/// turns move nothing.
pub proof fn law_first_turn_releases_all(flow: GapQueue, n: nat, now: u64, gap_timeout: u64)
    requires
        gap_timeout > 0,
        now + gap_timeout <= u64::MAX,
        flow.active,
        n > 0,
    ensures
        flow.turns(n, now, gap_timeout).delivered == flow.released(now, gap_timeout),
        n > 1 ==> !flow.turns(n, now, gap_timeout).again,
        !flow.turns(n, now, gap_timeout).state.turn(now, gap_timeout).again,
    decreases n,
{
    let earlier = flow.turns((n - 1) as nat, now, gap_timeout);
    law_turn_leaves_nothing_to_do(earlier.state, now, gap_timeout);
    assert(flow.turns(0, now, gap_timeout).delivered =~= Seq::<Packet>::empty());
    if n > 1 {
        law_first_turn_releases_all(flow, (n - 1) as nat, now, gap_timeout);
        let last = earlier.state.turn(now, gap_timeout);
        assert(last == earlier.state.look(now, gap_timeout));
        assert(earlier.delivered + Seq::<Packet>::empty() =~= earlier.delivered);
        assert(last.delivered =~= Seq::<Packet>::empty());
    } else {
        assert(flow.turns(1, now, gap_timeout).delivered =~= flow.released(now, gap_timeout));
    }
}

/// The number that is due never moves back, but for a SYN.
pub proof fn law_due_number_moves_forward(flow: GapQueue, packet: Packet, now: u64, timeout: u64)
    requires
        flow.expected is Some,
    ensures
        flow.look(now, timeout).state.expected matches Some(due) && (due == flow.due() || heap::before(
            flow.due(),
            due,
        )),
        packet.spec_is_data() || !packet.spec_is_syn() ==> (flow.accept(packet).expected matches Some(
            due,
        ) && (due == flow.due() || heap::before(flow.due(), due))),
{
}

/// Whether the segments that waited wait still or were delivered.
spec fn keeps_segments(flow: GapQueue, look: Look) -> bool {
    let packets = |s: SequencedPacket| s.packet;
    flow.queue.map_values(packets).to_multiset() =~= look.state.queue.map_values(
        packets,
    ).to_multiset().add(look.delivered.to_multiset())
}

proof fn lemma_look_keeps_segments(flow: GapQueue, now: u64, gap_timeout: u64)
    ensures
        keeps_segments(flow, flow.look(now, gap_timeout)),
{
    broadcast use vstd::seq_lib::group_to_multiset_ensures;

    let packets = |s: SequencedPacket| s.packet;
    let look = flow.look(now, gap_timeout);
    let queue = flow.queue;
    if look.delivered.len() > 0 {
        heap::lemma_next_index_bound(queue);
        let at = heap::next_index(queue);
        let waiting = queue.map_values(packets);
        assert(heap::popped(queue).map_values(packets) =~= waiting.remove(at));
        assert(waiting.remove(at).to_multiset() =~= waiting.to_multiset().remove(waiting[at]));
        assert(look.delivered =~= Seq::empty().push(waiting[at]));
        assert(waiting.contains(waiting[at]));
        assert(waiting.to_multiset().contains(waiting[at]));
    } else {
        assert(look.delivered =~= Seq::empty());
    }
}

proof fn lemma_turn_keeps_segments(flow: GapQueue, now: u64, gap_timeout: u64)
    ensures
        keeps_segments(flow, flow.turn(now, gap_timeout)),
    decreases flow.effort(),
{
    lemma_look_keeps_segments(flow, now, gap_timeout);
    let look = flow.look(now, gap_timeout);
    if look.again {
        lemma_look_effort(flow, now, gap_timeout);
        lemma_turn_keeps_segments(look.state, now, gap_timeout);
        let rest = look.state.turn(now, gap_timeout);
        vstd::seq_lib::lemma_multiset_commutative(look.delivered, rest.delivered);
    }
}

/// Turns neither lose nor invent a segment: what waited before waits still or was delivered.
pub proof fn law_no_segment_is_lost(flow: GapQueue, n: nat, now: u64, gap_timeout: u64)
    ensures
        ({
            let turns = flow.turns(n, now, gap_timeout);
            flow.queue.map_values(|s: SequencedPacket| s.packet).to_multiset()
                =~= turns.state.queue.map_values(|s: SequencedPacket| s.packet).to_multiset().add(
                turns.delivered.to_multiset(),
            )
        }),
    decreases n,
{
    broadcast use vstd::seq_lib::group_to_multiset_ensures;

    if n > 0 {
        let earlier = flow.turns((n - 1) as nat, now, gap_timeout);
        law_no_segment_is_lost(flow, (n - 1) as nat, now, gap_timeout);
        if earlier.state.active {
            let last = earlier.state.turn(now, gap_timeout);
            lemma_turn_keeps_segments(earlier.state, now, gap_timeout);
            vstd::seq_lib::lemma_multiset_commutative(earlier.delivered, last.delivered);
        }
    }
}

/// Reorders the segments of all flows that leave through one device.
pub struct GapReorderQueues {
    queue_map: HashMap<FlowId, PacketHeap>,
    active_flows: HashSet<FlowId>,
    expected_seq_map: HashMap<FlowId, u32>,
    gap_deadlines: HashMap<FlowId, u64>,
}

/// What comes out of the queues at one time.
pub struct Drained {
    /// The packets to write, in order.
    pub packets: Vec<Packet>,
    /// Whether to look again once the gap timeout has passed.
    pub arm_timer: bool,
}

/// One look at a flow, as carried out.
struct LookOutcome {
    delivered: Option<Packet>,
    again: bool,
    armed: bool,
}

/// The effort that is left for some flows.
spec fn effort_of(queues: GapReorderQueues, flows: Seq<FlowId>) -> nat
    decreases flows.len(),
{
    if flows.len() == 0 {
        0
    } else {
        effort_of(queues, flows.drop_last()) + queues.flow(flows.last()).effort()
    }
}

proof fn lemma_effort_of(earlier: GapReorderQueues, later: GapReorderQueues, flows: Seq<FlowId>)
    requires
        forall|f: FlowId| #[trigger] later.flow(f).effort() <= earlier.flow(f).effort(),
    ensures
        effort_of(later, flows) <= effort_of(earlier, flows),
        forall|f: FlowId|
            flows.contains(f) && #[trigger] later.flow(f).effort() < earlier.flow(f).effort()
                ==> effort_of(later, flows) < effort_of(earlier, flows),
    decreases flows.len(),
{
    if flows.len() > 0 {
        lemma_effort_of(earlier, later, flows.drop_last());
        assert(later.flow(flows.last()).effort() <= earlier.flow(flows.last()).effort());
        assert forall|f: FlowId|
            flows.contains(f) && #[trigger] later.flow(f).effort() < earlier.flow(
                f,
            ).effort() implies effort_of(later, flows) < effort_of(earlier, flows) by {
            let i = choose|i: int| 0 <= i < flows.len() && flows[i] == f;
            if i < flows.len() - 1 {
                assert(flows.drop_last()[i] == f);
            }
        }
    }
}

/// Whether packets and states are what a number of turns of each flow lead to.
pub open spec fn taken(
    earlier: GapReorderQueues,
    later: GapReorderQueues,
    packets: Seq<Packet>,
    rounds: nat,
    now: u64,
    gap_timeout: u64,
) -> bool {
    forall|f: FlowId|
        {
            &&& #[trigger] later.flow(f) == earlier.flow(f).turns(rounds, now, gap_timeout).state
            &&& writer::of_flow(packets, f) == earlier.flow(f).turns(
                rounds,
                now,
                gap_timeout,
            ).delivered
        }
}

/// Whether some flow set a deadline in its turns.
pub open spec fn some_armed(
    queues: GapReorderQueues,
    rounds: nat,
    now: u64,
    gap_timeout: u64,
) -> bool {
    exists|f: FlowId| (#[trigger] queues.flow(f)).turns(rounds, now, gap_timeout).armed
}

/// Whether some flow moved anything in the round with this number, counted from 1.
pub open spec fn some_moved(
    queues: GapReorderQueues,
    round: nat,
    now: u64,
    gap_timeout: u64,
) -> bool {
    exists|f: FlowId| (#[trigger] queues.flow(f)).turns(round, now, gap_timeout).again
}

/// Whether the round with this number, counted from 1, is the first in which no flow moved anything.
pub open spec fn is_last_round(
    queues: GapReorderQueues,
    rounds: nat,
    now: u64,
    gap_timeout: u64,
) -> bool {
    &&& rounds > 0
    &&& !some_moved(queues, rounds, now, gap_timeout)
    &&& forall|n: nat| 0 < n < rounds ==> #[trigger] some_moved(queues, n, now, gap_timeout)
}

impl GapReorderQueues {
    /// What is known of a flow.
    pub closed spec fn flow(&self, flow_id: FlowId) -> GapQueue {
        GapQueue {
            queue: if self.queue_map@.contains_key(flow_id) {
                self.queue_map@[flow_id]@
            } else {
                Seq::empty()
            },
            expected: if self.expected_seq_map@.contains_key(flow_id) {
                Some(self.expected_seq_map@[flow_id])
            } else {
                None
            },
            active: self.active_flows@.contains(flow_id),
            deadline: if self.gap_deadlines@.contains_key(flow_id) {
                Some(self.gap_deadlines@[flow_id])
            } else {
                None
            },
        }
    }

    /// Every queue holds data of its own flow, and a flow with a queue is active.
    pub open spec fn wf(&self) -> bool {
        forall|f: FlowId|
            {
                &&& writer::belongs((#[trigger] self.flow(f)).queue, f)
                &&& self.flow(f).queue.len() > 0 ==> self.flow(f).active
            }
    }

    /// No flow is known yet.
    pub fn new() -> (queues: Self)
        ensures
            queues.wf(),
            forall|f: FlowId| #[trigger] queues.flow(f) == GapQueue::unknown(),
    {
        let queues = GapReorderQueues {
            queue_map: HashMap::new(),
            active_flows: HashSet::new(),
            expected_seq_map: HashMap::new(),
            gap_deadlines: HashMap::new(),
        };
        assert forall|f: FlowId| #[trigger] queues.flow(f) == GapQueue::unknown() by {
            assert(queues.flow(f) =~= GapQueue::unknown());
        }
        queues
    }

    /// Takes in a packet. One that is not to be held back is returned, for immediate delivery.
    pub fn accept(&mut self, packet: Packet) -> (immediate: Option<Packet>)
        requires
            old(self).wf(),
        ensures
            final(self).wf(),
            final(self).flow(packet.flow_id) == old(self).flow(packet.flow_id).accept(packet),
            forall|f: FlowId|
                f != packet.flow_id ==> #[trigger] final(self).flow(f) == old(self).flow(f),
            immediate == if packet.spec_is_data() {
                None
            } else {
                Some(packet)
            },
    {
        let flow_id = packet.flow_id;
        let ghost known = self.flow(flow_id);
        if !packet.is_tcp_data() {
            let next: u32 = packet.seq_num().wrapping_add(1);
            if packet.is_tcp_syn() {
                self.expected_seq_map.insert(flow_id, next);
                self.active_flows.insert(flow_id);
                self.gap_deadlines.remove(&flow_id);
            } else if packet.is_tcp_fin_or_rst() {
                let due: u32 = match self.expected_seq_map.get(&flow_id) {
                    Some(expected) => if SequencedPacket::seq_less(*expected, next) {
                        next
                    } else {
                        *expected
                    },
                    None => next,
                };
                self.expected_seq_map.insert(flow_id, due);
                self.gap_deadlines.remove(&flow_id);
            }
            assert(self.flow(flow_id) =~= known.accept(packet));
            assert forall|f: FlowId| f != flow_id implies #[trigger] self.flow(f) == old(self).flow(
                f,
            ) by {
                assert(self.flow(f) =~= old(self).flow(f));
            }
            return Some(packet);
        }
        let seq: u32 = packet.seq_num();
        let mut heap = match self.queue_map.remove(&flow_id) {
            Some(heap) => heap,
            None => PacketHeap::new(),
        };
        assert(heap@ == known.queue);
        heap.push(SequencedPacket { seq, packet });
        self.queue_map.insert(flow_id, heap);
        self.active_flows.insert(flow_id);
        assert(self.flow(flow_id) =~= known.accept(packet));
        assert forall|f: FlowId| f != flow_id implies #[trigger] self.flow(f) == old(self).flow(
            f,
        ) by {
            assert(self.flow(f) =~= old(self).flow(f));
        }
        None
    }

    /// Decides what to do about a gap in front of the segment with number `top_seq`.
    fn look_at_gap(&mut self, flow_id: FlowId, top_seq: u32, now: u64, gap_timeout: u64) -> (outcome:
        LookOutcome)
        requires
            old(self).wf(),
            old(self).flow(flow_id).has_gap(),
            old(self).flow(flow_id).expected is Some,
            top_seq == heap::top(old(self).flow(flow_id).queue).seq,
            now + gap_timeout <= u64::MAX,
        ensures
            ({
                let look = old(self).flow(flow_id).look(now, gap_timeout);
                &&& final(self).flow(flow_id) == look.state
                &&& outcome.delivered is None && look.delivered == Seq::<Packet>::empty()
                &&& outcome.again == look.again
                &&& outcome.armed == look.armed
            }),
            forall|f: FlowId| f != flow_id ==> #[trigger] final(self).flow(f) == old(self).flow(f),
    {
        let ghost known = self.flow(flow_id);
        let mut again: bool = false;
        let mut armed: bool = false;
        let deadline: Option<u64> = match self.gap_deadlines.get(&flow_id) {
            Some(deadline) => Some(*deadline),
            None => None,
        };
        match deadline {
            Some(deadline) => {
                if now >= deadline {
                    self.gap_deadlines.remove(&flow_id);
                    self.expected_seq_map.insert(flow_id, top_seq);
                    again = true;
                }
            },
            None => {
                self.gap_deadlines.insert(flow_id, now + gap_timeout);
                armed = true;
            },
        }
        assert(self.flow(flow_id) =~= known.look(now, gap_timeout).state);
        assert forall|f: FlowId| f != flow_id implies #[trigger] self.flow(f) == old(self).flow(
            f,
        ) by {
            assert(self.flow(f) =~= old(self).flow(f));
        }
        LookOutcome { delivered: None, again, armed }
    }

    /// Looks at one flow once.
    fn look_flow(&mut self, flow_id: FlowId, now: u64, gap_timeout: u64) -> (outcome: LookOutcome)
        requires
            old(self).wf(),
            now + gap_timeout <= u64::MAX,
        ensures
            final(self).wf(),
            ({
                let look = old(self).flow(flow_id).look(now, gap_timeout);
                &&& final(self).flow(flow_id) == look.state
                &&& look.delivered == (match outcome.delivered {
                    Some(packet) => seq![packet],
                    None => Seq::empty(),
                })
                &&& outcome.again == look.again
                &&& outcome.armed == look.armed
            }),
            outcome.delivered matches Some(packet) ==> packet.flow_id == flow_id,
            forall|f: FlowId| f != flow_id ==> #[trigger] final(self).flow(f) == old(self).flow(f),
    {
        let ghost known = self.flow(flow_id);
        let mut heap = match self.queue_map.remove(&flow_id) {
            Some(heap) => heap,
            None => PacketHeap::new(),
        };
        assert(heap@ == known.queue);
        let top_seq: u32 = match heap.peek_seq() {
            Some(seq) => seq,
            None => {
                self.active_flows.remove(&flow_id);
                self.gap_deadlines.remove(&flow_id);
                assert(self.flow(flow_id) =~= known.look(now, gap_timeout).state);
                assert forall|f: FlowId| f != flow_id implies #[trigger] self.flow(f) == old(
                    self,
                ).flow(f) by {
                    assert(self.flow(f) =~= old(self).flow(f));
                }
                return LookOutcome { delivered: None, again: false, armed: false };
            },
        };
        let expected: u32 = match self.expected_seq_map.get(&flow_id) {
            Some(expected) => *expected,
            None => top_seq,
        };
        self.expected_seq_map.insert(flow_id, expected);
        assert(expected == known.due());
        let stale = SequencedPacket::seq_less(top_seq, expected);
        if stale || top_seq == expected {
            proof {
                heap::lemma_next_index_bound(heap@);
                writer::lemma_belongs_popped(heap@, flow_id);
            }
            let mut delivered: Option<Packet> = None;
            if let Some(sequenced) = heap.pop() {
                let packet = sequenced.packet;
                if !stale {
                    let due: u32 = due_seq(expected, &packet);
                    if SequencedPacket::seq_less(expected, due) {
                        self.expected_seq_map.insert(flow_id, due);
                    }
                    self.gap_deadlines.remove(&flow_id);
                    if heap.is_empty() {
                        self.active_flows.remove(&flow_id);
                    }
                }
                delivered = Some(packet);
            }
            self.queue_map.insert(flow_id, heap);
            assert(self.flow(flow_id) =~= known.look(now, gap_timeout).state);
            assert forall|f: FlowId| f != flow_id implies #[trigger] self.flow(f) == old(self).flow(
                f,
            ) by {
                assert(self.flow(f) =~= old(self).flow(f));
            }
            return LookOutcome { delivered, again: true, armed: false };
        }
        self.queue_map.insert(flow_id, heap);
        assert(self.flow(flow_id) =~= (GapQueue { expected: Some(known.due()), ..known }));
        assert forall|f: FlowId| f != flow_id implies #[trigger] self.flow(f) == old(self).flow(
            f,
        ) by {
            assert(self.flow(f) =~= old(self).flow(f));
        }
        let outcome = self.look_at_gap(flow_id, top_seq, now, gap_timeout);
        assert(self.flow(flow_id) =~= known.look(now, gap_timeout).state);
        outcome
    }

    /// Lets one flow take its turn, and returns whether that moved anything and whether a deadline
    /// was set.
    fn drain_flow(
        &mut self,
        flow_id: FlowId,
        now: u64,
        gap_timeout: u64,
        packets: &mut Vec<Packet>,
    ) -> (outcome: (bool, bool))
        requires
            old(self).wf(),
            now + gap_timeout <= u64::MAX,
        ensures
            final(self).wf(),
            ({
                let turn = old(self).flow(flow_id).turn(now, gap_timeout);
                &&& final(self).flow(flow_id) == turn.state
                &&& writer::of_flow(final(packets)@, flow_id) == writer::of_flow(
                    old(packets)@,
                    flow_id,
                ) + turn.delivered
                &&& outcome.0 == turn.again
                &&& outcome.1 == turn.armed
            }),
            forall|f: FlowId| f != flow_id ==> #[trigger] final(self).flow(f) == old(self).flow(f),
            forall|f: FlowId|
                f != flow_id ==> #[trigger] writer::of_flow(final(packets)@, f) == writer::of_flow(
                    old(packets)@,
                    f,
                ),
    {
        let mut again: bool = true;
        let mut progressed: bool = false;
        let mut armed: bool = false;
        let ghost turn = self.flow(flow_id).turn(now, gap_timeout);
        let ghost mut done: Seq<Packet> = Seq::empty();
        assert(writer::of_flow(packets@, flow_id) + done =~= writer::of_flow(packets@, flow_id));
        assert(done + turn.delivered =~= turn.delivered);
        while again
            invariant
                self.wf(),
                now + gap_timeout <= u64::MAX,
                turn == old(self).flow(flow_id).turn(now, gap_timeout),
                writer::of_flow(packets@, flow_id) == writer::of_flow(old(packets)@, flow_id)
                    + done,
                again ==> {
                    let rest = self.flow(flow_id).turn(now, gap_timeout);
                    &&& turn.state == rest.state
                    &&& turn.delivered == done + rest.delivered
                    &&& turn.armed == (armed || rest.armed)
                    &&& turn.again == (progressed || rest.again)
                },
                !again ==> {
                    &&& turn.state == self.flow(flow_id)
                    &&& turn.delivered == done
                    &&& turn.armed == armed
                    &&& turn.again == progressed
                },
                forall|f: FlowId| f != flow_id ==> #[trigger] self.flow(f) == old(self).flow(f),
                forall|f: FlowId|
                    f != flow_id ==> #[trigger] writer::of_flow(packets@, f) == writer::of_flow(
                        old(packets)@,
                        f,
                    ),
            decreases self.flow(flow_id).effort() + if again {
                1nat
            } else {
                0nat
            },
        {
            let ghost prior = self.flow(flow_id);
            let ghost seen = packets@;
            let ghost earlier = done;
            let ghost delivered = prior.look(now, gap_timeout).delivered;
            let outcome = self.look_flow(flow_id, now, gap_timeout);
            proof {
                lemma_look_effort(prior, now, gap_timeout);
                done = done + delivered;
            }
            again = outcome.again;
            armed = armed || outcome.armed;
            progressed = progressed || again;
            if let Some(packet) = outcome.delivered {
                proof {
                    assert forall|f: FlowId| #[trigger]
                        writer::of_flow(seen.push(packet), f) == if f == flow_id {
                            writer::of_flow(seen, f).push(packet)
                        } else {
                            writer::of_flow(seen, f)
                        } by {
                        writer::lemma_of_flow_push(seen, packet, f);
                    }
                    assert(writer::of_flow(seen, flow_id).push(packet) =~= writer::of_flow(
                        seen,
                        flow_id,
                    ) + delivered);
                }
                packets.push(packet);
            }
            proof {
                assert(writer::of_flow(packets@, flow_id) =~= writer::of_flow(seen, flow_id)
                    + delivered);
                assert(writer::of_flow(old(packets)@, flow_id) + (earlier + delivered)
                    =~= (writer::of_flow(old(packets)@, flow_id) + earlier) + delivered);
                let rest = self.flow(flow_id).turn(now, gap_timeout);
                assert(earlier + (delivered + rest.delivered) =~= (earlier + delivered)
                    + rest.delivered);
            }
        }
        (progressed, armed)
    }

    /// Delivers what may leave at time `now`: in rounds, each active flow takes its turn, up to the
    /// first round in which no flow moves anything. The clock is read once for the whole run.
    pub fn drain(&mut self, now: u64, gap_timeout: u64) -> (drained: Drained)
        requires
            old(self).wf(),
            now + gap_timeout <= u64::MAX,
        ensures
            final(self).wf(),
            exists|rounds: nat|
                {
                    &&& #[trigger] is_last_round(*old(self), rounds, now, gap_timeout)
                    &&& taken(
                        *old(self),
                        *final(self),
                        drained.packets@,
                        rounds,
                        now,
                        gap_timeout,
                    )
                    &&& drained.arm_timer == some_armed(*old(self), rounds, now, gap_timeout)
                },
            gap_timeout > 0 ==> forall|f: FlowId| #[trigger]
                writer::of_flow(drained.packets@, f) == old(self).flow(f).released(
                    now,
                    gap_timeout,
                ),
    {
        let mut packets: Vec<Packet> = Vec::new();
        let mut arm_timer: bool = false;
        let first = flow_list(&self.active_flows);
        let ghost flows = first@;
        let ghost mut rounds: nat = 0;
        proof {
            reveal(Seq::filter);
            assert forall|f: FlowId| self.flow(f).active implies flows.contains(f) by {
                assert(flows.to_set().contains(f));
            }
        }
        loop
            invariant_except_break
                forall|n: nat|
                    0 < n <= rounds ==> #[trigger] some_moved(*old(self), n, now, gap_timeout),
            invariant
                self.wf(),
                now + gap_timeout <= u64::MAX,
                taken(*old(self), *self, packets@, rounds, now, gap_timeout),
                arm_timer == some_armed(*old(self), rounds, now, gap_timeout),
                forall|f: FlowId| self.flow(f).active ==> flows.contains(f),
            ensures
                is_last_round(*old(self), rounds, now, gap_timeout),
            decreases effort_of(*self, flows),
        {
            let ghost round = *self;
            let ghost seen = packets@;
            let ghost armed_before = arm_timer;
            let flow_ids = flow_list(&self.active_flows);
            let mut progressed_any: bool = false;
            let ghost mut done: Set<FlowId> = Set::empty();
            let mut i: usize = 0;
            proof {
                assert forall|f: FlowId| self.flow(f).active <==> flow_ids@.contains(f) by {
                    assert(flow_ids@.to_set().contains(f) <==> self.active_flows@.contains(f));
                }
            }
            while i < flow_ids.len()
                invariant
                    i <= flow_ids.len(),
                    flow_ids@.no_duplicates(),
                    self.wf(),
                    now + gap_timeout <= u64::MAX,
                    forall|f: FlowId| #[trigger] round.flow(f).active <==> flow_ids@.contains(f),
                    forall|f: FlowId| #[trigger]
                        done.contains(f) <==> flow_ids@.take(i as int).contains(f),
                    forall|f: FlowId| #[trigger]
                        self.flow(f) == if done.contains(f) {
                            round.flow(f).turn(now, gap_timeout).state
                        } else {
                            round.flow(f)
                        },
                    forall|f: FlowId| #[trigger]
                        writer::of_flow(packets@, f) == if done.contains(f) {
                            writer::of_flow(seen, f) + round.flow(f).turn(
                                now,
                                gap_timeout,
                            ).delivered
                        } else {
                            writer::of_flow(seen, f)
                        },
                    progressed_any == exists|f: FlowId| #[trigger]
                        done.contains(f) && round.flow(f).turn(now, gap_timeout).again,
                    arm_timer == (armed_before || exists|f: FlowId| #[trigger]
                        done.contains(f) && round.flow(f).turn(now, gap_timeout).armed),
                decreases flow_ids.len() - i,
            {
                let flow_id = flow_ids[i];
                let ghost earlier = done;
                proof {
                    let taken_so_far = flow_ids@.take(i as int);
                    assert(flow_ids@.take(i + 1) =~= taken_so_far.push(flow_id));
                    if taken_so_far.contains(flow_id) {
                        let j = choose|j: int|
                            0 <= j < taken_so_far.len() && taken_so_far[j] == flow_id;
                        assert(flow_ids@[j] == flow_ids@[i as int]);
                    }
                    assert(!done.contains(flow_id));
                    assert(self.flow(flow_id) == round.flow(flow_id));
                    assert(writer::of_flow(packets@, flow_id) == writer::of_flow(seen, flow_id));
                    done = done.insert(flow_id);
                    assert forall|f: FlowId| #[trigger]
                        done.contains(f) <==> flow_ids@.take(i + 1).contains(f) by {
                        assert(earlier.contains(f) <==> taken_so_far.contains(f));
                        if f == flow_id {
                            assert(flow_ids@.take(i + 1)[i as int] == f);
                        }
                        if taken_so_far.contains(f) {
                            let j = choose|j: int|
                                0 <= j < taken_so_far.len() && taken_so_far[j] == f;
                            assert(flow_ids@.take(i + 1)[j] == f);
                        }
                    }
                }
                let outcome = self.drain_flow(flow_id, now, gap_timeout, &mut packets);
                proof {
                    assert(done.contains(flow_id));
                    assert(forall|f: FlowId| #[trigger]
                        done.contains(f) ==> f == flow_id || earlier.contains(f));
                    assert(forall|f: FlowId| #[trigger] earlier.contains(f) ==> done.contains(f));
                }
                progressed_any = progressed_any || outcome.0;
                arm_timer = arm_timer || outcome.1;
                i = i + 1;
            }
            proof {
                assert(flow_ids@.take(i as int) =~= flow_ids@);
                lemma_round_is_over(
                    *old(self),
                    round,
                    *self,
                    seen,
                    packets@,
                    done,
                    rounds,
                    now,
                    gap_timeout,
                );
                lemma_round_effort(round, *self, flows, done, now, gap_timeout);
                rounds = rounds + 1;
            }
            if !progressed_any {
                break;
            }
        }
        proof {
            if gap_timeout > 0 {
                assert forall|f: FlowId| #[trigger] writer::of_flow(packets@, f) == old(self).flow(
                    f,
                ).released(now, gap_timeout) by {
                    let flow = old(self).flow(f);
                    assert(self.flow(f) == flow.turns(rounds, now, gap_timeout).state);
                    if flow.active {
                        law_first_turn_releases_all(flow, rounds, now, gap_timeout);
                    } else {
                        lemma_inactive_takes_no_turn(flow, rounds, now, gap_timeout);
                        assert(flow.released(now, gap_timeout) =~= Seq::<Packet>::empty());
                    }
                }
            }
        }
        let drained = Drained { packets, arm_timer };
        assert(taken(*old(self), *self, drained.packets@, rounds, now, gap_timeout));
        drained
    }
}

proof fn lemma_inactive_takes_no_turn(flow: GapQueue, n: nat, now: u64, gap_timeout: u64)
    requires
        !flow.active,
    ensures
        flow.turns(n, now, gap_timeout).state == flow,
        flow.turns(n, now, gap_timeout).delivered == Seq::<Packet>::empty(),
        !flow.turns(n, now, gap_timeout).armed,
    decreases n,
{
    if n > 0 {
        lemma_inactive_takes_no_turn(flow, (n - 1) as nat, now, gap_timeout);
    }
}

/// Once every active flow took its turn, one more round is over.
proof fn lemma_round_is_over(
    start: GapReorderQueues,
    round: GapReorderQueues,
    later: GapReorderQueues,
    seen: Seq<Packet>,
    packets: Seq<Packet>,
    done: Set<FlowId>,
    rounds: nat,
    now: u64,
    gap_timeout: u64,
)
    requires
        taken(start, round, seen, rounds, now, gap_timeout),
        forall|f: FlowId| #[trigger] done.contains(f) <==> round.flow(f).active,
        forall|f: FlowId| #[trigger]
            later.flow(f) == if done.contains(f) {
                round.flow(f).turn(now, gap_timeout).state
            } else {
                round.flow(f)
            },
        forall|f: FlowId| #[trigger]
            writer::of_flow(packets, f) == if done.contains(f) {
                writer::of_flow(seen, f) + round.flow(f).turn(now, gap_timeout).delivered
            } else {
                writer::of_flow(seen, f)
            },
    ensures
        taken(start, later, packets, rounds + 1, now, gap_timeout),
        some_moved(start, rounds + 1, now, gap_timeout) == exists|f: FlowId| #[trigger]
            done.contains(f) && round.flow(f).turn(now, gap_timeout).again,
        some_armed(start, rounds + 1, now, gap_timeout) == (some_armed(
            start,
            rounds,
            now,
            gap_timeout,
        ) || exists|f: FlowId| #[trigger]
            done.contains(f) && round.flow(f).turn(now, gap_timeout).armed),
{
    assert forall|f: FlowId|
        {
            &&& #[trigger] later.flow(f) == start.flow(f).turns(
                rounds + 1,
                now,
                gap_timeout,
            ).state
            &&& writer::of_flow(packets, f) == start.flow(f).turns(
                rounds + 1,
                now,
                gap_timeout,
            ).delivered
        } by {
        assert(round.flow(f) == start.flow(f).turns(rounds, now, gap_timeout).state);
        assert(done.contains(f) <==> round.flow(f).active);
        assert(writer::of_flow(packets, f) == if done.contains(f) {
            writer::of_flow(seen, f) + round.flow(f).turn(now, gap_timeout).delivered
        } else {
            writer::of_flow(seen, f)
        });
    }
    assert forall|f: FlowId|
        {
            let next = (#[trigger] start.flow(f)).turns(rounds + 1, now, gap_timeout);
            let turn = round.flow(f).turn(now, gap_timeout);
            &&& next.again == (done.contains(f) && turn.again)
            &&& next.armed == (start.flow(f).turns(rounds, now, gap_timeout).armed
                || done.contains(f) && turn.armed)
        } by {
        assert(round.flow(f) == start.flow(f).turns(rounds, now, gap_timeout).state);
        assert(done.contains(f) <==> round.flow(f).active);
    }
    if exists|f: FlowId| #[trigger]
        done.contains(f) && round.flow(f).turn(now, gap_timeout).again {
        let f = choose|f: FlowId| #[trigger]
            done.contains(f) && round.flow(f).turn(now, gap_timeout).again;
        assert(start.flow(f).turns(rounds + 1, now, gap_timeout).again);
    }
    if some_armed(start, rounds, now, gap_timeout) {
        let f = choose|f: FlowId|
            (#[trigger] start.flow(f)).turns(rounds, now, gap_timeout).armed;
        assert(start.flow(f).turns(rounds + 1, now, gap_timeout).armed);
    }
    if exists|f: FlowId| #[trigger]
        done.contains(f) && round.flow(f).turn(now, gap_timeout).armed {
        let f = choose|f: FlowId| #[trigger]
            done.contains(f) && round.flow(f).turn(now, gap_timeout).armed;
        assert(start.flow(f).turns(rounds + 1, now, gap_timeout).armed);
    }
}

/// A round in which something moved takes from the effort that is left.
proof fn lemma_round_effort(
    round: GapReorderQueues,
    later: GapReorderQueues,
    flows: Seq<FlowId>,
    done: Set<FlowId>,
    now: u64,
    gap_timeout: u64,
)
    requires
        forall|f: FlowId| #[trigger] done.contains(f) ==> flows.contains(f),
        forall|f: FlowId| #[trigger]
            later.flow(f) == if done.contains(f) {
                round.flow(f).turn(now, gap_timeout).state
            } else {
                round.flow(f)
            },
    ensures
        (exists|f: FlowId| #[trigger]
            done.contains(f) && round.flow(f).turn(now, gap_timeout).again) ==> effort_of(
            later,
            flows,
        ) < effort_of(round, flows),
        forall|f: FlowId| (#[trigger] later.flow(f)).active ==> round.flow(f).active,
{
    assert forall|f: FlowId| (#[trigger] later.flow(f)).active implies round.flow(f).active by {
        lemma_turn_effort(round.flow(f), now, gap_timeout);
    }
    assert forall|f: FlowId| #[trigger] later.flow(f).effort() <= round.flow(f).effort() by {
        lemma_turn_effort(round.flow(f), now, gap_timeout);
    }
    lemma_effort_of(round, later, flows);
    if exists|f: FlowId| #[trigger]
        done.contains(f) && round.flow(f).turn(now, gap_timeout).again {
        let f = choose|f: FlowId| #[trigger]
            done.contains(f) && round.flow(f).turn(now, gap_timeout).again;
        lemma_turn_effort(round.flow(f), now, gap_timeout);
        assert(later.flow(f).effort() < round.flow(f).effort());
    }
}

/// With a positive timeout, all turns after the first change nothing about an active flow and set no
/// deadline.
proof fn lemma_first_turn_settles(flow: GapQueue, n: nat, now: u64, gap_timeout: u64)
    requires
        gap_timeout > 0,
        now + gap_timeout <= u64::MAX,
        flow.active,
        n > 0,
    ensures
        flow.turns(n, now, gap_timeout).state == flow.turn(now, gap_timeout).state,
        flow.turns(n, now, gap_timeout).armed == flow.turn(now, gap_timeout).armed,
    decreases n,
{
    if n > 1 {
        let earlier = flow.turns((n - 1) as nat, now, gap_timeout);
        lemma_first_turn_settles(flow, (n - 1) as nat, now, gap_timeout);
        law_turn_leaves_nothing_to_do(flow, now, gap_timeout);
        lemma_turn_is_stable(flow, now, gap_timeout);
        assert(earlier.state == flow.turn(now, gap_timeout).state);
    } else {
        assert(flow.turns(0, now, gap_timeout).state == flow);
    }
}

/// With a positive timeout, a turn after a turn at the same time changes nothing about a flow that is
/// still looked at.
proof fn lemma_turn_is_stable(flow: GapQueue, now: u64, gap_timeout: u64)
    requires
        gap_timeout > 0,
        now + gap_timeout <= u64::MAX,
    ensures
        ({
            let once = flow.turn(now, gap_timeout);
            let twice = once.state.turn(now, gap_timeout);
            once.state.active ==> twice.state == once.state && !twice.armed
        }),
    decreases flow.effort(),
{
    let look = flow.look(now, gap_timeout);
    if look.again {
        lemma_look_effort(flow, now, gap_timeout);
        lemma_turn_is_stable(look.state, now, gap_timeout);
    }
}

/// With a positive timeout, every active flow takes one turn, whatever the others do, and no other
/// flow is touched. A timer is asked for exactly if some flow sets a deadline in its turn.
pub proof fn law_every_active_flow_takes_its_turn(
    earlier: GapReorderQueues,
    later: GapReorderQueues,
    packets: Seq<Packet>,
    rounds: nat,
    now: u64,
    gap_timeout: u64,
    flow_id: FlowId,
)
    requires
        gap_timeout > 0,
        now + gap_timeout <= u64::MAX,
        is_last_round(earlier, rounds, now, gap_timeout),
        taken(earlier, later, packets, rounds, now, gap_timeout),
    ensures
        earlier.flow(flow_id).active ==> {
            let turn = earlier.flow(flow_id).turn(now, gap_timeout);
            later.flow(flow_id) == turn.state && writer::of_flow(packets, flow_id) == turn.delivered
        },
        !earlier.flow(flow_id).active ==> later.flow(flow_id) == earlier.flow(flow_id)
            && writer::of_flow(packets, flow_id) == Seq::<Packet>::empty(),
        some_armed(earlier, rounds, now, gap_timeout) <==> exists|f: FlowId|
            (#[trigger] earlier.flow(f)).active && earlier.flow(f).turn(now, gap_timeout).armed,
{
    assert forall|f: FlowId| #[trigger] earlier.flow(f) == earlier.flow(f) implies earlier.flow(
        f,
    ).turns(rounds, now, gap_timeout).armed == (earlier.flow(f).active && earlier.flow(f).turn(
        now,
        gap_timeout,
    ).armed) by {
        if earlier.flow(f).active {
            lemma_first_turn_settles(earlier.flow(f), rounds, now, gap_timeout);
        } else {
            lemma_inactive_takes_no_turn(earlier.flow(f), rounds, now, gap_timeout);
        }
    }
    assert(later.flow(flow_id) == earlier.flow(flow_id).turns(rounds, now, gap_timeout).state);
    if earlier.flow(flow_id).active {
        lemma_first_turn_settles(earlier.flow(flow_id), rounds, now, gap_timeout);
        law_first_turn_releases_all(earlier.flow(flow_id), rounds, now, gap_timeout);
    } else {
        lemma_inactive_takes_no_turn(earlier.flow(flow_id), rounds, now, gap_timeout);
    }
    if some_armed(earlier, rounds, now, gap_timeout) {
        let f = choose|f: FlowId|
            (#[trigger] earlier.flow(f)).turns(rounds, now, gap_timeout).armed;
        assert(earlier.flow(f) == earlier.flow(f));
    }
}

} // verus!
