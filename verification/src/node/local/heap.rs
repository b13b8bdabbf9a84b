//! Packets of one flow, taken out in the order of their TCP sequence numbers.

use std::collections::HashSet;

use vstd::prelude::*;

use crate::node::packet::Packet;
use crate::node::FlowId;

verus! {

broadcast use vstd::std_specs::hash::group_hash_axioms;

/// A packet with its TCP sequence number.
#[derive(Debug)]
pub struct SequencedPacket {
    pub seq: u32,
    pub packet: Packet,
}

/// How far `a` lies ahead of `b`, counted forward around the sequence space.
pub open spec fn ahead(a: u32, b: u32) -> int {
    (a - b) % 0x1_0000_0000
}

/// Whether `a` comes before `b`: going forward from `b`, `a` lies in the far half of the sequence
/// space.
pub open spec fn before(a: u32, b: u32) -> bool {
    ahead(a, b) >= 0x8000_0000
}

impl SequencedPacket {
    /// Whether sequence number `a` comes before `b`, with wraparound.
    pub fn seq_less(a: u32, b: u32) -> (less: bool)
        ensures
            less == before(a, b),
    {
        let diff: u32 = a.wrapping_sub(b);
        diff >= 0x8000_0000
    }
}

/// No sequence number comes before itself.
pub proof fn law_order_is_irreflexive(a: u32)
    ensures
        !before(a, a),
{
}

/// Of two different sequence numbers exactly one comes before the other, unless they lie exactly
/// half the sequence space apart.
pub proof fn law_order_is_total(a: u32, b: u32)
    requires
        a != b,
        ahead(a, b) != 0x8000_0000,
    ensures
        before(a, b) != before(b, a),
{
}

/// The order does not depend on where in the sequence space the numbers lie.
pub proof fn law_order_is_shift_invariant(a: u32, b: u32, shift: u32)
    ensures
        before(a.wrapping_add(shift), b.wrapping_add(shift)) == before(a, b),
{
}

/// Within half the sequence space from `start`, the order is the order of distances from `start`.
pub proof fn law_order_within_a_window(start: u32, a: u32, b: u32)
    requires
        ahead(a, start) < 0x8000_0000,
        ahead(b, start) < 0x8000_0000,
    ensures
        before(a, b) == (ahead(a, start) < ahead(b, start)),
{
}

/// Whether all sequence numbers lie within half the sequence space from `start`.
pub open spec fn in_window(queue: Seq<SequencedPacket>, start: u32) -> bool {
    forall|i: int| 0 <= i < queue.len() ==> ahead(#[trigger] queue[i].seq, start) < 0x8000_0000
}

/// The place of the packet that comes out next. Packets are weighed in order of arrival, and one
/// takes the place only if it comes before the best so far.
pub open spec fn next_index(queue: Seq<SequencedPacket>) -> int
    decreases queue.len(),
{
    if queue.len() <= 1 {
        0
    } else {
        let best = next_index(queue.drop_last());
        if before(queue.last().seq, queue[best].seq) {
            queue.len() - 1
        } else {
            best
        }
    }
}

/// The packet that comes out next.
pub open spec fn top(queue: Seq<SequencedPacket>) -> SequencedPacket {
    queue[next_index(queue)]
}

/// What is left once the next packet is out.
pub open spec fn popped(queue: Seq<SequencedPacket>) -> Seq<SequencedPacket> {
    queue.remove(next_index(queue))
}

/// The next packet is one of those that wait.
pub proof fn lemma_next_index_bound(queue: Seq<SequencedPacket>)
    requires
        queue.len() > 0,
    ensures
        0 <= next_index(queue) < queue.len(),
    decreases queue.len(),
{
    if queue.len() > 1 {
        lemma_next_index_bound(queue.drop_last());
    }
}

/// Within half the sequence space, no packet that waits comes before the next one.
pub proof fn law_next_is_first(queue: Seq<SequencedPacket>, start: u32)
    requires
        queue.len() > 0,
        in_window(queue, start),
    ensures
        forall|i: int| 0 <= i < queue.len() ==> !before(#[trigger] queue[i].seq, top(queue).seq),
    decreases queue.len(),
{
    lemma_next_index_bound(queue);
    if queue.len() > 1 {
        let rest = queue.drop_last();
        assert forall|i: int| 0 <= i < rest.len() implies ahead(#[trigger] rest[i].seq, start)
            < 0x8000_0000 by {
            assert(rest[i] == queue[i]);
        }
        law_next_is_first(rest, start);
        lemma_next_index_bound(rest);
        let best = next_index(rest);
        assert(rest[best] == queue[best]);
        assert forall|i: int| 0 <= i < queue.len() implies !before(
            #[trigger] queue[i].seq,
            top(queue).seq,
        ) by {
            if i < rest.len() {
                assert(rest[i] == queue[i]);
                assert(!before(rest[i].seq, top(rest).seq));
            }
            law_order_within_a_window(start, queue[i].seq, queue[best].seq);
            law_order_within_a_window(start, queue[i].seq, queue.last().seq);
            law_order_within_a_window(start, queue.last().seq, queue[best].seq);
        }
    }
}

/// Packets of one flow that wait, in order of arrival.
#[derive(Debug)]
pub struct PacketHeap {
    packets: Vec<SequencedPacket>,
}

impl View for PacketHeap {
    type V = Seq<SequencedPacket>;

    closed spec fn view(&self) -> Seq<SequencedPacket> {
        self.packets@
    }
}

impl PacketHeap {
    /// An empty heap.
    pub fn new() -> (heap: Self)
        ensures
            heap@ == Seq::<SequencedPacket>::empty(),
    {
        PacketHeap { packets: Vec::new() }
    }

    /// The number of packets that wait.
    pub fn len(&self) -> (len: usize)
        ensures
            len == self@.len(),
    {
        self.packets.len()
    }

    /// Whether no packet waits.
    pub fn is_empty(&self) -> (empty: bool)
        ensures
            empty == (self@.len() == 0),
    {
        self.packets.len() == 0
    }

    /// Adds a packet.
    pub fn push(&mut self, packet: SequencedPacket)
        ensures
            final(self)@ == old(self)@.push(packet),
    {
        self.packets.push(packet);
    }

    fn find_next(&self) -> (index: usize)
        requires
            self@.len() > 0,
        ensures
            index == next_index(self@),
            index < self@.len(),
    {
        let mut best: usize = 0;
        let mut i: usize = 1;
        assert(self@.take(1).len() == 1);
        while i < self.packets.len()
            invariant
                1 <= i <= self.packets.len(),
                best < i,
                best == next_index(self.packets@.take(i as int)),
            decreases self.packets.len() - i,
        {
            assert(self.packets@.take(i + 1).drop_last() =~= self.packets@.take(i as int));
            assert(self.packets@.take(i + 1).last() == self.packets@[i as int]);
            if SequencedPacket::seq_less(self.packets[i].seq, self.packets[best].seq) {
                best = i;
            }
            i = i + 1;
        }
        assert(self.packets@.take(i as int) =~= self.packets@);
        best
    }

    /// The sequence number of the next packet.
    pub fn peek_seq(&self) -> (seq: Option<u32>)
        ensures
            seq == (if self@.len() == 0 {
                None
            } else {
                Some(top(self@).seq)
            }),
    {
        if self.packets.len() == 0 {
            None
        } else {
            let index: usize = self.find_next();
            Some(self.packets[index].seq)
        }
    }

    /// Takes the next packet out.
    pub fn pop(&mut self) -> (packet: Option<SequencedPacket>)
        ensures
            old(self)@.len() == 0 ==> packet is None && final(self)@ == old(self)@,
            old(self)@.len() > 0 ==> packet == Some(top(old(self)@)) && final(self)@ == popped(
                old(self)@,
            ),
    {
        if self.packets.len() == 0 {
            None
        } else {
            let index: usize = self.find_next();
            Some(self.packets.remove(index))
        }
    }
}

/// The members of a set of flows, in some order.
pub fn flow_list(flows: &HashSet<FlowId>) -> (list: Vec<FlowId>)
    ensures
        list@.no_duplicates(),
        list@.to_set() == flows@,
{
    let mut list: Vec<FlowId> = Vec::new();
    let members = flows.iter();
    let ghost all = vstd::std_specs::iter::IteratorSpec::remaining(&members).unref();
    for flow_id in iter: members
        invariant
            iter.seq().unref() == all,
            list@ == all.take(iter.index()),
    {
        list.push(*flow_id);
        assert(list@ =~= all.take(iter.index() + 1));
    }
    assert(list@ =~= all);
    list
}

} // verus!
