//! Gapless runs of TCP segments, and what becomes of them in the reordering queues.

use vstd::prelude::*;

use crate::node::local::heap::{self, SequencedPacket};
use crate::node::local::writer::{self, FlowQueue};
use crate::node::local::writer_tso::GapQueue;
use crate::node::packet::Packet;

verus! {

/// How many sequence numbers a segment takes up: its payload is counted, and FIN or RST as one more.
pub open spec fn advance(packet: Packet) -> nat {
    packet.spec_payload() + if packet.spec_is_fin_or_rst() {
        1nat
    } else {
        0nat
    }
}

/// How many sequence numbers segments take up.
pub open spec fn span(run: Seq<Packet>) -> nat
    decreases run.len(),
{
    if run.len() == 0 {
        0
    } else {
        advance(run[0]) + span(run.drop_first())
    }
}

/// Whether segments carry data and follow on each other without a gap: the first begins at `start`,
/// and each further one begins where the one before it ends. Numbers wrap around.
pub open spec fn gapless(run: Seq<Packet>, start: u32) -> bool {
    &&& run.len() > 0 ==> run[0].spec_seq() == start
    &&& forall|i: int| 0 <= i < run.len() ==> (#[trigger] run[i]).spec_is_data()
    &&& forall|i: int, j: int|
        0 <= i < j < run.len() && j == i + 1 ==> (#[trigger] run[j]).spec_seq()
            == writer::due_after((#[trigger] run[i]).spec_seq(), run[i])
}

/// The segments in a queue.
pub open spec fn packets_of(queue: Seq<SequencedPacket>) -> Seq<Packet> {
    queue.map_values(|s: SequencedPacket| s.packet)
}

/// Whether segments wait under their own numbers.
pub open spec fn numbered(queue: Seq<SequencedPacket>) -> bool {
    forall|i: int| 0 <= i < queue.len() ==> (#[trigger] queue[i]).seq == queue[i].packet.spec_seq()
}

impl FlowQueue {
    /// Takes in packets, one after the other.
    pub open spec fn accept_all(self, arrivals: Seq<Packet>) -> FlowQueue
        decreases arrivals.len(),
    {
        if arrivals.len() == 0 {
            self
        } else {
            self.accept_all(arrivals.drop_last()).accept(arrivals.last())
        }
    }
}

impl GapQueue {
    /// Takes in packets, one after the other.
    pub open spec fn accept_all(self, arrivals: Seq<Packet>) -> GapQueue
        decreases arrivals.len(),
    {
        if arrivals.len() == 0 {
            self
        } else {
            self.accept_all(arrivals.drop_last()).accept(arrivals.last())
        }
    }
}

/// The rest of a run is a run too.
proof fn lemma_gapless_rest(run: Seq<Packet>, start: u32)
    requires
        run.len() > 0,
        gapless(run, start),
    ensures
        gapless(run.drop_first(), writer::due_after(start, run[0])),
        advance(run[0]) > 0,
{
    let rest = run.drop_first();
    assert(run[0].spec_is_data());
    assert forall|i: int| 0 <= i < rest.len() implies (#[trigger] rest[i]).spec_is_data() by {
        assert(rest[i] == run[i + 1]);
    }
    assert forall|i: int, j: int| 0 <= i < j < rest.len() && j == i + 1 implies (
    #[trigger] rest[j]).spec_seq() == writer::due_after(
        (#[trigger] rest[i]).spec_seq(),
        rest[i],
    ) by {
        assert(rest[i] == run[i + 1]);
        assert(rest[j] == run[j + 1]);
    }
    if rest.len() > 0 {
        assert(rest[0] == run[1]);
    }
}

/// Within half the sequence space, distances add up.
proof fn lemma_distances_add_up(start: u32, packet: Packet, seq: u32)
    requires
        heap::ahead(seq, writer::due_after(start, packet)) + advance(packet) < 0x8000_0000,
    ensures
        heap::ahead(seq, start) == heap::ahead(seq, writer::due_after(start, packet)) + advance(
            packet,
        ),
{
    let next = writer::due_after(start, packet);
    let step = advance(packet) as int;
    assert(next == (start + step) % 0x1_0000_0000);
    assert(next == start + step || next == start + step - 0x1_0000_0000);
}

/// Within half the sequence space, a segment ends ahead of its start.
proof fn lemma_segment_ends_ahead(start: u32, packet: Packet)
    requires
        0 < advance(packet) < 0x8000_0000,
    ensures
        heap::before(start, writer::due_after(start, packet)),
{
    let next = writer::due_after(start, packet);
    let step = advance(packet) as int;
    assert(next == (start + step) % 0x1_0000_0000);
    assert(next == start + step || next == start + step - 0x1_0000_0000);
}

/// Within half the sequence space, the segments of a run lie ahead of its start, and only the first
/// lies at it.
proof fn lemma_run_lies_ahead(run: Seq<Packet>, start: u32, i: int)
    requires
        gapless(run, start),
        span(run) < 0x8000_0000,
        0 <= i < run.len(),
    ensures
        heap::ahead(run[i].spec_seq(), start) + advance(run[i]) <= span(run),
        i > 0 ==> heap::ahead(run[i].spec_seq(), start) > 0,
    decreases i,
{
    lemma_gapless_rest(run, start);
    if i > 0 {
        let rest = run.drop_first();
        let next = writer::due_after(start, run[0]);
        lemma_run_lies_ahead(rest, next, i - 1);
        assert(rest[i - 1] == run[i]);
        lemma_distances_add_up(start, run[0], run[i].spec_seq());
    }
}

/// Of the segments of a run, in whatever order they wait, the first comes out next, and the rest of
/// the run waits on.
proof fn lemma_first_comes_out(queue: Seq<SequencedPacket>, run: Seq<Packet>, start: u32)
    requires
        numbered(queue),
        packets_of(queue).to_multiset() == run.to_multiset(),
        run.len() > 0,
        gapless(run, start),
        span(run) < 0x8000_0000,
    ensures
        queue.len() == run.len(),
        heap::top(queue).packet == run[0],
        heap::top(queue).seq == start,
        numbered(heap::popped(queue)),
        packets_of(heap::popped(queue)).to_multiset() == run.drop_first().to_multiset(),
{
    broadcast use vstd::seq_lib::group_to_multiset_ensures;

    let packets = packets_of(queue);
    assert(packets.to_multiset().len() == packets.len());
    assert(run.to_multiset().len() == run.len());
    assert forall|i: int| 0 <= i < queue.len() implies heap::ahead(#[trigger] queue[i].seq, start)
        < 0x8000_0000 && (queue[i].seq == start ==> queue[i].packet == run[0]) by {
        assert(packets[i] == queue[i].packet);
        assert(packets.to_multiset().count(packets[i]) > 0);
        assert(run.to_multiset().count(packets[i]) > 0);
        assert(run.contains(packets[i]));
        let j = choose|j: int| 0 <= j < run.len() && run[j] == packets[i];
        lemma_run_lies_ahead(run, start, j);
    }
    assert(run.contains(run[0]));
    assert(run.to_multiset().count(run[0]) > 0);
    assert(packets.contains(run[0]));
    let k = choose|k: int| 0 <= k < packets.len() && packets[k] == run[0];
    assert(queue[k].packet == run[0]);
    heap::law_next_is_first(queue, start);
    heap::lemma_next_index_bound(queue);
    let at = heap::next_index(queue);
    assert(queue[k].seq == start);
    heap::law_order_within_a_window(start, queue[k].seq, queue[at].seq);
    assert(queue[at].seq == start);
    let rest = heap::popped(queue);
    assert forall|i: int| 0 <= i < rest.len() implies (#[trigger] rest[i]).seq
        == rest[i].packet.spec_seq() by {
        assert(rest[i] == if i < at {
            queue[i]
        } else {
            queue[i + 1]
        });
    }
    assert(packets_of(rest) =~= packets.remove(at));
    assert(packets[at] == run[0]);
    assert(run.drop_first() =~= run.remove(0));
}

proof fn lemma_run_leaves(flow: FlowQueue, run: Seq<Packet>, start: u32)
    requires
        flow.active,
        flow.expected matches Some(expected) ==> expected == start,
        numbered(flow.queue),
        packets_of(flow.queue).to_multiset() == run.to_multiset(),
        run.len() > 0,
        gapless(run, start),
        span(run) < 0x8000_0000,
    ensures
        flow.in_order() == run,
    decreases run.len(),
{
    lemma_first_comes_out(flow.queue, run, start);
    lemma_gapless_rest(run, start);
    heap::lemma_next_index_bound(flow.queue);
    let rest = run.drop_first();
    assert(flow.due() == start);
    assert(writer::without_stale(flow.queue, start) == flow.queue);
    let visit = flow.visit();
    assert(visit.delivered =~= seq![run[0]]);
    if rest.len() == 0 {
        assert(visit.state.in_order() =~= Seq::<Packet>::empty());
        assert(flow.in_order() =~= run);
    } else {
        lemma_run_leaves(visit.state, rest, writer::due_after(start, run[0]));
        assert(flow.in_order() =~= run);
    }
}

proof fn lemma_run_is_released(
    flow: GapQueue,
    run: Seq<Packet>,
    start: u32,
    now: u64,
    gap_timeout: u64,
)
    requires
        flow.expected matches Some(expected) ==> expected == start,
        numbered(flow.queue),
        packets_of(flow.queue).to_multiset() == run.to_multiset(),
        run.len() > 0,
        gapless(run, start),
        span(run) < 0x8000_0000,
    ensures
        flow.released(now, gap_timeout) == run,
    decreases run.len(),
{
    lemma_first_comes_out(flow.queue, run, start);
    lemma_gapless_rest(run, start);
    heap::lemma_next_index_bound(flow.queue);
    let rest = run.drop_first();
    assert(flow.due() == start);
    let look = flow.look(now, gap_timeout);
    assert(look.delivered =~= seq![run[0]]);
    assert(look.again);
    if rest.len() == 0 {
        assert(look.state.released(now, gap_timeout) =~= Seq::<Packet>::empty());
        assert(flow.released(now, gap_timeout) =~= run);
    } else {
        let next = writer::due_after(start, run[0]);
        lemma_segment_ends_ahead(start, run[0]);
        lemma_run_is_released(look.state, rest, next, now, gap_timeout);
        assert(flow.released(now, gap_timeout) =~= run);
    }
}

/// What waits once data was taken in.
proof fn lemma_data_waits(flow: FlowQueue, gaps: GapQueue, arrivals: Seq<Packet>)
    requires
        flow.queue.len() == 0,
        gaps.queue.len() == 0,
        forall|i: int| 0 <= i < arrivals.len() ==> (#[trigger] arrivals[i]).spec_is_data(),
    ensures
        ({
            let queue = arrivals.map_values(
                |packet: Packet| SequencedPacket { seq: packet.spec_seq(), packet },
            );
            &&& flow.accept_all(arrivals) == (FlowQueue {
                queue,
                active: flow.active || arrivals.len() > 0,
                ..flow
            })
            &&& gaps.accept_all(arrivals) == (GapQueue {
                queue,
                active: gaps.active || arrivals.len() > 0,
                ..gaps
            })
        }),
    decreases arrivals.len(),
{
    let sequenced = |packet: Packet| SequencedPacket { seq: packet.spec_seq(), packet };
    if arrivals.len() == 0 {
        assert(flow.queue =~= arrivals.map_values(sequenced));
        assert(gaps.queue =~= arrivals.map_values(sequenced));
    } else {
        let earlier = arrivals.drop_last();
        assert forall|i: int| 0 <= i < earlier.len() implies (
        #[trigger] earlier[i]).spec_is_data() by {
            assert(earlier[i] == arrivals[i]);
        }
        lemma_data_waits(flow, gaps, earlier);
        let last = arrivals.last();
        assert(arrivals[arrivals.len() - 1].spec_is_data());
        assert(arrivals.map_values(sequenced) =~= earlier.map_values(sequenced).push(
            SequencedPacket { seq: last.spec_seq(), packet: last },
        ));
    }
}

/// The packets that wait once data was taken in are those that were taken in.
proof fn lemma_arrivals_wait(arrivals: Seq<Packet>, run: Seq<Packet>, start: u32)
    requires
        arrivals.to_multiset() == run.to_multiset(),
        gapless(run, start),
    ensures
        ({
            let queue = arrivals.map_values(
                |packet: Packet| SequencedPacket { seq: packet.spec_seq(), packet },
            );
            &&& numbered(queue)
            &&& packets_of(queue) == arrivals
        }),
        arrivals.len() == run.len(),
        forall|i: int| 0 <= i < arrivals.len() ==> (#[trigger] arrivals[i]).spec_is_data(),
{
    broadcast use vstd::seq_lib::group_to_multiset_ensures;

    let queue = arrivals.map_values(
        |packet: Packet| SequencedPacket { seq: packet.spec_seq(), packet },
    );
    assert(packets_of(queue) =~= arrivals);
    assert(arrivals.to_multiset().len() == arrivals.len());
    assert(run.to_multiset().len() == run.len());
    assert forall|i: int| 0 <= i < arrivals.len() implies (
    #[trigger] arrivals[i]).spec_is_data() by {
        assert(arrivals.to_multiset().count(arrivals[i]) > 0);
        assert(run.to_multiset().count(arrivals[i]) > 0);
        assert(run.contains(arrivals[i]));
    }
}

/// A gapless run of segments that begins where a flow is leaves whole and in order, each segment
/// once, whatever the order in which the segments arrive. The run takes up less than half the
/// sequence space, and nothing of the flow waits yet.
pub proof fn law_run_leaves_in_order(
    flow: FlowQueue,
    run: Seq<Packet>,
    start: u32,
    arrivals: Seq<Packet>,
)
    requires
        flow.queue.len() == 0,
        flow.expected matches Some(expected) ==> expected == start,
        gapless(run, start),
        span(run) < 0x8000_0000,
        arrivals.to_multiset() == run.to_multiset(),
    ensures
        flow.accept_all(arrivals).in_order() == run,
{
    lemma_arrivals_wait(arrivals, run, start);
    let gaps = GapQueue { queue: Seq::empty(), expected: None, active: false, deadline: None };
    lemma_data_waits(flow, gaps, arrivals);
    let waiting = flow.accept_all(arrivals);
    if run.len() > 0 {
        lemma_run_leaves(waiting, run, start);
    } else {
        assert(waiting.in_order() =~= run);
    }
}

/// A gapless run of segments that begins where a flow is leaves whole and in order, each segment
/// once, whatever the order in which the segments arrive and whatever the time. The run takes up
/// less than half the sequence space, and nothing of the flow waits yet.
pub proof fn law_run_is_released_in_order(
    flow: GapQueue,
    run: Seq<Packet>,
    start: u32,
    arrivals: Seq<Packet>,
    now: u64,
    gap_timeout: u64,
)
    requires
        flow.queue.len() == 0,
        flow.expected matches Some(expected) ==> expected == start,
        gapless(run, start),
        span(run) < 0x8000_0000,
        arrivals.to_multiset() == run.to_multiset(),
    ensures
        flow.accept_all(arrivals).released(now, gap_timeout) == run,
{
    lemma_arrivals_wait(arrivals, run, start);
    let plain = FlowQueue { queue: Seq::empty(), expected: None, active: false };
    lemma_data_waits(plain, flow, arrivals);
    let waiting = flow.accept_all(arrivals);
    if run.len() > 0 {
        lemma_run_is_released(waiting, run, start, now, gap_timeout);
    } else {
        assert(waiting.released(now, gap_timeout) =~= run);
    }
}

/// Whether segments lie more than `length` numbers ahead of `start`, within half the sequence space.
pub open spec fn lies_beyond(packets: Seq<Packet>, start: u32, length: nat) -> bool {
    forall|i: int|
        0 <= i < packets.len() ==> length < heap::ahead(
            (#[trigger] packets[i]).spec_seq(),
            start,
        ) < 0x8000_0000
}

/// Whether just these segments wait, in whatever order.
pub open spec fn holds(flow: GapQueue, packets: Seq<Packet>) -> bool {
    &&& numbered(flow.queue)
    &&& packets_of(flow.queue).to_multiset() == packets.to_multiset()
}

/// What lies beyond a segment and more lies beyond that, counted from where the segment ends.
proof fn lemma_lies_beyond_rest(packets: Seq<Packet>, start: u32, first: Packet, rest: nat)
    requires
        lies_beyond(packets, start, advance(first) + rest),
        advance(first) + rest < 0x8000_0000,
    ensures
        lies_beyond(packets, writer::due_after(start, first), rest),
{
    assert forall|i: int| 0 <= i < packets.len() implies rest < heap::ahead(
        (#[trigger] packets[i]).spec_seq(),
        writer::due_after(start, first),
    ) < 0x8000_0000 by {
        let seq = packets[i].spec_seq();
        let next = writer::due_after(start, first);
        let step = advance(first) as int;
        assert(advance(first) + rest < heap::ahead(seq, start) < 0x8000_0000);
        assert(next == (start + step) % 0x1_0000_0000);
        assert(next == start + step || next == start + step - 0x1_0000_0000);
    }
}

/// Of a run and what lies beyond it, in whatever order they wait, the first of the run comes out
/// next.
proof fn lemma_first_of_run_comes_out(
    queue: Seq<SequencedPacket>,
    run: Seq<Packet>,
    later: Seq<Packet>,
    start: u32,
)
    requires
        numbered(queue),
        packets_of(queue).to_multiset() == (run + later).to_multiset(),
        run.len() > 0,
        gapless(run, start),
        span(run) < 0x8000_0000,
        lies_beyond(later, start, span(run)),
    ensures
        queue.len() == run.len() + later.len(),
        heap::top(queue).packet == run[0],
        heap::top(queue).seq == start,
        numbered(heap::popped(queue)),
        packets_of(heap::popped(queue)).to_multiset() == (run.drop_first() + later).to_multiset(),
{
    broadcast use vstd::seq_lib::group_to_multiset_ensures;

    let all = run + later;
    let packets = packets_of(queue);
    assert(packets.to_multiset().len() == packets.len());
    assert(all.to_multiset().len() == all.len());
    assert forall|i: int| 0 <= i < queue.len() implies heap::ahead(#[trigger] queue[i].seq, start)
        < 0x8000_0000 && (queue[i].seq == start ==> queue[i].packet == run[0]) by {
        assert(packets[i] == queue[i].packet);
        assert(packets.to_multiset().count(packets[i]) > 0);
        assert(all.to_multiset().count(packets[i]) > 0);
        assert(all.contains(packets[i]));
        let j = choose|j: int| 0 <= j < all.len() && all[j] == packets[i];
        if j < run.len() {
            lemma_run_lies_ahead(run, start, j);
            assert(all[j] == run[j]);
        } else {
            assert(all[j] == later[j - run.len()]);
        }
    }
    assert(all[0] == run[0]);
    assert(all.contains(run[0]));
    assert(all.to_multiset().count(run[0]) > 0);
    assert(packets.contains(run[0]));
    let k = choose|k: int| 0 <= k < packets.len() && packets[k] == run[0];
    assert(queue[k].packet == run[0]);
    heap::law_next_is_first(queue, start);
    heap::lemma_next_index_bound(queue);
    let at = heap::next_index(queue);
    assert(queue[k].seq == start);
    heap::law_order_within_a_window(start, queue[k].seq, queue[at].seq);
    assert(queue[at].seq == start);
    lemma_popped_numbered(queue);
    assert(packets_of(heap::popped(queue)) =~= packets.remove(at));
    assert(packets[at] == run[0]);
    assert(run.drop_first() + later =~= all.remove(0));
}

proof fn lemma_popped_numbered(queue: Seq<SequencedPacket>)
    requires
        queue.len() > 0,
        numbered(queue),
    ensures
        numbered(heap::popped(queue)),
{
    heap::lemma_next_index_bound(queue);
    let at = heap::next_index(queue);
    let rest = heap::popped(queue);
    assert forall|i: int| 0 <= i < rest.len() implies (#[trigger] rest[i]).seq
        == rest[i].packet.spec_seq() by {
        assert(rest[i] == if i < at {
            queue[i]
        } else {
            queue[i + 1]
        });
    }
}

/// Where everything that waits lies beyond a number, the next segment does.
proof fn lemma_top_lies_beyond(
    queue: Seq<SequencedPacket>,
    later: Seq<Packet>,
    start: u32,
    length: nat,
)
    requires
        numbered(queue),
        packets_of(queue).to_multiset() == later.to_multiset(),
        lies_beyond(later, start, length),
    ensures
        queue.len() == later.len(),
        queue.len() > 0 ==> length < heap::ahead(heap::top(queue).seq, start) < 0x8000_0000,
{
    broadcast use vstd::seq_lib::group_to_multiset_ensures;

    let packets = packets_of(queue);
    assert(packets.to_multiset().len() == packets.len());
    assert(later.to_multiset().len() == later.len());
    if queue.len() > 0 {
        heap::lemma_next_index_bound(queue);
        let at = heap::next_index(queue);
        assert(packets[at] == queue[at].packet);
        assert(packets.to_multiset().count(packets[at]) > 0);
        assert(later.contains(packets[at]));
        let j = choose|j: int| 0 <= j < later.len() && later[j] == packets[at];
        assert(length < heap::ahead(later[j].spec_seq(), start));
    }
}

proof fn lemma_run_leaves_before_a_gap(
    flow: FlowQueue,
    run: Seq<Packet>,
    later: Seq<Packet>,
    start: u32,
)
    requires
        flow.active,
        flow.expected == Some(start),
        numbered(flow.queue),
        packets_of(flow.queue).to_multiset() == (run + later).to_multiset(),
        gapless(run, start),
        span(run) < 0x8000_0000,
        lies_beyond(later, start, span(run)),
    ensures
        flow.in_order() == run,
    decreases run.len(),
{
    if run.len() == 0 {
        assert(run + later =~= later);
        lemma_top_lies_beyond(flow.queue, later, start, 0);
        assert(flow.visit().delivered.len() == 0);
        assert(flow.in_order() =~= run);
    } else {
        lemma_first_of_run_comes_out(flow.queue, run, later, start);
        lemma_gapless_rest(run, start);
        heap::lemma_next_index_bound(flow.queue);
        let rest = run.drop_first();
        assert(writer::without_stale(flow.queue, start) == flow.queue);
        let visit = flow.visit();
        assert(visit.delivered =~= seq![run[0]]);
        if rest.len() + later.len() == 0 {
            assert(visit.state.in_order() =~= Seq::<Packet>::empty());
        } else {
            lemma_lies_beyond_rest(later, start, run[0], span(rest));
            lemma_run_leaves_before_a_gap(
                visit.state,
                rest,
                later,
                writer::due_after(start, run[0]),
            );
        }
        assert(flow.in_order() =~= run);
    }
}

/// Of the segments that arrive, in whatever order, those that follow on each other from the number
/// that is due leave in order, each once. Those beyond a gap stay.
pub proof fn law_run_leaves_before_a_gap(
    flow: FlowQueue,
    run: Seq<Packet>,
    later: Seq<Packet>,
    start: u32,
    arrivals: Seq<Packet>,
)
    requires
        flow.queue.len() == 0,
        flow.expected == Some(start),
        gapless(run, start),
        span(run) < 0x8000_0000,
        lies_beyond(later, start, span(run)),
        forall|i: int| 0 <= i < later.len() ==> (#[trigger] later[i]).spec_is_data(),
        arrivals.to_multiset() == (run + later).to_multiset(),
    ensures
        flow.accept_all(arrivals).in_order() == run,
{
    broadcast use vstd::seq_lib::group_to_multiset_ensures;

    let all = run + later;
    let queue = arrivals.map_values(
        |packet: Packet| SequencedPacket { seq: packet.spec_seq(), packet },
    );
    assert(packets_of(queue) =~= arrivals);
    assert(arrivals.to_multiset().len() == arrivals.len());
    assert(all.to_multiset().len() == all.len());
    assert forall|i: int| 0 <= i < arrivals.len() implies (
    #[trigger] arrivals[i]).spec_is_data() by {
        assert(arrivals.to_multiset().count(arrivals[i]) > 0);
        assert(all.to_multiset().count(arrivals[i]) > 0);
        assert(all.contains(arrivals[i]));
        let j = choose|j: int| 0 <= j < all.len() && all[j] == arrivals[i];
        if j < run.len() {
            assert(run[j].spec_is_data());
        } else {
            assert(later[j - run.len()].spec_is_data());
        }
    }
    let gaps = GapQueue { queue: Seq::empty(), expected: None, active: false, deadline: None };
    lemma_data_waits(flow, gaps, arrivals);
    let waiting = flow.accept_all(arrivals);
    if all.len() > 0 {
        lemma_run_leaves_before_a_gap(waiting, run, later, start);
    } else {
        assert(waiting.in_order() =~= run);
    }
}

/// A run that begins at the number that is due is released, and what lies beyond a gap behind it
/// stays, since its deadline is yet to be set.
pub proof fn lemma_run_is_released_before_a_gap(
    flow: GapQueue,
    run: Seq<Packet>,
    later: Seq<Packet>,
    start: u32,
    now: u64,
    gap_timeout: u64,
)
    requires
        holds(flow, run + later),
        flow.expected == Some(start),
        gapless(run, start),
        span(run) < 0x8000_0000,
        lies_beyond(later, start, span(run)),
        run.len() > 0 || flow.deadline is None,
    ensures
        flow.released(now, gap_timeout) == run,
    decreases run.len(),
{
    if run.len() == 0 {
        assert(run + later =~= later);
        lemma_top_lies_beyond(flow.queue, later, start, 0);
        assert(!flow.look(now, gap_timeout).again);
        assert(flow.released(now, gap_timeout) =~= run);
    } else {
        lemma_first_of_run_comes_out(flow.queue, run, later, start);
        lemma_gapless_rest(run, start);
        heap::lemma_next_index_bound(flow.queue);
        let rest = run.drop_first();
        let next = writer::due_after(start, run[0]);
        let look = flow.look(now, gap_timeout);
        assert(look.delivered =~= seq![run[0]]);
        assert(look.again);
        lemma_segment_ends_ahead(start, run[0]);
        lemma_lies_beyond_rest(later, start, run[0], span(rest));
        lemma_run_is_released_before_a_gap(look.state, rest, later, next, now, gap_timeout);
        assert(flow.released(now, gap_timeout) =~= run);
    }
}

/// A gap in front of everything that waits holds it back until its deadline has passed. Then the run
/// behind it is released, up to the next gap.
pub proof fn lemma_gap_in_front(
    flow: GapQueue,
    run: Seq<Packet>,
    later: Seq<Packet>,
    start: u32,
    now: u64,
    gap_timeout: u64,
)
    requires
        holds(flow, run + later),
        flow.expected is Some,
        run.len() > 0,
        gapless(run, start),
        span(run) < 0x8000_0000,
        lies_beyond(later, start, span(run)),
        0 < heap::ahead(start, flow.expected->0) < 0x8000_0000,
    ensures
        flow.released(now, gap_timeout) == match flow.deadline {
            Some(deadline) if now >= deadline => run,
            _ => Seq::empty(),
        },
{
    lemma_first_of_run_comes_out(flow.queue, run, later, start);
    assert(flow.has_gap());
    let look = flow.look(now, gap_timeout);
    if look.again {
        let skipped = look.state;
        assert(skipped.expected == Some(start));
        lemma_run_is_released_before_a_gap(skipped, run, later, start, now, gap_timeout);
        assert(look.delivered + skipped.released(now, gap_timeout) =~= run);
    } else {
        assert(flow.released(now, gap_timeout) =~= Seq::<Packet>::empty());
    }
}

} // verus!
