//! What an application gets of a stream of bytes that was cut into TCP segments.

use vstd::prelude::*;

use crate::node::local::heap::{self, SequencedPacket};
use crate::node::local::runs;
use crate::node::local::writer::{self, FlowQueue};
use crate::node::local::writer_tso::GapQueue;
use crate::node::packet::{self, Packet, Segment};

verus! {

/// How many sequence numbers segments take up.
pub open spec fn stream_length(segments: Seq<Segment>) -> nat
    decreases segments.len(),
{
    if segments.len() == 0 {
        0
    } else {
        segments[0].numbers() + stream_length(segments.drop_first())
    }
}

/// Whether packets hold the segments of a stream of bytes: each carries data, the first has the
/// number `start`, and each further one has the number of the byte after the last one before it. All
/// of them take up less than half the sequence space.
pub open spec fn is_stream(segments: Seq<Segment>, packets: Seq<Packet>, start: u32) -> bool {
    &&& segments.len() == packets.len()
    &&& forall|i: int|
        0 <= i < packets.len() ==> (#[trigger] segments[i]).sent_as(packets[i])
            && segments[i].data.len() > 0
    &&& segments.len() > 0 ==> segments[0].seq == start
    &&& forall|i: int, j: int|
        0 <= i < j < segments.len() && j == i + 1 ==> (#[trigger] segments[j]).seq == ((
        #[trigger] segments[i]).seq + segments[i].numbers()) % 0x1_0000_0000
    &&& stream_length(segments) < 0x8000_0000
}

/// Whether packets hold segments that lie behind a gap: more than `length` numbers ahead of `start`,
/// and still within half the sequence space.
pub open spec fn behind_a_gap(
    segments: Seq<Segment>,
    packets: Seq<Packet>,
    start: u32,
    length: nat,
) -> bool {
    &&& segments.len() == packets.len()
    &&& forall|i: int|
        0 <= i < packets.len() ==> (#[trigger] segments[i]).sent_as(packets[i])
            && segments[i].data.len() > 0 && length < (segments[i].seq - start) % 0x1_0000_0000
            < 0x8000_0000
}

/// A stream is a gapless run.
proof fn lemma_stream_is_a_run(segments: Seq<Segment>, packets: Seq<Packet>, start: u32)
    requires
        is_stream(segments, packets, start),
    ensures
        runs::gapless(packets, start),
        runs::span(packets) == stream_length(segments),
    decreases segments.len(),
{
    assert forall|i: int| 0 <= i < packets.len() implies {
        &&& (#[trigger] packets[i]).spec_is_data()
        &&& packets[i].spec_seq() == segments[i].seq
        &&& runs::advance(packets[i]) == segments[i].numbers()
    } by {
        assert(segments[i].sent_as(packets[i]));
        packet::law_segment_reads_back(segments[i], packets[i]);
    }
    assert forall|i: int, j: int| 0 <= i < j < packets.len() && j == i + 1 implies (
    #[trigger] packets[j]).spec_seq() == writer::due_after(
        (#[trigger] packets[i]).spec_seq(),
        packets[i],
    ) by {
        assert(segments[j].seq == (segments[i].seq + segments[i].numbers()) % 0x1_0000_0000);
        assert(runs::advance(packets[i]) == segments[i].numbers());
    }
    if packets.len() > 0 {
        let rest = segments.drop_first();
        let rest_packets = packets.drop_first();
        let next = ((start + segments[0].numbers()) % 0x1_0000_0000) as u32;
        assert forall|i: int| 0 <= i < rest_packets.len() implies (#[trigger] rest[i]).sent_as(
            rest_packets[i],
        ) && rest[i].data.len() > 0 by {
            assert(rest[i] == segments[i + 1] && rest_packets[i] == packets[i + 1]);
        }
        assert forall|i: int, j: int| 0 <= i < j < rest.len() && j == i + 1 implies (
        #[trigger] rest[j]).seq == ((#[trigger] rest[i]).seq + rest[i].numbers())
            % 0x1_0000_0000 by {
            assert(rest[i] == segments[i + 1] && rest[j] == segments[j + 1]);
        }
        if rest.len() > 0 {
            assert(rest[0] == segments[1]);
        }
        lemma_stream_is_a_run(rest, rest_packets, next);
        assert(runs::advance(packets[0]) == segments[0].numbers());
    }
}

proof fn lemma_behind_a_gap(
    segments: Seq<Segment>,
    packets: Seq<Packet>,
    start: u32,
    length: nat,
)
    requires
        behind_a_gap(segments, packets, start, length),
    ensures
        runs::lies_beyond(packets, start, length),
        forall|i: int| 0 <= i < packets.len() ==> (#[trigger] packets[i]).spec_is_data(),
{
    assert forall|i: int| 0 <= i < packets.len() implies {
        &&& (#[trigger] packets[i]).spec_is_data()
        &&& length < heap::ahead(packets[i].spec_seq(), start) < 0x8000_0000
    } by {
        assert(segments[i].sent_as(packets[i]));
        packet::law_segment_reads_back(segments[i], packets[i]);
    }
}

/// The data of a stream reaches the application whole and in order, in whatever order its segments
/// arrive after the SYN and whatever options they hold. The first byte has the number after that of
/// the SYN.
pub proof fn law_stream_arrives_whole(
    flow: FlowQueue,
    gaps: GapQueue,
    syn: Segment,
    syn_packet: Packet,
    segments: Seq<Segment>,
    packets: Seq<Packet>,
    arrivals: Seq<Packet>,
    now: u64,
    gap_timeout: u64,
)
    requires
        flow.queue.len() == 0,
        gaps.queue.len() == 0,
        syn.sent_as(syn_packet),
        syn.syn,
        syn.data.len() == 0,
        is_stream(segments, packets, ((syn.seq + 1) % 0x1_0000_0000) as u32),
        arrivals.to_multiset() == packets.to_multiset(),
    ensures
        flow.accept(syn_packet).accept_all(arrivals).in_order() == packets,
        gaps.accept(syn_packet).accept_all(arrivals).released(now, gap_timeout) == packets,
{
    let start = ((syn.seq + 1) % 0x1_0000_0000) as u32;
    packet::law_segment_reads_back(syn, syn_packet);
    lemma_stream_is_a_run(segments, packets, start);
    runs::law_run_leaves_in_order(flow.accept(syn_packet), packets, start, arrivals);
    runs::law_run_is_released_in_order(
        gaps.accept(syn_packet),
        packets,
        start,
        arrivals,
        now,
        gap_timeout,
    );
}

/// While a segment of a stream is missing, what comes before it is delivered and what comes after it
/// is held back, in whatever order the others arrive; when the missing ones arrive, everything else
/// follows. No segment is delivered twice.
pub proof fn law_gap_holds_back_what_follows(
    flow: FlowQueue,
    start: u32,
    segments: Seq<Segment>,
    packets: Seq<Packet>,
    later_segments: Seq<Segment>,
    later: Seq<Packet>,
    arrivals: Seq<Packet>,
)
    requires
        flow.queue.len() == 0,
        flow.expected == Some(start),
        is_stream(segments, packets, start),
        behind_a_gap(later_segments, later, start, stream_length(segments)),
        arrivals.to_multiset() == (packets + later).to_multiset(),
    ensures
        flow.accept_all(arrivals).in_order() == packets,
{
    lemma_stream_is_a_run(segments, packets, start);
    lemma_behind_a_gap(later_segments, later, start, stream_length(segments));
    runs::law_run_leaves_before_a_gap(flow, packets, later, start, arrivals);
}

/// While a segment of a stream is missing and its deadline has not passed, what comes before it is
/// delivered and what comes after it is held back. If nothing comes before it and the deadline has
/// passed, the gap is given up: what waits is delivered, up to the next gap.
pub proof fn law_gap_is_waited_for_until_its_deadline(
    flow: GapQueue,
    start: u32,
    segments: Seq<Segment>,
    packets: Seq<Packet>,
    later_segments: Seq<Segment>,
    later: Seq<Packet>,
    now: u64,
    gap_timeout: u64,
)
    requires
        runs::holds(flow, packets + later),
        flow.expected is Some,
        is_stream(segments, packets, start),
        packets.len() > 0,
        behind_a_gap(later_segments, later, start, stream_length(segments)),
    ensures
        flow.expected == Some(start) ==> flow.released(now, gap_timeout) == packets,
        0 < (start - flow.expected->0) % 0x1_0000_0000 < 0x8000_0000 ==> flow.released(
            now,
            gap_timeout,
        ) == match flow.deadline {
            Some(deadline) if now >= deadline => packets,
            _ => Seq::empty(),
        },
{
    lemma_stream_is_a_run(segments, packets, start);
    lemma_behind_a_gap(later_segments, later, start, stream_length(segments));
    if flow.expected == Some(start) {
        runs::lemma_run_is_released_before_a_gap(flow, packets, later, start, now, gap_timeout);
    }
    if 0 < (start - flow.expected->0) % 0x1_0000_0000 < 0x8000_0000 {
        runs::lemma_gap_in_front(flow, packets, later, start, now, gap_timeout);
    }
}

/// The deadline of a gap is set when the gap is first seen, as far ahead as the timeout says, and
/// the timer is asked for. Until then the gap is neither given up nor put off by further looks, and
/// nothing leaves.
pub proof fn law_gap_has_one_deadline(
    flow: GapQueue,
    segment: Segment,
    packet: Packet,
    seen_at: u64,
    gap_timeout: u64,
    now: u64,
)
    requires
        segment.sent_as(packet),
        segment.data.len() > 0,
        flow.queue.len() == 0,
        flow.expected is Some,
        flow.deadline is None,
        0 < (segment.seq - flow.expected->0) % 0x1_0000_0000 < 0x8000_0000,
        seen_at + gap_timeout <= u64::MAX,
    ensures
        ({
            let seen = flow.accept(packet).turn(seen_at, gap_timeout);
            let then = seen.state.turn(now, gap_timeout);
            &&& seen.armed
            &&& seen.state.deadline == Some((seen_at + gap_timeout) as u64)
            &&& seen.state.expected == flow.expected
            &&& seen.state.active
            &&& seen.delivered == Seq::<Packet>::empty()
            &&& now < seen_at + gap_timeout ==> then.state == seen.state && then.delivered == Seq::<
                Packet,
            >::empty() && !then.armed
            &&& now >= seen_at + gap_timeout ==> then.delivered == seq![packet]
                && then.state.queue.len() == 0
        }),
{
    packet::law_segment_reads_back(segment, packet);
    let waiting = flow.accept(packet);
    assert(waiting.queue =~= seq![SequencedPacket { seq: segment.seq, packet }]);
    assert(heap::top(waiting.queue).packet == packet);
    assert(waiting.has_gap());
    let seen = waiting.turn(seen_at, gap_timeout);
    assert(seen == waiting.look(seen_at, gap_timeout));
    let held = seen.state;
    let look = held.look(now, gap_timeout);
    if now >= seen_at + gap_timeout {
        let skipped = look.state;
        let delivering = skipped.look(now, gap_timeout);
        assert(delivering.delivered =~= seq![packet]);
        assert(delivering.state.queue.len() == 0);
        let done = delivering.state.turn(now, gap_timeout);
        assert(done == delivering.state.look(now, gap_timeout));
        assert(skipped.turn(now, gap_timeout).delivered =~= seq![packet]);
        assert(held.turn(now, gap_timeout).delivered =~= seq![packet]);
    }
}

/// Whether a sequence number comes before another: it lies less than or exactly half the sequence
/// space behind it.
pub open spec fn comes_before(seq: u32, other: u32) -> bool {
    0 < (other - seq) % 0x1_0000_0000 <= 0x8000_0000
}

proof fn lemma_comes_before(seq: u32, due: u32)
    ensures
        comes_before(seq, due) == heap::before(seq, due),
{
}

/// The plain writer drops a lone segment that comes before the number that is due.
proof fn lemma_stale_is_dropped(waiting: FlowQueue, due: u32, stale: SequencedPacket)
    requires
        waiting.queue == seq![stale],
        waiting.expected == Some(due),
        waiting.active,
        heap::before(stale.seq, due),
    ensures
        waiting.in_order() == Seq::<Packet>::empty(),
        waiting.visit().state.queue.len() == 0,
        waiting.visit().state.expected == Some(due),
{
    let queue = waiting.queue;
    assert(heap::popped(queue) =~= Seq::empty());
    assert(writer::without_stale(heap::popped(queue), due) =~= Seq::empty());
    assert(writer::without_stale(queue, due) =~= Seq::empty());
    assert(waiting.in_order() =~= Seq::empty());
}

/// The other writer passes a lone segment on that comes before the number that is due.
proof fn lemma_stale_is_passed_on(
    waiting: GapQueue,
    due: u32,
    stale: SequencedPacket,
    now: u64,
    gap_timeout: u64,
)
    requires
        waiting.queue == seq![stale],
        waiting.expected == Some(due),
        heap::before(stale.seq, due),
    ensures
        waiting.released(now, gap_timeout) == seq![stale.packet],
        waiting.turn(now, gap_timeout).state.queue.len() == 0,
        waiting.turn(now, gap_timeout).state.expected == Some(due),
{
    let look = waiting.look(now, gap_timeout);
    assert(look.delivered =~= seq![stale.packet]);
    assert(look.state.queue =~= Seq::empty());
    let rest = look.state.turn(now, gap_timeout);
    assert(rest == look.state.look(now, gap_timeout));
    assert(waiting.turn(now, gap_timeout).delivered =~= seq![stale.packet]);
}

/// A segment that comes before the number that is due was delivered already. The plain writer drops
/// it; the other one passes it on at once. Neither moves the number that is due.
pub proof fn law_stale_segments(
    flow: FlowQueue,
    gaps: GapQueue,
    due: u32,
    segment: Segment,
    packet: Packet,
    now: u64,
    gap_timeout: u64,
)
    requires
        segment.sent_as(packet),
        segment.data.len() > 0,
        comes_before(segment.seq, due),
        flow.queue.len() == 0,
        flow.expected == Some(due),
        gaps.queue.len() == 0,
        gaps.expected == Some(due),
    ensures
        flow.accept(packet).in_order() == Seq::<Packet>::empty(),
        flow.accept(packet).visit().state.queue.len() == 0,
        flow.accept(packet).visit().state.expected == Some(due),
        gaps.accept(packet).released(now, gap_timeout) == seq![packet],
        gaps.accept(packet).turn(now, gap_timeout).state.queue.len() == 0,
        gaps.accept(packet).turn(now, gap_timeout).state.expected == Some(due),
{
    packet::law_segment_reads_back(segment, packet);
    lemma_comes_before(segment.seq, due);
    let stale = SequencedPacket { seq: segment.seq, packet };
    assert(flow.accept(packet).queue =~= seq![stale]);
    assert(gaps.accept(packet).queue =~= seq![stale]);
    lemma_stale_is_dropped(flow.accept(packet), due, stale);
    lemma_stale_is_passed_on(gaps.accept(packet), due, stale, now, gap_timeout);
}

/// What carries no data is passed on at once, and only SYN, FIN and RST change what is due: SYN says
/// that the number after its own is due. After FIN or RST the plain writer no longer knows what is
/// due, and the other one never goes back.
pub proof fn law_control_segments(flow: FlowQueue, gaps: GapQueue, segment: Segment, packet: Packet)
    requires
        segment.sent_as(packet),
        segment.data.len() == 0,
    ensures
        flow.accept(packet).queue == flow.queue,
        gaps.accept(packet).queue == gaps.queue,
        ({
            let next = ((segment.seq + 1) % 0x1_0000_0000) as u32;
            let ends = segment.fin || segment.rst;
            &&& flow.accept(packet).expected == if segment.syn {
                Some(next)
            } else if ends {
                None
            } else {
                flow.expected
            }
            &&& gaps.accept(packet).expected == if segment.syn || ends && gaps.expected is None {
                Some(next)
            } else if ends && comes_before(gaps.expected->0, next) {
                Some(next)
            } else {
                gaps.expected
            }
            &&& gaps.accept(packet).deadline == if segment.syn || ends {
                None
            } else {
                gaps.deadline
            }
            &&& flow.accept(packet).active == (flow.active || segment.syn)
            &&& gaps.accept(packet).active == (gaps.active || segment.syn)
        }),
{
    packet::law_segment_reads_back(segment, packet);
}

/// Data waits, whatever flags it comes with, until the flow is next looked at.
pub proof fn law_data_segments_wait(
    flow: FlowQueue,
    gaps: GapQueue,
    segment: Segment,
    packet: Packet,
)
    requires
        segment.sent_as(packet),
        segment.data.len() > 0,
    ensures
        flow.accept(packet) == (FlowQueue {
            queue: flow.queue.push(SequencedPacket { seq: segment.seq, packet }),
            expected: flow.expected,
            active: true,
        }),
        gaps.accept(packet) == (GapQueue {
            queue: gaps.queue.push(SequencedPacket { seq: segment.seq, packet }),
            expected: gaps.expected,
            active: true,
            deadline: gaps.deadline,
        }),
{
    packet::law_segment_reads_back(segment, packet);
}

/// Taking out what comes before the due number takes out nothing else.
proof fn lemma_only_stale_is_dropped(queue: Seq<SequencedPacket>, due: u32, base: u32, i: int)
    requires
        heap::in_window(queue, base),
        heap::ahead(due, base) < 0x8000_0000,
        0 <= i < queue.len(),
    ensures
        writer::without_stale(queue, due).contains(queue[i]) <==> !heap::before(queue[i].seq, due),
    decreases queue.len(),
{
    let fresh = writer::without_stale(queue, due);
    heap::lemma_next_index_bound(queue);
    let at = heap::next_index(queue);
    heap::law_next_is_first(queue, base);
    if heap::before(heap::top(queue).seq, due) {
        let rest = heap::popped(queue);
        assert forall|k: int| 0 <= k < rest.len() implies heap::ahead(#[trigger] rest[k].seq, base)
            < 0x8000_0000 by {
            assert(rest[k] == if k < at {
                queue[k]
            } else {
                queue[k + 1]
            });
        }
        if i < at {
            assert(rest[i] == queue[i]);
            lemma_only_stale_is_dropped(rest, due, base, i);
        } else if i > at {
            assert(rest[i - 1] == queue[i]);
            lemma_only_stale_is_dropped(rest, due, base, i - 1);
        } else if fresh.contains(queue[i]) {
            lemma_fresh_was_waiting(rest, due, queue[i]);
            let k = choose|k: int| 0 <= k < rest.len() && rest[k] == queue[i];
            lemma_only_stale_is_dropped(rest, due, base, k);
        }
    } else {
        assert(fresh == queue);
        assert(!heap::before(queue[i].seq, heap::top(queue).seq));
        heap::law_order_within_a_window(base, queue[i].seq, heap::top(queue).seq);
        heap::law_order_within_a_window(base, heap::top(queue).seq, due);
        heap::law_order_within_a_window(base, queue[i].seq, due);
    }
}

proof fn lemma_fresh_was_waiting(queue: Seq<SequencedPacket>, due: u32, waiting: SequencedPacket)
    requires
        writer::without_stale(queue, due).contains(waiting),
    ensures
        queue.contains(waiting),
    decreases queue.len(),
{
    if queue.len() > 0 && heap::before(heap::top(queue).seq, due) {
        heap::lemma_next_index_bound(queue);
        let rest = heap::popped(queue);
        lemma_fresh_was_waiting(rest, due, waiting);
        let k = choose|k: int| 0 <= k < rest.len() && rest[k] == waiting;
        let at = heap::next_index(queue);
        assert(waiting == if k < at {
            queue[k]
        } else {
            queue[k + 1]
        });
    }
}

proof fn lemma_popped_contains(queue: Seq<SequencedPacket>, waiting: SequencedPacket)
    requires
        queue.len() > 0,
    ensures
        heap::popped(queue).contains(waiting) ==> queue.contains(waiting),
        queue.contains(waiting) ==> heap::popped(queue).contains(waiting) || waiting == heap::top(
            queue,
        ),
{
    heap::lemma_next_index_bound(queue);
    let at = heap::next_index(queue);
    let rest = heap::popped(queue);
    if rest.contains(waiting) {
        let m = choose|m: int| 0 <= m < rest.len() && rest[m] == waiting;
        assert(waiting == if m < at {
            queue[m]
        } else {
            queue[m + 1]
        });
    }
    if queue.contains(waiting) {
        let m = choose|m: int| 0 <= m < queue.len() && queue[m] == waiting;
        if m < at {
            assert(rest[m] == waiting);
        } else if m > at {
            assert(rest[m - 1] == waiting);
        }
    }
}

/// The plain writer drops what comes before the due number and nothing else: a look leaves every
/// other segment waiting or delivers it. The segments lie within half the sequence space.
pub proof fn law_nothing_but_stale_is_dropped(flow: FlowQueue, due: u32, base: u32, i: int)
    requires
        flow.active,
        flow.expected == Some(due),
        heap::in_window(flow.queue, base),
        heap::ahead(due, base) < 0x8000_0000,
        0 <= i < flow.queue.len(),
    ensures
        comes_before(flow.queue[i].seq, due) ==> !flow.visit().state.queue.contains(flow.queue[i]),
        !comes_before(flow.queue[i].seq, due) ==> flow.visit().state.queue.contains(flow.queue[i])
            || flow.visit().delivered == seq![flow.queue[i].packet],
        flow.visit().delivered.len() > 0 ==> exists|k: int|
            0 <= k < flow.queue.len() && (#[trigger] flow.queue[k]).seq == due
                && flow.visit().delivered == seq![flow.queue[k].packet],
{
    let waiting = flow.queue[i];
    let fresh = writer::without_stale(flow.queue, due);
    lemma_only_stale_is_dropped(flow.queue, due, base, i);
    lemma_comes_before(waiting.seq, due);
    if fresh.len() > 0 && heap::top(fresh).seq == due {
        heap::lemma_next_index_bound(fresh);
        assert(flow.visit().state.queue == heap::popped(fresh));
        lemma_fresh_was_waiting(flow.queue, due, heap::top(fresh));
        let k = choose|k: int|
            0 <= k < flow.queue.len() && flow.queue[k] == heap::top(fresh);
        assert(flow.queue[k].seq == due);
        lemma_popped_contains(fresh, waiting);
    }
}

/// Delivering the segment that is due makes the number after its last byte due, where a FIN or RST
/// takes up one number. The plain writer forgets a flow that has nothing left to wait for.
pub proof fn law_delivery_moves_the_due_number(
    flow: FlowQueue,
    gaps: GapQueue,
    segment: Segment,
    now: u64,
    gap_timeout: u64,
)
    requires
        flow.queue.len() > 0,
        gaps.queue == flow.queue,
        flow.active,
        gaps.active,
        segment.sent_as(heap::top(flow.queue).packet),
        segment.data.len() > 0,
        heap::top(flow.queue).seq == segment.seq,
        flow.expected is None || flow.expected == Some(segment.seq),
        gaps.expected is None || gaps.expected == Some(segment.seq),
        segment.numbers() < 0x8000_0000,
    ensures
        ({
            let next = ((segment.seq + segment.numbers()) % 0x1_0000_0000) as u32;
            let seen = flow.visit();
            let looked = gaps.look(now, gap_timeout);
            let left = flow.queue.remove(heap::next_index(flow.queue));
            &&& seen.delivered == seq![heap::top(flow.queue).packet]
            &&& seen.state.queue == left
            &&& seen.state.active == (left.len() > 0)
            &&& seen.state.expected == if left.len() > 0 {
                Some(next)
            } else {
                None
            }
            &&& looked.delivered == seq![heap::top(flow.queue).packet]
            &&& looked.state.queue == left
            &&& looked.state.active == (left.len() > 0)
            &&& looked.state.expected == Some(next)
            &&& looked.state.deadline is None
            &&& looked.again
            &&& !looked.armed
        }),
{
    let packet = heap::top(flow.queue).packet;
    packet::law_segment_reads_back(segment, packet);
    lemma_comes_before(segment.seq, segment.seq);
    lemma_comes_before(
        segment.seq,
        ((segment.seq + segment.numbers()) % 0x1_0000_0000) as u32,
    );
}

/// A flow with nothing to deliver keeps what it waits for, and what is due is remembered. A flow that
/// waits for nothing is no longer looked at.
pub proof fn law_nothing_to_deliver(flow: FlowQueue, gaps: GapQueue, now: u64, gap_timeout: u64)
    requires
        flow.active,
    ensures
        flow.queue.len() == 0 ==> flow.visit().delivered.len() == 0 && flow.visit().state == (FlowQueue {
            queue: flow.queue,
            expected: flow.expected,
            active: false,
        }),
        flow.queue.len() > 0 && flow.expected is Some && heap::top(flow.queue).seq
            != flow.expected->0 && !comes_before(heap::top(flow.queue).seq, flow.expected->0)
            ==> flow.visit().delivered.len() == 0 && flow.visit().state == flow,
        gaps.queue.len() == 0 ==> {
            let looked = gaps.look(now, gap_timeout);
            &&& looked.delivered.len() == 0
            &&& !looked.again
            &&& !looked.armed
            &&& looked.state.queue == gaps.queue
            &&& looked.state.expected == gaps.expected
            &&& looked.state.deadline is None
            &&& !looked.state.active
        },
{
    if flow.queue.len() > 0 && flow.expected is Some {
        lemma_comes_before(heap::top(flow.queue).seq, flow.expected->0);
    }
}

/// Of a new flow nothing waits, nothing is known to be due, and it is not looked at before something
/// arrives.
pub proof fn law_new_flow_waits_for_nothing()
    ensures
        FlowQueue::unknown().queue.len() == 0,
        FlowQueue::unknown().expected is None,
        !FlowQueue::unknown().active,
        GapQueue::unknown().queue.len() == 0,
        GapQueue::unknown().expected is None,
        GapQueue::unknown().deadline is None,
        !GapQueue::unknown().active,
{
}

} // verus!
