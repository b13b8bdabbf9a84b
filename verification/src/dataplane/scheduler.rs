//! The order in which packets leave a node, and how their bytes are charged to the link rate.

use vstd::prelude::*;

use crate::dataplane::packet::Packet;

pub use crate::messages::SchedulingDiscipline;

verus! {

/// After so many packets the bytes sent are charged to the rate limiter.
pub const BATCH_SIZE: usize = 32;

/// `crossbeam_queue::ArrayQueue`, a bounded queue of the outside crate `crossbeam-queue`.
#[verifier::external_type_specification]
#[verifier::external_body]
#[verifier::reject_recursive_types(T)]
pub struct ExArrayQueue<T>(crossbeam_queue::ArrayQueue<T>);

/// The packets in a `crossbeam_queue::ArrayQueue`, the oldest first.
pub uninterp spec fn queued_packets(queue: crossbeam_queue::ArrayQueue<Packet>) -> Seq<Packet>;

/// The number of packets that a `crossbeam_queue::ArrayQueue` was made for.
pub uninterp spec fn queue_capacity(queue: crossbeam_queue::ArrayQueue<Packet>) -> nat;

/// Calls `crossbeam_queue::ArrayQueue::new`: the queue is empty and has the given capacity. A
/// capacity of zero, or one for which no buffer can be allocated, is ruled out by `requires`, since
/// the outside function stops on it.
#[verifier::external_body]
fn queue_new(capacity: usize) -> (queue: crossbeam_queue::ArrayQueue<Packet>)
    requires
        0 < capacity <= usize::MAX / 0x4000,
    ensures
        queued_packets(queue) == Seq::<Packet>::empty(),
        queue_capacity(queue) == capacity,
{
    crossbeam_queue::ArrayQueue::new(capacity)
}

/// Calls `crossbeam_queue::ArrayQueue::push` on a queue that nobody else uses: the packet is added
/// at the end where there is room, and handed back where there is none.
#[verifier::external_body]
fn queue_push(queue: &mut crossbeam_queue::ArrayQueue<Packet>, packet: Packet) -> (pushed: Result<
    (),
    Packet,
>)
    ensures
        queue_capacity(*final(queue)) == queue_capacity(*old(queue)),
        queued_packets(*old(queue)).len() < queue_capacity(*old(queue)) ==> pushed is Ok
            && queued_packets(*final(queue)) == queued_packets(*old(queue)).push(packet),
        queued_packets(*old(queue)).len() >= queue_capacity(*old(queue)) ==> pushed is Err
            && pushed->Err_0 == packet && queued_packets(*final(queue)) == queued_packets(
            *old(queue),
        ),
{
    queue.push(packet)
}

/// Calls `crossbeam_queue::ArrayQueue::pop` on a queue that nobody else uses: the oldest packet is
/// taken out, where there is one.
#[verifier::external_body]
fn queue_pop(queue: &mut crossbeam_queue::ArrayQueue<Packet>) -> (packet: Option<Packet>)
    ensures
        queue_capacity(*final(queue)) == queue_capacity(*old(queue)),
        queued_packets(*old(queue)).len() > 0 ==> packet == Some(queued_packets(*old(queue))[0])
            && queued_packets(*final(queue)) == queued_packets(*old(queue)).skip(1),
        queued_packets(*old(queue)).len() == 0 ==> packet is None && queued_packets(*final(queue))
            == queued_packets(*old(queue)),
{
    queue.pop()
}

/// Calls `crossbeam_queue::ArrayQueue::len` on a queue that nobody else uses: the number of packets
/// in it.
#[verifier::external_body]
fn queue_len(queue: &crossbeam_queue::ArrayQueue<Packet>) -> (len: usize)
    ensures
        len == queued_packets(*queue).len(),
{
    queue.len()
}

/// What became of a packet that was to be queued.
#[derive(Clone, Copy, Debug, PartialEq, Eq, Structural)]
pub enum Enqueued {
    /// It waits its turn, and whoever sends packets is to be told.
    Waiting,
    /// The drop strategy turned it away.
    Dropped,
    /// The queue had no room for it.
    NoRoom,
}

/// A packet to send, and what to charge to the rate limiter after it.
pub struct Transmission {
    pub packet: Packet,
    /// The bytes to charge, where it is time to charge any.
    pub charge: Option<usize>,
}

/// Counts the bytes sent, and says when to charge them.
#[derive(Clone, Copy, Debug, PartialEq, Eq, Structural)]
pub struct BatchMeter {
    /// Bytes sent and not charged yet.
    pub tokens: usize,
    /// Packets sent since the bytes were last charged.
    pub counter: usize,
}

impl BatchMeter {
    /// The meter after a packet of this size.
    pub open spec fn after(self, size: usize) -> BatchMeter {
        if self.counter == BATCH_SIZE {
            BatchMeter { tokens: 0, counter: 1 }
        } else {
            BatchMeter {
                tokens: (self.tokens + size) as usize,
                counter: (self.counter + 1) as usize,
            }
        }
    }

    /// What is charged after a packet of this size.
    pub open spec fn charge(self, size: usize) -> Option<usize> {
        if self.counter == BATCH_SIZE {
            Some((self.tokens + size) as usize)
        } else {
            None
        }
    }

    /// The counter stays within a batch.
    pub open spec fn wf(self) -> bool {
        self.counter <= BATCH_SIZE
    }

    /// Nothing was sent.
    pub fn new() -> (meter: Self)
        ensures
            meter.wf(),
            meter == (BatchMeter { tokens: 0, counter: 0 }),
    {
        BatchMeter { tokens: 0, counter: 0 }
    }

    /// Counts a packet, and returns the bytes to charge where it is time.
    pub fn count(&mut self, size: usize) -> (charge: Option<usize>)
        requires
            old(self).wf(),
            old(self).tokens + size <= usize::MAX,
        ensures
            final(self).wf(),
            *final(self) == old(self).after(size),
            charge == old(self).charge(size),
    {
        let mut charge: Option<usize> = None;
        self.tokens = self.tokens + size;
        if self.counter == BATCH_SIZE {
            charge = Some(self.tokens);
            self.counter = 0;
            self.tokens = 0;
        }
        self.counter = self.counter + 1;
        charge
    }
}

/// No byte goes uncharged: what is charged after a packet and what is left to charge are what was
/// left before and the packet.
pub proof fn law_every_byte_is_charged(meter: BatchMeter, size: usize)
    requires
        meter.wf(),
        meter.tokens + size <= usize::MAX,
    ensures
        meter.after(size).tokens + (match meter.charge(size) {
            Some(charge) => charge as int,
            None => 0,
        }) == meter.tokens + size,
        meter.after(size).wf(),
{
}

/// Defines the interface for all scheduling disciplines.
pub trait Scheduler {
    /// The packets that wait, in the order in which they are to leave.
    spec fn waiting(&self) -> Seq<Packet>;

    /// The number of packets that may wait.
    spec fn capacity(&self) -> nat;

    /// How many packets the drop strategy has turned away.
    spec fn dropped(&self) -> int;

    /// The bytes that are still to be charged.
    spec fn meter(&self) -> BatchMeter;

    /// Whether the scheduler is in order.
    spec fn wf(&self) -> bool;

    /// Queues a packet, unless the drop strategy says to drop it.
    fn enqueue(&mut self, packet: Packet, should_drop: bool) -> (outcome: Enqueued)
        requires
            old(self).wf(),
            old(self).dropped() < usize::MAX,
        ensures
            final(self).wf(),
            final(self).capacity() == old(self).capacity(),
            final(self).meter() == old(self).meter(),
            outcome == (if should_drop {
                Enqueued::Dropped
            } else if old(self).waiting().len() < old(self).capacity() {
                Enqueued::Waiting
            } else {
                Enqueued::NoRoom
            }),
            final(self).waiting() == (if outcome is Waiting {
                old(self).waiting().push(packet)
            } else {
                old(self).waiting()
            }),
            final(self).dropped() == old(self).dropped() + if should_drop {
                1int
            } else {
                0int
            },
    ;

    /// Takes the next packet to send, where there is one.
    fn run(&mut self) -> (next: Option<Transmission>)
        requires
            old(self).wf(),
            old(self).waiting().len() > 0 ==> old(self).meter().tokens
                + old(self).waiting()[0].packet_size <= usize::MAX,
        ensures
            final(self).wf(),
            final(self).capacity() == old(self).capacity(),
            final(self).dropped() == old(self).dropped(),
            next is Some == (old(self).waiting().len() > 0),
            next is None ==> final(self).waiting() == old(self).waiting() && final(self).meter()
                == old(self).meter(),
            next matches Some(transmission) ==> {
                &&& transmission.packet == old(self).waiting()[0]
                &&& transmission.charge == old(self).meter().charge(
                    transmission.packet.packet_size,
                )
                &&& final(self).waiting() == old(self).waiting().skip(1)
                &&& final(self).meter() == old(self).meter().after(
                    transmission.packet.packet_size,
                )
            },
    ;
}

/// FIFO is a scheduling discipline that schedules packets in a first-in-first-out manner.
pub struct Fifo {
    queue: crossbeam_queue::ArrayQueue<Packet>,
    packets_dropped: usize,
    meter: BatchMeter,
}

impl Fifo {
    /// A queue for `capacity` packets.
    pub fn new(capacity: usize) -> (fifo: Fifo)
        requires
            0 < capacity <= usize::MAX / 0x4000,
        ensures
            fifo.wf(),
            fifo.waiting() == Seq::<Packet>::empty(),
            fifo.capacity() == capacity,
            fifo.dropped() == 0,
            fifo.meter() == (BatchMeter { tokens: 0, counter: 0 }),
    {
        Fifo { queue: queue_new(capacity), packets_dropped: 0, meter: BatchMeter::new() }
    }

    /// The number of packets that wait, by which the drop strategy decides.
    pub fn len(&self) -> (len: usize)
        ensures
            len == self.waiting().len(),
    {
        queue_len(&self.queue)
    }

    /// How many packets the drop strategy has turned away.
    pub fn packets_dropped(&self) -> (dropped: usize)
        ensures
            dropped == self.dropped(),
    {
        self.packets_dropped
    }
}

impl Scheduler for Fifo {
    closed spec fn waiting(&self) -> Seq<Packet> {
        queued_packets(self.queue)
    }

    closed spec fn capacity(&self) -> nat {
        queue_capacity(self.queue)
    }

    closed spec fn dropped(&self) -> int {
        self.packets_dropped as int
    }

    closed spec fn meter(&self) -> BatchMeter {
        self.meter
    }

    closed spec fn wf(&self) -> bool {
        self.meter.wf()
    }

    fn enqueue(&mut self, packet: Packet, should_drop: bool) -> (outcome: Enqueued) {
        if should_drop {
            self.packets_dropped = self.packets_dropped + 1;
            return Enqueued::Dropped;
        }
        match queue_push(&mut self.queue, packet) {
            Ok(_) => Enqueued::Waiting,
            Err(_) => Enqueued::NoRoom,
        }
    }

    fn run(&mut self) -> (next: Option<Transmission>) {
        match queue_pop(&mut self.queue) {
            Some(packet) => {
                let charge = self.meter.count(packet.packet_size);
                Some(Transmission { packet, charge })
            },
            None => None,
        }
    }
}

/// Bytes are charged together with the packet after every 32, and never in between.
pub proof fn law_bytes_are_charged_after_a_full_batch(meter: BatchMeter, size: usize)
    requires
        meter.wf(),
        meter.tokens + size <= usize::MAX,
    ensures
        meter.charge(size) is Some <==> meter.counter == 32,
        meter.charge(size) matches Some(charge) ==> charge == meter.tokens + size
            && meter.after(size).tokens == 0 && meter.after(size).counter == 1,
        meter.charge(size) is None ==> meter.after(size).tokens == meter.tokens + size
            && meter.after(size).counter == meter.counter + 1,
{
}

} // verus!
