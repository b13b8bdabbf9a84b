//! Which of the local devices a packet goes to, and what comes in from them.

use vstd::prelude::*;

use crate::net::Ipv4Addr;
use crate::node::local::writer;
use crate::node::packet::{self, Packet};
use crate::node::{self, FlowId, FlowIdExt};

verus! {

/// Message types for LocalInterface, which manages the LocalReader and LocalWriter actors.
#[derive(Clone, Copy, Debug, PartialEq, Eq, Structural)]
pub enum ShutdownMessage {
    /// Shuts down LocalInterface gracefully, stopping all LocalReader and LocalWriter actors.
    Shutdown,
}

/// What a processor asks of a local writer.
#[derive(Debug)]
pub enum LocalInterfaceMessage {
    /// Send a packet to the application via the local interface.
    WritePacket(Packet),
}

/// The number of bits that are set in a number.
pub open spec fn bits_set(n: nat) -> nat
    decreases n,
{
    if n == 0 {
        0
    } else {
        n % 2 + bits_set(n / 2)
    }
}

/// A number has no more bits set than it has bits.
proof fn lemma_bits_set_bound(n: nat, width: nat)
    requires
        n < vstd::arithmetic::power2::pow2(width),
    ensures
        bits_set(n) <= width,
    decreases width,
{
    if width == 0 {
        vstd::arithmetic::power2::lemma2_to64();
    } else if n > 0 {
        vstd::arithmetic::power2::lemma_pow2_unfold(width);
        lemma_bits_set_bound(n / 2, (width - 1) as nat);
    }
}

/// The prefix length of a mask that starts with `prefix` ones is `prefix`.
pub proof fn law_prefix_of_a_contiguous_mask(prefix: nat)
    requires
        prefix <= 32,
    ensures
        bits_set(
            (vstd::arithmetic::power2::pow2(32) - vstd::arithmetic::power2::pow2(
                (32 - prefix) as nat,
            )) as nat,
        ) == prefix,
{
    lemma_run_of_ones(prefix, (32 - prefix) as nat);
}

proof fn lemma_run_of_ones(ones: nat, zeros: nat)
    ensures
        bits_set(
            (vstd::arithmetic::power2::pow2(ones + zeros) - vstd::arithmetic::power2::pow2(
                zeros,
            )) as nat,
        ) == ones,
        vstd::arithmetic::power2::pow2(ones + zeros) >= vstd::arithmetic::power2::pow2(zeros),
    decreases ones + zeros,
{
    broadcast use vstd::arithmetic::power2::lemma_pow2_pos;

    vstd::arithmetic::power2::lemma2_to64();
    if zeros > 0 {
        vstd::arithmetic::power2::lemma_pow2_unfold(zeros);
        vstd::arithmetic::power2::lemma_pow2_unfold(ones + zeros);
        assert(ones + (zeros - 1) == ones + zeros - 1);
        lemma_run_of_ones(ones, (zeros - 1) as nat);
    } else if ones > 0 {
        vstd::arithmetic::power2::lemma_pow2_unfold(ones);
        lemma_run_of_ones((ones - 1) as nat, 0);
        assert(ones + zeros == ones);
    }
}

/// What the local interface knows of its writers: how many there are.
#[derive(Clone, Copy, Debug)]
pub struct LocalInterfaceHandle {
    /// The number of local writers; none where the local interface is disabled.
    pub num_writers: usize,
}

/// The writer that takes the packets of a flow, where there are any writers.
pub open spec fn writer_of(num_writers: usize, flow_id: FlowId) -> usize {
    node::jump_slot(
        node::JUMP_KEY_FIRST,
        node::JUMP_KEY_SECOND,
        flow_id,
        num_writers as u32,
    ) as usize
}

impl LocalInterfaceHandle {
    /// The writer that a packet is handed to, and what the writer is told.
    pub open spec fn sent(self, packet: Packet) -> Option<(usize, LocalInterfaceMessage)> {
        if self.num_writers == 0 {
            None
        } else {
            Some(
                (
                    writer_of(self.num_writers, packet.flow_id),
                    LocalInterfaceMessage::WritePacket(packet),
                ),
            )
        }
    }

    /// The packets that a writer is told to write, in order, when packets are handed to the local
    /// interface one after the other.
    pub open spec fn handed_to(self, writer: usize, packets: Seq<Packet>) -> Seq<Packet>
        decreases packets.len(),
    {
        if packets.len() == 0 {
            Seq::empty()
        } else {
            let earlier = self.handed_to(writer, packets.drop_last());
            match self.sent(packets.last()) {
                Some((to, LocalInterfaceMessage::WritePacket(packet))) if to == writer => (
                earlier.push(packet)),
                _ => earlier,
            }
        }
    }

    /// The number of the writer that takes a packet, and what it is told. A disabled interface
    /// drops the packet. The packets of one flow all go to the same writer. Writers are counted in
    /// 32 bits to choose one.
    pub fn write_packet(&self, packet: Packet) -> (sent: Option<(usize, LocalInterfaceMessage)>)
        requires
            self.num_writers == 0 || self.num_writers as u32 > 0,
        ensures
            sent == self.sent(packet),
            sent matches Some(sent) ==> sent.0 < self.num_writers,
    {
        if self.num_writers == 0 {
            return None;
        }
        let writer: usize = packet.flow_id.hash(self.num_writers);
        proof {
            let num_writers = self.num_writers;
            assert(num_writers as u32 <= num_writers) by (bit_vector);
        }
        Some((writer, LocalInterfaceMessage::WritePacket(packet)))
    }

    /// Converts a netmask to its prefix length.
    pub fn mask_to_prefix(mask: Ipv4Addr) -> (prefix: u8)
        ensures
            prefix == bits_set(mask.bits as nat),
    {
        let mut rest: u32 = mask.bits;
        let mut counted: u8 = 0;
        proof {
            vstd::arithmetic::power2::lemma2_to64();
            lemma_bits_set_bound(rest as nat, 32);
        }
        while rest > 0
            invariant
                counted + bits_set(rest as nat) == bits_set(mask.bits as nat),
                bits_set(mask.bits as nat) <= 32,
            decreases rest,
        {
            counted = counted + (rest % 2) as u8;
            rest = rest / 2;
        }
        counted
    }
}

/// A packet by its contents.
#[verifier::ext_equal]
pub struct PacketContents {
    pub flow_id: node::FlowId,
    pub bytes: Seq<u8>,
}

/// The packets among what a device returned: buffer `i` holds `sizes[i]` bytes, and what is empty
/// or no IPv4 packet does not count.
pub open spec fn packets_in(
    buffers: Seq<Vec<u8>>,
    sizes: Seq<usize>,
    num_packets: nat,
) -> Seq<PacketContents>
    decreases num_packets,
{
    if num_packets == 0 {
        Seq::empty()
    } else {
        let earlier = packets_in(buffers, sizes, (num_packets - 1) as nat);
        let size = sizes[num_packets - 1];
        let bytes = buffers[num_packets - 1]@.take(size as int);
        if size == 0 || packet::flow_of(bytes) == packet::INVALID_FLOW_ID {
            earlier
        } else {
            earlier.push(PacketContents { flow_id: packet::flow_of(bytes), bytes })
        }
    }
}

/// The contents of a list of packets.
pub open spec fn contents(packets: Seq<Packet>) -> Seq<PacketContents> {
    Seq::new(
        packets.len(),
        |i: int| PacketContents { flow_id: packets[i].flow_id, bytes: packets[i].bytes() },
    )
}

/// Makes packets of the buffers that a device filled.
pub fn read_packets(buffers: &Vec<Vec<u8>>, sizes: &Vec<usize>, num_packets: usize) -> (packets: Vec<
    Packet,
>)
    requires
        num_packets <= buffers@.len(),
        num_packets <= sizes@.len(),
        forall|i: int| 0 <= i < num_packets ==> #[trigger] sizes@[i] <= buffers@[i]@.len(),
    ensures
        contents(packets@) == packets_in(buffers@, sizes@, num_packets as nat),
{
    let mut packets: Vec<Packet> = Vec::new();
    let mut i: usize = 0;
    assert(contents(packets@) =~= packets_in(buffers@, sizes@, 0));
    while i < num_packets
        invariant
            i <= num_packets <= buffers@.len(),
            num_packets <= sizes@.len(),
            forall|j: int| 0 <= j < num_packets ==> #[trigger] sizes@[j] <= buffers@[j]@.len(),
            contents(packets@) == packets_in(buffers@, sizes@, i as nat),
        decreases num_packets - i,
    {
        let packet_size: usize = sizes[i];
        if packet_size > 0 {
            let packet = Packet::from_slice(packet_size, buffers[i].as_slice());
            assert(packet.bytes() =~= buffers@[i as int]@.take(packet_size as int));
            if packet.flow_id != packet::INVALID_FLOW_ID {
                let ghost earlier = packets@;
                packets.push(packet);
                assert(contents(packets@) =~= contents(earlier).push(
                    PacketContents { flow_id: packet.flow_id, bytes: packet.bytes() },
                ));
            }
        }
        i = i + 1;
    }
    packets
}

/// A disabled interface drops every packet. Otherwise the packets of a flow all reach one writer,
/// each once and in the order in which they were handed over, and no other writer is told of them.
pub proof fn law_flow_reaches_one_writer_in_order(
    handle: LocalInterfaceHandle,
    packets: Seq<Packet>,
    flow_id: FlowId,
    writer: usize,
)
    ensures
        writer::of_flow(handle.handed_to(writer, packets), flow_id) == if handle.num_writers > 0
            && writer == writer_of(handle.num_writers, flow_id) {
            writer::of_flow(packets, flow_id)
        } else {
            Seq::empty()
        },
        handle.num_writers == 0 ==> handle.handed_to(writer, packets) == Seq::<Packet>::empty(),
    decreases packets.len(),
{
    reveal(Seq::filter);
    if packets.len() > 0 {
        let earlier = packets.drop_last();
        law_flow_reaches_one_writer_in_order(handle, earlier, flow_id, writer);
        assert(earlier.push(packets.last()) =~= packets);
        writer::lemma_of_flow_push(earlier, packets.last(), flow_id);
        writer::lemma_of_flow_push(
            handle.handed_to(writer, earlier),
            packets.last(),
            flow_id,
        );
    }
}

/// The bits of a number that are set are those of its half and its last bit.
pub proof fn law_bits_are_counted_one_by_one(n: nat)
    ensures
        bits_set(0) == 0,
        bits_set(2 * n) == bits_set(n),
        bits_set(2 * n + 1) == bits_set(n) + 1,
{
    assert((2 * n) / 2 == n && (2 * n) % 2 == 0);
    assert((2 * n + 1) / 2 == n && (2 * n + 1) % 2 == 1);
}

/// Every buffer that holds an IPv4 header makes a packet of just the bytes that were read into it, in
/// the order of the buffers, unless its flow is the one that marks invalid packets. Others make none.
pub proof fn law_every_ipv4_buffer_makes_a_packet(
    buffers: Seq<Vec<u8>>,
    sizes: Seq<usize>,
    n: nat,
)
    requires
        n < buffers.len(),
        n < sizes.len(),
        sizes[n as int] <= buffers[n as int]@.len(),
    ensures
        packets_in(buffers, sizes, 0) == Seq::<PacketContents>::empty(),
        ({
            let bytes = buffers[n as int]@.take(sizes[n as int] as int);
            packets_in(buffers, sizes, n + 1) == if bytes.len() >= 20 && bytes[0] >> 4 == 4
                && packet::flow_of(bytes) != u128::MAX {
                packets_in(buffers, sizes, n).push(
                    PacketContents { flow_id: packet::flow_of(bytes), bytes },
                )
            } else {
                packets_in(buffers, sizes, n)
            }
        }),
{
    let bytes = buffers[n as int]@.take(sizes[n as int] as int);
    if bytes.len() >= 20 {
        let first = bytes[0];
        assert(first >> 4 == first / 16) by (bit_vector);
    }
}

/// The writer of a flow is the slot that its hash picks among the writers.
pub proof fn law_writer_is_the_slot_of_the_flow(num_writers: usize, flow_id: FlowId)
    ensures
        writer_of(num_writers, flow_id) == node::jump_slot(
            0x1234567890ABCDEF,
            0xFEDCBA0987654321,
            flow_id,
            num_writers as u32,
        ),
{
}

/// A packet is handed over as it is, to the writer of its flow; without writers it is dropped.
pub proof fn law_packets_are_handed_over_unchanged(handle: LocalInterfaceHandle, packet: Packet)
    ensures
        handle.num_writers == 0 ==> handle.sent(packet) is None,
        handle.num_writers > 0 ==> {
            &&& handle.sent(packet) matches Some((
                writer,
                LocalInterfaceMessage::WritePacket(written),
            ))
            &&& written == packet
            &&& writer == node::jump_slot(
                0x1234567890ABCDEF,
                0xFEDCBA0987654321,
                packet.flow_id,
                handle.num_writers as u32,
            )
        },
{
}

} // verus!
