//! Packets written to a device many at a time.

use vstd::prelude::*;

use crate::node::packet::Packet;

verus! {

/// The batches in which packets are written: full ones, and at the end what is left.
pub open spec fn batches_of(packets: Seq<Packet>, batch_size: nat) -> Seq<Seq<Packet>>
    decreases packets.len(),
{
    if packets.len() == 0 {
        Seq::empty()
    } else if packets.len() <= batch_size || batch_size == 0 {
        seq![packets]
    } else {
        seq![packets.take(batch_size as int)] + batches_of(
            packets.skip(batch_size as int),
            batch_size,
        )
    }
}

/// The contents of a list of packet lists.
pub open spec fn batch_views(batches: Seq<Vec<Packet>>) -> Seq<Seq<Packet>> {
    Seq::new(batches.len(), |i: int| batches[i]@)
}

/// The batches together hold the packets, in order.
pub proof fn law_batches_keep_the_order(packets: Seq<Packet>, batch_size: nat)
    ensures
        batches_of(packets, batch_size).flatten() == packets,
        forall|i: int|
            0 <= i < batches_of(packets, batch_size).len() ==> 0 < (#[trigger] batches_of(
                packets,
                batch_size,
            )[i]).len(),
        batch_size > 0 ==> forall|i: int|
            0 <= i < batches_of(packets, batch_size).len() ==> (#[trigger] batches_of(
                packets,
                batch_size,
            )[i]).len() <= batch_size,
    decreases packets.len(),
{
    let all = batches_of(packets, batch_size);
    if packets.len() == 0 {
        assert(all.flatten() =~= packets);
    } else if packets.len() <= batch_size || batch_size == 0 {
        reveal_with_fuel(Seq::flatten, 2);
        assert(all.flatten() =~= packets);
    } else {
        let first = packets.take(batch_size as int);
        let rest = packets.skip(batch_size as int);
        law_batches_keep_the_order(rest, batch_size);
        assert(all.drop_first() =~= batches_of(rest, batch_size));
        assert(first + rest =~= packets);
        assert forall|i: int| 0 <= i < all.len() implies 0 < (#[trigger] all[i]).len() <= batch_size by {
            if i > 0 {
                assert(all[i] == batches_of(rest, batch_size)[i - 1]);
            }
        }
    }
}

/// Splits packets into batches of `batch_size`.
pub fn into_batches(packets: Vec<Packet>, batch_size: usize) -> (batches: Vec<Vec<Packet>>)
    requires
        batch_size > 0,
    ensures
        batch_views(batches@) == batches_of(packets@, batch_size as nat),
{
    let mut batches: Vec<Vec<Packet>> = Vec::new();
    let mut pending = packets;
    assert(batch_views(batches@) + batches_of(pending@, batch_size as nat) =~= batches_of(
        packets@,
        batch_size as nat,
    ));
    while pending.len() > batch_size
        invariant
            batch_size > 0,
            batch_views(batches@) + batches_of(pending@, batch_size as nat) == batches_of(
                packets@,
                batch_size as nat,
            ),
        decreases pending.len(),
    {
        let ghost whole = pending@;
        let ghost done = batches@;
        let rest = pending.split_off(batch_size);
        batches.push(pending);
        assert(rest@ =~= whole.skip(batch_size as int));
        assert(batch_views(batches@) =~= batch_views(done) + seq![whole.take(batch_size as int)]);
        pending = rest;
        assert(batch_views(batches@) + batches_of(pending@, batch_size as nat) =~= batch_views(done)
            + (seq![whole.take(batch_size as int)] + batches_of(pending@, batch_size as nat)));
    }
    if pending.len() > 0 {
        let ghost last = pending@;
        let ghost done = batches@;
        batches.push(pending);
        assert(batch_views(batches@) =~= batch_views(done) + seq![last]);
    } else {
        assert(batch_views(batches@) + Seq::<Seq<Packet>>::empty() =~= batch_views(batches@));
    }
    batches
}

/// A packet behind a header of zeros.
pub open spec fn framed(packet: Packet, header_len: nat) -> Seq<u8> {
    Seq::new(header_len, |i: int| 0u8) + packet.bytes()
}

/// Copies each packet behind a header of `header_len` zeros.
pub fn frame_packets(packets: &Vec<Packet>, header_len: usize) -> (buffers: Vec<Vec<u8>>)
    requires
        forall|i: int|
            0 <= i < packets@.len() ==> (#[trigger] packets@[i]).packet_size
                <= packets@[i].buf@.len(),
    ensures
        buffers@.len() == packets@.len(),
        forall|i: int|
            0 <= i < packets@.len() ==> (#[trigger] buffers@[i])@ == framed(
                packets@[i],
                header_len as nat,
            ),
{
    let mut buffers: Vec<Vec<u8>> = Vec::new();
    let mut i: usize = 0;
    while i < packets.len()
        invariant
            i <= packets.len(),
            forall|j: int|
                0 <= j < packets@.len() ==> (#[trigger] packets@[j]).packet_size
                    <= packets@[j].buf@.len(),
            buffers@.len() == i,
            forall|j: int|
                0 <= j < i ==> (#[trigger] buffers@[j])@ == framed(packets@[j], header_len as nat),
        decreases packets.len() - i,
    {
        let buffer = frame_packet(&packets[i], header_len);
        buffers.push(buffer);
        i = i + 1;
    }
    buffers
}

fn frame_packet(packet: &Packet, header_len: usize) -> (buffer: Vec<u8>)
    requires
        packet.packet_size <= packet.buf@.len(),
    ensures
        buffer@ == framed(*packet, header_len as nat),
{
    let mut buffer: Vec<u8> = Vec::new();
    let mut i: usize = 0;
    while i < header_len
        invariant
            i <= header_len,
            buffer@ == Seq::new(i as nat, |j: int| 0u8),
        decreases header_len - i,
    {
        buffer.push(0);
        i = i + 1;
        assert(buffer@ =~= Seq::new(i as nat, |j: int| 0u8));
    }
    let ghost header = buffer@;
    let mut k: usize = 0;
    assert(buffer@ =~= header + packet.buf@.take(0));
    while k < packet.packet_size
        invariant
            k <= packet.packet_size <= packet.buf@.len(),
            buffer@ == header + packet.buf@.take(k as int),
        decreases packet.packet_size - k,
    {
        buffer.push(packet.buf[k]);
        k = k + 1;
        assert(buffer@ =~= header + packet.buf@.take(k as int));
    }
    buffer
}

/// All batches but the last one are full, and each holds the packets behind those of the batches
/// before it.
pub proof fn law_batches_are_full(packets: Seq<Packet>, batch_size: nat, i: int)
    requires
        batch_size > 0,
        0 <= i < batches_of(packets, batch_size).len(),
    ensures
        ({
            let all = batches_of(packets, batch_size);
            let start = i * batch_size;
            &&& i < all.len() - 1 ==> all[i].len() == batch_size
            &&& 0 <= start <= start + all[i].len() <= packets.len()
            &&& all[i] == packets.subrange(start, start + all[i].len())
            &&& i == all.len() - 1 ==> start + all[i].len() == packets.len()
        }),
    decreases packets.len(),
{
    let all = batches_of(packets, batch_size);
    let start = i * batch_size;
    if i == 0 {
        assert(start == 0) by (nonlinear_arith)
            requires
                start == i * batch_size,
                i == 0,
        ;
    }
    if packets.len() > batch_size {
        let rest = packets.skip(batch_size as int);
        assert(all.drop_first() =~= batches_of(rest, batch_size));
        assert(batches_of(rest, batch_size).len() > 0);
        if i > 0 {
            law_batches_are_full(rest, batch_size, i - 1);
            let before = (i - 1) * batch_size;
            assert(before + batch_size == start) by (nonlinear_arith)
                requires
                    before == (i - 1) * batch_size,
                    start == i * batch_size,
            ;
            let batch = batches_of(rest, batch_size)[i - 1];
            assert(all[i] == batch);
            assert(rest.subrange(before, before + batch.len()) =~= packets.subrange(
                start,
                start + batch.len(),
            ));
        } else {
            assert(all[0] =~= packets.subrange(0, batch_size as int));
        }
    } else {
        assert(all[0] =~= packets.subrange(0, packets.len() as int));
    }
}

/// A framed packet is as many zeros as the header is long, and then the bytes of the packet.
pub proof fn law_frame_layout(packet: Packet, header_len: nat, i: int)
    requires
        packet.packet_size <= packet.buf@.len(),
        0 <= i < header_len + packet.packet_size,
    ensures
        framed(packet, header_len).len() == header_len + packet.packet_size,
        i < header_len ==> framed(packet, header_len)[i] == 0,
        i >= header_len ==> framed(packet, header_len)[i] == packet.buf@[i - header_len],
{
}

} // verus!
