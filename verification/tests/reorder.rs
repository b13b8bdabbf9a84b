use nextmini_dataplane::node::local::batch::{frame_packets, into_batches};
use nextmini_dataplane::node::local::heap::{PacketHeap, SequencedPacket};
use nextmini_dataplane::node::local::interface::{
    read_packets, LocalInterfaceHandle, LocalInterfaceMessage,
};
use nextmini_dataplane::node::local::writer::ReorderQueues;
use nextmini_dataplane::node::local::writer_tso::GapReorderQueues;
use nextmini_dataplane::node::local_interface::GatheringQueues;
use nextmini_dataplane::net::Ipv4Addr;
use nextmini_dataplane::node::packet::{Packet, INVALID_FLOW_ID};
use nextmini_dataplane::node::{FlowId, FlowIdExt};

fn sized(seq: u32) -> SequencedPacket {
    SequencedPacket {
        seq,
        packet: Packet { flow_id: seq as u128, packet_size: 0, buf: Vec::new() },
    }
}

#[test]
fn seq_less_orders_increasing_values() {
    assert!(
        SequencedPacket::seq_less(100, 200),
        "lower sequence numbers should compare as less"
    );
    assert!(
        !SequencedPacket::seq_less(200, 100),
        "higher sequence numbers should not be considered less"
    );
}

#[test]
fn seq_less_handles_wraparound_correctly() {
    let near_max = u32::MAX - 5;
    assert!(
        SequencedPacket::seq_less(near_max, 10),
        "numbers near wraparound should precede small sequence numbers"
    );
    assert!(
        !SequencedPacket::seq_less(10, near_max),
        "new sequence numbers after wrap should not precede the tail end"
    );
}

#[test]
fn binary_heap_respects_sequence_order_with_wraparound() {
    let mut heap = PacketHeap::new();
    let sequences = [u32::MAX - 1, 0, 1, 500, u32::MAX];

    for &seq in &sequences {
        heap.push(sized(seq));
    }

    let mut result = Vec::new();
    while let Some(entry) = heap.pop() {
        result.push(entry.seq);
    }

    assert_eq!(
        result,
        vec![u32::MAX - 1, u32::MAX, 0, 1, 500],
        "heap should yield packets in ascending sequence order accounting for wraparound"
    );
}

#[test]
fn heap_shows_what_comes_next() {
    let mut heap = PacketHeap::new();
    assert!(heap.is_empty());
    assert_eq!(heap.peek_seq(), None);
    heap.push(sized(9));
    heap.push(sized(3));
    assert_eq!(heap.len(), 2);
    assert_eq!(heap.peek_seq(), Some(3));
}

fn segment(seq: u32, flags: u8, payload_len: usize) -> Packet {
    let mut buf = vec![0u8; 40 + payload_len];
    buf[0] = 0x45;
    buf[9] = 6;
    buf[12..16].copy_from_slice(&[10, 0, 0, 1]);
    buf[16..20].copy_from_slice(&[10, 0, 0, 2]);
    buf[20..22].copy_from_slice(&4000u16.to_be_bytes());
    buf[22..24].copy_from_slice(&5000u16.to_be_bytes());
    buf[24..28].copy_from_slice(&seq.to_be_bytes());
    buf[32] = 0x50;
    buf[33] = flags;
    Packet::from_vec(buf)
}

fn seqs(packets: &[Packet]) -> Vec<u32> {
    packets.iter().map(|p| p.seq_num()).collect()
}

#[test]
fn segments_leave_in_order_after_a_syn() {
    let mut queues = ReorderQueues::new();
    let syn = queues.accept(segment(99, 0x02, 0));
    assert!(syn.is_some());
    assert!(queues.accept(segment(110, 0x10, 10)).is_none());
    assert!(queues.drain().is_empty());
    assert!(queues.accept(segment(100, 0x10, 10)).is_none());
    assert_eq!(seqs(&queues.drain()), vec![100, 110]);
}

#[test]
fn stale_segments_are_dropped_by_the_plain_writer() {
    let mut queues = ReorderQueues::new();
    queues.accept(segment(99, 0x02, 0));
    queues.accept(segment(100, 0x10, 10));
    queues.accept(segment(130, 0x10, 10));
    assert_eq!(seqs(&queues.drain()), vec![100]);
    queues.accept(segment(100, 0x10, 10));
    assert!(queues.drain().is_empty());
    queues.accept(segment(110, 0x10, 20));
    assert_eq!(seqs(&queues.drain()), vec![110, 130]);
}

#[test]
fn a_gapless_run_leaves_whole_in_any_order_of_arrival() {
    let run = [(u32::MAX - 9, 20), (10, 5), (15, 7)];
    let orders = [[0, 1, 2], [0, 2, 1], [1, 0, 2], [1, 2, 0], [2, 0, 1], [2, 1, 0]];
    for order in orders {
        for seen_syn in [true, false] {
            let mut plain = ReorderQueues::new();
            let mut timed = GapReorderQueues::new();
            if seen_syn {
                plain.accept(segment(u32::MAX - 10, 0x02, 0));
                timed.accept(segment(u32::MAX - 10, 0x02, 0));
            }
            for i in order {
                let (seq, payload_len): (u32, usize) = run[i];
                assert!(plain.accept(segment(seq, 0x10, payload_len)).is_none());
                assert!(timed.accept(segment(seq, 0x10, payload_len)).is_none());
            }
            assert_eq!(seqs(&plain.drain()), vec![u32::MAX - 9, 10, 15]);
            assert_eq!(seqs(&timed.drain(0, 100).packets), vec![u32::MAX - 9, 10, 15]);
            assert!(plain.drain().is_empty());
            assert!(timed.drain(0, 100).packets.is_empty());
        }
    }
}

#[test]
fn gap_timer_releases_what_waits() {
    let mut queues = GapReorderQueues::new();
    queues.accept(segment(99, 0x02, 0));
    queues.accept(segment(120, 0x10, 10));
    let first = queues.drain(1000, 500);
    assert!(first.packets.is_empty());
    assert!(first.arm_timer);
    let early = queues.drain(1400, 500);
    assert!(early.packets.is_empty());
    let late = queues.drain(1500, 500);
    assert_eq!(seqs(&late.packets), vec![120]);
}

#[test]
fn without_a_timeout_progress_leads_past_a_gap() {
    let mut queues = GapReorderQueues::new();
    queues.accept(segment(99, 0x02, 0));
    queues.accept(segment(130, 0x10, 10));
    let stuck = queues.drain(5, 0);
    assert!(stuck.packets.is_empty());
    assert!(stuck.arm_timer);

    let mut queues = GapReorderQueues::new();
    queues.accept(segment(99, 0x02, 0));
    queues.accept(segment(130, 0x10, 10));
    queues.accept(segment(100, 0x10, 10));
    let drained = queues.drain(5, 0);
    assert_eq!(seqs(&drained.packets), vec![100, 130]);
    assert!(drained.arm_timer);
}

#[test]
fn gap_filled_in_time_keeps_the_order() {
    let mut queues = GapReorderQueues::new();
    queues.accept(segment(99, 0x02, 0));
    queues.accept(segment(110, 0x10, 10));
    assert!(queues.drain(1000, 500).packets.is_empty());
    queues.accept(segment(100, 0x10, 10));
    assert_eq!(seqs(&queues.drain(1100, 500).packets), vec![100, 110]);
}

#[test]
fn gathered_segments_come_out_in_sequence() {
    let mut queues = GatheringQueues::new();
    assert!(!queues.accept(segment(30, 0x10, 5), 2).notify);
    assert!(!queues.accept(segment(10, 0x10, 5), 2).notify);
    assert!(queues.accept(segment(20, 0x10, 5), 2).notify);
    let ack = queues.accept(segment(40, 0x10, 0), 2);
    assert!(ack.immediate.is_some());
    assert_eq!(seqs(&queues.drain()), vec![10, 20, 30]);
    assert!(queues.drain().is_empty());
}

#[test]
fn batches_keep_the_order() {
    let packets: Vec<Packet> = (0..5u32).map(|i| segment(i, 0x10, 1)).collect();
    let batches = into_batches(packets, 2);
    let sizes: Vec<usize> = batches.iter().map(|b| b.len()).collect();
    assert_eq!(sizes, vec![2, 2, 1]);
    let flat: Vec<u32> = batches.iter().flatten().map(|p| p.seq_num()).collect();
    assert_eq!(flat, vec![0, 1, 2, 3, 4]);
}

#[test]
fn frames_have_a_header_of_zeros() {
    let packet = Packet::from_vec(vec![7, 8, 9]);
    let frames = frame_packets(&vec![packet], 4);
    assert_eq!(frames, vec![vec![0, 0, 0, 0, 7, 8, 9]]);
}

#[test]
fn reads_skip_what_is_no_packet() {
    let good = segment(1, 0x10, 0);
    let buffers = vec![good.buf.clone(), vec![0u8; 10], vec![1u8; 40]];
    let sizes = vec![40, 0, 40];
    let packets = read_packets(&buffers, &sizes, 3);
    assert_eq!(packets.len(), 1);
    assert_eq!(packets[0].buf, good.buf);
    assert_eq!(packets[0].flow_id, good.flow_id);
    assert_eq!(Packet::from_vec(vec![1u8; 40]).flow_id, INVALID_FLOW_ID);
}

#[test]
fn mask_to_prefix_handles_common_netmasks() {
    assert_eq!(
        LocalInterfaceHandle::mask_to_prefix(Ipv4Addr::new(255, 255, 255, 0)),
        24
    );
    assert_eq!(
        LocalInterfaceHandle::mask_to_prefix(Ipv4Addr::new(255, 255, 0, 0)),
        16
    );
    assert_eq!(
        LocalInterfaceHandle::mask_to_prefix(Ipv4Addr::new(255, 255, 255, 192)),
        26
    );
}

fn flow_id_for_bucket(bucket: usize, capacity: usize) -> FlowId {
    for candidate in 0u128..50_000u128 {
        if FlowIdExt::hash(&candidate, capacity) == bucket {
            return candidate;
        }
    }
    panic!("unable to find flow id for bucket {} within search space", bucket);
}

fn packet_with_flow_id(flow_id: FlowId) -> Packet {
    let mut packet = Packet::from_vec(Vec::new());
    packet.flow_id = flow_id;
    packet
}

#[test]
fn write_packet_routes_based_on_flow_hash() {
    let handle = LocalInterfaceHandle { num_writers: 2 };
    let flow_id_a = flow_id_for_bucket(0, 2);
    let flow_id_b = flow_id_for_bucket(1, 2);

    let (writer_a, LocalInterfaceMessage::WritePacket(packet_a)) = handle
        .write_packet(packet_with_flow_id(flow_id_a))
        .expect("flow mapped to bucket 0 should reach first sender");
    let (writer_b, LocalInterfaceMessage::WritePacket(packet_b)) = handle
        .write_packet(packet_with_flow_id(flow_id_b))
        .expect("flow mapped to bucket 1 should reach second sender");
    assert_eq!((writer_a, packet_a.flow_id), (0, flow_id_a));
    assert_eq!((writer_b, packet_b.flow_id), (1, flow_id_b));
}

#[test]
fn the_packets_of_a_flow_reach_one_writer() {
    let handle = LocalInterfaceHandle { num_writers: 3 };
    let mut writers = Vec::new();
    for size in 1..6usize {
        let mut packet = packet_with_flow_id(77);
        packet.packet_size = size;
        let (writer, LocalInterfaceMessage::WritePacket(told)) =
            handle.write_packet(packet).expect("there are writers");
        assert_eq!((told.flow_id, told.packet_size), (77, size));
        writers.push(writer);
    }
    assert!(writers.iter().all(|writer| *writer == writers[0] && *writer < 3));
}

#[test]
fn a_disabled_interface_drops_packets() {
    let handle = LocalInterfaceHandle { num_writers: 0 };
    assert!(handle.write_packet(packet_with_flow_id(1)).is_none());
}

#[test]
fn flow_hash_spreads_over_slots() {
    let mut seen = [false; 8];
    for flow_id in 0u128..200 {
        let slot = FlowIdExt::hash(&flow_id, 8);
        assert!(slot < 8);
        assert_eq!(slot, FlowIdExt::hash(&flow_id, 8));
        seen[slot] = true;
    }
    assert_eq!(seen, [true; 8]);
}
