//! Packets in buffers of fixed size.

use vstd::prelude::*;

use crate::dataplane::{FlowId, PacketBuf};
use crate::net::{self, read_be32};
use crate::node;

verus! {

/// A packet: the first `packet_size` bytes of a buffer, and the flow it belongs to.
#[derive(Debug)]
pub struct Packet {
    pub flow_id: FlowId,
    pub packet_size: usize,
    pub buf: PacketBuf,
}

/// The flow that the header at the start of a buffer names: the two addresses, and for TCP and UDP
/// the four bytes that follow a header without options. Anything but IPv4 has the flow 0.
pub open spec fn header_flow(buf: Seq<u8>) -> FlowId {
    if buf[0] / 16 != 4 {
        0
    } else {
        let ports = if buf[9] == 6 || buf[9] == 17 {
            net::be32(buf[20], buf[21], buf[22], buf[23])
        } else {
            0
        };
        (net::be32(buf[12], buf[13], buf[14], buf[15]) * 0x1_0000_0000_0000_0000_0000_0000
            + net::be32(buf[16], buf[17], buf[18], buf[19]) * 0x1_0000_0000_0000_0000 + ports
            * 0x1_0000_0000) as u128
    }
}

impl Packet {
    /// Makes a packet of a buffer.
    pub fn new(packet_size: usize, buf: PacketBuf) -> (packet: Self)
        ensures
            packet.packet_size == packet_size,
            packet.buf == buf,
            packet.flow_id == header_flow(buf@),
    {
        Packet { flow_id: Packet::get_flow_id_from_buf(&buf, packet_size), packet_size, buf }
    }

    /// The flow that the header at the start of a buffer names.
    pub fn get_flow_id_from_buf(buf: &PacketBuf, _packet_size: usize) -> (flow_id: FlowId)
        ensures
            flow_id == header_flow(buf@),
    {
        if buf[0] / 16 != 4 {
            return 0;
        }
        let src_ip: u32 = read_be32(buf[12], buf[13], buf[14], buf[15]);
        let dst_ip: u32 = read_be32(buf[16], buf[17], buf[18], buf[19]);
        let ports: u32 = if buf[9] == 6 || buf[9] == 17 {
            read_be32(buf[20], buf[21], buf[22], buf[23])
        } else {
            0
        };
        src_ip as u128 * 0x1_0000_0000_0000_0000_0000_0000 + dst_ip as u128
            * 0x1_0000_0000_0000_0000 + ports as u128 * 0x1_0000_0000
    }
}

/// The flow of an IPv4 packet holds the addresses of its header and, for TCP and UDP, the ports that
/// follow a header without options. Other packets have the flow 0.
pub proof fn law_flow_holds_the_ends_of_the_packet(buf: Seq<u8>)
    requires
        buf.len() >= 24,
    ensures
        buf[0] >> 4 != 4 ==> header_flow(buf) == 0,
        buf[0] >> 4 == 4 ==> {
            let flow_id = header_flow(buf);
            let ported = buf[9] == 6 || buf[9] == 17;
            &&& node::flow_src(flow_id) == buf[12] * 0x100_0000 + buf[13] * 0x1_0000 + buf[14] * 0x100
                + buf[15]
            &&& node::flow_dst(flow_id) == buf[16] * 0x100_0000 + buf[17] * 0x1_0000 + buf[18] * 0x100
                + buf[19]
            &&& ported ==> node::flow_src_port(flow_id) == buf[20] * 0x100 + buf[21]
                && node::flow_dst_port(flow_id) == buf[22] * 0x100 + buf[23]
            &&& !ported ==> node::flow_src_port(flow_id) == 0 && node::flow_dst_port(flow_id) == 0
        },
{
    let first = buf[0];
    assert(first >> 4 == first / 16) by (bit_vector);
    if first / 16 == 4 {
        let ported = buf[9] == 6 || buf[9] == 17;
        let src = net::be32(buf[12], buf[13], buf[14], buf[15]);
        let dst = net::be32(buf[16], buf[17], buf[18], buf[19]);
        let src_port = if ported {
            (buf[20] * 0x100 + buf[21]) as u16
        } else {
            0u16
        };
        let dst_port = if ported {
            (buf[22] * 0x100 + buf[23]) as u16
        } else {
            0u16
        };
        node::law_flow_id_parts(src, dst, src_port, dst_port);
        assert(header_flow(buf) == node::flow_id_of(src, dst, src_port, dst_port));
    }
}

} // verus!
