//! What passes between a TUN device and the dataplane core.

use vstd::prelude::*;

use crate::dataplane::packet::{self, Packet};
use crate::dataplane::PacketBuf;
use crate::net::{self, Ipv4Addr};
use crate::node::local::interface::{self, LocalInterfaceHandle};

verus! {

/// Converts a netmask to its prefix length.
pub fn mask_to_prefix(mask: (u8, u8, u8, u8)) -> (prefix: u8)
    ensures
        prefix == interface::bits_set(net::be32(mask.0, mask.1, mask.2, mask.3) as nat),
{
    LocalInterfaceHandle::mask_to_prefix(Ipv4Addr::new(mask.0, mask.1, mask.2, mask.3))
}

/// Makes a packet of what a TUN device read. An empty read is skipped.
pub fn read_packet(n: usize, buf: PacketBuf) -> (packet: Option<Packet>)
    ensures
        packet is Some == (n > 0),
        packet matches Some(packet) ==> packet.packet_size == n && packet.buf == buf
            && packet.flow_id == packet::header_flow(buf@),
{
    if n == 0 {
        None
    } else {
        Some(Packet::new(n, buf))
    }
}

/// Whether bytes are an IPv4 packet with a complete header.
pub open spec fn is_writable(bytes: Seq<u8>) -> bool {
    &&& bytes.len() >= 20
    &&& bytes[0] / 16 == 4
    &&& 20 <= bytes[0] % 16 * 4 <= bytes.len()
}

/// Whether a packet is written to the TUN device. Other packets are skipped.
pub fn accepts(packet: &Packet) -> (accepted: bool)
    requires
        packet.packet_size <= 6404,
    ensures
        accepted == is_writable(packet.buf@.take(packet.packet_size as int)),
{
    let n: usize = packet.packet_size;
    if n < 20 {
        return false;
    }
    if packet.buf[0] / 16 != 4 {
        return false;
    }
    let header_length: usize = (packet.buf[0] % 16) as usize * 4;
    header_length <= n && header_length >= 20
}

/// A packet is written if it is an IPv4 packet whose header is complete: it states a length of at least
/// five words, and the packet is that long.
pub proof fn law_complete_headers_are_written(bytes: Seq<u8>)
    requires
        bytes.len() > 0,
    ensures
        is_writable(bytes) <==> bytes.len() >= 20 && bytes[0] >> 4 == 4 && bytes[0] & 0x0F >= 5
            && bytes.len() >= (bytes[0] & 0x0F) * 4,
{
    let first = bytes[0];
    assert(first >> 4 == first / 16) by (bit_vector);
    assert(first & 0x0F == first % 16) by (bit_vector);
}

} // verus!
