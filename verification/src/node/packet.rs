//! Packets as they travel through a node, and the header fields that a node reads.

use vstd::prelude::*;

use crate::net::{self, read_be32, Ipv4Addr};
use crate::node::{self, flow_id_from_parts, FlowId};

verus! {

/// The flow ID of bytes that are no IPv4 packet.
pub const INVALID_FLOW_ID: FlowId = u128::MAX;

/// A packet: the first `packet_size` bytes of a buffer, and the flow it belongs to.
#[derive(Debug)]
pub struct Packet {
    pub flow_id: FlowId,
    pub packet_size: usize,
    pub buf: Vec<u8>,
}

/// Whether bytes begin with an IPv4 header.
pub open spec fn is_ipv4(b: Seq<u8>) -> bool {
    b.len() >= 20 && b[0] / 16 == 4
}

/// The length of the IPv4 header, as the header states it.
pub open spec fn ip_header_len(b: Seq<u8>) -> int {
    (b[0] % 16) * 4
}

/// Whether bytes are an IPv4 packet that carries a complete TCP header.
pub open spec fn is_tcp(b: Seq<u8>) -> bool {
    is_ipv4(b) && b[9] == 6 && ip_header_len(b) >= 20 && b.len() >= ip_header_len(b) + 20
}

/// The flow that an IPv4 packet belongs to. Ports count for TCP and UDP only, where the packet is
/// long enough to hold them; they are read behind a header without options.
pub open spec fn flow_of(b: Seq<u8>) -> FlowId {
    if !is_ipv4(b) {
        INVALID_FLOW_ID
    } else {
        let ports = (b[9] == 6 || b[9] == 17) && b.len() >= 24;
        node::flow_id_of(
            net::be32(b[12], b[13], b[14], b[15]),
            net::be32(b[16], b[17], b[18], b[19]),
            if ports {
                (b[20] * 0x100 + b[21]) as u16
            } else {
                0
            },
            if ports {
                (b[22] * 0x100 + b[23]) as u16
            } else {
                0
            },
        )
    }
}

/// The sequence number of a TCP segment.
pub open spec fn tcp_seq(b: Seq<u8>) -> u32 {
    let at = ip_header_len(b);
    net::be32(b[at + 4], b[at + 5], b[at + 6], b[at + 7])
}

/// The bytes that follow the TCP header.
pub open spec fn tcp_payload_size(b: Seq<u8>) -> nat {
    let headers = ip_header_len(b) + (b[ip_header_len(b) + 12] / 16) * 4;
    if b.len() >= headers {
        (b.len() - headers) as nat
    } else {
        0
    }
}

/// The flag byte of a TCP segment.
pub open spec fn tcp_flags(b: Seq<u8>) -> u8 {
    b[ip_header_len(b) + 13]
}

/// Whether a flag byte holds FIN or RST.
pub open spec fn has_fin_or_rst(flags: u8) -> bool {
    flags % 2 == 1 || flags / 4 % 2 == 1
}

/// Whether a flag byte holds SYN.
pub open spec fn has_syn(flags: u8) -> bool {
    flags / 2 % 2 == 1
}

impl Packet {
    /// The bytes that make up the packet.
    pub open spec fn bytes(&self) -> Seq<u8> {
        if self.packet_size <= self.buf@.len() {
            self.buf@.take(self.packet_size as int)
        } else {
            self.buf@
        }
    }

    /// Whether the packet is a TCP segment with a payload.
    pub open spec fn spec_is_data(&self) -> bool {
        is_tcp(self.bytes()) && tcp_payload_size(self.bytes()) > 0
    }

    /// Whether the packet is a TCP segment that opens a connection.
    pub open spec fn spec_is_syn(&self) -> bool {
        is_tcp(self.bytes()) && has_syn(tcp_flags(self.bytes()))
    }

    /// Whether the packet is a TCP segment that ends a connection.
    pub open spec fn spec_is_fin_or_rst(&self) -> bool {
        is_tcp(self.bytes()) && has_fin_or_rst(tcp_flags(self.bytes()))
    }

    /// The sequence number, or 0 where there is none.
    pub open spec fn spec_seq(&self) -> u32 {
        if is_tcp(self.bytes()) {
            tcp_seq(self.bytes())
        } else {
            0
        }
    }

    /// The size of the TCP payload, or 0 where there is none.
    pub open spec fn spec_payload(&self) -> nat {
        if is_tcp(self.bytes()) {
            tcp_payload_size(self.bytes())
        } else {
            0
        }
    }

    /// Makes a packet of the first `packet_size` bytes of a buffer.
    pub fn new(packet_size: usize, buf: Vec<u8>) -> (packet: Self)
        ensures
            packet.packet_size == packet_size,
            packet.buf@ == buf@,
            packet.flow_id == flow_of(packet.bytes()),
    {
        let mut packet = Packet { flow_id: INVALID_FLOW_ID, packet_size, buf };
        packet.flow_id = packet.header_flow_id();
        packet
    }

    /// Makes a packet of all bytes of a buffer.
    pub fn from_vec(buf: Vec<u8>) -> (packet: Self)
        ensures
            packet.packet_size == buf@.len(),
            packet.buf@ == buf@,
            packet.flow_id == flow_of(buf@),
    {
        let packet_size: usize = buf.len();
        let packet = Packet::new(packet_size, buf);
        assert(packet.bytes() =~= buf@);
        packet
    }

    /// Makes a packet of the first `packet_size` bytes of a slice, of which it keeps a copy.
    pub fn from_slice(packet_size: usize, slice: &[u8]) -> (packet: Self)
        requires
            packet_size <= slice@.len(),
        ensures
            packet.packet_size == packet_size,
            packet.buf@ == slice@.take(packet_size as int),
            packet.flow_id == flow_of(slice@.take(packet_size as int)),
    {
        let mut buf: Vec<u8> = Vec::new();
        let mut i: usize = 0;
        while i < packet_size
            invariant
                i <= packet_size <= slice@.len(),
                buf@ == slice@.take(i as int),
            decreases packet_size - i,
        {
            buf.push(slice[i]);
            i = i + 1;
            assert(buf@ =~= slice@.take(i as int));
        }
        Packet::from_vec(buf)
    }

    /// The number of bytes that make up the packet.
    fn size(&self) -> (n: usize)
        ensures
            n == self.bytes().len(),
    {
        if self.packet_size <= self.buf.len() {
            self.packet_size
        } else {
            self.buf.len()
        }
    }

    fn header_flow_id(&self) -> (flow_id: FlowId)
        ensures
            flow_id == flow_of(self.bytes()),
    {
        let n: usize = self.size();
        let b = &self.buf;
        if n < 20 || b[0] / 16 != 4 {
            return INVALID_FLOW_ID;
        }
        let src_ip = Ipv4Addr { bits: read_be32(b[12], b[13], b[14], b[15]) };
        let dst_ip = Ipv4Addr { bits: read_be32(b[16], b[17], b[18], b[19]) };
        let mut src_port: u16 = 0;
        let mut dst_port: u16 = 0;
        if (b[9] == 6 || b[9] == 17) && n >= 24 {
            src_port = b[20] as u16 * 0x100 + b[21] as u16;
            dst_port = b[22] as u16 * 0x100 + b[23] as u16;
        }
        flow_id_from_parts(src_ip, src_port, dst_ip, dst_port)
    }

    /// Where the TCP header starts, in a TCP packet.
    fn tcp_header(&self) -> (at: Option<usize>)
        ensures
            at is Some == is_tcp(self.bytes()),
            at matches Some(at) ==> at == ip_header_len(self.bytes()) && at + 20
                <= self.bytes().len(),
    {
        let n: usize = self.size();
        if n < 20 || self.buf[0] / 16 != 4 || self.buf[9] != 6 {
            return None;
        }
        let at: usize = (self.buf[0] % 16) as usize * 4;
        if at < 20 || n < at + 20 {
            return None;
        }
        Some(at)
    }

    /// Whether the packet is a TCP segment with a payload.
    pub fn is_tcp_data(&self) -> (data: bool)
        ensures
            data == self.spec_is_data(),
    {
        self.tcp_payload_len() > 0
    }

    /// Whether the packet is a TCP segment that opens a connection.
    pub fn is_tcp_syn(&self) -> (syn: bool)
        ensures
            syn == self.spec_is_syn(),
    {
        match self.tcp_header() {
            Some(at) => self.buf[at + 13] / 2 % 2 == 1,
            None => false,
        }
    }

    /// Whether the packet is a TCP segment that ends a connection.
    pub fn is_tcp_fin_or_rst(&self) -> (ends: bool)
        ensures
            ends == self.spec_is_fin_or_rst(),
    {
        match self.tcp_header() {
            Some(at) => self.buf[at + 13] % 2 == 1 || self.buf[at + 13] / 4 % 2 == 1,
            None => false,
        }
    }

    /// The sequence number of a TCP segment, or 0 for other packets.
    pub fn seq_num(&self) -> (seq: u32)
        ensures
            seq == self.spec_seq(),
    {
        match self.tcp_header() {
            Some(at) => read_be32(
                self.buf[at + 4],
                self.buf[at + 5],
                self.buf[at + 6],
                self.buf[at + 7],
            ),
            None => 0,
        }
    }

    /// The size of the payload of a TCP segment, or 0 for other packets.
    pub fn tcp_payload_len(&self) -> (len: usize)
        ensures
            len == self.spec_payload(),
    {
        match self.tcp_header() {
            Some(at) => {
                let headers: usize = at + (self.buf[at + 12] / 16) as usize * 4;
                let n: usize = self.size();
                if n >= headers {
                    n - headers
                } else {
                    0
                }
            },
            None => 0,
        }
    }
}

/// A TCP segment as its sender means it. Headers may hold options.
#[verifier::ext_equal]
pub struct Segment {
    /// The IPv4 header, options included.
    pub ip_header: Seq<u8>,
    /// The TCP header, options included.
    pub tcp_header: Seq<u8>,
    /// The bytes for the application.
    pub data: Seq<u8>,
    pub seq: u32,
    pub syn: bool,
    pub fin: bool,
    pub rst: bool,
}

impl Segment {
    /// Whether the headers say what the segment means: both state their own length in words of four
    /// bytes, and the TCP header holds the sequence number and the flags.
    pub open spec fn valid(self) -> bool {
        &&& 20 <= self.ip_header.len() <= 60
        &&& self.ip_header[0] == 0x40 + self.ip_header.len() / 4
        &&& self.ip_header.len() % 4 == 0
        &&& self.ip_header[9] == 6
        &&& 20 <= self.tcp_header.len() <= 60
        &&& self.tcp_header[12] >> 4 == self.tcp_header.len() / 4
        &&& self.tcp_header.len() % 4 == 0
        &&& self.seq == self.tcp_header[4] * 0x100_0000 + self.tcp_header[5] * 0x1_0000
            + self.tcp_header[6] * 0x100 + self.tcp_header[7]
        &&& self.fin == (self.tcp_header[13] & 0x01 != 0)
        &&& self.syn == (self.tcp_header[13] & 0x02 != 0)
        &&& self.rst == (self.tcp_header[13] & 0x04 != 0)
    }

    /// Whether a packet holds this segment and nothing else.
    pub open spec fn sent_as(self, packet: Packet) -> bool {
        &&& self.valid()
        &&& packet.packet_size <= packet.buf@.len()
        &&& packet.buf@.take(packet.packet_size as int) == self.ip_header + self.tcp_header
            + self.data
    }

    /// How many sequence numbers the segment takes up: one for each byte of data, and one for FIN or
    /// RST.
    pub open spec fn numbers(self) -> nat {
        self.data.len() + if self.fin || self.rst {
            1nat
        } else {
            0nat
        }
    }
}

/// What a node reads from a segment is what its sender meant, whatever options the headers hold:
/// the payload is the data behind both headers.
pub proof fn law_segment_reads_back(segment: Segment, packet: Packet)
    requires
        segment.sent_as(packet),
    ensures
        packet.spec_payload() == segment.data.len(),
        packet.spec_is_data() == (segment.data.len() > 0),
        packet.spec_seq() == segment.seq,
        packet.spec_is_syn() == segment.syn,
        packet.spec_is_fin_or_rst() == (segment.fin || segment.rst),
{
    let b = packet.bytes();
    let at = segment.ip_header.len() as int;
    assert(b =~= segment.ip_header + segment.tcp_header + segment.data);
    let first = segment.ip_header[0];
    assert(b[0] == first && b[9] == 6);
    assert(ip_header_len(b) == at);
    assert(b[at + 4] == segment.tcp_header[4]);
    assert(b[at + 5] == segment.tcp_header[5]);
    assert(b[at + 6] == segment.tcp_header[6]);
    assert(b[at + 7] == segment.tcp_header[7]);
    let offset = segment.tcp_header[12];
    let flags = segment.tcp_header[13];
    assert(b[at + 12] == offset && b[at + 13] == flags);
    assert(offset >> 4 == offset / 16) by (bit_vector);
    assert((flags & 0x01 != 0) == (flags % 2 == 1)) by (bit_vector);
    assert((flags & 0x02 != 0) == (flags / 2 % 2 == 1)) by (bit_vector);
    assert((flags & 0x04 != 0) == (flags / 4 % 2 == 1)) by (bit_vector);
    assert(is_tcp(b));
}

/// What is no IPv4 packet with a complete TCP header is no segment: it opens and ends nothing, and
/// carries nothing.
pub proof fn law_other_packets_are_no_segments(packet: Packet)
    requires
        packet.packet_size <= packet.buf@.len(),
        packet.packet_size < 40 || packet.buf@[0] >> 4 != 4 || packet.buf@[9] != 6,
    ensures
        packet.spec_payload() == 0,
        !packet.spec_is_data(),
        !packet.spec_is_syn(),
        !packet.spec_is_fin_or_rst(),
{
    let b = packet.bytes();
    if b.len() >= 20 {
        let first = packet.buf@[0];
        assert(b[0] == first && b[9] == packet.buf@[9]);
        assert(first >> 4 == first / 16) by (bit_vector);
    }
}

/// The flow of a packet is made of the addresses in its header and, for TCP and UDP without header
/// options, of the ports behind it; packets between the same ends belong to the same flow, and to
/// different flows otherwise.
pub proof fn law_packets_of_a_flow_share_its_ends(a: Seq<u8>, b: Seq<u8>)
    requires
        a.len() >= 24,
        b.len() >= 24,
        a[0] >> 4 == 4,
        b[0] >> 4 == 4,
        a[9] == 6 || a[9] == 17,
        b[9] == 6 || b[9] == 17,
    ensures
        flow_of(a) == flow_of(b) <==> a.subrange(12, 24) == b.subrange(12, 24),
        node::flow_src(flow_of(a)) == a[12] * 0x100_0000 + a[13] * 0x1_0000 + a[14] * 0x100 + a[15],
        node::flow_dst(flow_of(a)) == a[16] * 0x100_0000 + a[17] * 0x1_0000 + a[18] * 0x100 + a[19],
        node::flow_src_port(flow_of(a)) == a[20] * 0x100 + a[21],
        node::flow_dst_port(flow_of(a)) == a[22] * 0x100 + a[23],
{
    let x = a[0];
    let y = b[0];
    assert(x >> 4 == x / 16) by (bit_vector);
    assert(y >> 4 == y / 16) by (bit_vector);
    node::law_flow_id_parts(
        net::be32(a[12], a[13], a[14], a[15]),
        net::be32(a[16], a[17], a[18], a[19]),
        (a[20] * 0x100 + a[21]) as u16,
        (a[22] * 0x100 + a[23]) as u16,
    );
    node::law_flow_id_parts(
        net::be32(b[12], b[13], b[14], b[15]),
        net::be32(b[16], b[17], b[18], b[19]),
        (b[20] * 0x100 + b[21]) as u16,
        (b[22] * 0x100 + b[23]) as u16,
    );
    if flow_of(a) == flow_of(b) {
        lemma_bytes_of_word(a[12], a[13], a[14], a[15], b[12], b[13], b[14], b[15]);
        lemma_bytes_of_word(a[16], a[17], a[18], a[19], b[16], b[17], b[18], b[19]);
        lemma_bytes_of_word(0, 0, a[20], a[21], 0, 0, b[20], b[21]);
        lemma_bytes_of_word(0, 0, a[22], a[23], 0, 0, b[22], b[23]);
        assert(a.subrange(12, 24) =~= b.subrange(12, 24));
    }
    if a.subrange(12, 24) == b.subrange(12, 24) {
        assert forall|i: int| 12 <= i < 24 implies #[trigger] a[i] == b[i] by {
            assert(a.subrange(12, 24)[i - 12] == b.subrange(12, 24)[i - 12]);
        }
    }
}

proof fn lemma_bytes_of_word(a: u8, b: u8, c: u8, d: u8, e: u8, f: u8, g: u8, h: u8)
    requires
        a * 0x100_0000 + b * 0x1_0000 + c * 0x100 + d == e * 0x100_0000 + f * 0x1_0000 + g * 0x100
            + h,
    ensures
        a == e,
        b == f,
        c == g,
        d == h,
{
}

} // verus!
