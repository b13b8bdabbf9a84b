//! The dataplane node: identifiers, and the rules of each of its parts.

pub mod conductor;
pub mod config;
pub mod connector;
pub mod context;
pub mod controller;
pub mod coordinator;
pub mod flow;
pub mod integration_test;
pub mod local;
pub mod local_interface;
pub mod metrics;
pub mod namespace;
pub mod packet;

use vstd::prelude::*;

use crate::net::Ipv4Addr;

verus! {

/// The node ID.
pub type NodeId = usize;

/// The flow ID, which holds the complete 4-tuple: source address (32 bits), destination address
/// (32 bits), source port (16 bits), destination port (16 bits), and 32 reserved bits.
pub type FlowId = u128;

/// The maximum Maximum Transmission Unit (MTU).
pub const MAX_MTU: usize = 6400;

/// The buffer size for the network interface reader to receive a packet from the network.
pub const RECEIVE_BUF_SIZE: usize = 6404;

/// The first key of the hash that spreads flows over slots.
pub const JUMP_KEY_FIRST: u64 = 0x1234567890ABCDEF;

/// The second key of the hash that spreads flows over slots.
pub const JUMP_KEY_SECOND: u64 = 0xFEDCBA0987654321;

/// The slot that `jumphash::JumpHasher::slot` gives a key whose little-endian bytes are hashed,
/// for a hasher made of the two keys.
pub uninterp spec fn jump_slot(k1: u64, k2: u64, key: u128, slot_count: u32) -> u32;

/// Calls `jumphash::JumpHasher::slot` on a hasher that `JumpHasher::new_with_keys` made.
///
/// The contract claims that the slot depends on the arguments alone, and that it is one of the
/// `slot_count` slots. The hasher reads the key in the byte order of the machine, so the key is
/// handed over in little-endian order: every machine then gives the same slot. With no slots the
/// outside function stops on an assertion, which `requires` rules out.
#[verifier::external_body]
pub(crate) fn jump_hash_slot(k1: u64, k2: u64, key: u128, slot_count: u32) -> (slot: u32)
    requires
        slot_count > 0,
    ensures
        slot == jump_slot(k1, k2, key, slot_count),
        slot < slot_count,
{
    jumphash::JumpHasher::new_with_keys(k1, k2).slot(&key.to_le(), slot_count)
}

/// The address `id` steps above `base`, counted modulo the size of the address space.
pub open spec fn node_addr(base: u32, id: int) -> u32 {
    ((base + id) % 0x1_0000_0000) as u32
}

/// Converts a NodeId to a virtual IP address.
pub trait NodeIdExt {
    /// Whether the address at this offset from the base stays in the network of the base.
    spec fn fits_network(&self, base_addr: Ipv4Addr, net_mask: Ipv4Addr) -> bool;

    /// The address at this offset from the base.
    spec fn offset_addr(&self, base_addr: Ipv4Addr) -> Ipv4Addr;

    /// Computes a new virtual IP address by adding the node ID to the base address.
    fn ip_addr(&self, base_addr: Ipv4Addr, net_mask: Ipv4Addr) -> (ip: Ipv4Addr)
        requires
            self.fits_network(base_addr, net_mask),
        ensures
            ip == self.offset_addr(base_addr),
    ;
}

proof fn lemma_low_word(id: usize)
    ensures
        id as u32 == id as int % 0x1_0000_0000,
{
    let wide = id as u64;
    assert(wide as u32 == wide % 0x1_0000_0000) by (bit_vector);
}

impl NodeIdExt for NodeId {
    open spec fn fits_network(&self, base_addr: Ipv4Addr, net_mask: Ipv4Addr) -> bool {
        crate::net::same_network(
            base_addr.bits,
            node_addr(base_addr.bits, *self as int),
            net_mask.bits,
        )
    }

    open spec fn offset_addr(&self, base_addr: Ipv4Addr) -> Ipv4Addr {
        Ipv4Addr { bits: node_addr(base_addr.bits, *self as int) }
    }

    fn ip_addr(&self, base_addr: Ipv4Addr, net_mask: Ipv4Addr) -> (ip: Ipv4Addr) {
        proof {
            lemma_low_word(*self);
        }
        Ipv4Addr { bits: base_addr.bits.wrapping_add(*self as u32) }
    }
}

/// Whether `node_id.ip_addr(base_addr, net_mask)` is defined: the address stays in the network.
pub fn node_fits_network(node_id: NodeId, base_addr: Ipv4Addr, net_mask: Ipv4Addr) -> (fits: bool)
    ensures
        fits == node_id.fits_network(base_addr, net_mask),
{
    proof {
        lemma_low_word(node_id);
    }
    let moved: u32 = base_addr.bits.wrapping_add(node_id as u32);
    base_addr.bits & net_mask.bits == moved & net_mask.bits
}

/// The flow ID of a 4-tuple, with the reserved bits clear.
pub open spec fn flow_id_of(src_ip: u32, dst_ip: u32, src_port: u16, dst_port: u16) -> FlowId {
    (src_ip * 0x1_0000_0000_0000_0000_0000_0000 + dst_ip * 0x1_0000_0000_0000_0000 + src_port
        * 0x1_0000_0000_0000 + dst_port * 0x1_0000_0000) as u128
}

/// The source address that a flow ID holds.
pub open spec fn flow_src(flow_id: FlowId) -> u32 {
    (flow_id / 0x1_0000_0000_0000_0000_0000_0000) as u32
}

/// The destination address that a flow ID holds.
pub open spec fn flow_dst(flow_id: FlowId) -> u32 {
    (flow_id / 0x1_0000_0000_0000_0000 % 0x1_0000_0000) as u32
}

/// The source port that a flow ID holds.
pub open spec fn flow_src_port(flow_id: FlowId) -> u16 {
    (flow_id / 0x1_0000_0000_0000 % 0x1_0000) as u16
}

/// The destination port that a flow ID holds.
pub open spec fn flow_dst_port(flow_id: FlowId) -> u16 {
    (flow_id / 0x1_0000_0000 % 0x1_0000) as u16
}

/// The flow ID of the opposite direction.
pub open spec fn flow_reverse(flow_id: FlowId) -> FlowId {
    flow_id_of(
        flow_dst(flow_id),
        flow_src(flow_id),
        flow_dst_port(flow_id),
        flow_src_port(flow_id),
    )
}

/// A number made of a quotient and a remainder has that quotient and that remainder.
proof fn lemma_quotient_and_remainder(quotient: int, remainder: int, divisor: int)
    requires
        0 <= remainder < divisor,
    ensures
        (quotient * divisor + remainder) / divisor == quotient,
        (quotient * divisor + remainder) % divisor == remainder,
{
    vstd::arithmetic::div_mod::lemma_fundamental_div_mod_converse(
        quotient * divisor + remainder,
        divisor,
        quotient,
        remainder,
    );
}

/// The parts of a flow ID made of a 4-tuple are that 4-tuple.
pub proof fn law_flow_id_parts(src_ip: u32, dst_ip: u32, src_port: u16, dst_port: u16)
    ensures
        flow_src(flow_id_of(src_ip, dst_ip, src_port, dst_port)) == src_ip,
        flow_dst(flow_id_of(src_ip, dst_ip, src_port, dst_port)) == dst_ip,
        flow_src_port(flow_id_of(src_ip, dst_ip, src_port, dst_port)) == src_port,
        flow_dst_port(flow_id_of(src_ip, dst_ip, src_port, dst_port)) == dst_port,
        flow_id_of(src_ip, dst_ip, src_port, dst_port) % 0x1_0000_0000 == 0,
{
    let (s, d, sp, dp) = (src_ip as int, dst_ip as int, src_port as int, dst_port as int);
    let upto_dst = s * 0x1_0000_0000 + d;
    let upto_src_port = upto_dst * 0x1_0000 + sp;
    let upto_dst_port = upto_src_port * 0x1_0000 + dp;
    lemma_quotient_and_remainder(
        s,
        d * 0x1_0000_0000_0000_0000 + sp * 0x1_0000_0000_0000 + dp * 0x1_0000_0000,
        0x1_0000_0000_0000_0000_0000_0000,
    );
    lemma_quotient_and_remainder(
        upto_dst,
        sp * 0x1_0000_0000_0000 + dp * 0x1_0000_0000,
        0x1_0000_0000_0000_0000,
    );
    lemma_quotient_and_remainder(s, d, 0x1_0000_0000);
    lemma_quotient_and_remainder(upto_src_port, dp * 0x1_0000_0000, 0x1_0000_0000_0000);
    lemma_quotient_and_remainder(upto_dst, sp, 0x1_0000);
    lemma_quotient_and_remainder(upto_dst_port, 0, 0x1_0000_0000);
    lemma_quotient_and_remainder(upto_src_port, dp, 0x1_0000);
}

/// Every flow ID with clear reserved bits is the flow ID of its own parts.
pub proof fn law_flow_id_is_its_parts(flow_id: FlowId)
    requires
        flow_id % 0x1_0000_0000 == 0,
    ensures
        flow_id_of(
            flow_src(flow_id),
            flow_dst(flow_id),
            flow_src_port(flow_id),
            flow_dst_port(flow_id),
        ) == flow_id,
{
    lemma_nested_quotients(flow_id);
}

/// The quotients of a flow ID by growing powers are quotients of each other.
proof fn lemma_nested_quotients(flow_id: FlowId)
    ensures
        flow_id / 0x1_0000_0000_0000 == flow_id / 0x1_0000_0000 / 0x1_0000,
        flow_id / 0x1_0000_0000_0000_0000 == flow_id / 0x1_0000_0000_0000 / 0x1_0000,
        flow_id / 0x1_0000_0000_0000_0000_0000_0000 == flow_id / 0x1_0000_0000_0000_0000
            / 0x1_0000_0000,
{
    let n = flow_id as int;
    vstd::arithmetic::div_mod::lemma_div_denominator(n, 0x1_0000_0000, 0x1_0000);
    vstd::arithmetic::div_mod::lemma_div_denominator(n, 0x1_0000_0000_0000, 0x1_0000);
    vstd::arithmetic::div_mod::lemma_div_denominator(n, 0x1_0000_0000_0000_0000, 0x1_0000_0000);
}

/// Reversing a flow twice gives the flow back, up to its reserved bits.
pub proof fn law_reverse_is_an_involution(flow_id: FlowId)
    ensures
        flow_reverse(flow_reverse(flow_id)) == flow_id - flow_id % 0x1_0000_0000,
{
    law_flow_id_parts(
        flow_dst(flow_id),
        flow_src(flow_id),
        flow_dst_port(flow_id),
        flow_src_port(flow_id),
    );
    let clear = (flow_id - flow_id % 0x1_0000_0000) as u128;
    law_flow_id_is_its_parts(clear);
    lemma_nested_quotients(flow_id);
    lemma_nested_quotients(clear);
    lemma_quotient_and_remainder(flow_id as int / 0x1_0000_0000, 0, 0x1_0000_0000);
}

/// A flow ID holds its 4-tuple from the top bits down: source address, destination address, source
/// port and destination port, above 32 reserved bits.
pub proof fn law_flow_id_layout(flow_id: FlowId)
    ensures
        flow_src(flow_id) == (flow_id >> 96) as u32,
        flow_dst(flow_id) == (flow_id >> 64) as u32,
        flow_src_port(flow_id) == (flow_id >> 48) as u16,
        flow_dst_port(flow_id) == (flow_id >> 32) as u16,
{
    assert((flow_id >> 96) as u32 == (flow_id / 0x1_0000_0000_0000_0000_0000_0000) as u32)
        by (bit_vector);
    assert((flow_id >> 64) as u32 == (flow_id / 0x1_0000_0000_0000_0000 % 0x1_0000_0000) as u32)
        by (bit_vector);
    assert((flow_id >> 48) as u16 == (flow_id / 0x1_0000_0000_0000 % 0x1_0000) as u16)
        by (bit_vector);
    assert((flow_id >> 32) as u16 == (flow_id / 0x1_0000_0000 % 0x1_0000) as u16) by (bit_vector);
}

/// The opposite direction of a flow goes from its destination to its source.
pub proof fn law_reverse_swaps_the_ends(flow_id: FlowId)
    ensures
        flow_src(flow_reverse(flow_id)) == flow_dst(flow_id),
        flow_dst(flow_reverse(flow_id)) == flow_src(flow_id),
        flow_src_port(flow_reverse(flow_id)) == flow_dst_port(flow_id),
        flow_dst_port(flow_reverse(flow_id)) == flow_src_port(flow_id),
{
    law_flow_id_parts(
        flow_dst(flow_id),
        flow_src(flow_id),
        flow_dst_port(flow_id),
        flow_src_port(flow_id),
    );
}

/// Nodes have addresses of their own: the address of a node lies as far above the base as its ID
/// says, and within the network of the base.
pub proof fn law_node_addresses_count_from_the_base(a: NodeId, b: NodeId, base: Ipv4Addr, mask: Ipv4Addr)
    requires
        base.bits + a <= u32::MAX,
        base.bits + b <= u32::MAX,
    ensures
        a.offset_addr(base).bits == base.bits + a,
        a.offset_addr(base).bits - b.offset_addr(base).bits == a - b,
        a.fits_network(base, mask) == (a.offset_addr(base).bits & mask.bits == base.bits
            & mask.bits),
{
}

/// The parts of a flow ID, and the slot it hashes to.
pub trait FlowIdExt {
    /// The flow ID itself.
    spec fn id(&self) -> FlowId;

    /// Extracts the source IP.
    fn src_ip(&self) -> (ip: Ipv4Addr)
        ensures
            ip.bits == flow_src(self.id()),
    ;

    /// Extracts the destination IP.
    fn dst_ip(&self) -> (ip: Ipv4Addr)
        ensures
            ip.bits == flow_dst(self.id()),
    ;

    /// Extracts the source port.
    fn src_port(&self) -> (port: u16)
        ensures
            port == flow_src_port(self.id()),
    ;

    /// Extracts the destination port.
    fn dst_port(&self) -> (port: u16)
        ensures
            port == flow_dst_port(self.id()),
    ;

    /// The flow in the opposite direction.
    fn reverse(&self) -> (reversed: FlowId)
        ensures
            reversed == flow_reverse(self.id()),
    ;

    /// Computes the hash value using Jump Hash, a consistent hash function.
    fn hash(&self, capacity: usize) -> (slot: usize)
        requires
            capacity as u32 > 0,
        ensures
            slot == jump_slot(JUMP_KEY_FIRST, JUMP_KEY_SECOND, self.id(), capacity as u32),
            slot < capacity as u32,
    ;
}

impl FlowIdExt for FlowId {
    open spec fn id(&self) -> FlowId {
        *self
    }

    fn src_ip(&self) -> (ip: Ipv4Addr) {
        Ipv4Addr { bits: (*self / 0x1_0000_0000_0000_0000_0000_0000) as u32 }
    }

    fn dst_ip(&self) -> (ip: Ipv4Addr) {
        Ipv4Addr { bits: (*self / 0x1_0000_0000_0000_0000 % 0x1_0000_0000) as u32 }
    }

    fn src_port(&self) -> (port: u16) {
        (*self / 0x1_0000_0000_0000 % 0x1_0000) as u16
    }

    fn dst_port(&self) -> (port: u16) {
        (*self / 0x1_0000_0000 % 0x1_0000) as u16
    }

    fn reverse(&self) -> (reversed: FlowId) {
        flow_id_from_parts(self.dst_ip(), self.dst_port(), self.src_ip(), self.src_port())
    }

    fn hash(&self, capacity: usize) -> (slot: usize) {
        jump_hash_slot(JUMP_KEY_FIRST, JUMP_KEY_SECOND, *self, capacity as u32) as usize
    }
}

/// Packs a 4-tuple into a flow ID.
pub fn flow_id_from_parts(
    src_ip: Ipv4Addr,
    src_port: u16,
    dst_ip: Ipv4Addr,
    dst_port: u16,
) -> (flow_id: FlowId)
    ensures
        flow_id == flow_id_of(src_ip.bits, dst_ip.bits, src_port, dst_port),
{
    src_ip.bits as u128 * 0x1_0000_0000_0000_0000_0000_0000 + dst_ip.bits as u128
        * 0x1_0000_0000_0000_0000 + src_port as u128 * 0x1_0000_0000_0000 + dst_port as u128
        * 0x1_0000_0000
}

/// The sixteen bytes of a flow ID, most significant byte first.
pub open spec fn flow_id_be_bytes(flow_id: FlowId) -> Seq<u8> {
    crate::net::be64_bytes((flow_id / 0x1_0000_0000_0000_0000) as u64) + crate::net::be64_bytes(
        (flow_id % 0x1_0000_0000_0000_0000) as u64,
    )
}

/// Two flow IDs with the same bytes are the same flow ID.
pub proof fn lemma_flow_id_bytes_injective(a: FlowId, b: FlowId)
    requires
        flow_id_be_bytes(a) == flow_id_be_bytes(b),
    ensures
        a == b,
{
    let (a_high, a_low) = (
        (a / 0x1_0000_0000_0000_0000) as u64,
        (a % 0x1_0000_0000_0000_0000) as u64,
    );
    let (b_high, b_low) = (
        (b / 0x1_0000_0000_0000_0000) as u64,
        (b % 0x1_0000_0000_0000_0000) as u64,
    );
    crate::net::lemma_be64_round_trip(a_high);
    crate::net::lemma_be64_round_trip(a_low);
    crate::net::lemma_be64_round_trip(b_high);
    crate::net::lemma_be64_round_trip(b_low);
    assert(flow_id_be_bytes(a).subrange(0, 8) =~= crate::net::be64_bytes(a_high));
    assert(flow_id_be_bytes(b).subrange(0, 8) =~= crate::net::be64_bytes(b_high));
    assert(flow_id_be_bytes(a).subrange(8, 16) =~= crate::net::be64_bytes(a_low));
    assert(flow_id_be_bytes(b).subrange(8, 16) =~= crate::net::be64_bytes(b_low));
}

/// One byte of a flow ID, where byte 0 is the most significant one.
fn flow_id_byte(word: u64, index: u32) -> (byte: u8)
    requires
        index < 8,
    ensures
        byte == crate::net::be64_bytes(word)[index as int],
{
    let half: u32 = if index < 4 {
        (word / 0x1_0000_0000) as u32
    } else {
        (word % 0x1_0000_0000) as u32
    };
    let at: u32 = index % 4;
    if at == 0 {
        (half / 0x100_0000) as u8
    } else if at == 1 {
        (half / 0x1_0000 % 0x100) as u8
    } else if at == 2 {
        (half / 0x100 % 0x100) as u8
    } else {
        (half % 0x100) as u8
    }
}

/// The bytes under which the controller knows a flow.
pub fn flow_id_bytes(flow_id: FlowId) -> (bytes: [u8; 16])
    ensures
        bytes@ == flow_id_be_bytes(flow_id),
{
    let high: u64 = (flow_id / 0x1_0000_0000_0000_0000) as u64;
    let low: u64 = (flow_id % 0x1_0000_0000_0000_0000) as u64;
    [
        flow_id_byte(high, 0),
        flow_id_byte(high, 1),
        flow_id_byte(high, 2),
        flow_id_byte(high, 3),
        flow_id_byte(high, 4),
        flow_id_byte(high, 5),
        flow_id_byte(high, 6),
        flow_id_byte(high, 7),
        flow_id_byte(low, 0),
        flow_id_byte(low, 1),
        flow_id_byte(low, 2),
        flow_id_byte(low, 3),
        flow_id_byte(low, 4),
        flow_id_byte(low, 5),
        flow_id_byte(low, 6),
        flow_id_byte(low, 7),
    ]
}

/// The bytes of a word made of two ports.
proof fn lemma_ports_in_a_word(src_port: u16, dst_port: u16)
    ensures
        ({
            let word = (src_port * 0x1_0000 + dst_port) as u32;
            let bytes = crate::net::be32_bytes(word);
            &&& bytes[0] * 256 + bytes[1] == src_port
            &&& bytes[2] * 256 + bytes[3] == dst_port
        }),
{
    let word = (src_port * 0x1_0000 + dst_port) as u32;
    assert(word / 0x1_0000 == src_port);
    assert(word / 0x100_0000 == src_port / 0x100);
    assert(word / 0x100 == src_port * 0x100 + dst_port / 0x100);
    assert(word % 0x100 == dst_port % 0x100);
}

/// The four words of a flow ID.
proof fn lemma_words_of_a_flow_id(src_ip: u32, dst_ip: u32, src_port: u16, dst_port: u16)
    ensures
        ({
            let flow_id = flow_id_of(src_ip, dst_ip, src_port, dst_port);
            let high = (flow_id / 0x1_0000_0000_0000_0000) as u64;
            let low = (flow_id % 0x1_0000_0000_0000_0000) as u64;
            &&& (high / 0x1_0000_0000) as u32 == src_ip
            &&& (high % 0x1_0000_0000) as u32 == dst_ip
            &&& (low / 0x1_0000_0000) as u32 == src_port * 0x1_0000 + dst_port
            &&& (low % 0x1_0000_0000) as u32 == 0
        }),
{
    let upper = src_ip * 0x1_0000_0000 + dst_ip;
    let word = src_port * 0x1_0000 + dst_port;
    assert(flow_id_of(src_ip, dst_ip, src_port, dst_port) == upper * 0x1_0000_0000_0000_0000 + word
        * 0x1_0000_0000);
    lemma_quotient_and_remainder(upper, word * 0x1_0000_0000, 0x1_0000_0000_0000_0000);
    lemma_quotient_and_remainder(src_ip as int, dst_ip as int, 0x1_0000_0000);
    lemma_quotient_and_remainder(word, 0, 0x1_0000_0000);
}

/// The bytes of a flow ID are the octets of its two addresses, those of its two ports, and four zeros.
pub proof fn law_flow_id_bytes_hold_the_parts(
    src_ip: u32,
    dst_ip: u32,
    src_port: u16,
    dst_port: u16,
)
    ensures
        ({
            let bytes = flow_id_be_bytes(flow_id_of(src_ip, dst_ip, src_port, dst_port));
            &&& bytes.len() == 16
            &&& bytes.subrange(0, 4) == crate::net::be32_bytes(src_ip)
            &&& bytes.subrange(4, 8) == crate::net::be32_bytes(dst_ip)
            &&& bytes[8] * 256 + bytes[9] == src_port
            &&& bytes[10] * 256 + bytes[11] == dst_port
            &&& bytes.subrange(12, 16) == seq![0u8, 0u8, 0u8, 0u8]
        }),
{
    let flow_id = flow_id_of(src_ip, dst_ip, src_port, dst_port);
    let word = (src_port * 0x1_0000 + dst_port) as u32;
    lemma_words_of_a_flow_id(src_ip, dst_ip, src_port, dst_port);
    lemma_ports_in_a_word(src_port, dst_port);
    let ports = crate::net::be32_bytes(word);
    let bytes = flow_id_be_bytes(flow_id);
    assert(bytes =~= crate::net::be32_bytes(src_ip) + crate::net::be32_bytes(dst_ip) + ports
        + crate::net::be32_bytes(0));
    assert(bytes.subrange(0, 4) =~= crate::net::be32_bytes(src_ip));
    assert(bytes.subrange(4, 8) =~= crate::net::be32_bytes(dst_ip));
    assert(bytes.subrange(12, 16) =~= crate::net::be32_bytes(0));
    assert(crate::net::be32_bytes(0) =~= seq![0u8, 0u8, 0u8, 0u8]);
    assert(bytes[8] == ports[0] && bytes[9] == ports[1] && bytes[10] == ports[2] && bytes[11]
        == ports[3]);
}

/// Addresses are counted modulo the size of the address space.
pub proof fn law_node_addresses_wrap_around(node_id: NodeId, base: Ipv4Addr)
    ensures
        (node_id.offset_addr(base).bits - base.bits - node_id) % 0x1_0000_0000 == 0,
{
}

} // verus!
