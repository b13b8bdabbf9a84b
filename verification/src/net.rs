//! IPv4 addresses and the big-endian words that packets are made of.

use vstd::prelude::*;

verus! {

/// An IPv4 address, kept as the number whose most significant byte is the first octet.
#[derive(Clone, Copy, Debug, PartialEq, Eq, Structural, Hash)]
pub struct Ipv4Addr {
    pub bits: u32,
}

/// The number that four bytes stand for, most significant byte first.
pub open spec fn be32(a: u8, b: u8, c: u8, d: u8) -> u32 {
    (a * 0x100_0000 + b * 0x1_0000 + c * 0x100 + d) as u32
}

/// The number that eight bytes stand for, most significant byte first.
pub open spec fn be64(s: Seq<u8>) -> u64 {
    (be32(s[0], s[1], s[2], s[3]) * 0x1_0000_0000 + be32(s[4], s[5], s[6], s[7])) as u64
}

/// The four bytes of a number, most significant byte first.
pub open spec fn be32_bytes(n: u32) -> Seq<u8> {
    seq![
        (n / 0x100_0000) as u8,
        (n / 0x1_0000 % 0x100) as u8,
        (n / 0x100 % 0x100) as u8,
        (n % 0x100) as u8,
    ]
}

/// The eight bytes of a number, most significant byte first.
pub open spec fn be64_bytes(n: u64) -> Seq<u8> {
    be32_bytes((n / 0x1_0000_0000) as u32) + be32_bytes((n % 0x1_0000_0000) as u32)
}

/// Reading back the four bytes of a number gives the number.
pub proof fn lemma_be32_round_trip(n: u32)
    ensures
        be32_bytes(n).len() == 4,
        be32(be32_bytes(n)[0], be32_bytes(n)[1], be32_bytes(n)[2], be32_bytes(n)[3]) == n,
{
}

/// Reading back the eight bytes of a number gives the number.
pub proof fn lemma_be64_round_trip(n: u64)
    ensures
        be64_bytes(n).len() == 8,
        be64(be64_bytes(n)) == n,
{
    let high = (n / 0x1_0000_0000) as u32;
    let low = (n % 0x1_0000_0000) as u32;
    lemma_be32_round_trip(high);
    lemma_be32_round_trip(low);
    let s = be64_bytes(n);
    assert(s.subrange(0, 4) =~= be32_bytes(high));
    assert(s.subrange(4, 8) =~= be32_bytes(low));
    assert(s[0] == be32_bytes(high)[0] && s[1] == be32_bytes(high)[1] && s[2] == be32_bytes(high)[2]
        && s[3] == be32_bytes(high)[3]);
    assert(s[4] == be32_bytes(low)[0] && s[5] == be32_bytes(low)[1] && s[6] == be32_bytes(low)[2]
        && s[7] == be32_bytes(low)[3]);
}

/// Reads four bytes, most significant byte first.
pub fn read_be32(a: u8, b: u8, c: u8, d: u8) -> (n: u32)
    ensures
        n == be32(a, b, c, d),
{
    a as u32 * 0x100_0000 + b as u32 * 0x1_0000 + c as u32 * 0x100 + d as u32
}

/// Appends the four bytes of `n` to `out`, most significant byte first.
pub fn push_be32(out: &mut Vec<u8>, n: u32)
    ensures
        final(out)@ == old(out)@ + be32_bytes(n),
{
    out.push((n / 0x100_0000) as u8);
    out.push((n / 0x1_0000 % 0x100) as u8);
    out.push((n / 0x100 % 0x100) as u8);
    out.push((n % 0x100) as u8);
}

/// Appends the eight bytes of `n` to `out`, most significant byte first.
pub fn push_be64(out: &mut Vec<u8>, n: u64)
    ensures
        final(out)@ == old(out)@ + be64_bytes(n),
{
    push_be32(out, (n / 0x1_0000_0000) as u32);
    push_be32(out, (n % 0x1_0000_0000) as u32);
}

/// Reads the eight bytes at the start of `bytes`, most significant byte first.
pub fn read_be64(bytes: &[u8]) -> (n: u64)
    requires
        bytes@.len() >= 8,
    ensures
        n == be64(bytes@),
{
    let high: u32 = read_be32(bytes[0], bytes[1], bytes[2], bytes[3]);
    let low: u32 = read_be32(bytes[4], bytes[5], bytes[6], bytes[7]);
    high as u64 * 0x1_0000_0000 + low as u64
}

impl Ipv4Addr {
    /// The address written `a.b.c.d`.
    pub fn new(a: u8, b: u8, c: u8, d: u8) -> (ip: Self)
        ensures
            ip.bits == be32(a, b, c, d),
    {
        Ipv4Addr { bits: read_be32(a, b, c, d) }
    }

    /// The four numbers of the dotted form, from left to right.
    pub fn octets(&self) -> (o: [u8; 4])
        ensures
            o@ == be32_bytes(self.bits),
    {
        [
            (self.bits / 0x100_0000) as u8,
            (self.bits / 0x1_0000 % 0x100) as u8,
            (self.bits / 0x100 % 0x100) as u8,
            (self.bits % 0x100) as u8,
        ]
    }
}

/// Whether two addresses lie in the same network under a mask.
pub open spec fn same_network(a: u32, b: u32, mask: u32) -> bool {
    a & mask == b & mask
}

/// The bytes of a number are its digits to the base 256, and the number is read from them.
pub proof fn law_bytes_are_digits(a: u8, b: u8, c: u8, d: u8)
    ensures
        be32(a, b, c, d) == ((a * 256 + b) * 256 + c) * 256 + d,
        be32_bytes(be32(a, b, c, d)) == seq![a, b, c, d],
{
    let n = be32(a, b, c, d);
    assert(n == a * 0x100_0000 + b * 0x1_0000 + c * 0x100 + d);
    assert(n / 0x100_0000 == a);
    assert(n / 0x1_0000 == a * 0x100 + b);
    assert(n / 0x100 == a * 0x1_0000 + b * 0x100 + c);
    assert(be32_bytes(n) =~= seq![a, b, c, d]);
}

/// Eight bytes are two words, the more significant first, and the number is read from them.
pub proof fn law_words_are_digits(s: Seq<u8>)
    requires
        s.len() == 8,
    ensures
        be64(s) == be32(s[0], s[1], s[2], s[3]) * 0x1_0000_0000 + be32(s[4], s[5], s[6], s[7]),
        be64_bytes(be64(s)) == s,
{
    let high = be32(s[0], s[1], s[2], s[3]);
    let low = be32(s[4], s[5], s[6], s[7]);
    law_bytes_are_digits(s[0], s[1], s[2], s[3]);
    law_bytes_are_digits(s[4], s[5], s[6], s[7]);
    let n = be64(s);
    assert(n == high * 0x1_0000_0000 + low);
    assert(n / 0x1_0000_0000 == high);
    assert(n % 0x1_0000_0000 == low);
    assert(be64_bytes(n) =~= s);
}

/// A network of prefix length zero holds all addresses, one of full length a single one, and every
/// address lies in its own network.
pub proof fn law_networks_of_addresses(a: u32, b: u32, mask: u32)
    ensures
        same_network(a, b, 0),
        same_network(a, b, 0xFFFF_FFFF) <==> a == b,
        same_network(a, a & mask, mask),
        same_network(a, b, mask) <==> (a ^ b) & mask == 0,
{
    assert(a & 0u32 == b & 0u32) by (bit_vector);
    assert((a & 0xFFFF_FFFFu32 == b & 0xFFFF_FFFFu32) <==> a == b) by (bit_vector);
    assert((a & mask) & mask == a & mask) by (bit_vector);
    assert((a & mask == b & mask) <==> (a ^ b) & mask == 0u32) by (bit_vector);
}

} // verus!
