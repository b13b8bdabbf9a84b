//! Which user-space endpoint on this node takes a packet.

use std::collections::HashMap;

use vstd::prelude::*;

use crate::node::config::LocalConfig;
use crate::node::packet::{self, Packet};

verus! {

broadcast use vstd::std_specs::hash::group_hash_axioms;

/// Dispatches packets by their destination port. Endpoints are known by number.
#[derive(Debug)]
pub struct PacketRouter {
    /// The endpoint of each client port.
    pub clients: HashMap<u16, usize>,
    /// The endpoint of the server.
    pub server: Option<usize>,
    /// The port on which the user-space server listens.
    pub server_port: u16,
}

/// Whether bytes hold the lengths of an IPv4 header and of its packet and, within the latter, the
/// ports behind the header.
pub open spec fn holds_ports(b: Seq<u8>) -> bool {
    &&& b.len() >= 4
    &&& packet::ip_header_len(b) + 4 <= b[2] * 0x100 + b[3] <= b.len()
}

/// The destination port behind the IPv4 header.
pub open spec fn port_behind_header(b: Seq<u8>) -> u16 {
    let at = packet::ip_header_len(b);
    (b[at + 2] * 0x100 + b[at + 3]) as u16
}

impl PacketRouter {
    /// A router without endpoints.
    pub fn new(config: &LocalConfig) -> (router: Self)
        ensures
            router.clients@ == Map::<u16, usize>::empty(),
            router.server is None,
            router.server_port == config.user_space_server_port,
    {
        PacketRouter {
            clients: HashMap::new(),
            server: None,
            server_port: config.user_space_server_port,
        }
    }

    /// Registers a client.
    pub fn register_client(&mut self, port: u16, sender: usize)
        ensures
            final(self).clients@ == old(self).clients@.insert(port, sender),
            final(self).server == old(self).server,
            final(self).server_port == old(self).server_port,
    {
        self.clients.insert(port, sender);
    }

    /// Removes a client.
    pub fn deregister_client(&mut self, port: u16)
        ensures
            final(self).clients@ == old(self).clients@.remove(port),
            final(self).server == old(self).server,
            final(self).server_port == old(self).server_port,
    {
        self.clients.remove(&port);
    }

    /// Registers the server.
    pub fn register_server(&mut self, sender: usize)
        ensures
            final(self).server == Some(sender),
            final(self).clients@ == old(self).clients@,
            final(self).server_port == old(self).server_port,
    {
        self.server = Some(sender);
    }

    /// The endpoint that takes a packet: the server on its port, and a client on any other port.
    pub fn send_packet(&self, packet: &Packet) -> (sender: Option<usize>)
        requires
            packet.packet_size <= packet.buf@.len(),
            holds_ports(packet.bytes()),
        ensures
            ({
                let port = port_behind_header(packet.bytes());
                sender == if port == self.server_port {
                    self.server
                } else if self.clients@.contains_key(port) {
                    Some(self.clients@[port])
                } else {
                    None
                }
            }),
    {
        let at: usize = (packet.buf[0] % 16) as usize * 4;
        let dst_port: u16 = packet.buf[at + 2] as u16 * 0x100 + packet.buf[at + 3] as u16;
        if dst_port == self.server_port {
            self.server
        } else {
            match self.clients.get(&dst_port) {
                Some(sender) => Some(*sender),
                None => None,
            }
        }
    }
}

/// The port that a packet is dispatched by is the destination port of its transport header, behind an
/// IPv4 header of whatever length.
pub proof fn law_port_stands_behind_the_header(
    header: Seq<u8>,
    src_port: Seq<u8>,
    dst_port: u16,
    rest: Seq<u8>,
)
    requires
        20 <= header.len() <= 60,
        header.len() % 4 == 0,
        header[0] & 0x0F == header.len() / 4,
        src_port.len() == 2,
        rest.len() >= 2,
        rest[0] * 0x100 + rest[1] == dst_port,
    ensures
        port_behind_header(header + src_port + rest) == dst_port,
{
    let b = header + src_port + rest;
    let first = header[0];
    assert(first & 0x0F == first % 16) by (bit_vector);
    let at = packet::ip_header_len(b);
    assert(b[0] == first);
    assert(at == header.len());
    assert(b[at + 2] == rest[0] && b[at + 3] == rest[1]);
}

} // verus!
