//! How nodes greet each other, and where they listen for one another.

use vstd::prelude::*;
use vstd::slice::slice_subrange;

use crate::dataplane::NodeId;
use crate::messages::Protocol;
use crate::net::{self, push_be64, read_be64};
use crate::node::conductor::{self, listen_address};

verus! {

/// After so many attempts a connection is given up.
pub const MAX_RETRY: usize = 10;

/// What a node sends first on a new connection: the session, and its own ID.
pub open spec fn greeting(session_id: Seq<u8>, local_id: NodeId) -> Seq<u8> {
    session_id + net::be64_bytes(local_id as u64)
}

/// What a node sends first on a new connection.
pub fn connection_greeting(session_id: &[u8; 4], local_id: NodeId) -> (bytes: Vec<u8>)
    ensures
        bytes@ == greeting(session_id@, local_id),
{
    let mut bytes: Vec<u8> = Vec::new();
    bytes.push(session_id[0]);
    bytes.push(session_id[1]);
    bytes.push(session_id[2]);
    bytes.push(session_id[3]);
    push_be64(&mut bytes, local_id as u64);
    assert(bytes@ =~= greeting(session_id@, local_id));
    bytes
}

/// The ID of the node that a connection comes from, in the eight bytes that name it.
pub fn peer_node_id(node_id_buf: &[u8; 8]) -> (node_id: NodeId)
    requires
        net::be64(node_id_buf@) <= usize::MAX,
    ensures
        node_id == net::be64(node_id_buf@),
{
    let bytes = slice_subrange(node_id_buf.as_slice(), 0, 8);
    assert(bytes@ =~= node_id_buf@);
    read_be64(bytes) as usize
}

/// The ID that a greeting ends with is that of the node that sent it.
pub proof fn law_greeting_names_the_node(session_id: Seq<u8>, local_id: NodeId)
    requires
        session_id.len() == 4,
    ensures
        greeting(session_id, local_id).len() == 12,
        net::be64(greeting(session_id, local_id).skip(4)) == local_id,
{
    net::lemma_be64_round_trip(local_id as u64);
    assert(greeting(session_id, local_id).skip(4) =~= net::be64_bytes(local_id as u64));
}

/// The addresses on which a node listens. UDP needs no listener.
pub fn listen_addresses(protocol: Protocol, public_port: &String, private_port: &String) -> (addrs:
    Vec<String>)
    ensures
        addrs@.len() == if protocol is Udp {
            0int
        } else if public_port@ == private_port@ {
            1
        } else {
            2
        },
        addrs@.len() > 0 ==> addrs@[0]@ == conductor::any_address(public_port@),
        addrs@.len() > 1 ==> addrs@[1]@ == conductor::any_address(private_port@),
{
    let mut addrs: Vec<String> = Vec::new();
    match protocol {
        Protocol::Udp => {},
        _ => {
            addrs.push(listen_address(public_port.as_str()));
            if *public_port != *private_port {
                addrs.push(listen_address(private_port.as_str()));
            }
        },
    }
    addrs
}

/// Whether another attempt is made after a number of attempts that failed.
pub fn tries_again(failed: usize) -> (again: bool)
    ensures
        again == (failed < MAX_RETRY),
        again == (failed < 10),
{
    failed < MAX_RETRY
}

/// A greeting is the session followed by eight bytes of the ID, most significant byte first.
pub proof fn law_greeting_layout(session_id: Seq<u8>, local_id: NodeId)
    requires
        session_id.len() == 4,
    ensures
        ({
            let bytes = greeting(session_id, local_id);
            &&& bytes.take(4) == session_id
            &&& bytes[4] * 0x100_0000_0000_0000 + bytes[5] * 0x1_0000_0000_0000 + bytes[6]
                * 0x100_0000_0000 + bytes[7] * 0x1_0000_0000 + bytes[8] * 0x100_0000 + bytes[9]
                * 0x1_0000 + bytes[10] * 0x100 + bytes[11] == local_id
        }),
{
    let bytes = greeting(session_id, local_id);
    let id = net::be64_bytes(local_id as u64);
    net::lemma_be64_round_trip(local_id as u64);
    assert(bytes.take(4) =~= session_id);
    assert forall|k: int| 0 <= k < 8 implies bytes[4 + k] == #[trigger] id[k] by {}
    assert(bytes[4] == id[0] && bytes[5] == id[1] && bytes[6] == id[2] && bytes[7] == id[3]);
    assert(bytes[8] == id[4] && bytes[9] == id[5] && bytes[10] == id[6] && bytes[11] == id[7]);
    let high = net::be32(id[0], id[1], id[2], id[3]);
    let low = net::be32(id[4], id[5], id[6], id[7]);
    assert(high * 0x1_0000_0000 + low == local_id);
}

} // verus!
