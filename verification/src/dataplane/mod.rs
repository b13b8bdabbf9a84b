//! A dataplane core with packets in fixed buffers, routes by direction, and FIFO scheduling.

pub mod controller_interface;
pub mod local_interface;
pub mod metrics;
pub mod packet;
pub mod processor;
pub mod protocols;
pub mod routes;
pub mod scheduler;

use vstd::prelude::*;

use crate::net::Ipv4Addr;

verus! {

pub use crate::node::{FlowId, NodeId};

/// The maximum Maximum Transmission Unit (MTU).
pub const MAX_MTU: usize = 6400;

/// The buffer size for receiving a packet from the network.
pub const RECEIVE_BUF_SIZE: usize = 6404;

/// The maximum number of packets in the bounded channels of the dataplane.
pub const INTERNAL_Q_SIZE: usize = 10000;

/// Masks a pair of addresses for path lookups: the third element of the destination address is
/// ignored, since it determines the interface only.
pub const FLOW_ID_PATH_MASK: u64 = 0xFFFFFFFF_FFFF00FF;

/// The packet buffer, used for receiving a packet from the network.
pub type PacketBuf = [u8; 6404];

/// The two addresses of a flow that is identified by a pair of addresses.
pub trait FlowIdExt {
    /// The pair of addresses as one number.
    spec fn pair(&self) -> u64;

    /// The source address.
    fn src_addr(&self) -> (ip: Ipv4Addr)
        ensures
            ip.bits == self.pair() / 0x1_0000_0000,
    ;

    /// The destination address.
    fn dest_addr(&self) -> (ip: Ipv4Addr)
        ensures
            ip.bits == self.pair() % 0x1_0000_0000,
    ;
}

impl FlowIdExt for u64 {
    open spec fn pair(&self) -> u64 {
        *self
    }

    fn src_addr(&self) -> (ip: Ipv4Addr) {
        Ipv4Addr { bits: (*self / 0x1_0000_0000) as u32 }
    }

    fn dest_addr(&self) -> (ip: Ipv4Addr) {
        Ipv4Addr { bits: (*self % 0x1_0000_0000) as u32 }
    }
}

} // verus!
