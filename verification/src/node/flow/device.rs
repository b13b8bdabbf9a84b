//! What a user-space TCP stack is handed of a packet, and what it is told of the device.

use vstd::prelude::*;
use vstd::slice::slice_subrange;

use crate::node::packet::Packet;

verus! {

/// A packet that was received for a user-space TCP stack.
pub struct PacketRxToken(pub Packet);

impl PacketRxToken {
    /// Hands the bytes of the packet, and no others, to a function.
    pub fn consume<R, F: FnOnce(&[u8]) -> R>(self, f: F) -> (result: R)
        requires
            self.0.packet_size <= self.0.buf@.len(),
            forall|bytes: &[u8]| #[trigger] bytes@ == self.0.bytes() ==> f.requires((bytes,)),
        ensures
            exists|bytes: &[u8]| #[trigger] bytes@ == self.0.bytes() && f.ensures((bytes,), result),
    {
        let bytes = slice_subrange(self.0.buf.as_slice(), 0, self.0.packet_size);
        assert(bytes@ =~= self.0.bytes());
        f(bytes)
    }
}

/// What kind of frames a device takes.
#[derive(Clone, Copy, Debug, PartialEq, Eq, Structural)]
pub enum Medium {
    /// IP packets without a header of a lower layer.
    Ip,
    Ethernet,
}

/// What a device can do.
#[derive(Clone, Copy, Debug, PartialEq, Eq, Structural)]
pub struct DeviceCapabilities {
    pub medium: Medium,
    pub max_transmission_unit: usize,
}

/// What the virtual device of a user-space TCP stack can do: it takes IP packets up to the MTU of
/// the TUN interface.
pub fn capabilities(mtu: i32) -> (caps: DeviceCapabilities)
    ensures
        caps == (DeviceCapabilities { medium: Medium::Ip, max_transmission_unit: mtu as usize }),
{
    let max_transmission_unit: usize = #[verifier::truncate] (mtu as usize);
    DeviceCapabilities { medium: Medium::Ip, max_transmission_unit }
}

/// Leave for a user-space TCP stack to send one packet.
pub struct PacketTxToken;

impl PacketTxToken {
    /// Lets a function write a packet of a given size into a buffer of zeros, and returns what the
    /// function returned, with the packet.
    pub fn consume<R, F: FnOnce(&mut [u8]) -> R>(self, len: usize, f: F) -> (sent: (R, Packet))
        requires
            forall|buf: &mut [u8]| #[trigger]
                (*buf)@ == Seq::new(len as nat, |i: int| 0u8) ==> f.requires((buf,)),
        ensures
            exists|buf: &mut [u8]|
                {
                    &&& #[trigger] (*buf)@ == Seq::new(len as nat, |i: int| 0u8)
                    &&& f.ensures((buf,), sent.0)
                    &&& sent.1.buf@ == (*final(buf))@
                },
            sent.1.packet_size == len,
            sent.1.flow_id == crate::node::packet::flow_of(sent.1.bytes()),
    {
        let mut buf: Vec<u8> = vec![0; len];
        let room = buf.as_mut_slice();
        assert((*room)@ =~= Seq::new(len as nat, |i: int| 0u8));
        let result = f(room);
        (result, Packet::new(len, buf))
    }
}

} // verus!
