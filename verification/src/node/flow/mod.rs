//! User-space TCP flows.

pub mod client;
pub mod device;
pub mod router;
pub mod server;
pub mod state;
pub mod tcp;

use vstd::prelude::*;

verus! {

/// The size of the buffers of a user-space socket.
pub const SOCKET_BUFFER_SIZE: usize = 1048576;

} // verus!
