//! Connection identities: a remote socket address held as plain values.
use vstd::prelude::*;

verus! {

/// The remote address of one connection, which identifies the peer while it
/// is connected.
#[derive(Clone, Copy, Debug, PartialEq, Eq, Hash, Structural)]
pub enum PeerAddr {
    /// An IPv4 address, as its 32-bit big-endian number, with a port.
    V4 { ip: u32, port: u16 },
    /// An IPv6 address, as its 128-bit big-endian number, with a port, the
    /// flow information and the scope identifier.
    V6 { ip: u128, port: u16, flowinfo: u32, scope_id: u32 },
}

} // verus!
