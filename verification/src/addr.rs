//! Socket addresses, as the crate compares them.

use vstd::prelude::*;

verus! {

/// The address of a peer socket: an IPv4 address and a port, or an IPv6
/// address, a port, a flow label and a scope id, as `std::net::SocketAddr`
/// holds them. Two addresses are equal when all their parts are.
#[derive(Clone, Copy, Debug, PartialEq, Eq, Hash, Structural)]
pub enum PeerAddr {
    /// An IPv4 socket address; the address in big-endian order.
    V4 { ip4: u32, port: u16 },
    /// An IPv6 socket address; the address in big-endian order.
    V6 { ip6: u128, port: u16, flowinfo: u32, scope_id: u32 },
}

} // verus!
