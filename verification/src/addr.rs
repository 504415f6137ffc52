//! Plain-value models of host and socket addresses.
//!
//! The relay identifies peers by address, but never interprets address
//! bytes beyond equality, so an address is held here as plain integers.

use vstd::prelude::*;

verus! {

/// A host address: four octets for IPv4, eight 16-bit groups for IPv6.
#[derive(Clone, Copy, PartialEq, Eq, Hash, Debug, Structural)]
pub enum IpAddress {
    V4(u8, u8, u8, u8),
    V6(u16, u16, u16, u16, u16, u16, u16, u16),
}

/// A socket address: a host address together with a TCP port.
#[derive(Clone, Copy, PartialEq, Eq, Hash, Debug, Structural)]
pub struct SocketAddress {
    pub ip: IpAddress,
    pub port: u16,
}

impl SocketAddress {
    /// Builds a socket address from its host address and port.
    pub fn new(ip: IpAddress, port: u16) -> (r: SocketAddress)
        ensures
            r.ip == ip,
            r.port == port,
    {
        SocketAddress { ip, port }
    }
}

} // verus!
