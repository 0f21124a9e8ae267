//! Endpoint addresses as plain values.

use vstd::prelude::*;

verus! {

/// An IP address, held as the number its bytes spell in network order.
#[derive(Clone, Copy, Debug, PartialEq, Eq, Structural)]
pub enum IpAddr {
    V4(u32),
    V6(u128),
}

/// An IP address and a port.
#[derive(Clone, Copy, Debug, PartialEq, Eq, Structural)]
pub struct SocketAddr {
    pub ip: IpAddr,
    pub port: u16,
}

impl SocketAddr {
    /// The endpoint `ip:port`.
    pub fn new(ip: IpAddr, port: u16) -> (addr: Self)
        ensures
            addr == (SocketAddr { ip, port }),
    {
        SocketAddr { ip, port }
    }

    /// Whether this is an IPv6 endpoint.
    pub fn is_ipv6(&self) -> (v6: bool)
        ensures
            v6 == (self.ip is V6),
    {
        match self.ip {
            IpAddr::V4(_) => false,
            IpAddr::V6(_) => true,
        }
    }
}

} // verus!
