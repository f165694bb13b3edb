//! Network addresses as plain values.

use vstd::prelude::*;

verus! {

/// An IP address, given by its bits in network order.
#[derive(Clone, Copy, Debug, PartialEq, Eq, Hash, Structural)]
pub enum IpAddr {
    /// An IPv4 address.
    V4(u32),
    /// An IPv6 address.
    V6(u128),
}

/// The IP address and the port of one end of a connection.
#[allow(inconsistent_fields)]
#[derive(Clone, Copy, Debug, PartialEq, Eq, Hash, Structural)]
pub enum SocketAddr {
    /// An IPv4 address with a port.
    V4 {
        /// The address bits.
        ip: u32,
        /// The port.
        port: u16,
    },
    /// An IPv6 address with a port, a flow label and a scope.
    V6 {
        /// The address bits.
        ip: u128,
        /// The port.
        port: u16,
        /// The flow label.
        flowinfo: u32,
        /// The scope identifier.
        scope_id: u32,
    },
}

impl IpAddr {
    /// The address stands for "any interface": `0.0.0.0` or `::`.
    pub open spec fn unspecified(self) -> bool {
        match self {
            IpAddr::V4(bits) => bits == 0,
            IpAddr::V6(bits) => bits == 0,
        }
    }

    /// The address stays on this machine: it lies in `127.0.0.0/8`, or is `::1`.
    pub open spec fn loopback(self) -> bool {
        match self {
            IpAddr::V4(bits) => 0x7f00_0000 <= bits <= 0x7fff_ffff,
            IpAddr::V6(bits) => bits == 1,
        }
    }

    /// Tells whether the address is `0.0.0.0` or `::`.
    pub fn is_unspecified(self) -> (r: bool)
        ensures
            r == self.unspecified(),
    {
        match self {
            IpAddr::V4(bits) => bits == 0,
            IpAddr::V6(bits) => bits == 0,
        }
    }

    /// Tells whether the address lies in `127.0.0.0/8` or is `::1`.
    pub fn is_loopback(self) -> (r: bool)
        ensures
            r == self.loopback(),
    {
        match self {
            IpAddr::V4(bits) => 0x7f00_0000 <= bits && bits <= 0x7fff_ffff,
            IpAddr::V6(bits) => bits == 1,
        }
    }
}

impl SocketAddr {
    /// The IP part of the address.
    pub open spec fn spec_ip(self) -> IpAddr {
        match self {
            SocketAddr::V4 { ip, port } => IpAddr::V4(ip),
            SocketAddr::V6 { ip, port, flowinfo, scope_id } => IpAddr::V6(ip),
        }
    }

    /// The port of the address.
    pub open spec fn spec_port(self) -> u16 {
        match self {
            SocketAddr::V4 { ip, port } => port,
            SocketAddr::V6 { ip, port, flowinfo, scope_id } => port,
        }
    }

    /// Returns the IP part of the address.
    pub fn ip(self) -> (r: IpAddr)
        ensures
            r == self.spec_ip(),
    {
        match self {
            SocketAddr::V4 { ip, port: _ } => IpAddr::V4(ip),
            SocketAddr::V6 { ip, port: _, flowinfo: _, scope_id: _ } => IpAddr::V6(ip),
        }
    }

    /// Returns the port of the address.
    pub fn port(self) -> (r: u16)
        ensures
            r == self.spec_port(),
    {
        match self {
            SocketAddr::V4 { ip: _, port } => port,
            SocketAddr::V6 { ip: _, port, flowinfo: _, scope_id: _ } => port,
        }
    }
}

} // verus!
