//! Socket addresses as plain values.
use vstd::prelude::*;

verus! {

/// An IPv4 address as its 32 bits, the first octet in the most significant byte.
pub type Ipv4Addr = u32;

/// `127.0.0.1`.
pub const LOCALHOST: u32 = 0x7f00_0001;

/// The prefix `::ffff:0:0` under which IPv6 carries IPv4 addresses.
pub const MAPPED_PREFIX: u128 = 0xffff_0000_0000;

/// An IPv4 address with a port.
#[derive(Clone, Copy, Debug, PartialEq, Eq, Structural)]
pub struct SocketAddrV4 {
    /// The address.
    pub ip: u32,
    /// The port.
    pub port: u16,
}

/// An IPv6 address with a port.
#[derive(Clone, Copy, Debug, PartialEq, Eq, Structural)]
pub struct SocketAddrV6 {
    /// The address.
    pub ip: u128,
    /// The port.
    pub port: u16,
    /// The flow information.
    pub flowinfo: u32,
    /// The scope.
    pub scope_id: u32,
}

/// An internet socket address.
#[derive(Clone, Copy, Debug, PartialEq, Eq, Structural)]
pub enum SocketAddr {
    /// An IPv4 socket address.
    V4(SocketAddrV4),
    /// An IPv6 socket address.
    V6(SocketAddrV6),
}

impl SocketAddr {
    /// The port of the address.
    pub open spec fn spec_port(self) -> u16 {
        match self {
            SocketAddr::V4(v4) => v4.port,
            SocketAddr::V6(v6) => v6.port,
        }
    }

    /// The port of the address.
    #[verifier::when_used_as_spec(spec_port)]
    pub fn port(self) -> (port: u16)
        ensures
            port == self.spec_port(),
    {
        match self {
            SocketAddr::V4(v4) => v4.port,
            SocketAddr::V6(v6) => v6.port,
        }
    }

    /// The address in the form that a dual-stack IPv6 socket sends to.
    pub open spec fn spec_to_v6(self) -> SocketAddr {
        match self {
            SocketAddr::V4(v4) => SocketAddr::V6(
                SocketAddrV6 {
                    ip: (MAPPED_PREFIX + v4.ip) as u128,
                    port: v4.port,
                    flowinfo: 0,
                    scope_id: 0,
                },
            ),
            SocketAddr::V6(_) => self,
        }
    }

    /// The address in the form that a dual-stack IPv6 socket sends to: an IPv4 address becomes
    /// its IPv4-mapped IPv6 address, an IPv6 address stays as it is.
    pub fn to_v6(self) -> (mapped: SocketAddr)
        ensures
            mapped == self.spec_to_v6(),
    {
        match self {
            SocketAddr::V4(v4) => SocketAddr::V6(
                SocketAddrV6 {
                    ip: MAPPED_PREFIX + v4.ip as u128,
                    port: v4.port,
                    flowinfo: 0,
                    scope_id: 0,
                },
            ),
            SocketAddr::V6(_) => self,
        }
    }
}

/// Distinct IPv4 socket addresses stay distinct when a dual-stack socket sends to them, and the
/// port is kept.
pub proof fn lemma_to_v6_keeps_port_and_tells_apart(a: SocketAddr, b: SocketAddr)
    ensures
        a.spec_to_v6() is V6,
        a.spec_to_v6().spec_port() == a.spec_port(),
        a.spec_to_v6().spec_to_v6() == a.spec_to_v6(),
        a is V4 && b is V4 && a.spec_to_v6() == b.spec_to_v6() ==> a == b,
{
}

} // verus!
