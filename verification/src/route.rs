//! Routes to a peer and the keys by which they are told apart.
use vstd::prelude::*;

use crate::addr::SocketAddr;

verus! {

/// The channel index of the TCP connection to the server.
pub const TCP_ID: usize = 0;

/// The channel index of the main UDP socket.
pub const UDP_ID: usize = 1;

/// The smallest channel index of a UDP socket opened beside the main one.
pub const FIRST_EXTRA_ID: usize = 3;

/// The metric of a route that reaches the peer with no relay in between.
pub const DIRECT_METRIC: u8 = 1;

/// Where a packet comes from or goes to: the local channel and the remote address.
#[derive(Clone, Copy, Debug, PartialEq, Eq, Structural)]
pub struct RouteKey {
    /// The channel index.
    pub index: usize,
    /// The remote address.
    pub addr: SocketAddr,
}

impl RouteKey {
    /// The key of the remote address `addr` on channel `index`.
    pub fn new(index: usize, addr: SocketAddr) -> (key: RouteKey)
        ensures
            key == (RouteKey { index, addr }),
    {
        RouteKey { index, addr }
    }
}

/// One way to reach a peer.
#[derive(Clone, Copy, Debug, PartialEq, Eq, Structural)]
pub struct Route {
    /// The channel index.
    pub index: usize,
    /// The remote address.
    pub addr: SocketAddr,
    /// The number of hops.
    pub metric: u8,
    /// The round-trip time in milliseconds.
    pub rt: i64,
}

impl Route {
    /// The route over channel `index` to `addr`.
    pub fn new(index: usize, addr: SocketAddr, metric: u8, rt: i64) -> (route: Route)
        ensures
            route == (Route { index, addr, metric, rt }),
    {
        Route { index, addr, metric, rt }
    }

    /// The key of the route.
    pub open spec fn key(self) -> RouteKey {
        RouteKey { index: self.index, addr: self.addr }
    }

    /// Whether the route reaches the peer directly.
    pub open spec fn direct(self) -> bool {
        self.metric == DIRECT_METRIC
    }

    /// The key of the route.
    pub fn route_key(&self) -> (key: RouteKey)
        ensures
            key == self.key(),
    {
        RouteKey { index: self.index, addr: self.addr }
    }

    /// Whether the route reaches the peer directly.
    pub fn is_p2p(&self) -> (p2p: bool)
        ensures
            p2p == self.direct(),
    {
        self.metric == DIRECT_METRIC
    }
}

/// What the channel does at the moment.
#[derive(Clone, Copy, Debug, PartialEq, Eq, Structural)]
pub enum Status {
    /// The network address translation keeps one mapping per socket: the main socket suffices.
    Cone,
    /// The network address translation is symmetric: extra sockets listen.
    Symmetric,
    /// The channel is closed.
    Close,
}

/// The kind of network address translation in front of this host.
#[derive(Clone, Copy, Debug, PartialEq, Eq, Structural)]
pub enum NatType {
    /// Every remote address gets a mapping of its own.
    Symmetric,
    /// All remote addresses share one mapping.
    Cone,
}

} // verus!
