//! Why a channel could not do what it was asked.
use vstd::prelude::*;

verus! {

/// Why a channel could not do what it was asked.
#[derive(Clone, Copy, Debug, PartialEq, Eq, Structural)]
pub enum ChannelError {
    /// There is no usable route to the peer, or no socket for the route.
    RouteNotFound,
    /// The only route to the peer goes through a relay and has been silent for too long.
    RouteTimeOut,
    /// There is no TCP connection to the server.
    TcpNotFound,
    /// A frame announces a length that no packet has.
    LengthOverflow,
}

impl ChannelError {
    /// The message that describes the error.
    pub open spec fn spec_message(self) -> Seq<char> {
        match self {
            ChannelError::RouteNotFound => "route not found"@,
            ChannelError::RouteTimeOut => "route time out"@,
            ChannelError::TcpNotFound => "tcp not found"@,
            ChannelError::LengthOverflow => "length overflow"@,
        }
    }

    /// The message that describes the error.
    pub fn message(&self) -> (text: &'static str)
        ensures
            text@ == self.spec_message(),
    {
        match self {
            ChannelError::RouteNotFound => "route not found",
            ChannelError::RouteTimeOut => "route time out",
            ChannelError::TcpNotFound => "tcp not found",
            ChannelError::LengthOverflow => "length overflow",
        }
    }

    /// Whether the error says that something is missing; otherwise it says that data that came
    /// in is invalid.
    pub fn is_not_found(&self) -> (missing: bool)
        ensures
            missing == !(self is LengthOverflow),
    {
        match self {
            ChannelError::LengthOverflow => false,
            _ => true,
        }
    }
}

} // verus!
