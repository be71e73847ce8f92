//! The decisions of a peer-to-peer virtual network's transport channel: which route a packet
//! takes, how the routes to a peer are kept, how packets are framed, and how the parts of a
//! channel answer to what happens to them. The sockets, threads and locks are the caller's.

pub mod addr;
pub mod clock;
pub mod context;
pub mod error;
pub mod frame;
pub mod group;
pub mod laws;
pub mod list;
pub mod promises;
pub mod route;
pub mod tcp;
pub mod udp;
pub mod walk;
pub mod watch;
