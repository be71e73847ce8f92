//! The UDP sockets: what becomes of a datagram, and when a socket is given up.
use vstd::prelude::*;

use crate::addr::SocketAddr;
use crate::context::{Context, ContextView};
use crate::frame::BUF_SIZE;
use crate::route::{RouteKey, Status, FIRST_EXTRA_ID};

verus! {

/// The message that wakes the main socket up when the channel is closed.
pub open spec fn stop_bytes() -> Seq<u8> {
    seq![0x73u8, 0x74u8, 0x6fu8, 0x70u8]
}

/// The message `stop`, which wakes the main socket up when the channel is closed.
pub fn stop_message() -> (message: [u8; 4])
    ensures
        message@ == stop_bytes(),
{
    let message: [u8; 4] = [0x73, 0x74, 0x6f, 0x70];
    assert(message@ =~= stop_bytes());
    message
}

/// Whether the bytes from `start` up to `end` are the message `stop`.
fn is_stop(buf: &[u8], start: usize, end: usize) -> (stop: bool)
    requires
        start <= end <= buf@.len(),
    ensures
        stop == (buf@.subrange(start as int, end as int) == stop_bytes()),
{
    let ghost part = buf@.subrange(start as int, end as int);
    if end - start != 4 {
        assert(part.len() != stop_bytes().len());
        return false;
    }
    let same = buf[start] == 0x73 && buf[start + 1] == 0x74 && buf[start + 2] == 0x6f && buf[start
        + 3] == 0x70;
    proof {
        if same {
            assert(part =~= stop_bytes());
        } else {
            assert(part[0] == buf@[start as int]);
            assert(part[1] == buf@[start + 1]);
            assert(part[2] == buf@[start + 2]);
            assert(part[3] == buf@[start + 3]);
        }
    }
    same
}

/// What a socket is to do next.
#[derive(Clone, Copy, Debug, PartialEq, Eq, Structural)]
pub enum UdpAction {
    /// Wait for what comes next.
    Wait,
    /// Hand on the packet between `start` and `end` of the buffer, which came from `key`.
    Deliver { start: usize, end: usize, key: RouteKey },
    /// Stop receiving.
    Leave,
}

/// The main UDP socket.
#[derive(Clone, Copy, Debug, PartialEq, Eq, Structural)]
pub struct MainUdp {
    /// The channel index.
    pub id: usize,
    /// How many bytes are left free in front of a packet.
    pub head_reserve: usize,
}

/// What a main socket may be told of an attempt to receive.
#[derive(Clone, Copy, Debug, PartialEq, Eq, Structural)]
pub enum Reception {
    /// A datagram of `len` bytes came from `addr`, and stands behind the free bytes.
    Datagram { len: usize, addr: SocketAddr },
    /// The attempt failed.
    Failed,
}

impl MainUdp {
    /// What becomes of a reception while the channel has the status `status`.
    pub open spec fn answer(self, buf: Seq<u8>, reception: Reception, status: Status) -> UdpAction {
        match reception {
            Reception::Datagram { len, addr } => {
                let end = self.head_reserve + len;
                if buf.subrange(self.head_reserve as int, end) == stop_bytes() && status
                    == Status::Close {
                    UdpAction::Leave
                } else {
                    UdpAction::Deliver {
                        start: self.head_reserve,
                        end: end as usize,
                        key: RouteKey { index: self.id, addr },
                    }
                }
            },
            Reception::Failed => UdpAction::Wait,
        }
    }

    /// Whether the datagram stands in the buffer.
    pub open spec fn holds(self, buf: Seq<u8>, reception: Reception) -> bool {
        match reception {
            Reception::Datagram { len, .. } => self.head_reserve + len <= buf.len(),
            Reception::Failed => true,
        }
    }

    /// The main UDP socket under the channel index `id`.
    pub fn new(id: usize, head_reserve: usize) -> (socket: MainUdp)
        ensures
            socket == (MainUdp { id, head_reserve }),
    {
        MainUdp { id, head_reserve }
    }

    /// What becomes of a reception: a datagram is handed on, unless it says `stop` and the
    /// channel is closed.
    pub fn on_reception<U>(
        &self,
        context: &Context<U>,
        buf: &[u8],
        reception: Reception,
    ) -> (action: UdpAction)
        requires
            self.holds(buf@, reception),
        ensures
            action == self.answer(buf@, reception, context@.status),
    {
        match reception {
            Reception::Datagram { len, addr } => {
                assert(buf@.len() == buf.len());
                let end: usize = self.head_reserve + len;
                if is_stop(buf, self.head_reserve, end) {
                    if context.is_close() {
                        return UdpAction::Leave;
                    }
                }
                UdpAction::Deliver {
                    start: self.head_reserve,
                    end,
                    key: RouteKey::new(self.id, addr),
                }
            },
            Reception::Failed => UdpAction::Wait,
        }
    }

    /// What the socket is to do after it handed a packet on: it goes on, whether or not a worker
    /// thread took the packet.
    pub fn on_delivered(&self, taken: bool) -> (action: UdpAction)
        ensures
            action == UdpAction::Wait,
    {
        UdpAction::Wait
    }

    /// Whether all parts of the channel are to stop with the socket.
    pub fn leave(self) -> (stop_all: bool)
        ensures
            stop_all,
    {
        true
    }
}

/// What an extra socket may be told.
#[derive(Clone, Copy, Debug, PartialEq, Eq, Structural)]
pub enum UdpEvent {
    /// A datagram of `len` bytes came from `addr`, and stands behind the free bytes.
    Datagram { len: usize, addr: SocketAddr },
    /// An attempt to receive failed.
    ReceiveFailed,
    /// The packet was handed on; `taken` tells whether a worker thread took it.
    Delivered { taken: bool },
    /// The status of the channel changed.
    StatusChanged { status: Status },
    /// The status of the channel can no longer be told.
    StatusLost,
    /// All parts of the channel are to stop.
    Stopped,
}

/// An extra UDP socket.
#[derive(Clone, Copy, Debug, PartialEq, Eq, Structural)]
pub struct ExtraUdp {
    /// The channel index.
    pub id: usize,
    /// How many bytes are left free in front of a packet.
    pub head_reserve: usize,
    /// Whether the channel cannot do without the socket.
    pub is_core: bool,
}

impl ExtraUdp {
    /// What the socket is to do after it was told this.
    pub open spec fn answer(self, event: UdpEvent) -> UdpAction {
        match event {
            UdpEvent::Datagram { len, addr } => UdpAction::Deliver {
                start: self.head_reserve,
                end: (self.head_reserve + len) as usize,
                key: RouteKey { index: self.id, addr },
            },
            UdpEvent::ReceiveFailed => UdpAction::Wait,
            UdpEvent::Delivered { taken } => if taken {
                UdpAction::Wait
            } else {
                UdpAction::Leave
            },
            UdpEvent::StatusChanged { status } => match status {
                Status::Cone => if self.is_core {
                    UdpAction::Wait
                } else {
                    UdpAction::Leave
                },
                Status::Symmetric => UdpAction::Wait,
                Status::Close => UdpAction::Leave,
            },
            UdpEvent::StatusLost => UdpAction::Leave,
            UdpEvent::Stopped => UdpAction::Leave,
        }
    }

    /// Whether the datagram stands in the buffer.
    pub open spec fn holds(self, event: UdpEvent) -> bool {
        match event {
            UdpEvent::Datagram { len, .. } => self.head_reserve + len <= BUF_SIZE,
            _ => true,
        }
    }

    /// Takes a socket, to which the system gave the number `socket`, into the channel.
    pub fn open<U>(
        context: &mut Context<U>,
        socket: usize,
        udp: U,
        head_reserve: usize,
        is_core: bool,
    ) -> (extra: ExtraUdp)
        requires
            socket <= usize::MAX - FIRST_EXTRA_ID,
        ensures
            extra == (ExtraUdp {
                id: (FIRST_EXTRA_ID + socket) as usize,
                head_reserve,
                is_core,
            }),
            final(context)@ == (ContextView {
                udps: old(context)@.udps.insert(extra.id, udp),
                ..old(context)@
            }),
            final(context)@ == old(context)@.udp_kept(extra.id, udp),
    {
        let id: usize = FIRST_EXTRA_ID + socket;
        context.insert_udp(id, udp);
        ExtraUdp { id, head_reserve, is_core }
    }

    /// Tells the socket what happened; it says what to do next.
    pub fn on_event(&self, event: UdpEvent) -> (action: UdpAction)
        requires
            self.holds(event),
        ensures
            action == self.answer(event),
    {
        match event {
            UdpEvent::Datagram { len, addr } => UdpAction::Deliver {
                start: self.head_reserve,
                end: self.head_reserve + len,
                key: RouteKey::new(self.id, addr),
            },
            UdpEvent::ReceiveFailed => UdpAction::Wait,
            UdpEvent::Delivered { taken } => if taken {
                UdpAction::Wait
            } else {
                UdpAction::Leave
            },
            UdpEvent::StatusChanged { status } => match status {
                Status::Cone => if !self.is_core {
                    UdpAction::Leave
                } else {
                    UdpAction::Wait
                },
                Status::Symmetric => UdpAction::Wait,
                Status::Close => UdpAction::Leave,
            },
            UdpEvent::StatusLost => UdpAction::Leave,
            UdpEvent::Stopped => UdpAction::Leave,
        }
    }

    /// Takes the socket out of the channel, and says whether all parts of the channel are to stop
    /// with it.
    pub fn leave<U>(self, context: &mut Context<U>) -> (stop_all: bool)
        ensures
            stop_all == self.is_core,
            final(context)@ == (ContextView {
                udps: old(context)@.udps.remove(self.id),
                ..old(context)@
            }),
            final(context)@ == old(context)@.udp_forgotten(self.id),
    {
        context.remove_udp(self.id);
        self.is_core
    }
}

} // verus!
