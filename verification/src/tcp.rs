//! The TCP connection to the server: how it is read and how it is kept up.
use vstd::prelude::*;

use crate::addr::SocketAddr;
use crate::error::ChannelError;
use crate::frame::{announced_len, frame_len, packet_len, BUF_SIZE};
use crate::route::{RouteKey, TCP_ID};

verus! {

/// What a reader waits for.
#[derive(Clone, Copy, Debug, PartialEq, Eq, Structural)]
pub enum TcpStage {
    /// The next round.
    Round,
    /// The head of a frame.
    Head,
    /// A packet of `len` bytes.
    Body { len: usize },
    /// Nothing: the reader has come to its end.
    Ended,
}

/// What a reader is told.
#[derive(Clone, Copy, Debug, PartialEq, Eq)]
pub enum TcpEvent {
    /// A round begins; `closed` tells whether the channel is closed.
    Round { closed: bool },
    /// The head of a frame was read.
    HeadRead { head: [u8; 4] },
    /// The packet was read to its place in the buffer.
    BodyRead,
    /// The connection could not be read.
    ReadFailed,
}

/// What a reader asks for.
#[derive(Clone, Copy, Debug, PartialEq, Eq, Structural)]
pub enum TcpAction {
    /// Read the four bytes of a head.
    ReadHead,
    /// Read a packet to the bytes from `start` up to `end` of a fresh buffer.
    ReadBody { start: usize, end: usize },
    /// Handle the packet between `start` and `end` of the buffer, which came from `key`, and begin
    /// the next round.
    Handle { start: usize, end: usize, key: RouteKey },
    /// Stop reading: the channel is closed.
    Finish,
    /// Stop reading with this error.
    Fail { error: ChannelError },
    /// Stop reading with the error of the connection.
    FailRead,
}

/// The head at the beginning of the bytes.
pub open spec fn head_in(bytes: Seq<u8>) -> [u8; 4] {
    [bytes[0], bytes[1], bytes[2], bytes[3]]
}

/// A reader of the TCP connection to the server.
#[derive(Clone, Copy, Debug, PartialEq, Eq, Structural)]
pub struct TcpReader {
    /// Where the packets come from.
    pub key: RouteKey,
    /// How many bytes are left free in front of a packet.
    pub head_reserve: usize,
    /// What the reader waits for.
    pub stage: TcpStage,
}

impl TcpReader {
    /// Whether a packet with this head fits behind the free bytes, or is refused for its length.
    pub open spec fn has_room(self, head: Seq<u8>) -> bool {
        packet_len(announced_len(head)) ==> self.head_reserve + announced_len(head) <= BUF_SIZE
    }

    /// Whether the reader can be told this now.
    pub open spec fn expects(self, event: TcpEvent) -> bool {
        match (self.stage, event) {
            (TcpStage::Round, TcpEvent::Round { .. }) => true,
            (TcpStage::Head, TcpEvent::HeadRead { head }) => self.has_room(head@),
            (TcpStage::Head, TcpEvent::ReadFailed) => true,
            (TcpStage::Body { len }, TcpEvent::BodyRead) => self.head_reserve + len <= BUF_SIZE,
            (TcpStage::Body { .. }, TcpEvent::ReadFailed) => true,
            _ => false,
        }
    }

    /// What the reader waits for after it was told this.
    pub open spec fn next_stage(self, event: TcpEvent) -> TcpStage {
        match event {
            TcpEvent::Round { closed } => if closed {
                TcpStage::Ended
            } else {
                TcpStage::Head
            },
            TcpEvent::HeadRead { head } => if packet_len(announced_len(head@)) {
                TcpStage::Body { len: announced_len(head@) as usize }
            } else {
                TcpStage::Ended
            },
            TcpEvent::BodyRead => TcpStage::Round,
            TcpEvent::ReadFailed => TcpStage::Ended,
        }
    }

    /// What the reader asks for after it was told this.
    pub open spec fn answer(self, event: TcpEvent) -> TcpAction {
        match event {
            TcpEvent::Round { closed } => if closed {
                TcpAction::Finish
            } else {
                TcpAction::ReadHead
            },
            TcpEvent::HeadRead { head } => if packet_len(announced_len(head@)) {
                TcpAction::ReadBody {
                    start: self.head_reserve,
                    end: (self.head_reserve + announced_len(head@)) as usize,
                }
            } else {
                TcpAction::Fail { error: ChannelError::LengthOverflow }
            },
            TcpEvent::BodyRead => TcpAction::Handle {
                start: self.head_reserve,
                end: (self.head_reserve + self.stage->len) as usize,
                key: self.key,
            },
            TcpEvent::ReadFailed => TcpAction::FailRead,
        }
    }

    /// The reader after it was told this.
    pub open spec fn told(self, event: TcpEvent) -> TcpReader {
        TcpReader { stage: self.next_stage(event), ..self }
    }

    /// The packets that the reader hands on from the bytes of a connection, each with where it came
    /// from, as long as the channel is open, it can be told of what it reads, and the bytes last.
    pub open spec fn handed_on(self, bytes: Seq<u8>) -> Seq<(RouteKey, Seq<u8>)>
        decreases bytes.len(),
    {
        let round = self.told(TcpEvent::Round { closed: false });
        let head = TcpEvent::HeadRead { head: head_in(bytes) };
        if bytes.len() < 4 || !self.expects(TcpEvent::Round { closed: false }) || !round.expects(
            head,
        ) {
            Seq::empty()
        } else {
            match (round.answer(head), round.told(head).answer(TcpEvent::BodyRead)) {
                (
                    TcpAction::ReadBody { start, end },
                    TcpAction::Handle { start: from, end: to, key },
                ) => if start <= end && 4 + end - start <= bytes.len() && from == start && to
                    == end {
                    seq![(key, bytes.subrange(4, 4 + end - start))] + round.told(head).told(
                        TcpEvent::BodyRead,
                    ).handed_on(bytes.skip(4 + end - start))
                } else {
                    Seq::empty()
                },
                _ => Seq::empty(),
            }
        }
    }

    /// A reader of the connection to `addr` that leaves `head_reserve` bytes free in front of each
    /// packet.
    pub fn new(addr: SocketAddr, head_reserve: usize) -> (reader: TcpReader)
        ensures
            reader == (TcpReader {
                key: RouteKey { index: TCP_ID, addr },
                head_reserve,
                stage: TcpStage::Round,
            }),
    {
        TcpReader { key: RouteKey::new(TCP_ID, addr), head_reserve, stage: TcpStage::Round }
    }

    /// Whether a packet with this head fits behind the free bytes, or is refused for its length.
    pub fn fits(&self, head: [u8; 4]) -> (fits: bool)
        ensures
            fits == self.has_room(head@),
    {
        match frame_len(head) {
            Ok(len) => self.head_reserve <= BUF_SIZE && len <= BUF_SIZE - self.head_reserve,
            Err(_) => true,
        }
    }

    /// Tells the reader what happened; it says what to do next.
    pub fn step(&mut self, event: TcpEvent) -> (action: TcpAction)
        requires
            old(self).expects(event),
        ensures
            *final(self) == old(self).told(event),
            action == old(self).answer(event),
    {
        match event {
            TcpEvent::Round { closed } => {
                if closed {
                    self.stage = TcpStage::Ended;
                    TcpAction::Finish
                } else {
                    self.stage = TcpStage::Head;
                    TcpAction::ReadHead
                }
            },
            TcpEvent::HeadRead { head } => {
                match frame_len(head) {
                    Ok(len) => {
                        self.stage = TcpStage::Body { len };
                        TcpAction::ReadBody {
                            start: self.head_reserve,
                            end: self.head_reserve + len,
                        }
                    },
                    Err(error) => {
                        self.stage = TcpStage::Ended;
                        TcpAction::Fail { error }
                    },
                }
            },
            TcpEvent::BodyRead => {
                let len: usize = match self.stage {
                    TcpStage::Body { len } => len,
                    _ => 0,
                };
                self.stage = TcpStage::Round;
                TcpAction::Handle {
                    start: self.head_reserve,
                    end: self.head_reserve + len,
                    key: self.key,
                }
            },
            TcpEvent::ReadFailed => {
                self.stage = TcpStage::Ended;
                TcpAction::FailRead
            },
        }
    }
}

/// How long a write may take before it fails, in seconds.
pub const WRITE_TIMEOUT: u64 = 3;

/// How long a read may take before it fails, in seconds.
pub const READ_TIMEOUT: u64 = 10;

/// How long to wait before the next attempt to connect, in seconds.
pub const RECONNECT_PAUSE: u64 = 3;

/// What happened to the connection to the server.
#[derive(Clone, Copy, Debug, PartialEq, Eq, Structural)]
pub enum LinkEvent {
    /// There is a connection to use.
    Installed,
    /// The options of the connection were set, as far as they could be.
    Configured,
    /// Reading came to its end, for whatever reason.
    ReaderEnded,
    /// The connection was shut down, as far as it could be; `closed` tells whether the channel
    /// is closed.
    ShutDown { closed: bool },
    /// A new connection was made.
    Connected,
    /// No new connection could be made.
    ConnectFailed,
    /// The pause is over; `closed` tells whether the channel is closed.
    Paused { closed: bool },
}

/// What to do with the connection to the server.
#[derive(Clone, Copy, Debug, PartialEq, Eq, Structural)]
pub enum LinkAction {
    /// Set the options of the connection: send small packets at once, or not, and how many seconds
    /// a write and a read may take.
    Configure { nodelay: bool, write_timeout: u64, read_timeout: u64 },
    /// Read until the reader comes to its end.
    Read,
    /// Shut the connection down in both directions.
    ShutDown,
    /// Connect to the server.
    Connect,
    /// Use the new connection for reading and for sending.
    Install,
    /// Wait for this many seconds.
    Pause { seconds: u64 },
    /// Give the connection up.
    Return,
}

/// What to do after something happened to the connection to the server.
pub open spec fn link_answer(event: LinkEvent) -> LinkAction {
    match event {
        LinkEvent::Installed => LinkAction::Configure {
            nodelay: true,
            write_timeout: WRITE_TIMEOUT,
            read_timeout: READ_TIMEOUT,
        },
        LinkEvent::Configured => LinkAction::Read,
        LinkEvent::ReaderEnded => LinkAction::ShutDown,
        LinkEvent::ShutDown { closed } => if closed {
            LinkAction::Return
        } else {
            LinkAction::Connect
        },
        LinkEvent::Connected => LinkAction::Install,
        LinkEvent::ConnectFailed => LinkAction::Pause { seconds: RECONNECT_PAUSE },
        LinkEvent::Paused { closed } => if closed {
            LinkAction::Return
        } else {
            LinkAction::Connect
        },
    }
}

/// What to do after something happened to the connection to the server: it is read until it
/// breaks, and then made anew until the channel is closed.
pub fn keep_link(event: LinkEvent) -> (action: LinkAction)
    ensures
        action == link_answer(event),
{
    match event {
        LinkEvent::Installed => LinkAction::Configure {
            nodelay: true,
            write_timeout: WRITE_TIMEOUT,
            read_timeout: READ_TIMEOUT,
        },
        LinkEvent::Configured => LinkAction::Read,
        LinkEvent::ReaderEnded => LinkAction::ShutDown,
        LinkEvent::ShutDown { closed } => if closed {
            LinkAction::Return
        } else {
            LinkAction::Connect
        },
        LinkEvent::Connected => LinkAction::Install,
        LinkEvent::ConnectFailed => LinkAction::Pause { seconds: RECONNECT_PAUSE },
        LinkEvent::Paused { closed } => if closed {
            LinkAction::Return
        } else {
            LinkAction::Connect
        },
    }
}

} // verus!
