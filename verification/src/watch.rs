//! The start of a channel, and how it follows its status.
use vstd::prelude::*;

use crate::group::{buf_channel_group, fresh_group, BufReceiverGroup, BufSenderGroup};
use crate::route::Status;

verus! {

/// The worker threads' two sides, if packets are handled in parallel at all: by more than one
/// thread.
pub fn worker_group(parallel: usize) -> (group: Option<(BufSenderGroup, BufReceiverGroup)>)
    ensures
        group is Some <==> parallel > 1,
        group matches Some((senders, receivers)) ==> fresh_group(
            senders,
            receivers,
            parallel as nat,
        ),
{
    if parallel > 1 {
        Some(buf_channel_group(parallel))
    } else {
        None
    }
}

/// What a started channel may be told.
#[derive(Clone, Copy, Debug, PartialEq, Eq, Structural)]
pub enum WatchEvent {
    /// All parts of the channel are to stop.
    Stopped,
    /// The status of the channel changed.
    StatusChanged { status: Status },
    /// The status of the channel can no longer be told.
    StatusLost,
}

/// What a started channel is to do next.
#[derive(Clone, Copy, Debug, PartialEq, Eq, Structural)]
pub enum WatchAction {
    /// Wait for what comes next.
    Wait,
    /// Try `count` times to open an extra socket, start each one that can be had, and wait for what
    /// comes next. `is_core` tells whether the channel cannot do without these sockets.
    Open { count: usize, is_core: bool },
    /// Tell all parts of the channel to stop, and end.
    StopAll,
    /// End.
    End,
}

/// The status before the one at `i`; `first` comes before all of them.
pub open spec fn status_before(first: Status, statuses: Seq<Status>, i: int) -> Status {
    if i == 0 {
        first
    } else {
        statuses[i - 1]
    }
}

/// The places at which the status becomes symmetric, having been another one.
pub open spec fn changes_to_symmetric(first: Status, statuses: Seq<Status>) -> Set<int> {
    vstd::set_lib::set_int_range(0, statuses.len() as int).filter(
        |i: int|
            statuses[i] == Status::Symmetric && status_before(first, statuses, i)
                != Status::Symmetric,
    )
}

/// How a started channel follows its status.
#[derive(Clone, Copy, Debug, PartialEq, Eq, Structural)]
pub struct StatusWatch {
    /// The status that the channel has adapted to.
    pub current: Status,
    /// How many extra sockets a symmetric network address translation calls for.
    pub symmetric_channel_num: usize,
    /// Whether the channel goes through relays only, and its status is of no account.
    pub relay: bool,
}

impl StatusWatch {
    /// Whether the channel can be told this.
    pub open spec fn expects(self, event: WatchEvent) -> bool {
        self.relay ==> event is Stopped
    }

    /// The channel after it was told this.
    pub open spec fn after(self, event: WatchEvent) -> StatusWatch {
        match event {
            WatchEvent::StatusChanged { status } => if status == Status::Close {
                self
            } else {
                StatusWatch { current: status, ..self }
            },
            _ => self,
        }
    }

    /// What the channel is to do after it was told this.
    pub open spec fn answer(self, event: WatchEvent) -> WatchAction {
        match event {
            WatchEvent::Stopped => if self.relay {
                WatchAction::End
            } else {
                WatchAction::StopAll
            },
            WatchEvent::StatusChanged { status } => match status {
                Status::Cone => WatchAction::Wait,
                Status::Symmetric => if self.current == Status::Symmetric {
                    WatchAction::Wait
                } else {
                    WatchAction::Open { count: self.symmetric_channel_num, is_core: false }
                },
                Status::Close => WatchAction::StopAll,
            },
            WatchEvent::StatusLost => WatchAction::StopAll,
        }
    }

    /// The channel after it was told of the statuses one after the other.
    pub open spec fn after_all(self, statuses: Seq<Status>) -> StatusWatch
        decreases statuses.len(),
    {
        if statuses.len() == 0 {
            self
        } else {
            self.after_all(statuses.drop_last()).after(
                WatchEvent::StatusChanged { status: statuses.last() },
            )
        }
    }

    /// How many extra sockets the channel asks for while it is told of the statuses one after the
    /// other.
    pub open spec fn asked_for(self, statuses: Seq<Status>) -> int
        decreases statuses.len(),
    {
        if statuses.len() == 0 {
            0
        } else {
            let answer = self.after_all(statuses.drop_last()).answer(
                WatchEvent::StatusChanged { status: statuses.last() },
            );
            self.asked_for(statuses.drop_last()) + (match answer {
                WatchAction::Open { count, .. } => count as int,
                _ => 0,
            })
        }
    }

    /// A channel that has just been started.
    pub fn new(symmetric_channel_num: usize, relay: bool) -> (watch: StatusWatch)
        ensures
            watch == (StatusWatch { current: Status::Cone, symmetric_channel_num, relay }),
    {
        StatusWatch { current: Status::Cone, symmetric_channel_num, relay }
    }

    /// Tells the channel what happened; it says what to do next.
    pub fn on_event(&mut self, event: WatchEvent) -> (action: WatchAction)
        requires
            old(self).expects(event),
        ensures
            *final(self) == old(self).after(event),
            action == old(self).answer(event),
    {
        match event {
            WatchEvent::Stopped => if self.relay {
                WatchAction::End
            } else {
                WatchAction::StopAll
            },
            WatchEvent::StatusChanged { status } => match status {
                Status::Cone => {
                    self.current = Status::Cone;
                    WatchAction::Wait
                },
                Status::Symmetric => {
                    if self.current == Status::Symmetric {
                        return WatchAction::Wait;
                    }
                    self.current = Status::Symmetric;
                    WatchAction::Open { count: self.symmetric_channel_num, is_core: false }
                },
                Status::Close => WatchAction::StopAll,
            },
            WatchEvent::StatusLost => WatchAction::StopAll,
        }
    }
}

} // verus!
