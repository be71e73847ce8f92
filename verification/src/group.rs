//! Received packets handed out to worker threads in turn.
use std::sync::mpsc::{sync_channel, Receiver, SyncSender};
use vstd::prelude::*;

use crate::route::RouteKey;

verus! {

/// A received packet: the buffer, where the packet begins and ends in it, and where it came from.
pub type Packet = (Vec<u8>, usize, usize, RouteKey);

/// The sending half of a bounded channel.
#[verifier::external_type_specification]
#[verifier::external_body]
#[verifier::reject_recursive_types(T)]
pub struct ExSyncSender<T>(SyncSender<T>);

/// The receiving half of a channel.
#[verifier::external_type_specification]
#[verifier::external_body]
#[verifier::reject_recursive_types(T)]
pub struct ExReceiver<T>(Receiver<T>);

/// How many packets wait in front of a worker thread before the sender has to wait.
pub const WAITING: usize = 1;

/// The packets that were sent with a sender, oldest first, each with whether its channel took it.
pub uninterp spec fn sends_of(sender: SyncSender<Packet>) -> Seq<(Packet, bool)>;

/// Whether the receiver gets what the sender hands over.
pub uninterp spec fn connected(sender: SyncSender<Packet>, receiver: Receiver<Packet>) -> bool;

/// How many packets the sender's channel holds at most.
pub uninterp spec fn bound_of(sender: SyncSender<Packet>) -> nat;

/// Calls `std::sync::mpsc::sync_channel`. The two halves belong to each other and to none of the
/// halves that are there already, the channel holds at most `bound` packets, and nothing has been
/// sent yet. A channel makes room for all its packets at once, so only the bound that this module
/// uses is admitted.
#[verifier::external_body]
fn bounded_channel(
    bound: usize,
    senders: &Vec<SyncSender<Packet>>,
    receivers: &Vec<Receiver<Packet>>,
) -> (halves: (SyncSender<Packet>, Receiver<Packet>))
    requires
        bound == WAITING,
    ensures
        connected(halves.0, halves.1),
        forall|i: int|
            0 <= i < receivers@.len() ==> !connected(halves.0, #[trigger] receivers@[i]),
        forall|i: int| 0 <= i < senders@.len() ==> !connected(#[trigger] senders@[i], halves.1),
        bound_of(halves.0) == bound,
        sends_of(halves.0) == Seq::<(Packet, bool)>::empty(),
{
    sync_channel::<Packet>(bound)
}

/// Calls `std::sync::mpsc::SyncSender::send`, which waits while the channel is full. The channel
/// takes the packet if the call succeeds, and the packet is given up if it fails because the
/// receiver is gone; whether that is so rests with the thread that owns the receiver, so nothing
/// is claimed of it. The channel stays the same one.
#[verifier::external_body]
fn hand_over(sender: &mut SyncSender<Packet>, packet: Packet) -> (sent: bool)
    ensures
        sends_of(*final(sender)) == sends_of(*old(sender)).push((packet, sent)),
        bound_of(*final(sender)) == bound_of(*old(sender)),
        forall|receiver: Receiver<Packet>|
            connected(*final(sender), receiver) == connected(*old(sender), receiver),
{
    sender.send(packet).is_ok()
}

/// The sending side of a group of worker threads.
#[derive(Clone)]
pub struct BufSenderGroup(usize, Vec<SyncSender<Packet>>);

/// The receiving side of a group of worker threads, one receiver for each.
pub struct BufReceiverGroup(pub Vec<Receiver<Packet>>);

/// The worker thread that gets the packet of turn `turn` in a group of `size`.
pub open spec fn worker_at(turn: usize, size: nat) -> int {
    turn as int % size as int
}

/// The turn after `turn`. The counter starts over when it has reached its end.
pub open spec fn turn_after(turn: usize) -> usize {
    if turn == usize::MAX {
        0
    } else {
        (turn + 1) as usize
    }
}

impl BufSenderGroup {
    /// The turn of the next packet.
    pub closed spec fn turn(self) -> usize {
        self.0
    }

    /// The senders, one for each worker thread.
    pub closed spec fn senders(self) -> Seq<SyncSender<Packet>> {
        self.1@
    }

    /// The number of worker threads.
    pub open spec fn size(self) -> nat {
        self.senders().len()
    }

    /// The packets that were sent to worker thread `i`, oldest first, each with whether the thread
    /// took it.
    pub open spec fn given(self, i: int) -> Seq<(Packet, bool)> {
        sends_of(self.senders()[i])
    }

    /// Whether `after` is the group after the packet was sent, with `sent` for an answer: the
    /// packet went to the worker thread whose turn it was, and the turn passed on.
    pub open spec fn send_leads_to(self, val: Packet, sent: bool, after: BufSenderGroup) -> bool {
        &&& after.size() == self.size()
        &&& after.turn() == turn_after(self.turn())
        &&& forall|i: int|
            0 <= i < self.size() ==> #[trigger] after.given(i) == (if i == worker_at(
                self.turn(),
                self.size(),
            ) {
                self.given(i).push((val, sent))
            } else {
                self.given(i)
            })
    }

    /// Whether the senders of `after` belong to the same channels as those of this group.
    pub open spec fn same_channels(self, after: BufSenderGroup) -> bool {
        &&& after.size() == self.size()
        &&& forall|i: int, receiver: Receiver<Packet>|
            0 <= i < self.size() ==> connected(#[trigger] after.senders()[i], receiver)
                == #[trigger] connected(self.senders()[i], receiver)
        &&& forall|i: int|
            0 <= i < self.size() ==> bound_of(#[trigger] after.senders()[i]) == bound_of(
                self.senders()[i],
            )
    }

    /// The worker thread whose turn it is. The turn passes on to the next one.
    pub fn take_turn(&mut self) -> (index: usize)
        requires
            old(self).size() > 0,
        ensures
            index == worker_at(old(self).turn(), old(self).size()),
            final(self).turn() == turn_after(old(self).turn()),
            final(self).senders() == old(self).senders(),
    {
        let index: usize = self.0 % self.1.len();
        self.0 = self.0.wrapping_add(1);
        index
    }

    /// Sends a packet to the worker thread whose turn it is, and says whether that thread still
    /// takes packets.
    pub fn send(&mut self, val: Packet) -> (sent: bool)
        requires
            old(self).size() > 0,
        ensures
            old(self).send_leads_to(val, sent, *final(self)),
            old(self).same_channels(*final(self)),
    {
        let index: usize = self.take_turn();
        hand_over(&mut self.1[index], val)
    }
}

/// Whether the two sides are those of `size` channels of their own, with which nothing was sent
/// yet: what sender `i` sends reaches receiver `i` and no other.
pub open spec fn fresh_group(
    senders: BufSenderGroup,
    receivers: BufReceiverGroup,
    size: nat,
) -> bool {
    &&& senders.size() == size
    &&& receivers.0@.len() == size
    &&& senders.turn() == 0
    &&& forall|i: int|
        0 <= i < size ==> #[trigger] senders.given(i) == Seq::<(Packet, bool)>::empty()
    &&& forall|i: int| 0 <= i < size ==> bound_of(#[trigger] senders.senders()[i]) == WAITING
    &&& forall|i: int, j: int|
        0 <= i < size && 0 <= j < size ==> connected(
            #[trigger] senders.senders()[i],
            #[trigger] receivers.0@[j],
        ) == (i == j)
}

/// A group of `size` channels: the sending side and the receiving side.
pub fn buf_channel_group(size: usize) -> (groups: (BufSenderGroup, BufReceiverGroup))
    ensures
        fresh_group(groups.0, groups.1, size as nat),
{
    let mut senders: Vec<SyncSender<Packet>> = Vec::new();
    let mut receivers: Vec<Receiver<Packet>> = Vec::new();
    let mut i: usize = 0;
    while i < size
        invariant
            i <= size,
            senders.len() == i,
            receivers.len() == i,
            forall|j: int|
                0 <= j < i ==> bound_of(#[trigger] senders[j]) == WAITING && sends_of(senders[j])
                    == Seq::<(Packet, bool)>::empty(),
            forall|j: int, k: int|
                0 <= j < i && 0 <= k < i ==> connected(
                    #[trigger] senders[j],
                    #[trigger] receivers[k],
                ) == (j == k),
        decreases size - i,
    {
        let (sender, receiver) = bounded_channel(WAITING, &senders, &receivers);
        senders.push(sender);
        receivers.push(receiver);
        i = i + 1;
    }
    (BufSenderGroup(0, senders), BufReceiverGroup(receivers))
}

} // verus!
