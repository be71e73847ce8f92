//! Packets in a TCP stream: a head of four bytes, the last two of them the packet's length with
//! the more significant byte first, and then the packet.
use vstd::prelude::*;

use crate::error::ChannelError;

verus! {

/// The size of the buffers into which packets are received.
pub const BUF_SIZE: usize = 4096;

/// The size of the smallest packet: its header alone.
pub const MIN_PACKET: usize = 12;

/// The head of a frame for a packet of `len` bytes. It has room for the two low bytes of the
/// length.
pub open spec fn head_of(len: nat) -> Seq<u8> {
    seq![0u8, 0u8, ((len / 256) % 256) as u8, (len % 256) as u8]
}

/// The length that a head announces.
pub open spec fn announced_len(head: Seq<u8>) -> nat {
    (head[2] * 256 + head[3]) as nat
}

/// Whether a packet may have the length `len`.
pub open spec fn packet_len(len: nat) -> bool {
    MIN_PACKET <= len <= BUF_SIZE
}

/// The head of the frame for a packet of `len` bytes.
pub fn frame_head(len: usize) -> (head: [u8; 4])
    ensures
        head@ == head_of(len as nat),
{
    let high: u8 = (len >> 8) as u8;
    let low: u8 = (len & 0xff) as u8;
    assert(((len >> 8usize) as u8) as usize == (len / 256) % 256) by (bit_vector);
    assert(((len & 0xff) as u8) as usize == len % 256) by (bit_vector);
    let head: [u8; 4] = [0, 0, high, low];
    assert(head@ =~= head_of(len as nat));
    head
}

/// The length of the packet behind a head.
pub fn frame_len(head: [u8; 4]) -> (len: Result<usize, ChannelError>)
    ensures
        packet_len(announced_len(head@)) ==> len == Ok::<usize, ChannelError>(
            announced_len(head@) as usize,
        ),
        !packet_len(announced_len(head@)) ==> len == Err::<usize, ChannelError>(
            ChannelError::LengthOverflow,
        ),
{
    let high: u8 = head[2];
    let low: u8 = head[3];
    let len: usize = (((high as u16) << 8u16) | low as u16) as usize;
    assert(((high as u16) << 8u16) | (low as u16) == high * 256 + low) by (bit_vector);
    if len < MIN_PACKET || len > BUF_SIZE {
        Err(ChannelError::LengthOverflow)
    } else {
        Ok(len)
    }
}

/// A head announces the length for which it was made, up to what its two bytes can hold; beyond,
/// what is left of the length after taking away the multiples of `0x10000`.
pub proof fn lemma_head_announces_len(len: nat)
    ensures
        head_of(len).len() == 4,
        announced_len(head_of(len)) == len % 0x1_0000,
        len < 0x1_0000 ==> announced_len(head_of(len)) == len,
{
    assert(((len / 256) % 256) * 256 + len % 256 == len % 0x1_0000) by (nonlinear_arith);
}

} // verus!
