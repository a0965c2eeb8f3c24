//! The covert-channel buffer: one line per byte value.
//!
//! Which line of the buffer is cached, not what the buffer holds, carries a byte from a
//! load that was never committed to the loads that are timed afterwards.

use vstd::prelude::*;
use crate::tuning::{CHANNEL_LEN, LINE_STRIDE};

verus! {

/// The offset at which the line of `value` starts.
pub open spec fn line_of(value: u8) -> int {
    value as int * LINE_STRIDE as int
}

/// The lines of two byte values lie at least a stride apart, and every line lies
/// within the buffer.
pub proof fn lemma_lines_are_apart(a: u8, b: u8)
    ensures
        0 <= line_of(a) <= CHANNEL_LEN - LINE_STRIDE,
        a < b ==> line_of(a) + LINE_STRIDE <= line_of(b),
        line_of(a) == line_of(b) ==> a == b,
{
}

/// The offset at which the line of `value` starts.
pub fn line_offset(value: u8) -> (offset: usize)
    ensures
        offset == line_of(value),
        offset < CHANNEL_LEN,
{
    (value as usize) * LINE_STRIDE
}

/// A channel buffer in which every byte has been written, so that every line is backed
/// by memory of its own rather than by a shared page of zeros.
pub fn touched_channel() -> (channel: Vec<u8>)
    ensures
        channel@.len() == CHANNEL_LEN,
        forall|at: int| 0 <= at < CHANNEL_LEN ==> channel@[at] == 1,
{
    let channel: Vec<u8> = vec![1u8; CHANNEL_LEN];
    channel
}

} // verus!
