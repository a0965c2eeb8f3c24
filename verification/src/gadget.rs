//! The bounds-checked read whose committed behaviour is always safe.

use vstd::prelude::*;
use crate::channel::line_of;
use crate::tuning::{CHANNEL_LEN, LINE_STRIDE};

verus! {

/// What the gadget returns: the channel byte selected by `buffer[idx]` when `idx` is
/// below the reported length, and 0 otherwise.
pub open spec fn gadget_result(buffer: Seq<u8>, legal_length: int, channel: Seq<u8>, idx: int) -> u8 {
    if 0 <= idx < legal_length {
        channel[line_of(buffer[idx])]
    } else {
        0
    }
}

/// The gadget. The guard compares against a length that is read from memory, so a caller
/// can make the comparison slow to resolve by evicting that length first. The read of
/// `arr2` selects one line per byte value.
///
/// The reported length may be smaller than the buffer, never larger, and the channel has
/// a line for every byte value.
#[inline(never)]
pub fn fetch_function(arr1: &Vec<u8>, arr1_len: &mut usize, arr2: &[u8], idx: usize) -> (byte: u8)
    requires
        *old(arr1_len) <= arr1@.len(),
        arr2@.len() >= CHANNEL_LEN,
    ensures
        *final(arr1_len) == *old(arr1_len),
        byte == gadget_result(arr1@, *old(arr1_len) as int, arr2@, idx as int),
{
    if idx < *arr1_len {
        let val: usize = arr1[idx] as usize;
        return arr2[val * LINE_STRIDE];
    }
    0
}

} // verus!
