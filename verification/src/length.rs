//! The length that the buffer reports.
//!
//! The guard of the gadget compares against a length that is kept apart from the
//! buffer. It is set once, to a random length that is shorter than the buffer, and never
//! written again.

use rand::Rng;
use vstd::prelude::*;

verus! {

/// The length reported for a buffer of `capacity` bytes when the random word drawn is
/// `word`: at least one byte, and at least one byte short of the buffer.
pub open spec fn reported(word: usize, capacity: usize) -> int {
    word as int % (capacity as int - 1) + 1
}

/// Draws a word from the thread's random number generator: `rand::thread_rng()`, and on
/// it `rand::Rng::gen` for `usize`. Nothing is claimed of the word drawn.
#[verifier::external_body]
fn random_word() -> (word: usize) {
    rand::thread_rng().gen::<usize>()
}

/// The length to report for a buffer of `capacity` bytes, given a random word.
pub fn reported_length(word: usize, capacity: usize) -> (len: usize)
    requires
        capacity >= 2,
    ensures
        len == reported(word, capacity),
        1 <= len < capacity,
{
    word % (capacity - 1) + 1
}

/// A random length to report for a buffer of `capacity` bytes. Which one it is depends
/// on the word drawn; whatever is drawn, the length is not zero and lies below the
/// capacity.
pub fn pick_reported_length(capacity: usize) -> (len: usize)
    requires
        capacity >= 2,
    ensures
        1 <= len < capacity,
{
    let word = random_word();
    reported_length(word, capacity)
}

} // verus!
