//! The tunable constants of an experiment.

use vstd::prelude::*;

verus! {

/// Attempts per byte are numbered from `NUM_TRIES - 1` down to 1.
pub const NUM_TRIES: u64 = 1000;

/// Gadget invocations in the training phase of one attempt.
pub const TRAINING_LOOPS: usize = 100;

/// Every `ATTACK_LEAP`-th invocation carries the out-of-bounds index.
pub const ATTACK_LEAP: usize = 10;

/// Stirring steps between evicting the reported length and the fence that follows.
pub const INBETWEEN_DELAY: u64 = 100;

/// Distance in bytes between the channel lines of two neighbouring byte values.
pub const LINE_STRIDE: usize = 512;

/// Number of byte values, and so of channel lines and of accumulators.
pub const VALUES: usize = 256;

/// Length of the covert-channel buffer.
pub const CHANNEL_LEN: usize = 256 * 512;

/// Lowest byte value that a decode may return.
pub const FIRST_PRINTABLE: u8 = 33;

/// Highest byte value that a decode may return.
pub const LAST_PRINTABLE: u8 = 126;

/// What a decode returns when no printable value scored below the ceiling: `?`.
pub const PLACEHOLDER: u8 = 63;

/// A cumulative latency at or above this is not taken as a signal.
pub const SCORE_CEILING: u32 = 9_999_999;

/// A run is abandoned once fewer than one guess in `ABANDON_RATIO` was right.
pub const ABANDON_RATIO: usize = 10;

} // verus!
