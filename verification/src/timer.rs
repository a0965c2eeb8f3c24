//! Arithmetic on readings of the cycle counter.

use vstd::prelude::*;

verus! {

/// The 64-bit reading that the counter instruction leaves as two 32-bit halves.
pub open spec fn reading(high: u32, low: u32) -> int {
    high as int * 0x1_0000_0000 + low as int
}

/// Joins the two halves of a counter reading.
pub fn cycle_count(high: u32, low: u32) -> (count: u64)
    ensures
        count as int == reading(high, low),
{
    let count: u64 = (high as u64) << 32 | low as u64;
    assert(((high as u64) << 32 | low as u64) == (high as u64) * 0x1_0000_0000 + (low as u64))
        by (bit_vector);
    count
}

/// The cycles between two readings of a counter that wraps at 2^64.
pub open spec fn cycles_between(before: u64, after: u64) -> int {
    (after as int - before as int) % 0x1_0000_0000_0000_0000
}

/// Cycles elapsed from `before` to `after`; for a counter that did not wrap in between,
/// this is the plain difference.
pub fn elapsed(before: u64, after: u64) -> (cycles: u64)
    ensures
        cycles as int == cycles_between(before, after),
        before <= after ==> cycles == after - before,
{
    after.wrapping_sub(before)
}

} // verus!
