//! An accumulator that every timing-sensitive value is folded into, so that no such value
//! is dead to an optimiser.

use vstd::prelude::*;

verus! {

/// The mask that a stirring step folds in.
pub const STIR_MASK: u8 = 0x5a;

/// `a - b` on bytes, wrapping at 256.
pub open spec fn byte_sub(a: u8, b: u8) -> u8 {
    ((a as int - b as int) % 256) as u8
}

/// The accumulator after it has taken in `value`: the value minus what was there.
/// Subtraction is neither associative nor commutative, so the order of the absorbed
/// values is part of the result.
pub open spec fn absorbed(sum: u8, value: u8) -> u8 {
    byte_sub(value, sum)
}

/// The order in which two values are absorbed shows in the sink, unless the two differ
/// by a multiple of 128.
pub proof fn lemma_absorb_order_matters(sum: u8, a: u8, b: u8)
    ensures
        absorbed(absorbed(sum, a), b) == absorbed(absorbed(sum, b), a) <==> (a as int - b as int)
            % 128 == 0,
{
    let first = absorbed(sum, a) as int;
    let second = absorbed(sum, b) as int;
    assert(first == a - sum || first == a - sum + 256);
    assert(second == b - sum || second == b - sum + 256);
    let one = absorbed(absorbed(sum, a), b) as int;
    let other = absorbed(absorbed(sum, b), a) as int;
    assert(one == b - first || one == b - first + 256);
    assert(other == a - second || other == a - second + 256);
    let apart = a as int - b as int;
    assert(apart % 128 == 0 <==> apart == -128 || apart == 0 || apart == 128);
}

/// One stirring step.
pub open spec fn stirred_once(sum: u8) -> u8 {
    byte_sub(sum, sum ^ STIR_MASK)
}

/// The accumulator after `steps` stirring steps.
pub open spec fn stirred(sum: u8, steps: nat) -> u8
    decreases steps,
{
    if steps == 0 {
        sum
    } else {
        stirred_once(stirred(sum, (steps - 1) as nat))
    }
}

/// The observability sink.
#[derive(Clone, Copy, Debug, PartialEq, Eq, Structural)]
pub struct Sink {
    pub sum: u8,
}

impl Sink {
    /// An empty sink.
    pub fn new() -> (sink: Sink)
        ensures
            sink.sum == 0,
    {
        Sink { sum: 0 }
    }

    /// Folds one observed byte into the sink.
    pub fn absorb(&mut self, value: u8)
        ensures
            final(self).sum == absorbed(old(self).sum, value),
        no_unwind
    {
        self.sum = ((value as u16 + 256 - self.sum as u16) % 256) as u8;
    }

    /// Spends time on `steps` dependent arithmetic steps that cannot be folded away,
    /// since each one feeds the sink.
    pub fn stir(&mut self, steps: u64)
        ensures
            final(self).sum == stirred(old(self).sum, steps as nat),
        no_unwind
    {
        let mut done: u64 = 0;
        while done < steps
            invariant
                done <= steps,
                self.sum == stirred(old(self).sum, done as nat),
            decreases steps - done,
        {
            let mask: u8 = self.sum ^ STIR_MASK;
            self.sum = ((self.sum as u16 + 256 - mask as u16) % 256) as u8;
            done = done + 1;
        }
    }

    /// The accumulated byte.
    pub fn value(&self) -> (sum: u8)
        ensures
            sum == self.sum,
    {
        self.sum
    }
}

} // verus!
