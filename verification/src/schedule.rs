//! Which invocations of the training phase carry the out-of-bounds index.
//!
//! The gadget's guard is trained on in-bounds indices; every so often the index that
//! lies past the buffer is slipped in, at a moment when the predictor has just seen a
//! run of accepted indices.

use vstd::prelude::*;
use vstd::arithmetic::div_mod::{lemma_fundamental_div_mod, lemma_fundamental_div_mod_converse};
use crate::probe::{builtin_probe_order, is_probe_order, probe_table};
use crate::tuning::{ATTACK_LEAP, TRAINING_LOOPS};

verus! {

/// A schedule of `loops` entries that is true at the multiples of `leap` and nowhere
/// else.
pub open spec fn is_schedule(schedule: Seq<bool>, loops: nat, leap: nat) -> bool {
    &&& schedule.len() == loops
    &&& forall|at: int| 0 <= at < loops ==> schedule[at] == (at % (leap as int) == 0)
}

/// The number of true entries.
pub open spec fn attacks(schedule: Seq<bool>) -> nat
    decreases schedule.len(),
{
    if schedule.len() == 0 {
        0
    } else {
        attacks(schedule.drop_last()) + if schedule.last() {
            1nat
        } else {
            0nat
        }
    }
}

/// A schedule holds one true entry for each started run of `leap` entries.
pub proof fn lemma_attack_count(schedule: Seq<bool>, loops: nat, leap: nat)
    requires
        leap > 0,
        is_schedule(schedule, loops, leap),
    ensures
        attacks(schedule) == (loops + leap - 1) / (leap as int),
    decreases loops,
{
    let d = leap as int;
    if loops == 0 {
        lemma_fundamental_div_mod_converse(d - 1, d, 0, d - 1);
    } else {
        let m = loops as int - 1;
        let rest = schedule.drop_last();
        assert(is_schedule(rest, m as nat, leap));
        lemma_attack_count(rest, m as nat, leap);
        let q = m / d;
        let r = m % d;
        lemma_fundamental_div_mod(m, d);
        assert(d * q == q * d) by (nonlinear_arith);
        assert((q + 1) * d == q * d + d) by (nonlinear_arith);
        if r == 0 {
            lemma_fundamental_div_mod_converse(m + d - 1, d, q, d - 1);
            lemma_fundamental_div_mod_converse(m + d, d, q + 1, 0);
        } else {
            lemma_fundamental_div_mod_converse(m + d - 1, d, q + 1, r - 1);
            lemma_fundamental_div_mod_converse(m + d, d, q + 1, r);
        }
    }
}

/// Where the leap divides the number of entries, the schedule holds exactly
/// `loops / leap` true entries, each at a multiple of the leap.
pub proof fn lemma_attacks_of_even_schedule(schedule: Seq<bool>, loops: nat, leap: nat)
    requires
        leap > 0,
        loops % leap == 0,
        is_schedule(schedule, loops, leap),
    ensures
        attacks(schedule) == loops / leap,
        forall|at: int| 0 <= at < loops && schedule[at] ==> at % (leap as int) == 0,
{
    let d = leap as int;
    let q = loops as int / d;
    lemma_attack_count(schedule, loops, leap);
    lemma_fundamental_div_mod(loops as int, d);
    assert(d * q == q * d) by (nonlinear_arith);
    lemma_fundamental_div_mod_converse(loops + d - 1, d, q, d - 1);
}

/// The schedule of `loops` entries with the given leap.
pub fn training_schedule(loops: usize, leap: usize) -> (schedule: Vec<bool>)
    requires
        leap > 0,
    ensures
        is_schedule(schedule@, loops as nat, leap as nat),
        attacks(schedule@) == (loops + leap - 1) / (leap as int),
{
    let mut schedule: Vec<bool> = Vec::new();
    let mut at: usize = 0;
    while at < loops
        invariant
            leap > 0,
            at <= loops,
            is_schedule(schedule@, at as nat, leap as nat),
        decreases loops - at,
    {
        schedule.push(at % leap == 0);
        at = at + 1;
    }
    proof {
        lemma_attack_count(schedule@, loops as nat, leap as nat);
    }
    schedule
}

/// The two tables that an experiment is set up with: the training schedule and the probe
/// order.
pub fn init_attack() -> (tables: (Vec<bool>, Vec<u8>))
    ensures
        is_schedule(tables.0@, TRAINING_LOOPS as nat, ATTACK_LEAP as nat),
        attacks(tables.0@) == TRAINING_LOOPS / ATTACK_LEAP,
        tables.1@ == probe_table(),
        is_probe_order(tables.1@),
{
    let is_attack = training_schedule(TRAINING_LOOPS, ATTACK_LEAP);
    let attack_pattern = builtin_probe_order();
    (is_attack, attack_pattern)
}

} // verus!
