//! The per-value accumulators of one byte's decode, and the choice of the byte they
//! point to.

use vstd::prelude::*;
use crate::tuning::{FIRST_PRINTABLE, LAST_PRINTABLE, PLACEHOLDER, SCORE_CEILING, VALUES};

verus! {

/// An accumulator after `elapsed` cycles were added to it. Accumulators are 32 bits wide
/// and wrap.
pub open spec fn accumulated(score: u32, elapsed: u64) -> u32 {
    ((score as int + elapsed as int) % 0x1_0000_0000) as u32
}

/// 256 accumulators at zero.
pub open spec fn zeroed() -> Seq<u32> {
    Seq::new(VALUES as nat, |value: int| 0u32)
}

/// Whether a byte value lies in the window of values that a decode may return. The
/// window is a choice of policy: the bytes sought are taken to be readable text, and a
/// byte outside the window is never found.
pub open spec fn is_printable(value: int) -> bool {
    FIRST_PRINTABLE <= value <= LAST_PRINTABLE
}

/// `value` is in the window, no value in the window has a lower score, and every lower
/// value in the window has a higher one.
pub open spec fn is_first_minimum(scores: Seq<u32>, value: int) -> bool {
    &&& is_printable(value)
    &&& forall|other: int| is_printable(other) ==> scores[value] <= #[trigger] scores[other]
    &&& forall|other: int|
        is_printable(other) && other < value ==> scores[value] < #[trigger] scores[other]
}

/// Some value in the window scored below the ceiling.
pub open spec fn has_signal(scores: Seq<u32>) -> bool {
    exists|value: int| is_printable(value) && #[trigger] scores[value] < SCORE_CEILING
}

/// A decoded byte with its confidence: the cumulative latency that selected it.
#[derive(Clone, Copy, Debug, PartialEq, Eq, Structural)]
pub struct Guess {
    pub character: u8,
    pub score: u32,
}

/// The byte that a histogram points to: the first value of lowest score in the window,
/// or the placeholder when the window holds no signal.
pub open spec fn best_guess(scores: Seq<u32>) -> Guess {
    if has_signal(scores) {
        let value = choose|value: int| is_first_minimum(scores, value);
        Guess { character: value as u8, score: scores[value] }
    } else {
        Guess { character: PLACEHOLDER, score: SCORE_CEILING }
    }
}

/// At most one value is the first minimum.
pub proof fn lemma_first_minimum_unique(scores: Seq<u32>, a: int, b: int)
    requires
        is_first_minimum(scores, a),
        is_first_minimum(scores, b),
    ensures
        a == b,
{
    if a < b {
        assert(scores[b] < scores[a]);
        assert(scores[a] <= scores[b]);
    } else if b < a {
        assert(scores[a] < scores[b]);
        assert(scores[b] <= scores[a]);
    }
}

/// A first minimum below the ceiling is the guess.
pub proof fn lemma_best_guess_is(scores: Seq<u32>, value: int)
    requires
        is_first_minimum(scores, value),
        scores[value] < SCORE_CEILING,
    ensures
        best_guess(scores) == (Guess { character: value as u8, score: scores[value] }),
{
    assert(has_signal(scores));
    let chosen = choose|chosen: int| is_first_minimum(scores, chosen);
    lemma_first_minimum_unique(scores, chosen, value);
}

/// What the guess is, case by case: with a signal in the window it is the first minimum,
/// with its score, which lies below the ceiling; without one it is the placeholder, with
/// the ceiling for a score.
pub proof fn lemma_best_guess_cases(scores: Seq<u32>)
    ensures
        has_signal(scores) ==> {
            &&& is_first_minimum(scores, best_guess(scores).character as int)
            &&& best_guess(scores).score == scores[best_guess(scores).character as int]
            &&& best_guess(scores).score < SCORE_CEILING
        },
        !has_signal(scores) ==> best_guess(scores) == (Guess {
            character: PLACEHOLDER,
            score: SCORE_CEILING,
        }),
{
    if has_signal(scores) {
        let low = lemma_lowest_in_window(scores, LAST_PRINTABLE as int + 1);
        let witness = choose|value: int| is_printable(value) && #[trigger] scores[value] < SCORE_CEILING;
        assert(scores[low] <= scores[witness]);
        lemma_best_guess_is(scores, low);
    }
}

/// A guess is never a byte outside the window: it is one of the 94 values from `!` to
/// `~`, of which the placeholder is one.
pub proof fn lemma_guess_is_printable(scores: Seq<u32>)
    ensures
        is_printable(best_guess(scores).character as int),
{
    lemma_best_guess_cases(scores);
}

/// The first value of lowest score among the window's values below `end`.
proof fn lemma_lowest_in_window(scores: Seq<u32>, end: int) -> (low: int)
    requires
        FIRST_PRINTABLE < end <= LAST_PRINTABLE + 1,
    ensures
        FIRST_PRINTABLE <= low < end,
        forall|other: int| FIRST_PRINTABLE <= other < end ==> scores[low] <= #[trigger] scores[other],
        forall|other: int| FIRST_PRINTABLE <= other < low ==> scores[low] < #[trigger] scores[other],
    decreases end,
{
    if end == FIRST_PRINTABLE + 1 {
        FIRST_PRINTABLE as int
    } else {
        let before = lemma_lowest_in_window(scores, end - 1);
        if scores[end - 1] < scores[before] {
            end - 1
        } else {
            before
        }
    }
}

/// The guess depends on the window's accumulators alone, and on nothing but their
/// values: two histograms that agree there give the same guess.
pub proof fn lemma_guess_is_determined(a: Seq<u32>, b: Seq<u32>)
    requires
        forall|value: int| is_printable(value) ==> a[value] == b[value],
    ensures
        best_guess(a) == best_guess(b),
{
    lemma_best_guess_cases(a);
    lemma_best_guess_cases(b);
    if has_signal(a) {
        let value = best_guess(a).character as int;
        assert(b[value] < SCORE_CEILING);
        assert(is_first_minimum(b, value)) by {
            assert forall|other: int| is_printable(other) implies b[value] <= #[trigger] b[other] by {
                assert(a[value] <= a[other]);
            }
            assert forall|other: int| is_printable(other) && other < value implies b[value]
                < #[trigger] b[other] by {
                assert(a[value] < a[other]);
            }
        }
        lemma_best_guess_is(b, value);
    } else {
        if has_signal(b) {
            let witness = choose|value: int| is_printable(value) && #[trigger] b[value] < SCORE_CEILING;
            assert(a[witness] < SCORE_CEILING);
        }
    }
}

/// The accumulators of one byte's decode: for each byte value the cycles that loads of
/// its channel line took, summed over the attempts.
pub struct ScoreHistogram {
    scores: Vec<u32>,
}

impl View for ScoreHistogram {
    type V = Seq<u32>;

    closed spec fn view(&self) -> Seq<u32> {
        self.scores@
    }
}

impl ScoreHistogram {
    #[verifier::type_invariant]
    spec fn sized(&self) -> bool {
        self.scores@.len() == VALUES
    }

    /// A histogram with every accumulator at zero.
    pub fn new() -> (histogram: ScoreHistogram)
        ensures
            histogram@ == zeroed(),
    {
        let histogram = ScoreHistogram { scores: vec![0u32; VALUES] };
        assert(histogram.scores@ =~= zeroed());
        histogram
    }

    /// A histogram with the given accumulators, one per byte value.
    pub fn from_scores(scores: Vec<u32>) -> (histogram: Option<ScoreHistogram>)
        ensures
            histogram is Some <==> scores@.len() == VALUES,
            histogram matches Some(h) ==> h@ == scores@,
    {
        if scores.len() == VALUES {
            Some(ScoreHistogram { scores })
        } else {
            None
        }
    }

    /// Sets every accumulator back to zero.
    pub fn reset(&mut self)
        ensures
            final(self)@ == zeroed(),
    {
        proof {
            use_type_invariant(&*self);
        }
        let mut value: usize = 0;
        while value < VALUES
            invariant
                value <= VALUES,
                self.scores@.len() == VALUES,
                forall|done: int| 0 <= done < value ==> self.scores@[done] == 0,
            decreases VALUES - value,
        {
            self.scores[value] = 0;
            value = value + 1;
        }
        assert(self.scores@ =~= zeroed());
    }

    /// Adds the cycles that one load of `value`'s line took.
    pub fn record(&mut self, value: u8, elapsed: u64)
        ensures
            final(self)@.len() == VALUES,
            final(self)@ == old(self)@.update(
                value as int,
                accumulated(old(self)@[value as int], elapsed),
            ),
        no_unwind
    {
        proof {
            use_type_invariant(&*self);
        }
        let low: u32 = (elapsed % 0x1_0000_0000) as u32;
        let slot: usize = value as usize;
        let sum: u32 = ((self.scores[slot] as u64 + low as u64) % 0x1_0000_0000) as u32;
        self.scores[slot] = sum;
    }

    /// The accumulator of `value`.
    pub fn score(&self, value: u8) -> (score: u32)
        ensures
            self@.len() == VALUES,
            score == self@[value as int],
    {
        proof {
            use_type_invariant(self);
        }
        self.scores[value as usize]
    }

    /// The byte that the histogram points to, with its score.
    pub fn decode(&self) -> (guess: Guess)
        ensures
            self@.len() == VALUES,
            guess == best_guess(self@),
            is_printable(guess.character as int),
    {
        proof {
            use_type_invariant(self);
        }
        let mut most_likely: u8 = PLACEHOLDER;
        let mut min_result: u32 = SCORE_CEILING;
        let mut value: usize = 0;
        while value < VALUES
            invariant
                value <= VALUES,
                self.scores@.len() == VALUES,
                min_result <= SCORE_CEILING,
                min_result == SCORE_CEILING ==> most_likely == PLACEHOLDER,
                min_result == SCORE_CEILING ==> forall|seen: int|
                    0 <= seen < value && is_printable(seen) ==> #[trigger] self.scores@[seen]
                        >= SCORE_CEILING,
                min_result < SCORE_CEILING ==> {
                    &&& is_printable(most_likely as int)
                    &&& most_likely < value
                    &&& self.scores@[most_likely as int] == min_result
                    &&& forall|seen: int|
                        0 <= seen < value && is_printable(seen) ==> min_result
                            <= #[trigger] self.scores@[seen]
                    &&& forall|seen: int|
                        0 <= seen < most_likely && is_printable(seen) ==> min_result
                            < #[trigger] self.scores@[seen]
                },
            decreases VALUES - value,
        {
            if self.scores[value] < min_result && value >= FIRST_PRINTABLE as usize && value
                <= LAST_PRINTABLE as usize {
                min_result = self.scores[value];
                most_likely = value as u8;
            }
            value = value + 1;
        }
        proof {
            if min_result < SCORE_CEILING {
                lemma_best_guess_is(self.scores@, most_likely as int);
            } else {
                assert(!has_signal(self.scores@));
            }
        }
        Guess { character: most_likely, score: min_result }
    }
}

} // verus!
