//! The extraction of one byte, as a step function.
//!
//! Reading one byte takes many attempts. Each attempt evicts the channel, trains the
//! gadget's guard while slipping in the out-of-bounds index, and then times a load of
//! every channel line. The instructions that evict, fence and time are the caller's; the
//! reader says which one comes next and takes in what came back.

use vstd::prelude::*;
use crate::channel::{line_of, line_offset};
use crate::histogram::{accumulated, zeroed, ScoreHistogram};
use crate::probe::{is_probe_order, lemma_order_visits_each_value_once, probe_order_ok};
use crate::sink::{absorbed, stirred, Sink};
use crate::tuning::{INBETWEEN_DELAY, NUM_TRIES, VALUES};

verus! {

/// What the caller is to do next.
#[derive(Clone, Copy, Debug, PartialEq, Eq, Structural)]
pub enum Action {
    /// Evict the channel line that starts at `offset`.
    FlushSlot { offset: usize },
    /// Evict the line that holds the reported length of the buffer.
    FlushLength,
    /// Wait until all earlier loads, stores and evictions have completed.
    Fence,
    /// Evict the line that holds the buffer's own descriptor.
    FlushDescriptor,
    /// Call the gadget with `idx` and report the byte it returns.
    Invoke { idx: usize },
    /// Time one load of the channel byte at `offset`, the line of `value`, and report
    /// the byte loaded and the cycles taken.
    Probe { value: u8, offset: usize },
    /// Nothing is left to do. `sum` is what the sink holds.
    Finish { sum: u8 },
}

/// What came of the action that the caller performed.
#[derive(Clone, Copy, Debug, PartialEq, Eq, Structural)]
pub enum Event {
    /// An eviction or a fence was issued.
    Done,
    /// The gadget returned `byte`.
    Returned { byte: u8 },
    /// The timed load gave `byte` and took `elapsed` cycles.
    Timed { byte: u8, elapsed: u64 },
}

/// The cycles that the timed loads at place `at` of each round took, all rounds taken
/// together.
pub open spec fn cycles_at(rounds: Seq<Seq<Event>>, at: int) -> int
    decreases rounds.len(),
{
    if rounds.len() == 0 {
        0
    } else {
        cycles_at(rounds.drop_last(), at) + rounds.last()[at]->elapsed
    }
}

/// Whether `event` is what performing `action` gives: a byte from the gadget, a byte and
/// a time from a timed load, and no more than completion from an eviction or a fence.
/// Nothing answers the notice that the reader has finished.
pub open spec fn answers(action: Action, event: Event) -> bool {
    match action {
        Action::Finish { .. } => false,
        Action::Invoke { .. } => event is Returned,
        Action::Probe { .. } => event is Timed,
        _ => event is Done,
    }
}

/// The index handed to the gadget: the target where the schedule says so, the training
/// index otherwise.
pub open spec fn fed_index(attack: bool, target_idx: usize, train_idx: usize) -> usize {
    if attack {
        target_idx
    } else {
        train_idx
    }
}

/// Picks between the two indices by arithmetic. A branch here would itself leave a trace
/// in the predictor that is being trained.
pub fn merged_index(attack: bool, target_idx: usize, train_idx: usize) -> (idx: usize)
    ensures
        idx == fed_index(attack, target_idx, train_idx),
{
    (attack as usize) * target_idx + (!attack as usize) * train_idx
}

/// The in-bounds index that an attempt trains with.
pub open spec fn train_index(attempt: nat, legal_length: usize) -> usize {
    (attempt % (legal_length as nat)) as usize
}

/// The action that times the line of `value`.
pub open spec fn probe_of(value: u8) -> Action {
    Action::Probe { value, offset: line_of(value) as usize }
}

/// The evictions that open an attempt: every channel line, in ascending order.
pub open spec fn flush_script() -> Seq<Action> {
    Seq::new(VALUES as nat, |value: int| Action::FlushSlot { offset: line_of(value as u8) as usize })
}

/// One invocation of the gadget with what leads up to it: the reported length is
/// evicted and the eviction fenced, the descriptor is evicted and fenced, and only then
/// the gadget runs.
pub open spec fn invocation(idx: usize) -> Seq<Action> {
    seq![
        Action::FlushLength,
        Action::Fence,
        Action::FlushDescriptor,
        Action::Fence,
        Action::Invoke { idx },
    ]
}

/// The training phase: one invocation per entry of the schedule, from its last entry to
/// its first.
pub open spec fn train_script(schedule: Seq<bool>, target_idx: usize, train_idx: usize) -> Seq<
    Action,
>
    decreases schedule.len(),
{
    if schedule.len() == 0 {
        Seq::empty()
    } else {
        invocation(fed_index(schedule.last(), target_idx, train_idx)) + train_script(
            schedule.drop_last(),
            target_idx,
            train_idx,
        )
    }
}

/// The timed scan that closes an attempt: the probe order, from its last entry to its
/// first.
pub open spec fn probe_script(order: Seq<u8>) -> Seq<Action> {
    Seq::new(order.len(), |at: int| probe_of(order[order.len() - 1 - at]))
}

/// The state of a reader.
pub struct ReaderView {
    /// The out-of-bounds index whose byte is sought.
    pub target_idx: usize,
    /// The length that the gadget's guard compares against.
    pub legal_length: usize,
    /// The training schedule.
    pub schedule: Seq<bool>,
    /// The probe order.
    pub order: Seq<u8>,
    /// The number of the attempt in progress; 0 when all attempts are over.
    pub attempt: nat,
    /// How many actions of the attempt in progress have been answered.
    pub at: nat,
    /// What the sink holds.
    pub sum: u8,
    /// The accumulators.
    pub scores: Seq<u32>,
}

impl ReaderView {
    /// The actions of the attempt in progress, in order.
    pub open spec fn script(self) -> Seq<Action> {
        flush_script() + train_script(
            self.schedule,
            self.target_idx,
            train_index(self.attempt, self.legal_length),
        ) + probe_script(self.order)
    }

    /// The states that a reader can be in.
    pub open spec fn wf(self) -> bool {
        &&& self.legal_length > 0
        &&& is_probe_order(self.order)
        &&& self.scores.len() == VALUES
        &&& self.attempt < NUM_TRIES
        &&& self.attempt > 0 ==> self.at < self.script().len()
        &&& self.attempt == 0 ==> self.at == 0
    }

    /// The state before the first action: attempt `NUM_TRIES - 1`, an empty sink and
    /// every accumulator at zero.
    pub open spec fn initial(
        target_idx: usize,
        legal_length: usize,
        schedule: Seq<bool>,
        order: Seq<u8>,
    ) -> ReaderView {
        ReaderView {
            target_idx,
            legal_length,
            schedule,
            order,
            attempt: (NUM_TRIES - 1) as nat,
            at: 0,
            sum: 0,
            scores: zeroed(),
        }
    }

    /// The action that the reader waits on.
    pub open spec fn pending(self) -> Action {
        if self.attempt == 0 {
            Action::Finish { sum: self.sum }
        } else {
            self.script()[self.at as int]
        }
    }

    /// Whether `event` answers the pending action.
    pub open spec fn accepts(self, event: Event) -> bool {
        answers(self.pending(), event)
    }

    /// The place in an attempt of action `stage` of the invocation that `done`
    /// invocations have gone before.
    pub open spec fn train_at(self, done: int, stage: int) -> int {
        VALUES + 5 * done + stage
    }

    /// The place in an attempt at which the line named at `slot` of the probe order is
    /// timed.
    pub open spec fn probe_at(self, slot: int) -> int {
        VALUES + 5 * self.schedule.len() + (VALUES - 1 - slot)
    }

    /// The same reader in the attempt of the given number.
    pub open spec fn in_attempt(self, attempt: nat) -> ReaderView {
        ReaderView { attempt, ..self }
    }

    /// Whether the rounds of events answer the attempts from the one in progress on,
    /// each round one attempt, action for action.
    pub open spec fn answered_by(self, rounds: Seq<Seq<Event>>) -> bool {
        &&& rounds.len() <= self.attempt
        &&& forall|round: int|
            0 <= round < rounds.len() ==> (#[trigger] rounds[round]).len() == self.script().len()
        &&& forall|round: int, at: int|
            0 <= round < rounds.len() && 0 <= at < self.script().len() ==> answers(
                self.in_attempt((self.attempt - round) as nat).script()[at],
                #[trigger] rounds[round][at],
            )
    }

    /// The state after the rounds of events, taken in one after the other.
    pub open spec fn after_rounds(self, rounds: Seq<Seq<Event>>) -> ReaderView
        decreases rounds.len(),
    {
        if rounds.len() == 0 {
            self
        } else {
            self.after_rounds(rounds.drop_last()).after_all(rounds.last())
        }
    }

    /// The state after the events, taken in one after the other.
    pub open spec fn after_all(self, events: Seq<Event>) -> ReaderView
        decreases events.len(),
    {
        if events.len() == 0 {
            self
        } else {
            self.after_all(events.drop_last()).after(events.last())
        }
    }

    /// The sink after `event` answered the pending action. The delay that lets an
    /// eviction of the reported length complete is spent stirring the sink.
    pub open spec fn sum_after(self, event: Event) -> u8 {
        match (self.pending(), event) {
            (Action::FlushLength, _) => stirred(self.sum, INBETWEEN_DELAY as nat),
            (Action::Invoke { .. }, Event::Returned { byte }) => absorbed(self.sum, byte),
            (Action::Probe { .. }, Event::Timed { byte, .. }) => absorbed(self.sum, byte),
            _ => self.sum,
        }
    }

    /// The accumulators after `event` answered the pending action: a timed load adds
    /// its cycles to the accumulator of the value probed.
    pub open spec fn scores_after(self, event: Event) -> Seq<u32> {
        match (self.pending(), event) {
            (Action::Probe { value, .. }, Event::Timed { elapsed, .. }) => self.scores.update(
                value as int,
                accumulated(self.scores[value as int], elapsed),
            ),
            _ => self.scores,
        }
    }

    /// The state after `event`. An event that does not answer the pending action
    /// changes nothing.
    pub open spec fn after(self, event: Event) -> ReaderView {
        if !self.accepts(event) {
            self
        } else {
            let last = self.at + 1 == self.script().len();
            ReaderView {
                target_idx: self.target_idx,
                legal_length: self.legal_length,
                schedule: self.schedule,
                order: self.order,
                attempt: if last {
                    (self.attempt - 1) as nat
                } else {
                    self.attempt
                },
                at: if last {
                    0
                } else {
                    self.at + 1
                },
                sum: self.sum_after(event),
                scores: self.scores_after(event),
            }
        }
    }
}

/// The training phase takes five actions per entry of the schedule.
proof fn lemma_train_script_len(schedule: Seq<bool>, target_idx: usize, train_idx: usize)
    ensures
        train_script(schedule, target_idx, train_idx).len() == 5 * schedule.len(),
    decreases schedule.len(),
{
    if schedule.len() > 0 {
        lemma_train_script_len(schedule.drop_last(), target_idx, train_idx);
    }
}

/// The invocation that stands `done` invocations into the training phase belongs to
/// the schedule's entry `done` places from its end.
proof fn lemma_train_script_at(
    schedule: Seq<bool>,
    target_idx: usize,
    train_idx: usize,
    done: int,
    stage: int,
)
    requires
        0 <= done < schedule.len(),
        0 <= stage < 5,
    ensures
        train_script(schedule, target_idx, train_idx)[5 * done + stage] == invocation(
            fed_index(schedule[schedule.len() - 1 - done], target_idx, train_idx),
        )[stage],
    decreases schedule.len(),
{
    let rest = schedule.drop_last();
    lemma_train_script_len(rest, target_idx, train_idx);
    if done > 0 {
        lemma_train_script_at(rest, target_idx, train_idx, done - 1, stage);
        assert(rest[rest.len() - 1 - (done - 1)] == schedule[schedule.len() - 1 - done]);
    }
}

/// An attempt evicts all lines, runs the training phase and times all lines.
pub proof fn lemma_script_len(view: ReaderView)
    requires
        view.wf(),
    ensures
        view.script().len() == 2 * VALUES + 5 * view.schedule.len(),
{
    lemma_train_script_len(
        view.schedule,
        view.target_idx,
        train_index(view.attempt, view.legal_length),
    );
}

/// What stands where in an attempt. First every line is evicted, in ascending order.
/// Then, for each entry of the schedule from the last to the first, come the five
/// actions of one invocation; the gadget is handed the target where the entry is true,
/// and where it is false the training index, which lies below the reported length.
/// Last every line is timed, in probe order from the last entry to the first.
pub proof fn lemma_script_places(view: ReaderView)
    requires
        view.wf(),
    ensures
        view.script().len() == 2 * VALUES + 5 * view.schedule.len(),
        forall|value: int|
            0 <= value < VALUES ==> #[trigger] view.script()[value] == (Action::FlushSlot {
                offset: line_of(value as u8) as usize,
            }),
        forall|done: int, stage: int|
            0 <= done < view.schedule.len() && 0 <= stage < 5 ==> view.script()[#[trigger] view.train_at(
                done,
                stage,
            )] == invocation(
                fed_index(
                    view.schedule[view.schedule.len() - 1 - done],
                    view.target_idx,
                    train_index(view.attempt, view.legal_length),
                ),
            )[stage],
        forall|slot: int|
            0 <= slot < VALUES ==> view.script()[#[trigger] view.probe_at(slot)] == probe_of(
                view.order[slot],
            ),
        train_index(view.attempt, view.legal_length) < view.legal_length,
{
    let train_idx = train_index(view.attempt, view.legal_length);
    lemma_train_script_len(view.schedule, view.target_idx, train_idx);
    assert forall|done: int, stage: int|
        0 <= done < view.schedule.len() && 0 <= stage < 5 implies view.script()[#[trigger] view.train_at(
        done,
        stage,
    )] == invocation(
        fed_index(view.schedule[view.schedule.len() - 1 - done], view.target_idx, train_idx),
    )[stage] by {
        lemma_train_script_at(view.schedule, view.target_idx, train_idx, done, stage);
    }
}

/// The timed scan of an attempt visits the line of every byte value exactly once.
pub proof fn lemma_scan_visits_each_line_once(view: ReaderView, value: u8)
    requires
        view.wf(),
    ensures
        exists|at: int|
            2 * VALUES + 5 * view.schedule.len() - VALUES <= at < view.script().len()
                && view.script()[at] == probe_of(value),
        forall|a: int, b: int|
            0 <= a < view.script().len() && 0 <= b < view.script().len() && view.script()[a]
                == probe_of(value) && view.script()[b] == probe_of(value) ==> a == b,
{
    let train_idx = train_index(view.attempt, view.legal_length);
    let script = view.script();
    let start = VALUES + 5 * view.schedule.len();
    lemma_train_script_len(view.schedule, view.target_idx, train_idx);
    lemma_order_visits_each_value_once(view.order, value);
    let slot = choose|slot: int| 0 <= slot < VALUES && view.order[slot] == value;
    assert(script[start + (VALUES - 1 - slot)] == probe_of(value));
    assert forall|a: int| 0 <= a < script.len() && script[a] == probe_of(value) implies a == start
        + (VALUES - 1 - slot) by {
        if a < start {
            lemma_no_probe_before_scan(view, a);
        } else {
            let found = VALUES - 1 - (a - start);
            assert(script[a] == probe_of(view.order[found]));
            assert(view.order[found] == value);
        }
    }
}

/// Before the timed scan, an attempt times nothing.
proof fn lemma_no_probe_before_scan(view: ReaderView, at: int)
    requires
        view.wf(),
        0 <= at < VALUES + 5 * view.schedule.len(),
    ensures
        !(view.script()[at] is Probe),
        !(view.script()[at] is Finish),
{
    let train_idx = train_index(view.attempt, view.legal_length);
    lemma_train_script_len(view.schedule, view.target_idx, train_idx);
    if at < VALUES {
        assert(view.script()[at] is FlushSlot);
    } else {
        let done = (at - VALUES) / 5;
        let stage = (at - VALUES) % 5;
        lemma_train_script_at(view.schedule, view.target_idx, train_idx, done, stage);
        assert(view.script()[at] == train_script(view.schedule, view.target_idx, train_idx)[5 * done
            + stage]);
    }
}

/// Every step leads from a state that a reader can be in to another.
pub proof fn lemma_after_is_wf(view: ReaderView, event: Event)
    requires
        view.wf(),
    ensures
        view.after(event).wf(),
{
    let next = view.after(event);
    lemma_script_len(view);
    lemma_train_script_len(
        next.schedule,
        next.target_idx,
        train_index(next.attempt, next.legal_length),
    );
}

/// Part of the way through an attempt, the accumulators of the lines timed so far have
/// grown by the cycles their loads took, and no other has changed.
proof fn lemma_attempt_prefix(view: ReaderView, events: Seq<Event>, n: int)
    requires
        view.wf(),
        view.attempt > 0,
        view.at == 0,
        events.len() == view.script().len(),
        forall|at: int| 0 <= at < events.len() ==> answers(view.script()[at], #[trigger] events[at]),
        0 <= n < events.len(),
    ensures
        ({
            let mid = view.after_all(events.take(n));
            &&& mid.wf()
            &&& mid.target_idx == view.target_idx
            &&& mid.legal_length == view.legal_length
            &&& mid.schedule == view.schedule
            &&& mid.order == view.order
            &&& mid.attempt == view.attempt
            &&& mid.at == n
            &&& forall|slot: int|
                0 <= slot < VALUES ==> mid.scores[#[trigger] view.order[slot] as int] == if view.probe_at(
                    slot,
                ) < n {
                    accumulated(
                        view.scores[view.order[slot] as int],
                        events[view.probe_at(slot)]->elapsed,
                    )
                } else {
                    view.scores[view.order[slot] as int]
                }
        }),
    decreases n,
{
    if n == 0 {
        assert(events.take(0).len() == 0);
    } else {
        lemma_attempt_prefix(view, events, n - 1);
        let before = view.after_all(events.take(n - 1));
        let event = events[n - 1];
        assert(events.take(n).drop_last() =~= events.take(n - 1));
        assert(events.take(n).last() == event);
        let mid = before.after(event);
        assert(mid == view.after_all(events.take(n)));
        assert(before.script() == view.script());
        assert(before.pending() == view.script()[n - 1]);
        assert(before.accepts(event));
        lemma_script_len(view);
        lemma_after_is_wf(before, event);
        let start = VALUES + 5 * view.schedule.len();
        if n - 1 < start {
            lemma_no_probe_before_scan(view, n - 1);
            assert(mid.scores == before.scores);
        } else {
            let timed = VALUES - 1 - (n - 1 - start);
            assert(view.script()[n - 1] == probe_of(view.order[timed]));
            assert(view.probe_at(timed) == n - 1);
            assert forall|slot: int| 0 <= slot < VALUES implies mid.scores[#[trigger] view.order[slot] as int]
                == if view.probe_at(slot) < n {
                accumulated(
                    view.scores[view.order[slot] as int],
                    events[view.probe_at(slot)]->elapsed,
                )
            } else {
                view.scores[view.order[slot] as int]
            } by {
                if slot != timed {
                    assert(view.order[slot] != view.order[timed]);
                }
            }
        }
    }
}

/// Over one attempt, the accumulator of every byte value grows by the cycles that the
/// one timed load of its line took. The attempt then is over, and the next one, if any
/// is left, is at its start.
pub proof fn lemma_attempt_accumulates(view: ReaderView, events: Seq<Event>)
    requires
        view.wf(),
        view.attempt > 0,
        view.at == 0,
        events.len() == view.script().len(),
        forall|at: int| 0 <= at < events.len() ==> answers(view.script()[at], #[trigger] events[at]),
    ensures
        view.after_all(events).wf(),
        view.after_all(events).in_attempt(view.attempt) == (ReaderView {
            sum: view.after_all(events).sum,
            scores: view.after_all(events).scores,
            ..view
        }),
        view.after_all(events).attempt == view.attempt - 1,
        forall|slot: int|
            0 <= slot < VALUES ==> view.after_all(events).scores[#[trigger] view.order[slot] as int]
                == accumulated(
                view.scores[view.order[slot] as int],
                events[view.probe_at(slot)]->elapsed,
            ),
{
    lemma_script_len(view);
    let n = events.len() as int;
    lemma_attempt_prefix(view, events, n - 1);
    let before = view.after_all(events.take(n - 1));
    let event = events[n - 1];
    assert(events.drop_last() =~= events.take(n - 1));
    let end = before.after(event);
    assert(end == view.after_all(events));
    assert(before.script() == view.script());
    assert(before.pending() == view.script()[n - 1]);
    assert(before.accepts(event));
    lemma_after_is_wf(before, event);
    assert(view.script()[n - 1] == probe_of(view.order[0]));
    assert(view.probe_at(0) == n - 1);
    assert forall|slot: int| 0 <= slot < VALUES implies end.scores[#[trigger] view.order[slot] as int]
        == accumulated(
        view.scores[view.order[slot] as int],
        events[view.probe_at(slot)]->elapsed,
    ) by {
        if slot != 0 {
            assert(view.order[slot] != view.order[0]);
        }
    }
}

/// Over any number of attempts, the accumulator of every byte value grows by the cycles
/// that the timed loads of its line took, all attempts taken together, modulo 2^32.
pub proof fn lemma_rounds_accumulate(view: ReaderView, rounds: Seq<Seq<Event>>)
    requires
        view.wf(),
        view.at == 0,
        view.answered_by(rounds),
    ensures
        view.after_rounds(rounds).wf(),
        view.after_rounds(rounds).in_attempt(view.attempt) == (ReaderView {
            sum: view.after_rounds(rounds).sum,
            scores: view.after_rounds(rounds).scores,
            ..view
        }),
        view.after_rounds(rounds).attempt == view.attempt - rounds.len(),
        forall|slot: int|
            0 <= slot < VALUES ==> view.after_rounds(rounds).scores[#[trigger] view.order[slot] as int]
                == (view.scores[view.order[slot] as int] + cycles_at(rounds, view.probe_at(slot)))
                % 0x1_0000_0000,
    decreases rounds.len(),
{
    if rounds.len() > 0 {
        let earlier = rounds.drop_last();
        let events = rounds.last();
        let round = rounds.len() - 1;
        assert(view.answered_by(earlier)) by {
            assert forall|r: int| 0 <= r < earlier.len() implies (#[trigger] earlier[r]).len()
                == view.script().len() by {
                assert(earlier[r] == rounds[r]);
            }
            assert forall|r: int, at: int|
                0 <= r < earlier.len() && 0 <= at < view.script().len() implies answers(
                view.in_attempt((view.attempt - r) as nat).script()[at],
                #[trigger] earlier[r][at],
            ) by {
                assert(earlier[r][at] == rounds[r][at]);
            }
        }
        lemma_rounds_accumulate(view, earlier);
        let mid = view.after_rounds(earlier);
        lemma_script_len(view);
        lemma_script_len(mid);
        assert(mid.script() == view.in_attempt((view.attempt - round) as nat).script());
        assert(events.len() == mid.script().len()) by {
            assert(rounds[round].len() == view.script().len());
        }
        assert forall|at: int| 0 <= at < events.len() implies answers(
            mid.script()[at],
            #[trigger] events[at],
        ) by {
            assert(events[at] == rounds[round][at]);
        }
        lemma_attempt_accumulates(mid, events);
    }
}

/// A reader that is answered action for action through all its attempts ends with
/// nothing left to do, and with each accumulator at the cycles that the timed loads of
/// its line took, all attempts taken together, modulo 2^32.
pub proof fn lemma_full_run(view: ReaderView, rounds: Seq<Seq<Event>>)
    requires
        view.wf(),
        view == ReaderView::initial(view.target_idx, view.legal_length, view.schedule, view.order),
        view.answered_by(rounds),
        rounds.len() == NUM_TRIES - 1,
    ensures
        view.after_rounds(rounds).pending() is Finish,
        forall|slot: int|
            0 <= slot < VALUES ==> view.after_rounds(rounds).scores[#[trigger] view.order[slot] as int]
                == cycles_at(rounds, view.probe_at(slot)) % 0x1_0000_0000,
{
    lemma_rounds_accumulate(view, rounds);
}

/// Where in an attempt a reader stands.
#[derive(Clone, Copy)]
enum Phase {
    Flush,
    Train,
    Probe,
}

/// A position within an attempt: the phase, the number of lines or invocations of the
/// phase that are done, and within an invocation the number of its actions that are.
#[derive(Clone, Copy)]
struct Cursor {
    phase: Phase,
    done: usize,
    stage: u8,
}

impl Cursor {
    spec fn fits(self, loops: nat) -> bool {
        match self.phase {
            Phase::Flush => self.done < VALUES && self.stage == 0,
            Phase::Train => self.done < loops && self.stage < 5,
            Phase::Probe => self.done < VALUES && self.stage == 0,
        }
    }

    spec fn at(self, loops: nat) -> nat {
        match self.phase {
            Phase::Flush => self.done as nat,
            Phase::Train => (VALUES + 5 * self.done + self.stage) as nat,
            Phase::Probe => (VALUES + 5 * loops + self.done) as nat,
        }
    }

    spec fn start() -> Cursor {
        Cursor { phase: Phase::Flush, done: 0, stage: 0 }
    }
}

/// The extraction of one byte in progress.
pub struct ByteReader {
    target_idx: usize,
    legal_length: usize,
    is_attack: Vec<bool>,
    attack_pattern: Vec<u8>,
    attempt: u64,
    cursor: Cursor,
    sink: Sink,
    scores: ScoreHistogram,
}

impl View for ByteReader {
    type V = ReaderView;

    closed spec fn view(&self) -> ReaderView {
        ReaderView {
            target_idx: self.target_idx,
            legal_length: self.legal_length,
            schedule: self.is_attack@,
            order: self.attack_pattern@,
            attempt: self.attempt as nat,
            at: self.cursor.at(self.is_attack@.len()),
            sum: self.sink.sum,
            scores: self.scores@,
        }
    }
}

impl ByteReader {
    #[verifier::type_invariant]
    spec fn inv(&self) -> bool {
        &&& self.legal_length > 0
        &&& is_probe_order(self.attack_pattern@)
        &&& self.scores@.len() == VALUES
        &&& self.attempt < NUM_TRIES
        &&& self.attempt > 0 ==> self.cursor.fits(self.is_attack@.len())
        &&& self.attempt == 0 ==> self.cursor == Cursor::start()
    }

    proof fn lemma_inv_is_wf(&self)
        requires
            self.inv(),
        ensures
            self@.wf(),
            self@.script().len() == 2 * VALUES + 5 * self.is_attack@.len(),
    {
        lemma_train_script_len(
            self.is_attack@,
            self.target_idx,
            train_index(self.attempt as nat, self.legal_length),
        );
    }

    /// A reader for the byte at `target_idx`, before its first action.
    ///
    /// The training indices are taken below `legal_length`, which must not be zero, and
    /// the lines are timed in the order of `attack_pattern`, which must be a probe
    /// order.
    pub fn new(
        target_idx: usize,
        legal_length: usize,
        is_attack: Vec<bool>,
        attack_pattern: Vec<u8>,
    ) -> (reader: Option<ByteReader>)
        ensures
            reader is Some <==> legal_length > 0 && is_probe_order(attack_pattern@),
            reader matches Some(r) ==> r@ == ReaderView::initial(
                target_idx,
                legal_length,
                is_attack@,
                attack_pattern@,
            ) && r@.wf(),
    {
        if legal_length == 0 || !probe_order_ok(&attack_pattern) {
            return None;
        }
        let reader = ByteReader {
            target_idx,
            legal_length,
            is_attack,
            attack_pattern,
            attempt: NUM_TRIES - 1,
            cursor: Cursor { phase: Phase::Flush, done: 0, stage: 0 },
            sink: Sink::new(),
            scores: ScoreHistogram::new(),
        };
        proof {
            reader.lemma_inv_is_wf();
        }
        Some(reader)
    }

    /// The action that the reader waits on.
    pub fn pending(&self) -> (action: Action)
        ensures
            self@.wf(),
            action == self@.pending(),
    {
        proof {
            use_type_invariant(self);
            self.lemma_inv_is_wf();
        }
        if self.attempt == 0 {
            return Action::Finish { sum: self.sink.value() };
        }
        let loops: usize = self.is_attack.len();
        let done: usize = self.cursor.done;
        let ghost train_idx = train_index(self.attempt as nat, self.legal_length);
        match self.cursor.phase {
            Phase::Flush => Action::FlushSlot { offset: line_offset(done as u8) },
            Phase::Train => {
                proof {
                    lemma_train_script_at(
                        self.is_attack@,
                        self.target_idx,
                        train_idx,
                        done as int,
                        self.cursor.stage as int,
                    );
                }
                if self.cursor.stage == 0 {
                    Action::FlushLength
                } else if self.cursor.stage == 1 {
                    Action::Fence
                } else if self.cursor.stage == 2 {
                    Action::FlushDescriptor
                } else if self.cursor.stage == 3 {
                    Action::Fence
                } else {
                    let attack: bool = self.is_attack[loops - 1 - done];
                    let train: usize = (self.attempt % (self.legal_length as u64)) as usize;
                    Action::Invoke { idx: merged_index(attack, self.target_idx, train) }
                }
            },
            Phase::Probe => {
                let value: u8 = self.attack_pattern[VALUES - 1 - done];
                Action::Probe { value, offset: line_offset(value) }
            },
        }
    }

    /// Moves past the pending action.
    fn advance(&mut self)
        requires
            old(self).attempt > 0,
        ensures
            final(self).target_idx == old(self).target_idx,
            final(self).legal_length == old(self).legal_length,
            final(self).is_attack == old(self).is_attack,
            final(self).attack_pattern == old(self).attack_pattern,
            final(self).sink == old(self).sink,
            final(self).scores == old(self).scores,
            old(self)@.at + 1 == old(self)@.script().len() ==> final(self)@.at == 0
                && final(self).attempt == old(self).attempt - 1,
            old(self)@.at + 1 != old(self)@.script().len() ==> final(self)@.at == old(self)@.at + 1
                && final(self).attempt == old(self).attempt,
    {
        proof {
            use_type_invariant(&*self);
            self.lemma_inv_is_wf();
        }
        let loops: usize = self.is_attack.len();
        let done: usize = self.cursor.done;
        let stage: u8 = self.cursor.stage;
        match self.cursor.phase {
            Phase::Flush => {
                if done + 1 < VALUES {
                    self.cursor = Cursor { phase: Phase::Flush, done: done + 1, stage: 0 };
                } else if loops > 0 {
                    self.cursor = Cursor { phase: Phase::Train, done: 0, stage: 0 };
                } else {
                    self.cursor = Cursor { phase: Phase::Probe, done: 0, stage: 0 };
                }
            },
            Phase::Train => {
                if stage < 4 {
                    self.cursor = Cursor { phase: Phase::Train, done, stage: stage + 1 };
                } else if done + 1 < loops {
                    self.cursor = Cursor { phase: Phase::Train, done: done + 1, stage: 0 };
                } else {
                    self.cursor = Cursor { phase: Phase::Probe, done: 0, stage: 0 };
                }
            },
            Phase::Probe => {
                if done + 1 < VALUES {
                    self.cursor = Cursor { phase: Phase::Probe, done: done + 1, stage: 0 };
                } else {
                    self.cursor = Cursor { phase: Phase::Flush, done: 0, stage: 0 };
                    self.attempt = self.attempt - 1;
                }
            },
        }
    }

    /// Takes in what came of the pending action and returns the action that comes
    /// next. An event that does not answer the pending action is ignored, and the
    /// pending action is returned once more.
    pub fn step(&mut self, event: Event) -> (action: Action)
        ensures
            final(self)@ == old(self)@.after(event),
            final(self)@.wf(),
            action == final(self)@.pending(),
    {
        proof {
            use_type_invariant(&*self);
            self.lemma_inv_is_wf();
        }
        let pending = self.pending();
        match pending {
            Action::Finish { .. } => {
                return pending;
            },
            Action::Invoke { .. } => match event {
                Event::Returned { byte } => {
                    self.sink.absorb(byte);
                },
                _ => {
                    return pending;
                },
            },
            Action::Probe { value, .. } => match event {
                Event::Timed { byte, elapsed } => {
                    self.sink.absorb(byte);
                    self.scores.record(value, elapsed);
                },
                _ => {
                    return pending;
                },
            },
            Action::FlushLength => match event {
                Event::Done => {
                    self.sink.stir(INBETWEEN_DELAY);
                },
                _ => {
                    return pending;
                },
            },
            _ => match event {
                Event::Done => {},
                _ => {
                    return pending;
                },
            },
        }
        self.advance();
        self.pending()
    }

    /// Whether all attempts are over.
    pub fn is_finished(&self) -> (finished: bool)
        ensures
            finished == (self@.attempt == 0),
    {
        self.attempt == 0
    }

    /// The accumulator of `value`.
    pub fn score(&self, value: u8) -> (score: u32)
        ensures
            self@.wf(),
            score == self@.scores[value as int],
    {
        proof {
            use_type_invariant(self);
            self.lemma_inv_is_wf();
        }
        self.scores.score(value)
    }

    /// What the sink holds.
    pub fn sum(&self) -> (sum: u8)
        ensures
            sum == self@.sum,
    {
        self.sink.value()
    }

    /// Ends the extraction and hands out the accumulators.
    pub fn into_scores(self) -> (scores: ScoreHistogram)
        ensures
            scores@ == self@.scores,
    {
        self.scores
    }
}

} // verus!
