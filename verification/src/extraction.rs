//! The extraction of a whole string, as a step function.
//!
//! The bytes of the string are decoded one offset after the other. After each pass over
//! all offsets the guess is held against the known text, and a run whose guesses are
//! almost never right is abandoned: if nothing leaks, more passes will not help.

use vstd::prelude::*;
use crate::tuning::ABANDON_RATIO;

verus! {

/// What the caller is to do next.
#[derive(Clone, Copy, Debug, PartialEq, Eq, Structural)]
pub enum Task {
    /// Decode the byte at `offset` of the string.
    Decode { offset: usize },
    /// A pass is complete: report the guess.
    Report,
    /// Too few guesses were right: report that nothing leaks, and stop.
    Abandon,
    /// All passes are done: report how many of the guesses were right.
    Finish { correct: usize, total: usize },
}

/// What came of the task that the caller performed.
#[derive(Clone, Copy, Debug, PartialEq, Eq, Structural)]
pub enum Answer {
    /// The byte was decoded as `character`.
    Decoded { character: u8 },
    /// The guess was reported.
    Reported,
}

/// Where an extraction stands.
#[derive(Clone, Copy, Debug, PartialEq, Eq, Structural)]
pub enum Stage {
    /// In the middle of a pass.
    Decoding,
    /// At the end of a pass, with the guess complete and counted.
    Reporting,
    /// Given up.
    Abandoned,
    /// Through with all passes.
    Finished,
}

/// The number of places at which `guess` agrees with `secret`.
pub open spec fn hits(guess: Seq<u8>, secret: Seq<u8>) -> nat
    decreases guess.len(),
{
    if guess.len() == 0 {
        0
    } else {
        hits(guess.drop_last(), secret) + if guess.len() <= secret.len() && guess.last()
            == secret[guess.len() - 1] {
            1nat
        } else {
            0nat
        }
    }
}

/// Fewer than one guess in `ABANDON_RATIO` was right.
pub open spec fn is_broken(correct: nat, total: nat) -> bool {
    ABANDON_RATIO * correct < total
}

/// The share of right guesses in percent, rounded down.
pub open spec fn percent(correct: nat, total: nat) -> nat {
    (100 * correct) / total
}

/// The state of an extraction.
pub struct ExtractionView {
    /// The text that the guesses are held against.
    pub secret: Seq<u8>,
    /// The number of passes to run.
    pub passes: nat,
    /// The number of passes counted so far.
    pub pass: nat,
    /// The bytes decoded in the current pass.
    pub guess: Seq<u8>,
    /// The right guesses of all counted passes.
    pub correct: nat,
    /// The guesses of all counted passes.
    pub total: nat,
    /// Where the extraction stands.
    pub stage: Stage,
}

impl ExtractionView {
    /// The states that an extraction can be in.
    pub open spec fn wf(self) -> bool {
        &&& self.passes * self.secret.len() <= usize::MAX
        &&& self.pass <= self.passes
        &&& self.total == self.pass * self.secret.len()
        &&& self.correct <= self.total
        &&& self.guess.len() <= self.secret.len()
        &&& self.stage is Decoding ==> self.pass < self.passes && self.guess.len()
            < self.secret.len()
        &&& self.stage is Reporting ==> self.guess.len() == self.secret.len()
    }

    /// The state with the guess counted: the pass is over.
    pub open spec fn closed(self) -> ExtractionView {
        ExtractionView {
            pass: self.pass + 1,
            correct: self.correct + hits(self.guess, self.secret),
            total: self.total + self.guess.len(),
            stage: Stage::Reporting,
            ..self
        }
    }

    /// The state at the start of a new pass. A pass over an empty text is over at once.
    pub open spec fn opened(self) -> ExtractionView {
        let fresh = ExtractionView { guess: Seq::empty(), stage: Stage::Decoding, ..self };
        if self.secret.len() == 0 {
            fresh.closed()
        } else {
            fresh
        }
    }

    /// The state before the first task.
    pub open spec fn initial(secret: Seq<u8>, passes: nat) -> ExtractionView {
        let idle = ExtractionView {
            secret,
            passes,
            pass: 0,
            guess: Seq::empty(),
            correct: 0,
            total: 0,
            stage: Stage::Finished,
        };
        if passes == 0 {
            idle
        } else {
            idle.opened()
        }
    }

    /// The task that the extraction waits on.
    pub open spec fn pending(self) -> Task {
        match self.stage {
            Stage::Decoding => Task::Decode { offset: self.guess.len() as usize },
            Stage::Reporting => Task::Report,
            Stage::Abandoned => Task::Abandon,
            Stage::Finished => Task::Finish {
                correct: self.correct as usize,
                total: self.total as usize,
            },
        }
    }

    /// The state after `answer`. A decoded byte is appended to the guess, and the guess
    /// is counted once it is complete. After the report of a pass the run is abandoned
    /// if too few guesses were right, finished if that was the last pass, and in a new
    /// pass otherwise. An answer to another task than the pending one changes nothing.
    pub open spec fn after(self, answer: Answer) -> ExtractionView {
        match (self.stage, answer) {
            (Stage::Decoding, Answer::Decoded { character }) => {
                let longer = ExtractionView { guess: self.guess.push(character), ..self };
                if longer.guess.len() == self.secret.len() {
                    longer.closed()
                } else {
                    longer
                }
            },
            (Stage::Reporting, Answer::Reported) => {
                if is_broken(self.correct, self.total) {
                    ExtractionView { stage: Stage::Abandoned, ..self }
                } else if self.pass == self.passes {
                    ExtractionView { stage: Stage::Finished, ..self }
                } else {
                    self.opened()
                }
            },
            _ => self,
        }
    }

    /// The state after the answers, taken in one after the other.
    pub open spec fn after_all(self, answers: Seq<Answer>) -> ExtractionView
        decreases answers.len(),
    {
        if answers.len() == 0 {
            self
        } else {
            self.after_all(answers.drop_last()).after(answers.last())
        }
    }
}

/// A guess of the text's length agrees with the text in at most that many places.
pub proof fn lemma_hits_bound(guess: Seq<u8>, secret: Seq<u8>)
    ensures
        hits(guess, secret) <= guess.len(),
        guess == secret ==> hits(guess, secret) == guess.len(),
    decreases guess.len(),
{
    if guess.len() > 0 {
        lemma_hits_bound(guess.drop_last(), secret);
        if guess == secret {
            lemma_hits_prefix(guess.drop_last(), secret);
        }
    }
}

/// A guess that is a prefix of the text agrees with it everywhere.
pub proof fn lemma_hits_prefix(guess: Seq<u8>, secret: Seq<u8>)
    requires
        guess.len() <= secret.len(),
        forall|at: int| 0 <= at < guess.len() ==> guess[at] == secret[at],
    ensures
        hits(guess, secret) == guess.len(),
    decreases guess.len(),
{
    if guess.len() > 0 {
        lemma_hits_prefix(guess.drop_last(), secret);
    }
}

/// The answers that report `characters` as decoded, one after the other.
pub open spec fn decoded(characters: Seq<u8>) -> Seq<Answer> {
    characters.map_values(|character: u8| Answer::Decoded { character })
}

/// Within a pass, the guess is what has been decoded so far.
proof fn lemma_partial_pass(view: ExtractionView, characters: Seq<u8>, n: int)
    requires
        view.wf(),
        view.stage is Decoding,
        view.guess.len() == 0,
        0 <= n <= characters.len(),
        n < view.secret.len(),
    ensures
        view.after_all(decoded(characters.take(n))) == (ExtractionView {
            guess: characters.take(n),
            ..view
        }),
    decreases n,
{
    let answers = decoded(characters.take(n));
    if n == 0 {
        assert(characters.take(0) =~= view.guess);
    } else {
        lemma_partial_pass(view, characters, n - 1);
        assert(answers.drop_last() =~= decoded(characters.take(n - 1)));
        assert(answers.last() == Answer::Decoded { character: characters[n - 1] });
        assert(characters.take(n - 1).push(characters[n - 1]) =~= characters.take(n));
    }
}

/// A pass counts the places at which the decoded bytes agree with the text: after as
/// many decodes as the text has bytes, the guess is the bytes decoded, every one of them
/// is counted as a guess, and those that agree with the text as right.
pub proof fn lemma_pass_counts_hits(view: ExtractionView, characters: Seq<u8>)
    requires
        view.wf(),
        view.stage is Decoding,
        view.guess.len() == 0,
        characters.len() == view.secret.len(),
    ensures
        view.after_all(decoded(characters)) == (ExtractionView {
            guess: characters,
            pass: view.pass + 1,
            correct: view.correct + hits(characters, view.secret),
            total: view.total + view.secret.len(),
            stage: Stage::Reporting,
            ..view
        }),
        view.after_all(decoded(characters)).wf(),
{
    let n = characters.len() as int;
    let answers = decoded(characters);
    lemma_partial_pass(view, characters, n - 1);
    assert(answers.drop_last() =~= decoded(characters.take(n - 1)));
    assert(answers.last() == Answer::Decoded { character: characters[n - 1] });
    assert(characters.take(n - 1).push(characters[n - 1]) =~= characters);
    lemma_hits_bound(characters, view.secret);
    lemma_pass_fits(view.pass, view.passes, view.secret.len());
}

/// Where every byte is decoded right, the guess is the text and every guess of the pass
/// is counted as right.
pub proof fn lemma_perfect_pass(view: ExtractionView)
    requires
        view.wf(),
        view.stage is Decoding,
        view.guess.len() == 0,
    ensures
        view.after_all(decoded(view.secret)).guess == view.secret,
        view.after_all(decoded(view.secret)).correct == view.correct + view.secret.len(),
        view.after_all(decoded(view.secret)).total == view.total + view.secret.len(),
        view.after_all(decoded(view.secret)).pending() == Task::Report,
{
    lemma_pass_counts_hits(view, view.secret);
    lemma_hits_bound(view.secret, view.secret);
}

/// A pass that leaves fewer than one guess in `ABANDON_RATIO` right ends the run: the
/// report is followed by the notice that the run is abandoned, and whatever is
/// answered after that, no further byte is asked for.
pub proof fn lemma_broken_run_is_abandoned(view: ExtractionView, later: Seq<Answer>)
    requires
        view.stage is Reporting,
        is_broken(view.correct, view.total),
    ensures
        view.after(Answer::Reported).pending() == Task::Abandon,
        view.after(Answer::Reported).after_all(later) == view.after(Answer::Reported),
    decreases later.len(),
{
    if later.len() > 0 {
        lemma_broken_run_is_abandoned(view, later.drop_last());
    }
}

/// Every step leads from a state that an extraction can be in to another.
pub proof fn lemma_after_is_wf(view: ExtractionView, answer: Answer)
    requires
        view.wf(),
    ensures
        view.after(answer).wf(),
{
    if view.stage is Decoding && answer is Decoded {
        let longer = view.guess.push(answer->character);
        lemma_hits_bound(longer, view.secret);
        lemma_pass_fits(view.pass, view.passes, view.secret.len());
    }
    if view.stage is Reporting && answer is Reported && view.pass < view.passes {
        lemma_pass_fits(view.pass, view.passes, view.secret.len());
        assert(hits(Seq::<u8>::empty(), view.secret) == 0);
    }
}

/// The number of places at which `guess` agrees with `secret`.
pub fn count_hits(guess: &Vec<u8>, secret: &Vec<u8>) -> (count: usize)
    ensures
        count == hits(guess@, secret@),
{
    let mut count: usize = 0;
    let mut at: usize = 0;
    while at < guess.len()
        invariant
            at <= guess@.len(),
            count <= at,
            count == hits(guess@.take(at as int), secret@),
        decreases guess@.len() - at,
    {
        proof {
            assert(guess@.take(at + 1).drop_last() == guess@.take(at as int));
        }
        if at < secret.len() && guess[at] == secret[at] {
            count = count + 1;
        }
        at = at + 1;
    }
    proof {
        assert(guess@.take(at as int) == guess@);
    }
    count
}

/// Whether fewer than one guess in `ABANDON_RATIO` was right.
pub fn accuracy_is_broken(correct: usize, total: usize) -> (broken: bool)
    ensures
        broken == is_broken(correct as nat, total as nat),
{
    (correct as u128) * (ABANDON_RATIO as u128) < total as u128
}

/// What changes from task to task.
struct Run {
    guess: Vec<u8>,
    stage: Stage,
    pass: usize,
    correct: usize,
    total: usize,
}

/// The extraction of a string in progress.
pub struct Extraction {
    secret: Vec<u8>,
    passes: usize,
    run: Run,
}

impl View for Extraction {
    type V = ExtractionView;

    closed spec fn view(&self) -> ExtractionView {
        ExtractionView {
            secret: self.secret@,
            passes: self.passes as nat,
            pass: self.run.pass as nat,
            guess: self.run.guess@,
            correct: self.run.correct as nat,
            total: self.run.total as nat,
            stage: self.run.stage,
        }
    }
}

impl Extraction {
    #[verifier::type_invariant]
    spec fn inv(&self) -> bool {
        self@.wf()
    }

    /// An extraction that runs `passes` passes and holds its guesses against `secret`,
    /// before its first task. There is none where the guesses of all passes together
    /// could not be counted.
    pub fn new(secret: Vec<u8>, passes: usize) -> (extraction: Option<Extraction>)
        ensures
            extraction is Some <==> passes * secret@.len() <= usize::MAX,
            extraction matches Some(e) ==> e@ == ExtractionView::initial(secret@, passes as nat)
                && e@.wf(),
    {
        if passes.checked_mul(secret.len()).is_none() {
            return None;
        }
        let opened: bool = passes > 0;
        let over: bool = opened && secret.len() == 0;
        let run = Run {
            guess: Vec::new(),
            stage: if over {
                Stage::Reporting
            } else if opened {
                Stage::Decoding
            } else {
                Stage::Finished
            },
            pass: if over {
                1
            } else {
                0
            },
            correct: 0,
            total: 0,
        };
        proof {
            assert(run.guess@ == Seq::<u8>::empty());
            assert(hits(Seq::<u8>::empty(), secret@) == 0);
            assert(run.pass * secret@.len() == 0) by (nonlinear_arith)
                requires
                    run.pass == 0 || secret@.len() == 0,
            ;
        }
        Some(Extraction { secret, passes, run })
    }

    /// The task that the extraction waits on.
    pub fn pending(&self) -> (task: Task)
        ensures
            self@.wf(),
            task == self@.pending(),
    {
        proof {
            use_type_invariant(self);
        }
        match self.run.stage {
            Stage::Decoding => Task::Decode { offset: self.run.guess.len() },
            Stage::Reporting => Task::Report,
            Stage::Abandoned => Task::Abandon,
            Stage::Finished => Task::Finish { correct: self.run.correct, total: self.run.total },
        }
    }

    /// Takes in what came of the pending task and returns the task that comes next. An
    /// answer to another task than the pending one is ignored, and the pending task is
    /// returned once more.
    pub fn step(&mut self, answer: Answer) -> (task: Task)
        ensures
            final(self)@ == old(self)@.after(answer),
            final(self)@.wf(),
            task == final(self)@.pending(),
    {
        proof {
            use_type_invariant(&*self);
        }
        let mut run = Run {
            guess: Vec::new(),
            stage: Stage::Finished,
            pass: 0,
            correct: 0,
            total: 0,
        };
        proof {
            assert(run.pass * self.secret@.len() == 0) by (nonlinear_arith)
                requires
                    run.pass == 0,
            ;
        }
        core::mem::swap(&mut run, &mut self.run);
        match (run.stage, answer) {
            (Stage::Decoding, Answer::Decoded { character }) => {
                run.guess.push(character);
                if run.guess.len() == self.secret.len() {
                    let found: usize = count_hits(&run.guess, &self.secret);
                    proof {
                        lemma_hits_bound(run.guess@, self.secret@);
                        lemma_pass_fits(run.pass as nat, self.passes as nat, self.secret@.len());
                    }
                    run.stage = Stage::Reporting;
                    run.pass = run.pass + 1;
                    run.correct = run.correct + found;
                    run.total = run.total + run.guess.len();
                }
            },
            (Stage::Reporting, Answer::Reported) => {
                if accuracy_is_broken(run.correct, run.total) {
                    run.stage = Stage::Abandoned;
                } else if run.pass == self.passes {
                    run.stage = Stage::Finished;
                } else if self.secret.len() == 0 {
                    proof {
                        assert(hits(Seq::<u8>::empty(), self.secret@) == 0);
                        lemma_pass_fits(run.pass as nat, self.passes as nat, self.secret@.len());
                    }
                    run.guess = Vec::new();
                    run.pass = run.pass + 1;
                } else {
                    run.guess = Vec::new();
                    run.stage = Stage::Decoding;
                }
            },
            _ => {},
        }
        self.run = run;
        self.pending()
    }

    /// The bytes decoded in the current pass, in the order of their offsets.
    pub fn guess(&self) -> (guess: &Vec<u8>)
        ensures
            guess@ == self@.guess,
    {
        &self.run.guess
    }

    /// The right guesses of the passes that are over.
    pub fn correct(&self) -> (correct: usize)
        ensures
            correct == self@.correct,
    {
        self.run.correct
    }

    /// The guesses of the passes that are over.
    pub fn total(&self) -> (total: usize)
        ensures
            total == self@.total,
    {
        self.run.total
    }

    /// The share of right guesses in percent, rounded down; none when nothing was
    /// guessed.
    pub fn accuracy_percent(&self) -> (share: Option<u64>)
        ensures
            share is Some <==> self@.total > 0,
            share matches Some(p) ==> p == percent(self@.correct, self@.total) && p <= 100,
    {
        proof {
            use_type_invariant(self);
        }
        let correct: usize = self.run.correct;
        let total: usize = self.run.total;
        if total == 0 {
            return None;
        }
        let scaled: u128 = 100 * (correct as u128);
        let share: u128 = scaled / (total as u128);
        proof {
            assert(share <= 100) by (nonlinear_arith)
                requires
                    scaled <= 100 * (total as u128),
                    total > 0,
                    share == scaled / (total as u128),
            ;
        }
        Some(share as u64)
    }
}

/// The guesses of one more pass can be counted while passes are left.
proof fn lemma_pass_fits(pass: nat, passes: nat, len: nat)
    requires
        pass < passes,
    ensures
        (pass + 1) * len == pass * len + len,
        (pass + 1) * len <= passes * len,
{
    assert((pass + 1) * len == pass * len + len) by (nonlinear_arith);
    assert((pass + 1) * len <= passes * len) by (nonlinear_arith)
        requires
            pass + 1 <= passes,
    ;
}

} // verus!
