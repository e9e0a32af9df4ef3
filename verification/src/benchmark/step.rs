//! The outcome of one step of a scenario.
use crate::errors::{has_fail, lemma_fail_marks_ledger, total_penalty_of, ErrorRecord, Errors};
use crate::score::{Score, ScoreView};
use vstd::prelude::*;

verus! {

/// The mathematical content of a [`BenchmarkStepResult`].
pub struct StepResultView {
    pub score: ScoreView,
    pub errors: Seq<ErrorRecord>,
}

impl StepResultView {
    /// The points gained: the total of the score.
    pub open spec fn gain(self) -> nat {
        self.score.total()
    }

    /// The points lost: the total of the penalties.
    pub open spec fn lose(self) -> nat {
        total_penalty_of(self.errors)
    }

    /// The step has failed: its ledger holds a failure.
    pub open spec fn failed(self) -> bool {
        has_fail(self.errors)
    }

    /// This outcome with one more failure in its ledger.
    pub open spec fn with_fail(self, cause: Seq<char>) -> StepResultView {
        StepResultView { errors: self.errors.push(ErrorRecord::Fail { cause }), ..self }
    }
}

/// One more failure makes a step outcome a failed one and leaves its gain
/// and its loss as they were.
pub proof fn lemma_step_with_fail(step: StepResultView, cause: Seq<char>)
    ensures
        step.with_fail(cause).failed(),
        step.with_fail(cause).gain() == step.gain(),
        step.with_fail(cause).lose() == step.lose(),
{
    lemma_fail_marks_ledger(step.errors, cause);
}

/// What a step hands back: the score and the ledger as the step left them.
pub struct BenchmarkStepResult {
    score: Score,
    errors: Errors,
}

impl View for BenchmarkStepResult {
    type V = StepResultView;

    closed spec fn view(&self) -> StepResultView {
        StepResultView { score: self.score@, errors: self.errors@ }
    }
}

impl Clone for BenchmarkStepResult {
    fn clone(&self) -> (copy: BenchmarkStepResult)
        ensures
            copy@ == self@,
    {
        BenchmarkStepResult { score: self.score.clone(), errors: self.errors.clone() }
    }
}

impl BenchmarkStepResult {
    /// The outcome of a step that left `score` and `errors` behind.
    pub fn new(score: Score, errors: Errors) -> (result: BenchmarkStepResult)
        ensures
            result@.score == score@,
            result@.errors == errors@,
    {
        BenchmarkStepResult { score, errors }
    }

    /// The gain if it fits an `isize`, and `None` if it does not.
    pub fn checked_total_gain(&self) -> (gain: Option<isize>)
        ensures
            gain == if self@.gain() <= isize::MAX {
                Some(self@.gain() as isize)
            } else {
                None
            },
    {
        match self.score.checked_total() {
            Some(total) => if total <= isize::MAX as usize {
                Some(total as isize)
            } else {
                None
            },
            None => None,
        }
    }

    /// The loss if it fits an `isize`, and `None` if it does not.
    pub fn checked_total_lose(&self) -> (lose: Option<isize>)
        ensures
            lose == if self@.lose() <= isize::MAX {
                Some(self@.lose() as isize)
            } else {
                None
            },
    {
        match self.errors.checked_total_penalty_point() {
            Some(total) => if total <= isize::MAX as usize {
                Some(total as isize)
            } else {
                None
            },
            None => None,
        }
    }

    /// Gain minus loss.
    pub fn total_score(&self) -> (score: isize)
        requires
            self@.gain() <= isize::MAX,
            self@.lose() <= isize::MAX,
        ensures
            score == self@.gain() - self@.lose(),
    {
        self.total_gain() - self.total_lose()
    }

    /// The points gained.
    pub fn total_gain(&self) -> (gain: isize)
        requires
            self@.gain() <= isize::MAX,
        ensures
            gain == self@.gain(),
    {
        self.score.total() as isize
    }

    /// The points lost.
    pub fn total_lose(&self) -> (lose: isize)
        requires
            self@.lose() <= isize::MAX,
        ensures
            lose == self@.lose(),
    {
        self.errors.total_penalty_point() as isize
    }

    /// Whether nothing has failed.
    pub fn is_success(&self) -> (success: bool)
        ensures
            success == !self@.failed(),
    {
        !self.is_failure()
    }

    /// Whether the step recorded a failure.
    pub fn is_failure(&self) -> (failure: bool)
        ensures
            failure == self@.failed(),
    {
        self.errors.has_failure()
    }
}

} // verus!
