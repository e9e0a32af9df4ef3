//! A scenario, a named list of steps run one after the other, and its outcome.
use crate::agent::Agent;
use crate::benchmark::step::{lemma_step_with_fail, BenchmarkStepResult, StepResultView};
use crate::errors::Errors;
use crate::score::Score;
use crate::tally::{lemma_sum_bounds_term, lemma_sum_prefix, lemma_sum_take_next, sum};
use vstd::prelude::*;
use vstd::string::StringExecFns;

verus! {

/// The mathematical content of a [`BenchmarkScenario`].
pub struct ScenarioView<S> {
    pub name: Seq<char>,
    pub steps: Seq<S>,
}

/// A named, ordered list of steps. A step is anything that can be called
/// with the agent, the score and the ledger and hands back its outcome.
pub struct BenchmarkScenario<S> {
    name: String,
    steps: Vec<S>,
}

impl<S> View for BenchmarkScenario<S> {
    type V = ScenarioView<S>;

    closed spec fn view(&self) -> ScenarioView<S> {
        ScenarioView { name: self.name@, steps: self.steps@ }
    }
}

impl<S: Clone> Clone for BenchmarkScenario<S> {
    fn clone(&self) -> (copy: BenchmarkScenario<S>)
        ensures
            copy@.name == self@.name,
            copy@.steps.len() == self@.steps.len(),
            forall|i: int|
                0 <= i < self@.steps.len() ==> cloned::<S>(
                    self@.steps[i],
                    #[trigger] copy@.steps[i],
                ),
    {
        BenchmarkScenario { name: self.name.clone(), steps: self.steps.clone() }
    }
}

impl<S> BenchmarkScenario<S> {
    /// A scenario called `name` that has no step yet.
    pub fn new(name: &str) -> (scenario: BenchmarkScenario<S>)
        ensures
            scenario@.name == name@,
            scenario@.steps == Seq::<S>::empty(),
    {
        BenchmarkScenario { name: String::from_str(name), steps: Vec::new() }
    }

    /// Appends `step` as the last step of the scenario.
    pub fn add_benchmark_step(&mut self, step: S)
        ensures
            final(self)@.name == old(self)@.name,
            final(self)@.steps == old(self)@.steps.push(step),
    {
        self.steps.push(step);
    }

    /// The scenario's name.
    pub fn name(&self) -> (name: &str)
        ensures
            name@ == self@.name,
    {
        self.name.as_str()
    }

    /// The scenario's steps, first to last.
    pub fn steps(&self) -> (steps: &Vec<S>)
        ensures
            steps@ == self@.steps,
    {
        &self.steps
    }
}

impl<S: Fn(&Agent, &Score, &Errors) -> BenchmarkStepResult> BenchmarkScenario<S> {
    /// Every step of the scenario may be called with these three.
    pub open spec fn runnable(&self, agent: &Agent, score: &Score, errors: &Errors) -> bool {
        forall|i: int|
            0 <= i < self@.steps.len() ==> call_requires(
                #[trigger] self@.steps[i],
                (agent, score, errors),
            )
    }

    /// `result` is an outcome of this scenario: it carries the scenario's
    /// name and, step by step and in order, an outcome of each step called
    /// with these three.
    pub open spec fn yields(
        &self,
        agent: &Agent,
        score: &Score,
        errors: &Errors,
        result: BenchmarkScenarioResult,
    ) -> bool {
        &&& result@.scenario_name == self@.name
        &&& result.steps().len() == self@.steps.len()
        &&& forall|i: int|
            0 <= i < self@.steps.len() ==> call_ensures(
                self@.steps[i],
                (agent, score, errors),
                #[trigger] result.steps()[i],
            )
    }

    /// Runs the steps one after the other, first to last, each with the same
    /// agent, score and ledger, and collects their outcomes in that order.
    pub fn run(&self, agent: &Agent, score: &Score, errors: &Errors) -> (result:
        BenchmarkScenarioResult)
        requires
            self.runnable(agent, score, errors),
        ensures
            self.yields(agent, score, errors, result),
    {
        let mut result = BenchmarkScenarioResult::new(self.name.as_str());
        let mut i: usize = 0;
        while i < self.steps.len()
            invariant
                i <= self.steps.len(),
                self.runnable(agent, score, errors),
                result@.scenario_name == self@.name,
                result.steps().len() == i,
                forall|j: int|
                    0 <= j < i ==> call_ensures(
                        self@.steps[j],
                        (agent, score, errors),
                        #[trigger] result.steps()[j],
                    ),
            decreases self.steps.len() - i,
        {
            let step = &self.steps[i];
            assert(call_requires(self@.steps[i as int], (agent, score, errors)));
            let step_result = step(agent, score, errors);
            result.add_step_result(step_result);
            i += 1;
        }
        result
    }
}

/// The mathematical content of a [`BenchmarkScenarioResult`].
pub struct ScenarioResultView {
    pub scenario_name: Seq<char>,
    pub step_results: Seq<StepResultView>,
}

/// The gain of each step outcome, in order.
pub open spec fn step_gains(step_results: Seq<StepResultView>) -> Seq<nat> {
    step_results.map_values(|step: StepResultView| step.gain())
}

/// The loss of each step outcome, in order.
pub open spec fn step_loses(step_results: Seq<StepResultView>) -> Seq<nat> {
    step_results.map_values(|step: StepResultView| step.lose())
}

impl ScenarioResultView {
    /// The points gained: the sum of the steps' gains.
    pub open spec fn gain(self) -> nat {
        sum(step_gains(self.step_results))
    }

    /// The points lost: the sum of the steps' losses.
    pub open spec fn lose(self) -> nat {
        sum(step_loses(self.step_results))
    }

    /// The score: gain minus loss.
    pub open spec fn score(self) -> int {
        self.gain() - self.lose()
    }

    /// The scenario has failed: one of its steps has.
    pub open spec fn failed(self) -> bool {
        exists|i: int| 0 <= i < self.step_results.len() && #[trigger] self.step_results[i].failed()
    }

    /// This outcome with one more failure in the ledger of the step at `step`.
    pub open spec fn with_fail(self, step: int, cause: Seq<char>) -> ScenarioResultView {
        ScenarioResultView {
            step_results: self.step_results.update(step, self.step_results[step].with_fail(cause)),
            ..self
        }
    }
}

/// One more failure in one of its steps makes a scenario outcome a failed
/// one and leaves its name, its gain, its loss and its score as they were.
pub proof fn lemma_scenario_with_fail(scenario: ScenarioResultView, step: int, cause: Seq<char>)
    requires
        0 <= step < scenario.step_results.len(),
    ensures
        scenario.with_fail(step, cause).failed(),
        scenario.with_fail(step, cause).scenario_name == scenario.scenario_name,
        scenario.with_fail(step, cause).gain() == scenario.gain(),
        scenario.with_fail(step, cause).lose() == scenario.lose(),
        scenario.with_fail(step, cause).score() == scenario.score(),
{
    let marked = scenario.with_fail(step, cause);
    lemma_step_with_fail(scenario.step_results[step], cause);
    assert(marked.step_results[step].failed());
    assert(step_gains(marked.step_results) =~= step_gains(scenario.step_results));
    assert(step_loses(marked.step_results) =~= step_loses(scenario.step_results));
}

/// The outcome of one scenario: its name and the outcomes of its steps.
pub struct BenchmarkScenarioResult {
    scenario_name: String,
    step_results: Vec<BenchmarkStepResult>,
}

impl View for BenchmarkScenarioResult {
    type V = ScenarioResultView;

    closed spec fn view(&self) -> ScenarioResultView {
        ScenarioResultView {
            scenario_name: self.scenario_name@,
            step_results: self.step_results@.map_values(|step: BenchmarkStepResult| step@),
        }
    }
}

impl Clone for BenchmarkScenarioResult {
    fn clone(&self) -> (copy: BenchmarkScenarioResult)
        ensures
            copy@ == self@,
    {
        let copy = BenchmarkScenarioResult {
            scenario_name: self.scenario_name.clone(),
            step_results: self.step_results.clone(),
        };
        assert(copy@.step_results =~= self@.step_results);
        copy
    }
}

impl BenchmarkScenarioResult {
    /// The step outcomes themselves, in order; their contents are
    /// `self@.step_results`.
    pub closed spec fn steps(&self) -> Seq<BenchmarkStepResult> {
        self.step_results@
    }

    /// The view holds the content of each step outcome, in order.
    pub proof fn lemma_steps_view(&self)
        ensures
            self@.step_results == self.steps().map_values(|step: BenchmarkStepResult| step@),
    {
    }

    /// The outcome of the scenario called `scenario_name`, before any step.
    pub fn new(scenario_name: &str) -> (result: BenchmarkScenarioResult)
        ensures
            result@.scenario_name == scenario_name@,
            result@.step_results == Seq::<StepResultView>::empty(),
            result.steps() == Seq::<BenchmarkStepResult>::empty(),
    {
        let result = BenchmarkScenarioResult {
            scenario_name: String::from_str(scenario_name),
            step_results: Vec::new(),
        };
        assert(result@.step_results =~= Seq::<StepResultView>::empty());
        result
    }

    /// The name of the scenario that this is the outcome of.
    pub fn scenario_name(&self) -> (name: &str)
        ensures
            name@ == self@.scenario_name,
    {
        self.scenario_name.as_str()
    }

    /// Appends the outcome of the scenario's next step.
    pub fn add_step_result(&mut self, result: BenchmarkStepResult)
        ensures
            final(self)@.scenario_name == old(self)@.scenario_name,
            final(self)@.step_results == old(self)@.step_results.push(result@),
            final(self).steps() == old(self).steps().push(result),
    {
        self.step_results.push(result);
        assert(final(self)@.step_results =~= old(self)@.step_results.push(result@));
    }

    /// The gain if it fits an `isize`, and `None` if it does not.
    pub fn checked_total_gain(&self) -> (gain: Option<isize>)
        ensures
            gain == if self@.gain() <= isize::MAX {
                Some(self@.gain() as isize)
            } else {
                None
            },
    {
        let ghost gains = step_gains(self@.step_results);
        let mut total: isize = 0;
        let mut i: usize = 0;
        while i < self.step_results.len()
            invariant
                i <= self.step_results.len(),
                gains == step_gains(self@.step_results),
                gains.len() == self.step_results.len(),
                total == sum(gains.take(i as int)),
            decreases self.step_results.len() - i,
        {
            proof {
                lemma_sum_take_next(gains, i as int);
                lemma_sum_prefix(gains, i + 1);
                lemma_sum_bounds_term(gains, i as int);
            }
            let gain = match self.step_results[i].checked_total_gain() {
                Some(gain) => gain,
                None => { return None; },
            };
            total = match total.checked_add(gain) {
                Some(next) => next,
                None => { return None; },
            };
            i += 1;
        }
        assert(gains.take(i as int) =~= gains);
        Some(total)
    }

    /// The loss if it fits an `isize`, and `None` if it does not.
    pub fn checked_total_lose(&self) -> (lose: Option<isize>)
        ensures
            lose == if self@.lose() <= isize::MAX {
                Some(self@.lose() as isize)
            } else {
                None
            },
    {
        let ghost loses = step_loses(self@.step_results);
        let mut total: isize = 0;
        let mut i: usize = 0;
        while i < self.step_results.len()
            invariant
                i <= self.step_results.len(),
                loses == step_loses(self@.step_results),
                loses.len() == self.step_results.len(),
                total == sum(loses.take(i as int)),
            decreases self.step_results.len() - i,
        {
            proof {
                lemma_sum_take_next(loses, i as int);
                lemma_sum_prefix(loses, i + 1);
                lemma_sum_bounds_term(loses, i as int);
            }
            let lose = match self.step_results[i].checked_total_lose() {
                Some(lose) => lose,
                None => { return None; },
            };
            total = match total.checked_add(lose) {
                Some(next) => next,
                None => { return None; },
            };
            i += 1;
        }
        assert(loses.take(i as int) =~= loses);
        Some(total)
    }

    /// The score of the scenario: what its steps gained minus what they lost.
    pub fn total_score(&self) -> (score: isize)
        requires
            self@.gain() <= isize::MAX,
            self@.lose() <= isize::MAX,
        ensures
            score == self@.score(),
            score == self@.gain() - self@.lose(),
    {
        self.total_gain() - self.total_lose()
    }

    /// The sum of the steps' gains.
    pub fn total_gain(&self) -> (gain: isize)
        requires
            self@.gain() <= isize::MAX,
        ensures
            gain == self@.gain(),
    {
        self.checked_total_gain().unwrap()
    }

    /// The sum of the steps' losses.
    pub fn total_lose(&self) -> (lose: isize)
        requires
            self@.lose() <= isize::MAX,
        ensures
            lose == self@.lose(),
    {
        self.checked_total_lose().unwrap()
    }

    /// Whether nothing has failed.
    pub fn is_success(&self) -> (success: bool)
        ensures
            success == !self@.failed(),
    {
        !self.is_failure()
    }

    /// Whether some step of the scenario recorded a failure.
    pub fn is_failure(&self) -> (failure: bool)
        ensures
            failure == self@.failed(),
    {
        let mut i: usize = 0;
        while i < self.step_results.len()
            invariant
                i <= self.step_results.len(),
                forall|j: int| 0 <= j < i ==> !(#[trigger] self@.step_results[j]).failed(),
            decreases self.step_results.len() - i,
        {
            if self.step_results[i].is_failure() {
                assert(self@.step_results[i as int].failed());
                return true;
            }
            i += 1;
        }
        false
    }
}

} // verus!
