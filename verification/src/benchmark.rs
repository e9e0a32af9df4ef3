//! The benchmark: its scenarios, its three phases and its result.
pub mod load;
pub mod scenario;
pub mod step;

use crate::agent::Agent;
use crate::benchmark::scenario::{
    lemma_scenario_with_fail, BenchmarkScenario, BenchmarkScenarioResult, ScenarioResultView,
};
use crate::benchmark::step::BenchmarkStepResult;
use crate::errors::Errors;
use crate::score::Score;
use crate::tally::{
    lemma_sum_bounds_term, lemma_sum_concat, lemma_sum_prefix, lemma_sum_take_next,
    lemma_weighted_sum_permutation, sum,
};
use vstd::prelude::*;

verus! {

/// Why a benchmark's settings are refused.
#[derive(Clone, Copy, Debug, PartialEq, Eq, Structural)]
pub enum ConfigError {
    /// The endpoint is not an absolute URL.
    InvalidEndpoint,
    /// The load phase was given no worker to run on.
    ZeroParallels,
}

/// The gain of each scenario outcome, in order.
pub open spec fn scenario_gains(details: Seq<ScenarioResultView>) -> Seq<nat> {
    details.map_values(|scenario: ScenarioResultView| scenario.gain())
}

/// The loss of each scenario outcome, in order.
pub open spec fn scenario_loses(details: Seq<ScenarioResultView>) -> Seq<nat> {
    details.map_values(|scenario: ScenarioResultView| scenario.lose())
}

/// The mathematical content of a [`BenchmarkResult`].
pub struct BenchmarkResultView {
    /// The scenario outcomes, in the order in which they were added.
    pub details: Seq<ScenarioResultView>,
}

impl BenchmarkResultView {
    /// The points gained: the sum of the scenarios' gains.
    pub open spec fn gain(self) -> nat {
        sum(scenario_gains(self.details))
    }

    /// The points lost: the sum of the scenarios' losses.
    pub open spec fn lose(self) -> nat {
        sum(scenario_loses(self.details))
    }

    /// The score: gain minus loss.
    pub open spec fn score(self) -> int {
        self.gain() - self.lose()
    }

    /// The benchmark has failed: one of its scenarios has.
    pub open spec fn failed(self) -> bool {
        exists|i: int| 0 <= i < self.details.len() && #[trigger] self.details[i].failed()
    }

    /// This result with one more failure in the ledger of the step at `step`
    /// of the scenario at `scenario`.
    pub open spec fn with_fail(
        self,
        scenario: int,
        step: int,
        cause: Seq<char>,
    ) -> BenchmarkResultView {
        BenchmarkResultView {
            details: self.details.update(scenario, self.details[scenario].with_fail(step, cause)),
        }
    }
}

/// The totals of a result are those of its first scenario outcomes added to
/// those of the rest: the totals of the three phases add up to the totals
/// of the benchmark.
pub proof fn lemma_totals_add_up(first: Seq<ScenarioResultView>, rest: Seq<ScenarioResultView>)
    ensures
        (BenchmarkResultView { details: first + rest }).gain() == (BenchmarkResultView {
            details: first,
        }).gain() + (BenchmarkResultView { details: rest }).gain(),
        (BenchmarkResultView { details: first + rest }).lose() == (BenchmarkResultView {
            details: first,
        }).lose() + (BenchmarkResultView { details: rest }).lose(),
        (BenchmarkResultView { details: first + rest }).score() == (BenchmarkResultView {
            details: first,
        }).score() + (BenchmarkResultView { details: rest }).score(),
{
    lemma_sum_concat(scenario_gains(first), scenario_gains(rest));
    lemma_sum_concat(scenario_loses(first), scenario_loses(rest));
    assert(scenario_gains(first + rest) =~= scenario_gains(first) + scenario_gains(rest));
    assert(scenario_loses(first + rest) =~= scenario_loses(first) + scenario_loses(rest));
}

/// The totals of a result, and whether it has failed, do not depend on the
/// order of its scenario outcomes.
pub proof fn lemma_totals_ignore_order(left: BenchmarkResultView, right: BenchmarkResultView)
    requires
        left.details.to_multiset() == right.details.to_multiset(),
    ensures
        left.gain() == right.gain(),
        left.lose() == right.lose(),
        left.score() == right.score(),
        left.failed() == right.failed(),
{
    lemma_weighted_sum_permutation(
        left.details,
        right.details,
        |scenario: ScenarioResultView| scenario.gain(),
    );
    lemma_weighted_sum_permutation(
        left.details,
        right.details,
        |scenario: ScenarioResultView| scenario.lose(),
    );
    if left.failed() {
        let i = choose|i: int| 0 <= i < left.details.len() && #[trigger] left.details[i].failed();
        lemma_failure_is_somewhere(left.details, right.details, i);
    }
    if right.failed() {
        let i = choose|i: int|
            0 <= i < right.details.len() && #[trigger] right.details[i].failed();
        lemma_failure_is_somewhere(right.details, left.details, i);
    }
}

/// A failed scenario outcome of one list is found in every rearrangement of
/// the list.
proof fn lemma_failure_is_somewhere(
    left: Seq<ScenarioResultView>,
    right: Seq<ScenarioResultView>,
    at: int,
)
    requires
        left.to_multiset() == right.to_multiset(),
        0 <= at < left.len(),
        left[at].failed(),
    ensures
        (BenchmarkResultView { details: right }).failed(),
{
    vstd::seq_lib::to_multiset_contains(left, left[at]);
    vstd::seq_lib::to_multiset_contains(right, left[at]);
    assert(left.contains(left[at]));
    let i = right.index_of(left[at]);
    let rearranged = BenchmarkResultView { details: right };
    assert(rearranged.details[i].failed());
}

/// One failure recorded in one step of one scenario fails the scenario and
/// the whole benchmark. It changes no other scenario outcome, and no score:
/// not that of the scenario, and not the totals of the benchmark.
pub proof fn lemma_one_fail_fails_the_benchmark(
    result: BenchmarkResultView,
    scenario: int,
    step: int,
    cause: Seq<char>,
)
    requires
        0 <= scenario < result.details.len(),
        0 <= step < result.details[scenario].step_results.len(),
    ensures
        result.with_fail(scenario, step, cause).failed(),
        result.with_fail(scenario, step, cause).details.len() == result.details.len(),
        result.with_fail(scenario, step, cause).details[scenario].failed(),
        result.with_fail(scenario, step, cause).details[scenario].score()
            == result.details[scenario].score(),
        forall|other: int|
            0 <= other < result.details.len() && other != scenario ==> result.with_fail(
                scenario,
                step,
                cause,
            ).details[other] == result.details[other],
        result.with_fail(scenario, step, cause).gain() == result.gain(),
        result.with_fail(scenario, step, cause).lose() == result.lose(),
        result.with_fail(scenario, step, cause).score() == result.score(),
{
    let marked = result.with_fail(scenario, step, cause);
    lemma_scenario_with_fail(result.details[scenario], step, cause);
    assert(marked.details[scenario].failed());
    assert(scenario_gains(marked.details) =~= scenario_gains(result.details));
    assert(scenario_loses(marked.details) =~= scenario_loses(result.details));
}

/// The outcome of a benchmark: the outcomes of its scenarios.
pub struct BenchmarkResult {
    scenario_results: Vec<BenchmarkScenarioResult>,
}

impl View for BenchmarkResult {
    type V = BenchmarkResultView;

    closed spec fn view(&self) -> BenchmarkResultView {
        BenchmarkResultView {
            details: self.scenario_results@.map_values(
                |scenario: BenchmarkScenarioResult| scenario@,
            ),
        }
    }
}

/// The content of each scenario outcome, in order.
pub open spec fn views_of(scenarios: Seq<BenchmarkScenarioResult>) -> Seq<ScenarioResultView> {
    scenarios.map_values(|scenario: BenchmarkScenarioResult| scenario@)
}

impl BenchmarkResult {
    /// The scenario outcomes themselves, in order; their contents are
    /// `self@.details`.
    pub closed spec fn scenarios(&self) -> Seq<BenchmarkScenarioResult> {
        self.scenario_results@
    }

    /// The view holds the content of each scenario outcome, in order.
    pub proof fn lemma_scenarios_view(&self)
        ensures
            self@.details == views_of(self.scenarios()),
    {
    }

    /// A result without any scenario outcome.
    pub fn new() -> (result: BenchmarkResult)
        ensures
            result@.details == Seq::<ScenarioResultView>::empty(),
            result.scenarios() == Seq::<BenchmarkScenarioResult>::empty(),
    {
        let result = BenchmarkResult { scenario_results: Vec::new() };
        assert(result@.details =~= Seq::<ScenarioResultView>::empty());
        result
    }

    /// A copy of the scenario outcomes, in the order in which they were added.
    pub fn details(&self) -> (details: Vec<BenchmarkScenarioResult>)
        ensures
            views_of(details@) == self@.details,
    {
        let details = self.scenario_results.clone();
        assert(views_of(details@) =~= self@.details);
        details
    }

    /// Appends the outcome of one more scenario.
    pub fn add_scenario_result(&mut self, result: BenchmarkScenarioResult)
        ensures
            final(self)@.details == old(self)@.details.push(result@),
            final(self).scenarios() == old(self).scenarios().push(result),
    {
        self.scenario_results.push(result);
        assert(final(self)@.details =~= old(self)@.details.push(result@));
    }

    /// Appends the outcomes of `results`, in their order.
    pub fn append(&mut self, results: Vec<BenchmarkScenarioResult>)
        ensures
            final(self)@.details == old(self)@.details + views_of(results@),
            final(self).scenarios() == old(self).scenarios() + results@,
    {
        let mut results = results;
        let ghost added = results@;
        self.scenario_results.append(&mut results);
        assert(final(self)@.details =~= old(self)@.details + views_of(added));
    }

    /// The gain if it fits an `isize`, and `None` if it does not.
    pub fn checked_total_gain(&self) -> (gain: Option<isize>)
        ensures
            gain == if self@.gain() <= isize::MAX {
                Some(self@.gain() as isize)
            } else {
                None
            },
    {
        let ghost gains = scenario_gains(self@.details);
        let mut total: isize = 0;
        let mut i: usize = 0;
        while i < self.scenario_results.len()
            invariant
                i <= self.scenario_results.len(),
                gains == scenario_gains(self@.details),
                gains.len() == self.scenario_results.len(),
                total == sum(gains.take(i as int)),
            decreases self.scenario_results.len() - i,
        {
            proof {
                lemma_sum_take_next(gains, i as int);
                lemma_sum_prefix(gains, i + 1);
                lemma_sum_bounds_term(gains, i as int);
            }
            let gain = match self.scenario_results[i].checked_total_gain() {
                Some(gain) => gain,
                None => { return None; },
            };
            total = match total.checked_add(gain) {
                Some(next) => next,
                None => { return None; },
            };
            i += 1;
        }
        assert(gains.take(i as int) =~= gains);
        Some(total)
    }

    /// The loss if it fits an `isize`, and `None` if it does not.
    pub fn checked_total_lose(&self) -> (lose: Option<isize>)
        ensures
            lose == if self@.lose() <= isize::MAX {
                Some(self@.lose() as isize)
            } else {
                None
            },
    {
        let ghost loses = scenario_loses(self@.details);
        let mut total: isize = 0;
        let mut i: usize = 0;
        while i < self.scenario_results.len()
            invariant
                i <= self.scenario_results.len(),
                loses == scenario_loses(self@.details),
                loses.len() == self.scenario_results.len(),
                total == sum(loses.take(i as int)),
            decreases self.scenario_results.len() - i,
        {
            proof {
                lemma_sum_take_next(loses, i as int);
                lemma_sum_prefix(loses, i + 1);
                lemma_sum_bounds_term(loses, i as int);
            }
            let lose = match self.scenario_results[i].checked_total_lose() {
                Some(lose) => lose,
                None => { return None; },
            };
            total = match total.checked_add(lose) {
                Some(next) => next,
                None => { return None; },
            };
            i += 1;
        }
        assert(loses.take(i as int) =~= loses);
        Some(total)
    }

    /// The score of the benchmark: what its scenarios gained minus what they
    /// lost.
    pub fn total_score(&self) -> (score: isize)
        requires
            self@.gain() <= isize::MAX,
            self@.lose() <= isize::MAX,
        ensures
            score == self@.score(),
            score == self@.gain() - self@.lose(),
    {
        self.total_gain() - self.total_lose()
    }

    /// The sum of the scenarios' gains.
    pub fn total_gain(&self) -> (gain: isize)
        requires
            self@.gain() <= isize::MAX,
        ensures
            gain == self@.gain(),
    {
        self.checked_total_gain().unwrap()
    }

    /// The sum of the scenarios' losses.
    pub fn total_lose(&self) -> (lose: isize)
        requires
            self@.lose() <= isize::MAX,
        ensures
            lose == self@.lose(),
    {
        self.checked_total_lose().unwrap()
    }

    /// Whether nothing has failed.
    pub fn is_success(&self) -> (success: bool)
        ensures
            success == !self@.failed(),
    {
        !self.is_failure()
    }

    /// Whether some scenario of the benchmark has failed.
    pub fn is_failure(&self) -> (failure: bool)
        ensures
            failure == self@.failed(),
    {
        let mut i: usize = 0;
        while i < self.scenario_results.len()
            invariant
                i <= self.scenario_results.len(),
                forall|j: int| 0 <= j < i ==> !(#[trigger] self@.details[j]).failed(),
            decreases self.scenario_results.len() - i,
        {
            if self.scenario_results[i].is_failure() {
                assert(self@.details[i as int].failed());
                return true;
            }
            i += 1;
        }
        false
    }
}

/// How many scenarios the load phase may run at once: at least one.
#[derive(Clone, Copy, Debug)]
pub struct Parallels {
    count: usize,
}

impl View for Parallels {
    type V = usize;

    closed spec fn view(&self) -> usize {
        self.count
    }
}

impl Parallels {
    #[verifier::type_invariant]
    spec fn is_positive(&self) -> bool {
        self.count > 0
    }

    /// `count` workers, or the refusal of `count` if it is zero.
    pub fn new(count: usize) -> (parallels: Result<Parallels, ConfigError>)
        ensures
            match parallels {
                Ok(parallels) => count > 0 && parallels@ == count,
                Err(error) => count == 0 && error == ConfigError::ZeroParallels,
            },
    {
        if count == 0 {
            Err(ConfigError::ZeroParallels)
        } else {
            Ok(Parallels { count })
        }
    }

    /// The number of workers, which is not zero.
    pub fn get(&self) -> (count: usize)
        ensures
            count == self@,
            count > 0,
    {
        proof {
            use_type_invariant(self);
        }
        self.count
    }
}

/// A benchmark: the agent, the score and the ledger that every step is
/// given, the scenarios of the three phases, and the number of scenarios that
/// the load phase may run at once.
pub struct Benchmark<S> {
    agent: Agent,
    score: Score,
    errors: Errors,
    prepare_scenarios: Vec<BenchmarkScenario<S>>,
    load_scenarios: Vec<BenchmarkScenario<S>>,
    validation_scenarios: Vec<BenchmarkScenario<S>>,
    parallels: Parallels,
}

/// The outcomes of the three phases, in the order of the phases.
pub open spec fn in_phase_order(
    prepared: Seq<BenchmarkScenarioResult>,
    loaded: Seq<BenchmarkScenarioResult>,
    validated: Seq<BenchmarkScenarioResult>,
) -> Seq<BenchmarkScenarioResult> {
    prepared + loaded + validated
}

impl<S> Benchmark<S> {
    /// The agent that every step is given.
    pub closed spec fn spec_agent(&self) -> Agent {
        self.agent
    }

    /// The score that every step is given.
    pub closed spec fn spec_score(&self) -> Score {
        self.score
    }

    /// The ledger that every step is given.
    pub closed spec fn spec_errors(&self) -> Errors {
        self.errors
    }

    /// How many scenarios the load phase may run at once.
    pub closed spec fn spec_parallels(&self) -> usize {
        self.parallels@
    }

    /// The scenarios of the prepare phase, in the order in which they were added.
    pub closed spec fn spec_prepare_scenarios(&self) -> Seq<BenchmarkScenario<S>> {
        self.prepare_scenarios@
    }

    /// The scenarios of the load phase, in the order in which they were added.
    pub closed spec fn spec_load_scenarios(&self) -> Seq<BenchmarkScenario<S>> {
        self.load_scenarios@
    }

    /// The scenarios of the validation phase, in the order in which they were added.
    pub closed spec fn spec_validation_scenarios(&self) -> Seq<BenchmarkScenario<S>> {
        self.validation_scenarios@
    }

    /// A benchmark without scenarios, or the refusal of `parallels` if it is
    /// zero: the load phase needs at least one worker.
    pub fn new(agent: Agent, score: Score, errors: Errors, parallels: usize) -> (benchmark: Result<
        Benchmark<S>,
        ConfigError,
    >)
        ensures
            match benchmark {
                Ok(benchmark) => {
                    &&& parallels > 0
                    &&& benchmark.spec_agent() == agent
                    &&& benchmark.spec_score() == score
                    &&& benchmark.spec_errors() == errors
                    &&& benchmark.spec_parallels() == parallels
                    &&& benchmark.spec_prepare_scenarios() == Seq::<BenchmarkScenario<S>>::empty()
                    &&& benchmark.spec_load_scenarios() == Seq::<BenchmarkScenario<S>>::empty()
                    &&& benchmark.spec_validation_scenarios() == Seq::<
                        BenchmarkScenario<S>,
                    >::empty()
                },
                Err(error) => parallels == 0 && error == ConfigError::ZeroParallels,
            },
    {
        match Parallels::new(parallels) {
            Ok(parallels) => Ok(
                Benchmark {
                    agent,
                    score,
                    errors,
                    prepare_scenarios: Vec::new(),
                    load_scenarios: Vec::new(),
                    validation_scenarios: Vec::new(),
                    parallels,
                },
            ),
            Err(error) => Err(error),
        }
    }

    /// What no method of a benchmark changes but the one that says so.
    pub open spec fn same_settings(&self, other: &Benchmark<S>) -> bool {
        &&& self.spec_agent() == other.spec_agent()
        &&& self.spec_score() == other.spec_score()
        &&& self.spec_errors() == other.spec_errors()
        &&& self.spec_parallels() == other.spec_parallels()
    }

    /// Appends `scenario` to the prepare phase.
    pub fn add_prepare_scenario(&mut self, scenario: BenchmarkScenario<S>)
        ensures
            final(self).same_settings(old(self)),
            final(self).spec_prepare_scenarios() == old(self).spec_prepare_scenarios().push(
                scenario,
            ),
            final(self).spec_load_scenarios() == old(self).spec_load_scenarios(),
            final(self).spec_validation_scenarios() == old(self).spec_validation_scenarios(),
    {
        self.prepare_scenarios.push(scenario);
    }

    /// Appends `scenario` to the load phase.
    pub fn add_load_scenario(&mut self, scenario: BenchmarkScenario<S>)
        ensures
            final(self).same_settings(old(self)),
            final(self).spec_prepare_scenarios() == old(self).spec_prepare_scenarios(),
            final(self).spec_load_scenarios() == old(self).spec_load_scenarios().push(scenario),
            final(self).spec_validation_scenarios() == old(self).spec_validation_scenarios(),
    {
        self.load_scenarios.push(scenario);
    }

    /// Appends `scenario` to the validation phase.
    pub fn add_validation_scenario(&mut self, scenario: BenchmarkScenario<S>)
        ensures
            final(self).same_settings(old(self)),
            final(self).spec_prepare_scenarios() == old(self).spec_prepare_scenarios(),
            final(self).spec_load_scenarios() == old(self).spec_load_scenarios(),
            final(self).spec_validation_scenarios() == old(self).spec_validation_scenarios().push(
                scenario,
            ),
    {
        self.validation_scenarios.push(scenario);
    }

    /// The agent that every step is given.
    pub fn agent(&self) -> (agent: &Agent)
        ensures
            *agent == self.spec_agent(),
    {
        &self.agent
    }

    /// The score that every step is given.
    pub fn score(&self) -> (score: &Score)
        ensures
            *score == self.spec_score(),
    {
        &self.score
    }

    /// The ledger that every step is given.
    pub fn errors(&self) -> (errors: &Errors)
        ensures
            *errors == self.spec_errors(),
    {
        &self.errors
    }

    /// How many scenarios the load phase may run at once: at least one.
    pub fn parallels(&self) -> (parallels: usize)
        ensures
            parallels == self.spec_parallels(),
            parallels > 0,
    {
        self.parallels.get()
    }

    /// The scenarios of the prepare phase, in the order in which they were added.
    pub fn prepare_scenarios(&self) -> (scenarios: &Vec<BenchmarkScenario<S>>)
        ensures
            scenarios@ == self.spec_prepare_scenarios(),
    {
        &self.prepare_scenarios
    }

    /// The scenarios of the load phase, in the order in which they were added.
    pub fn load_scenarios(&self) -> (scenarios: &Vec<BenchmarkScenario<S>>)
        ensures
            scenarios@ == self.spec_load_scenarios(),
    {
        &self.load_scenarios
    }

    /// The scenarios of the validation phase, in the order in which they were added.
    pub fn validation_scenarios(&self) -> (scenarios: &Vec<BenchmarkScenario<S>>)
        ensures
            scenarios@ == self.spec_validation_scenarios(),
    {
        &self.validation_scenarios
    }
}

impl<S: Fn(&Agent, &Score, &Errors) -> BenchmarkStepResult> Benchmark<S> {
    /// Every step of every scenario of `scenarios` may be called with this
    /// benchmark's agent, score and ledger.
    pub open spec fn all_runnable(&self, scenarios: Seq<BenchmarkScenario<S>>) -> bool {
        forall|i: int|
            0 <= i < scenarios.len() ==> (#[trigger] scenarios[i]).runnable(
                &self.spec_agent(),
                &self.spec_score(),
                &self.spec_errors(),
            )
    }

    /// `results` holds, scenario by scenario and in the order of `scenarios`,
    /// an outcome of each scenario run with this benchmark's agent, score and
    /// ledger.
    pub open spec fn serial_outcomes(
        &self,
        scenarios: Seq<BenchmarkScenario<S>>,
        results: Seq<BenchmarkScenarioResult>,
    ) -> bool {
        &&& results.len() == scenarios.len()
        &&& forall|i: int|
            0 <= i < scenarios.len() ==> scenarios[i].yields(
                &self.spec_agent(),
                &self.spec_score(),
                &self.spec_errors(),
                #[trigger] results[i],
            )
    }

    /// Runs `scenarios` one after the other, in order.
    fn run_serially(&self, scenarios: &Vec<BenchmarkScenario<S>>) -> (results: Vec<
        BenchmarkScenarioResult,
    >)
        requires
            self.all_runnable(scenarios@),
        ensures
            self.serial_outcomes(scenarios@, results@),
    {
        let mut results: Vec<BenchmarkScenarioResult> = Vec::new();
        let mut i: usize = 0;
        while i < scenarios.len()
            invariant
                i <= scenarios.len(),
                self.all_runnable(scenarios@),
                self.serial_outcomes(scenarios@.take(i as int), results@),
            decreases scenarios.len() - i,
        {
            assert(scenarios@[i as int].runnable(
                &self.spec_agent(),
                &self.spec_score(),
                &self.spec_errors(),
            ));
            let result = scenarios[i].run(&self.agent, &self.score, &self.errors);
            results.push(result);
            i += 1;
        }
        assert(scenarios@.take(i as int) =~= scenarios@);
        results
    }

    /// The prepare phase: runs its scenarios one after the other and hands
    /// back their outcomes in the order of the scenarios.
    pub fn start_prepare_scenario(&self) -> (results: Vec<BenchmarkScenarioResult>)
        requires
            self.all_runnable(self.spec_prepare_scenarios()),
        ensures
            self.serial_outcomes(self.spec_prepare_scenarios(), results@),
    {
        self.run_serially(&self.prepare_scenarios)
    }

    /// The validation phase: runs its scenarios one after the other and hands
    /// back their outcomes in the order of the scenarios.
    pub fn start_validation_scenario(&self) -> (results: Vec<BenchmarkScenarioResult>)
        requires
            self.all_runnable(self.spec_validation_scenarios()),
        ensures
            self.serial_outcomes(self.spec_validation_scenarios(), results@),
    {
        self.run_serially(&self.validation_scenarios)
    }

    /// Runs the three phases one after the other: the prepare scenarios in
    /// order, then the load phase, which `run_load` carries out, then the
    /// validation scenarios in order. A failure in one phase does not keep
    /// the next from running. The result holds the outcomes of the prepare
    /// phase in the order of its scenarios, then what `run_load` handed back
    /// in the order in which it handed it back, then the outcomes of the
    /// validation phase in the order of its scenarios.
    pub fn start<G: FnOnce(&Benchmark<S>) -> Vec<BenchmarkScenarioResult>>(
        &self,
        run_load: G,
    ) -> (result: BenchmarkResult)
        requires
            self.all_runnable(self.spec_prepare_scenarios()),
            self.all_runnable(self.spec_validation_scenarios()),
            call_requires(run_load, (self,)),
        ensures
            exists|
                prepared: Seq<BenchmarkScenarioResult>,
                loaded: Vec<BenchmarkScenarioResult>,
                validated: Seq<BenchmarkScenarioResult>,
            |
                {
                    &&& self.serial_outcomes(self.spec_prepare_scenarios(), prepared)
                    &&& call_ensures(run_load, (self,), loaded)
                    &&& self.serial_outcomes(self.spec_validation_scenarios(), validated)
                    &&& result.scenarios() == #[trigger] in_phase_order(
                        prepared,
                        loaded@,
                        validated,
                    )
                },
    {
        let mut benchmark_result = BenchmarkResult::new();
        let prepared = self.start_prepare_scenario();
        let ghost prepared_outcomes = prepared@;
        benchmark_result.append(prepared);
        let loaded = run_load(self);
        let ghost loaded_outcomes = loaded;
        benchmark_result.append(loaded);
        let validated = self.start_validation_scenario();
        let ghost validated_outcomes = validated@;
        benchmark_result.append(validated);
        assert(benchmark_result.scenarios() =~= in_phase_order(
            prepared_outcomes,
            loaded_outcomes@,
            validated_outcomes,
        ));
        benchmark_result
    }
}

} // verus!
