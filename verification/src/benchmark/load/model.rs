//! A model of the load phase as a whole: the source, the processor, the
//! workers and the consumer, each taking one step at a time in any order,
//! with the channels between them.
//!
//! The source, the processor and the consumer of the model send and decide
//! as [`work_plan`], [`ProcessorState`] and [`Collected`] say, which is what
//! the executable ones are proved to do. The rest is taken for granted: the
//! work channel and the result channel deliver every message once, in the
//! order of sending; the admission channel holds at most as many slots as
//! the benchmark has parallels, and the processor waits for a slot before
//! it starts a worker; a worker sends the outcome of its scenario, then its
//! signal to the processor, and then gives its slot back.
//!
//! Under these terms, whatever the order of the steps: no more workers are
//! alive than the benchmark has parallels; nothing is canceled; the consumer
//! ends with the outcome of every scenario exactly once; the load phase
//! never halts before that, and it ends after seven steps for each scenario
//! and three more.
use crate::benchmark::load::{
    work_plan, Collected, LoadScenarioResultMessage, LoadScenarioWorkMessage, ProcessorAction,
    ProcessorState,
};
use crate::benchmark::scenario::ScenarioResultView;
use crate::benchmark::{lemma_totals_ignore_order, BenchmarkResultView};
use crate::tally::{
    lemma_same_members, lemma_sum_bounds_term, lemma_sum_has_term, lemma_sum_pointwise,
    lemma_sum_update, sum,
};
use vstd::prelude::*;

verus! {

/// Where a scenario of the load phase stands. A scenario is known by its
/// place in the list of load scenarios.
pub enum Stage {
    /// The source has not sent it yet.
    Unsent,
    /// It waits in the work channel.
    Queued,
    /// A worker runs it.
    Running,
    /// Its worker has sent the outcome to the consumer.
    Reported,
    /// Its worker has told the processor that it has finished.
    Signaled,
    /// Its worker has given back its admission slot and is gone.
    Released,
    /// The processor has refused it.
    Canceled,
}

/// One if the processor counts the scenario's worker as being at work.
pub open spec fn at_work(stage: Stage) -> nat {
    if stage is Running || stage is Reported {
        1
    } else {
        0
    }
}

/// One if the scenario's worker holds an admission slot.
pub open spec fn holds_slot(stage: Stage) -> nat {
    if stage is Running || stage is Reported || stage is Signaled {
        1
    } else {
        0
    }
}

/// The number of workers that have not yet signaled the processor.
pub open spec fn working(stages: Seq<Stage>) -> nat {
    sum(stages.map_values(|stage: Stage| at_work(stage)))
}

/// The number of workers alive: each of them holds an admission slot.
pub open spec fn holding(stages: Seq<Stage>) -> nat {
    sum(stages.map_values(|stage: Stage| holds_slot(stage)))
}

/// The number of scenarios that a worker is running.
pub open spec fn running(stages: Seq<Stage>) -> nat {
    sum(stages.map_values(|stage: Stage| if stage is Running { 1nat } else { 0nat }))
}

/// The scenarios of a load phase of `count` scenarios, by their places.
pub open spec fn places(count: nat) -> Seq<nat> {
    Seq::new(count, |place: int| place as nat)
}

/// The scenarios whose outcomes `results` holds, in the order of `results`.
pub open spec fn processed(results: Seq<LoadScenarioResultMessage<nat>>) -> Seq<nat>
    decreases results.len(),
{
    if results.len() == 0 {
        Seq::empty()
    } else {
        match results.last() {
            LoadScenarioResultMessage::Processed(place) => processed(results.drop_last()).push(
                place,
            ),
            _ => processed(results.drop_last()),
        }
    }
}

/// The load phase at one moment.
pub struct Engine {
    /// The capacity of the admission channel.
    pub parallels: nat,
    /// Where each scenario stands.
    pub stages: Seq<Stage>,
    /// How many of its messages the source has sent.
    pub sent: nat,
    /// The work channel, oldest message first.
    pub work: Seq<LoadScenarioWorkMessage<nat>>,
    pub processor: ProcessorState,
    /// How many admission slots are taken.
    pub slots: nat,
    /// How many workers' signals the processor has yet to receive.
    pub signals: nat,
    /// The result channel, oldest message first.
    pub results: Seq<LoadScenarioResultMessage<nat>>,
    pub consumer: Collected<nat>,
}

/// One step of one of the actors.
pub enum Step {
    /// The source sends its next message.
    SourceSends,
    /// The processor receives the oldest message of the work channel. For a
    /// scenario that it starts, it first takes an admission slot.
    ProcessorTakesWork,
    /// The processor receives the signal of a worker that has finished.
    ProcessorTakesSignal,
    /// The worker of a scenario sends the outcome to the consumer.
    WorkerReports(nat),
    /// The worker of a scenario tells the processor that it has finished.
    WorkerSignals(nat),
    /// The worker of a scenario gives back its admission slot.
    WorkerReleases(nat),
    /// The consumer receives the oldest message of the result channel.
    ConsumerTakes,
}

impl Engine {
    /// The number of load scenarios.
    pub open spec fn scenarios(self) -> nat {
        self.stages.len()
    }

    /// What the source sends over the whole run.
    pub open spec fn plan(self) -> Seq<LoadScenarioWorkMessage<nat>> {
        work_plan(places(self.scenarios()))
    }

    /// The load phase of `scenarios` scenarios and `parallels` parallels
    /// before anything has happened.
    pub open spec fn initial(scenarios: nat, parallels: nat) -> Engine {
        Engine {
            parallels,
            stages: Seq::new(scenarios, |place: int| Stage::Unsent),
            sent: 0,
            work: Seq::empty(),
            processor: ProcessorState::initial(),
            slots: 0,
            signals: 0,
            results: Seq::empty(),
            consumer: Collected::initial(),
        }
    }

    /// Whether `step` can be taken now. The processor waits for an admission
    /// slot before it starts a worker; everyone else waits only for the
    /// message that the step receives.
    pub open spec fn enabled(self, step: Step) -> bool {
        match step {
            Step::SourceSends => self.sent < self.plan().len(),
            Step::ProcessorTakesWork => {
                &&& !self.processor.exited
                &&& self.work.len() > 0
                &&& (self.processor.action_on(self.work[0]) is Spawn ==> self.slots
                    < self.parallels)
            },
            Step::ProcessorTakesSignal => !self.processor.exited && self.signals > 0,
            Step::WorkerReports(place) => place < self.scenarios() && self.stages[place as int]
                is Running,
            Step::WorkerSignals(place) => place < self.scenarios() && self.stages[place as int]
                is Reported,
            Step::WorkerReleases(place) => place < self.scenarios() && self.stages[place as int]
                is Signaled,
            Step::ConsumerTakes => !self.consumer.finished && self.results.len() > 0,
        }
    }

    /// The source sends its next message.
    pub open spec fn source_sends(self) -> Engine {
        let message = self.plan()[self.sent as int];
        Engine {
            sent: self.sent + 1,
            work: self.work.push(message),
            stages: match message {
                LoadScenarioWorkMessage::Start(place) => self.stages.update(
                    place as int,
                    Stage::Queued,
                ),
                LoadScenarioWorkMessage::Stop => self.stages,
            },
            ..self
        }
    }

    /// The processor receives the oldest message of the work channel and
    /// does what it decides to do: it starts a worker, which takes an
    /// admission slot, or sends a message of its own, or does nothing.
    pub open spec fn processor_takes_work(self) -> Engine {
        let received = Engine {
            work: self.work.drop_first(),
            processor: self.processor.on_work(self.work[0]),
            ..self
        };
        match self.processor.action_on(self.work[0]) {
            ProcessorAction::Spawn(place) => Engine {
                stages: self.stages.update(place as int, Stage::Running),
                slots: self.slots + 1,
                ..received
            },
            ProcessorAction::Cancel(place) => Engine {
                stages: self.stages.update(place as int, Stage::Canceled),
                results: self.results.push(LoadScenarioResultMessage::Canceled(place)),
                ..received
            },
            ProcessorAction::Stop => Engine {
                results: self.results.push(LoadScenarioResultMessage::Stopped),
                ..received
            },
            ProcessorAction::Wait => received,
        }
    }

    /// The processor receives the signal of a worker that has finished, and
    /// sends `Stopped` if it leaves.
    pub open spec fn processor_takes_signal(self) -> Engine {
        let processor = self.processor.on_worker_finished();
        Engine {
            signals: (self.signals - 1) as nat,
            processor,
            results: if processor.exited {
                self.results.push(LoadScenarioResultMessage::Stopped)
            } else {
                self.results
            },
            ..self
        }
    }

    /// The state after `step`, for a step that can be taken.
    pub open spec fn next(self, step: Step) -> Engine {
        match step {
            Step::SourceSends => self.source_sends(),
            Step::ProcessorTakesWork => self.processor_takes_work(),
            Step::ProcessorTakesSignal => self.processor_takes_signal(),
            Step::WorkerReports(place) => Engine {
                stages: self.stages.update(place as int, Stage::Reported),
                results: self.results.push(LoadScenarioResultMessage::Processed(place)),
                ..self
            },
            Step::WorkerSignals(place) => Engine {
                stages: self.stages.update(place as int, Stage::Signaled),
                signals: self.signals + 1,
                ..self
            },
            Step::WorkerReleases(place) => Engine {
                stages: self.stages.update(place as int, Stage::Released),
                slots: (self.slots - 1) as nat,
                ..self
            },
            Step::ConsumerTakes => Engine {
                consumer: self.consumer.receive(self.results[0]),
                results: self.results.drop_first(),
                ..self
            },
        }
    }

    /// The state after the steps of `steps`, taken in order.
    pub open spec fn after(self, steps: Seq<Step>) -> Engine
        decreases steps.len(),
    {
        if steps.len() == 0 {
            self
        } else {
            self.after(steps.drop_last()).next(steps.last())
        }
    }

    /// Whether the steps of `steps` can be taken in order, each in the state
    /// that the ones before it lead to.
    pub open spec fn admits(self, steps: Seq<Step>) -> bool
        decreases steps.len(),
    {
        steps.len() == 0 || {
            &&& self.admits(steps.drop_last())
            &&& self.after(steps.drop_last()).enabled(steps.last())
        }
    }
}

/// The scenario's outcome has been sent to the consumer.
pub open spec fn has_reported(stage: Stage) -> bool {
    stage is Reported || stage is Signaled || stage is Released
}

impl Engine {
    /// How many of the source's messages the processor has received.
    pub open spec fn taken(self) -> int {
        self.sent - self.work.len()
    }

    /// The scenarios whose outcomes have been sent to the consumer, in the
    /// order in which it receives them: those that it has, then those that
    /// are on their way.
    pub open spec fn delivered(self) -> Seq<nat> {
        self.consumer.outcomes + processed(self.results)
    }

    /// The stage of the scenario at `place` fits what the source has sent
    /// and the processor has received.
    pub open spec fn stage_fits(self, place: int) -> bool {
        let stage = self.stages[place];
        if place >= self.sent {
            stage is Unsent
        } else if place >= self.taken() {
            stage is Queued
        } else {
            stage is Running || has_reported(stage)
        }
    }

    /// What holds at every moment of every run.
    pub open spec fn consistent(self) -> bool {
        &&& self.sent <= self.scenarios() + 1
        &&& self.work.len() <= self.sent
        &&& self.work == self.plan().subrange(self.taken(), self.sent as int)
        &&& forall|place: int| 0 <= place < self.scenarios() ==> #[trigger] self.stage_fits(place)
        &&& self.processor.shutdown <==> self.sent == self.scenarios() + 1 && self.work.len() == 0
        &&& self.processor.ongoing == working(self.stages) + self.signals
        &&& self.slots == holding(self.stages)
        &&& self.slots <= self.parallels
        &&& self.processor.exited <==> self.processor.shutdown && self.processor.ongoing == 0
        &&& self.delivered().no_duplicates()
        &&& forall|k: int|
            0 <= k < self.delivered().len() ==> {
                &&& #[trigger] self.delivered()[k] < self.scenarios()
                &&& has_reported(self.stages[self.delivered()[k] as int])
            }
        &&& forall|place: int|
            0 <= place < self.scenarios() && has_reported(#[trigger] self.stages[place])
                ==> self.delivered().contains(place as nat)
        &&& forall|k: int| 0 <= k < self.results.len() ==> !(#[trigger] self.results[k] is Canceled)
        &&& forall|k: int|
            0 <= k < self.results.len() && #[trigger] self.results[k] is Stopped ==> k
                == self.results.len() - 1
        &&& self.processor.exited <==> self.consumer.finished || (self.results.len() > 0
            && self.results.last() is Stopped)
        &&& self.consumer.finished ==> self.results.len() == 0
    }
}

/// Moving one scenario to another stage changes the count of workers at
/// work by the difference of the two stages.
pub proof fn lemma_working_update(stages: Seq<Stage>, place: int, stage: Stage)
    requires
        0 <= place < stages.len(),
    ensures
        working(stages.update(place, stage)) + at_work(stages[place]) == working(stages) + at_work(
            stage,
        ),
{
    let weights = stages.map_values(|stage: Stage| at_work(stage));
    lemma_sum_update(weights, place, at_work(stage));
    assert(stages.update(place, stage).map_values(|stage: Stage| at_work(stage))
        =~= weights.update(place, at_work(stage)));
}

/// Moving one scenario to another stage changes the count of slots held by
/// the difference of the two stages.
pub proof fn lemma_holding_update(stages: Seq<Stage>, place: int, stage: Stage)
    requires
        0 <= place < stages.len(),
    ensures
        holding(stages.update(place, stage)) + holds_slot(stages[place]) == holding(stages)
            + holds_slot(stage),
{
    let weights = stages.map_values(|stage: Stage| holds_slot(stage));
    lemma_sum_update(weights, place, holds_slot(stage));
    assert(stages.update(place, stage).map_values(|stage: Stage| holds_slot(stage))
        =~= weights.update(place, holds_slot(stage)));
}

/// A scenario whose worker is at work is counted.
pub proof fn lemma_working_counts(stages: Seq<Stage>, place: int)
    requires
        0 <= place < stages.len(),
    ensures
        at_work(stages[place]) <= working(stages),
        holds_slot(stages[place]) <= holding(stages),
{
    lemma_sum_bounds_term(stages.map_values(|stage: Stage| at_work(stage)), place);
    lemma_sum_bounds_term(stages.map_values(|stage: Stage| holds_slot(stage)), place);
}

/// What a message adds to the outcomes on their way when it is sent.
pub proof fn lemma_processed_push(
    results: Seq<LoadScenarioResultMessage<nat>>,
    message: LoadScenarioResultMessage<nat>,
)
    ensures
        processed(results.push(message)) == match message {
            LoadScenarioResultMessage::Processed(place) => processed(results).push(place),
            _ => processed(results),
        },
{
    assert(results.push(message).drop_last() =~= results);
}

/// What the oldest message takes from the outcomes on their way when it is
/// received.
pub proof fn lemma_processed_drop_first(results: Seq<LoadScenarioResultMessage<nat>>)
    requires
        results.len() > 0,
    ensures
        processed(results) == match results[0] {
            LoadScenarioResultMessage::Processed(place) => seq![place] + processed(
                results.drop_first(),
            ),
            _ => processed(results.drop_first()),
        },
    decreases results.len(),
{
    if results.len() == 1 {
        assert(results.drop_last() =~= Seq::<LoadScenarioResultMessage<nat>>::empty());
        assert(results.drop_first() =~= Seq::<LoadScenarioResultMessage<nat>>::empty());
        assert(processed(results.drop_first()) =~= Seq::<nat>::empty());
        match results[0] {
            LoadScenarioResultMessage::Processed(place) => {
                assert(processed(results) =~= seq![place] + processed(results.drop_first()));
            },
            _ => {},
        }
    } else {
        let front = results.drop_last();
        lemma_processed_drop_first(front);
        assert(front.drop_first() =~= results.drop_first().drop_last());
        assert(results.drop_first().last() == results.last());
        match results[0] {
            LoadScenarioResultMessage::Processed(place) => {
                match results.last() {
                    LoadScenarioResultMessage::Processed(last) => {
                        assert(processed(results) =~= seq![place] + processed(
                            results.drop_first(),
                        ));
                    },
                    _ => {},
                }
            },
            _ => {},
        }
    }
}

/// The source's messages: the scenarios by their places, then `Stop`.
pub proof fn lemma_plan(engine: Engine)
    ensures
        engine.plan().len() == engine.scenarios() + 1,
        forall|place: int|
            0 <= place < engine.scenarios() ==> #[trigger] engine.plan()[place]
                == LoadScenarioWorkMessage::Start(place as nat),
        engine.plan()[engine.scenarios() as int] == LoadScenarioWorkMessage::<nat>::Stop,
{
}

/// A worker's signal keeps the run consistent.
proof fn lemma_worker_signals(engine: Engine, place: nat)
    requires
        engine.consistent(),
        engine.enabled(Step::WorkerSignals(place)),
    ensures
        engine.next(Step::WorkerSignals(place)).consistent(),
{
    let after = engine.next(Step::WorkerSignals(place));
    lemma_working_update(engine.stages, place as int, Stage::Signaled);
    lemma_holding_update(engine.stages, place as int, Stage::Signaled);
    assert(engine.stage_fits(place as int));
    assert forall|other: int| 0 <= other < after.scenarios() implies #[trigger] after.stage_fits(
        other,
    ) by {
        assert(engine.stage_fits(other));
    }
    assert(after.delivered() == engine.delivered());
    assert forall|k: int| 0 <= k < after.delivered().len() implies {
        &&& #[trigger] after.delivered()[k] < after.scenarios()
        &&& has_reported(after.stages[after.delivered()[k] as int])
    } by {
        assert(engine.delivered()[k] < engine.scenarios());
    }
    assert forall|other: int|
        0 <= other < after.scenarios() && has_reported(
            #[trigger] after.stages[other],
        ) implies after.delivered().contains(other as nat) by {
        assert(has_reported(engine.stages[other]));
    }
}

/// A worker's giving back its slot keeps the run consistent.
proof fn lemma_worker_releases(engine: Engine, place: nat)
    requires
        engine.consistent(),
        engine.enabled(Step::WorkerReleases(place)),
    ensures
        engine.next(Step::WorkerReleases(place)).consistent(),
{
    let after = engine.next(Step::WorkerReleases(place));
    lemma_working_update(engine.stages, place as int, Stage::Released);
    lemma_holding_update(engine.stages, place as int, Stage::Released);
    lemma_working_counts(engine.stages, place as int);
    assert(engine.stage_fits(place as int));
    assert forall|other: int| 0 <= other < after.scenarios() implies #[trigger] after.stage_fits(
        other,
    ) by {
        assert(engine.stage_fits(other));
    }
    assert(after.delivered() == engine.delivered());
    assert forall|k: int| 0 <= k < after.delivered().len() implies {
        &&& #[trigger] after.delivered()[k] < after.scenarios()
        &&& has_reported(after.stages[after.delivered()[k] as int])
    } by {
        assert(engine.delivered()[k] < engine.scenarios());
    }
    assert forall|other: int|
        0 <= other < after.scenarios() && has_reported(
            #[trigger] after.stages[other],
        ) implies after.delivered().contains(other as nat) by {
        assert(has_reported(engine.stages[other]));
    }
}

/// A worker's report keeps the run consistent.
proof fn lemma_worker_reports(engine: Engine, place: nat)
    requires
        engine.consistent(),
        engine.enabled(Step::WorkerReports(place)),
    ensures
        engine.next(Step::WorkerReports(place)).consistent(),
{
    let after = engine.next(Step::WorkerReports(place));
    lemma_working_update(engine.stages, place as int, Stage::Reported);
    lemma_holding_update(engine.stages, place as int, Stage::Reported);
    lemma_working_counts(engine.stages, place as int);
    lemma_processed_push(engine.results, LoadScenarioResultMessage::Processed(place));
    assert(engine.stage_fits(place as int));
    assert(!engine.processor.exited);
    assert forall|other: int| 0 <= other < after.scenarios() implies #[trigger] after.stage_fits(
        other,
    ) by {
        assert(engine.stage_fits(other));
    }
    assert(after.delivered() =~= engine.delivered().push(place));
    assert(!engine.delivered().contains(place)) by {
        if engine.delivered().contains(place) {
            let k = choose|k: int|
                0 <= k < engine.delivered().len() && engine.delivered()[k] == place;
            assert(has_reported(engine.stages[engine.delivered()[k] as int]));
        }
    }
    assert(after.delivered().no_duplicates());
    assert forall|k: int| 0 <= k < after.delivered().len() implies {
        &&& #[trigger] after.delivered()[k] < after.scenarios()
        &&& has_reported(after.stages[after.delivered()[k] as int])
    } by {
        if k < engine.delivered().len() {
            assert(engine.delivered()[k] < engine.scenarios());
        }
    }
    assert forall|other: int|
        0 <= other < after.scenarios() && has_reported(
            #[trigger] after.stages[other],
        ) implies after.delivered().contains(other as nat) by {
        if other == place {
            assert(after.delivered()[after.delivered().len() - 1] == place);
        } else {
            assert(has_reported(engine.stages[other]));
            let k = choose|k: int|
                0 <= k < engine.delivered().len() && engine.delivered()[k] == other as nat;
            assert(after.delivered()[k] == other as nat);
        }
    }
    assert forall|k: int| 0 <= k < after.results.len() implies !(#[trigger] after.results[k]
        is Canceled) by {
        if k < engine.results.len() {
            assert(!(engine.results[k] is Canceled));
        }
    }
    assert forall|k: int|
        0 <= k < after.results.len() && #[trigger] after.results[k] is Stopped implies k
        == after.results.len() - 1 by {
        if k < engine.results.len() {
            assert(engine.results[k] is Stopped);
        }
    }
}

/// The consumer's receiving a message keeps the run consistent.
proof fn lemma_consumer_takes(engine: Engine)
    requires
        engine.consistent(),
        engine.enabled(Step::ConsumerTakes),
    ensures
        engine.next(Step::ConsumerTakes).consistent(),
{
    let after = engine.next(Step::ConsumerTakes);
    lemma_processed_drop_first(engine.results);
    assert(!(engine.results[0] is Canceled));
    assert(after.delivered() =~= engine.delivered());
    assert forall|other: int| 0 <= other < after.scenarios() implies #[trigger] after.stage_fits(
        other,
    ) by {
        assert(engine.stage_fits(other));
    }
    assert forall|k: int| 0 <= k < after.delivered().len() implies {
        &&& #[trigger] after.delivered()[k] < after.scenarios()
        &&& has_reported(after.stages[after.delivered()[k] as int])
    } by {
        assert(engine.delivered()[k] < engine.scenarios());
    }
    assert forall|k: int| 0 <= k < after.results.len() implies !(#[trigger] after.results[k]
        is Canceled) by {
        assert(!(engine.results[k + 1] is Canceled));
    }
    assert forall|k: int|
        0 <= k < after.results.len() && #[trigger] after.results[k] is Stopped implies k
        == after.results.len() - 1 by {
        assert(engine.results[k + 1] is Stopped);
    }
    if engine.results[0] is Stopped {
        assert(engine.results.len() == 1);
    } else {
        if engine.results.len() > 1 {
            assert(after.results.last() == engine.results.last());
        } else {
            assert(engine.results.last() == engine.results[0]);
        }
    }
}

/// Sending `Stopped`, or nothing, keeps what is known of the result channel.
proof fn lemma_results_after_processor(engine: Engine, after: Engine)
    requires
        engine.consistent(),
        !engine.processor.exited,
        after.consumer == engine.consumer,
        after.stages == engine.stages,
        after.results == if after.processor.exited {
            engine.results.push(LoadScenarioResultMessage::Stopped)
        } else {
            engine.results
        },
    ensures
        after.delivered() == engine.delivered(),
        forall|k: int| 0 <= k < after.results.len() ==> !(#[trigger] after.results[k] is Canceled),
        forall|k: int|
            0 <= k < after.results.len() && #[trigger] after.results[k] is Stopped ==> k
                == after.results.len() - 1,
        after.processor.exited <==> after.consumer.finished || (after.results.len() > 0
            && after.results.last() is Stopped),
        after.consumer.finished ==> after.results.len() == 0,
{
    lemma_processed_push(engine.results, LoadScenarioResultMessage::Stopped);
    assert forall|k: int| 0 <= k < after.results.len() implies !(#[trigger] after.results[k]
        is Canceled) by {
        if k < engine.results.len() {
            assert(!(engine.results[k] is Canceled));
        }
    }
    assert forall|k: int|
        0 <= k < after.results.len() && #[trigger] after.results[k] is Stopped implies k
        == after.results.len() - 1 by {
        if k < engine.results.len() {
            assert(engine.results[k] is Stopped);
        }
    }
}

/// The processor's receiving a worker's signal keeps the run consistent.
proof fn lemma_processor_takes_signal(engine: Engine)
    requires
        engine.consistent(),
        engine.enabled(Step::ProcessorTakesSignal),
    ensures
        engine.next(Step::ProcessorTakesSignal).consistent(),
{
    let after = engine.next(Step::ProcessorTakesSignal);
    lemma_results_after_processor(engine, after);
    assert forall|other: int| 0 <= other < after.scenarios() implies #[trigger] after.stage_fits(
        other,
    ) by {
        assert(engine.stage_fits(other));
    }
    assert forall|k: int| 0 <= k < after.delivered().len() implies {
        &&& #[trigger] after.delivered()[k] < after.scenarios()
        &&& has_reported(after.stages[after.delivered()[k] as int])
    } by {
        assert(engine.delivered()[k] < engine.scenarios());
    }
}

/// The processor's receiving a message of the source keeps the run
/// consistent. The message is never a scenario after `Stop`: nothing is
/// canceled.
proof fn lemma_processor_takes_work(engine: Engine)
    requires
        engine.consistent(),
        engine.enabled(Step::ProcessorTakesWork),
    ensures
        engine.next(Step::ProcessorTakesWork).consistent(),
        engine.work[0] is Start ==> !engine.processor.shutdown,
{
    let after = engine.next(Step::ProcessorTakesWork);
    lemma_plan(engine);
    let taken = engine.taken();
    assert(engine.work[0] == engine.plan()[taken]);
    assert(after.work =~= after.plan().subrange(after.taken(), after.sent as int));
    match engine.work[0] {
        LoadScenarioWorkMessage::Start(place) => {
            assert(place == taken);
            assert(engine.stage_fits(place as int));
            lemma_working_update(engine.stages, place as int, Stage::Running);
            lemma_holding_update(engine.stages, place as int, Stage::Running);
            assert forall|other: int|
                0 <= other < after.scenarios() implies #[trigger] after.stage_fits(other) by {
                assert(engine.stage_fits(other));
            }
            assert(after.delivered() == engine.delivered());
            assert forall|k: int| 0 <= k < after.delivered().len() implies {
                &&& #[trigger] after.delivered()[k] < after.scenarios()
                &&& has_reported(after.stages[after.delivered()[k] as int])
            } by {
                assert(engine.delivered()[k] < engine.scenarios());
                assert(has_reported(engine.stages[engine.delivered()[k] as int]));
            }
            assert forall|other: int|
                0 <= other < after.scenarios() && has_reported(
                    #[trigger] after.stages[other],
                ) implies after.delivered().contains(other as nat) by {
                assert(has_reported(engine.stages[other]));
            }
        },
        LoadScenarioWorkMessage::Stop => {
            assert(taken == engine.scenarios());
            lemma_results_after_processor(engine, after);
            assert forall|other: int|
                0 <= other < after.scenarios() implies #[trigger] after.stage_fits(other) by {
                assert(engine.stage_fits(other));
            }
            assert forall|k: int| 0 <= k < after.delivered().len() implies {
                &&& #[trigger] after.delivered()[k] < after.scenarios()
                &&& has_reported(after.stages[after.delivered()[k] as int])
            } by {
                assert(engine.delivered()[k] < engine.scenarios());
            }
        },
    }
}

/// The source's sending a message keeps the run consistent.
proof fn lemma_source_sends(engine: Engine)
    requires
        engine.consistent(),
        engine.enabled(Step::SourceSends),
    ensures
        engine.next(Step::SourceSends).consistent(),
{
    let after = engine.next(Step::SourceSends);
    lemma_plan(engine);
    let message = engine.plan()[engine.sent as int];
    assert(after.plan() == engine.plan());
    assert(after.work =~= after.plan().subrange(after.taken(), after.sent as int));
    assert(after.delivered() == engine.delivered());
    match message {
        LoadScenarioWorkMessage::Start(place) => {
            assert(place == engine.sent);
            assert(engine.stage_fits(place as int));
            lemma_working_update(engine.stages, place as int, Stage::Queued);
            lemma_holding_update(engine.stages, place as int, Stage::Queued);
            assert forall|other: int|
                0 <= other < after.scenarios() implies #[trigger] after.stage_fits(other) by {
                assert(engine.stage_fits(other));
            }
            assert forall|k: int| 0 <= k < after.delivered().len() implies {
                &&& #[trigger] after.delivered()[k] < after.scenarios()
                &&& has_reported(after.stages[after.delivered()[k] as int])
            } by {
                assert(engine.delivered()[k] < engine.scenarios());
                assert(has_reported(engine.stages[engine.delivered()[k] as int]));
            }
            assert forall|other: int|
                0 <= other < after.scenarios() && has_reported(
                    #[trigger] after.stages[other],
                ) implies after.delivered().contains(other as nat) by {
                assert(has_reported(engine.stages[other]));
            }
        },
        LoadScenarioWorkMessage::Stop => {
            assert(engine.sent == engine.scenarios());
            assert forall|other: int|
                0 <= other < after.scenarios() implies #[trigger] after.stage_fits(other) by {
                assert(engine.stage_fits(other));
            }
            assert forall|k: int| 0 <= k < after.delivered().len() implies {
                &&& #[trigger] after.delivered()[k] < after.scenarios()
                &&& has_reported(after.stages[after.delivered()[k] as int])
            } by {
                assert(engine.delivered()[k] < engine.scenarios());
            }
        },
    }
}

/// Every step that can be taken keeps the run consistent.
pub proof fn lemma_step_keeps_consistent(engine: Engine, step: Step)
    requires
        engine.consistent(),
        engine.enabled(step),
    ensures
        engine.next(step).consistent(),
        engine.next(step).scenarios() == engine.scenarios(),
        engine.next(step).parallels == engine.parallels,
{
    match step {
        Step::SourceSends => {
            lemma_source_sends(engine);
            lemma_plan(engine);
        },
        Step::ProcessorTakesWork => lemma_processor_takes_work(engine),
        Step::ProcessorTakesSignal => lemma_processor_takes_signal(engine),
        Step::WorkerReports(place) => lemma_worker_reports(engine, place),
        Step::WorkerSignals(place) => lemma_worker_signals(engine, place),
        Step::WorkerReleases(place) => lemma_worker_releases(engine, place),
        Step::ConsumerTakes => lemma_consumer_takes(engine),
    }
}

/// Before anything has happened the run is consistent.
pub proof fn lemma_initial_is_consistent(scenarios: nat, parallels: nat)
    ensures
        Engine::initial(scenarios, parallels).consistent(),
        Engine::initial(scenarios, parallels).scenarios() == scenarios,
{
    let engine = Engine::initial(scenarios, parallels);
    assert(engine.work =~= engine.plan().subrange(0, 0));
    assert(engine.delivered() =~= Seq::<nat>::empty());
    lemma_weights_of_idle(engine.stages);
}

/// While no scenario has a worker, no worker is counted.
pub proof fn lemma_weights_of_idle(stages: Seq<Stage>)
    requires
        forall|place: int| 0 <= place < stages.len() ==> holds_slot(#[trigger] stages[place]) == 0,
    ensures
        working(stages) == 0,
        holding(stages) == 0,
    decreases stages.len(),
{
    if stages.len() > 0 {
        lemma_weights_of_idle(stages.drop_last());
        assert(stages.map_values(|stage: Stage| at_work(stage)).drop_last()
            =~= stages.drop_last().map_values(|stage: Stage| at_work(stage)));
        assert(stages.map_values(|stage: Stage| holds_slot(stage)).drop_last()
            =~= stages.drop_last().map_values(|stage: Stage| holds_slot(stage)));
        assert(holds_slot(stages[stages.len() - 1]) == 0);
    }
}

/// The load phase is consistent after every run from its beginning.
pub proof fn lemma_run_is_consistent(scenarios: nat, parallels: nat, steps: Seq<Step>)
    requires
        Engine::initial(scenarios, parallels).admits(steps),
    ensures
        Engine::initial(scenarios, parallels).after(steps).consistent(),
        Engine::initial(scenarios, parallels).after(steps).scenarios() == scenarios,
        Engine::initial(scenarios, parallels).after(steps).parallels == parallels,
    decreases steps.len(),
{
    lemma_initial_is_consistent(scenarios, parallels);
    if steps.len() > 0 {
        lemma_run_is_consistent(scenarios, parallels, steps.drop_last());
        lemma_step_keeps_consistent(
            Engine::initial(scenarios, parallels).after(steps.drop_last()),
            steps.last(),
        );
    }
}

/// At no moment of a run are more scenarios running, or more workers alive,
/// than the benchmark has parallels.
pub proof fn lemma_workers_never_exceed_parallels(scenarios: nat, parallels: nat, steps: Seq<Step>)
    requires
        Engine::initial(scenarios, parallels).admits(steps),
    ensures
        running(Engine::initial(scenarios, parallels).after(steps).stages) <= holding(
            Engine::initial(scenarios, parallels).after(steps).stages,
        ),
        holding(Engine::initial(scenarios, parallels).after(steps).stages) <= parallels,
{
    lemma_run_is_consistent(scenarios, parallels, steps);
    let stages = Engine::initial(scenarios, parallels).after(steps).stages;
    lemma_sum_pointwise(
        stages.map_values(|stage: Stage| if stage is Running { 1nat } else { 0nat }),
        stages.map_values(|stage: Stage| holds_slot(stage)),
    );
}

/// Once the consumer has received `Stopped`, it holds the outcome of every
/// scenario, each exactly once, and nothing else: whatever the number of
/// parallels and the order of the steps, no scenario is lost, run twice or
/// canceled. The order of the outcomes is that of their arrival.
pub proof fn lemma_consumer_collects_every_scenario(
    scenarios: nat,
    parallels: nat,
    steps: Seq<Step>,
)
    requires
        Engine::initial(scenarios, parallels).admits(steps),
        Engine::initial(scenarios, parallels).after(steps).consumer.finished,
    ensures
        ({
            let collected = Engine::initial(scenarios, parallels).after(steps).consumer.outcomes;
            &&& collected.len() == scenarios
            &&& collected.no_duplicates()
            &&& forall|place: nat| collected.contains(place) <==> place < scenarios
            &&& collected.to_multiset() == places(scenarios).to_multiset()
        }),
        forall|place: int|
            0 <= place < scenarios ==> has_reported(
                #[trigger] Engine::initial(scenarios, parallels).after(steps).stages[place],
            ),
{
    lemma_run_is_consistent(scenarios, parallels, steps);
    let engine = Engine::initial(scenarios, parallels).after(steps);
    let collected = engine.consumer.outcomes;
    assert(engine.delivered() =~= collected);
    assert forall|place: int| 0 <= place < scenarios implies has_reported(
        #[trigger] engine.stages[place],
    ) by {
        assert(engine.stage_fits(place));
        lemma_working_counts(engine.stages, place);
    }
    assert forall|place: nat| collected.contains(place) <==> place < scenarios by {
        if collected.contains(place) {
            let k = choose|k: int| 0 <= k < collected.len() && collected[k] == place;
            assert(engine.delivered()[k] < engine.scenarios());
        }
        if place < scenarios {
            assert(has_reported(engine.stages[place as int]));
        }
    }
    assert forall|place: nat| places(scenarios).contains(place) <==> place < scenarios by {
        if place < scenarios {
            assert(places(scenarios)[place as int] == place);
        }
    }
    lemma_same_members(collected, places(scenarios));
}

/// While the consumer has not received `Stopped`, some actor can take a
/// step: with at least one parallel the load phase never comes to a halt
/// before its end.
pub proof fn lemma_never_stuck(scenarios: nat, parallels: nat, steps: Seq<Step>) -> (step: Step)
    requires
        parallels >= 1,
        Engine::initial(scenarios, parallels).admits(steps),
        !Engine::initial(scenarios, parallels).after(steps).consumer.finished,
    ensures
        Engine::initial(scenarios, parallels).after(steps).enabled(step),
{
    lemma_run_is_consistent(scenarios, parallels, steps);
    let engine = Engine::initial(scenarios, parallels).after(steps);
    lemma_plan(engine);
    if engine.sent < engine.plan().len() {
        Step::SourceSends
    } else if engine.results.len() > 0 {
        Step::ConsumerTakes
    } else if holding(engine.stages) > 0 {
        let place = lemma_sum_has_term(engine.stages.map_values(|stage: Stage| holds_slot(stage)));
        match engine.stages[place] {
            Stage::Running => Step::WorkerReports(place as nat),
            Stage::Reported => Step::WorkerSignals(place as nat),
            _ => Step::WorkerReleases(place as nat),
        }
    } else {
        lemma_sum_pointwise(
            engine.stages.map_values(|stage: Stage| at_work(stage)),
            engine.stages.map_values(|stage: Stage| holds_slot(stage)),
        );
        if engine.work.len() > 0 {
            Step::ProcessorTakesWork
        } else {
            Step::ProcessorTakesSignal
        }
    }
}

/// How many steps the scenario still calls for: those of its worker, and
/// those that send and receive its messages, but for the messages that are
/// on their way already.
pub open spec fn steps_ahead(stage: Stage) -> nat {
    match stage {
        Stage::Unsent => 7,
        Stage::Queued => 6,
        Stage::Running => 5,
        Stage::Reported => 3,
        Stage::Signaled => 1,
        Stage::Released => 0,
        Stage::Canceled => 0,
    }
}

impl Engine {
    /// How many steps the end of the load phase still calls for: the
    /// source's `Stop`, the processor's receiving it, and the consumer's
    /// receiving `Stopped`.
    pub open spec fn stop_ahead(self) -> nat {
        if self.sent <= self.scenarios() {
            3
        } else if !self.processor.shutdown {
            2
        } else if !self.processor.exited {
            1
        } else {
            0
        }
    }

    /// How many steps can still be taken.
    pub open spec fn steps_ahead(self) -> nat {
        sum(self.stages.map_values(|stage: Stage| steps_ahead(stage))) + self.signals
            + self.results.len() + self.stop_ahead()
    }
}

/// Moving one scenario to another stage changes the number of steps ahead
/// by the difference of the two stages.
proof fn lemma_steps_ahead_update(stages: Seq<Stage>, place: int, stage: Stage)
    requires
        0 <= place < stages.len(),
    ensures
        sum(stages.update(place, stage).map_values(|stage: Stage| steps_ahead(stage)))
            + steps_ahead(stages[place]) == sum(
            stages.map_values(|stage: Stage| steps_ahead(stage)),
        ) + steps_ahead(stage),
{
    let weights = stages.map_values(|stage: Stage| steps_ahead(stage));
    lemma_sum_update(weights, place, steps_ahead(stage));
    assert(stages.update(place, stage).map_values(|stage: Stage| steps_ahead(stage))
        =~= weights.update(place, steps_ahead(stage)));
}

/// Every step brings the end one step nearer.
pub proof fn lemma_step_makes_progress(engine: Engine, step: Step)
    requires
        engine.consistent(),
        engine.enabled(step),
    ensures
        engine.next(step).steps_ahead() + 1 == engine.steps_ahead(),
{
    let after = engine.next(step);
    lemma_plan(engine);
    lemma_step_keeps_consistent(engine, step);
    match step {
        Step::SourceSends => {
            match engine.plan()[engine.sent as int] {
                LoadScenarioWorkMessage::Start(place) => {
                    assert(engine.stage_fits(place as int));
                    lemma_steps_ahead_update(engine.stages, place as int, Stage::Queued);
                },
                LoadScenarioWorkMessage::Stop => {},
            }
        },
        Step::ProcessorTakesWork => {
            lemma_processor_takes_work(engine);
            assert(engine.work[0] == engine.plan()[engine.taken()]);
            match engine.work[0] {
                LoadScenarioWorkMessage::Start(place) => {
                    assert(engine.stage_fits(place as int));
                    lemma_steps_ahead_update(engine.stages, place as int, Stage::Running);
                },
                LoadScenarioWorkMessage::Stop => {},
            }
        },
        Step::ProcessorTakesSignal => {},
        Step::WorkerReports(place) => {
            lemma_steps_ahead_update(engine.stages, place as int, Stage::Reported);
        },
        Step::WorkerSignals(place) => {
            lemma_steps_ahead_update(engine.stages, place as int, Stage::Signaled);
        },
        Step::WorkerReleases(place) => {
            lemma_steps_ahead_update(engine.stages, place as int, Stage::Released);
        },
        Step::ConsumerTakes => {},
    }
}

/// Before anything has happened, seven steps are ahead for each scenario
/// and three for the end.
proof fn lemma_initial_steps_ahead(stages: Seq<Stage>)
    requires
        forall|place: int| 0 <= place < stages.len() ==> #[trigger] stages[place] is Unsent,
    ensures
        sum(stages.map_values(|stage: Stage| steps_ahead(stage))) == 7 * stages.len(),
    decreases stages.len(),
{
    if stages.len() > 0 {
        lemma_initial_steps_ahead(stages.drop_last());
        assert(stages.map_values(|stage: Stage| steps_ahead(stage)).drop_last()
            =~= stages.drop_last().map_values(|stage: Stage| steps_ahead(stage)));
        assert(stages[stages.len() - 1] is Unsent);
    }
}

/// Every run ends: the steps taken and the steps ahead add up to seven for
/// each scenario and three more, so no run is longer than that.
pub proof fn lemma_run_is_bounded(scenarios: nat, parallels: nat, steps: Seq<Step>)
    requires
        Engine::initial(scenarios, parallels).admits(steps),
    ensures
        steps.len() + Engine::initial(scenarios, parallels).after(steps).steps_ahead() == 7
            * scenarios + 3,
        steps.len() <= 7 * scenarios + 3,
    decreases steps.len(),
{
    let initial = Engine::initial(scenarios, parallels);
    if steps.len() == 0 {
        lemma_initial_steps_ahead(initial.stages);
    } else {
        lemma_run_is_bounded(scenarios, parallels, steps.drop_last());
        lemma_run_is_consistent(scenarios, parallels, steps.drop_last());
        lemma_step_makes_progress(initial.after(steps.drop_last()), steps.last());
    }
}

/// From every moment of a run the load phase can go on to its end: with at
/// least one parallel, some steps lead on from here to the moment at which
/// the consumer has received `Stopped`. As every step brings the end one
/// step nearer, any run that goes on for as long as a step can be taken
/// ends there.
pub proof fn lemma_run_can_finish(scenarios: nat, parallels: nat, steps: Seq<Step>) -> (rest: Seq<
    Step,
>)
    requires
        parallels >= 1,
        Engine::initial(scenarios, parallels).admits(steps),
    ensures
        Engine::initial(scenarios, parallels).admits(steps + rest),
        Engine::initial(scenarios, parallels).after(steps + rest).consumer.finished,
    decreases Engine::initial(scenarios, parallels).after(steps).steps_ahead(),
{
    let initial = Engine::initial(scenarios, parallels);
    if initial.after(steps).consumer.finished {
        assert(steps + Seq::<Step>::empty() =~= steps);
        Seq::empty()
    } else {
        let step = lemma_never_stuck(scenarios, parallels, steps);
        let longer = steps.push(step);
        assert(longer.drop_last() =~= steps);
        lemma_run_is_consistent(scenarios, parallels, steps);
        lemma_step_makes_progress(initial.after(steps), step);
        let rest = lemma_run_can_finish(scenarios, parallels, longer);
        assert(longer + rest =~= steps + (seq![step] + rest));
        seq![step] + rest
    }
}

/// Without a parallel no scenario is ever started, so a load phase that
/// has a scenario never ends: this is why a benchmark refuses zero
/// parallels.
pub proof fn lemma_zero_parallels_start_nothing(scenarios: nat, steps: Seq<Step>)
    requires
        Engine::initial(scenarios, 0).admits(steps),
    ensures
        forall|place: int|
            0 <= place < scenarios ==> {
                let stage = #[trigger] Engine::initial(scenarios, 0).after(steps).stages[place];
                stage is Unsent || stage is Queued
            },
        scenarios >= 1 ==> !Engine::initial(scenarios, 0).after(steps).consumer.finished,
    decreases steps.len(),
{
    let initial = Engine::initial(scenarios, 0);
    lemma_run_is_consistent(scenarios, 0, steps);
    if steps.len() > 0 {
        let before = initial.after(steps.drop_last());
        let step = steps.last();
        lemma_zero_parallels_start_nothing(scenarios, steps.drop_last());
        lemma_run_is_consistent(scenarios, 0, steps.drop_last());
        lemma_plan(before);
        match step {
            Step::ProcessorTakesWork => {
                lemma_processor_takes_work(before);
            },
            Step::WorkerReports(place) => {
                assert(before.stages[place as int] is Running);
            },
            Step::WorkerSignals(place) => {
                assert(before.stages[place as int] is Reported);
            },
            Step::WorkerReleases(place) => {
                assert(before.stages[place as int] is Signaled);
            },
            _ => {},
        }
        assert forall|place: int| 0 <= place < scenarios implies {
            let stage = #[trigger] initial.after(steps).stages[place];
            stage is Unsent || stage is Queued
        } by {
            let stage = before.stages[place];
            assert(stage is Unsent || stage is Queued);
        }
    }
    if scenarios >= 1 && initial.after(steps).consumer.finished {
        lemma_consumer_collects_every_scenario(scenarios, 0, steps);
        assert(has_reported(initial.after(steps).stages[0]));
    }
}

/// Two load phases of the same scenarios collect the same outcomes, whatever
/// their parallels and the order of their steps: only the order of the
/// outcomes may differ. So the totals of what they collect are the same, if
/// each scenario comes to the same outcome, `outcome`, in both.
pub proof fn lemma_totals_ignore_parallels(
    scenarios: nat,
    outcome: spec_fn(nat) -> ScenarioResultView,
    parallels: nat,
    steps: Seq<Step>,
    other_parallels: nat,
    other_steps: Seq<Step>,
)
    requires
        Engine::initial(scenarios, parallels).admits(steps),
        Engine::initial(scenarios, parallels).after(steps).consumer.finished,
        Engine::initial(scenarios, other_parallels).admits(other_steps),
        Engine::initial(scenarios, other_parallels).after(other_steps).consumer.finished,
    ensures
        ({
            let collected = Engine::initial(scenarios, parallels).after(steps).consumer.outcomes;
            let other_collected = Engine::initial(scenarios, other_parallels).after(
                other_steps,
            ).consumer.outcomes;
            let result = BenchmarkResultView { details: collected.map_values(outcome) };
            let other_result = BenchmarkResultView {
                details: other_collected.map_values(outcome),
            };
            &&& collected.to_multiset() == other_collected.to_multiset()
            &&& result.gain() == other_result.gain()
            &&& result.lose() == other_result.lose()
            &&& result.score() == other_result.score()
            &&& result.failed() == other_result.failed()
        }),
{
    lemma_consumer_collects_every_scenario(scenarios, parallels, steps);
    lemma_consumer_collects_every_scenario(scenarios, other_parallels, other_steps);
    let collected = Engine::initial(scenarios, parallels).after(steps).consumer.outcomes;
    let other_collected = Engine::initial(scenarios, other_parallels).after(
        other_steps,
    ).consumer.outcomes;
    lemma_rearranged_outcomes(collected, other_collected, outcome);
    lemma_totals_ignore_order(
        BenchmarkResultView { details: collected.map_values(outcome) },
        BenchmarkResultView { details: other_collected.map_values(outcome) },
    );
}

/// The outcomes of a rearrangement of some scenarios are a rearrangement
/// of the outcomes of those scenarios.
proof fn lemma_rearranged_outcomes(
    left: Seq<nat>,
    right: Seq<nat>,
    outcome: spec_fn(nat) -> ScenarioResultView,
)
    requires
        left.to_multiset() == right.to_multiset(),
    ensures
        left.map_values(outcome).to_multiset() == right.map_values(outcome).to_multiset(),
    decreases left.len(),
{
    left.to_multiset_ensures();
    right.to_multiset_ensures();
    if left.len() == 0 {
        assert(right.len() == 0);
        assert(left.map_values(outcome) =~= right.map_values(outcome));
    } else {
        let place = left.last();
        assert(left.contains(place)) by {
            assert(left[left.len() - 1] == place);
        }
        assert(right.to_multiset().count(place) > 0);
        assert(right.contains(place));
        let at = right.index_of(place);
        let rest = right.remove(at);
        assert(left.drop_last() =~= left.remove(left.len() - 1));
        assert(left.drop_last().to_multiset() =~= left.to_multiset().remove(place));
        assert(rest.to_multiset() =~= right.to_multiset().remove(place));
        lemma_rearranged_outcomes(left.drop_last(), rest, outcome);
        let mapped_left = left.map_values(outcome);
        let mapped_right = right.map_values(outcome);
        assert(mapped_left.remove(left.len() - 1) =~= left.drop_last().map_values(outcome));
        assert(mapped_right.remove(at) =~= rest.map_values(outcome));
        vstd::seq_lib::to_multiset_remove(mapped_left, left.len() - 1);
        vstd::seq_lib::to_multiset_remove(mapped_right, at);
        mapped_left.to_multiset_ensures();
        mapped_right.to_multiset_ensures();
        assert(mapped_left.to_multiset() =~= left.drop_last().map_values(
            outcome,
        ).to_multiset().insert(outcome(place)));
        assert(mapped_right.to_multiset() =~= rest.map_values(outcome).to_multiset().insert(
            outcome(place),
        ));
    }
}

} // verus!
