//! The load phase: a source that hands out the scenarios, a processor that
//! starts a worker for each and counts the workers at work, and a consumer
//! that collects what the workers report. The three run at the same time
//! and talk over channels; this module holds what each of them decides.
pub mod model;

use vstd::prelude::*;

verus! {

/// What the source sends to the processor.
pub enum LoadScenarioWorkMessage<W> {
    /// A scenario to run.
    Start(W),
    /// No scenario follows.
    Stop,
}

/// What reaches the consumer.
pub enum LoadScenarioResultMessage<R> {
    /// The outcome of a scenario that a worker ran.
    Processed(R),
    /// A scenario that was never started, because it reached the processor
    /// after the source's `Stop`.
    Canceled(R),
    /// No message follows.
    Stopped,
}

/// What the source sends, in order: every scenario, then `Stop`.
pub open spec fn work_plan<W>(scenarios: Seq<W>) -> Seq<LoadScenarioWorkMessage<W>> {
    scenarios.map_values(|scenario: W| LoadScenarioWorkMessage::Start(scenario)).push(
        LoadScenarioWorkMessage::Stop,
    )
}

/// The messages of the source for `scenarios`: one `Start` for each, in the
/// order of the list, and a final `Stop`.
pub fn load_scenario_work<W>(scenarios: Vec<W>) -> (messages: Vec<LoadScenarioWorkMessage<W>>)
    ensures
        messages@ == work_plan(scenarios@),
{
    let ghost all = scenarios@;
    let mut messages: Vec<LoadScenarioWorkMessage<W>> = Vec::new();
    for scenario in sending: scenarios.into_iter()
        invariant
            sending.seq() == all,
            messages@ == all.take(sending.index()).map_values(
                |scenario: W| LoadScenarioWorkMessage::Start(scenario),
            ),
    {
        messages.push(LoadScenarioWorkMessage::Start(scenario));
        assert(messages@ =~= all.take(sending.index() + 1).map_values(
            |scenario: W| LoadScenarioWorkMessage::Start(scenario),
        ));
    }
    assert(all.take(all.len() as int) =~= all);
    messages.push(LoadScenarioWorkMessage::Stop);
    messages
}

/// What the processor does in answer to a message of the source.
pub enum ProcessorAction<W> {
    /// Take an admission slot, waiting for one if none is free, and start a
    /// worker on the scenario.
    Spawn(W),
    /// Report the scenario as canceled: it is not run.
    Cancel(W),
    /// Send `Stopped` to the consumer and leave.
    Stop,
    /// Nothing to do but wait for the next message.
    Wait,
}

/// What the processor knows: how many workers it has started that it has
/// not yet seen finish, whether the source's `Stop` has arrived, and whether
/// it has sent its own `Stopped` and left.
pub struct ProcessorState {
    pub ongoing: nat,
    pub shutdown: bool,
    pub exited: bool,
}

impl ProcessorState {
    /// Before the first message: no worker, no `Stop`.
    pub open spec fn initial() -> ProcessorState {
        ProcessorState { ongoing: 0, shutdown: false, exited: false }
    }

    /// A scenario arrives. After `Stop` it is canceled and nothing changes;
    /// before it, a worker is started and counted.
    pub open spec fn on_start(self) -> ProcessorState {
        if self.shutdown {
            self
        } else {
            ProcessorState { ongoing: self.ongoing + 1, ..self }
        }
    }

    /// The source's `Stop` arrives. With no worker at work the processor
    /// leaves at once.
    pub open spec fn on_stop(self) -> ProcessorState {
        ProcessorState { shutdown: true, exited: self.ongoing == 0, ..self }
    }

    /// A worker says that it has finished. If it was the last one and
    /// `Stop` has arrived, the processor leaves. A signal that no worker can
    /// have sent changes nothing.
    pub open spec fn on_worker_finished(self) -> ProcessorState {
        if self.ongoing == 0 {
            self
        } else {
            ProcessorState {
                ongoing: (self.ongoing - 1) as nat,
                exited: self.shutdown && self.ongoing == 1,
                ..self
            }
        }
    }

    /// What the processor knows after a message of the source.
    pub open spec fn on_work<W>(self, message: LoadScenarioWorkMessage<W>) -> ProcessorState {
        match message {
            LoadScenarioWorkMessage::Start(_) => self.on_start(),
            LoadScenarioWorkMessage::Stop => self.on_stop(),
        }
    }

    /// What the processor does in answer to a message of the source: it
    /// starts a worker on a scenario that comes before `Stop` and cancels
    /// one that comes after it; on `Stop` it leaves if no worker is at work,
    /// and waits for the last one otherwise.
    pub open spec fn action_on<W>(self, message: LoadScenarioWorkMessage<W>) -> ProcessorAction<
        W,
    > {
        match message {
            LoadScenarioWorkMessage::Start(scenario) => if self.shutdown {
                ProcessorAction::Cancel(scenario)
            } else {
                ProcessorAction::Spawn(scenario)
            },
            LoadScenarioWorkMessage::Stop => if self.ongoing == 0 {
                ProcessorAction::Stop
            } else {
                ProcessorAction::Wait
            },
        }
    }
}

/// The processor of the load phase.
pub struct LoadProcessor {
    ongoing_workers: usize,
    is_receive_exit: bool,
    is_stopped: bool,
}

impl View for LoadProcessor {
    type V = ProcessorState;

    closed spec fn view(&self) -> ProcessorState {
        ProcessorState {
            ongoing: self.ongoing_workers as nat,
            shutdown: self.is_receive_exit,
            exited: self.is_stopped,
        }
    }
}

impl LoadProcessor {
    /// A processor that has seen no message yet.
    pub fn new() -> (processor: LoadProcessor)
        ensures
            processor@ == ProcessorState::initial(),
    {
        LoadProcessor { ongoing_workers: 0, is_receive_exit: false, is_stopped: false }
    }

    /// The number of workers started and not yet seen to finish.
    pub fn ongoing_workers(&self) -> (ongoing: usize)
        ensures
            ongoing == self@.ongoing,
    {
        self.ongoing_workers
    }

    /// Whether the source's `Stop` has arrived.
    pub fn is_receive_exit(&self) -> (shutdown: bool)
        ensures
            shutdown == self@.shutdown,
    {
        self.is_receive_exit
    }

    /// Whether the processor has sent `Stopped` and left.
    pub fn is_stopped(&self) -> (exited: bool)
        ensures
            exited == self@.exited,
    {
        self.is_stopped
    }

    /// Handles a message of the source.
    ///
    /// A scenario is handed back for a worker to run, or, after `Stop`, for
    /// cancellation. `Stop` makes the processor leave at once if no worker is
    /// at work, and wait for the last one otherwise.
    ///
    /// A processor that has left handles no message, and the count of the
    /// workers has to fit a `usize`.
    pub fn on_work<W>(&mut self, message: LoadScenarioWorkMessage<W>) -> (action: ProcessorAction<
        W,
    >)
        requires
            !old(self)@.exited,
            message is Start && !old(self)@.shutdown ==> old(self)@.ongoing < usize::MAX,
        ensures
            final(self)@ == old(self)@.on_work(message),
            action == old(self)@.action_on(message),
    {
        match message {
            LoadScenarioWorkMessage::Start(scenario) => {
                if self.is_receive_exit {
                    return ProcessorAction::Cancel(scenario);
                }
                self.ongoing_workers += 1;
                ProcessorAction::Spawn(scenario)
            },
            LoadScenarioWorkMessage::Stop => {
                self.is_receive_exit = true;
                if self.ongoing_workers == 0 {
                    self.is_stopped = true;
                    return ProcessorAction::Stop;
                }
                ProcessorAction::Wait
            },
        }
    }

    /// Handles the signal of a worker that has finished, and says whether the
    /// processor now sends `Stopped` and leaves: it does if `Stop` has
    /// arrived and this was the last worker at work. A signal that comes
    /// while no worker is at work is passed over.
    ///
    /// A processor that has left handles no signal.
    pub fn on_worker_finished(&mut self) -> (stop: bool)
        requires
            !old(self)@.exited,
        ensures
            final(self)@ == old(self)@.on_worker_finished(),
            stop == final(self)@.exited,
    {
        if self.ongoing_workers == 0 {
            return false;
        }
        self.ongoing_workers -= 1;
        if self.is_receive_exit && self.ongoing_workers == 0 {
            self.is_stopped = true;
            return true;
        }
        false
    }
}

/// What the consumer has: the outcomes collected so far, in the order of
/// their arrival, and whether `Stopped` has arrived.
pub struct Collected<R> {
    pub outcomes: Seq<R>,
    pub finished: bool,
}

impl<R> Collected<R> {
    /// Before the first message.
    pub open spec fn initial() -> Collected<R> {
        Collected { outcomes: Seq::empty(), finished: false }
    }

    /// A message arrives: an outcome is appended, a cancellation is passed
    /// over, and `Stopped` ends the collection.
    pub open spec fn receive(self, message: LoadScenarioResultMessage<R>) -> Collected<R> {
        match message {
            LoadScenarioResultMessage::Processed(outcome) => Collected {
                outcomes: self.outcomes.push(outcome),
                ..self
            },
            LoadScenarioResultMessage::Canceled(_) => self,
            LoadScenarioResultMessage::Stopped => Collected { finished: true, ..self },
        }
    }
}

/// The consumer of the load phase.
pub struct LoadConsumer<R> {
    scenario_results: Vec<R>,
    is_stopped: bool,
}

impl<R> View for LoadConsumer<R> {
    type V = Collected<R>;

    closed spec fn view(&self) -> Collected<R> {
        Collected { outcomes: self.scenario_results@, finished: self.is_stopped }
    }
}

impl<R> LoadConsumer<R> {
    /// A consumer that has received no message yet.
    pub fn new() -> (consumer: LoadConsumer<R>)
        ensures
            consumer@ == Collected::<R>::initial(),
    {
        LoadConsumer { scenario_results: Vec::new(), is_stopped: false }
    }

    /// Whether `Stopped` has arrived.
    pub fn is_stopped(&self) -> (finished: bool)
        ensures
            finished == self@.finished,
    {
        self.is_stopped
    }

    /// Handles a message and says whether it was `Stopped`, the last one.
    /// After `Stopped` the consumer handles no message.
    pub fn receive(&mut self, message: LoadScenarioResultMessage<R>) -> (finished: bool)
        requires
            !old(self)@.finished,
        ensures
            final(self)@ == old(self)@.receive(message),
            finished == final(self)@.finished,
    {
        match message {
            LoadScenarioResultMessage::Processed(result) => {
                self.scenario_results.push(result);
                false
            },
            LoadScenarioResultMessage::Canceled(_) => false,
            LoadScenarioResultMessage::Stopped => {
                self.is_stopped = true;
                true
            },
        }
    }

    /// The outcomes collected, in the order of their arrival.
    pub fn into_results(self) -> (results: Vec<R>)
        ensures
            results@ == self@.outcomes,
    {
        self.scenario_results
    }
}

} // verus!
