//! Bounded-concurrency scheduling: how many units of work may be in flight,
//! which item starts next, and what becomes of each outcome.
//!
//! The schedule is a state machine. Its driver asks for the next action,
//! starts the item it is handed or awaits a completion, and reports each
//! outcome; the schedule never lets more units be in flight than its budget.

use vstd::prelude::*;

verus! {

/// Concurrency budget for fetching the index pages.
pub const INDEX_CONCURRENCY: usize = 30;

/// Concurrency budget for fetching and extracting the recipe pages.
pub const RECIPE_CONCURRENCY: usize = 50;

/// What the driver of a [`Pipeline`] has to do next.
#[derive(Debug, Clone, Copy, PartialEq, Eq, Structural)]
pub enum Action {
    /// Begin work on the item with this index.
    Start(usize),
    /// Nothing may start now: wait for a unit in flight to complete.
    Wait,
    /// Nothing is in flight and nothing remains to start.
    Done,
}

/// The state of a run: how many of its `total` items have started, what has
/// come of the units that completed, and whether it was asked to stop.
pub ghost struct Schedule<O> {
    /// Number of items of the run.
    pub total: nat,
    /// The concurrency budget.
    pub limit: nat,
    /// Number of items started so far: the items `0..started`.
    pub started: nat,
    /// Number of units that failed.
    pub failed: nat,
    /// Whether the run was asked to stop.
    pub stopped: bool,
    /// The outputs of the units that succeeded, in the order of completion.
    pub outputs: Seq<O>,
}

impl<O> Schedule<O> {
    /// Number of units completed so far, successful or not.
    pub open spec fn completed(self) -> nat {
        self.outputs.len() + self.failed
    }

    /// Number of units started and not yet completed.
    pub open spec fn in_flight(self) -> int {
        self.started - self.completed()
    }

    /// What holds of every state of a run: the items can be counted by a
    /// machine index, nothing completes before it starts, nothing starts
    /// beyond the last item, and the budget is never exceeded.
    pub open spec fn wf(self) -> bool {
        &&& self.limit >= 1
        &&& self.total <= usize::MAX
        &&& self.started <= self.total
        &&& self.completed() <= self.started
        &&& self.in_flight() <= self.limit
    }

    /// Whether another item may start now.
    pub open spec fn can_start(self) -> bool {
        !self.stopped && self.started < self.total && self.in_flight() < self.limit
    }

    /// Whether the run is over: nothing in flight and nothing left to start.
    pub open spec fn is_done(self) -> bool {
        self.in_flight() == 0 && (self.stopped || self.started == self.total)
    }

    /// The state before anything has started.
    pub open spec fn fresh(total: nat, limit: nat) -> Self {
        Schedule { total, limit, started: 0, failed: 0, stopped: false, outputs: Seq::empty() }
    }

    /// The action that this state calls for.
    pub open spec fn next_action(self) -> Action {
        if self.can_start() {
            Action::Start(self.started as usize)
        } else if self.is_done() {
            Action::Done
        } else {
            Action::Wait
        }
    }

    /// The state after the action it calls for was handed out: a start counts
    /// the item as in flight, the other actions change nothing.
    pub open spec fn polled(self) -> Self {
        if self.can_start() {
            Schedule { started: self.started + 1, ..self }
        } else {
            self
        }
    }

    /// The state after one unit in flight completed with `outcome`: a success
    /// joins the outputs, a failure is counted and dropped.
    pub open spec fn completing<E>(self, outcome: Result<O, E>) -> Self {
        match outcome {
            Ok(output) => Schedule { outputs: self.outputs.push(output), ..self },
            Err(_) => Schedule { failed: self.failed + 1, ..self },
        }
    }

    /// The state after the run was asked to stop.
    pub open spec fn halted(self) -> Self {
        Schedule { stopped: true, ..self }
    }
}

/// The schedule of one run over a number of items with a budget of units in
/// flight. Items start in index order, each once; outcomes are collected in
/// the order in which the driver reports them.
pub struct Pipeline<O> {
    total: usize,
    limit: usize,
    started: usize,
    failed: usize,
    stopped: bool,
    outputs: Vec<O>,
}

impl<O> View for Pipeline<O> {
    type V = Schedule<O>;

    closed spec fn view(&self) -> Schedule<O> {
        Schedule {
            total: self.total as nat,
            limit: self.limit as nat,
            started: self.started as nat,
            failed: self.failed as nat,
            stopped: self.stopped,
            outputs: self.outputs@,
        }
    }
}

impl<O> Pipeline<O> {
    /// A fresh run over `total` items with a budget of `limit`.
    pub fn new(total: usize, limit: usize) -> (pipeline: Self)
        requires
            limit >= 1,
        ensures
            pipeline@ == Schedule::<O>::fresh(total as nat, limit as nat),
            pipeline@.wf(),
    {
        Pipeline { total, limit, started: 0, failed: 0, stopped: false, outputs: Vec::new() }
    }

    /// Decides the next action. `Start(i)` hands out item `i` and counts it as
    /// in flight; the other two actions leave the state as it is.
    pub fn poll(&mut self) -> (action: Action)
        requires
            old(self)@.wf(),
        ensures
            action == old(self)@.next_action(),
            action is Start ==> action->Start_0 == old(self)@.started,
            final(self)@ == old(self)@.polled(),
            final(self)@.wf(),
    {
        let in_flight = self.started - self.outputs.len() - self.failed;
        if !self.stopped && self.started < self.total && in_flight < self.limit {
            let index = self.started;
            self.started = index + 1;
            Action::Start(index)
        } else if in_flight == 0 {
            Action::Done
        } else {
            Action::Wait
        }
    }

    /// Records the outcome of one unit in flight: a success joins the outputs,
    /// a failure is counted and dropped.
    pub fn complete<E>(&mut self, outcome: Result<O, E>)
        requires
            old(self)@.wf(),
            old(self)@.in_flight() > 0,
        ensures
            final(self)@ == old(self)@.completing(outcome),
            final(self)@.wf(),
    {
        match outcome {
            Ok(output) => {
                self.outputs.push(output);
            },
            Err(_) => {
                self.failed = self.failed + 1;
            },
        }
    }

    /// Asks the run to stop: what is in flight may still complete, nothing new
    /// starts.
    pub fn stop(&mut self)
        requires
            old(self)@.wf(),
        ensures
            final(self)@ == old(self)@.halted(),
            final(self)@.wf(),
    {
        self.stopped = true;
    }

    /// Number of units in flight now; never more than the budget.
    pub fn active(&self) -> (n: usize)
        requires
            self@.wf(),
        ensures
            n == self@.in_flight(),
            n <= self@.limit,
    {
        self.started - self.outputs.len() - self.failed
    }

    /// Number of units that failed so far.
    pub fn failure_count(&self) -> (n: usize)
        ensures
            n == self@.failed,
    {
        self.failed
    }

    /// Number of items started so far.
    pub fn started_count(&self) -> (n: usize)
        ensures
            n == self@.started,
    {
        self.started
    }

    /// Ends the run and hands out the successful outputs.
    pub fn into_outputs(self) -> (outputs: Vec<O>)
        ensures
            outputs@ == self@.outputs,
    {
        self.outputs
    }
}

/// Every step keeps the budget: from a well-formed state, handing out the
/// next action, recording a completion of a unit in flight, and stopping all
/// lead to a well-formed state, in which no more units are in flight than the
/// budget allows.
pub proof fn lemma_steps_keep_the_budget<O, E>(state: Schedule<O>, outcome: Result<O, E>)
    requires
        state.wf(),
    ensures
        state.polled().wf(),
        state.halted().wf(),
        state.in_flight() > 0 ==> state.completing(outcome).wf(),
        state.polled().in_flight() <= state.limit,
        Schedule::<O>::fresh(state.total, state.limit).wf(),
{
}

/// Each item starts once, and in index order: a start hands out the index
/// that follows the items already started, and only a start moves that
/// index.
pub proof fn lemma_items_start_once_in_order<O, E>(state: Schedule<O>, outcome: Result<O, E>)
    requires
        state.wf(),
    ensures
        state.next_action() is Start <==> state.can_start(),
        state.can_start() ==> state.next_action() == Action::Start(state.started as usize)
            && state.next_action()->Start_0 == state.started && state.polled().started
            == state.started + 1,
        !state.can_start() ==> state.polled() == state,
        state.completing(outcome).started == state.started,
        state.halted().started == state.started,
        !state.halted().can_start(),
{
}

/// A run that was not stopped is over only when every item was attempted:
/// each item then accounts for one output or one failure, and nothing is in
/// flight.
pub proof fn lemma_done_accounts_for_all<O>(state: Schedule<O>)
    requires
        state.wf(),
        state.next_action() == Action::Done,
        !state.stopped,
    ensures
        state.started == state.total,
        state.outputs.len() + state.failed == state.total,
        state.in_flight() == 0,
{
}

/// While a run is not over, its driver can always make progress: either an
/// item may start, or a unit is in flight whose completion it can await.
pub proof fn lemma_never_stuck<O>(state: Schedule<O>)
    requires
        state.wf(),
    ensures
        state.next_action() == Action::Wait ==> state.in_flight() > 0,
        state.next_action() == Action::Done <==> state.is_done(),
{
}

/// The successful outputs among a sequence of outcomes, in order.
pub open spec fn successes<O, E>(outcomes: Seq<Result<O, E>>) -> Seq<O> {
    outcomes.filter_map(
        |outcome: Result<O, E>|
            match outcome {
                Ok(output) => Some(output),
                Err(_) => None,
            },
    )
}

/// The number of failures among a sequence of outcomes.
pub open spec fn failures<O, E>(outcomes: Seq<Result<O, E>>) -> nat {
    outcomes.filter(|outcome: Result<O, E>| outcome is Err).len()
}

/// Every outcome is either a success or a failure: the successes and the
/// failures of `outcomes` add up to its length.
pub proof fn lemma_outcomes_accounted<O, E>(outcomes: Seq<Result<O, E>>)
    ensures
        successes(outcomes).len() + failures(outcomes) == outcomes.len(),
    decreases outcomes.len(),
{
    if outcomes.len() > 0 {
        let rest = outcomes.drop_last();
        lemma_outcomes_accounted(rest);
        assert(outcomes =~= rest.push(outcomes.last()));
        rest.lemma_filter_push(outcomes.last(), |outcome: Result<O, E>| outcome is Err);
    }
}

/// Whether `outcomes` is what `worker` may return on `items`, item by item.
pub open spec fn outcomes_of<I, O, E, F: Fn(&I) -> Result<O, E>>(
    worker: F,
    items: Seq<I>,
    outcomes: Seq<Result<O, E>>,
) -> bool {
    &&& outcomes.len() == items.len()
    &&& forall|i: int|
        0 <= i < items.len() ==> call_ensures(worker, (&items[i],), #[trigger] outcomes[i])
}

/// Runs `worker` on every item under the schedule of a [`Pipeline`] with the
/// given budget, one call at a time and the oldest unit in flight first, and
/// returns the successful outputs in the order of their items; failures are
/// dropped, so that the outputs and the failures together account for every
/// item.
pub fn run<I, O, E, F: Fn(&I) -> Result<O, E>>(
    items: &Vec<I>,
    worker: F,
    concurrency: usize,
) -> (outputs: Vec<O>)
    requires
        concurrency >= 1,
        forall|i: int| 0 <= i < items.len() ==> call_requires(worker, (&#[trigger] items[i],)),
    ensures
        exists|outcomes: Seq<Result<O, E>>|
            outcomes_of(worker, items@, outcomes) && outputs@ == successes(outcomes)
                && outputs@.len() + failures(outcomes) == items@.len(),
{
    let mut pipeline: Pipeline<O> = Pipeline::new(items.len(), concurrency);
    let mut oldest: usize = 0;
    let ghost mut outcomes: Seq<Result<O, E>> = Seq::empty();
    loop
        invariant
            pipeline@.wf(),
            pipeline@.total == items.len(),
            !pipeline@.stopped,
            oldest == pipeline@.completed(),
            outcomes_of(worker, items@.take(oldest as int), outcomes),
            pipeline@.outputs == successes(outcomes),
            forall|i: int| 0 <= i < items.len() ==> call_requires(worker, (&#[trigger] items[i],)),
        ensures
            pipeline@.is_done(),
        decreases 2 * items.len() - pipeline@.started - pipeline@.completed(),
    {
        match pipeline.poll() {
            Action::Start(_) => {},
            Action::Wait => {
                let outcome = worker(&items[oldest]);
                proof {
                    assert(outcomes.push(outcome).drop_last() =~= outcomes);
                    outcomes = outcomes.push(outcome);
                }
                pipeline.complete(outcome);
                oldest = oldest + 1;
            },
            Action::Done => {
                break ;
            },
        }
    }
    proof {
        assert(items@.take(oldest as int) =~= items@);
        lemma_outcomes_accounted(outcomes);
    }
    pipeline.into_outputs()
}

} // verus!
