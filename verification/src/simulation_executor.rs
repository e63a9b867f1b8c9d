//! Runs a simulation until it is told to stop or a step fails.
use vstd::prelude::*;

use crate::executor::ExecutorStopSignal;
use crate::simulation::{
    SimulationConfig, SimulationExecutorError, SimulationState, StepError,
};
use crate::time::FrameworkTime;

verus! {

/// Whether an executor should go on.
#[derive(Debug, Clone, Copy, PartialEq, Eq, Structural)]
pub struct StopSignal(pub bool);

impl ExecutorStopSignal for StopSignal {
    fn request_stop(&mut self)
        ensures
            !final(self).0,
    {
        self.0 = false;
    }
}

/// The threads that panicked, in ascending order, among the first `n`.
pub open spec fn panicked(joined: Seq<bool>, n: int) -> Seq<usize>
    decreases n,
{
    if n <= 0 {
        Seq::empty()
    } else if joined[n - 1] {
        panicked(joined, n - 1)
    } else {
        panicked(joined, n - 1).push((n - 1) as usize)
    }
}

/// What comes of joining the node executor threads: `joined` says of each
/// whether it ended without a panic.
pub fn shutdown_node_executor_threads(joined: &Vec<bool>) -> (r: Result<(), Vec<usize>>)
    ensures
        r is Ok <==> forall|i: int| 0 <= i < joined@.len() ==> #[trigger] joined@[i],
        r matches Err(threads) ==> threads@ == panicked(joined@, joined@.len() as int),
{
    let mut threads: Vec<usize> = Vec::new();
    let mut i: usize = 0;
    while i < joined.len()
        invariant
            i <= joined@.len(),
            threads@ == panicked(joined@, i as int),
            threads@.len() == 0 <==> forall|j: int| 0 <= j < i ==> #[trigger] joined@[j],
        decreases joined@.len() - i,
    {
        if !joined[i] {
            threads.push(i);
            assert(!joined@[i as int]);
        }
        i = i + 1;
    }
    if threads.len() == 0 {
        Ok(())
    } else {
        Err(threads)
    }
}

/// A simulation, whether it should go on, and why it stopped if a step failed.
#[verifier::reject_recursive_types(T)]
pub struct SimulationExecutor<T> {
    pub should_run: StopSignal,
    pub state: SimulationState<T>,
    /// Error produced by the step loop, if any.
    pub step_error: Option<StepError>,
}

impl<T> SimulationExecutor<T> {
    /// As long as the executor runs, the next step can be taken.
    pub open spec fn wf(&self) -> bool {
        &&& self.state.sound()
        &&& self.should_run.0 ==> self.state.wf()
    }

    /// An executor of a simulation of several virtual pools.
    pub fn new_with(config: SimulationConfig<T>) -> (r: Self)
        requires
            config.system.wf(),
            forall|k: int, i: int|
                0 <= k < config.executor_params.pools@.len() && 0 <= i
                    < config.executor_params.pools@[k].nodes.nodes@.len()
                    ==> crate::simulation::can_simulate(
                    #[trigger] config.executor_params.pools@[k].nodes.nodes@[i],
                    config.system,
                ),
        ensures
            r.wf(),
            r.state.wf(),
            !r.should_run.0,
            r.step_error is None,
            crate::simulation::is_new_of(r.state, config),
    {
        SimulationExecutor {
            should_run: StopSignal(false),
            state: SimulationState::new_with(config),
            step_error: None,
        }
    }

    /// Lets the step loop begin.
    pub fn start(&mut self)
        requires
            old(self).state.wf(),
        ensures
            final(self).wf(),
            final(self).should_run.0,
            final(self).step_error == old(self).step_error,
            old(self).state.starts_to(final(self).state),
    {
        self.should_run = StopSignal(true);
        self.state.start();
    }

    /// Whether the next step finds nodes to run and no thread to execute them.
    pub open spec fn stalls(&self) -> bool {
        self.state.node_executor_thread_count == 0 && self.state.schedule.grants(
            self.state.ready(),
        ).0.len() > 0
    }

    /// One round of the step loop. Returns whether the loop goes on: it ends
    /// once a stop was requested or a callback has come to its end, and a step
    /// that fails ends it and is kept as the reason.
    pub fn advance(&mut self) -> (r: bool)
        requires
            old(self).wf(),
        ensures
            final(self).wf(),
            final(self).should_run.0 == r,
            !old(self).should_run.0 ==> !r && *final(self) == *old(self),
            old(self).should_run.0 ==> (r <==> !old(self).stalls() && !final(self).state.ends()),
            old(self).should_run.0 && !old(self).stalls() ==> final(self).step_error == old(
                self).step_error
                && exists|trace: crate::simulation::StepTrace<T>| #[trigger]
                old(self).state.steps_to(
                    final(self).state,
                    trace,
                    old(self).state.schedule.grants(old(self).state.ready()).0,
                ),
            old(self).should_run.0 && old(self).stalls() ==> final(self).step_error is Some && final(
                self).step_error->0 is NoNodeExecutors && old(self).state.stalls_at(
                final(self).state,
            ),
    {
        if !self.should_run.0 {
            return false;
        }
        match self.state.step() {
            Ok(_) => {
                if self.state.wants_stop() {
                    self.should_run.request_stop();
                }
                self.should_run.0
            },
            Err(error) => {
                self.should_run.request_stop();
                self.step_error = Some(error);
                false
            },
        }
    }

    /// What the step loop does at its end: clears the inputs of all nodes.
    pub fn finish(&mut self)
        requires
            old(self).wf(),
        ensures
            final(self).wf(),
            final(self).should_run == old(self).should_run,
            final(self).step_error == old(self).step_error,
            old(self).state.cleans_up_to(final(self).state),
    {
        self.state.cleanup();
    }

    /// What comes of waiting for the step loop: the step error, if the loop
    /// stopped due to one. The error is handed out once.
    pub fn join(&mut self, step_thread_panicked: bool) -> (r: Result<(), StepError>)
        ensures
            step_thread_panicked ==> r is Err && r->Err_0 is StepThreadPanicked && *final(self)
                == *old(self),
            !step_thread_panicked ==> (r is Err <==> old(self).step_error is Some),
            !step_thread_panicked ==> final(self).step_error is None,
            !step_thread_panicked && r is Err ==> Some(r->Err_0) == old(self).step_error,
            final(self).state == old(self).state,
            final(self).should_run == old(self).should_run,
    {
        if step_thread_panicked {
            return Err(StepError::StepThreadPanicked);
        }
        match self.step_error.take() {
            Some(error) => Err(error),
            None => Ok(()),
        }
    }

    /// Signals shutdown; `joined` says of each node executor thread whether it
    /// ended without a panic. A panic of the step thread is reported first.
    pub fn stop(&mut self, step_thread_panicked: bool, joined: &Vec<bool>) -> (r: Result<
        (),
        SimulationExecutorError,
    >)
        ensures
            !final(self).should_run.0,
            final(self).state == old(self).state,
            final(self).step_error == old(self).step_error,
            r is Ok <==> !step_thread_panicked && forall|i: int|
                0 <= i < joined@.len() ==> #[trigger] joined@[i],
            step_thread_panicked ==> r is Err && r->Err_0 is StepThreadPanicked,
            !step_thread_panicked && r is Err ==> r->Err_0 is NodeExecutorThreadsPanicked
                && r->Err_0->NodeExecutorThreadsPanicked_0@ == panicked(
                joined@,
                joined@.len() as int,
            ),
    {
        self.should_run.request_stop();
        if step_thread_panicked {
            return Err(SimulationExecutorError::StepThreadPanicked);
        }
        match shutdown_node_executor_threads(joined) {
            Ok(_) => Ok(()),
            Err(threads) => Err(SimulationExecutorError::NodeExecutorThreadsPanicked(threads)),
        }
    }

    pub fn is_running(&self) -> (r: bool)
        ensures
            r == self.should_run.0,
    {
        self.should_run.0
    }

    pub fn step_count(&self) -> (r: usize)
        ensures
            r == self.state.schedule.step_count,
    {
        self.state.step_count()
    }

    pub fn simulation_time(&self) -> (r: FrameworkTime)
        ensures
            r == self.state.schedule.time,
    {
        self.state.simulation_time()
    }
}

} // verus!
