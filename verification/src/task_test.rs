//! Steps tasks by hand, without fixtures.
use vstd::prelude::*;

use crate::callback_storage::CallbackStorage;
use crate::executor::ThreadPoolConfig;
use crate::pub_sub::PubSub;
use crate::time::FrameworkTime;
use crate::unit_test_executor::{StepResult, UnitTestExecutor, UnitTestExecutorConfig};

verus! {

/// Configuration for running tasks.
#[verifier::reject_recursive_types(T)]
pub struct TaskTestConfig<T> {
    pub start_time: FrameworkTime,
    pub pools: Vec<ThreadPoolConfig<T>>,
    /// The connected ports of the tasks.
    pub system: PubSub<T>,
    /// How many threads execute callbacks within a step. Independent of any
    /// virtual thread pool sizes.
    pub callback_executor_thread_count: usize,
}

/// Runs unit tests against tasks.
#[verifier::reject_recursive_types(T)]
pub struct TaskTest<T> {
    pub executor: UnitTestExecutor<T>,
}

impl<T> TaskTest<T> {
    /// Create simple task tester.
    pub fn new(tasks: CallbackStorage<T>, system: PubSub<T>) -> (r: Self)
        requires
            system.wf(),
            forall|i: int|
                0 <= i < tasks.nodes@.len() ==> crate::simulation::can_simulate(
                    #[trigger] tasks.nodes@[i],
                    system,
                ),
            crate::executor::storage_channels(tasks.nodes@, tasks.nodes@.len() as int).len()
                <= u32::MAX,
            crate::executor::storage_names(tasks.nodes@, tasks.nodes@.len() as int).len()
                <= u32::MAX,
        ensures
            r.executor.wf(),
            r.executor.simulation_state.system == system,
            r.executor.simulation_state.just_started(FrameworkTime { nanoseconds: 0 }),
            r.executor.simulation_state.holds_pools(
                seq![ThreadPoolConfig { thread_count: 1, nodes: tasks }],
            ),
            r.executor.simulation_state.node_executor_thread_count == 1,
            r.executor.node_count == tasks.nodes@.len(),
    {
        TaskTest { executor: UnitTestExecutor::new(tasks, system) }
    }

    /// Create task tester with custom config.
    pub fn new_with(config: TaskTestConfig<T>) -> (r: Self)
        requires
            config.system.wf(),
            forall|k: int, i: int|
                0 <= k < config.pools@.len() && 0 <= i < config.pools@[k].nodes.nodes@.len()
                    ==> crate::simulation::can_simulate(
                    #[trigger] config.pools@[k].nodes.nodes@[i],
                    config.system,
                ),
            crate::executor::pool_channels(config.pools@, config.pools@.len() as int).len()
                <= u32::MAX,
            crate::executor::pool_names(config.pools@, config.pools@.len() as int).len()
                <= u32::MAX,
        ensures
            r.executor.wf(),
            r.executor.simulation_state.system == config.system,
            r.executor.simulation_state.just_started(config.start_time),
            r.executor.simulation_state.holds_pools(config.pools@),
            r.executor.node_count == r.executor.simulation_state.nodes.nodes@.len(),
            r.executor.simulation_state.node_executor_thread_count
                == config.callback_executor_thread_count,
    {
        TaskTest {
            executor: UnitTestExecutor::new_with(
                UnitTestExecutorConfig {
                    start_time: config.start_time,
                    pools: config.pools,
                    system: config.system,
                    node_executor_thread_count: config.callback_executor_thread_count,
                },
            ),
        }
    }

    /// Runs simulation, returning time before and after. There has to be a
    /// thread for the callbacks.
    pub fn step(&mut self) -> (r: StepResult)
        requires
            old(self).executor.wf(),
            old(self).executor.simulation_state.node_executor_thread_count > 0,
        ensures
            final(self).executor.wf(),
            r.before == old(self).executor.simulation_state.schedule.time,
            r.after == final(self).executor.simulation_state.schedule.time,
            exists|trace: crate::simulation::StepTrace<T>| #[trigger]
                old(self).executor.simulation_state.steps_to(
                    final(self).executor.simulation_state,
                    trace,
                    old(self).executor.simulation_state.schedule.grants(
                        old(self).executor.simulation_state.ready(),
                    ).0,
                ),
            final(self).executor.node_count == old(self).executor.node_count,
            final(self).executor.simulation_state.node_executor_thread_count == old(
                self).executor.simulation_state.node_executor_thread_count,
    {
        self.executor.step()
    }

    pub fn get_step_count(&self) -> (r: usize)
        ensures
            r == self.executor.simulation_state.schedule.step_count,
    {
        self.executor.step_count()
    }

    pub fn get_current_time(&self) -> (r: FrameworkTime)
        ensures
            r == self.executor.simulation_state.schedule.time,
    {
        self.executor.current_time()
    }
}

} // verus!
