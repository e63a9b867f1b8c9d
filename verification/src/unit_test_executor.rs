//! Steps a graph by hand, with fixtures that feed its inputs and capture its
//! outputs.
use vstd::prelude::*;

use crate::callback_storage::CallbackStorage;
use crate::executor::{ExecutorParams, ThreadPoolConfig};
use crate::pub_sub::PubSub;
use crate::simulation::{SimulationConfig, SimulationState, StepError};
use crate::testing_time::TimeSource;
use crate::time::FrameworkTime;

verus! {

/// The times around a step.
#[derive(Debug, Clone, Copy, PartialEq, Eq, Structural)]
pub struct StepResult {
    pub before: FrameworkTime,
    pub after: FrameworkTime,
}

impl StepResult {
    /// The times as a message.
    pub fn to_string(&self) -> (r: String)
        ensures
            r@ == "Stepped from "@ + crate::text::signed_decimal(self.before.nanoseconds as int)
                + "ns"@ + " to "@ + crate::text::signed_decimal(self.after.nanoseconds as int)
                + "ns"@,
    {
        let mut text = "Stepped from ".to_owned();
        text.append(self.before.to_string().as_str());
        text.append(" to ");
        text.append(self.after.to_string().as_str());
        assert(text@ =~= "Stepped from "@ + crate::text::signed_decimal(
            self.before.nanoseconds as int,
        ) + "ns"@ + " to "@ + crate::text::signed_decimal(self.after.nanoseconds as int) + "ns"@);
        text
    }
}

/// Configuration for running callback nodes.
#[verifier::reject_recursive_types(T)]
pub struct UnitTestExecutorConfig<T> {
    pub start_time: FrameworkTime,
    pub pools: Vec<ThreadPoolConfig<T>>,
    /// The connected ports of the nodes.
    pub system: PubSub<T>,
    /// How many threads execute nodes within a step. Independent of any
    /// virtual thread pool sizes.
    pub node_executor_thread_count: usize,
}

/// Runs unit tests against callback nodes.
#[verifier::reject_recursive_types(T)]
pub struct UnitTestExecutor<T> {
    pub simulation_state: SimulationState<T>,
    /// The time of the last step, with which fixtures stamp what they send.
    pub time_source: TimeSource,
    /// How many nodes stand before the fixtures.
    pub node_count: usize,
}

impl<T> UnitTestExecutor<T> {
    pub open spec fn wf(&self) -> bool {
        &&& self.simulation_state.wf()
        &&& self.time_source.0 == self.simulation_state.schedule.time
        &&& self.node_count <= self.simulation_state.nodes.nodes@.len()
    }

    /// Runs the nodes in one pool of one thread, from time zero on.
    pub fn new(nodes: CallbackStorage<T>, system: PubSub<T>) -> (r: Self)
        requires
            system.wf(),
            forall|i: int|
                0 <= i < nodes.nodes@.len() ==> crate::simulation::can_simulate(
                    #[trigger] nodes.nodes@[i],
                    system,
                ),
            crate::executor::storage_channels(nodes.nodes@, nodes.nodes@.len() as int).len()
                <= u32::MAX,
            crate::executor::storage_names(nodes.nodes@, nodes.nodes@.len() as int).len()
                <= u32::MAX,
        ensures
            r.wf(),
            r.simulation_state.system == system,
            r.simulation_state.just_started(FrameworkTime { nanoseconds: 0 }),
            r.simulation_state.holds_pools(seq![ThreadPoolConfig { thread_count: 1, nodes }]),
            r.simulation_state.node_executor_thread_count == 1,
            r.node_count == nodes.nodes@.len(),
            r.simulation_state.nodes.nodes@.len() == nodes.nodes@.len(),
            forall|i: int|
                0 <= i < nodes.nodes@.len() ==> crate::executor::same_node_but_id(
                    #[trigger] r.simulation_state.nodes.nodes@[i],
                    nodes.nodes@[i],
                ),
    {
        let node_count: usize = nodes.nodes.len();
        let mut simulation_state = SimulationState::new(1, nodes, system);
        let ghost fresh = simulation_state;
        simulation_state.start();
        assert(fresh.starts_to(simulation_state));
        UnitTestExecutor {
            time_source: TimeSource::new(simulation_state.simulation_time()),
            simulation_state,
            node_count,
        }
    }

    /// Runs the nodes of several pools.
    pub fn new_with(config: UnitTestExecutorConfig<T>) -> (r: Self)
        requires
            config.system.wf(),
            forall|k: int, i: int|
                0 <= k < config.pools@.len() && 0 <= i < config.pools@[k].nodes.nodes@.len()
                    ==> crate::simulation::can_simulate(
                    #[trigger] config.pools@[k].nodes.nodes@[i],
                    config.system,
                ),
            crate::executor::pool_channels(config.pools@, config.pools@.len() as int).len()
                <= u32::MAX,
            crate::executor::pool_names(config.pools@, config.pools@.len() as int).len()
                <= u32::MAX,
        ensures
            r.wf(),
            r.simulation_state.system == config.system,
            r.simulation_state.just_started(config.start_time),
            r.simulation_state.holds_pools(config.pools@),
            r.simulation_state.node_executor_thread_count == config.node_executor_thread_count,
            r.node_count == r.simulation_state.nodes.nodes@.len(),
    {
        let UnitTestExecutorConfig { start_time, pools, system, node_executor_thread_count } =
            config;
        let ghost before = pools@;
        let executor_params = ExecutorParams::new(pools);
        proof {
            assert forall|k: int, i: int|
                0 <= k < executor_params.pools@.len() && 0 <= i
                    < executor_params.pools@[k].nodes.nodes@.len()
                implies crate::simulation::can_simulate(
                #[trigger] executor_params.pools@[k].nodes.nodes@[i],
                system,
            ) by {
                assert(crate::executor::same_but_ids(executor_params.pools@[k], before[k]));
                assert(crate::executor::same_node_but_id(
                    executor_params.pools@[k].nodes.nodes@[i],
                    before[k].nodes.nodes@[i],
                ));
                assert(crate::simulation::can_simulate(before[k].nodes.nodes@[i], system));
            }
        }
        let ghost config = SimulationConfig {
            start_time,
            executor_params,
            system,
            node_executor_thread_count,
        };
        let mut simulation_state = SimulationState::new_with(
            SimulationConfig { start_time, executor_params, system, node_executor_thread_count },
        );
        proof {
            crate::simulation::lemma_new_holds_pools(simulation_state, config, before);
        }
        let ghost fresh = simulation_state;
        let node_count: usize = simulation_state.nodes.nodes.len();
        simulation_state.start();
        assert(fresh.starts_to(simulation_state));
        UnitTestExecutor { simulation_state, time_source: TimeSource::new(start_time), node_count }
    }

    /// Runs a step. Returns the time before and after it.
    pub fn try_step(&mut self) -> (r: Result<StepResult, StepError>)
        requires
            old(self).wf(),
        ensures
            r is Err <==> old(self).simulation_state.node_executor_thread_count == 0 && old(
                self).simulation_state.schedule.grants(old(self).simulation_state.ready()).0.len()
                > 0,
            r matches Err(error) ==> error is NoNodeExecutors,
            r is Err ==> old(self).simulation_state.stalls_at(final(self).simulation_state)
                && final(self).time_source == old(self).time_source,
            r is Ok ==> final(self).wf(),
            r matches Ok(times) ==> times.before == old(self).simulation_state.schedule.time
                && times.after == final(self).simulation_state.schedule.time,
            r is Ok ==> exists|trace: crate::simulation::StepTrace<T>| #[trigger]
                old(self).simulation_state.steps_to(
                    final(self).simulation_state,
                    trace,
                    old(self).simulation_state.schedule.grants(
                        old(self).simulation_state.ready(),
                    ).0,
                ),
            final(self).node_count == old(self).node_count,
            final(self).simulation_state.node_executor_thread_count == old(
                self).simulation_state.node_executor_thread_count,
    {
        let before = self.simulation_state.simulation_time();
        match self.simulation_state.step() {
            Ok(_) => {
                let after = self.simulation_state.simulation_time();
                self.time_source.set(after);
                Ok(StepResult { before, after })
            },
            Err(error) => Err(error),
        }
    }

    /// Runs a step, which has to succeed: there is a thread for the nodes.
    pub fn step(&mut self) -> (r: StepResult)
        requires
            old(self).wf(),
            old(self).simulation_state.node_executor_thread_count > 0,
        ensures
            final(self).wf(),
            r.before == old(self).simulation_state.schedule.time,
            r.after == final(self).simulation_state.schedule.time,
            exists|trace: crate::simulation::StepTrace<T>| #[trigger]
                old(self).simulation_state.steps_to(
                    final(self).simulation_state,
                    trace,
                    old(self).simulation_state.schedule.grants(
                        old(self).simulation_state.ready(),
                    ).0,
                ),
            final(self).node_count == old(self).node_count,
            final(self).simulation_state.node_executor_thread_count == old(
                self).simulation_state.node_executor_thread_count,
    {
        let before = self.simulation_state.simulation_time();
        match self.try_step() {
            Ok(times) => times,
            Err(_) => StepResult { before, after: before },
        }
    }

    pub fn step_count(&self) -> (r: usize)
        ensures
            r == self.simulation_state.schedule.step_count,
    {
        self.simulation_state.step_count()
    }

    pub fn current_time(&self) -> (r: FrameworkTime)
        ensures
            r == self.simulation_state.schedule.time,
    {
        self.simulation_state.simulation_time()
    }
}

} // verus!
