//! A deterministic simulation of a graph: each step runs the nodes that are
//! ready, and time advances to the next event.
use vstd::prelude::*;

use crate::callback::Memory;
use crate::callback_storage::{CallbackStorage, SharedCallbackNode};
use crate::context::Context;
use crate::executor::{ExecutorParams, ThreadPoolConfig};
use crate::pub_sub::PubSub;
use crate::schedule::Schedule;
use crate::string_interner::{CallbackNameTag, ChannelNameTag, StringInterner};
use crate::time::{Duration, FrameworkTime};

verus! {

#[derive(Debug)]
pub enum StepError {
    /// No node executor threads are configured.
    NoNodeExecutors,
    /// A node executor thread disconnected, likely because it panicked.
    NodeExecutorThreadDisconnected,
    /// Received more responses than expected from node executor threads.
    UnexpectedResponse,
    /// The step loop thread panicked.
    StepThreadPanicked,
    /// An event input failed.
    Iox2Event(String),
    /// A data input failed.
    Iox2Input(String),
}

#[derive(Debug)]
pub enum SimulationExecutorError {
    StepThreadPanicked,
    NodeExecutorThreadsPanicked(Vec<usize>),
}

/// The numbers in brackets, with a comma between them.
pub open spec fn listed(numbers: Seq<usize>, n: int) -> Seq<char>
    decreases n,
{
    if n <= 0 {
        "["@
    } else if n == 1 {
        "["@ + crate::text::decimal(numbers[0] as nat)
    } else {
        listed(numbers, n - 1) + ", "@ + crate::text::decimal(numbers[n - 1] as nat)
    }
}

impl SimulationExecutorError {
    /// The error as a message.
    pub fn to_string(&self) -> (r: String)
        ensures
            r@ == match *self {
                SimulationExecutorError::StepThreadPanicked => "step thread panicked"@,
                SimulationExecutorError::NodeExecutorThreadsPanicked(idxs) =>
                "node executor threads panicked: "@ + listed(idxs@, idxs@.len() as int) + "]"@,
            },
    {
        match self {
            SimulationExecutorError::StepThreadPanicked => "step thread panicked".to_owned(),
            SimulationExecutorError::NodeExecutorThreadsPanicked(idxs) => {
                let mut text = "node executor threads panicked: ".to_owned();
                let ghost start = text@;
                text.append("[");
                let mut i: usize = 0;
                while i < idxs.len()
                    invariant
                        i <= idxs@.len(),
                        text@ == start + listed(idxs@, i as int),
                    decreases idxs@.len() - i,
                {
                    if i > 0 {
                        text.append(", ");
                    }
                    crate::text::push_usize(&mut text, idxs[i]);
                    assert(text@ =~= start + listed(idxs@, i + 1));
                    i = i + 1;
                }
                text.append("]");
                assert(text@ =~= start + listed(idxs@, idxs@.len() as int) + "]"@);
                text
            },
        }
    }
}

#[verifier::reject_recursive_types(T)]
pub struct SimulationConfig<T> {
    pub start_time: FrameworkTime,
    pub executor_params: ExecutorParams<T>,
    /// The connected ports of the nodes.
    pub system: PubSub<T>,
    /// How many threads execute nodes within a step. Independent of any
    /// virtual thread pool sizes.
    pub node_executor_thread_count: usize,
}

/// Whether a node can take part in a simulation: it is idle, its ports stand
/// in `system`, and it says how long an execution lasts.
pub open spec fn can_simulate<T>(node: SharedCallbackNode<T>, system: PubSub<T>) -> bool {
    &&& node.run_state is Idle
    &&& node.node.placed_in(system)
    &&& node.node.execution_duration_callback is Some
}

/// Whether `state` is the simulation that `config` describes, before it starts:
/// the nodes stand in the order of their pools, and none is busy or waits.
pub open spec fn is_new_of<T>(state: SimulationState<T>, config: SimulationConfig<T>) -> bool {
    let pools = config.executor_params.pools@;
    &&& state.system == config.system
    &&& state.channel_interner == config.executor_params.channel_interner
    &&& state.callback_interner == config.executor_params.callback_interner
    &&& state.node_executor_thread_count == config.node_executor_thread_count
    &&& state.schedule.starts_at(config.start_time)
    &&& forall|i: int| 0 <= i < state.event_asks@.len() ==> !#[trigger] state.event_asks@[i]
    &&& state.schedule.virtual_pools@.len() == pools.len()
    &&& forall|k: int|
        0 <= k < state.schedule.virtual_pools@.len() ==> (#[trigger]
        state.schedule.virtual_pools@[k]).virtual_thread_count == pools[k].thread_count
    &&& state.nodes.nodes@.len() == crate::executor::pool_offset(pools, pools.len() as int)
    &&& forall|k: int, i: int|
        0 <= k < pools.len() && 0 <= i < pools[k].nodes.nodes@.len() ==> {
            let at = crate::executor::pool_offset(pools, k) + i;
            &&& state.nodes.nodes@[at] == #[trigger] pools[k].nodes.nodes@[i]
            &&& state.schedule.node_to_pool@[at] == k
        }
}

/// A simulation of numbered pools holds these.
pub proof fn lemma_new_holds_pools<T>(
    state: SimulationState<T>,
    config: SimulationConfig<T>,
    pools: Seq<ThreadPoolConfig<T>>,
)
    requires
        is_new_of(state, config),
        crate::executor::is_numbered(config.executor_params, pools),
    ensures
        state.holds_pools(pools),
{
    let params = config.executor_params;
    crate::executor::lemma_numbered_offset(params, pools, pools.len() as int);
    assert forall|k: int| 0 <= k < pools.len() implies (#[trigger]
    state.schedule.virtual_pools@[k]).virtual_thread_count == pools[k].thread_count by {
        assert(crate::executor::same_but_ids(params.pools@[k], pools[k]));
    }
    assert forall|k: int, i: int| 0 <= k < pools.len() && 0 <= i < pools[k].nodes.nodes@.len() implies ({
        let at = crate::executor::pool_offset(pools, k) + i;
        &&& crate::executor::same_node_but_id(
            state.nodes.nodes@[at],
            #[trigger] pools[k].nodes.nodes@[i],
        )
        &&& state.nodes.nodes@[at].node.id == Some(
            crate::scheduling::CallbackNodeId(at as usize),
        )
        &&& state.schedule.node_to_pool@[at] == k
    }) by {
        crate::executor::lemma_numbered_offset(params, pools, k);
        assert(crate::executor::same_but_ids(params.pools@[k], pools[k]));
        assert(crate::executor::same_node_but_id(
            params.pools@[k].nodes.nodes@[i],
            pools[k].nodes.nodes@[i],
        ));
        assert(state.nodes.nodes@[crate::executor::pool_offset(params.pools@, k) + i]
            == params.pools@[k].nodes.nodes@[i]);
    }
}

#[verifier::reject_recursive_types(T)]
pub struct SimulationState<T> {
    /// All callback nodes. A node's index here is its index in the schedule.
    pub nodes: CallbackStorage<T>,
    pub system: PubSub<T>,
    pub schedule: Schedule,
    pub channel_interner: StringInterner<ChannelNameTag>,
    pub callback_interner: StringInterner<CallbackNameTag>,
    pub node_executor_thread_count: usize,
    /// Which nodes an event from outside the graph asks to run.
    pub event_asks: Vec<bool>,
}

impl<T> SimulationState<T> {
    /// The nodes and the system fit together.
    pub open spec fn sound(&self) -> bool {
        &&& self.system.wf()
        &&& self.schedule.node_to_pool@.len() == self.nodes.nodes@.len()
        &&& self.event_asks@.len() == self.nodes.nodes@.len()
        &&& forall|i: int|
            0 <= i < self.nodes.nodes@.len() ==> can_simulate(
                #[trigger] self.nodes.nodes@[i],
                self.system,
            )
    }

    pub open spec fn wf(&self) -> bool {
        self.sound() && self.schedule.wf()
    }

    /// Whether data makes node `i` ready: one of its triggers fired, or an event
    /// asks for it, and every required input has a value.
    pub open spec fn data_ready(&self, i: int) -> bool {
        &&& self.nodes.nodes@[i].node.ports.any_asks(self.system) || self.event_asks@[i]
        &&& self.nodes.nodes@[i].node.ports.required_ready(self.system)
    }

    /// Which nodes data makes ready.
    pub open spec fn ready(&self) -> Seq<bool> {
        Seq::new(self.nodes.nodes@.len(), |i: int| self.data_ready(i))
    }

    /// Whether the simulation is of the nodes of `pools`, which stand pool after
    /// pool, numbered in that order.
    pub open spec fn holds_pools(&self, pools: Seq<ThreadPoolConfig<T>>) -> bool {
        &&& self.schedule.virtual_pools@.len() == pools.len()
        &&& forall|k: int|
            0 <= k < pools.len() ==> (#[trigger]
            self.schedule.virtual_pools@[k]).virtual_thread_count == pools[k].thread_count
        &&& self.nodes.nodes@.len() == crate::executor::pool_offset(pools, pools.len() as int)
        &&& forall|k: int, i: int|
            0 <= k < pools.len() && 0 <= i < pools[k].nodes.nodes@.len() ==> {
                let at = crate::executor::pool_offset(pools, k) + i;
                &&& crate::executor::same_node_but_id(
                    self.nodes.nodes@[at],
                    #[trigger] pools[k].nodes.nodes@[i],
                )
                &&& self.nodes.nodes@[at].node.id == Some(
                    crate::scheduling::CallbackNodeId(at as usize),
                )
                &&& self.schedule.node_to_pool@[at] == k
            }
        &&& crate::string_interner::texts(self.channel_interner.names@)
            == crate::string_interner::interned_all(
            Seq::empty(),
            crate::executor::pool_channels(pools, pools.len() as int),
        )
        &&& crate::string_interner::texts(self.callback_interner.names@)
            == crate::string_interner::interned_all(
            Seq::empty(),
            crate::executor::pool_names(pools, pools.len() as int),
        )
    }

    /// Whether the simulation was started at `time` and not stepped yet: no node
    /// is busy, and the nodes that ask for a time run at once.
    pub open spec fn just_started(&self, time: FrameworkTime) -> bool {
        &&& exists|fresh: SimulationState<T>| #[trigger]
            fresh.starts_to(*self) && fresh.schedule.starts_at(time)
        &&& forall|i: int| 0 <= i < self.event_asks@.len() ==> !#[trigger] self.event_asks@[i]
    }

    /// A simulation of one virtual pool with `num_virtual_threads` for all
    /// nodes, starting at simulation time zero.
    pub fn new(num_virtual_threads: usize, nodes: CallbackStorage<T>, system: PubSub<T>) -> (r: Self)
        requires
            system.wf(),
            forall|i: int|
                0 <= i < nodes.nodes@.len() ==> can_simulate(#[trigger] nodes.nodes@[i], system),
            crate::executor::storage_channels(nodes.nodes@, nodes.nodes@.len() as int).len()
                <= u32::MAX,
            crate::executor::storage_names(nodes.nodes@, nodes.nodes@.len() as int).len()
                <= u32::MAX,
        ensures
            r.wf(),
            r.system == system,
            r.schedule.starts_at(FrameworkTime { nanoseconds: 0 }),
            r.nodes.nodes@.len() == nodes.nodes@.len(),
            forall|i: int|
                0 <= i < nodes.nodes@.len() ==> crate::executor::same_node_but_id(
                    #[trigger] r.nodes.nodes@[i],
                    nodes.nodes@[i],
                ),
            r.node_executor_thread_count == 1,
            forall|i: int| 0 <= i < r.event_asks@.len() ==> !#[trigger] r.event_asks@[i],
            r.holds_pools(seq![ThreadPoolConfig { thread_count: num_virtual_threads, nodes }]),
    {
        let ghost all = nodes;
        let mut pools: Vec<ThreadPoolConfig<T>> = Vec::new();
        pools.push(ThreadPoolConfig::new(num_virtual_threads, nodes));
        proof {
            let n = all.nodes@.len() as int;
            assert(crate::executor::pool_channels(pools@, 0) =~= Seq::empty());
            assert(crate::executor::pool_names(pools@, 0) =~= Seq::empty());
            assert(crate::executor::pool_channels(pools@, 1)
                =~= crate::executor::storage_channels(all.nodes@, n));
            assert(crate::executor::pool_names(pools@, 1) =~= crate::executor::storage_names(
                all.nodes@,
                n,
            ));
        }
        let params = ExecutorParams::new(pools);
        proof {
            assert(crate::executor::same_but_ids(params.pools@[0], pools@[0]));
            assert forall|k: int, i: int|
                0 <= k < params.pools@.len() && 0 <= i < params.pools@[k].nodes.nodes@.len()
                implies can_simulate(#[trigger] params.pools@[k].nodes.nodes@[i], system) by {
                assert(crate::executor::same_node_but_id(
                    params.pools@[0].nodes.nodes@[i],
                    pools@[0].nodes.nodes@[i],
                ));
                assert(can_simulate(all.nodes@[i], system));
            }
            assert(crate::executor::pool_offset(params.pools@, 1)
                == params.pools@[0].nodes.nodes@.len()) by {
                reveal_with_fuel(crate::executor::pool_offset, 2);
            }
        }
        let ghost numbered = params.pools@[0].nodes.nodes@;
        let ghost config = SimulationConfig {
            start_time: FrameworkTime { nanoseconds: 0 },
            executor_params: params,
            system,
            node_executor_thread_count: 1,
        };
        let state = SimulationState::new_with(
            SimulationConfig {
                start_time: FrameworkTime::from_nanoseconds(0),
                executor_params: params,
                system,
                node_executor_thread_count: 1,
            },
        );
        proof {
            assert forall|i: int|
                0 <= i < all.nodes@.len() implies crate::executor::same_node_but_id(
                #[trigger] state.nodes.nodes@[i],
                all.nodes@[i],
            ) by {
                assert(state.nodes.nodes@[0 + i] == numbered[i]);
                assert(crate::executor::same_node_but_id(numbered[i], pools@[0].nodes.nodes@[i]));
            }
            assert(is_new_of(state, config));
            lemma_new_holds_pools(state, config, pools@);
            assert(pools@ =~= seq![ThreadPoolConfig { thread_count: num_virtual_threads, nodes }]);
        }
        state
    }

    /// A simulation of several virtual pools. The nodes stand in the order of
    /// their pools.
    pub fn new_with(config: SimulationConfig<T>) -> (r: Self)
        requires
            config.system.wf(),
            forall|k: int, i: int|
                0 <= k < config.executor_params.pools@.len() && 0 <= i
                    < config.executor_params.pools@[k].nodes.nodes@.len() ==> can_simulate(
                    #[trigger] config.executor_params.pools@[k].nodes.nodes@[i],
                    config.system,
                ),
        ensures
            r.wf(),
            is_new_of(r, config),
    {
        let SimulationConfig { start_time, executor_params, system, node_executor_thread_count } =
            config;
        let (pools, channel_interner, callback_interner) = executor_params.into_parts();
        let flat = flatten_pools(pools, Ghost(system));
        let mut event_asks: Vec<bool> = Vec::new();
        let mut i: usize = 0;
        while i < flat.0.len()
            invariant
                i <= flat.0@.len(),
                event_asks@.len() == i,
                forall|j: int| 0 <= j < i ==> !#[trigger] event_asks@[j],
            decreases flat.0@.len() - i,
        {
            event_asks.push(false);
            i = i + 1;
        }
        let schedule = Schedule::new(start_time, flat.1, flat.2);
        SimulationState {
            nodes: CallbackStorage::from_shared(flat.0),
            system,
            schedule,
            channel_interner,
            callback_interner,
            node_executor_thread_count,
            event_asks,
        }
    }

    /// Sets up periodic execution: the nodes that ask for a time run at once,
    /// and then their requested times are honored.
    pub fn start(&mut self)
        requires
            old(self).wf(),
        ensures
            final(self).wf(),
            old(self).starts_to(*final(self)),
    {
        let mut periodic: Vec<bool> = Vec::new();
        let ghost mut asked: Seq<Option<FrameworkTime>> = Seq::empty();
        let mut i: usize = 0;
        while i < self.nodes.nodes.len()
            invariant
                i <= self.nodes.nodes@.len(),
                *self == *old(self),
                periodic@.len() == i,
                asked.len() == i,
                forall|j: int|
                    0 <= j < i ==> self.nodes.nodes@[j].node.asks(
                        self.nodes.nodes@[j].node.callback.inner.memory(),
                        self.schedule.time,
                        #[trigger] asked[j],
                    ),
                forall|j: int| 0 <= j < i ==> #[trigger] periodic@[j] == (asked[j] is Some),
            decreases self.nodes.nodes@.len() - i,
        {
            let next = self.nodes.nodes[i].node.next_requested_execution_time(self.schedule.time);
            periodic.push(next.is_some());
            proof {
                asked = asked.push(next);
            }
            i = i + 1;
        }
        self.schedule.start(&periodic);
        assert(periodic@ =~= asked.map_values(|time: Option<FrameworkTime>| time is Some));
        assert(old(self).may_ask(asked));
    }

    /// Whether `after` is this state with its periodic nodes set up: those that
    /// ask for a time, which run at once.
    pub open spec fn starts_to(&self, after: SimulationState<T>) -> bool {
        &&& after == (SimulationState { schedule: after.schedule, ..*self })
        &&& after.schedule == (Schedule {
            periodic_nodes: after.schedule.periodic_nodes,
            ..self.schedule
        })
        &&& exists|asked: Seq<Option<FrameworkTime>>| #[trigger]
            self.may_ask(asked) && after.schedule.periodic_nodes@
                == self.schedule.periodic_nodes@ + crate::schedule::periodic_nodes_of(
                asked.map_values(|time: Option<FrameworkTime>| time is Some),
                self.schedule.time,
                asked.len() as int,
            )
    }

    /// Whether each node may ask for the time that `asked` gives for it.
    pub open spec fn may_ask(&self, asked: Seq<Option<FrameworkTime>>) -> bool {
        &&& asked.len() == self.nodes.nodes@.len()
        &&& forall|j: int|
            0 <= j < asked.len() ==> self.nodes.nodes@[j].node.asks(
                self.nodes.nodes@[j].node.callback.inner.memory(),
                self.schedule.time,
                #[trigger] asked[j],
            )
    }

    /// Which nodes data makes ready.
    fn find_ready(&self) -> (ready: Vec<bool>)
        requires
            self.sound(),
        ensures
            ready@ == self.ready(),
    {
        let mut ready: Vec<bool> = Vec::new();
        let mut i: usize = 0;
        while i < self.nodes.nodes.len()
            invariant
                i <= self.nodes.nodes@.len(),
                self.sound(),
                ready@.len() == i,
                forall|j: int| 0 <= j < i ==> #[trigger] ready@[j] == self.data_ready(j),
            decreases self.nodes.nodes@.len() - i,
        {
            assert(can_simulate(self.nodes.nodes@[i as int], self.system));
            let ports = &self.nodes.nodes[i].node.ports;
            ready.push(
                (ports.subscribers_request_execution(&self.system) || self.event_asks[i])
                    && ports.required_inputs_ready(&self.system),
            );
            i = i + 1;
        }
        assert(ready@ =~= self.ready());
        ready
    }

    /// Notes which nodes an event from outside the graph asks to run, and when
    /// the next input from there arrives. Both hold for the steps to come.
    pub fn expect_inputs(&mut self, event_asks: Vec<bool>, next_input: Option<FrameworkTime>)
        requires
            old(self).wf(),
            event_asks@.len() == old(self).nodes.nodes@.len(),
        ensures
            final(self).wf(),
            *final(self) == (SimulationState {
                event_asks,
                schedule: Schedule { next_input, ..old(self).schedule },
                ..*old(self)
            }),
    {
        self.event_asks = event_asks;
        self.schedule.expect_input(next_input);
    }

    /// Runs a step: gives threads to the nodes that are ready, drains their
    /// inputs, runs them, flushes their outputs with the current time, and
    /// advances the time to the next event. Returns the nodes that ran.
    ///
    /// Only nodes that got a thread are drained, so that nodes blocked by pool
    /// pressure keep their trigger data for the next step.
    pub fn step(&mut self) -> (r: Result<Vec<usize>, StepError>)
        requires
            old(self).wf(),
        ensures
            r is Err <==> old(self).node_executor_thread_count == 0 && old(self).schedule.grants(
                old(self).ready(),
            ).0.len() > 0,
            r matches Err(error) ==> error is NoNodeExecutors,
            r is Err ==> old(self).stalls_at(*final(self)),
            final(self).sound(),
            r is Ok ==> final(self).wf(),
            r matches Ok(runnable) ==> runnable@ == old(self).schedule.grants(
                old(self).ready(),
            ).0,
            r is Ok ==> exists|trace: StepTrace<T>| #[trigger]
                old(self).steps_to(
                    *final(self),
                    trace,
                    old(self).schedule.grants(old(self).ready()).0,
                ),
            final(self).node_executor_thread_count == old(self).node_executor_thread_count,
            final(self).channel_interner == old(self).channel_interner,
            final(self).callback_interner == old(self).callback_interner,
            final(self).event_asks == old(self).event_asks,
    {
        let runnable = self.begin_step();
        let ghost mid = *self;
        let ghost begun = choose|trace: StepTrace<T>| #[trigger]
            old(self).allocated_and_drained(trace, runnable@) && mid.system == trace.drained.last()
                && mid.schedule == trace.allocated;
        match self.finish_step(&runnable) {
            Ok(_) => {
                proof {
                    let finished = choose|trace: StepTrace<T>| #[trigger]
                        mid.finishes_to(*self, trace, runnable@);
                    let trace = StepTrace {
                        allocated: begun.allocated,
                        drained: begun.drained,
                        ..finished
                    };
                    assert(old(self).allocated_and_drained(trace, runnable@));
                    assert(old(self).steps_to(*self, trace, runnable@));
                }
                Ok(runnable)
            },
            Err(error) => Err(error),
        }
    }

    /// Begins a step: gives threads to the nodes that are ready, and drains
    /// their inputs. Returns these nodes; [`Self::finish_step`] has to follow.
    /// In between, what waits for these nodes outside the graph can be made
    /// readable.
    pub fn begin_step(&mut self) -> (runnable: Vec<usize>)
        requires
            old(self).wf(),
        ensures
            final(self).sound(),
            runnable@ == old(self).schedule.grants(old(self).ready()).0,
            final(self).schedule.running(runnable@),
            *final(self) == (SimulationState {
                system: final(self).system,
                schedule: final(self).schedule,
                ..*old(self)
            }),
            exists|trace: StepTrace<T>| #[trigger]
                old(self).allocated_and_drained(trace, runnable@) && final(self).system
                    == trace.drained.last() && final(self).schedule == trace.allocated,
    {
        let ready = self.find_ready();
        let runnable = self.schedule.allocate_nodes_to_threads(&ready);
        let ghost allocated = self.schedule;
        let Ghost(drained) = self.drain_nodes(&runnable);
        proof {
            let trace = StepTrace::<T> {
                allocated,
                drained,
                ran: Seq::empty(),
                flushed: Seq::empty(),
                durations: Seq::empty(),
                memories: Seq::empty(),
                next_times: Seq::empty(),
            };
            assert(old(self).allocated_and_drained(trace, runnable@));
        }
        runnable
    }

    /// Finishes a step that was begun for the nodes of `runnable`: runs them,
    /// flushes their outputs with the current time, and advances the time to
    /// the next event.
    pub fn finish_step(&mut self, runnable: &Vec<usize>) -> (r: Result<(), StepError>)
        requires
            old(self).sound(),
            old(self).schedule.running(runnable@),
        ensures
            r is Err <==> old(self).node_executor_thread_count == 0 && runnable@.len() > 0,
            r matches Err(error) ==> error is NoNodeExecutors,
            r is Err ==> *final(self) == *old(self),
            final(self).sound(),
            r is Ok ==> final(self).wf(),
            r is Ok ==> exists|trace: StepTrace<T>| #[trigger]
                old(self).finishes_to(*final(self), trace, runnable@),
            final(self).node_executor_thread_count == old(self).node_executor_thread_count,
            final(self).channel_interner == old(self).channel_interner,
            final(self).callback_interner == old(self).callback_interner,
            final(self).event_asks == old(self).event_asks,
    {
        if runnable.len() > 0 && self.node_executor_thread_count == 0 {
            return Err(StepError::NoNodeExecutors);
        }
        let (durations, Ghost(ran), Ghost(memories)) = self.run_nodes(runnable);
        let Ghost(flushed) = self.flush_nodes(runnable);
        let ghost asked = *self;
        let next_times = self.ask_next_times(runnable, &durations);
        proof {
            assert(remembered_by(asked.nodes.nodes@, runnable@) =~= memories);
            old(self).lemma_asks_alike(
                asked,
                old(self).schedule.time,
                old(self).schedule.periodic_nodes@,
                runnable@,
                durations@,
                memories,
                next_times@,
            );
        }
        self.schedule.complete_step(runnable, &durations, &next_times);
        proof {
            let trace = StepTrace {
                allocated: old(self).schedule,
                drained: Seq::empty(),
                ran,
                flushed,
                durations: durations@,
                memories,
                next_times: next_times@,
            };
            assert(old(self).finishes_to(*self, trace, runnable@));
        }
        Ok(())
    }

    /// Whether `trace` is how a step that was begun for the nodes of `runnable`
    /// goes on from this state to `after`.
    pub open spec fn finishes_to(
        &self,
        after: SimulationState<T>,
        trace: StepTrace<T>,
        runnable: Seq<usize>,
    ) -> bool {
        let now = self.schedule.time;
        &&& trace.ran.len() > 0 && trace.ran[0] == self.system
        &&& self.ran_in_turn(now, runnable, trace.ran, trace.durations, trace.memories)
        &&& trace.flushed.len() > 0 && trace.flushed[0] == trace.ran.last()
        &&& self.flushed_in_turn(now, runnable, trace.flushed)
        &&& after.system == trace.flushed.last()
        &&& self.asks_next(
            now,
            self.schedule.periodic_nodes@,
            runnable,
            trace.durations,
            trace.memories,
            trace.next_times,
        )
        &&& crate::schedule::completes(
            self.schedule,
            after.schedule,
            runnable,
            trace.durations,
            trace.next_times,
        )
        &&& same_but_callbacks(self.nodes.nodes@, after.nodes.nodes@)
        &&& remembers(self.nodes.nodes@, after.nodes.nodes@, runnable, trace.memories)
        &&& after == (SimulationState {
            nodes: after.nodes,
            system: after.system,
            schedule: after.schedule,
            ..*self
        })
    }

    /// Whether `after` is where a step stops that finds no thread to execute
    /// nodes: the nodes that are ready have their virtual threads and are
    /// drained, and none has run.
    pub open spec fn stalls_at(&self, after: SimulationState<T>) -> bool {
        &&& after == (SimulationState {
            system: after.system,
            schedule: after.schedule,
            ..*self
        })
        &&& exists|trace: StepTrace<T>| #[trigger]
            self.allocated_and_drained(trace, self.schedule.grants(self.ready()).0)
                && after.system == trace.drained.last() && after.schedule == trace.allocated
    }

    /// The nodes of `runnable` get their threads and are drained in turn.
    pub open spec fn allocated_and_drained(
        &self,
        trace: StepTrace<T>,
        runnable: Seq<usize>,
    ) -> bool {
        &&& crate::schedule::allocates(self.schedule, trace.allocated, self.ready(), runnable)
        &&& trace.allocated.running(runnable)
        &&& trace.drained.len() == runnable.len() + 1
        &&& trace.drained[0] == self.system
        &&& forall|k: int| 0 <= k < trace.drained.len() ==> (#[trigger] trace.drained[k]).wf()
        &&& forall|k: int|
            0 <= k < runnable.len() ==> self.nodes.nodes@[(#[trigger] runnable[k]) as int].node.ports.drains(
                trace.drained[k],
                trace.drained[k + 1],
            )
    }

    /// Whether `durations`, `systems` and `memories` can come of running the
    /// nodes of `runnable` in turn.
    pub open spec fn ran_in_turn(
        &self,
        now: FrameworkTime,
        runnable: Seq<usize>,
        systems: Seq<PubSub<T>>,
        durations: Seq<Duration>,
        memories: Seq<Memory>,
    ) -> bool {
        &&& systems.len() == runnable.len() + 1
        &&& durations.len() == runnable.len()
        &&& memories.len() == runnable.len()
        &&& forall|k: int| 0 <= k < systems.len() ==> (#[trigger] systems[k]).wf()
        &&& forall|k: int|
            0 <= k < runnable.len() ==> run_gives(
                self.nodes.nodes@[(#[trigger] runnable[k]) as int].node,
                self.nodes.nodes@[runnable[k] as int].node.callback.inner.memory(),
                now,
                systems[k],
                systems[k + 1],
                durations[k],
                memories[k],
            )
    }

    /// The nodes of `runnable` are flushed in turn with the time `now`.
    pub open spec fn flushed_in_turn(
        &self,
        now: FrameworkTime,
        runnable: Seq<usize>,
        systems: Seq<PubSub<T>>,
    ) -> bool {
        &&& systems.len() == runnable.len() + 1
        &&& forall|k: int| 0 <= k < systems.len() ==> (#[trigger] systems[k]).wf()
        &&& forall|k: int|
            0 <= k < runnable.len() ==> flush_gives(
                self.nodes.nodes@[(#[trigger] runnable[k]) as int].node,
                now,
                systems[k],
                systems[k + 1],
            )
    }

    /// Whether the periodic nodes may ask for `next_times`: one that ran, and
    /// now remembers what `memories` says, is asked about the time at which it
    /// is no longer busy.
    pub open spec fn asks_next(
        &self,
        now: FrameworkTime,
        periodic: Seq<crate::schedule::TimeTriggeredNode>,
        runnable: Seq<usize>,
        durations: Seq<Duration>,
        memories: Seq<Memory>,
        next_times: Seq<Option<FrameworkTime>>,
    ) -> bool {
        &&& next_times.len() == periodic.len()
        &&& forall|p: int, k: int|
            0 <= p < periodic.len() && 0 <= k < runnable.len() && runnable[k] == periodic[p].index
                ==> self.nodes.nodes@[(#[trigger] runnable[k]) as int].node.asks(
                memories[k],
                crate::time::saturated_time_after(now, durations[k]),
                #[trigger] next_times[p],
            )
    }

    /// Whether `trace` is a step from this state to `after` in which the nodes
    /// of `runnable` ran.
    pub open spec fn steps_to(
        &self,
        after: SimulationState<T>,
        trace: StepTrace<T>,
        runnable: Seq<usize>,
    ) -> bool {
        let now = self.schedule.time;
        &&& self.allocated_and_drained(trace, runnable)
        &&& trace.ran.len() > 0 && trace.ran[0] == trace.drained.last()
        &&& self.ran_in_turn(now, runnable, trace.ran, trace.durations, trace.memories)
        &&& trace.flushed.len() > 0 && trace.flushed[0] == trace.ran.last()
        &&& self.flushed_in_turn(now, runnable, trace.flushed)
        &&& after.system == trace.flushed.last()
        &&& self.asks_next(
            now,
            self.schedule.periodic_nodes@,
            runnable,
            trace.durations,
            trace.memories,
            trace.next_times,
        )
        &&& crate::schedule::completes(
            trace.allocated,
            after.schedule,
            runnable,
            trace.durations,
            trace.next_times,
        )
        &&& same_but_callbacks(self.nodes.nodes@, after.nodes.nodes@)
        &&& remembers(self.nodes.nodes@, after.nodes.nodes@, runnable, trace.memories)
        &&& after == (SimulationState {
            nodes: after.nodes,
            system: after.system,
            schedule: after.schedule,
            ..*self
        })
    }

    /// Drains the inputs of the nodes of `runnable`, in turn.
    fn drain_nodes(&mut self, runnable: &Vec<usize>) -> (systems: Ghost<Seq<PubSub<T>>>)
        requires
            old(self).sound(),
            old(self).schedule.running(runnable@),
        ensures
            final(self).sound(),
            *final(self) == (SimulationState { system: final(self).system, ..*old(self) }),
            systems@.len() == runnable@.len() + 1,
            systems@[0] == old(self).system,
            systems@.last() == final(self).system,
            forall|k: int| 0 <= k < systems@.len() ==> (#[trigger] systems@[k]).wf(),
            forall|k: int|
                0 <= k < runnable@.len() ==> old(self).nodes.nodes@[(#[trigger]
                runnable@[k]) as int].node.ports.drains(systems@[k], systems@[k + 1]),
    {
        let ghost mut systems = seq![self.system];
        let mut k: usize = 0;
        while k < runnable.len()
            invariant
                k <= runnable@.len(),
                self.sound(),
                self.schedule.running(runnable@),
                *self == (SimulationState { system: self.system, ..*old(self) }),
                systems.len() == k + 1,
                systems[0] == old(self).system,
                systems.last() == self.system,
                forall|j: int| 0 <= j < systems.len() ==> (#[trigger] systems[j]).wf(),
                forall|j: int|
                    0 <= j < k ==> self.nodes.nodes@[(#[trigger]
                    runnable@[j]) as int].node.ports.drains(systems[j], systems[j + 1]),
            decreases runnable@.len() - k,
        {
            let index: usize = runnable[k];
            assert(can_simulate(self.nodes.nodes@[index as int], self.system));
            let ghost before = *self;
            self.nodes.nodes[index].node.ports.drain_subscribers(&mut self.system);
            proof {
                assert forall|i: int| 0 <= i < self.nodes.nodes@.len() implies can_simulate(
                    #[trigger] self.nodes.nodes@[i],
                    self.system,
                ) by {
                    assert(can_simulate(before.nodes.nodes@[i], before.system));
                }
                systems = systems.push(self.system);
            }
            k = k + 1;
        }
        Ghost(systems)
    }

    /// Runs the nodes of `runnable`, in turn, at the current time. Returns
    /// how long each execution lasts.
    fn run_nodes(&mut self, runnable: &Vec<usize>) -> (r: (
        Vec<Duration>,
        Ghost<Seq<PubSub<T>>>,
        Ghost<Seq<Memory>>,
    ))
        requires
            old(self).sound(),
            old(self).schedule.running(runnable@),
        ensures
            final(self).sound(),
            *final(self) == (SimulationState {
                system: final(self).system,
                nodes: final(self).nodes,
                ..*old(self)
            }),
            old(self).ran_in_turn(old(self).schedule.time, runnable@, r.1@, r.0@, r.2@),
            r.1@[0] == old(self).system,
            r.1@.last() == final(self).system,
            same_but_callbacks(old(self).nodes.nodes@, final(self).nodes.nodes@),
            remembers(old(self).nodes.nodes@, final(self).nodes.nodes@, runnable@, r.2@),
    {
        let ghost mut systems = seq![self.system];
        let ghost mut memories: Seq<Memory> = Seq::empty();
        let mut durations: Vec<Duration> = Vec::new();
        let mut k: usize = 0;
        while k < runnable.len()
            invariant
                k <= runnable@.len(),
                self.sound(),
                self.schedule.running(runnable@),
                *self == (SimulationState { system: self.system, nodes: self.nodes, ..*old(self) }),
                durations@.len() == k,
                memories.len() == k,
                systems.len() == k + 1,
                systems[0] == old(self).system,
                systems.last() == self.system,
                forall|j: int| 0 <= j < systems.len() ==> (#[trigger] systems[j]).wf(),
                same_but_callbacks(old(self).nodes.nodes@, self.nodes.nodes@),
                forall|i: int|
                    0 <= i < old(self).nodes.nodes@.len() && !runnable@.take(k as int).contains(
                        i as usize,
                    ) ==> #[trigger] self.nodes.nodes@[i] == old(self).nodes.nodes@[i],
                forall|j: int|
                    0 <= j < k ==> run_gives(
                        old(self).nodes.nodes@[(#[trigger] runnable@[j]) as int].node,
                        old(self).nodes.nodes@[runnable@[j] as int].node.callback.inner.memory(),
                        old(self).schedule.time,
                        systems[j],
                        systems[j + 1],
                        durations@[j],
                        memories[j],
                    ),
                forall|j: int|
                    0 <= j < k ==> self.nodes.nodes@[(#[trigger]
                    runnable@[j]) as int].node.callback.inner.memory() == memories[j]
                        && crate::callback::behaves_alike(
                        self.nodes.nodes@[runnable@[j] as int].node.callback,
                        old(self).nodes.nodes@[runnable@[j] as int].node.callback,
                    ),
            decreases runnable@.len() - k,
        {
            let index: usize = runnable[k];
            assert(can_simulate(self.nodes.nodes@[index as int], self.system));
            let ghost before = *self;
            proof {
                if runnable@.take(k as int).contains(index) {
                    let j = choose|j: int| 0 <= j < k && runnable@.take(k as int)[j] == index;
                    assert(runnable@[j] == runnable@[k as int]);
                }
                assert(self.nodes.nodes@[index as int] == old(self).nodes.nodes@[index as int]);
            }
            let ctx = Context::new(
                self.schedule.time,
                &self.channel_interner,
                &self.callback_interner,
            );
            let _run = self.nodes.nodes[index].node.run(&mut self.system, &ctx);
            proof {
                assert forall|i: int| 0 <= i < self.nodes.nodes@.len() implies can_simulate(
                    #[trigger] self.nodes.nodes@[i],
                    self.system,
                ) by {
                    assert(can_simulate(before.nodes.nodes@[i], before.system));
                }
                assert forall|i: int|
                    0 <= i < old(self).nodes.nodes@.len() && !runnable@.take(k + 1).contains(
                        i as usize,
                    ) implies #[trigger] self.nodes.nodes@[i] == old(self).nodes.nodes@[i] by {
                    assert(runnable@.take(k + 1)[k as int] == index);
                    if runnable@.take(k as int).contains(i as usize) {
                        let j = choose|j: int|
                            0 <= j < k && runnable@.take(k as int)[j] == i as usize;
                        assert(runnable@.take(k + 1)[j] == i as usize);
                    }
                }
            }
            assert(can_simulate(self.nodes.nodes@[index as int], self.system));
            let duration = self.nodes.nodes[index].node.execution_duration();
            durations.push(duration);
            proof {
                systems = systems.push(self.system);
                memories = memories.push(self.nodes.nodes@[index as int].node.callback.inner.memory());
                assert(run_gives(
                    old(self).nodes.nodes@[index as int].node,
                    old(self).nodes.nodes@[index as int].node.callback.inner.memory(),
                    old(self).schedule.time,
                    systems[k as int],
                    systems[k + 1],
                    duration,
                    memories[k as int],
                ));
                assert forall|j: int| 0 <= j < k implies self.nodes.nodes@[(#[trigger]
                runnable@[j]) as int] == before.nodes.nodes@[runnable@[j] as int] by {
                    assert(runnable@[j] != runnable@[k as int]);
                }
            }
            k = k + 1;
        }
        assert(runnable@.take(k as int) =~= runnable@);
        (durations, Ghost(systems), Ghost(memories))
    }

    /// Flushes the outputs of the nodes of `runnable`, in turn, with the
    /// current time.
    fn flush_nodes(&mut self, runnable: &Vec<usize>) -> (systems: Ghost<Seq<PubSub<T>>>)
        requires
            old(self).sound(),
            old(self).schedule.running(runnable@),
        ensures
            final(self).sound(),
            *final(self) == (SimulationState { system: final(self).system, ..*old(self) }),
            old(self).flushed_in_turn(old(self).schedule.time, runnable@, systems@),
            systems@[0] == old(self).system,
            systems@.last() == final(self).system,
    {
        let ghost mut systems = seq![self.system];
        let mut k: usize = 0;
        while k < runnable.len()
            invariant
                k <= runnable@.len(),
                self.sound(),
                self.schedule.running(runnable@),
                *self == (SimulationState { system: self.system, ..*old(self) }),
                systems.len() == k + 1,
                systems[0] == old(self).system,
                systems.last() == self.system,
                forall|j: int| 0 <= j < systems.len() ==> (#[trigger] systems[j]).wf(),
                forall|j: int|
                    0 <= j < k ==> flush_gives(
                        self.nodes.nodes@[(#[trigger] runnable@[j]) as int].node,
                        self.schedule.time,
                        systems[j],
                        systems[j + 1],
                    ),
            decreases runnable@.len() - k,
        {
            let index: usize = runnable[k];
            assert(can_simulate(self.nodes.nodes@[index as int], self.system));
            let ghost before = *self;
            let time = self.schedule.time;
            let announced = self.nodes.nodes[index].node.ports.flush_publishers(
                &mut self.system,
                time,
            );
            proof {
                assert forall|i: int| 0 <= i < self.nodes.nodes@.len() implies can_simulate(
                    #[trigger] self.nodes.nodes@[i],
                    self.system,
                ) by {
                    assert(can_simulate(before.nodes.nodes@[i], before.system));
                }
                assert(before.nodes.nodes@[index as int].node.ports.flushes(
                    before.system,
                    self.system,
                    time,
                    announced@,
                ));
                systems = systems.push(self.system);
            }
            k = k + 1;
        }
        Ghost(systems)
    }

    /// Nodes ask the same before and after their runs, from the same memories.
    proof fn lemma_asks_alike(
        &self,
        after: SimulationState<T>,
        now: FrameworkTime,
        periodic: Seq<crate::schedule::TimeTriggeredNode>,
        runnable: Seq<usize>,
        durations: Seq<Duration>,
        memories: Seq<Memory>,
        next_times: Seq<Option<FrameworkTime>>,
    )
        requires
            same_but_callbacks(self.nodes.nodes@, after.nodes.nodes@),
            remembers(self.nodes.nodes@, after.nodes.nodes@, runnable, memories),
            forall|k: int|
                0 <= k < runnable.len() ==> (#[trigger] runnable[k]) < self.nodes.nodes@.len(),
            after.asks_next(now, periodic, runnable, durations, memories, next_times),
        ensures
            self.asks_next(now, periodic, runnable, durations, memories, next_times),
    {
        assert forall|p: int, k: int|
            0 <= p < periodic.len() && 0 <= k < runnable.len() && runnable[k]
                == periodic[p].index implies self.nodes.nodes@[(#[trigger]
        runnable[k]) as int].node.asks(
            memories[k],
            crate::time::saturated_time_after(now, durations[k]),
            #[trigger] next_times[p],
        ) by {
            let x = self.nodes.nodes@[runnable[k] as int];
            let y = after.nodes.nodes@[runnable[k] as int];
            assert(crate::callback::behaves_alike(y.node.callback, x.node.callback));
            assert(y.node.callback.inner.wants(memories[k]) == x.node.callback.inner.wants(
                memories[k],
            ));
            assert(y.node.asks(
                memories[k],
                crate::time::saturated_time_after(now, durations[k]),
                next_times[p],
            ));
        }
    }

    /// Asks the periodic nodes of `runnable` when they want to run next, from
    /// the time at which each is no longer busy.
    fn ask_next_times(&self, runnable: &Vec<usize>, durations: &Vec<Duration>) -> (next_times: Vec<
        Option<FrameworkTime>,
    >)
        requires
            self.sound(),
            self.schedule.running(runnable@),
            durations@.len() == runnable@.len(),
        ensures
            self.asks_next(
                self.schedule.time,
                self.schedule.periodic_nodes@,
                runnable@,
                durations@,
                remembered_by(self.nodes.nodes@, runnable@),
                next_times@,
            ),
    {
        let mut next_times: Vec<Option<FrameworkTime>> = Vec::new();
        let ghost now = self.schedule.time;
        let ghost periodic = self.schedule.periodic_nodes@;
        let mut p: usize = 0;
        while p < self.schedule.periodic_nodes.len()
            invariant
                p <= self.schedule.periodic_nodes@.len(),
                self.sound(),
                self.schedule.running(runnable@),
                durations@.len() == runnable@.len(),
                next_times@.len() == p,
                now == self.schedule.time,
                periodic == self.schedule.periodic_nodes@,
                forall|q: int, k: int|
                    0 <= q < p && 0 <= k < runnable@.len() && runnable@[k] == periodic[q].index
                        ==> self.nodes.nodes@[(#[trigger] runnable@[k]) as int].node.asks(
                        self.nodes.nodes@[runnable@[k] as int].node.callback.inner.memory(),
                        crate::time::saturated_time_after(now, durations@[k]),
                        #[trigger] next_times@[q],
                    ),
            decreases self.schedule.periodic_nodes@.len() - p,
        {
            let index: usize = self.schedule.periodic_nodes[p].index;
            let mut next: Option<FrameworkTime> = None;
            let mut k: usize = 0;
            while k < runnable.len()
                invariant
                    k <= runnable@.len(),
                    runnable@.no_duplicates(),
                    index < self.nodes.nodes@.len(),
                    durations@.len() == runnable@.len(),
                    now == self.schedule.time,
                    forall|j: int|
                        0 <= j < k && (#[trigger] runnable@[j]) == index
                            ==> self.nodes.nodes@[index as int].node.asks(
                            self.nodes.nodes@[index as int].node.callback.inner.memory(),
                            crate::time::saturated_time_after(now, durations@[j]),
                            next,
                        ),
                decreases runnable@.len() - k,
            {
                if runnable[k] == index {
                    let no_longer_busy = self.schedule.time.saturating_add(durations[k]);
                    next = self.nodes.nodes[index].node.next_requested_execution_time(
                        no_longer_busy,
                    );
                }
                k = k + 1;
            }
            next_times.push(next);
            p = p + 1;
        }
        next_times
    }

    /// Whether a node's callback has come to its end, and the simulation with
    /// it.
    pub open spec fn ends(&self) -> bool {
        exists|i: int|
            0 <= i < self.nodes.nodes@.len() && (#[trigger]
            self.nodes.nodes@[i]).node.callback.inner.ends(
                self.nodes.nodes@[i].node.callback.inner.memory(),
            )
    }

    /// Whether a node's callback has come to its end, as a replay does at the
    /// end of its log.
    pub fn wants_stop(&self) -> (r: bool)
        ensures
            r == self.ends(),
    {
        let mut i: usize = 0;
        while i < self.nodes.nodes.len()
            invariant
                i <= self.nodes.nodes@.len(),
                forall|j: int|
                    0 <= j < i ==> !(#[trigger] self.nodes.nodes@[j]).node.callback.inner.ends(
                        self.nodes.nodes@[j].node.callback.inner.memory(),
                    ),
            decreases self.nodes.nodes@.len() - i,
        {
            if self.nodes.nodes[i].node.wants_stop() {
                return true;
            }
            i = i + 1;
        }
        false
    }

    pub fn step_count(&self) -> (r: usize)
        ensures
            r == self.schedule.step_count,
    {
        self.schedule.step_count
    }

    pub fn simulation_time(&self) -> (r: FrameworkTime)
        ensures
            r == self.schedule.time,
    {
        self.schedule.time
    }

    /// Whether `after` is this state once the inputs of all nodes were emptied:
    /// messages that nothing else refers to are gone, and the rest is as it
    /// was.
    pub open spec fn cleans_up_to(&self, after: SimulationState<T>) -> bool {
        &&& after == (SimulationState { system: after.system, ..*self })
        &&& after.system.readiness == self.system.readiness
        &&& after.system.same_publishers(self.system)
        &&& after.system.keeps_messages_of(self.system)
        &&& after.system.subscribers@.len() == self.system.subscribers@.len()
        &&& forall|i: int, s: int|
            0 <= i < self.nodes.nodes@.len() && 0 <= s < after.system.subscribers@.len() && (
            #[trigger] self.nodes.nodes@[i]).node.ports.owns_subscriber(s) ==> (#[trigger]
            after.system.subscribers@[s]).held().len() == 0
        &&& forall|s: int|
            0 <= s < after.system.subscribers@.len() && (forall|i: int|
                0 <= i < self.nodes.nodes@.len() ==> !(#[trigger]
                self.nodes.nodes@[i]).node.ports.owns_subscriber(s))
                ==> #[trigger] after.system.subscribers@[s] == self.system.subscribers@[s]
    }

    /// Clears the buffers of all nodes' inputs.
    pub fn cleanup(&mut self)
        requires
            old(self).sound(),
        ensures
            final(self).sound(),
            old(self).cleans_up_to(*final(self)),
    {
        let ghost before = *self;
        proof {
            assert forall|i: int| 0 <= i < self.nodes.nodes@.len() implies (#[trigger]
            self.nodes.nodes@[i]).node.placed_in(self.system) by {
                assert(can_simulate(self.nodes.nodes@[i], self.system));
            }
        }
        self.nodes.cleanup_subscribers(&mut self.system);
        proof {
            let n = self.nodes.nodes@.len() as int;
            assert forall|i: int| 0 <= i < self.nodes.nodes@.len() implies can_simulate(
                #[trigger] self.nodes.nodes@[i],
                self.system,
            ) by {
                assert(can_simulate(before.nodes.nodes@[i], before.system));
            }
            assert forall|i: int, s: int|
                0 <= i < n && 0 <= s < self.system.subscribers@.len() && (#[trigger]
                before.nodes.nodes@[i]).node.ports.owns_subscriber(s) implies (#[trigger]
            self.system.subscribers@[s]).held().len() == 0 by {
                assert(can_simulate(before.nodes.nodes@[i], before.system));
                assert(self.nodes.nodes@[i].run_state is Idle);
                assert(self.nodes.idle_owner(n, s));
            }
        }
    }
}

/// What happens in one step.
#[verifier::reject_recursive_types(T)]
pub struct StepTrace<T> {
    /// The schedule when the threads are given out.
    pub allocated: Schedule,
    /// The system before the first drain and after each.
    pub drained: Seq<PubSub<T>>,
    /// The system before the first run and after each.
    pub ran: Seq<PubSub<T>>,
    /// The system before the first flush and after each.
    pub flushed: Seq<PubSub<T>>,
    /// How long each run lasts.
    pub durations: Seq<Duration>,
    /// What each callback remembers after its run.
    pub memories: Seq<Memory>,
    /// When the periodic nodes want to run next.
    pub next_times: Seq<Option<FrameworkTime>>,
}

/// Whether a run of `node` at `now`, when its callback remembers `memory`, can
/// take `before` to `after`, last for `duration` and leave `next` remembered.
pub open spec fn run_gives<T>(
    node: crate::callback::CallbackNode<T>,
    memory: Memory,
    now: FrameworkTime,
    before: PubSub<T>,
    after: PubSub<T>,
    duration: Duration,
    next: Memory,
) -> bool {
    &&& node.ports.ran_within(before, after)
    &&& exists|r: crate::callback::Run| #[trigger]
        node.callback.inner.runs(memory, node.ports, now, before, after, r, next)
    &&& node.execution_duration_callback is Some
    &&& node.execution_duration_callback->0.inner.allows(duration)
}

/// Whether flushing the outputs of `node` at `now` takes `before` to `after`.
pub open spec fn flush_gives<T>(
    node: crate::callback::CallbackNode<T>,
    now: FrameworkTime,
    before: PubSub<T>,
    after: PubSub<T>,
) -> bool {
    exists|announced: Seq<crate::scheduling::CallbackNodeId>| #[trigger]
        node.ports.flushes(before, after, now, announced)
}

/// What the callbacks of the nodes of `runnable` remember.
pub open spec fn remembered_by<T>(
    nodes: Seq<SharedCallbackNode<T>>,
    runnable: Seq<usize>,
) -> Seq<Memory> {
    runnable.map_values(|index: usize| nodes[index as int].node.callback.inner.memory())
}

/// Whether the nodes are the same up to what their callbacks hold.
pub open spec fn same_but_callbacks<T>(
    before: Seq<SharedCallbackNode<T>>,
    after: Seq<SharedCallbackNode<T>>,
) -> bool {
    &&& after.len() == before.len()
    &&& forall|i: int|
        0 <= i < before.len() ==> #[trigger] after[i] == (SharedCallbackNode {
            node: crate::callback::CallbackNode {
                callback: after[i].node.callback,
                ..before[i].node
            },
            ..before[i]
        })
}

/// Whether the nodes of `runnable` remember `memories` after their runs and
/// behave as before, and the other nodes are as they were.
pub open spec fn remembers<T>(
    before: Seq<SharedCallbackNode<T>>,
    after: Seq<SharedCallbackNode<T>>,
    runnable: Seq<usize>,
    memories: Seq<Memory>,
) -> bool {
    &&& forall|k: int|
        0 <= k < runnable.len() ==> after[(#[trigger] runnable[k]) as int].node.callback.inner.memory()
            == memories[k] && crate::callback::behaves_alike(
            after[runnable[k] as int].node.callback,
            before[runnable[k] as int].node.callback,
        )
    &&& forall|i: int|
        0 <= i < before.len() && !runnable.contains(i as usize) ==> #[trigger] after[i] == before[i]
}

/// Simulation time never goes back.
pub proof fn law_time_is_monotone<T>(
    before: SimulationState<T>,
    after: SimulationState<T>,
    trace: StepTrace<T>,
    runnable: Seq<usize>,
)
    requires
        before.steps_to(after, trace, runnable),
    ensures
        after.schedule.time.nanoseconds >= before.schedule.time.nanoseconds,
{
}

/// A node that gets no thread keeps what arrived for it: draining leaves its
/// inputs alone, so that it has its trigger data in the next step.
pub proof fn law_blocked_node_keeps_its_inputs<T>(
    before: SimulationState<T>,
    trace: StepTrace<T>,
    runnable: Seq<usize>,
    s: int,
)
    requires
        before.sound(),
        before.allocated_and_drained(trace, runnable),
        0 <= s < before.system.subscribers@.len(),
        forall|k: int|
            0 <= k < runnable.len() ==> !before.nodes.nodes@[(#[trigger] runnable[k]) as int].node.ports.owns_subscriber(
                s,
            ),
    ensures
        trace.drained.last().subscribers@[s] == before.system.subscribers@[s],
{
    lemma_drains_keep_others(before, trace, runnable, s, runnable.len() as int);
}

proof fn lemma_drains_keep_others<T>(
    before: SimulationState<T>,
    trace: StepTrace<T>,
    runnable: Seq<usize>,
    s: int,
    k: int,
)
    requires
        before.allocated_and_drained(trace, runnable),
        0 <= s < before.system.subscribers@.len(),
        0 <= k <= runnable.len(),
        forall|j: int|
            0 <= j < runnable.len() ==> !before.nodes.nodes@[(#[trigger] runnable[j]) as int].node.ports.owns_subscriber(
                s,
            ),
    ensures
        trace.drained[k].subscribers@.len() == before.system.subscribers@.len(),
        trace.drained[k].subscribers@[s] == before.system.subscribers@[s],
    decreases k,
{
    if k > 0 {
        lemma_drains_keep_others(before, trace, runnable, s, k - 1);
        let ports = before.nodes.nodes@[runnable[k - 1] as int].node.ports;
        assert(ports.drains(trace.drained[k - 1], trace.drained[k]));
        assert(!ports.owns_subscriber(s));
    }
}

/// Whether the `i`-th node of pool `k` stands at its place in the list of all
/// nodes.
spec fn flat_at<T>(
    pools: Seq<ThreadPoolConfig<T>>,
    nodes: Seq<SharedCallbackNode<T>>,
    node_to_pool: Seq<usize>,
    k: int,
    node: SharedCallbackNode<T>,
    i: int,
) -> bool {
    let at = crate::executor::pool_offset(pools, k) + i;
    &&& 0 <= at < nodes.len()
    &&& 0 <= at < node_to_pool.len()
    &&& nodes[at] == node
    &&& node_to_pool[at] == k
}

/// The nodes of all pools in one list, pool after pool, the thread counts of
/// the pools, and the pool of each node.
fn flatten_pools<T>(pools: Vec<ThreadPoolConfig<T>>, Ghost(system): Ghost<PubSub<T>>) -> (r: (
    Vec<SharedCallbackNode<T>>,
    Vec<usize>,
    Vec<usize>,
))
    requires
        forall|k: int, i: int|
            0 <= k < pools@.len() && 0 <= i < pools@[k].nodes.nodes@.len() ==> can_simulate(
                #[trigger] pools@[k].nodes.nodes@[i],
                system,
            ),
    ensures
        r.0@.len() == crate::executor::pool_offset(pools@, pools@.len() as int),
        r.2@.len() == r.0@.len(),
        r.1@.len() == pools@.len(),
        forall|k: int| 0 <= k < pools@.len() ==> #[trigger] r.1@[k] == pools@[k].thread_count,
        forall|i: int| 0 <= i < r.2@.len() ==> (#[trigger] r.2@[i]) < pools@.len(),
        forall|i: int| 0 <= i < r.0@.len() ==> can_simulate(#[trigger] r.0@[i], system),
        forall|k: int, i: int|
            0 <= k < pools@.len() && 0 <= i < pools@[k].nodes.nodes@.len() ==> {
                flat_at(pools@, r.0@, r.2@, k, #[trigger] pools@[k].nodes.nodes@[i], i)
            },
{
    let ghost all = pools@;
    assert(pools.len() == all.len());
    let mut rest = pools;
    let mut nodes: Vec<SharedCallbackNode<T>> = Vec::new();
    let mut thread_counts: Vec<usize> = Vec::new();
    let mut node_to_pool: Vec<usize> = Vec::new();
    let mut k: usize = 0;
    assert(all.skip(0) =~= all);
    while rest.len() > 0
        invariant
            k <= all.len(),
            all == pools@,
            all.len() <= usize::MAX,
            rest@ == all.skip(k as int),
            forall|m: int, i: int|
                0 <= m < all.len() && 0 <= i < all[m].nodes.nodes@.len() ==> can_simulate(
                    #[trigger] all[m].nodes.nodes@[i],
                    system,
                ),
            nodes@.len() == crate::executor::pool_offset(all, k as int),
            node_to_pool@.len() == nodes@.len(),
            thread_counts@.len() == k,
            forall|m: int| 0 <= m < k ==> #[trigger] thread_counts@[m] == all[m].thread_count,
            forall|i: int| 0 <= i < node_to_pool@.len() ==> (#[trigger] node_to_pool@[i]) < k,
            forall|i: int| 0 <= i < nodes@.len() ==> can_simulate(#[trigger] nodes@[i], system),
            forall|m: int, i: int|
                0 <= m < k && 0 <= i < all[m].nodes.nodes@.len() ==> flat_at(
                    all,
                    nodes@,
                    node_to_pool@,
                    m,
                    #[trigger] all[m].nodes.nodes@[i],
                    i,
                ),
        decreases rest@.len(),
    {
        let pool = rest.remove(0);
        assert(pool == all[k as int]);
        thread_counts.push(pool.thread_count);
        let mut pool_nodes = pool.nodes.into_nodes();
        let count: usize = pool_nodes.len();
        let ghost nodes_before = nodes@;
        let ghost pools_before = node_to_pool@;
        let ghost added = pool_nodes@;
        nodes.append(&mut pool_nodes);
        let mut i: usize = 0;
        while i < count
            invariant
                i <= count,
                node_to_pool@.len() == pools_before.len() + i,
                forall|j: int|
                    0 <= j < pools_before.len() ==> #[trigger] node_to_pool@[j] == pools_before[j],
                forall|j: int|
                    pools_before.len() <= j < node_to_pool@.len() ==> #[trigger] node_to_pool@[j]
                        == k,
            decreases count - i,
        {
            node_to_pool.push(k);
            i = i + 1;
        }
        proof {
            assert(rest@ =~= all.skip(k + 1));
            assert forall|j: int| 0 <= j < nodes@.len() implies can_simulate(
                #[trigger] nodes@[j],
                system,
            ) by {
                if j >= nodes_before.len() {
                    assert(nodes@[j] == all[k as int].nodes.nodes@[j - nodes_before.len()]);
                }
            }
            assert forall|m: int, j: int|
                0 <= m < k + 1 && 0 <= j < all[m].nodes.nodes@.len() implies flat_at(
                all,
                nodes@,
                node_to_pool@,
                m,
                #[trigger] all[m].nodes.nodes@[j],
                j,
            ) by {
                let at = crate::executor::pool_offset(all, m) + j;
                if m < k {
                    assert(flat_at(
                        all,
                        nodes_before,
                        pools_before,
                        m,
                        all[m].nodes.nodes@[j],
                        j,
                    ));
                } else {
                    assert(at == nodes_before.len() + j);
                    assert(nodes@[at] == added[j]);
                }
            }
        }
        k = k + 1;
    }
    (nodes, thread_counts, node_to_pool)
}

} // verus!
