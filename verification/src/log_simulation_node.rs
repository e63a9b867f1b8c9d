//! The node that replays a log in a graph.
use vstd::prelude::*;

use crate::callback::{
    AnyCallback, AnyDuration, AnySchedule, Callback, CallbackNode, Memory, NodePorts, PublisherPort,
    Run, SubscriberPort,
};
use crate::channel_registry::{ChannelPublisherFactory, ChannelRegistry};
use crate::context::Context;
use crate::log_simulation::{
    LogEntry, LogSimulationBuildStep, LogSimulationPlan, LogSimulationTask, ReplayAction,
};
use crate::loggable::Loggable;
use crate::pub_sub::PubSub;
use crate::time::{Duration, FrameworkTime};

verus! {

/// What a replay remembers of an entry.
pub open spec fn entry_memory(entry: LogEntry) -> Memory {
    Memory::List(
        seq![
            Memory::Number(entry.time.nanoseconds as int),
            Memory::Text(entry.channel@),
            Memory::List(
                Seq::new(entry.payload@.len(), |i: int| Memory::Number(entry.payload@[i] as int)),
            ),
        ],
    )
}

/// What a replay remembers: the entries that are still to be sent.
pub open spec fn log_memory(entries: Seq<LogEntry>) -> Memory {
    Memory::List(Seq::new(entries.len(), |i: int| entry_memory(entries[i])))
}

/// When a replay wants to run, from what it remembers: at the time of the first
/// entry. The clock's invalid reading is no time.
pub open spec fn first_time_in(memory: Memory) -> Option<FrameworkTime> {
    match memory {
        Memory::List(entries) => if entries.len() == 0 {
            None
        } else {
            match entries[0] {
                Memory::List(parts) => match parts[0] {
                    Memory::Number(time) => if time == i64::MIN {
                        None
                    } else {
                        Some(FrameworkTime { nanoseconds: time as i64 })
                    },
                    _ => None,
                },
                _ => None,
            }
        },
        _ => None,
    }
}

/// Whether a replay has come to its end: it remembers no entry.
pub open spec fn nothing_left(memory: Memory) -> bool {
    memory == log_memory(Seq::empty())
}

/// A replay that remembers the entries wants to run at the time of the first,
/// and is at its end if there is none.
pub proof fn law_replay_wants_the_next_entry(entries: Seq<LogEntry>)
    ensures
        first_time_in(log_memory(entries)) == crate::log_simulation::wanted_time(entries),
        nothing_left(log_memory(entries)) <==> entries.len() == 0,
{
    let all = Seq::new(entries.len(), |i: int| entry_memory(entries[i]));
    assert(log_memory(entries) == Memory::List(all));
    let none = Seq::new(
        Seq::<LogEntry>::empty().len(),
        |i: int| entry_memory(Seq::<LogEntry>::empty()[i]),
    );
    assert(log_memory(Seq::empty()) == Memory::List(none));
    if entries.len() == 0 {
        assert(all =~= none);
    } else {
        assert(all.len() != none.len());
        assert(all[0] == entry_memory(entries[0]));
    }
}

/// Whether a run at `now` of a replay that remembers `memory` can take `before`
/// to `after`: the entries that are due are sent again, each through the output
/// of its channel. Those whose outputs have no loan left stay remembered, and so
/// do the later ones.
pub open spec fn replay_runs<T: Loggable>(
    sinks: Seq<String>,
    memory: Memory,
    ports: NodePorts,
    now: FrameworkTime,
    before: PubSub<T>,
    after: PubSub<T>,
    r: Run,
    next: Memory,
) -> bool {
    &&& r.num_iterations == 0
    &&& exists|entries: Seq<LogEntry>, actions: Seq<ReplayAction>, systems: Seq<PubSub<T>>|
        #![trigger log_memory(entries), crate::log_simulation::sent_in_turn(ports, actions, systems)]
        {
            let count = crate::log_simulation::due(entries, now) as int;
            let left = crate::log_simulation::waiting(
                ports,
                actions,
                systems,
                actions.len() as int,
            );
            &&& log_memory(entries) == memory
            &&& log_memory(left + entries.skip(count)) == next
            &&& crate::log_simulation::replays(entries.take(count), sinks, actions)
            &&& crate::log_simulation::sent_in_turn(ports, actions, systems)
            &&& systems[0] == before
            &&& systems.last() == after
        }
}

/// Sends what was logged. It wants to run when the next entry is due, and once
/// the log has come to its end, it says so.
pub struct LogSimulationCallback {
    task: LogSimulationTask,
    factories: Vec<ChannelPublisherFactory>,
}

impl LogSimulationCallback {
    /// The channel of each output.
    pub closed spec fn sinks(&self) -> Seq<String> {
        self.task.sinks@
    }

    /// The payload type of each output.
    pub closed spec fn value_types(&self) -> Seq<u64> {
        self.factories@.map_values(|factory: ChannelPublisherFactory| factory.value_type)
    }
}

impl<T: Loggable> Callback<T> for LogSimulationCallback {
    closed spec fn memory(&self) -> Memory {
        log_memory(self.task.reader.entries@)
    }

    open spec fn runs(
        &self,
        memory: Memory,
        ports: NodePorts,
        now: FrameworkTime,
        before: PubSub<T>,
        after: PubSub<T>,
        r: Run,
        next: Memory,
    ) -> bool {
        replay_runs(self.sinks(), memory, ports, now, before, after, r, next)
    }

    open spec fn wants(&self, memory: Memory) -> Option<FrameworkTime> {
        first_time_in(memory)
    }

    fn next_time(&self) -> (r: Option<FrameworkTime>) {
        proof {
            law_replay_wants_the_next_entry(self.task.reader.entries@);
        }
        self.task.next_execution_time()
    }

    open spec fn ends(&self, memory: Memory) -> bool {
        nothing_left(memory)
    }

    fn wants_stop(&self) -> (r: bool) {
        proof {
            law_replay_wants_the_next_entry(self.task.reader.entries@);
        }
        self.task.is_over()
    }

    fn run_generic(&mut self, system: &mut PubSub<T>, ports: &NodePorts, ctx: &Context) -> (r: Run) {
        let ghost entries = self.task.reader.entries@;
        let ghost before = *system;
        let actions = self.task.run(ctx.now());
        let ghost planned = actions@;
        let left = crate::log_simulation::replay(system, ports, actions);
        self.task.put_back(left);
        let run = Run::new(0);
        proof {
            let systems = choose|systems: Seq<PubSub<T>>| #[trigger]
                crate::log_simulation::sent_in_turn(*ports, planned, systems) && systems[0]
                    == before && systems.last() == *system && left@
                    == crate::log_simulation::waiting(
                    *ports,
                    planned,
                    systems,
                    planned.len() as int,
                );
            assert(crate::log_simulation::sent_in_turn(*ports, planned, systems));
            assert(log_memory(entries) == log_memory(entries));
        }
        run
    }

    open spec fn inputs_are(&self, ports: Seq<SubscriberPort>) -> bool {
        ports.len() == 0
    }

    open spec fn outputs_are(&self, ports: Seq<PublisherPort>) -> bool {
        self.sinks().len() == self.value_types().len() ==> {
            &&& ports.len() == self.sinks().len()
            &&& forall|i: int|
                0 <= i < ports.len() ==> crate::log_simulation::is_replay_output(
                    #[trigger] ports[i],
                    self.sinks()[i]@,
                    Some(self.value_types()[i]),
                )
        }
    }

    open spec fn registers(&self, before: ChannelRegistry, after: ChannelRegistry) -> bool {
        after == before
    }

    fn register_channels(&self, registry: &mut ChannelRegistry) {
    }

    fn build_subscribers(&self) -> (r: Vec<SubscriberPort>) {
        Vec::new()
    }

    fn build_publishers(&self) -> (r: Vec<PublisherPort>) {
        let mut ports: Vec<PublisherPort> = Vec::new();
        let mut i: usize = 0;
        while i < self.task.sinks.len() && i < self.factories.len()
            invariant
                i <= self.task.sinks@.len(),
                i <= self.factories@.len(),
                ports@.len() == i,
                forall|j: int|
                    0 <= j < i ==> crate::log_simulation::is_replay_output(
                        #[trigger] ports@[j],
                        self.sinks()[j]@,
                        Some(self.value_types()[j]),
                    ),
            decreases self.task.sinks@.len() - i,
        {
            ports.push(self.factories[i].make(self.task.sinks[i].clone()));
            i = i + 1;
        }
        ports
    }
}

/// Whether `node` is a fresh node that replays the log of `step`.
pub open spec fn is_replay_node<T: Loggable>(
    node: CallbackNode<T>,
    step: LogSimulationBuildStep,
    registry: ChannelRegistry,
) -> bool {
    let channels = step.channels();
    &&& node.wf()
    &&& node.name@ == "LogSimulationTask"@
    &&& node.subscribers@.len() == 0
    &&& node.publishers@.len() == channels.len()
    &&& forall|i: int|
        0 <= i < channels.len() ==> crate::log_simulation::is_replay_output(
            #[trigger] node.publishers@[i],
            channels[i],
            crate::log_simulation::sendable_as(registry, channels[i]),
        )
    &&& node.execution_duration_callback is Some
    &&& forall|duration: Duration| #[trigger]
        node.execution_duration_callback->0.inner.allows(duration) <==> duration.nanoseconds == 0
    &&& forall|memory: Memory, now: FrameworkTime, next: Option<FrameworkTime>| #[trigger]
        node.asks(memory, now, next) <==> next == first_time_in(memory)
    &&& forall|memory: Memory| #[trigger] node.callback.inner.ends(memory) == nothing_left(memory)
    &&& node.callback.inner.memory() == log_memory(step.log.entries@)
    &&& exists|sinks: Seq<String>| #[trigger]
        crate::log_simulation::name_texts(sinks) == channels && replays_through(node, sinks)
    &&& forall|before: ChannelRegistry, after: ChannelRegistry| #[trigger]
        node.callback.inner.registers(before, after) <==> after == before
    &&& node.id is None
    &&& node.ports == crate::callback::no_ports()
}

/// Whether the node's callback sends entries again through outputs of the
/// channels `sinks`.
pub open spec fn replays_through<T: Loggable>(node: CallbackNode<T>, sinks: Seq<String>) -> bool {
    forall|
        memory: Memory,
        ports: NodePorts,
        now: FrameworkTime,
        before: PubSub<T>,
        after: PubSub<T>,
        r: Run,
        next: Memory,
    | #[trigger]
        node.callback.inner.runs(memory, ports, now, before, after, r, next) <==> replay_runs(
            sinks,
            memory,
            ports,
            now,
            before,
            after,
            r,
            next,
        )
}

impl LogSimulationBuildStep {
    /// The node that replays the log, with an output for each channel that is
    /// replayed; none where no channel is. It is an error if the payload type of
    /// such a channel is not known.
    pub fn build_step<T: Loggable>(self, registry: &ChannelRegistry) -> (r: Result<
        Vec<CallbackNode<T>>,
        String,
    >)
        requires
            registry.wf(),
            self.wf(),
        ensures
            r is Err <==> exists|n: int| #[trigger]
                crate::log_simulation::unreplayable(
                    self.log.entries@,
                    *registry,
                    self.denylist@,
                    n,
                ),
            r is Err ==> exists|n: int| #[trigger]
                crate::log_simulation::first_unreplayable(
                    self.log.entries@,
                    *registry,
                    self.denylist@,
                    n,
                ) && r->Err_0@ == "no registered payload type for logged channel "@
                    + self.log.entries@[n].channel@,
            r matches Ok(nodes) ==> nodes@.len() == if self.channels().len() == 0 {
                0int
            } else {
                1int
            },
            r is Ok && self.channels().len() > 0 ==> is_replay_node(r->Ok_0@[0], self, *registry),
    {
        let ghost this = self;
        let ghost entries = self.log.entries@;
        let mut nodes: Vec<CallbackNode<T>> = Vec::new();
        let plan = match self.plan(registry) {
            Ok(Some(plan)) => plan,
            Ok(None) => {
                return Ok(nodes);
            },
            Err(error) => {
                return Err(error);
            },
        };
        let LogSimulationPlan { task, factories } = plan;
        let ghost sinks = task.sinks@;
        let callback = LogSimulationCallback { task, factories };
        let mut node: CallbackNode<T> = CallbackNode::new_named(
            AnyCallback { inner: Box::new(callback) },
            "LogSimulationTask".to_owned(),
        );
        node.set_execution_duration_callback(AnyDuration::fixed(Duration::zero()));
        node.set_execution_time_callback(AnySchedule::ByCallback);
        proof {
            let channels = this.channels();
            assert forall|i: int| 0 <= i < channels.len() implies crate::log_simulation::is_replay_output(
                #[trigger] node.publishers@[i],
                channels[i],
                crate::log_simulation::sendable_as(*registry, channels[i]),
            ) by {
                assert(crate::log_simulation::name_texts(sinks)[i] == sinks[i]@);
                assert(Some(factories@[i].value_type) == crate::log_simulation::sendable_as(
                    *registry,
                    channels[i],
                ));
            }
            assert(crate::log_simulation::name_texts(sinks) == channels);
            assert(replays_through(node, sinks));
            assert(is_replay_node(node, this, *registry));
        }
        nodes.push(node);
        Ok(nodes)
    }
}

} // verus!
