//! What a step of a simulation is for: nodes run when data or time asks for
//! them, read what arrived, and publish what they sent.
use vstd::prelude::*;

use crate::callback::{NodePorts, Run};
use crate::generic_subscriber::GenericSubscriber;
use crate::pub_sub::PubSub;
use crate::schedule::Schedule;
use crate::simulation::{SimulationState, StepTrace};
use crate::simulation_executor::SimulationExecutor;
use crate::time::{Duration, FrameworkTime};

verus! {

/// Data makes a node ready exactly if one of its trigger inputs, whichever it
/// is, has a message pending, or an event asks for the node, and each of its
/// required inputs has a message, pending or kept.
pub proof fn law_data_makes_ready<T>(state: SimulationState<T>, i: int)
    requires
        0 <= i < state.nodes.nodes@.len(),
    ensures
        ({
            let ports = state.nodes.nodes@[i].node.ports;
            let first = ports.first_subscriber as int;
            let end = ports.first_subscriber + ports.subscriber_count;
            let asked = state.event_asks@[i] || exists|s: int|
                first <= s < end && (#[trigger] state.system.subscribers@[s]).config.is_trigger
                    && state.system.subscribers@[s].buffers.pending().len() > 0;
            let supplied = forall|s: int|
                first <= s < end && !(#[trigger] state.system.subscribers@[s]).config.is_optional
                    ==> state.system.subscribers@[s].buffers.pending().len() > 0
                    || state.system.subscribers@[s].buffers.readable().len() > 0;
            &&& state.data_ready(i) <==> asked && supplied
            &&& state.ready().len() == state.nodes.nodes@.len()
            &&& state.ready()[i] <==> asked && supplied
        }),
{
    let ports = state.nodes.nodes@[i].node.ports;
    let first = ports.first_subscriber as int;
    let end = ports.first_subscriber + ports.subscriber_count;
    if exists|s: int|
        first <= s < end && (#[trigger] state.system.subscribers@[s]).config.is_trigger
            && state.system.subscribers@[s].buffers.pending().len() > 0 {
        let s = choose|s: int|
            first <= s < end && (#[trigger] state.system.subscribers@[s]).config.is_trigger
                && state.system.subscribers@[s].buffers.pending().len() > 0;
        assert(ports.owns_subscriber(s) && state.system.subscribers@[s].asks_to_run());
    }
    if ports.any_asks(state.system) {
        let s = choose|s: int|
            ports.owns_subscriber(s) && (#[trigger] state.system.subscribers@[s]).asks_to_run();
        assert(first <= s < end);
    }
    if ports.required_ready(state.system) {
        assert forall|s: int|
            first <= s < end && !(#[trigger] state.system.subscribers@[s]).config.is_optional implies
        state.system.subscribers@[s].buffers.pending().len() > 0
            || state.system.subscribers@[s].buffers.readable().len() > 0 by {
            assert(ports.owns_subscriber(s));
        }
    } else {
        let s = choose|s: int|
            ports.owns_subscriber(s) && !((#[trigger] state.system.subscribers@[s]).config.is_optional
                || state.system.subscribers@[s].held().len() > 0);
        assert(first <= s < end && !state.system.subscribers@[s].config.is_optional);
    }
}

/// A message on a trigger input runs the node in the next step, as long as its
/// required inputs have messages and it is not busy; only where its pool has no
/// thread left, it has to wait.
pub proof fn law_message_runs_its_node<T>(
    before: SimulationState<T>,
    after: SimulationState<T>,
    trace: StepTrace<T>,
    runnable: Seq<usize>,
    i: int,
    s: int,
)
    requires
        before.wf(),
        before.steps_to(after, trace, runnable),
        0 <= i < before.nodes.nodes@.len(),
        before.nodes.nodes@[i].node.ports.first_subscriber <= s
            < before.nodes.nodes@[i].node.ports.first_subscriber
            + before.nodes.nodes@[i].node.ports.subscriber_count,
        before.system.subscribers@[s].config.is_trigger,
        before.system.subscribers@[s].buffers.pending().len() > 0,
        forall|t: int|
            before.nodes.nodes@[i].node.ports.first_subscriber <= t
                < before.nodes.nodes@[i].node.ports.first_subscriber
                + before.nodes.nodes@[i].node.ports.subscriber_count && !(#[trigger]
            before.system.subscribers@[t]).config.is_optional
                ==> before.system.subscribers@[t].buffers.pending().len() > 0
                || before.system.subscribers@[t].buffers.readable().len() > 0,
        before.schedule.node_busy_until@[i].nanoseconds <= before.schedule.time.nanoseconds,
    ensures
        runnable.contains(i as usize) || {
            let pool = trace.allocated.virtual_pools@[before.schedule.node_to_pool@[i] as int];
            &&& pool.num_threads_occupied >= pool.virtual_thread_count
            &&& pool.virtual_thread_count
                == before.schedule.virtual_pools@[before.schedule.node_to_pool@[i] as int].virtual_thread_count
        },
{
    law_data_makes_ready(before, i);
    crate::schedule_laws::law_due_node_runs_or_its_pool_is_full(
        before.schedule,
        trace.allocated,
        before.ready(),
        runnable,
        i,
    );
}

/// A node whose requested time has come and that is not busy runs in the next
/// step, whatever other nodes have to read; only where its pool has no thread
/// left, it has to wait.
pub proof fn law_due_time_runs_its_node<T>(
    before: SimulationState<T>,
    after: SimulationState<T>,
    trace: StepTrace<T>,
    runnable: Seq<usize>,
    k: int,
)
    requires
        before.wf(),
        before.steps_to(after, trace, runnable),
        0 <= k < before.schedule.periodic_nodes@.len(),
        before.schedule.periodic_nodes@[k].requested_exec_time.nanoseconds
            <= before.schedule.time.nanoseconds,
        before.schedule.node_busy_until@[before.schedule.periodic_nodes@[k].index as int].nanoseconds
            <= before.schedule.time.nanoseconds,
    ensures
        runnable.contains(before.schedule.periodic_nodes@[k].index) || {
            let p = before.schedule.node_to_pool@[before.schedule.periodic_nodes@[k].index as int];
            let pool = trace.allocated.virtual_pools@[p as int];
            &&& pool.num_threads_occupied >= pool.virtual_thread_count
            &&& pool.virtual_thread_count
                == before.schedule.virtual_pools@[p as int].virtual_thread_count
        },
{
    let i = before.schedule.periodic_nodes@[k].index as int;
    assert(before.schedule.periodic_nodes@[k].index < before.schedule.node_to_pool@.len());
    crate::schedule_laws::law_due_node_runs_or_its_pool_is_full(
        before.schedule,
        trace.allocated,
        before.ready(),
        runnable,
        i,
    );
}

/// A subscriber during the drains of a step: untouched until its first drain,
/// and drained from then on.
proof fn lemma_drained_by<T>(
    before: SimulationState<T>,
    trace: StepTrace<T>,
    runnable: Seq<usize>,
    s: int,
    n: int,
)
    requires
        before.wf(),
        before.allocated_and_drained(trace, runnable),
        0 <= s < before.system.subscribers@.len(),
        0 <= n <= runnable.len(),
    ensures
        trace.drained[n].subscribers@.len() == before.system.subscribers@.len(),
        trace.drained[n].subscribers@[s] == before.system.subscribers@[s]
            || crate::callback::NodePorts::drained_input(
            before.system.subscribers@[s],
            trace.drained[n].subscribers@[s],
        ) || (trace.drained[n].subscribers@[s].buffers.pending().len() == 0
            && trace.drained[n].subscribers@[s].config == before.system.subscribers@[s].config
            && trace.drained[n].subscribers@[s].buffers.readable() == crate::mpsc_queue::newest(
            before.system.subscribers@[s].held(),
            before.system.subscribers@[s].config.capacity as nat,
        )),
        (exists|k: int|
            0 <= k < n && before.nodes.nodes@[(#[trigger] runnable[k]) as int].node.ports.owns_subscriber(
                s,
            )) ==> trace.drained[n].subscribers@[s].buffers.pending().len() == 0
            && trace.drained[n].subscribers@[s].config == before.system.subscribers@[s].config
            && trace.drained[n].subscribers@[s].buffers.readable() == crate::mpsc_queue::newest(
            before.system.subscribers@[s].held(),
            before.system.subscribers@[s].config.capacity as nat,
        ),
    decreases n,
{
    if n > 0 {
        lemma_drained_by(before, trace, runnable, s, n - 1);
        let ports = before.nodes.nodes@[runnable[n - 1] as int].node.ports;
        let was = trace.drained[n - 1].subscribers@[s];
        let is = trace.drained[n].subscribers@[s];
        assert(ports.drains(trace.drained[n - 1], trace.drained[n]));
        assert(trace.drained[0].subscribers@[s] == before.system.subscribers@[s]);
        let cap = before.system.subscribers@[s].config.capacity as nat;
        let all = before.system.subscribers@[s].held();
        if ports.owns_subscriber(s) {
            assert(crate::callback::NodePorts::drained_input(was, is));
            if was.buffers.pending().len() == 0 {
                assert(was.buffers.readable() + was.buffers.pending() =~= was.buffers.readable());
            }
            assert(crate::mpsc_queue::newest(crate::mpsc_queue::newest(all, cap), cap)
                =~= crate::mpsc_queue::newest(all, cap));
        } else {
            assert(is == was);
            assert forall|k: int|
                0 <= k < n && before.nodes.nodes@[(#[trigger] runnable[k]) as int].node.ports.owns_subscriber(
                    s,
                ) implies k < n - 1 by {}
        }
    }
}

/// A node that runs reads everything that arrived for it: before it runs,
/// nothing is pending on its inputs, and each can read what it could read and
/// what was pending, in that order. Where that is more than the input's
/// capacity, the oldest messages are gone.
pub proof fn law_running_node_reads_what_arrived<T>(
    before: SimulationState<T>,
    trace: StepTrace<T>,
    runnable: Seq<usize>,
    k: int,
    s: int,
)
    requires
        before.wf(),
        before.allocated_and_drained(trace, runnable),
        0 <= k < runnable.len(),
        before.nodes.nodes@[runnable[k] as int].node.ports.first_subscriber <= s
            < before.nodes.nodes@[runnable[k] as int].node.ports.first_subscriber
            + before.nodes.nodes@[runnable[k] as int].node.ports.subscriber_count,
    ensures
        ({
            let was = before.system.subscribers@[s];
            let is = trace.drained.last().subscribers@[s];
            let all = was.buffers.readable() + was.buffers.pending();
            let cap = was.config.capacity as int;
            &&& is.buffers.pending().len() == 0
            &&& all.len() <= cap ==> is.buffers.readable() == all
            &&& all.len() > cap ==> is.buffers.readable() == all.skip(all.len() - cap)
        }),
{
    let n = runnable.len() as int;
    assert(trace.allocated.running(runnable));
    assert(runnable[k] < before.nodes.nodes@.len());
    assert(crate::simulation::can_simulate(before.nodes.nodes@[runnable[k] as int], before.system));
    lemma_drained_by(before, trace, runnable, s, n);
    assert(before.nodes.nodes@[runnable[k] as int].node.ports.owns_subscriber(s));
}

/// Each node of a step runs, once, at the step's time, from what it remembered;
/// afterwards it remembers what the run made of that, and is busy for as long as
/// the run takes. A node that does not run remembers what it did.
pub proof fn law_each_node_runs_once<T>(
    before: SimulationState<T>,
    after: SimulationState<T>,
    trace: StepTrace<T>,
    runnable: Seq<usize>,
)
    requires
        before.wf(),
        before.steps_to(after, trace, runnable),
    ensures
        after.nodes.nodes@.len() == before.nodes.nodes@.len(),
        forall|k: int|
            0 <= k < runnable.len() ==> {
                let i = (#[trigger] runnable[k]) as int;
                let was = before.nodes.nodes@[i].node;
                let is = after.nodes.nodes@[i].node;
                exists|a: PubSub<T>, b: PubSub<T>, run: Run, duration: Duration|
                    {
                        &&& #[trigger] was.callback.inner.runs(
                            was.callback.inner.memory(),
                            was.ports,
                            before.schedule.time,
                            a,
                            b,
                            run,
                            is.callback.inner.memory(),
                        )
                        &&& #[trigger] was.execution_duration_callback->0.inner.allows(duration)
                        &&& after.schedule.node_busy_until@[i].nanoseconds == if duration.nanoseconds
                            > i64::MAX || before.schedule.time.nanoseconds + duration.nanoseconds
                            > i64::MAX {
                            i64::MAX as int
                        } else {
                            before.schedule.time.nanoseconds + duration.nanoseconds
                        }
                    }
            },
        forall|i: int|
            0 <= i < before.nodes.nodes@.len() && !runnable.contains(i as usize) ==> #[trigger]
            after.nodes.nodes@[i] == before.nodes.nodes@[i] && after.schedule.node_busy_until@[i]
                == before.schedule.node_busy_until@[i],
{
    crate::schedule_laws::law_runs_take_their_time(
        trace.allocated,
        after.schedule,
        runnable,
        trace.durations,
        trace.next_times,
    );
    assert forall|k: int| 0 <= k < runnable.len() implies ({
        let i = (#[trigger] runnable[k]) as int;
        let was = before.nodes.nodes@[i].node;
        let is = after.nodes.nodes@[i].node;
        exists|a: PubSub<T>, b: PubSub<T>, run: Run, duration: Duration|
            {
                &&& #[trigger] was.callback.inner.runs(
                    was.callback.inner.memory(),
                    was.ports,
                    before.schedule.time,
                    a,
                    b,
                    run,
                    is.callback.inner.memory(),
                )
                &&& #[trigger] was.execution_duration_callback->0.inner.allows(duration)
                &&& after.schedule.node_busy_until@[i].nanoseconds == if duration.nanoseconds
                    > i64::MAX || before.schedule.time.nanoseconds + duration.nanoseconds
                    > i64::MAX {
                    i64::MAX as int
                } else {
                    before.schedule.time.nanoseconds + duration.nanoseconds
                }
            }
    }) by {
        let i = runnable[k] as int;
        let was = before.nodes.nodes@[i].node;
        assert(crate::simulation::run_gives(
            was,
            was.callback.inner.memory(),
            before.schedule.time,
            trace.ran[k],
            trace.ran[k + 1],
            trace.durations[k],
            trace.memories[k],
        ));
        let run = choose|run: Run| #[trigger]
            was.callback.inner.runs(
                was.callback.inner.memory(),
                was.ports,
                before.schedule.time,
                trace.ran[k],
                trace.ran[k + 1],
                run,
                trace.memories[k],
            );
        assert(was.execution_duration_callback->0.inner.allows(trace.durations[k]));
    }
}

/// The nodes of a step run one after the other, each on what the one before left,
/// and the first on the drained inputs; then their outputs are flushed.
pub proof fn law_runs_follow_each_other<T>(
    before: SimulationState<T>,
    after: SimulationState<T>,
    trace: StepTrace<T>,
    runnable: Seq<usize>,
)
    requires
        before.wf(),
        before.steps_to(after, trace, runnable),
    ensures
        trace.ran.len() == runnable.len() + 1,
        trace.ran[0] == trace.drained.last(),
        trace.flushed[0] == trace.ran.last(),
        after.system == trace.flushed.last(),
        forall|k: int|
            0 <= k < runnable.len() ==> {
                let node = before.nodes.nodes@[(#[trigger] runnable[k]) as int].node;
                exists|run: Run| #[trigger]
                    node.callback.inner.runs(
                        node.callback.inner.memory(),
                        node.ports,
                        before.schedule.time,
                        trace.ran[k],
                        trace.ran[k + 1],
                        run,
                        trace.memories[k],
                    )
            },
{
    assert forall|k: int| 0 <= k < runnable.len() implies ({
        let node = before.nodes.nodes@[(#[trigger] runnable[k]) as int].node;
        exists|run: Run| #[trigger]
            node.callback.inner.runs(
                node.callback.inner.memory(),
                node.ports,
                before.schedule.time,
                trace.ran[k],
                trace.ran[k + 1],
                run,
                trace.memories[k],
            )
    }) by {
        let node = before.nodes.nodes@[runnable[k] as int].node;
        assert(crate::simulation::run_gives(
            node,
            node.callback.inner.memory(),
            before.schedule.time,
            trace.ran[k],
            trace.ran[k + 1],
            trace.durations[k],
            trace.memories[k],
        ));
    }
}

/// The loans of a publisher during the flushes of a step.
proof fn lemma_flushed_by<T>(
    before: SimulationState<T>,
    after: SimulationState<T>,
    trace: StepTrace<T>,
    runnable: Seq<usize>,
    p: int,
    n: int,
)
    requires
        before.steps_to(after, trace, runnable),
        0 <= p < trace.flushed[0].publishers@.len(),
        0 <= n <= runnable.len(),
    ensures
        trace.flushed[n].publishers@.len() == trace.flushed[0].publishers@.len(),
        (exists|k: int|
            0 <= k < n && before.nodes.nodes@[(#[trigger] runnable[k]) as int].node.ports.owns_publisher(
                p,
            )) ==> trace.flushed[n].publishers@[p].loaned_values@.len() == 0,
    decreases n,
{
    if n > 0 {
        lemma_flushed_by(before, after, trace, runnable, p, n - 1);
        let node = before.nodes.nodes@[runnable[n - 1] as int].node;
        assert(crate::simulation::flush_gives(
            node,
            before.schedule.time,
            trace.flushed[n - 1],
            trace.flushed[n],
        ));
        let announced = choose|announced: Seq<crate::scheduling::CallbackNodeId>| #[trigger]
            node.ports.flushes(
                trace.flushed[n - 1],
                trace.flushed[n],
                before.schedule.time,
                announced,
            );
        assert(crate::pub_sub::same_port(
            trace.flushed[n].publishers@[p],
            trace.flushed[n - 1].publishers@[p],
        ));
        if !node.ports.owns_publisher(p) {
            assert forall|k: int|
                0 <= k < n && before.nodes.nodes@[(#[trigger] runnable[k]) as int].node.ports.owns_publisher(
                    p,
                ) implies k < n - 1 by {}
        }
    }
}

/// After a step every output of a node that ran is flushed: nothing that was
/// loaned is left unpublished.
pub proof fn law_running_node_publishes_what_it_sent<T>(
    before: SimulationState<T>,
    after: SimulationState<T>,
    trace: StepTrace<T>,
    runnable: Seq<usize>,
    k: int,
    p: int,
)
    requires
        before.wf(),
        before.steps_to(after, trace, runnable),
        0 <= k < runnable.len(),
        before.nodes.nodes@[runnable[k] as int].node.ports.first_publisher <= p
            < before.nodes.nodes@[runnable[k] as int].node.ports.first_publisher
            + before.nodes.nodes@[runnable[k] as int].node.ports.publisher_count,
        p < after.system.publishers@.len(),
    ensures
        after.system.publishers@[p].loaned_values@.len() == 0,
{
    let n = runnable.len() as int;
    assert(before.nodes.nodes@[runnable[k] as int].node.ports.owns_publisher(p));
    if 0 < trace.flushed[0].publishers@.len() {
        lemma_flushed_by(before, after, trace, runnable, 0, n);
    }
    lemma_flushed_len(before, after, trace, runnable, n);
    lemma_flushed_by(before, after, trace, runnable, p, n);
}

proof fn lemma_flushed_len<T>(
    before: SimulationState<T>,
    after: SimulationState<T>,
    trace: StepTrace<T>,
    runnable: Seq<usize>,
    n: int,
)
    requires
        before.steps_to(after, trace, runnable),
        0 <= n <= runnable.len(),
    ensures
        trace.flushed[n].publishers@.len() == trace.flushed[0].publishers@.len(),
    decreases n,
{
    if n > 0 {
        lemma_flushed_len(before, after, trace, runnable, n - 1);
        let node = before.nodes.nodes@[runnable[n - 1] as int].node;
        assert(crate::simulation::flush_gives(
            node,
            before.schedule.time,
            trace.flushed[n - 1],
            trace.flushed[n],
        ));
    }
}

/// A periodic node that ran is next wanted when it asked for, from the time at
/// which it is no longer busy; one that asks for no time, or did not run, is
/// wanted when it was.
pub proof fn law_periodic_node_is_asked_again<T>(
    before: SimulationState<T>,
    after: SimulationState<T>,
    trace: StepTrace<T>,
    runnable: Seq<usize>,
    q: int,
)
    requires
        before.wf(),
        before.steps_to(after, trace, runnable),
        0 <= q < before.schedule.periodic_nodes@.len(),
    ensures
        ({
            let was = before.schedule.periodic_nodes@[q];
            let is = after.schedule.periodic_nodes@[q];
            let i = was.index as int;
            let node = before.nodes.nodes@[i].node;
            &&& is.index == was.index
            &&& !runnable.contains(was.index) ==> is == was
            &&& runnable.contains(was.index) ==> exists|asked: Option<FrameworkTime>| #[trigger]
                node.asks(
                    after.nodes.nodes@[i].node.callback.inner.memory(),
                    after.schedule.node_busy_until@[i],
                    asked,
                ) && is.requested_exec_time == (match asked {
                    Some(time) => time,
                    None => was.requested_exec_time,
                })
        }),
{
    let was = before.schedule.periodic_nodes@[q];
    if runnable.contains(was.index) {
        let k = choose|k: int| 0 <= k < runnable.len() && runnable[k] == was.index;
        crate::schedule::law_started_node_is_busy_for_its_duration(
            trace.allocated.node_busy_until@,
            runnable,
            trace.durations,
            before.schedule.time,
            runnable.len() as int,
            k,
        );
        assert(before.nodes.nodes@[runnable[k] as int].node.asks(
            trace.memories[k],
            crate::time::saturated_time_after(before.schedule.time, trace.durations[k]),
            trace.next_times[q],
        ));
    }
}

/// Starting asks every node when it wants to run. A node that answers with a
/// time is noted, to run at once; a node that answers with none is not.
pub proof fn law_start_asks_every_node<T>(
    before: SimulationState<T>,
    after: SimulationState<T>,
    i: int,
)
    requires
        before.starts_to(after),
        0 <= i < before.nodes.nodes@.len() <= usize::MAX,
        before.schedule.periodic_nodes@.len() == 0,
    ensures
        ({
            let node = before.nodes.nodes@[i].node;
            let memory = node.callback.inner.memory();
            let noted = exists|k: int|
                0 <= k < after.schedule.periodic_nodes@.len() && (#[trigger]
                after.schedule.periodic_nodes@[k]).index == i
                    && after.schedule.periodic_nodes@[k].requested_exec_time
                    == before.schedule.time;
            &&& (forall|next: Option<FrameworkTime>| #[trigger]
                node.asks(memory, before.schedule.time, next) ==> next is Some) ==> noted
            &&& (forall|next: Option<FrameworkTime>| #[trigger]
                node.asks(memory, before.schedule.time, next) ==> next is None) ==> !noted
        }),
        after.schedule.time == before.schedule.time,
        after.system == before.system,
        after.nodes == before.nodes,
{
    let asked = choose|asked: Seq<Option<FrameworkTime>>| #[trigger]
        before.may_ask(asked) && after.schedule.periodic_nodes@ == before.schedule.periodic_nodes@
            + crate::schedule::periodic_nodes_of(
            asked.map_values(|time: Option<FrameworkTime>| time is Some),
            before.schedule.time,
            asked.len() as int,
        );
    let flags = asked.map_values(|time: Option<FrameworkTime>| time is Some);
    let noted = crate::schedule::periodic_nodes_of(
        flags,
        before.schedule.time,
        asked.len() as int,
    );
    assert(after.schedule.periodic_nodes@ =~= noted);
    crate::schedule_laws::law_start_notes_the_asking_nodes(
        flags,
        before.schedule.time,
        asked.len() as int,
        i,
    );
    assert(flags[i] == (asked[i] is Some));
}

/// A run ends as soon as any of its nodes, whichever it is, says so.
pub proof fn law_any_node_can_end_the_run<T>(state: SimulationState<T>)
    ensures
        state.ends() <==> exists|i: int|
            0 <= i < state.nodes.nodes@.len() && (#[trigger]
            state.nodes.nodes@[i]).node.callback.inner.ends(
                state.nodes.nodes@[i].node.callback.inner.memory(),
            ),
{
}

/// Cleaning up empties every input of every node, and nothing else changes.
pub proof fn law_cleaning_up_empties_every_input<T>(
    before: SimulationState<T>,
    after: SimulationState<T>,
    i: int,
    s: int,
)
    requires
        before.cleans_up_to(after),
        0 <= i < before.nodes.nodes@.len(),
        before.nodes.nodes@[i].node.ports.first_subscriber <= s
            < before.nodes.nodes@[i].node.ports.first_subscriber
            + before.nodes.nodes@[i].node.ports.subscriber_count,
        s < before.system.subscribers@.len(),
    ensures
        after.system.subscribers@[s].buffers.pending().len() == 0,
        after.system.subscribers@[s].buffers.readable().len() == 0,
        after.schedule == before.schedule,
        after.nodes == before.nodes,
        after.system.readiness == before.system.readiness,
{
    assert(before.nodes.nodes@[i].node.ports.owns_subscriber(s));
    assert(after.system.subscribers@[s].held().len() == 0);
}

/// A node that ran remembers what its run left, and a node that did not run is
/// as it was.
pub proof fn law_runs_leave_their_memory<T>(
    before: SimulationState<T>,
    after: SimulationState<T>,
    trace: StepTrace<T>,
    runnable: Seq<usize>,
    i: int,
)
    requires
        before.steps_to(after, trace, runnable),
        0 <= i < before.nodes.nodes@.len() <= usize::MAX,
    ensures
        forall|k: int|
            0 <= k < runnable.len() && #[trigger] runnable[k] == i ==> {
                let node = before.nodes.nodes@[i].node;
                &&& exists|r: Run| #[trigger]
                    node.callback.inner.runs(
                        node.callback.inner.memory(),
                        node.ports,
                        before.schedule.time,
                        trace.ran[k],
                        trace.ran[k + 1],
                        r,
                        after.nodes.nodes@[i].node.callback.inner.memory(),
                    )
                &&& node.execution_duration_callback is Some
                &&& node.execution_duration_callback->0.inner.allows(trace.durations[k])
            },
        (forall|k: int| 0 <= k < runnable.len() ==> #[trigger] runnable[k] != i)
            ==> after.nodes.nodes@[i] == before.nodes.nodes@[i],
        after.nodes.nodes@.len() == before.nodes.nodes@.len(),
        after.nodes.nodes@[i].node.ports == before.nodes.nodes@[i].node.ports,
        after.nodes.nodes@[i].node.name == before.nodes.nodes@[i].node.name,
{
    assert forall|k: int| 0 <= k < runnable.len() && #[trigger] runnable[k] == i implies ({
        let node = before.nodes.nodes@[i].node;
        &&& exists|r: Run| #[trigger]
            node.callback.inner.runs(
                node.callback.inner.memory(),
                node.ports,
                before.schedule.time,
                trace.ran[k],
                trace.ran[k + 1],
                r,
                after.nodes.nodes@[i].node.callback.inner.memory(),
            )
        &&& node.execution_duration_callback is Some
        &&& node.execution_duration_callback->0.inner.allows(trace.durations[k])
    }) by {
        let node = before.nodes.nodes@[runnable[k] as int].node;
        assert(crate::simulation::run_gives(
            node,
            node.callback.inner.memory(),
            before.schedule.time,
            trace.ran[k],
            trace.ran[k + 1],
            trace.durations[k],
            trace.memories[k],
        ));
        assert(after.nodes.nodes@[runnable[k] as int].node.callback.inner.memory()
            == trace.memories[k]);
    }
    if forall|k: int| 0 <= k < runnable.len() ==> #[trigger] runnable[k] != i {
        assert(!runnable.contains(i as usize));
    }
    assert(after.nodes.nodes@[i].node.ports == before.nodes.nodes@[i].node.ports);
}

/// The inputs of a node allow a run exactly if each of them, unless it is
/// optional, has a message that can be read.
pub proof fn law_required_inputs_are_read<T>(ports: NodePorts, system: PubSub<T>)
    ensures
        ports.all_can_run(system) <==> forall|s: int|
            ports.first_subscriber <= s < ports.first_subscriber + ports.subscriber_count && !(
            #[trigger] system.subscribers@[s]).config.is_optional
                ==> system.subscribers@[s].buffers.readable().len() > 0,
{
    if ports.all_can_run(system) {
        assert forall|s: int|
            ports.first_subscriber <= s < ports.first_subscriber + ports.subscriber_count && !(
            #[trigger] system.subscribers@[s]).config.is_optional implies system.subscribers@[s].buffers.readable().len()
            > 0 by {
            assert(ports.owns_subscriber(s));
            assert(system.subscribers@[s].can_run());
        }
    }
}

/// An executor without threads for its nodes fails exactly when a node would have
/// to run.
pub proof fn law_nodes_need_an_executor<T>(
    executor: SimulationExecutor<T>,
    after: Schedule,
    runnable: Seq<usize>,
)
    requires
        crate::schedule::allocates(
            executor.state.schedule,
            after,
            executor.state.ready(),
            runnable,
        ),
    ensures
        executor.stalls() <==> executor.state.node_executor_thread_count == 0 && runnable.len() > 0,
{
}

/// A step that fails runs no node, publishes nothing and does not advance the
/// time.
pub proof fn law_failed_step_runs_nothing<T>(before: SimulationState<T>, after: SimulationState<T>)
    requires
        before.stalls_at(after),
        before.schedule.wf(),
    ensures
        after.nodes == before.nodes,
        after.schedule.time == before.schedule.time,
        after.schedule.step_count == before.schedule.step_count,
        after.schedule.periodic_nodes == before.schedule.periodic_nodes,
        after.schedule.node_busy_until == before.schedule.node_busy_until,
{
}

} // verus!
