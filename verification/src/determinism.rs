//! A simulation is deterministic if its callbacks are.
use vstd::prelude::*;

use crate::callback::{CallbackNode, Memory};
use crate::callback_storage::SharedCallbackNode;
use crate::generic_subscriber::GenericSubscriber;
use crate::pub_sub::PubSub;
use crate::simulation::{SimulationConfig, SimulationState, StepTrace};
use crate::time::{Duration, FrameworkTime};

verus! {

/// Whether no arena has run out: every publisher has a slot for each loan that
/// it may still make.
pub open spec fn none_ran_out<T>(system: PubSub<T>) -> bool {
    forall|p: int|
        0 <= p < system.publishers@.len() ==> #[trigger] crate::pub_sub_laws::ample(system, p)
}

/// Whether `a` and `b`, from which the node runs to `a2` and `b2`, are alike
/// systems in which no arena has run out.
pub open spec fn comparable<T, V>(
    node: CallbackNode<T>,
    a: PubSub<T>,
    a2: PubSub<T>,
    b: PubSub<T>,
    b2: PubSub<T>,
    see: spec_fn(T) -> V,
) -> bool {
    &&& a.wf() && a2.wf() && b.wf() && b2.wf()
    &&& crate::alike::alike(a, b, see)
    &&& none_ran_out(a)
    &&& none_ran_out(b)
    &&& node.ports.within(a)
}

/// Whether runs of the node on alike systems, when its callback remembers the
/// same, leave alike systems, last equally long and leave the same remembered,
/// as long as no arena has run out.
pub open spec fn runs_alike<T, V>(node: CallbackNode<T>, see: spec_fn(T) -> V) -> bool {
    forall|
        now: FrameworkTime,
        memory: Memory,
        a: PubSub<T>,
        a2: PubSub<T>,
        x: Duration,
        m: Memory,
        b: PubSub<T>,
        b2: PubSub<T>,
        y: Duration,
        n: Memory,
    |
        comparable(node, a, a2, b, b2, see)
            && #[trigger] crate::simulation::run_gives(node, memory, now, a, a2, x, m)
            && #[trigger] crate::simulation::run_gives(node, memory, now, b, b2, y, n) ==> x == y
            && m == n && crate::alike::alike(a2, b2, see)
}

/// Whether the node asks for one next time only.
pub open spec fn asks_alike<T>(node: CallbackNode<T>) -> bool {
    forall|
        memory: Memory,
        now: FrameworkTime,
        x: Option<FrameworkTime>,
        y: Option<FrameworkTime>,
    |
        #[trigger] node.asks(memory, now, x) && #[trigger] node.asks(memory, now, y) ==> x == y
}

/// Whether every callback of the simulation is deterministic.
pub open spec fn all_deterministic<T, V>(
    state: SimulationState<T>,
    see: spec_fn(T) -> V,
) -> bool {
    forall|i: int|
        0 <= i < state.nodes.nodes@.len() ==> asks_alike(
            (#[trigger] state.nodes.nodes@[i]).node,
        ) && runs_alike(state.nodes.nodes@[i].node, see)
}

/// Whether two nodes have the same ports, remember the same, and do, ask and
/// last alike.
pub open spec fn nodes_alike<T>(a: SharedCallbackNode<T>, b: SharedCallbackNode<T>) -> bool {
    &&& a.node.ports == b.node.ports
    &&& a.node.callback.inner.memory() == b.node.callback.inner.memory()
    &&& crate::callback::behaves_alike(a.node.callback, b.node.callback)
    &&& forall|memory: Memory, now: FrameworkTime, next: Option<FrameworkTime>|
        #![trigger a.node.asks(memory, now, next)]
        #![trigger b.node.asks(memory, now, next)]
        a.node.asks(memory, now, next) == b.node.asks(memory, now, next)
    &&& a.node.execution_duration_callback is Some == b.node.execution_duration_callback is Some
    &&& forall|duration: Duration|
        #![trigger a.node.execution_duration_callback->0.inner.allows(duration)]
        #![trigger b.node.execution_duration_callback->0.inner.allows(duration)]
        a.node.execution_duration_callback->0.inner.allows(duration)
            == b.node.execution_duration_callback->0.inner.allows(duration)
}

/// Whether two lists of nodes are alike, one by one.
pub open spec fn all_nodes_alike<T>(
    a: Seq<SharedCallbackNode<T>>,
    b: Seq<SharedCallbackNode<T>>,
) -> bool {
    &&& a.len() == b.len()
    &&& forall|i: int| 0 <= i < a.len() ==> nodes_alike(#[trigger] a[i], b[i])
}

/// Whether two simulations have alike nodes, schedules and systems. How many
/// threads execute nodes does not matter.
pub open spec fn simulations_alike<T, V>(
    a: SimulationState<T>,
    b: SimulationState<T>,
    see: spec_fn(T) -> V,
) -> bool {
    &&& all_nodes_alike(a.nodes.nodes@, b.nodes.nodes@)
    &&& crate::schedule::schedules_alike(a.schedule, b.schedule)
    &&& a.event_asks@ == b.event_asks@
    &&& crate::alike::alike(a.system, b.system, see)
}

/// Data makes the same nodes of alike simulations ready.
proof fn lemma_ready_alike<T, V>(a: SimulationState<T>, b: SimulationState<T>, see: spec_fn(T) -> V)
    requires
        a.sound(),
        simulations_alike(a, b, see),
    ensures
        a.ready() == b.ready(),
{
    assert forall|i: int| 0 <= i < a.nodes.nodes@.len() implies #[trigger] a.ready()[i]
        == b.ready()[i] by {
        let ports = a.nodes.nodes@[i].node.ports;
        assert(nodes_alike(a.nodes.nodes@[i], b.nodes.nodes@[i]));
        assert(crate::simulation::can_simulate(a.nodes.nodes@[i], a.system));
        assert forall|s: int| ports.owns_subscriber(s) implies crate::alike::subscribers_alike(
            a.system,
            #[trigger] a.system.subscribers@[s],
            b.system,
            b.system.subscribers@[s],
            see,
        ) by {}
        if ports.any_asks(a.system) {
            let s = choose|s: int|
                ports.owns_subscriber(s) && (#[trigger] a.system.subscribers@[s]).asks_to_run();
            assert(b.system.subscribers@[s].asks_to_run());
        }
        if ports.any_asks(b.system) {
            let s = choose|s: int|
                ports.owns_subscriber(s) && (#[trigger] b.system.subscribers@[s]).asks_to_run();
            assert(a.system.subscribers@[s].asks_to_run());
        }
        assert forall|s: int| ports.owns_subscriber(s) implies (
        a.system.subscribers@[s].config.is_optional == (#[trigger]
        b.system.subscribers@[s]).config.is_optional) && a.system.subscribers@[s].held().len()
            == b.system.subscribers@[s].held().len() by {
            assert(crate::alike::subscribers_alike(
                a.system,
                a.system.subscribers@[s],
                b.system,
                b.system.subscribers@[s],
                see,
            ));
        }
        if ports.required_ready(a.system) {
            assert(ports.required_ready(b.system));
        }
        if ports.required_ready(b.system) {
            assert forall|s: int| ports.owns_subscriber(s) implies (#[trigger]
            a.system.subscribers@[s]).config.is_optional
                || a.system.subscribers@[s].held().len() > 0 by {
                assert(b.system.subscribers@[s].config.is_optional
                    || b.system.subscribers@[s].held().len() > 0);
            }
        }
    }
    assert(a.ready() =~= b.ready());
}

/// Whether a system has as many ports as another.
spec fn as_many<T>(a: PubSub<T>, b: PubSub<T>) -> bool {
    &&& a.subscribers@.len() == b.subscribers@.len()
    &&& a.publishers@.len() == b.publishers@.len()
    &&& a.readiness@.len() == b.readiness@.len()
}

/// The systems are alike after each drain.
proof fn lemma_drained_alike<T, V>(
    a: SimulationState<T>,
    ta: StepTrace<T>,
    b: SimulationState<T>,
    tb: StepTrace<T>,
    runnable: Seq<usize>,
    k: int,
    see: spec_fn(T) -> V,
)
    requires
        a.sound(),
        simulations_alike(a, b, see),
        a.allocated_and_drained(ta, runnable),
        b.allocated_and_drained(tb, runnable),
        0 <= k <= runnable.len(),
    ensures
        crate::alike::alike(ta.drained[k], tb.drained[k], see),
        as_many(ta.drained[k], a.system),
    decreases k,
{
    if k > 0 {
        lemma_drained_alike(a, ta, b, tb, runnable, k - 1, see);
        let index = runnable[k - 1] as int;
        let ports = a.nodes.nodes@[index].node.ports;
        assert(ta.allocated.node_to_pool@.len() == a.nodes.nodes@.len());
        assert(nodes_alike(a.nodes.nodes@[index], b.nodes.nodes@[index]));
        assert(crate::simulation::can_simulate(a.nodes.nodes@[index], a.system));
        assert(ports.drains(ta.drained[k - 1], ta.drained[k]));
        assert(ports.drains(tb.drained[k - 1], tb.drained[k]));
        assert(ta.drained[k].wf());
        assert(tb.drained[k].wf());
        crate::alike::lemma_drains_alike(
            ports,
            ta.drained[k - 1],
            ta.drained[k],
            tb.drained[k - 1],
            tb.drained[k],
            see,
        );
    }
}

/// Alike nodes have the same runs.
proof fn lemma_run_gives_alike<T>(
    a: SharedCallbackNode<T>,
    b: SharedCallbackNode<T>,
    memory: Memory,
    now: FrameworkTime,
    before: PubSub<T>,
    after: PubSub<T>,
    duration: Duration,
    next: Memory,
)
    requires
        nodes_alike(a, b),
    ensures
        crate::simulation::run_gives(a.node, memory, now, before, after, duration, next)
            == crate::simulation::run_gives(b.node, memory, now, before, after, duration, next),
{
    let ports = a.node.ports;
    if crate::simulation::run_gives(a.node, memory, now, before, after, duration, next) {
        let r = choose|r: crate::callback::Run| #[trigger]
            a.node.callback.inner.runs(memory, ports, now, before, after, r, next);
        assert(b.node.callback.inner.runs(memory, ports, now, before, after, r, next));
    }
    if crate::simulation::run_gives(b.node, memory, now, before, after, duration, next) {
        let r = choose|r: crate::callback::Run| #[trigger]
            b.node.callback.inner.runs(memory, ports, now, before, after, r, next);
        assert(a.node.callback.inner.runs(memory, ports, now, before, after, r, next));
    }
}

/// The systems are alike after each run, the runs last equally long, and the
/// same is remembered after them.
proof fn lemma_ran_alike<T, V>(
    a: SimulationState<T>,
    ta: StepTrace<T>,
    b: SimulationState<T>,
    tb: StepTrace<T>,
    runnable: Seq<usize>,
    k: int,
    see: spec_fn(T) -> V,
)
    requires
        a.sound(),
        all_deterministic(a, see),
        simulations_alike(a, b, see),
        ta.allocated.running(runnable),
        ta.allocated.node_to_pool == a.schedule.node_to_pool,
        a.ran_in_turn(a.schedule.time, runnable, ta.ran, ta.durations, ta.memories),
        b.ran_in_turn(b.schedule.time, runnable, tb.ran, tb.durations, tb.memories),
        crate::alike::alike(ta.ran[0], tb.ran[0], see),
        as_many(ta.ran[0], a.system),
        forall|j: int| 0 <= j < ta.ran.len() ==> none_ran_out(#[trigger] ta.ran[j]),
        forall|j: int| 0 <= j < tb.ran.len() ==> none_ran_out(#[trigger] tb.ran[j]),
        0 <= k <= runnable.len(),
    ensures
        crate::alike::alike(ta.ran[k], tb.ran[k], see),
        as_many(ta.ran[k], a.system),
        forall|j: int| 0 <= j < k ==> #[trigger] ta.durations[j] == tb.durations[j],
        forall|j: int| 0 <= j < k ==> #[trigger] ta.memories[j] == tb.memories[j],
    decreases k,
{
    if k > 0 {
        lemma_ran_alike(a, ta, b, tb, runnable, k - 1, see);
        let index = runnable[k - 1] as int;
        let x = a.nodes.nodes@[index];
        let y = b.nodes.nodes@[index];
        let memory = x.node.callback.inner.memory();
        let now = a.schedule.time;
        assert(nodes_alike(x, y));
        assert(crate::simulation::can_simulate(x, a.system));
        assert(runs_alike(x.node, see));
        lemma_run_gives_alike(
            x,
            y,
            memory,
            now,
            tb.ran[k - 1],
            tb.ran[k],
            tb.durations[k - 1],
            tb.memories[k - 1],
        );
        assert(ta.ran[k - 1].wf() && ta.ran[k].wf());
        assert(tb.ran[k - 1].wf() && tb.ran[k].wf());
        assert(comparable(x.node, ta.ran[k - 1], ta.ran[k], tb.ran[k - 1], tb.ran[k], see));
        assert(crate::simulation::run_gives(
            x.node,
            memory,
            now,
            ta.ran[k - 1],
            ta.ran[k],
            ta.durations[k - 1],
            ta.memories[k - 1],
        ));
        assert(crate::simulation::run_gives(
            x.node,
            memory,
            now,
            tb.ran[k - 1],
            tb.ran[k],
            tb.durations[k - 1],
            tb.memories[k - 1],
        ));
        assert(x.node.ports.ran_within(ta.ran[k - 1], ta.ran[k]));
    }
}

/// The systems are alike after each flush.
proof fn lemma_flushed_alike<T, V>(
    a: SimulationState<T>,
    ta: StepTrace<T>,
    b: SimulationState<T>,
    tb: StepTrace<T>,
    runnable: Seq<usize>,
    k: int,
    see: spec_fn(T) -> V,
)
    requires
        a.sound(),
        simulations_alike(a, b, see),
        ta.allocated.running(runnable),
        ta.allocated.node_to_pool == a.schedule.node_to_pool,
        a.flushed_in_turn(a.schedule.time, runnable, ta.flushed),
        b.flushed_in_turn(b.schedule.time, runnable, tb.flushed),
        crate::alike::alike(ta.flushed[0], tb.flushed[0], see),
        as_many(ta.flushed[0], a.system),
        0 <= k <= runnable.len(),
    ensures
        crate::alike::alike(ta.flushed[k], tb.flushed[k], see),
        as_many(ta.flushed[k], a.system),
    decreases k,
{
    if k > 0 {
        lemma_flushed_alike(a, ta, b, tb, runnable, k - 1, see);
        let index = runnable[k - 1] as int;
        let node = a.nodes.nodes@[index].node;
        let now = a.schedule.time;
        assert(nodes_alike(a.nodes.nodes@[index], b.nodes.nodes@[index]));
        assert(crate::simulation::can_simulate(a.nodes.nodes@[index], a.system));
        assert(crate::simulation::flush_gives(node, now, ta.flushed[k - 1], ta.flushed[k]));
        assert(crate::simulation::flush_gives(node, now, tb.flushed[k - 1], tb.flushed[k]));
        let x = choose|x: Seq<crate::scheduling::CallbackNodeId>| #[trigger]
            node.ports.flushes(ta.flushed[k - 1], ta.flushed[k], now, x);
        let y = choose|y: Seq<crate::scheduling::CallbackNodeId>| #[trigger]
            node.ports.flushes(tb.flushed[k - 1], tb.flushed[k], now, y);
        assert(ta.flushed[k - 1].wf() && ta.flushed[k].wf());
        assert(tb.flushed[k - 1].wf() && tb.flushed[k].wf());
        crate::alike::lemma_flushes_alike(
            node.ports,
            ta.flushed[k - 1],
            ta.flushed[k],
            x,
            tb.flushed[k - 1],
            tb.flushed[k],
            y,
            now,
            see,
        );
    }
}

/// A callback that behaves as before leaves its node deterministic.
proof fn lemma_still_deterministic<T, V>(
    before: SharedCallbackNode<T>,
    after: SharedCallbackNode<T>,
    see: spec_fn(T) -> V,
)
    requires
        runs_alike(before.node, see),
        after == (SharedCallbackNode {
            node: CallbackNode { callback: after.node.callback, ..before.node },
            ..before
        }),
        crate::callback::behaves_alike(after.node.callback, before.node.callback),
    ensures
        runs_alike(after.node, see),
{
    let ports = before.node.ports;
    assert forall|
        now: FrameworkTime,
        memory: Memory,
        a: PubSub<T>,
        a2: PubSub<T>,
        x: Duration,
        m: Memory,
        b: PubSub<T>,
        b2: PubSub<T>,
        y: Duration,
        n: Memory,
    |
        comparable(after.node, a, a2, b, b2, see)
            && #[trigger] crate::simulation::run_gives(after.node, memory, now, a, a2, x, m)
            && #[trigger] crate::simulation::run_gives(after.node, memory, now, b, b2, y, n)
        implies x == y && m == n && crate::alike::alike(a2, b2, see) by {
        let r = choose|r: crate::callback::Run| #[trigger]
            after.node.callback.inner.runs(memory, ports, now, a, a2, r, m);
        assert(before.node.callback.inner.runs(memory, ports, now, a, a2, r, m));
        let q = choose|r: crate::callback::Run| #[trigger]
            after.node.callback.inner.runs(memory, ports, now, b, b2, r, n);
        assert(before.node.callback.inner.runs(memory, ports, now, b, b2, q, n));
        assert(crate::simulation::run_gives(before.node, memory, now, a, a2, x, m));
        assert(crate::simulation::run_gives(before.node, memory, now, b, b2, y, n));
        assert(comparable(before.node, a, a2, b, b2, see));
    }
}

/// Callbacks stay deterministic through a step.
proof fn lemma_all_still_deterministic<T, V>(
    before: SimulationState<T>,
    after: SimulationState<T>,
    trace: StepTrace<T>,
    runnable: Seq<usize>,
    see: spec_fn(T) -> V,
)
    requires
        before.wf(),
        all_deterministic(before, see),
        before.steps_to(after, trace, runnable),
    ensures
        all_deterministic(after, see),
{
    assert forall|i: int| 0 <= i < after.nodes.nodes@.len() implies asks_alike(
        (#[trigger] after.nodes.nodes@[i]).node,
    ) && runs_alike(after.nodes.nodes@[i].node, see) by {
        assert(asks_alike(before.nodes.nodes@[i].node));
        if runnable.contains(i as usize) {
            assert(before.nodes.nodes.len() == before.nodes.nodes@.len());
            let k = choose|k: int| 0 <= k < runnable.len() && runnable[k] == i as usize;
            assert(crate::callback::behaves_alike(
                after.nodes.nodes@[runnable[k] as int].node.callback,
                before.nodes.nodes@[runnable[k] as int].node.callback,
            ));
            lemma_still_deterministic(before.nodes.nodes@[i], after.nodes.nodes@[i], see);
            crate::callback::lemma_asks_same(
                after.nodes.nodes@[i].node,
                before.nodes.nodes@[i].node,
            );
        } else {
            assert(after.nodes.nodes@[i] == before.nodes.nodes@[i]);
        }
    }
}

/// The nodes are alike after a step in which the same was remembered.
proof fn lemma_nodes_still_alike<T, V>(
    a: SimulationState<T>,
    a2: SimulationState<T>,
    ta: StepTrace<T>,
    b: SimulationState<T>,
    b2: SimulationState<T>,
    tb: StepTrace<T>,
    runnable: Seq<usize>,
    see: spec_fn(T) -> V,
)
    requires
        a.wf(),
        simulations_alike(a, b, see),
        a.steps_to(a2, ta, runnable),
        b.steps_to(b2, tb, runnable),
        ta.memories == tb.memories,
    ensures
        all_nodes_alike(a2.nodes.nodes@, b2.nodes.nodes@),
{
    assert forall|i: int| 0 <= i < a2.nodes.nodes@.len() implies nodes_alike(
        #[trigger] a2.nodes.nodes@[i],
        b2.nodes.nodes@[i],
    ) by {
        let x = a.nodes.nodes@[i];
        let y = b.nodes.nodes@[i];
        let x2 = a2.nodes.nodes@[i];
        let y2 = b2.nodes.nodes@[i];
        assert(nodes_alike(x, y));
        assert(a.nodes.nodes.len() == a.nodes.nodes@.len());
        if runnable.contains(i as usize) {
            let k = choose|k: int| 0 <= k < runnable.len() && runnable[k] == i as usize;
            assert(crate::callback::behaves_alike(
                a2.nodes.nodes@[runnable[k] as int].node.callback,
                a.nodes.nodes@[runnable[k] as int].node.callback,
            ));
            assert(crate::callback::behaves_alike(
                b2.nodes.nodes@[runnable[k] as int].node.callback,
                b.nodes.nodes@[runnable[k] as int].node.callback,
            ));
            assert(b2.nodes.nodes@[i] == y2);
            lemma_behaves_alike_through(x2.node, x.node, y.node, y2.node);
            crate::callback::lemma_asks_same(x2.node, x.node);
            crate::callback::lemma_asks_same(y2.node, y.node);
            lemma_asks_through(x2.node, x.node, y.node, y2.node);
        } else {
            assert(x2 == x);
            assert(b2.nodes.nodes@[i] == y);
        }
    }
}

proof fn lemma_asks_through<T>(
    a: CallbackNode<T>,
    b: CallbackNode<T>,
    c: CallbackNode<T>,
    d: CallbackNode<T>,
)
    requires
        forall|memory: Memory, now: FrameworkTime, next: Option<FrameworkTime>| #[trigger]
            a.asks(memory, now, next) == b.asks(memory, now, next),
        forall|memory: Memory, now: FrameworkTime, next: Option<FrameworkTime>| #[trigger]
            b.asks(memory, now, next) == c.asks(memory, now, next),
        forall|memory: Memory, now: FrameworkTime, next: Option<FrameworkTime>| #[trigger]
            d.asks(memory, now, next) == c.asks(memory, now, next),
    ensures
        forall|memory: Memory, now: FrameworkTime, next: Option<FrameworkTime>|
            #![trigger a.asks(memory, now, next)]
            #![trigger d.asks(memory, now, next)]
            a.asks(memory, now, next) == d.asks(memory, now, next),
{
}

proof fn lemma_behaves_alike_through<T>(
    a: CallbackNode<T>,
    b: CallbackNode<T>,
    c: CallbackNode<T>,
    d: CallbackNode<T>,
)
    requires
        crate::callback::behaves_alike(a.callback, b.callback),
        crate::callback::behaves_alike(b.callback, c.callback),
        crate::callback::behaves_alike(d.callback, c.callback),
    ensures
        crate::callback::behaves_alike(a.callback, d.callback),
{
    assert forall|memory: Memory|
        #![trigger a.callback.inner.wants(memory)]
        #![trigger d.callback.inner.wants(memory)]
        a.callback.inner.wants(memory) == d.callback.inner.wants(memory) by {
        assert(b.callback.inner.wants(memory) == c.callback.inner.wants(memory));
    }
    assert forall|memory: Memory|
        #![trigger a.callback.inner.ends(memory)]
        #![trigger d.callback.inner.ends(memory)]
        a.callback.inner.ends(memory) == d.callback.inner.ends(memory) by {
        assert(b.callback.inner.ends(memory) == c.callback.inner.ends(memory));
    }
    assert forall|
        memory: Memory,
        ports: crate::callback::NodePorts,
        now: FrameworkTime,
        before: PubSub<T>,
        after: PubSub<T>,
        run: crate::callback::Run,
        next: Memory,
    |
        #![trigger a.callback.inner.runs(memory, ports, now, before, after, run, next)]
        #![trigger d.callback.inner.runs(memory, ports, now, before, after, run, next)]
        a.callback.inner.runs(memory, ports, now, before, after, run, next)
            == d.callback.inner.runs(memory, ports, now, before, after, run, next) by {
        assert(b.callback.inner.runs(memory, ports, now, before, after, run, next)
            == c.callback.inner.runs(memory, ports, now, before, after, run, next));
    }
}

/// A step is deterministic: if all callbacks are, then whenever two alike
/// simulations take a step in which no arena runs out, the same nodes run, and
/// the simulations are alike after it, with deterministic callbacks. (Arenas
/// that were sized for their graph never run out.)
pub proof fn law_simulation_step_is_deterministic<T, V>(
    a: SimulationState<T>,
    a2: SimulationState<T>,
    ta: StepTrace<T>,
    ran_a: Seq<usize>,
    b: SimulationState<T>,
    b2: SimulationState<T>,
    tb: StepTrace<T>,
    ran_b: Seq<usize>,
    see: spec_fn(T) -> V,
)
    requires
        a.wf(),
        b.wf(),
        a2.wf(),
        b2.wf(),
        all_deterministic(a, see),
        simulations_alike(a, b, see),
        a.steps_to(a2, ta, ran_a),
        b.steps_to(b2, tb, ran_b),
        forall|k: int| 0 <= k < ta.ran.len() ==> none_ran_out(#[trigger] ta.ran[k]),
        forall|k: int| 0 <= k < tb.ran.len() ==> none_ran_out(#[trigger] tb.ran[k]),
    ensures
        ran_a == ran_b,
        simulations_alike(a2, b2, see),
        all_deterministic(a2, see),
{
    lemma_ready_alike(a, b, see);
    let n = ran_a.len() as int;
    lemma_drained_alike(a, ta, b, tb, ran_a, n, see);
    lemma_ran_alike(a, ta, b, tb, ran_a, n, see);
    lemma_flushed_alike(a, ta, b, tb, ran_a, n, see);
    assert(ta.durations =~= tb.durations);
    assert(ta.memories =~= tb.memories);
    let periodic = a.schedule.periodic_nodes@;
    assert forall|p: int|
        0 <= p < periodic.len() && ran_a.contains(periodic[p].index) implies #[trigger]
    ta.next_times[p] == tb.next_times[p] by {
        let k = choose|k: int| 0 <= k < ran_a.len() && ran_a[k] == periodic[p].index;
        let x = a.nodes.nodes@[ran_a[k] as int];
        let y = b.nodes.nodes@[ran_a[k] as int];
        assert(asks_alike(x.node));
        assert(nodes_alike(x, y));
        let then = crate::time::saturated_time_after(a.schedule.time, ta.durations[k]);
        assert(x.node.asks(ta.memories[k], then, ta.next_times[p]));
        assert(y.node.asks(tb.memories[k], then, tb.next_times[p]));
    }
    assert(crate::schedule::rescheduled(periodic, ran_a, ta.next_times)
        =~= crate::schedule::rescheduled(periodic, ran_a, tb.next_times));
    crate::schedule::law_step_is_deterministic(
        a.schedule,
        b.schedule,
        a.ready(),
        ta.durations,
        ta.next_times,
        ta.allocated,
        ran_a,
        a2.schedule,
        tb.allocated,
        ran_b,
        b2.schedule,
    );
    lemma_nodes_still_alike(a, a2, ta, b, b2, tb, ran_a, see);
    lemma_all_still_deterministic(a, a2, ta, ran_a, see);
}

/// Whether `told` is `state` once it was told what to expect from outside its
/// graph.
pub open spec fn is_told<T>(state: SimulationState<T>, told: SimulationState<T>) -> bool {
    &&& told.wf()
    &&& told == (SimulationState {
        event_asks: told.event_asks,
        schedule: crate::schedule::Schedule {
            next_input: told.schedule.next_input,
            ..state.schedule
        },
        ..state
    })
}

/// Whether two simulations were told the same.
pub open spec fn told_alike<T>(a: SimulationState<T>, b: SimulationState<T>) -> bool {
    &&& a.event_asks@ == b.event_asks@
    &&& a.schedule.next_input == b.schedule.next_input
}

/// Whether `states` are those of a simulation before its first step and after
/// each, the steps starting from `told`, going as `traces` says and running the
/// nodes of `ran`.
pub open spec fn is_stepped<T>(
    states: Seq<SimulationState<T>>,
    told: Seq<SimulationState<T>>,
    traces: Seq<StepTrace<T>>,
    ran: Seq<Seq<usize>>,
) -> bool {
    &&& states.len() == ran.len() + 1
    &&& told.len() == ran.len()
    &&& traces.len() == ran.len()
    &&& forall|i: int| 0 <= i < states.len() ==> (#[trigger] states[i]).wf()
    &&& forall|i: int| 0 <= i < told.len() ==> is_told(states[i], #[trigger] told[i])
    &&& forall|i: int|
        0 <= i < ran.len() ==> told[i].steps_to(states[i + 1], traces[i], #[trigger] ran[i])
}

/// Whether a simulation was stepped so, and no arena ran out.
pub open spec fn is_run<T>(
    states: Seq<SimulationState<T>>,
    told: Seq<SimulationState<T>>,
    traces: Seq<StepTrace<T>>,
    ran: Seq<Seq<usize>>,
) -> bool {
    &&& is_stepped(states, told, traces, ran)
    &&& forall|i: int, k: int|
        0 <= i < traces.len() && 0 <= k < traces[i].ran.len() ==> none_ran_out(
            #[trigger] traces[i].ran[k],
        )
}

/// Alike simulations that are told the same stay alike, with deterministic
/// callbacks.
pub proof fn law_same_inputs_keep_simulations_alike<T, V>(
    a: SimulationState<T>,
    a2: SimulationState<T>,
    b: SimulationState<T>,
    b2: SimulationState<T>,
    see: spec_fn(T) -> V,
)
    requires
        all_deterministic(a, see),
        simulations_alike(a, b, see),
        is_told(a, a2),
        is_told(b, b2),
        told_alike(a2, b2),
    ensures
        simulations_alike(a2, b2, see),
        all_deterministic(a2, see),
{
}

/// A run is deterministic: if all callbacks are, then from alike simulations
/// that are told the same before each step, in as many steps, the same nodes run
/// in each step, and the simulations are alike after the last. So the times are
/// equal, and the next step runs the same nodes.
pub proof fn law_simulation_run_is_deterministic<T, V>(
    a: Seq<SimulationState<T>>,
    told_a: Seq<SimulationState<T>>,
    ta: Seq<StepTrace<T>>,
    ran_a: Seq<Seq<usize>>,
    b: Seq<SimulationState<T>>,
    told_b: Seq<SimulationState<T>>,
    tb: Seq<StepTrace<T>>,
    ran_b: Seq<Seq<usize>>,
    see: spec_fn(T) -> V,
)
    requires
        is_run(a, told_a, ta, ran_a),
        is_run(b, told_b, tb, ran_b),
        ran_a.len() == ran_b.len(),
        forall|i: int| 0 <= i < told_a.len() ==> told_alike(#[trigger] told_a[i], told_b[i]),
        all_deterministic(a[0], see),
        simulations_alike(a[0], b[0], see),
    ensures
        ran_a == ran_b,
        simulations_alike(a.last(), b.last(), see),
        all_deterministic(a.last(), see),
        a.last().schedule.time == b.last().schedule.time,
        a.last().schedule.grants(a.last().ready()) == b.last().schedule.grants(b.last().ready()),
    decreases ran_a.len(),
{
    if ran_a.len() > 0 {
        let n = ran_a.len() - 1;
        lemma_run_but_last(a, told_a, ta, ran_a);
        lemma_run_but_last(b, told_b, tb, ran_b);
        assert forall|i: int| 0 <= i < told_a.drop_last().len() implies told_alike(
            #[trigger] told_a.drop_last()[i],
            told_b.drop_last()[i],
        ) by {
            assert(told_alike(told_a[i], told_b[i]));
        }
        law_simulation_run_is_deterministic(
            a.drop_last(),
            told_a.drop_last(),
            ta.drop_last(),
            ran_a.drop_last(),
            b.drop_last(),
            told_b.drop_last(),
            tb.drop_last(),
            ran_b.drop_last(),
            see,
        );
        assert(a.drop_last().last() == a[n]);
        assert(b.drop_last().last() == b[n]);
        assert(is_told(a[n], told_a[n]));
        assert(is_told(b[n], told_b[n]));
        law_same_inputs_keep_simulations_alike(a[n], told_a[n], b[n], told_b[n], see);
        assert(told_a[n].steps_to(a[n + 1], ta[n], ran_a[n]));
        assert(told_b[n].steps_to(b[n + 1], tb[n], ran_b[n]));
        assert forall|k: int| 0 <= k < ta[n].ran.len() implies none_ran_out(
            #[trigger] ta[n].ran[k],
        ) by {}
        assert forall|k: int| 0 <= k < tb[n].ran.len() implies none_ran_out(
            #[trigger] tb[n].ran[k],
        ) by {}
        assert(a[n + 1].wf() && b[n + 1].wf());
        law_simulation_step_is_deterministic(
            told_a[n],
            a[n + 1],
            ta[n],
            ran_a[n],
            told_b[n],
            b[n + 1],
            tb[n],
            ran_b[n],
            see,
        );
        assert(ran_a =~= ran_a.drop_last().push(ran_a[n]));
        assert(ran_b =~= ran_b.drop_last().push(ran_b[n]));
    } else {
        assert(ran_a =~= ran_b);
    }
    assert(a.last().wf());
    lemma_ready_alike(a.last(), b.last(), see);
}

/// A run without its last step is a run.
proof fn lemma_run_but_last<T>(
    states: Seq<SimulationState<T>>,
    told: Seq<SimulationState<T>>,
    traces: Seq<StepTrace<T>>,
    ran: Seq<Seq<usize>>,
)
    requires
        is_run(states, told, traces, ran),
        ran.len() > 0,
    ensures
        is_run(states.drop_last(), told.drop_last(), traces.drop_last(), ran.drop_last()),
{
    let s = states.drop_last();
    let u = told.drop_last();
    let t = traces.drop_last();
    let r = ran.drop_last();
    assert forall|i: int| 0 <= i < s.len() implies (#[trigger] s[i]).wf() by {
        assert(s[i] == states[i]);
    }
    assert forall|i: int| 0 <= i < u.len() implies is_told(s[i], #[trigger] u[i]) by {
        assert(is_told(states[i], told[i]));
    }
    assert forall|i: int| 0 <= i < r.len() implies u[i].steps_to(
        s[i + 1],
        t[i],
        #[trigger] r[i],
    ) by {
        assert(r[i] == ran[i]);
    }
    assert forall|i: int, k: int| 0 <= i < t.len() && 0 <= k < t[i].ran.len() implies none_ran_out(
        #[trigger] t[i].ran[k],
    ) by {
        assert(t[i] == traces[i]);
        assert(none_ran_out(traces[i].ran[k]));
    }
}

/// Whether two configurations describe the same simulation: pools of equal
/// sizes with alike nodes, alike systems and the same start time. How many
/// threads execute nodes does not matter.
pub open spec fn configs_alike<T, V>(
    a: SimulationConfig<T>,
    b: SimulationConfig<T>,
    see: spec_fn(T) -> V,
) -> bool {
    &&& a.start_time == b.start_time
    &&& crate::alike::alike(a.system, b.system, see)
    &&& a.executor_params.pools@.len() == b.executor_params.pools@.len()
    &&& forall|k: int|
        0 <= k < a.executor_params.pools@.len() ==> (#[trigger]
        a.executor_params.pools@[k]).thread_count == b.executor_params.pools@[k].thread_count
            && all_nodes_alike(
            a.executor_params.pools@[k].nodes.nodes@,
            b.executor_params.pools@[k].nodes.nodes@,
        )
}

/// Pools with equally many nodes start at the same places.
proof fn lemma_offsets_alike<T>(
    a: Seq<crate::executor::ThreadPoolConfig<T>>,
    b: Seq<crate::executor::ThreadPoolConfig<T>>,
    k: int,
)
    requires
        0 <= k <= a.len(),
        a.len() == b.len(),
        forall|j: int|
            0 <= j < a.len() ==> (#[trigger] a[j]).nodes.nodes@.len() == b[j].nodes.nodes@.len(),
    ensures
        crate::executor::pool_offset(a, k) == crate::executor::pool_offset(b, k),
    decreases k,
{
    if k > 0 {
        lemma_offsets_alike(a, b, k - 1);
        assert(a[k - 1].nodes.nodes@.len() == b[k - 1].nodes.nodes@.len());
    }
}

/// The pool of the node at `at`, and its place there.
proof fn lemma_place_in_pool<T>(
    pools: Seq<crate::executor::ThreadPoolConfig<T>>,
    n: int,
    at: int,
) -> (r: (int, int))
    requires
        0 <= n <= pools.len(),
        0 <= at < crate::executor::pool_offset(pools, n),
    ensures
        0 <= r.0 < n,
        0 <= r.1 < pools[r.0].nodes.nodes@.len(),
        crate::executor::pool_offset(pools, r.0) + r.1 == at,
    decreases n,
{
    if n <= 0 {
        (0, 0)
    } else if at < crate::executor::pool_offset(pools, n - 1) {
        lemma_place_in_pool(pools, n - 1, at)
    } else {
        (n - 1, at - crate::executor::pool_offset(pools, n - 1))
    }
}

/// Alike configurations make alike simulations.
pub proof fn law_alike_configs_make_alike_simulations<T, V>(
    config_a: SimulationConfig<T>,
    a: SimulationState<T>,
    config_b: SimulationConfig<T>,
    b: SimulationState<T>,
    see: spec_fn(T) -> V,
)
    requires
        configs_alike(config_a, config_b, see),
        a.wf(),
        b.wf(),
        crate::simulation::is_new_of(a, config_a),
        crate::simulation::is_new_of(b, config_b),
    ensures
        simulations_alike(a, b, see),
{
    let pa = config_a.executor_params.pools@;
    let pb = config_b.executor_params.pools@;
    assert forall|j: int| 0 <= j < pa.len() implies (#[trigger] pa[j]).nodes.nodes@.len()
        == pb[j].nodes.nodes@.len() by {
        assert(all_nodes_alike(pa[j].nodes.nodes@, pb[j].nodes.nodes@));
    }
    let n = pa.len() as int;
    lemma_offsets_alike(pa, pb, n);
    assert forall|at: int| 0 <= at < a.nodes.nodes@.len() implies nodes_alike(
        #[trigger] a.nodes.nodes@[at],
        b.nodes.nodes@[at],
    ) && a.schedule.node_to_pool@[at] == b.schedule.node_to_pool@[at] by {
        let (k, i) = lemma_place_in_pool(pa, n, at);
        lemma_offsets_alike(pa, pb, k);
        assert(all_nodes_alike(pa[k].nodes.nodes@, pb[k].nodes.nodes@));
        assert(nodes_alike(pa[k].nodes.nodes@[i], pb[k].nodes.nodes@[i]));
    }
    assert forall|at: int| 0 <= at < a.nodes.nodes@.len() implies #[trigger] a.schedule.node_to_pool@[at]
        == b.schedule.node_to_pool@[at] by {
        assert(nodes_alike(a.nodes.nodes@[at], b.nodes.nodes@[at]));
    }
    assert(a.schedule.node_to_pool@ =~= b.schedule.node_to_pool@);
    assert forall|k: int| 0 <= k < n implies #[trigger] a.schedule.virtual_pools@[k]
        == b.schedule.virtual_pools@[k] by {
        assert(pa[k].thread_count == pb[k].thread_count);
        assert(b.schedule.virtual_pools@[k].virtual_thread_count == pb[k].thread_count);
    }
    assert(a.schedule.virtual_pools@ =~= b.schedule.virtual_pools@);
    assert(a.schedule.periodic_nodes@ =~= b.schedule.periodic_nodes@);
    assert(a.schedule.node_busy_until@ =~= b.schedule.node_busy_until@);
    assert(a.schedule.node_thread_occupied@ =~= b.schedule.node_thread_occupied@);
    assert forall|i: int| 0 <= i < a.schedule.node_ready_since@.len() implies #[trigger] a.schedule.node_ready_since@[i]
        == b.schedule.node_ready_since@[i] by {
        assert(b.schedule.node_ready_since@[i] is None);
    }
    assert(a.schedule.node_ready_since@ =~= b.schedule.node_ready_since@);
    assert(a.event_asks@ =~= b.event_asks@);
}

/// Alike simulations are alike after their start, if their callbacks are
/// deterministic, and the callbacks then are.
pub proof fn law_start_is_deterministic<T, V>(
    a: SimulationState<T>,
    a2: SimulationState<T>,
    b: SimulationState<T>,
    b2: SimulationState<T>,
    see: spec_fn(T) -> V,
)
    requires
        all_deterministic(a, see),
        simulations_alike(a, b, see),
        a.starts_to(a2),
        b.starts_to(b2),
    ensures
        simulations_alike(a2, b2, see),
        all_deterministic(a2, see),
{
    let xs = choose|asked: Seq<Option<FrameworkTime>>| #[trigger]
        a.may_ask(asked) && a2.schedule.periodic_nodes@ == a.schedule.periodic_nodes@
            + crate::schedule::periodic_nodes_of(
            asked.map_values(|time: Option<FrameworkTime>| time is Some),
            a.schedule.time,
            asked.len() as int,
        );
    let ys = choose|asked: Seq<Option<FrameworkTime>>| #[trigger]
        b.may_ask(asked) && b2.schedule.periodic_nodes@ == b.schedule.periodic_nodes@
            + crate::schedule::periodic_nodes_of(
            asked.map_values(|time: Option<FrameworkTime>| time is Some),
            b.schedule.time,
            asked.len() as int,
        );
    assert forall|j: int| 0 <= j < xs.len() implies #[trigger] xs[j] == ys[j] by {
        let x = a.nodes.nodes@[j];
        let y = b.nodes.nodes@[j];
        assert(nodes_alike(x, y));
        assert(asks_alike(x.node));
        assert(y.node.asks(y.node.callback.inner.memory(), b.schedule.time, ys[j]));
        assert(x.node.asks(x.node.callback.inner.memory(), a.schedule.time, xs[j]));
    }
    assert(xs =~= ys);
}

/// Simulation is deterministic: from alike configurations whose callbacks are
/// deterministic come simulations that, once started, told the same inputs and
/// stepped equally often without an arena running out, have run the same nodes
/// in each step, stand at the same time, and run the same nodes in the next
/// step, however many threads execute the nodes.
pub proof fn law_simulation_is_deterministic<T, V>(
    config_a: SimulationConfig<T>,
    new_a: SimulationState<T>,
    a: Seq<SimulationState<T>>,
    told_a: Seq<SimulationState<T>>,
    ta: Seq<StepTrace<T>>,
    ran_a: Seq<Seq<usize>>,
    config_b: SimulationConfig<T>,
    new_b: SimulationState<T>,
    b: Seq<SimulationState<T>>,
    told_b: Seq<SimulationState<T>>,
    tb: Seq<StepTrace<T>>,
    ran_b: Seq<Seq<usize>>,
    see: spec_fn(T) -> V,
)
    requires
        configs_alike(config_a, config_b, see),
        new_a.wf(),
        new_b.wf(),
        crate::simulation::is_new_of(new_a, config_a),
        crate::simulation::is_new_of(new_b, config_b),
        all_deterministic(new_a, see),
        is_run(a, told_a, ta, ran_a),
        is_run(b, told_b, tb, ran_b),
        forall|i: int| 0 <= i < told_a.len() ==> told_alike(#[trigger] told_a[i], told_b[i]),
        new_a.starts_to(a[0]),
        new_b.starts_to(b[0]),
        ran_a.len() == ran_b.len(),
    ensures
        ran_a == ran_b,
        simulations_alike(a.last(), b.last(), see),
        a.last().schedule.time == b.last().schedule.time,
        a.last().schedule.grants(a.last().ready()) == b.last().schedule.grants(b.last().ready()),
{
    law_alike_configs_make_alike_simulations(config_a, new_a, config_b, new_b, see);
    law_start_is_deterministic(new_a, a[0], new_b, b[0], see);
    law_simulation_run_is_deterministic(a, told_a, ta, ran_a, b, told_b, tb, ran_b, see);
}

/// A system is alike to itself.
proof fn lemma_alike_itself<T, V>(system: PubSub<T>, see: spec_fn(T) -> V)
    ensures
        crate::alike::alike(system, system, see),
{
}

/// Simulations of one configuration are equal in what they do: once both are
/// started, told the same inputs and stepped equally often without an arena
/// running out, the same nodes have run in each step, in the same order, both
/// stand at the same time, and the next step runs the same nodes. How many
/// threads execute the nodes makes no difference.
pub proof fn law_one_configuration_runs_one_way<T, V>(
    config: SimulationConfig<T>,
    threads: usize,
    new_a: SimulationState<T>,
    a: Seq<SimulationState<T>>,
    told_a: Seq<SimulationState<T>>,
    ta: Seq<StepTrace<T>>,
    ran_a: Seq<Seq<usize>>,
    new_b: SimulationState<T>,
    b: Seq<SimulationState<T>>,
    told_b: Seq<SimulationState<T>>,
    tb: Seq<StepTrace<T>>,
    ran_b: Seq<Seq<usize>>,
    see: spec_fn(T) -> V,
)
    requires
        new_a.wf(),
        new_b.wf(),
        crate::simulation::is_new_of(new_a, config),
        crate::simulation::is_new_of(
            new_b,
            SimulationConfig { node_executor_thread_count: threads, ..config },
        ),
        all_deterministic(new_a, see),
        is_run(a, told_a, ta, ran_a),
        is_run(b, told_b, tb, ran_b),
        forall|i: int| 0 <= i < told_a.len() ==> told_alike(#[trigger] told_a[i], told_b[i]),
        new_a.starts_to(a[0]),
        new_b.starts_to(b[0]),
        ran_a.len() == ran_b.len(),
    ensures
        ran_a == ran_b,
        a.last().schedule.time == b.last().schedule.time,
        a.last().schedule.grants(a.last().ready()) == b.last().schedule.grants(b.last().ready()),
{
    let other = SimulationConfig { node_executor_thread_count: threads, ..config };
    lemma_alike_itself(config.system, see);
    assert(configs_alike(config, other, see));
    law_simulation_is_deterministic(
        config,
        new_a,
        a,
        told_a,
        ta,
        ran_a,
        other,
        new_b,
        b,
        told_b,
        tb,
        ran_b,
        see,
    );
}

} // verus!
