//! Replaying a log is deterministic.
use vstd::prelude::*;

use crate::callback::{CallbackNode, Memory, NodePorts, Run};
use crate::log_simulation::{LogEntry, ReplayAction};
use crate::log_simulation_node::{entry_memory, first_time_in, log_memory};
use crate::loggable::{DeserializeError, Loggable};
use crate::pub_sub::PubSub;
use crate::time::{Duration, FrameworkTime};

verus! {

/// Whether reading the same bytes twice shows the same.
pub open spec fn reads_alike<T: Loggable, V>(see: spec_fn(T) -> V) -> bool {
    forall|bytes: Seq<u8>, x: Result<T, DeserializeError>, y: Result<T, DeserializeError>|
        #[trigger] T::reads(bytes, x) && #[trigger] T::reads(bytes, y) ==> (x is Ok <==> y is Ok)
            && (x is Ok ==> see(x->Ok_0) == see(y->Ok_0))
}

/// Whether two entries hold the same.
pub open spec fn entries_alike(x: LogEntry, y: LogEntry) -> bool {
    &&& x.time == y.time
    &&& x.channel@ == y.channel@
    &&& x.payload@ == y.payload@
}

/// Whether two logs hold the same entries.
pub open spec fn logs_alike(xs: Seq<LogEntry>, ys: Seq<LogEntry>) -> bool {
    &&& xs.len() == ys.len()
    &&& forall|i: int| 0 <= i < xs.len() ==> entries_alike(#[trigger] xs[i], ys[i])
}

/// Logs are remembered as the same if and only if they hold the same entries.
pub proof fn law_memory_tells_the_entries(xs: Seq<LogEntry>, ys: Seq<LogEntry>)
    ensures
        log_memory(xs) == log_memory(ys) <==> logs_alike(xs, ys),
{
    let a = Seq::new(xs.len(), |i: int| entry_memory(xs[i]));
    let b = Seq::new(ys.len(), |i: int| entry_memory(ys[i]));
    assert(log_memory(xs) == Memory::List(a));
    assert(log_memory(ys) == Memory::List(b));
    if log_memory(xs) == log_memory(ys) {
        assert(a.len() == xs.len() && b.len() == ys.len());
        assert forall|i: int| 0 <= i < xs.len() implies entries_alike(#[trigger] xs[i], ys[i]) by {
            assert(a[i] == b[i]);
            lemma_entry_memory(xs[i], ys[i]);
        }
    }
    if logs_alike(xs, ys) {
        assert forall|i: int| 0 <= i < a.len() implies a[i] == b[i] by {
            assert(entries_alike(xs[i], ys[i]));
            lemma_entry_memory(xs[i], ys[i]);
        }
        assert(a =~= b);
    }
}

proof fn lemma_entry_memory(x: LogEntry, y: LogEntry)
    ensures
        entry_memory(x) == entry_memory(y) <==> entries_alike(x, y),
{
    let a = Seq::new(x.payload@.len(), |i: int| Memory::Number(x.payload@[i] as int));
    let b = Seq::new(y.payload@.len(), |i: int| Memory::Number(y.payload@[i] as int));
    let xs = seq![
        Memory::Number(x.time.nanoseconds as int),
        Memory::Text(x.channel@),
        Memory::List(a),
    ];
    let ys = seq![
        Memory::Number(y.time.nanoseconds as int),
        Memory::Text(y.channel@),
        Memory::List(b),
    ];
    assert(entry_memory(x) == Memory::List(xs));
    assert(entry_memory(y) == Memory::List(ys));
    if entry_memory(x) == entry_memory(y) {
        assert(xs[0] == ys[0]);
        assert(xs[1] == ys[1]);
        assert(xs[2] == ys[2]);
        assert(a.len() == x.payload@.len() && b.len() == y.payload@.len());
        assert forall|i: int| 0 <= i < x.payload@.len() implies x.payload@[i] == y.payload@[i] by {
            assert(a[i] == b[i]);
        }
        assert(x.payload@ =~= y.payload@);
    }
    if entries_alike(x, y) {
        assert(a =~= b);
        assert(xs =~= ys);
    }
}

/// As many entries of logs with the same entries are due.
proof fn lemma_due_alike(xs: Seq<LogEntry>, ys: Seq<LogEntry>, now: FrameworkTime)
    requires
        logs_alike(xs, ys),
    ensures
        crate::log_simulation::due(xs, now) == crate::log_simulation::due(ys, now),
    decreases xs.len(),
{
    if xs.len() > 0 {
        assert(entries_alike(xs[0], ys[0]));
        assert forall|i: int| 0 <= i < xs.skip(1).len() implies entries_alike(
            #[trigger] xs.skip(1)[i],
            ys.skip(1)[i],
        ) by {
            assert(entries_alike(xs[i + 1], ys[i + 1]));
        }
        lemma_due_alike(xs.skip(1), ys.skip(1), now);
    }
}

/// Whether two lists of actions send the same entries through the same outputs.
spec fn actions_alike(xs: Seq<ReplayAction>, ys: Seq<ReplayAction>) -> bool {
    &&& xs.len() == ys.len()
    &&& forall|i: int|
        0 <= i < xs.len() ==> (#[trigger] xs[i]).sink == ys[i].sink && entries_alike(
            xs[i].entry,
            ys[i].entry,
        )
}

/// The same entries are sent again in the same way.
proof fn lemma_replays_alike(
    xs: Seq<LogEntry>,
    ys: Seq<LogEntry>,
    sinks: Seq<String>,
    a: Seq<ReplayAction>,
    b: Seq<ReplayAction>,
)
    requires
        logs_alike(xs, ys),
        crate::log_simulation::replays(xs, sinks, a),
        crate::log_simulation::replays(ys, sinks, b),
    ensures
        actions_alike(a, b),
    decreases xs.len(),
{
    if xs.len() > 0 {
        let n = xs.len() - 1;
        assert(entries_alike(xs[n], ys[n]));
        assert forall|i: int| 0 <= i < xs.drop_last().len() implies entries_alike(
            #[trigger] xs.drop_last()[i],
            ys.drop_last()[i],
        ) by {
            assert(entries_alike(xs[i], ys[i]));
        }
        if crate::log_simulation::name_texts(sinks).contains(xs.last().channel@) {
            lemma_replays_alike(xs.drop_last(), ys.drop_last(), sinks, a.drop_last(), b.drop_last());
            let i = a.last().sink as int;
            let j = b.last().sink as int;
            assert(sinks[i]@ == sinks[j]@);
            assert(i == j);
            assert forall|k: int| 0 <= k < a.len() implies (#[trigger] a[k]).sink == b[k].sink
                && entries_alike(a[k].entry, b[k].entry) by {
                if k < a.len() - 1 {
                    assert(a.drop_last()[k] == a[k]);
                    assert(b.drop_last()[k] == b[k]);
                }
            }
        } else {
            lemma_replays_alike(xs.drop_last(), ys.drop_last(), sinks, a, b);
        }
    }
}

/// Sending an entry again leaves a slot for each loan that may still be made.
proof fn lemma_sending_leaves_slots<T: Loggable>(
    ports: NodePorts,
    before: PubSub<T>,
    after: PubSub<T>,
    action: ReplayAction,
)
    requires
        before.wf(),
        ports.within(before),
        crate::determinism::none_ran_out(before),
        crate::log_simulation::sends_again(ports, before, after, action),
    ensures
        ports.within(after),
        crate::determinism::none_ran_out(after),
{
    if after != before {
        assert(before.publishers.len() == before.publishers@.len());
        let p = (ports.first_publisher + action.sink) as usize;
        let value = choose|value: T| #[trigger]
            T::reads(action.entry.payload@, Ok(value)) && crate::test_tasks::publishes(
                before,
                after,
                p,
                value,
            );
        crate::sample_determinism::lemma_published(before, after, p, value);
        assert forall|q: int| 0 <= q < after.publishers@.len() implies #[trigger] crate::pub_sub_laws::ample(
            after,
            q,
        ) by {
            assert(crate::pub_sub_laws::ample(before, q));
            if q != p {
                assert(after.publishers@[q] == before.publishers@[q]);
            }
        }
    }
}

/// Sending the same entry again keeps systems alike.
proof fn lemma_sending_alike<T: Loggable, V>(
    ports: NodePorts,
    a: PubSub<T>,
    a2: PubSub<T>,
    x: ReplayAction,
    b: PubSub<T>,
    b2: PubSub<T>,
    y: ReplayAction,
    see: spec_fn(T) -> V,
)
    requires
        reads_alike::<T, V>(see),
        a.wf(),
        b.wf(),
        ports.within(a),
        crate::determinism::none_ran_out(a),
        crate::determinism::none_ran_out(b),
        crate::alike::alike(a, b, see),
        x.sink == y.sink,
        entries_alike(x.entry, y.entry),
        crate::log_simulation::sends_again(ports, a, a2, x),
        crate::log_simulation::sends_again(ports, b, b2, y),
    ensures
        crate::alike::alike(a2, b2, see),
        crate::log_simulation::has_to_wait(ports, a, x) == crate::log_simulation::has_to_wait(
            ports,
            b,
            y,
        ),
{
    if x.sink < ports.publisher_count {
        assert(a.publishers.len() == a.publishers@.len());
        let p = (ports.first_publisher + x.sink) as usize;
        crate::sample_determinism::lemma_loan_left_alike(a, b, p, see);
        if a.loan_left(p as int) {
            let bytes = x.entry.payload@;
            if exists|error: DeserializeError| #[trigger] T::reads(bytes, Err(error)) {
                let error = choose|error: DeserializeError| #[trigger] T::reads(bytes, Err(error));
                assert(T::reads(bytes, Err(error)));
                assert forall|value: T| !#[trigger] T::reads(bytes, Ok(value)) by {
                    if T::reads(bytes, Ok(value)) {
                        assert(T::reads(bytes, Err(error)));
                    }
                }
            } else {
                let u = choose|value: T| #[trigger]
                    T::reads(bytes, Ok(value)) && crate::test_tasks::publishes(a, a2, p, value);
                let v = choose|value: T| #[trigger]
                    T::reads(bytes, Ok(value)) && crate::test_tasks::publishes(b, b2, p, value);
                assert(T::reads(bytes, Ok(u)) && T::reads(bytes, Ok(v)));
                let ru: Result<T, DeserializeError> = Ok(u);
                let rv: Result<T, DeserializeError> = Ok(v);
                assert(see(ru->Ok_0) == see(rv->Ok_0));
                crate::sample_determinism::law_publishing_is_deterministic(
                    a,
                    a2,
                    b,
                    b2,
                    p,
                    u,
                    v,
                    see,
                );
            }
        }
    }
}

/// Sending the same entries again keeps systems alike, and the same entries
/// have to wait.
proof fn lemma_sent_alike<T: Loggable, V>(
    ports: NodePorts,
    xs: Seq<ReplayAction>,
    a: Seq<PubSub<T>>,
    ys: Seq<ReplayAction>,
    b: Seq<PubSub<T>>,
    k: int,
    see: spec_fn(T) -> V,
)
    requires
        reads_alike::<T, V>(see),
        actions_alike(xs, ys),
        crate::log_simulation::sent_in_turn(ports, xs, a),
        crate::log_simulation::sent_in_turn(ports, ys, b),
        ports.within(a[0]),
        ports.within(b[0]),
        crate::determinism::none_ran_out(a[0]),
        crate::determinism::none_ran_out(b[0]),
        crate::alike::alike(a[0], b[0], see),
        0 <= k <= xs.len(),
    ensures
        ports.within(a[k]),
        ports.within(b[k]),
        crate::determinism::none_ran_out(a[k]),
        crate::determinism::none_ran_out(b[k]),
        crate::alike::alike(a[k], b[k], see),
        logs_alike(
            crate::log_simulation::waiting(ports, xs, a, k),
            crate::log_simulation::waiting(ports, ys, b, k),
        ),
    decreases k,
{
    if k > 0 {
        lemma_sent_alike(ports, xs, a, ys, b, k - 1, see);
        assert(a[k - 1].wf());
        assert(b[k - 1].wf());
        assert(crate::log_simulation::sends_again(ports, a[k - 1], a[k - 1 + 1], xs[k - 1]));
        assert(crate::log_simulation::sends_again(ports, b[k - 1], b[k - 1 + 1], ys[k - 1]));
        assert(xs[k - 1].sink == ys[k - 1].sink);
        lemma_sending_leaves_slots(ports, a[k - 1], a[k], xs[k - 1]);
        lemma_sending_leaves_slots(ports, b[k - 1], b[k], ys[k - 1]);
        lemma_sending_alike(ports, a[k - 1], a[k], xs[k - 1], b[k - 1], b[k], ys[k - 1], see);
    }
}

/// Logs with the same entries, one after the other, hold the same entries.
proof fn lemma_joined_alike(
    a: Seq<LogEntry>,
    b: Seq<LogEntry>,
    xs: Seq<LogEntry>,
    ys: Seq<LogEntry>,
)
    requires
        logs_alike(a, b),
        logs_alike(xs, ys),
    ensures
        logs_alike(a + xs, b + ys),
{
    assert forall|i: int| 0 <= i < (a + xs).len() implies entries_alike(
        #[trigger] (a + xs)[i],
        (b + ys)[i],
    ) by {
        if i < a.len() {
            assert(entries_alike(a[i], b[i]));
        } else {
            assert(entries_alike(xs[i - a.len()], ys[i - a.len()]));
        }
    }
}

/// Whether the node does, wants and lasts as a replay through outputs of the
/// channels `sinks` does.
pub open spec fn is_replay<T: Loggable>(node: CallbackNode<T>, sinks: Seq<String>) -> bool {
    &&& crate::log_simulation_node::replays_through(node, sinks)
    &&& forall|memory: Memory, now: FrameworkTime, next: Option<FrameworkTime>| #[trigger]
        node.asks(memory, now, next) <==> next == first_time_in(memory)
    &&& forall|duration: Duration| #[trigger]
        node.execution_duration_callback->0.inner.allows(duration) ==> duration.nanoseconds == 0
}

/// A node that replays a log is deterministic, if reading payloads is: it runs
/// alike and asks for the same times.
pub proof fn law_replaying_is_deterministic<T: Loggable, V>(
    node: CallbackNode<T>,
    sinks: Seq<String>,
    see: spec_fn(T) -> V,
)
    requires
        is_replay(node, sinks),
        reads_alike::<T, V>(see),
    ensures
        crate::determinism::asks_alike(node),
        crate::determinism::runs_alike(node, see),
{
    assert forall|
        now: FrameworkTime,
        memory: Memory,
        a: PubSub<T>,
        a2: PubSub<T>,
        x: Duration,
        m: Memory,
        b: PubSub<T>,
        b2: PubSub<T>,
        y: Duration,
        n: Memory,
    |
        crate::determinism::comparable(node, a, a2, b, b2, see)
            && #[trigger] crate::simulation::run_gives(node, memory, now, a, a2, x, m)
            && #[trigger] crate::simulation::run_gives(node, memory, now, b, b2, y, n) implies x
        == y && m == n && crate::alike::alike(a2, b2, see) by {
        let ports = node.ports;
        let ra = choose|r: Run| #[trigger]
            node.callback.inner.runs(memory, ports, now, a, a2, r, m);
        let rb = choose|r: Run| #[trigger]
            node.callback.inner.runs(memory, ports, now, b, b2, r, n);
        let (ex, ax, sx) = lemma_replayed(sinks, memory, ports, now, a, a2, ra, m);
        let (ey, ay, sy) = lemma_replayed(sinks, memory, ports, now, b, b2, rb, n);
        let count = crate::log_simulation::due(ex, now) as int;
        law_memory_tells_the_entries(ex, ey);
        lemma_due_alike(ex, ey, now);
        crate::log_simulation::lemma_due_at_most(ex, now);
        assert forall|i: int| 0 <= i < count implies entries_alike(
            #[trigger] ex.take(count)[i],
            ey.take(count)[i],
        ) by {
            assert(entries_alike(ex[i], ey[i]));
        }
        assert forall|i: int| 0 <= i < ex.skip(count).len() implies entries_alike(
            #[trigger] ex.skip(count)[i],
            ey.skip(count)[i],
        ) by {
            assert(entries_alike(ex[count + i], ey[count + i]));
        }
        lemma_replays_alike(ex.take(count), ey.take(count), sinks, ax, ay);
        assert(ports.within(b));
        lemma_sent_alike(ports, ax, sx, ay, sy, ax.len() as int, see);
        let left = crate::log_simulation::waiting(ports, ax, sx, ax.len() as int);
        let kept = crate::log_simulation::waiting(ports, ay, sy, ay.len() as int);
        lemma_joined_alike(left, kept, ex.skip(count), ey.skip(count));
        law_memory_tells_the_entries(left + ex.skip(count), kept + ey.skip(count));
    }
}

/// The entries, the actions and the systems of a run of a replay.
proof fn lemma_replayed<T: Loggable>(
    sinks: Seq<String>,
    memory: Memory,
    ports: NodePorts,
    now: FrameworkTime,
    before: PubSub<T>,
    after: PubSub<T>,
    r: Run,
    next: Memory,
) -> (found: (Seq<LogEntry>, Seq<ReplayAction>, Seq<PubSub<T>>))
    requires
        crate::log_simulation_node::replay_runs(
            sinks,
            memory,
            ports,
            now,
            before,
            after,
            r,
            next,
        ),
    ensures
        ({
            let (entries, actions, systems) = found;
            let count = crate::log_simulation::due(entries, now) as int;
            &&& log_memory(entries) == memory
            &&& log_memory(
                crate::log_simulation::waiting(ports, actions, systems, actions.len() as int)
                    + entries.skip(count),
            ) == next
            &&& crate::log_simulation::replays(entries.take(count), sinks, actions)
            &&& crate::log_simulation::sent_in_turn(ports, actions, systems)
            &&& systems[0] == before
            &&& systems.last() == after
        }),
{
    choose|entries: Seq<LogEntry>, actions: Seq<ReplayAction>, systems: Seq<PubSub<T>>|
        #![trigger log_memory(entries), crate::log_simulation::sent_in_turn(ports, actions, systems)]
        {
            let count = crate::log_simulation::due(entries, now) as int;
            &&& log_memory(entries) == memory
            &&& log_memory(
                crate::log_simulation::waiting(ports, actions, systems, actions.len() as int)
                    + entries.skip(count),
            ) == next
            &&& crate::log_simulation::replays(entries.take(count), sinks, actions)
            &&& crate::log_simulation::sent_in_turn(ports, actions, systems)
            &&& systems[0] == before
            &&& systems.last() == after
        }
}

/// Sending the first `k` entries again makes no message forward another.
proof fn lemma_sent_forwards_nothing<T: Loggable>(
    ports: NodePorts,
    actions: Seq<ReplayAction>,
    systems: Seq<PubSub<T>>,
    k: int,
)
    requires
        crate::log_simulation::sent_in_turn(ports, actions, systems),
        ports.within(systems[0]),
        crate::room::forwards_none(systems[0]),
        0 <= k <= actions.len(),
    ensures
        ports.within(systems[k]),
        crate::room::forwards_none(systems[k]),
    decreases k,
{
    if k > 0 {
        lemma_sent_forwards_nothing(ports, actions, systems, k - 1);
        let before = systems[k - 1];
        let after = systems[k - 1 + 1];
        let action = actions[k - 1];
        assert(before.wf());
        assert(crate::log_simulation::sends_again(ports, before, after, action));
        if after != before {
            assert(before.publishers.len() == before.publishers@.len());
            let p = (ports.first_publisher + action.sink) as usize;
            let value = choose|value: T| #[trigger]
                T::reads(action.entry.payload@, Ok(value)) && crate::test_tasks::publishes(
                    before,
                    after,
                    p,
                    value,
                );
            crate::sample_determinism::lemma_publishing_forwards_nothing(before, after, p, value);
            crate::sample_determinism::lemma_published(before, after, p, value);
        }
    }
}

/// A node that replays a log forwards nothing. So no arena runs out on its
/// account.
pub proof fn law_replaying_forwards_nothing<T: Loggable>(
    node: CallbackNode<T>,
    sinks: Seq<String>,
)
    requires
        is_replay(node, sinks),
    ensures
        crate::room::never_forwards(node),
{
    assert forall|
        memory: Memory,
        now: FrameworkTime,
        before: PubSub<T>,
        after: PubSub<T>,
        duration: Duration,
        next: Memory,
    |
        before.wf() && after.wf() && node.ports.within(before) && crate::room::forwards_none(
            before,
        ) && #[trigger] crate::simulation::run_gives(
            node,
            memory,
            now,
            before,
            after,
            duration,
            next,
        ) implies crate::room::forwards_none(after) by {
        let r = choose|r: Run| #[trigger]
            node.callback.inner.runs(memory, node.ports, now, before, after, r, next);
        let (entries, actions, systems) = lemma_replayed(
            sinks,
            memory,
            node.ports,
            now,
            before,
            after,
            r,
            next,
        );
        lemma_sent_forwards_nothing(node.ports, actions, systems, actions.len() as int);
    }
}

/// A fresh replay node is a replay, and stays one wherever it stands and
/// whatever it remembers.
pub proof fn law_replay_node_is_a_replay<T: Loggable>(
    fresh: CallbackNode<T>,
    step: crate::log_simulation::LogSimulationBuildStep,
    registry: crate::channel_registry::ChannelRegistry,
    node: CallbackNode<T>,
)
    requires
        crate::log_simulation_node::is_replay_node(fresh, step, registry),
        node == (CallbackNode {
            callback: node.callback,
            ports: node.ports,
            id: node.id,
            ..fresh
        }),
        crate::callback::behaves_alike(node.callback, fresh.callback),
    ensures
        exists|sinks: Seq<String>| #[trigger]
            crate::log_simulation::name_texts(sinks) == step.channels() && is_replay(node, sinks),
{
    let sinks = choose|sinks: Seq<String>| #[trigger]
        crate::log_simulation::name_texts(sinks) == step.channels()
            && crate::log_simulation_node::replays_through(fresh, sinks);
    crate::callback::lemma_asks_same(node, fresh);
    assert(crate::log_simulation::name_texts(sinks) == step.channels());
    assert(crate::log_simulation_node::replays_through(node, sinks));
    assert(is_replay(node, sinks));
}

/// Reading numbers is deterministic.
pub proof fn law_numbers_read_alike()
    ensures
        reads_alike::<u64, u64>(|n: u64| n),
{
}

/// Reading texts is deterministic.
pub proof fn law_texts_read_alike()
    ensures
        reads_alike::<String, Seq<char>>(|text: String| text@),
{
}

} // verus!
