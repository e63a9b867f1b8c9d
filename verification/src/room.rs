//! The arenas of a graph that was connected never run out while it is
//! simulated.
use vstd::prelude::*;

use crate::callback::{CallbackNode, Memory, NodePorts};
use crate::pub_sub::{FlushView, PubSub};
use crate::pub_sub_laws::{buffered_by, connects, routed, sized};
use crate::publisher::{LoanedValue, SubscriberBuffer};
use crate::simulation::{SimulationState, StepTrace};
use crate::time::{Duration, FrameworkTime};

verus! {

/// Whether no message forwards another.
pub open spec fn forwards_none<T>(system: PubSub<T>) -> bool {
    forall|r: (usize, u64)| #[trigger] system.live(r) ==> system.entry(r).forwarded is None
}

/// Whether messages are queued only where their publishers are connected, every
/// arena has the slots that its publisher and the connected subscribers can
/// fill, and no message forwards another.
pub open spec fn has_room<T>(system: PubSub<T>) -> bool {
    &&& forwards_none(system)
    &&& forall|p: int| 0 <= p < system.publishers@.len() ==> #[trigger] routed(system, p)
    &&& forall|p: int| 0 <= p < system.publishers@.len() ==> #[trigger] sized(system, p)
}

/// Messages that forward none leave nothing forwarded.
proof fn lemma_nothing_forwarded<T>(
    storage: Seq<crate::arena::ArenaSlot<crate::publisher::Entry<T>>>,
)
    requires
        forall|i: int|
            0 <= i < storage.len() && (#[trigger] storage[i]).payload is Some
                ==> storage[i].payload->0.forwarded is None,
    ensures
        crate::publisher::forwards(storage).len() == 0,
    decreases storage.len(),
{
    if storage.len() > 0 {
        lemma_nothing_forwarded(storage.drop_last());
        assert(storage.last() == storage[storage.len() - 1]);
    }
}

/// Where there is room, no arena has run out.
pub proof fn law_room_keeps_arenas_from_running_out<T>(system: PubSub<T>)
    requires
        system.wf(),
        has_room(system),
    ensures
        crate::determinism::none_ran_out(system),
{
    assert(system.publishers.len() == system.publishers@.len());
    assert forall|q: int| 0 <= q < system.publishers@.len() implies (#[trigger]
    system.forward_groups()[q]).len() == 0 by {
        let storage = system.publishers@[q].arena.storage@;
        assert(system.publishers@[q].wf());
        assert forall|i: int| 0 <= i < storage.len() && (#[trigger]
        storage[i]).payload is Some implies storage[i].payload->0.forwarded is None by {
            assert(storage[i].wf());
            let r = (q as usize, i as u64);
            assert(system.publishers@[q].arena.storage.len() == storage.len());
            assert(system.live(r));
            assert(system.entry(r) == storage[i].payload->0);
        }
        lemma_nothing_forwarded(storage);
    }
    assert forall|p: int| 0 <= p < system.publishers@.len() implies #[trigger] crate::pub_sub_laws::ample(
        system,
        p,
    ) by {
        assert(routed(system, p));
        assert(sized(system, p));
        assert forall|q: int, i: int|
            0 <= q < system.publishers@.len() && 0 <= i < system.forward_groups()[q].len() implies #[trigger] system.forward_groups()[q][i].0
            != p by {
            assert(system.forward_groups()[q].len() == 0);
        }
        crate::pub_sub_laws::law_sized_arena_never_runs_out(system, p);
    }
}

/// A graph that was just connected has room.
pub proof fn law_connected_graph_has_room<T>(system: PubSub<T>, nodes: Seq<CallbackNode<T>>)
    requires
        system.wf(),
        crate::connect_graph::connected(system, nodes),
    ensures
        has_room(system),
{
    assert forall|p: int| 0 <= p < system.publishers@.len() implies #[trigger] routed(
        system,
        p,
    ) by {
        crate::connect_graph::law_connected_graph_is_sized(system, nodes, p);
    }
    assert forall|p: int| 0 <= p < system.publishers@.len() implies #[trigger] sized(system, p) by {
        crate::connect_graph::law_connected_graph_is_sized(system, nodes, p);
    }
    assert forall|r: (usize, u64)| #[trigger] system.live(r) implies system.entry(
        r,
    ).forwarded is None by {
        assert(crate::connect_graph::ready_to_publish(
            system.publishers@[r.0 as int],
            system.subscribers@,
            nodes,
        ));
        assert(system.publishers@[r.0 as int].arena.storage@[r.1 as int].ref_count == 0);
    }
}

/// What the connected subscribers can buffer depends on their configurations
/// alone.
proof fn lemma_buffered_alike<T>(
    before: PubSub<T>,
    after: PubSub<T>,
    connections: Seq<SubscriberBuffer>,
)
    requires
        forall|s: int|
            0 <= s < before.subscribers@.len() ==> (#[trigger] after.subscribers@[s]).config
                == before.subscribers@[s].config,
        forall|c: int|
            0 <= c < connections.len() ==> (#[trigger] connections[c]).subscriber
                < before.subscribers@.len(),
    ensures
        buffered_by(after, connections) == buffered_by(before, connections),
    decreases connections.len(),
{
    if connections.len() > 0 {
        let rest = connections.drop_last();
        assert forall|c: int| 0 <= c < rest.len() implies (#[trigger] rest[c]).subscriber
            < before.subscribers@.len() by {
            assert(rest[c] == connections[c]);
        }
        lemma_buffered_alike(before, after, rest);
        let last = connections[connections.len() - 1];
        assert(last.subscriber < before.subscribers@.len());
        assert(after.subscribers@[last.subscriber as int].config
            == before.subscribers@[last.subscriber as int].config);
    }
}

/// A graph that was just built has room, its execution-log publishers included.
pub proof fn law_built_graph_has_room<T>(
    system: PubSub<T>,
    nodes: Seq<CallbackNode<T>>,
    log_ids: Seq<usize>,
)
    requires
        crate::task_graph_builder::wired(system, nodes, log_ids),
    ensures
        has_room(system),
{
    let graph = choose|graph: PubSub<T>| #[trigger]
        crate::connect_graph::connected(graph, nodes) && crate::task_graph_builder::extends(
            system,
            graph,
            log_ids,
        );
    law_connected_graph_has_room(graph, nodes);
    let n = graph.publishers@.len() as int;
    let order = choose|order: Seq<usize>| #[trigger]
        crate::log_listeners::lists_all(order, system.subscribers@)
            && crate::task_graph_builder::logs_ready(system, n, log_ids, order);
    assert(system.publishers.len() == system.publishers@.len());
    assert(system.subscribers.len() == system.subscribers@.len());
    assert forall|p: int| 0 <= p < system.publishers@.len() implies #[trigger] routed(
        system,
        p,
    ) by {
        assert forall|s: int, i: int|
            0 <= s < system.subscribers@.len() && 0 <= i < system.subscribers@[s].held().len()
                && #[trigger] system.subscribers@[s].held()[i].0 == p implies connects(
            system,
            p,
            s,
        ) by {
            graph.lemma_queued_is_live(s, i);
            assert(p < n);
            assert(routed(graph, p));
            assert(graph.subscribers@[s].held()[i].0 == p);
            assert(system.publishers@[p] == graph.publishers@[p]);
            let c = choose|c: int|
                0 <= c < graph.publishers@[p].connections@.len() && (#[trigger]
                graph.publishers@[p].connections@[c]).subscriber == s;
            assert(system.publishers@[p].connections@[c].subscriber == s);
        }
    }
    assert forall|p: int| 0 <= p < system.publishers@.len() implies #[trigger] sized(system, p) by {
        if p < n {
            assert(sized(graph, p));
            assert(system.publishers@[p] == graph.publishers@[p]);
            let connections = graph.publishers@[p].connections@;
            assert forall|c: int| 0 <= c < connections.len() implies (#[trigger]
            connections[c]).subscriber < graph.subscribers@.len() by {
                assert(graph.connection_valid(graph.publishers@[p].connections@[c]));
            }
            lemma_buffered_alike(graph, system, connections);
        } else {
            assert(log_ids[p - n] == p);
            crate::log_listeners::lemma_links_buffer(system, order);
        }
    }
    assert forall|r: (usize, u64)| #[trigger] system.live(r) implies system.entry(
        r,
    ).forwarded is None by {
        if r.0 < n {
            assert(system.publishers@[r.0 as int] == graph.publishers@[r.0 as int]);
            assert(graph.live(r));
        } else {
            assert(log_ids[r.0 - n] == r.0);
            assert(system.publishers@[r.0 as int].arena.storage@[r.1 as int].ref_count == 0);
        }
    }
}

/// Whether every message that is queued stands where its publisher is
/// connected.
spec fn queued_where_connected<T>(before: PubSub<T>, after: PubSub<T>) -> bool {
    forall|s: int, i: int|
        0 <= s < after.subscribers@.len() && 0 <= i < after.subscribers@[s].held().len()
            && #[trigger] after.subscribers@[s].held()[i].0 < before.publishers@.len() ==> connects(
            before,
            after.subscribers@[s].held()[i].0 as int,
            s,
        )
}

/// Room stays where ports stay what they are, what is queued stands where it
/// may, and nothing is forwarded.
proof fn lemma_room_stays<T>(before: PubSub<T>, after: PubSub<T>)
    requires
        before.wf(),
        has_room(before),
        after.publishers@.len() == before.publishers@.len(),
        after.subscribers@.len() == before.subscribers@.len(),
        forall|p: int|
            0 <= p < before.publishers@.len() ==> crate::pub_sub::same_port(
                #[trigger] after.publishers@[p],
                before.publishers@[p],
            ),
        forall|s: int|
            0 <= s < before.subscribers@.len() ==> (#[trigger] after.subscribers@[s]).config
                == before.subscribers@[s].config,
        queued_where_connected(before, after),
        forwards_none(after),
    ensures
        has_room(after),
{
    assert forall|p: int| 0 <= p < after.publishers@.len() implies #[trigger] routed(after, p) by {
        assert(crate::pub_sub::same_port(after.publishers@[p], before.publishers@[p]));
        assert forall|s: int, i: int|
            0 <= s < after.subscribers@.len() && 0 <= i < after.subscribers@[s].held().len()
                && #[trigger] after.subscribers@[s].held()[i].0 == p implies connects(
            after,
            p,
            s,
        ) by {
            assert(connects(before, p, s));
            let c = choose|c: int|
                0 <= c < before.publishers@[p].connections@.len() && (#[trigger]
                before.publishers@[p].connections@[c]).subscriber == s;
            assert(after.publishers@[p].connections@[c].subscriber == s);
        }
    }
    assert forall|p: int| 0 <= p < after.publishers@.len() implies #[trigger] sized(after, p) by {
        assert(crate::pub_sub::same_port(after.publishers@[p], before.publishers@[p]));
        assert(sized(before, p));
        let connections = before.publishers@[p].connections@;
        assert forall|c: int| 0 <= c < connections.len() implies (#[trigger]
        connections[c]).subscriber < before.subscribers@.len() by {
            assert(before.connection_valid(before.publishers@[p].connections@[c]));
        }
        lemma_buffered_alike(before, after, connections);
    }
}

/// What was queued before stands where its publisher is connected.
proof fn lemma_held_where_connected<T>(system: PubSub<T>, s: int, r: (usize, u64))
    requires
        has_room(system),
        0 <= s < system.subscribers@.len(),
        system.subscribers@[s].held().contains(r),
        r.0 < system.publishers@.len(),
    ensures
        connects(system, r.0 as int, s),
{
    assert(routed(system, r.0 as int));
    let i = choose|i: int|
        0 <= i < system.subscribers@[s].held().len() && system.subscribers@[s].held()[i] == r;
    assert(system.subscribers@[s].held()[i].0 == r.0 as int);
}

/// Draining a node's inputs keeps room.
pub proof fn law_draining_keeps_room<T>(ports: NodePorts, before: PubSub<T>, after: PubSub<T>)
    requires
        before.wf(),
        has_room(before),
        ports.drains(before, after),
    ensures
        has_room(after),
{
    assert forall|s: int, i: int|
        0 <= s < after.subscribers@.len() && 0 <= i < after.subscribers@[s].held().len()
            && #[trigger] after.subscribers@[s].held()[i].0
            < before.publishers@.len() implies connects(
        before,
        after.subscribers@[s].held()[i].0 as int,
        s,
    ) by {
        let r = after.subscribers@[s].held()[i];
        let held = before.subscribers@[s].held();
        if ports.owns_subscriber(s) {
            let capacity = before.subscribers@[s].config.capacity as nat;
            assert(after.subscribers@[s].held() =~= crate::mpsc_queue::newest(held, capacity));
            if held.len() <= capacity {
                assert(held[i] == r);
            } else {
                assert(held[held.len() - capacity + i] == r);
            }
        } else {
            assert(held[i] == r);
        }
        assert(held.contains(r));
        lemma_held_where_connected(before, s, r);
    }
    assert(forwards_none(after)) by {
        assert forall|r: (usize, u64)| #[trigger] after.live(r) implies after.entry(
            r,
        ).forwarded is None by {
            assert(before.live(r));
        }
    }
    lemma_room_stays(before, after);
}

/// A run that forwards nothing keeps room.
pub proof fn law_running_keeps_room<T>(ports: NodePorts, before: PubSub<T>, after: PubSub<T>)
    requires
        before.wf(),
        has_room(before),
        ports.ran_within(before, after),
        forwards_none(after),
    ensures
        has_room(after),
{
    assert forall|s: int, i: int|
        0 <= s < after.subscribers@.len() && 0 <= i < after.subscribers@[s].held().len()
            && #[trigger] after.subscribers@[s].held()[i].0
            < before.publishers@.len() implies connects(
        before,
        after.subscribers@[s].held()[i].0 as int,
        s,
    ) by {
        let x = before.subscribers@[s].buffers;
        let y = after.subscribers@[s].buffers;
        let r = after.subscribers@[s].held()[i];
        let held = before.subscribers@[s].held();
        if i < y.readable().len() {
            assert(y.readable()[i] == r);
            assert(x.readable().contains(r));
            let j = choose|j: int| 0 <= j < x.readable().len() && x.readable()[j] == r;
            assert(held[j] == r);
        } else {
            let j = i - y.readable().len();
            assert(x.pending()[j] == r);
            assert(held[x.readable().len() + j] == r);
        }
        assert(held.contains(r));
        lemma_held_where_connected(before, s, r);
    }
    lemma_room_stays(before, after);
}

/// Whether every message that is queued in `view` stands where its publisher is
/// connected.
spec fn view_connected<T>(system: PubSub<T>, view: FlushView) -> bool {
    forall|s: int, i: int|
        0 <= s < view.pending.len() && 0 <= i < view.pending[s].len()
            && #[trigger] view.pending[s][i].0 < system.publishers@.len() ==> connects(
            system,
            view.pending[s][i].0 as int,
            s,
        )
}

proof fn lemma_counted_connection(connections: Seq<SubscriberBuffer>, s: int) -> (c: int)
    requires
        crate::pub_sub_laws::connection_count(connections, s) > 0,
    ensures
        0 <= c < connections.len(),
        connections[c].subscriber == s,
    decreases connections.len(),
{
    if connections[0].subscriber == s {
        0
    } else {
        1 + lemma_counted_connection(connections.skip(1), s)
    }
}

/// A flush queues what a publisher sent where the publisher is connected.
proof fn lemma_flushed_where_connected<T>(
    system: PubSub<T>,
    view: FlushView,
    p: int,
    loans: Seq<LoanedValue>,
)
    requires
        0 <= p < system.publishers@.len(),
        crate::pub_sub_laws::view_fits(view, system.publishers@[p].connections@),
        view_connected(system, view),
    ensures
        ({
            let after = crate::pub_sub::flushed(
                view,
                system.publishers@[p].connections@,
                p,
                loans,
            );
            &&& view_connected(system, after)
            &&& after.pending.len() == view.pending.len()
            &&& after.capacity == view.capacity
            &&& crate::pub_sub_laws::view_fits(after, system.publishers@[p].connections@)
        }),
    decreases loans.len(),
{
    let connections = system.publishers@[p].connections@;
    if loans.len() > 0 {
        if loans[0].sent {
            assert(system.publishers.len() == system.publishers@.len());
            let r = (p as usize, loans[0].ptr.slot as u64);
            let next = crate::pub_sub::delivered_to_all(view, connections, r);
            crate::pub_sub_laws::lemma_delivered_fits(view, connections, r);
            assert forall|s: int, i: int|
                0 <= s < next.pending.len() && 0 <= i < next.pending[s].len()
                    && #[trigger] next.pending[s][i].0
                    < system.publishers@.len() implies connects(
                system,
                next.pending[s][i].0 as int,
                s,
            ) by {
                crate::pub_sub_laws::lemma_delivered_to_all(view, connections, r, s);
                let x = next.pending[s][i];
                if crate::pub_sub_laws::connection_count(connections, s) == 0 {
                    assert(view.pending[s][i].0 == x.0);
                } else if x == r {
                    let c = lemma_counted_connection(connections, s);
                    assert(system.publishers@[p].connections@[c].subscriber == s);
                } else {
                    let j = choose|j: int| 0 <= j < view.pending[s].len() && view.pending[s][j] == x;
                    assert(view.pending[s][j].0 == x.0);
                }
            }
            lemma_flushed_where_connected(system, next, p, loans.skip(1));
        } else {
            lemma_flushed_where_connected(system, view, p, loans.skip(1));
        }
    }
}

/// Flushing a node's outputs queues what was sent where the outputs are
/// connected.
proof fn lemma_flushed_from_where_connected<T>(
    ports: NodePorts,
    system: PubSub<T>,
    view: FlushView,
    k: int,
)
    requires
        system.wf(),
        ports.within(system),
        0 <= k,
        view.pending.len() == system.subscribers@.len(),
        crate::pub_sub_laws::view_fits(view, Seq::empty()),
        view_connected(system, view),
    ensures
        view_connected(system, ports.flushed_from(view, system, k)),
        ports.flushed_from(view, system, k).pending.len() == view.pending.len(),
    decreases ports.publisher_count - k,
{
    if k < ports.publisher_count {
        let p = ports.first_publisher + k;
        let connections = system.publishers@[p].connections@;
        assert forall|c: int| 0 <= c < connections.len() implies (#[trigger]
        connections[c]).subscriber < view.pending.len() by {
            assert(system.connection_valid(system.publishers@[p].connections@[c]));
        }
        assert(crate::pub_sub_laws::view_fits(view, connections));
        lemma_flushed_where_connected(system, view, p, system.publishers@[p].loaned_values@);
        let next = crate::pub_sub::flushed(
            view,
            connections,
            p,
            system.publishers@[p].loaned_values@,
        );
        lemma_flushed_from_where_connected(ports, system, next, k + 1);
    }
}

/// Flushing a node's outputs keeps room.
pub proof fn law_flushing_keeps_room<T>(
    ports: NodePorts,
    before: PubSub<T>,
    after: PubSub<T>,
    timestamp: FrameworkTime,
    announced: Seq<crate::scheduling::CallbackNodeId>,
)
    requires
        before.wf(),
        has_room(before),
        ports.within(before),
        ports.flushes(before, after, timestamp, announced),
    ensures
        has_room(after),
{
    let view = before.flush_view(Seq::empty());
    assert forall|s: int| 0 <= s < view.pending.len() implies (#[trigger] view.pending[s]).len()
        <= view.capacity[s] && view.capacity[s] > 0 by {
        assert(before.subscribers@[s].wf());
    }
    assert(crate::pub_sub_laws::view_fits(view, Seq::empty()));
    assert forall|s: int, i: int|
        0 <= s < view.pending.len() && 0 <= i < view.pending[s].len()
            && #[trigger] view.pending[s][i].0 < before.publishers@.len() implies connects(
        before,
        view.pending[s][i].0 as int,
        s,
    ) by {
        let buffers = before.subscribers@[s].buffers;
        assert(before.subscribers@[s].held()[buffers.readable().len() + i] == view.pending[s][i]);
        lemma_held_where_connected(before, s, view.pending[s][i]);
    }
    lemma_flushed_from_where_connected(ports, before, view, 0);
    let flushed = after.flush_view(announced);
    assert forall|s: int, i: int|
        0 <= s < after.subscribers@.len() && 0 <= i < after.subscribers@[s].held().len()
            && #[trigger] after.subscribers@[s].held()[i].0
            < before.publishers@.len() implies connects(
        before,
        after.subscribers@[s].held()[i].0 as int,
        s,
    ) by {
        let buffers = after.subscribers@[s].buffers;
        let r = after.subscribers@[s].held()[i];
        assert(crate::pub_sub::same_reader(after.subscribers@[s], before.subscribers@[s]));
        if i < buffers.readable().len() {
            assert(before.subscribers@[s].held()[i] == r);
            lemma_held_where_connected(before, s, r);
        } else {
            assert(flushed.pending[s][i - buffers.readable().len()].0 == r.0);
        }
    }
    assert forall|r: (usize, u64)| #[trigger] after.live(r) implies after.entry(
        r,
    ).forwarded is None by {
        assert(before.live(r));
    }
    lemma_room_stays(before, after);
}

/// Whether runs of the node make no message forward another.
pub open spec fn never_forwards<T>(node: CallbackNode<T>) -> bool {
    forall|
        memory: Memory,
        now: FrameworkTime,
        before: PubSub<T>,
        after: PubSub<T>,
        duration: Duration,
        next: Memory,
    |
        before.wf() && after.wf() && node.ports.within(before) && forwards_none(before)
            && #[trigger] crate::simulation::run_gives(
            node,
            memory,
            now,
            before,
            after,
            duration,
            next,
        ) ==> forwards_none(after)
}

/// Whether no callback of the simulation forwards messages.
pub open spec fn none_forward<T>(state: SimulationState<T>) -> bool {
    forall|i: int|
        0 <= i < state.nodes.nodes@.len() ==> never_forwards(
            (#[trigger] state.nodes.nodes@[i]).node,
        )
}

/// Whether a system has as many parts as another.
spec fn as_large<T>(a: PubSub<T>, b: PubSub<T>) -> bool {
    &&& a.publishers@.len() == b.publishers@.len()
    &&& a.subscribers@.len() == b.subscribers@.len()
    &&& a.readiness@.len() == b.readiness@.len()
}

/// Draining the first `k` nodes keeps room.
proof fn lemma_drained_in_turn<T>(
    state: SimulationState<T>,
    trace: StepTrace<T>,
    runnable: Seq<usize>,
    k: int,
)
    requires
        has_room(state.system),
        state.allocated_and_drained(trace, runnable),
        0 <= k < trace.drained.len(),
    ensures
        has_room(trace.drained[k]),
        as_large(trace.drained[k], state.system),
    decreases k,
{
    if k > 0 {
        lemma_drained_in_turn(state, trace, runnable, k - 1);
        assert(trace.drained[k - 1].wf());
        let ports = state.nodes.nodes@[runnable[k - 1] as int].node.ports;
        assert(ports.drains(trace.drained[k - 1], trace.drained[k - 1 + 1]));
        law_draining_keeps_room(ports, trace.drained[k - 1], trace.drained[k]);
    }
}

/// Running the first `k` nodes keeps room.
proof fn lemma_ran_in_turn<T>(
    state: SimulationState<T>,
    trace: StepTrace<T>,
    runnable: Seq<usize>,
    k: int,
)
    requires
        state.sound(),
        none_forward(state),
        forall|j: int|
            0 <= j < runnable.len() ==> (#[trigger] runnable[j]) < state.nodes.nodes@.len(),
        state.ran_in_turn(
            state.schedule.time,
            runnable,
            trace.ran,
            trace.durations,
            trace.memories,
        ),
        has_room(trace.ran[0]),
        as_large(trace.ran[0], state.system),
        0 <= k < trace.ran.len(),
    ensures
        has_room(trace.ran[k]),
        as_large(trace.ran[k], state.system),
    decreases k,
{
    if k > 0 {
        lemma_ran_in_turn(state, trace, runnable, k - 1);
        let before = trace.ran[k - 1];
        let after = trace.ran[k - 1 + 1];
        assert(before.wf() && after.wf());
        let at = runnable[k - 1] as int;
        let node = state.nodes.nodes@[at].node;
        assert(crate::simulation::can_simulate(state.nodes.nodes@[at], state.system));
        assert(never_forwards(node));
        assert(crate::simulation::run_gives(
            node,
            node.callback.inner.memory(),
            state.schedule.time,
            before,
            after,
            trace.durations[k - 1],
            trace.memories[k - 1],
        ));
        law_running_keeps_room(node.ports, before, after);
    }
}

/// Flushing the first `k` nodes keeps room.
proof fn lemma_flushed_in_turn<T>(
    state: SimulationState<T>,
    trace: StepTrace<T>,
    runnable: Seq<usize>,
    k: int,
)
    requires
        state.sound(),
        forall|j: int|
            0 <= j < runnable.len() ==> (#[trigger] runnable[j]) < state.nodes.nodes@.len(),
        state.flushed_in_turn(state.schedule.time, runnable, trace.flushed),
        has_room(trace.flushed[0]),
        as_large(trace.flushed[0], state.system),
        0 <= k < trace.flushed.len(),
    ensures
        has_room(trace.flushed[k]),
        as_large(trace.flushed[k], state.system),
    decreases k,
{
    if k > 0 {
        lemma_flushed_in_turn(state, trace, runnable, k - 1);
        let before = trace.flushed[k - 1];
        let after = trace.flushed[k - 1 + 1];
        assert(before.wf());
        let at = runnable[k - 1] as int;
        let ports = state.nodes.nodes@[at].node.ports;
        assert(crate::simulation::can_simulate(state.nodes.nodes@[at], state.system));
        assert(crate::simulation::flush_gives(
            state.nodes.nodes@[at].node,
            state.schedule.time,
            before,
            after,
        ));
        let announced = choose|announced: Seq<crate::scheduling::CallbackNodeId>| #[trigger]
            ports.flushes(before, after, state.schedule.time, announced);
        law_flushing_keeps_room(ports, before, after, state.schedule.time, announced);
    }
}

/// A node whose callback behaves as before still forwards nothing.
proof fn lemma_still_forwards_nothing<T>(before: CallbackNode<T>, after: CallbackNode<T>)
    requires
        never_forwards(before),
        after == (CallbackNode { callback: after.callback, ..before }),
        crate::callback::behaves_alike(after.callback, before.callback),
    ensures
        never_forwards(after),
{
    assert forall|
        memory: Memory,
        now: FrameworkTime,
        a: PubSub<T>,
        a2: PubSub<T>,
        duration: Duration,
        next: Memory,
    |
        a.wf() && a2.wf() && after.ports.within(a) && forwards_none(a)
            && #[trigger] crate::simulation::run_gives(
            after,
            memory,
            now,
            a,
            a2,
            duration,
            next,
        ) implies forwards_none(a2) by {
        let r = choose|r: crate::callback::Run| #[trigger]
            after.callback.inner.runs(memory, after.ports, now, a, a2, r, next);
        assert(before.callback.inner.runs(memory, after.ports, now, a, a2, r, next));
        assert(crate::simulation::run_gives(before, memory, now, a, a2, duration, next));
    }
}

/// A step keeps room, if no callback forwards messages: no arena runs out in it,
/// and none will.
pub proof fn law_step_keeps_room<T>(
    before: SimulationState<T>,
    after: SimulationState<T>,
    trace: StepTrace<T>,
    runnable: Seq<usize>,
)
    requires
        before.wf(),
        has_room(before.system),
        none_forward(before),
        before.steps_to(after, trace, runnable),
    ensures
        has_room(after.system),
        none_forward(after),
        forall|k: int|
            0 <= k < trace.ran.len() ==> crate::determinism::none_ran_out(#[trigger] trace.ran[k]),
{
    assert(trace.allocated.node_to_pool@.len() == before.nodes.nodes@.len());
    lemma_drained_in_turn(before, trace, runnable, trace.drained.len() - 1);
    assert forall|k: int| 0 <= k < trace.ran.len() implies crate::determinism::none_ran_out(
        #[trigger] trace.ran[k],
    ) by {
        lemma_ran_in_turn(before, trace, runnable, k);
        law_room_keeps_arenas_from_running_out(trace.ran[k]);
    }
    lemma_ran_in_turn(before, trace, runnable, trace.ran.len() - 1);
    lemma_flushed_in_turn(before, trace, runnable, trace.flushed.len() - 1);
    assert forall|i: int| 0 <= i < after.nodes.nodes@.len() implies never_forwards(
        (#[trigger] after.nodes.nodes@[i]).node,
    ) by {
        assert(never_forwards(before.nodes.nodes@[i].node));
        if runnable.contains(i as usize) {
            assert(before.nodes.nodes.len() == before.nodes.nodes@.len());
            let k = choose|k: int| 0 <= k < runnable.len() && runnable[k] == i as usize;
            assert(crate::callback::behaves_alike(
                after.nodes.nodes@[runnable[k] as int].node.callback,
                before.nodes.nodes@[runnable[k] as int].node.callback,
            ));
            lemma_still_forwards_nothing(
                before.nodes.nodes@[i].node,
                after.nodes.nodes@[i].node,
            );
        } else {
            assert(after.nodes.nodes@[i] == before.nodes.nodes@[i]);
        }
    }
}

/// The state before each step has room.
proof fn lemma_room_before_each_step<T>(
    states: Seq<SimulationState<T>>,
    told: Seq<SimulationState<T>>,
    traces: Seq<StepTrace<T>>,
    ran: Seq<Seq<usize>>,
    i: int,
)
    requires
        crate::determinism::is_stepped(states, told, traces, ran),
        has_room(states[0].system),
        none_forward(states[0]),
        0 <= i < states.len(),
    ensures
        has_room(states[i].system),
        none_forward(states[i]),
    decreases i,
{
    if i > 0 {
        lemma_room_before_each_step(states, told, traces, ran, i - 1);
        assert(crate::determinism::is_told(states[i - 1], told[i - 1]));
        assert(told[i - 1].steps_to(states[i - 1 + 1], traces[i - 1], ran[i - 1]));
        law_step_keeps_room(told[i - 1], states[i], traces[i - 1], ran[i - 1]);
    }
}

/// However long a simulation with room is stepped, no arena runs out, if no
/// callback forwards messages.
pub proof fn law_no_arena_runs_out<T>(
    states: Seq<SimulationState<T>>,
    told: Seq<SimulationState<T>>,
    traces: Seq<StepTrace<T>>,
    ran: Seq<Seq<usize>>,
)
    requires
        crate::determinism::is_stepped(states, told, traces, ran),
        has_room(states[0].system),
        none_forward(states[0]),
    ensures
        crate::determinism::is_run(states, told, traces, ran),
{
    assert forall|i: int, k: int|
        0 <= i < traces.len() && 0 <= k < traces[i].ran.len() implies crate::determinism::none_ran_out(
        #[trigger] traces[i].ran[k],
    ) by {
        lemma_room_before_each_step(states, told, traces, ran, i);
        assert(crate::determinism::is_told(states[i], told[i]));
        assert(told[i].steps_to(states[i + 1], traces[i], ran[i]));
        law_step_keeps_room(told[i], states[i + 1], traces[i], ran[i]);
    }
}

/// Simulations of connected graphs are deterministic: from alike configurations
/// whose systems have room, and whose callbacks are deterministic and forward
/// nothing, come simulations that, once started, told the same inputs and
/// stepped equally often, have run the same nodes in each step and stand at the
/// same time.
pub proof fn law_simulation_with_room_is_deterministic<T, V>(
    config_a: crate::simulation::SimulationConfig<T>,
    new_a: SimulationState<T>,
    a: Seq<SimulationState<T>>,
    told_a: Seq<SimulationState<T>>,
    ta: Seq<StepTrace<T>>,
    ran_a: Seq<Seq<usize>>,
    config_b: crate::simulation::SimulationConfig<T>,
    new_b: SimulationState<T>,
    b: Seq<SimulationState<T>>,
    told_b: Seq<SimulationState<T>>,
    tb: Seq<StepTrace<T>>,
    ran_b: Seq<Seq<usize>>,
    see: spec_fn(T) -> V,
)
    requires
        crate::determinism::configs_alike(config_a, config_b, see),
        has_room(config_a.system),
        has_room(config_b.system),
        new_a.wf(),
        new_b.wf(),
        crate::simulation::is_new_of(new_a, config_a),
        crate::simulation::is_new_of(new_b, config_b),
        crate::determinism::all_deterministic(new_a, see),
        none_forward(new_a),
        none_forward(new_b),
        crate::determinism::is_stepped(a, told_a, ta, ran_a),
        crate::determinism::is_stepped(b, told_b, tb, ran_b),
        forall|i: int|
            0 <= i < told_a.len() ==> crate::determinism::told_alike(
                #[trigger] told_a[i],
                told_b[i],
            ),
        new_a.starts_to(a[0]),
        new_b.starts_to(b[0]),
        ran_a.len() == ran_b.len(),
    ensures
        ran_a == ran_b,
        crate::determinism::simulations_alike(a.last(), b.last(), see),
        a.last().schedule.time == b.last().schedule.time,
        a.last().schedule.grants(a.last().ready()) == b.last().schedule.grants(b.last().ready()),
{
    law_no_arena_runs_out(a, told_a, ta, ran_a);
    law_no_arena_runs_out(b, told_b, tb, ran_b);
    crate::determinism::law_simulation_is_deterministic(
        config_a,
        new_a,
        a,
        told_a,
        ta,
        ran_a,
        config_b,
        new_b,
        b,
        told_b,
        tb,
        ran_b,
        see,
    );
}

/// Simulations of one configuration whose system has room, and whose callbacks
/// are deterministic and forward nothing, do the same, however often they are
/// stepped and however many threads execute the nodes.
pub proof fn law_one_configuration_with_room_runs_one_way<T, V>(
    config: crate::simulation::SimulationConfig<T>,
    threads: usize,
    new_a: SimulationState<T>,
    a: Seq<SimulationState<T>>,
    told_a: Seq<SimulationState<T>>,
    ta: Seq<StepTrace<T>>,
    ran_a: Seq<Seq<usize>>,
    new_b: SimulationState<T>,
    b: Seq<SimulationState<T>>,
    told_b: Seq<SimulationState<T>>,
    tb: Seq<StepTrace<T>>,
    ran_b: Seq<Seq<usize>>,
    see: spec_fn(T) -> V,
)
    requires
        has_room(config.system),
        new_a.wf(),
        new_b.wf(),
        crate::simulation::is_new_of(new_a, config),
        crate::simulation::is_new_of(
            new_b,
            crate::simulation::SimulationConfig { node_executor_thread_count: threads, ..config },
        ),
        crate::determinism::all_deterministic(new_a, see),
        none_forward(new_a),
        none_forward(new_b),
        crate::determinism::is_stepped(a, told_a, ta, ran_a),
        crate::determinism::is_stepped(b, told_b, tb, ran_b),
        forall|i: int|
            0 <= i < told_a.len() ==> crate::determinism::told_alike(
                #[trigger] told_a[i],
                told_b[i],
            ),
        new_a.starts_to(a[0]),
        new_b.starts_to(b[0]),
        ran_a.len() == ran_b.len(),
    ensures
        ran_a == ran_b,
        a.last().schedule.time == b.last().schedule.time,
        a.last().schedule.grants(a.last().ready()) == b.last().schedule.grants(b.last().ready()),
{
    law_no_arena_runs_out(a, told_a, ta, ran_a);
    law_no_arena_runs_out(b, told_b, tb, ran_b);
    crate::determinism::law_one_configuration_runs_one_way(
        config,
        threads,
        new_a,
        a,
        told_a,
        ta,
        ran_a,
        new_b,
        b,
        told_b,
        tb,
        ran_b,
        see,
    );
}

} // verus!
