//! What building a graph is for: every node ends up in its pool, every output
//! reaches every input of its channel, and what holds for the graph holds for
//! each node.
use vstd::prelude::*;

use crate::callback::{CallbackNode, SubscriberPort};
use crate::callback_builder::{CallbackBuildError, CallbackBuilder};
use crate::channel_registry::ChannelRegistry;
use crate::executor::ThreadPoolConfig;
use crate::pub_sub::PubSub;
use crate::readiness::SubscriberReadiness;
use crate::subscriber::Subscriber;
use crate::task_graph_builder::{AnyGraphStep, BuiltTaskGraph, PoolBuilder, TaskGraphBuilder};

verus! {

/// The nodes of a built graph before their setting for the logs was overridden,
/// with the registry that the build steps left.
proof fn lemma_before_level<T>(builder: TaskGraphBuilder<T>, nodes: Seq<CallbackNode<T>>) -> (r: (
    Seq<CallbackNode<T>>,
    ChannelRegistry,
    ChannelRegistry,
))
    requires
        builder.may_connect(nodes),
    ensures
        builder.registers_to(r.2),
        crate::task_graph_builder::reaches(
            crate::task_graph_builder::graph_nodes(builder.pools@, builder.pools@.len() as int),
            r.2,
            builder.build_steps@,
            builder.build_steps@.len() as int,
            r.0,
            r.1,
        ),
        nodes == crate::task_graph_builder::leveled(r.0, builder.execution_log_level_override),
        nodes.len() == r.0.len(),
        forall|n: int|
            0 <= n < nodes.len() ==> #[trigger] nodes[n] == (CallbackNode {
                log_executions: match builder.execution_log_level_override {
                    Some(level) => level,
                    None => r.0[n].log_executions,
                },
                ..r.0[n]
            }),
{
    let (before, known) = choose|before: Seq<CallbackNode<T>>, known: ChannelRegistry| #[trigger]
        builder.may_reach(before, known) && nodes == crate::task_graph_builder::leveled(
            before,
            builder.execution_log_level_override,
        );
    let first = choose|first: ChannelRegistry| #[trigger]
        builder.registers_to(first) && crate::task_graph_builder::reaches(
            crate::task_graph_builder::graph_nodes(builder.pools@, builder.pools@.len() as int),
            first,
            builder.build_steps@,
            builder.build_steps@.len() as int,
            before,
            known,
        );
    (before, known, first)
}

/// Every node of a pool is one of the connected nodes.
proof fn lemma_pool_node<T>(
    builders: Seq<PoolBuilder<T>>,
    placed: Seq<CallbackNode<T>>,
    pools: Seq<ThreadPoolConfig<T>>,
    k: int,
    i: int,
) -> (n: int)
    requires
        crate::task_graph_builder::distributed(builders, placed, pools),
        crate::graph_pools::count_sum(
            crate::task_graph_builder::own_counts(builders),
            builders.len() as int,
        ) <= placed.len(),
        0 <= k < pools.len(),
        0 <= i < pools[k].nodes.nodes@.len(),
    ensures
        0 <= n < placed.len(),
        pools[k].nodes.nodes@[i].node == placed[n],
{
    if builders.len() == 0 {
        assert(pools[0].nodes.holds(placed));
        assert(pools[0].nodes.nodes@[i].node == placed[i]);
        i
    } else {
        let counts = crate::task_graph_builder::own_counts(builders);
        let part = crate::graph_pools::pool_part(placed, counts, k);
        assert(pools[k].nodes.holds(part));
        assert(pools[k].nodes.nodes@[i].node == part[i]);
        crate::graph_pools::lemma_count_sum(counts, 0, k);
        crate::graph_pools::lemma_count_sum(counts, k, k + 1);
        crate::graph_pools::lemma_count_sum(counts, k + 1, counts.len() as int);
        let start = crate::graph_pools::count_sum(counts, k);
        let own = crate::graph_pools::count_sum(counts, k + 1) - start;
        if i < own {
            start + i
        } else {
            crate::graph_pools::count_sum(counts, counts.len() as int) + (i - own)
        }
    }
}

/// The nodes of the first pools stand where their counts say.
proof fn lemma_graph_nodes_at<T>(pools: Seq<PoolBuilder<T>>, n: int, k: int)
    requires
        0 <= k <= n <= pools.len(),
        crate::task_graph_builder::graph_nodes(pools, n).len() <= usize::MAX,
    ensures
        crate::graph_pools::count_sum(crate::task_graph_builder::own_counts(pools), n)
            == crate::task_graph_builder::graph_nodes(pools, n).len(),
        crate::graph_pools::count_sum(crate::task_graph_builder::own_counts(pools), k)
            <= crate::graph_pools::count_sum(crate::task_graph_builder::own_counts(pools), n),
        k < n ==> crate::task_graph_builder::own_counts(pools)[k] == pools[k].nodes().len(),
        k < n ==> forall|i: int|
            0 <= i < pools[k].nodes().len() ==> #[trigger] crate::task_graph_builder::graph_nodes(
                pools,
                n,
            )[crate::graph_pools::count_sum(crate::task_graph_builder::own_counts(pools), k) + i]
                == pools[k].nodes()[i],
        k < n ==> crate::graph_pools::count_sum(crate::task_graph_builder::own_counts(pools), k)
            + pools[k].nodes().len() <= crate::task_graph_builder::graph_nodes(pools, n).len(),
    decreases n,
{
    let counts = crate::task_graph_builder::own_counts(pools);
    if n > 0 {
        let all = crate::task_graph_builder::graph_nodes(pools, n);
        let rest = crate::task_graph_builder::graph_nodes(pools, n - 1);
        lemma_graph_nodes_at(pools, n - 1, if k < n { k } else { n - 1 });
        lemma_graph_nodes_at(pools, n - 1, n - 1);
        assert(counts[n - 1] == pools[n - 1].nodes().len());
        crate::graph_pools::lemma_count_sum(counts, 0, k);
        if k < n {
            assert forall|i: int| 0 <= i < pools[k].nodes().len() implies #[trigger] all[crate::graph_pools::count_sum(
                counts,
                k,
            ) + i] == pools[k].nodes()[i] by {
                if k < n - 1 {
                    assert(rest[crate::graph_pools::count_sum(counts, k) + i]
                        == pools[k].nodes()[i]);
                }
            }
        }
    }
}

/// Where a graph is built with an execution-log level, every node of every pool
/// has that level, whatever it was set to before and whether a build step added
/// it.
pub proof fn law_graph_level_holds_for_every_node<T>(
    builder: TaskGraphBuilder<T>,
    nodes: Seq<CallbackNode<T>>,
    placed: Seq<CallbackNode<T>>,
    pools: Seq<ThreadPoolConfig<T>>,
    level: bool,
)
    requires
        builder.fits(),
        builder.may_connect(nodes),
        crate::task_builder::all_same_but_ports(nodes, placed),
        crate::task_graph_builder::distributed(builder.pools@, placed, pools),
        builder.execution_log_level_override == Some(level),
    ensures
        forall|k: int, i: int|
            0 <= k < pools.len() && 0 <= i < pools[k].nodes.nodes@.len() ==> (#[trigger]
            pools[k].nodes.nodes@[i]).node.log_executions == level,
{
    let (before, known, first) = lemma_before_level(builder, nodes);
    let m = builder.pools@.len() as int;
    let start = crate::task_graph_builder::graph_nodes(builder.pools@, m);
    crate::task_graph_builder::lemma_reaches_grows(
        start,
        first,
        builder.build_steps@,
        builder.build_steps@.len() as int,
        before,
        known,
    );
    lemma_graph_nodes_at(builder.pools@, m, m);
    assert forall|k: int, i: int|
        0 <= k < pools.len() && 0 <= i < pools[k].nodes.nodes@.len() implies (#[trigger]
    pools[k].nodes.nodes@[i]).node.log_executions == level by {
        let n = lemma_pool_node(builder.pools@, placed, pools, k, i);
        assert(crate::connect::same_but_ports(placed[n], nodes[n]));
    }
}

/// Every node that was added to a pool is in that pool of the built graph, first
/// those of the queued builders and then the others, each in the order in which
/// it was added. A node keeps its callback, its channels, its schedule and its
/// name, and without a level for the whole graph also its own.
pub proof fn law_pools_get_their_nodes<T>(
    builder: TaskGraphBuilder<T>,
    nodes: Seq<CallbackNode<T>>,
    placed: Seq<CallbackNode<T>>,
    pools: Seq<ThreadPoolConfig<T>>,
    k: int,
    i: int,
)
    requires
        builder.fits(),
        builder.may_connect(nodes),
        crate::task_builder::all_same_but_ports(nodes, placed),
        crate::task_graph_builder::distributed(builder.pools@, placed, pools),
        0 <= k < builder.pools@.len(),
        0 <= i < builder.pools@[k].pending_builders@.len() + builder.pools@[k].callbacks@.len(),
    ensures
        pools.len() == builder.pools@.len(),
        pools[k].thread_count == builder.pools@[k].thread_count,
        i < pools[k].nodes.nodes@.len(),
        ({
            let is = pools[k].nodes.nodes@[i].node;
            let queued = builder.pools@[k].pending_builders@;
            if i < queued.len() {
                &&& is.subscribers == queued[i].subscribers
                &&& is.publishers == queued[i].publishers
                &&& is.callback == queued[i].generic_callback
                &&& is.next_execution_time_callback == queued[i].next_execution_time_callback
                &&& is.execution_duration_callback == queued[i].execution_duration_callback
                &&& is.name == queued[i].name
                &&& builder.execution_log_level_override is None ==> is.log_executions
                    == queued[i].log_executions
            } else {
                let was = builder.pools@[k].callbacks@[i - queued.len()];
                &&& is.subscribers == was.subscribers
                &&& is.publishers == was.publishers
                &&& is.callback == was.callback
                &&& is.next_execution_time_callback == was.next_execution_time_callback
                &&& is.execution_duration_callback == was.execution_duration_callback
                &&& is.name == was.name
                &&& builder.execution_log_level_override is None ==> is.log_executions
                    == was.log_executions
            }
        }),
{
    let (before, known, first) = lemma_before_level(builder, nodes);
    let m = builder.pools@.len() as int;
    let start = crate::task_graph_builder::graph_nodes(builder.pools@, m);
    crate::task_graph_builder::lemma_reaches_grows(
        start,
        first,
        builder.build_steps@,
        builder.build_steps@.len() as int,
        before,
        known,
    );
    let counts = crate::task_graph_builder::own_counts(builder.pools@);
    lemma_graph_nodes_at(builder.pools@, m, k);
    let own = builder.pools@[k].nodes();
    let at = crate::graph_pools::count_sum(counts, k) + i;
    crate::graph_pools::lemma_count_sum(counts, 0, k);
    assert(start[at] == own[i]);
    assert(before.take(start.len() as int)[at] == before[at]);
    assert(crate::connect::same_but_ports(placed[at], nodes[at]));
    let part = crate::graph_pools::pool_part(placed, counts, k);
    assert(pools[k].nodes.holds(part));
    assert(part[i] == placed[at]);
    let queued = builder.pools@[k].pending_builders@;
    if i < queued.len() {
        assert(own[i] == queued[i].node());
    } else {
        assert(own[i] == builder.pools@[k].callbacks@[i - queued.len()]);
    }
}

/// What a step added stays where it was put.
proof fn lemma_step_added<T>(
    start: Seq<CallbackNode<T>>,
    first: ChannelRegistry,
    steps: Seq<AnyGraphStep<T>>,
    k: int,
    nodes: Seq<CallbackNode<T>>,
    registry: ChannelRegistry,
    j: int,
)
    requires
        0 <= j < k <= steps.len(),
        crate::task_graph_builder::reaches(start, first, steps, k, nodes, registry),
    ensures
        exists|
            existing: Seq<CallbackNode<T>>,
            known: ChannelRegistry,
            added: Vec<CallbackNode<T>>,
            after: ChannelRegistry,
        |
            {
                &&& #[trigger] steps[j].inner.adds(existing, known, Ok(added), after)
                &&& start.len() <= existing.len()
                &&& existing.len() + added@.len() <= nodes.len()
                &&& nodes.take(existing.len() as int) == existing
                &&& nodes.subrange(
                    existing.len() as int,
                    (existing.len() + added@.len()) as int,
                ) == added@
            },
    decreases k,
{
    let (before, known, added) = choose|
        before: Seq<CallbackNode<T>>,
        known: ChannelRegistry,
        added: Vec<CallbackNode<T>>,
    | #[trigger]
        steps[k - 1].inner.adds(before, known, Ok(added), registry)
            && crate::task_graph_builder::reaches(start, first, steps, k - 1, before, known)
            && nodes == before + added@;
    crate::task_graph_builder::lemma_reaches_grows(start, first, steps, k - 1, before, known);
    if j == k - 1 {
        assert(nodes.take(before.len() as int) =~= before);
        assert(nodes.subrange(before.len() as int, (before.len() + added@.len()) as int) =~= added@);
    } else {
        lemma_step_added(start, first, steps, k - 1, before, known, j);
        let (existing, seen, new, after) = choose|
            existing: Seq<CallbackNode<T>>,
            seen: ChannelRegistry,
            new: Vec<CallbackNode<T>>,
            after: ChannelRegistry,
        |
            {
                &&& #[trigger] steps[j].inner.adds(existing, seen, Ok(new), after)
                &&& start.len() <= existing.len()
                &&& existing.len() + new@.len() <= before.len()
                &&& before.take(existing.len() as int) == existing
                &&& before.subrange(existing.len() as int, (existing.len() + new@.len()) as int) == new@
            };
        assert(nodes.take(existing.len() as int) =~= before.take(existing.len() as int));
        assert(nodes.subrange(existing.len() as int, (existing.len() + new@.len()) as int)
            =~= before.subrange(existing.len() as int, (existing.len() + new@.len()) as int));
    }
}

/// Every build step runs, in the order in which it was added, on the nodes of the
/// pools and of the steps before it; what it adds comes behind these and goes to
/// the first pool.
pub proof fn law_build_steps_add_their_nodes<T>(
    builder: TaskGraphBuilder<T>,
    nodes: Seq<CallbackNode<T>>,
    placed: Seq<CallbackNode<T>>,
    pools: Seq<ThreadPoolConfig<T>>,
    j: int,
)
    requires
        builder.fits(),
        builder.may_connect(nodes),
        crate::task_builder::all_same_but_ports(nodes, placed),
        crate::task_graph_builder::distributed(builder.pools@, placed, pools),
        0 <= j < builder.build_steps@.len(),
    ensures
        exists|
            existing: Seq<CallbackNode<T>>,
            known: ChannelRegistry,
            added: Vec<CallbackNode<T>>,
            after: ChannelRegistry,
        |
            {
                &&& #[trigger] builder.build_steps@[j].inner.adds(
                    existing,
                    known,
                    Ok(added),
                    after,
                )
                &&& existing.len() + added@.len() <= nodes.len()
                &&& forall|n: int|
                    0 <= n < existing.len() ==> (#[trigger] existing[n]).name == nodes[n].name
                        && existing[n].callback == nodes[n].callback
                &&& forall|n: int|
                    0 <= n < added@.len() ==> exists|i: int|
                        0 <= i < pools[0].nodes.nodes@.len() && (#[trigger]
                        pools[0].nodes.nodes@[i]).node.callback == (#[trigger] added@[n]).callback
                            && pools[0].nodes.nodes@[i].node.name == added@[n].name
                            && pools[0].nodes.nodes@[i].node.subscribers == added@[n].subscribers
                            && pools[0].nodes.nodes@[i].node.publishers == added@[n].publishers
            },
{
    let (before, known, first) = lemma_before_level(builder, nodes);
    let m = builder.pools@.len() as int;
    let start = crate::task_graph_builder::graph_nodes(builder.pools@, m);
    let total = builder.build_steps@.len() as int;
    crate::task_graph_builder::lemma_reaches_grows(
        start,
        first,
        builder.build_steps@,
        total,
        before,
        known,
    );
    lemma_step_added(start, first, builder.build_steps@, total, before, known, j);
    let (existing, seen, added, after) = choose|
        existing: Seq<CallbackNode<T>>,
        seen: ChannelRegistry,
        added: Vec<CallbackNode<T>>,
        after: ChannelRegistry,
    |
        {
            &&& #[trigger] builder.build_steps@[j].inner.adds(existing, seen, Ok(added), after)
            &&& start.len() <= existing.len()
            &&& existing.len() + added@.len() <= before.len()
            &&& before.take(existing.len() as int) == existing
            &&& before.subrange(existing.len() as int, (existing.len() + added@.len()) as int) == added@
        };
    assert forall|n: int| 0 <= n < existing.len() implies (#[trigger] existing[n]).name
        == nodes[n].name && existing[n].callback == nodes[n].callback by {
        assert(before.take(existing.len() as int)[n] == before[n]);
    }
    let counts = crate::task_graph_builder::own_counts(builder.pools@);
    lemma_graph_nodes_at(builder.pools@, m, m);
    assert forall|n: int| 0 <= n < added@.len() implies exists|i: int|
        0 <= i < pools[0].nodes.nodes@.len() && (#[trigger] pools[0].nodes.nodes@[i]).node.callback
            == (#[trigger] added@[n]).callback && pools[0].nodes.nodes@[i].node.name
            == added@[n].name && pools[0].nodes.nodes@[i].node.subscribers == added@[n].subscribers
            && pools[0].nodes.nodes@[i].node.publishers == added@[n].publishers by {
        let at = existing.len() + n;
        assert(before.subrange(existing.len() as int, (existing.len() + added@.len()) as int)[n]
            == before[at]);
        assert(crate::connect::same_but_ports(placed[at], nodes[at]));
        if m == 0 {
            assert(pools[0].nodes.holds(placed));
            assert(pools[0].nodes.nodes@[at].node == placed[at]);
        } else {
            let part = crate::graph_pools::pool_part(placed, counts, 0);
            crate::graph_pools::lemma_count_sum(counts, 0, 1);
            crate::graph_pools::lemma_count_sum(counts, 1, counts.len() as int);
            let own = crate::graph_pools::count_sum(counts, 1)
                - crate::graph_pools::count_sum(counts, 0);
            let i = own + (at - start.len());
            assert(crate::graph_pools::count_sum(counts, counts.len() as int) == start.len());
            assert(pools[0].nodes.holds(part));
            assert(part[i] == placed[at]);
            assert(pools[0].nodes.nodes@[i].node == placed[at]);
        }
    }
}

/// A graph is not built where an output and an input of one channel differ in
/// their payload type; where it is, they agree.
pub proof fn law_built_channels_agree_on_their_type<T>(
    nodes: Seq<CallbackNode<T>>,
    a: int,
    b: int,
    pi: int,
    si: int,
)
    requires
        !crate::task_builder::mismatched(nodes),
        0 <= a < nodes.len(),
        0 <= b < nodes.len(),
        0 <= pi < nodes[a].publishers@.len(),
        0 <= si < nodes[b].subscribers@.len(),
        nodes[a].publishers@[pi].config.channel_name@
            == nodes[b].subscribers@[si].config.channel_name@,
    ensures
        nodes[a].publishers@[pi].value_type == nodes[b].subscribers@[si].value_type,
{
    assert(!crate::connect_graph::mismatch(nodes, a, b, pi, si));
}

proof fn lemma_matched_connection(
    subscribers: Seq<crate::subscriber::Subscriber>,
    name: Seq<char>,
    k: int,
)
    requires
        0 <= k <= subscribers.len() <= usize::MAX,
    ensures
        forall|s: int|
            0 <= s < k && (#[trigger] subscribers[s]).config.channel_name@ == name ==> exists|c: int|
                0 <= c < crate::connect_graph::matched(subscribers, name, k).len() && (#[trigger]
                crate::connect_graph::matched(subscribers, name, k)[c]).subscriber == s,
        forall|c: int|
            0 <= c < crate::connect_graph::matched(subscribers, name, k).len() ==> {
                let link = #[trigger] crate::connect_graph::matched(subscribers, name, k)[c];
                &&& link.subscriber < k
                &&& subscribers[link.subscriber as int].config.channel_name@ == name
                &&& link.readiness == subscribers[link.subscriber as int].readiness_state
            },
        forall|c: int, d: int|
            0 <= c < d < crate::connect_graph::matched(subscribers, name, k).len() ==> (#[trigger]
            crate::connect_graph::matched(subscribers, name, k)[c]).subscriber < (#[trigger]
            crate::connect_graph::matched(subscribers, name, k)[d]).subscriber,
    decreases k,
{
    if k > 0 {
        lemma_matched_connection(subscribers, name, k - 1);
        let all = crate::connect_graph::matched(subscribers, name, k);
        let rest = crate::connect_graph::matched(subscribers, name, k - 1);
        assert forall|s: int|
            0 <= s < k && (#[trigger] subscribers[s]).config.channel_name@ == name implies exists|
            c: int,
        | 0 <= c < all.len() && (#[trigger] all[c]).subscriber == s by {
            if s < k - 1 {
                let c = choose|c: int| 0 <= c < rest.len() && (#[trigger] rest[c]).subscriber == s;
                assert(all[c].subscriber == s);
            } else {
                assert(all[all.len() - 1].subscriber == s);
            }
        }
        assert forall|c: int| 0 <= c < all.len() implies ({
            let link = #[trigger] all[c];
            &&& link.subscriber < k
            &&& subscribers[link.subscriber as int].config.channel_name@ == name
            &&& link.readiness == subscribers[link.subscriber as int].readiness_state
        }) by {
            if c < rest.len() {
                assert(all[c] == rest[c]);
            }
        }
        assert forall|c: int, d: int| 0 <= c < d < all.len() implies (#[trigger] all[c]).subscriber
            < (#[trigger] all[d]).subscriber by {
            assert(all[c] == rest[c]);
            if d < rest.len() {
                assert(all[d] == rest[d]);
            }
        }
    }
}

/// In a connected graph every output is connected to every input of its channel,
/// once, and to nothing else. The ports are the ones that the nodes asked for,
/// and nothing has been sent or received yet.
pub proof fn law_outputs_reach_the_inputs_of_their_channel<T>(
    system: PubSub<T>,
    nodes: Seq<CallbackNode<T>>,
    a: int,
    b: int,
    pi: int,
    si: int,
)
    requires
        crate::connect_graph::connected(system, nodes),
        0 <= a < nodes.len(),
        0 <= b < nodes.len(),
        0 <= pi < nodes[a].publishers@.len(),
        0 <= si < nodes[b].subscribers@.len(),
    ensures
        ({
            let p = nodes[a].ports.first_publisher + pi;
            let s = nodes[b].ports.first_subscriber + si;
            let output = system.publishers@[p];
            let input = system.subscribers@[s];
            &&& p < system.publishers@.len()
            &&& s < system.subscribers@.len()
            &&& nodes[a].ports.publisher_count == nodes[a].publishers@.len()
            &&& nodes[b].ports.subscriber_count == nodes[b].subscribers@.len()
            &&& output.config == nodes[a].publishers@[pi].config
            &&& output.value_type == nodes[a].publishers@[pi].value_type
            &&& output.loaned_values@.len() == 0
            &&& input.config == nodes[b].subscribers@[si].config
            &&& input.value_type == nodes[b].subscribers@[si].value_type
            &&& input.buffers.pending().len() == 0
            &&& input.buffers.readable().len() == 0
            &&& output.config.channel_name@ == input.config.channel_name@ <==> exists|c: int|
                0 <= c < output.connections@.len() && (#[trigger] output.connections@[c]).subscriber
                    == s
            &&& forall|c: int|
                0 <= c < output.connections@.len() && (#[trigger]
                output.connections@[c]).subscriber == s ==> output.connections@[c].readiness
                    == input.readiness_state
            &&& forall|c: int, d: int|
                0 <= c < d < output.connections@.len() ==> (#[trigger]
                output.connections@[c]).subscriber != (#[trigger]
                output.connections@[d]).subscriber
        }),
{
    let n = nodes.len() as int;
    assert(crate::connect::node_stands(
        system,
        nodes[a],
        crate::connect::subscriber_offset(nodes, a),
        crate::connect::publisher_offset(nodes, a),
        a,
    ));
    assert(crate::connect::node_stands(
        system,
        nodes[b],
        crate::connect::subscriber_offset(nodes, b),
        crate::connect::publisher_offset(nodes, b),
        b,
    ));
    let p = nodes[a].ports.first_publisher + pi;
    let s = nodes[b].ports.first_subscriber + si;
    assert(crate::connect::is_output(system.publishers@[p], nodes[a].publishers@[pi]));
    assert(crate::connect::is_input(
        system.subscribers@[s],
        nodes[b].subscribers@[si],
        crate::connect::role_of(nodes[b].subscribers@, si, b),
    ));
    assert(crate::connect_graph::ready_to_publish(
        system.publishers@[p],
        system.subscribers@,
        nodes,
    ));
    assert(system.subscribers.len() == system.subscribers@.len());
    let name = system.publishers@[p].config.channel_name@;
    lemma_matched_connection(system.subscribers@, name, system.subscribers@.len() as int);
    if system.subscribers@[s].config.channel_name@ == name {
        let all = crate::connect_graph::matched(
            system.subscribers@,
            name,
            system.subscribers@.len() as int,
        );
        let c = choose|c: int| 0 <= c < all.len() && (#[trigger] all[c]).subscriber == s;
        assert(system.publishers@[p].connections@[c].subscriber == s);
    }
}

/// Each port of a connected graph has a number of its own.
pub proof fn law_ports_have_their_own_numbers<T>(
    system: PubSub<T>,
    nodes: Seq<CallbackNode<T>>,
    a: int,
    b: int,
)
    requires
        crate::connect_graph::connected(system, nodes),
        0 <= a < b < nodes.len(),
    ensures
        nodes[a].ports.first_subscriber + nodes[a].subscribers@.len()
            <= nodes[b].ports.first_subscriber,
        nodes[a].ports.first_publisher + nodes[a].publishers@.len()
            <= nodes[b].ports.first_publisher,
        nodes[a].ports.readiness != nodes[b].ports.readiness,
{
    assert(crate::connect::node_stands(
        system,
        nodes[a],
        crate::connect::subscriber_offset(nodes, a),
        crate::connect::publisher_offset(nodes, a),
        a,
    ));
    assert(crate::connect::node_stands(
        system,
        nodes[b],
        crate::connect::subscriber_offset(nodes, b),
        crate::connect::publisher_offset(nodes, b),
        b,
    ));
    crate::connect::lemma_offsets_ordered(nodes, a, b);
}

proof fn lemma_gating_before(
    ports: Seq<crate::callback::SubscriberPort>,
    i: int,
    j: int,
)
    requires
        0 <= i <= j <= ports.len(),
    ensures
        crate::callback::gating_count(ports.take(i)) <= crate::callback::gating_count(
            ports.take(j),
        ),
        i < j && ports[i].config.is_trigger && !ports[i].config.is_optional
            ==> crate::callback::gating_count(ports.take(i)) < crate::callback::gating_count(
            ports.take(j),
        ),
    decreases j,
{
    if i < j {
        assert(ports.take(j).drop_last() =~= ports.take(j - 1));
        assert(ports.take(j).last() == ports[j - 1]);
        lemma_gating_before(ports, i, j - 1);
    }
}

/// Each required trigger input of a node has a readiness bit of its own, which is
/// not set at first; an optional trigger announces its node without one, and no
/// other input does anything for the readiness. A bit that belongs to no input is
/// set.
pub proof fn law_required_triggers_gate_their_node<T>(
    system: PubSub<T>,
    nodes: Seq<CallbackNode<T>>,
    n: int,
)
    requires
        crate::connect_graph::connected(system, nodes),
        0 <= n < nodes.len(),
        nodes[n].wf(),
    ensures
        ({
            let ports = nodes[n].subscribers@;
            let first = nodes[n].ports.first_subscriber as int;
            let mask = system.readiness@[nodes[n].ports.readiness as int].bitmask;
            &&& forall|i: int|
                0 <= i < ports.len() ==> match (#[trigger]
                system.subscribers@[first + i]).readiness_state {
                    Some(SubscriberReadiness::Gating(node, bit)) => {
                        &&& ports[i].config.is_trigger && !ports[i].config.is_optional
                        &&& node == nodes[n].ports.readiness
                        &&& bit < usize::BITS
                        &&& !crate::readiness::bit_is_set(mask, bit)
                    },
                    Some(SubscriberReadiness::OptionalTrigger(node)) => {
                        &&& ports[i].config.is_trigger && ports[i].config.is_optional
                        &&& node == nodes[n].ports.readiness
                    },
                    None => !ports[i].config.is_trigger,
                }
            &&& forall|i: int, j: int|
                0 <= i < j < ports.len() && ports[i].config.is_trigger
                    && !ports[i].config.is_optional && ports[j].config.is_trigger
                    && !ports[j].config.is_optional ==> (#[trigger]
                system.subscribers@[first + i]).readiness_state != (#[trigger]
                system.subscribers@[first + j]).readiness_state
        }),
{
    let ports = nodes[n].subscribers@;
    let first = nodes[n].ports.first_subscriber as int;
    assert(crate::connect::node_stands(
        system,
        nodes[n],
        crate::connect::subscriber_offset(nodes, n),
        crate::connect::publisher_offset(nodes, n),
        n,
    ));
    assert(ports.take(ports.len() as int) =~= ports);
    assert(crate::callback::gating_count(ports) <= usize::BITS);
    assert forall|i: int| 0 <= i < ports.len() implies match (#[trigger]
    system.subscribers@[first + i]).readiness_state {
        Some(SubscriberReadiness::Gating(node, bit)) => {
            &&& ports[i].config.is_trigger && !ports[i].config.is_optional
            &&& node == nodes[n].ports.readiness
            &&& bit < usize::BITS
            &&& !crate::readiness::bit_is_set(
                system.readiness@[nodes[n].ports.readiness as int].bitmask,
                bit,
            )
        },
        Some(SubscriberReadiness::OptionalTrigger(node)) => {
            &&& ports[i].config.is_trigger && ports[i].config.is_optional
            &&& node == nodes[n].ports.readiness
        },
        None => !ports[i].config.is_trigger,
    } by {
        assert(crate::connect::is_input(
            system.subscribers@[first + i],
            ports[i],
            crate::connect::role_of(ports, i, n),
        ));
        lemma_gating_before(ports, i, ports.len() as int);
    }
    assert forall|i: int, j: int|
        0 <= i < j < ports.len() && ports[i].config.is_trigger && !ports[i].config.is_optional
            && ports[j].config.is_trigger && !ports[j].config.is_optional implies (#[trigger]
    system.subscribers@[first + i]).readiness_state != (#[trigger]
    system.subscribers@[first + j]).readiness_state by {
        assert(crate::connect::is_input(
            system.subscribers@[first + i],
            ports[i],
            crate::connect::role_of(ports, i, n),
        ));
        assert(crate::connect::is_input(
            system.subscribers@[first + j],
            ports[j],
            crate::connect::role_of(ports, j, n),
        ));
        lemma_gating_before(ports, i, j);
        lemma_gating_before(ports, j, ports.len() as int);
    }
}

/// Naming the channels of the inputs and outputs gives each port, in order, its
/// name and changes nothing else of it; with another number of names than ports
/// no port changes, and building fails with both numbers.
pub proof fn law_channels_are_named_in_order<T>(
    builder: CallbackBuilder<T>,
    inputs: CallbackBuilder<T>,
    outputs: CallbackBuilder<T>,
    names: Seq<&str>,
)
    requires
        builder.first_error is None,
        names.len() <= usize::MAX,
        builder.names_subscribers(inputs, names),
        builder.names_publishers(outputs, names),
    ensures
        names.len() == builder.subscribers@.len() ==> inputs.first_error is None
            && inputs.subscribers@.len() == names.len() && forall|i: int|
            0 <= i < names.len() ==> (#[trigger] inputs.subscribers@[i]).config.channel_name@
                == names[i]@ && inputs.subscribers@[i].value_type
                == builder.subscribers@[i].value_type && inputs.subscribers@[i].config.capacity
                == builder.subscribers@[i].config.capacity
                && inputs.subscribers@[i].config.is_trigger
                == builder.subscribers@[i].config.is_trigger
                && inputs.subscribers@[i].config.is_optional
                == builder.subscribers@[i].config.is_optional
                && inputs.subscribers@[i].config.keep_across_runs
                == builder.subscribers@[i].config.keep_across_runs,
        names.len() != builder.subscribers@.len() ==> inputs.subscribers == builder.subscribers && (
        inputs.error() matches Some(CallbackBuildError::MismatchedSubscriberCount(numbers))
            && numbers.expected == builder.subscribers@.len() && numbers.actual == names.len()),
        names.len() == builder.publishers@.len() ==> outputs.first_error is None
            && outputs.publishers@.len() == names.len() && forall|i: int|
            0 <= i < names.len() ==> (#[trigger] outputs.publishers@[i]).config.channel_name@
                == names[i]@ && outputs.publishers@[i].value_type
                == builder.publishers@[i].value_type && outputs.publishers@[i].config.capacity
                == builder.publishers@[i].config.capacity
                && outputs.publishers@[i].forwarded_channels
                == builder.publishers@[i].forwarded_channels,
        names.len() != builder.publishers@.len() ==> outputs.publishers == builder.publishers && (
        outputs.error() matches Some(CallbackBuildError::MismatchedPublisherCount(numbers))
            && numbers.expected == builder.publishers@.len() && numbers.actual == names.len()),
{
    assert(builder.subscribers.len() == builder.subscribers@.len());
    assert(builder.publishers.len() == builder.publishers@.len());
    if names.len() == builder.subscribers@.len() {
        assert forall|i: int| 0 <= i < names.len() implies (#[trigger]
        inputs.subscribers@[i]).config.channel_name@ == names[i]@
            && crate::callback_builder::same_input_but_name(
            builder.subscribers@[i],
            inputs.subscribers@[i],
        ) by {}
    }
}

/// A node cannot be built without saying how long an execution lasts, and builds
/// where that is said and no step failed.
pub proof fn law_nodes_need_a_duration<T>(builder: CallbackBuilder<T>)
    requires
        builder.first_error is None,
    ensures
        builder.execution_duration_callback is None ==> builder.error() == Some(
            CallbackBuildError::MissingExecutionDurationCallback,
        ),
        builder.execution_duration_callback is Some ==> builder.error() is None
            && builder.node().callback == builder.generic_callback && builder.node().name
            == builder.name && builder.node().subscribers == builder.subscribers
            && builder.node().publishers == builder.publishers
            && builder.node().next_execution_time_callback
            == builder.next_execution_time_callback && builder.node().log_executions
            == builder.log_executions && builder.node().execution_duration_callback
            == builder.execution_duration_callback,
{
}

/// The slots that the readers of a channel need.
proof fn lemma_matched_slots(subscribers: Seq<Subscriber>, name: Seq<char>, k: int)
    requires
        0 <= k <= subscribers.len(),
    ensures
        crate::connect_graph::matched_slots(subscribers, name, k) == subscribers.take(k).filter(
            |subscriber: Subscriber| subscriber.config.channel_name@ == name,
        ).map_values(
            |subscriber: Subscriber| subscriber.config.capacity + subscriber.config.capacity,
        ).fold_left(0, |sum: int, slots: int| sum + slots),
    decreases k,
{
    reveal(Seq::filter);
    let plus = |sum: int, slots: int| sum + slots;
    let chosen = |subscriber: Subscriber| subscriber.config.channel_name@ == name;
    let slots = |subscriber: Subscriber| subscriber.config.capacity + subscriber.config.capacity;
    let all = subscribers.take(k).filter(chosen).map_values(slots);
    if k > 0 {
        lemma_matched_slots(subscribers, name, k - 1);
        let before = subscribers.take(k - 1).filter(chosen).map_values(slots);
        assert(subscribers.take(k).drop_last() =~= subscribers.take(k - 1));
        assert(subscribers.take(k).last() == subscribers[k - 1]);
        if chosen(subscribers[k - 1]) {
            assert(all =~= before.push(slots(subscribers[k - 1])));
            assert(all.drop_last() =~= before);
            assert(all.fold_left(0, plus) == before.fold_left(0, plus) + all.last());
        } else {
            assert(all =~= before);
        }
    }
}

/// An output of a connected graph has a free slot for each message that it can
/// loan, and for each that the readers of its channel can hold in both of their
/// buffers; these count twice where some output forwards the channel.
pub proof fn law_outputs_have_slots_for_their_readers<T>(
    system: PubSub<T>,
    nodes: Seq<CallbackNode<T>>,
    q: int,
)
    requires
        crate::connect_graph::connected(system, nodes),
        0 <= q < system.publishers@.len(),
    ensures
        ({
            let publisher = system.publishers@[q];
            let name = publisher.config.channel_name@;
            let held = system.subscribers@.filter(
                |subscriber: Subscriber| subscriber.config.channel_name@ == name,
            ).map_values(
                |subscriber: Subscriber| subscriber.config.capacity + subscriber.config.capacity,
            ).fold_left(0, |sum: int, slots: int| sum + slots);
            let forwarded = exists|n: int, p: int, k: int|
                0 <= n < nodes.len() && 0 <= p < nodes[n].publishers@.len() && 0 <= k
                    < nodes[n].publishers@[p].forwarded_channels@.len()
                    && #[trigger] nodes[n].publishers@[p].forwarded_channels@[k]@ == name;
            let again = nodes.map_values(
                |node: CallbackNode<T>|
                    node.subscribers@.filter(
                        |port: SubscriberPort| port.config.channel_name@ == name,
                    ).map_values(
                        |port: SubscriberPort| port.config.capacity + port.config.capacity,
                    ).fold_left(0, |sum: int, slots: int| sum + slots),
            ).fold_left(0, |sum: int, slots: int| sum + slots);
            &&& !forwarded ==> publisher.arena.storage@.len() == publisher.config.capacity + held
            &&& forwarded ==> publisher.arena.storage@.len() == publisher.config.capacity + held
                + again
            &&& forall|i: int|
                0 <= i < publisher.arena.storage@.len() ==> (#[trigger]
                publisher.arena.storage@[i]).ref_count == 0
        }),
{
    let publisher = system.publishers@[q];
    let name = publisher.config.channel_name@;
    let n = system.subscribers@.len() as int;
    assert(crate::connect_graph::ready_to_publish(publisher, system.subscribers@, nodes));
    lemma_matched_slots(system.subscribers@, name, n);
    assert(system.subscribers@.take(n) =~= system.subscribers@);
    crate::task_laws::law_forwarded_channels_need_all_their_inputs(nodes, name);
}

/// Every shared-memory endpoint that was declared for a graph is among its
/// endpoints.
pub proof fn law_declared_endpoints_are_endpoints<T>(
    builder: TaskGraphBuilder<T>,
    nodes: Seq<CallbackNode<T>>,
    j: int,
) -> (i: int)
    requires
        0 <= j < builder.iox2_endpoints@.len(),
    ensures
        0 <= i < builder.endpoints(nodes).len(),
        builder.endpoints(nodes)[i] == builder.iox2_endpoints@[j],
{
    let native = crate::iox2::all_native_endpoints(nodes, nodes.len() as int);
    assert(builder.endpoints(nodes)[native.len() + j] == builder.iox2_endpoints@[j]);
    native.len() + j
}

/// Every input and output of every node of a graph is among its endpoints.
pub proof fn law_native_ports_are_endpoints<T>(
    builder: TaskGraphBuilder<T>,
    nodes: Seq<CallbackNode<T>>,
    n: int,
    s: int,
    p: int,
) -> (r: (int, int))
    requires
        0 <= n < nodes.len(),
    ensures
        0 <= s < nodes[n].subscribers@.len() ==> {
            &&& 0 <= r.0 < builder.endpoints(nodes).len()
            &&& builder.endpoints(nodes)[r.0].channel@
                == nodes[n].subscribers@[s].config.channel_name@
            &&& builder.endpoints(nodes)[r.0].kind is NativeSub
        },
        0 <= p < nodes[n].publishers@.len() ==> {
            &&& 0 <= r.1 < builder.endpoints(nodes).len()
            &&& builder.endpoints(nodes)[r.1].channel@
                == nodes[n].publishers@[p].config.channel_name@
            &&& builder.endpoints(nodes)[r.1].kind is NativePub
        },
{
    let native = crate::iox2::all_native_endpoints(nodes, nodes.len() as int);
    let a = if 0 <= s < nodes[n].subscribers@.len() {
        crate::iox2_laws::law_native_inputs_are_endpoints(nodes, nodes.len() as int, n, s)
    } else {
        0
    };
    let b = if 0 <= p < nodes[n].publishers@.len() {
        crate::iox2_laws::law_native_outputs_are_endpoints(nodes, nodes.len() as int, n, p)
    } else {
        0
    };
    if 0 <= s < nodes[n].subscribers@.len() {
        assert(builder.endpoints(nodes)[a] == native[a]);
    }
    if 0 <= p < nodes[n].publishers@.len() {
        assert(builder.endpoints(nodes)[b] == native[b]);
    }
    (a, b)
}

/// A pool has the threads that it was given. Nodes that were given no pool go to
/// one pool with one thread, and without nodes there is no pool.
pub proof fn law_pools_keep_their_threads<T>(
    builders: Seq<PoolBuilder<T>>,
    placed: Seq<CallbackNode<T>>,
    pools: Seq<ThreadPoolConfig<T>>,
)
    requires
        crate::task_graph_builder::distributed(builders, placed, pools),
    ensures
        placed.len() == 0 ==> pools.len() == 0,
        placed.len() > 0 && builders.len() > 0 ==> pools.len() == builders.len() && forall|k: int|
            0 <= k < pools.len() ==> (#[trigger] pools[k]).thread_count == builders[k].thread_count,
        placed.len() > 0 && builders.len() == 0 ==> {
            &&& pools.len() == 1
            &&& pools[0].thread_count == 1
            &&& pools[0].nodes.nodes@.len() == placed.len()
            &&& forall|i: int|
                0 <= i < placed.len() ==> (#[trigger] pools[0].nodes.nodes@[i]).node == placed[i]
        },
{
}

/// A graph of one pool has every node in that pool, with the threads that were
/// asked for, and uses no shared memory.
pub proof fn law_single_pool_has_every_node<T>(
    built: BuiltTaskGraph<T>,
    placed: Seq<CallbackNode<T>>,
    thread_count: usize,
    i: int,
)
    requires
        crate::single_pool::is_graph_of(built, placed, thread_count),
        0 <= i < placed.len(),
    ensures
        built.pools@.len() == 1,
        built.pools@[0].thread_count == thread_count,
        built.pools@[0].nodes.nodes@.len() == placed.len(),
        built.pools@[0].nodes.nodes@[i].node == placed[i],
        built.iox2_context is None,
{
    assert(built.pools@[0].nodes.holds(placed));
}

} // verus!
