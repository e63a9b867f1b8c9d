//! Graphs of one pool, without build steps: what comes of building one depends
//! on its nodes alone.
use vstd::prelude::*;

use crate::callback::CallbackNode;
use crate::task_graph_builder::{
    BuiltTaskGraph, PoolBuilder, TaskGraphBuildError, TaskGraphBuilder,
};

verus! {

/// Whether the sizes of a graph of these nodes fit machine words.
pub open spec fn nodes_fit<T>(nodes: Seq<CallbackNode<T>>) -> bool {
    &&& crate::connect_graph::sizes_fit(nodes)
    &&& 1 + 2 * crate::connect::buffered_total(nodes) <= usize::MAX
    &&& crate::graph_pools::port_total(nodes) <= u32::MAX
    &&& nodes.len() <= u32::MAX
}

/// Whether the nodes cannot be built into a graph with that many threads.
pub open spec fn refused<T>(nodes: Seq<CallbackNode<T>>, thread_count: usize) -> bool {
    ||| crate::task_builder::mismatched(nodes)
    ||| thread_count > 0 && crate::task_graph_builder::has_log_mismatch(nodes)
}

/// Whether node `n` is the first with an input that listens to the execution-log
/// channel for another payload type.
pub open spec fn first_other_log<T>(nodes: Seq<CallbackNode<T>>, n: int) -> bool {
    &&& 0 <= n < nodes.len()
    &&& crate::task_graph_builder::hears_other_logs(nodes[n])
    &&& forall|m: int|
        0 <= m < n ==> !crate::task_graph_builder::hears_other_logs(#[trigger] nodes[m])
}

/// Whether `error` says why the nodes cannot be built into a graph.
pub open spec fn explains<T>(error: TaskGraphBuildError, nodes: Seq<CallbackNode<T>>) -> bool {
    if crate::task_builder::mismatched(nodes) {
        &&& error is ConnectionError
        &&& crate::connect_graph::reports_first_mismatch(error->ConnectionError_0, nodes)
    } else {
        exists|n: int| #[trigger]
            first_other_log(nodes, n) && crate::task_graph_builder::reports_log_mismatch(
                error,
                nodes[n],
            )
    }
}

/// Whether `built` is the graph of the connected nodes `placed`.
pub open spec fn is_graph_of<T>(
    built: BuiltTaskGraph<T>,
    placed: Seq<CallbackNode<T>>,
    thread_count: usize,
) -> bool {
    &&& crate::task_graph_builder::wired(
        built.system,
        placed,
        built.execution_log_publishers@,
    )
    &&& built.pools@.len() == if placed.len() == 0 {
        0nat
    } else {
        1nat
    }
    &&& placed.len() > 0 ==> built.pools@[0].thread_count == thread_count
        && built.pools@[0].nodes.holds(placed)
    &&& built.iox2_context is None
}

/// A first mismatch is one wherever the ports stand.
proof fn lemma_same_report<T>(
    nodes: Seq<CallbackNode<T>>,
    placed: Seq<CallbackNode<T>>,
    error: crate::connect::MismatchTypeError,
)
    requires
        crate::task_builder::all_same_but_ports(nodes, placed),
        crate::connect_graph::reports_first_mismatch(error, placed),
    ensures
        crate::connect_graph::reports_first_mismatch(error, nodes),
{
    crate::task_graph_builder::lemma_same_mismatches(nodes, placed);
    let (ci, oi, pi, si) = choose|ci: int, oi: int, pi: int, si: int| #[trigger]
        crate::connect_graph::mismatch(placed, ci, oi, pi, si) && error.channel_name@
            == placed[ci].publishers@[pi].config.channel_name@ && error.publisher_callback_node@
            == placed[ci].name@ && error.subscriber_callback_node@ == placed[oi].name@
            && crate::connect_graph::no_mismatch_before(placed, (ci, oi, pi, si));
    assert(crate::connect::same_but_ports(placed[ci], nodes[ci]));
    assert(crate::connect::same_but_ports(placed[oi], nodes[oi]));
    assert(crate::connect_graph::mismatch(nodes, ci, oi, pi, si));
    assert(crate::connect_graph::no_mismatch_before(nodes, (ci, oi, pi, si)));
}

/// Builds a graph of one pool from the nodes.
pub fn build_single_pool<T>(nodes: Vec<CallbackNode<T>>, thread_count: usize) -> (r: Result<
    BuiltTaskGraph<T>,
    TaskGraphBuildError,
>)
    requires
        crate::task_builder::all_wf(nodes@),
        nodes_fit(nodes@),
    ensures
        r is Err <==> refused(nodes@, thread_count),
        r is Err ==> explains(r->Err_0, nodes@),
        r is Ok ==> exists|placed: Seq<CallbackNode<T>>| #[trigger]
            crate::task_builder::all_same_but_ports(nodes@, placed) && is_graph_of(
                r->Ok_0,
                placed,
                thread_count,
            ),
{
    let ghost all = nodes@;
    assert(nodes.len() == nodes@.len());
    let mut builder: TaskGraphBuilder<T> = TaskGraphBuilder::new();
    let mut pool: PoolBuilder<T> = PoolBuilder::new(thread_count);
    pool.callbacks = nodes;
    let ghost the_pool = pool;
    builder.pools.push(pool);
    let ghost this = builder;
    proof {
        assert(builder.pools@ =~= seq![the_pool]);
        assert(the_pool.nodes() =~= all);
        reveal_with_fuel(crate::task_graph_builder::graph_nodes, 2);
        reveal_with_fuel(crate::task_graph_builder::thread_sum, 2);
        assert(crate::task_graph_builder::graph_nodes(this.pools@, 1) =~= all);
        assert forall|found: Seq<CallbackNode<T>>| #[trigger] this.may_connect(found) implies found
            == all by {
            let (before, known) = choose|
                before: Seq<CallbackNode<T>>,
                known: crate::channel_registry::ChannelRegistry,
            | #[trigger]
                this.may_reach(before, known) && found == crate::task_graph_builder::leveled(
                    before,
                    this.execution_log_level_override,
                );
            assert(before == all);
        }
    }
    let r = builder.build();
    proof {
        crate::iox2::lemma_native_endpoints(all, all.len() as int);
        assert(this.endpoints(all) =~= crate::iox2::all_native_endpoints(all, all.len() as int));
        assert(!this.conflicting(all));
        assert(!crate::iox2::uses_iox2(this.endpoints(all)));
        if r is Err {
            if r->Err_0 is ConnectionError {
                let (found, placed) = choose|
                    found: Seq<CallbackNode<T>>,
                    placed: Seq<CallbackNode<T>>,
                |
                    #![trigger this.may_connect(found), crate::task_builder::all_same_but_ports(found, placed)]
                    this.may_connect(found) && crate::task_builder::all_same_but_ports(
                        found,
                        placed,
                    ) && crate::task_builder::mismatched(placed)
                        && crate::connect_graph::reports_first_mismatch(
                        r->Err_0->ConnectionError_0,
                        placed,
                    );
                lemma_same_report(all, placed, r->Err_0->ConnectionError_0);
            } else {
                assert(r->Err_0 is ExecutionLogError);
                let (found, k, i) = choose|found: Seq<CallbackNode<T>>, k: int, i: int|
                    #![trigger this.may_connect(found), crate::task_graph_builder::first_log_mismatch(this.pools@, found, k, i)]
                    this.may_connect(found) && crate::task_graph_builder::first_log_mismatch(
                        this.pools@,
                        found,
                        k,
                        i,
                    ) && crate::task_graph_builder::reports_log_mismatch(
                        r->Err_0,
                        crate::graph_pools::pool_part(
                            found,
                            crate::task_graph_builder::own_counts(this.pools@),
                            k,
                        )[i],
                    ) && !crate::task_builder::mismatched(found);
                let counts = crate::task_graph_builder::own_counts(this.pools@);
                assert(counts =~= seq![all.len() as usize]);
                reveal_with_fuel(crate::graph_pools::count_sum, 2);
                assert(crate::graph_pools::pool_part(all, counts, 0) =~= all);
                assert(first_other_log(all, i));
                let j = choose|j: int|
                    0 <= j < all[i].subscribers@.len() && (#[trigger]
                    all[i].subscribers@[j]).config.channel_name@
                        == crate::execution_log::EXECUTION_LOG_CHANNEL@
                        && all[i].subscribers@[j].value_type
                        != crate::channel_registry::EXECUTION_LOG_VALUE_TYPE;
                assert(crate::task_graph_builder::is_log_mismatch(all, i, j));
            }
        } else {
            let (found, placed) = choose|
                found: Seq<CallbackNode<T>>,
                placed: Seq<CallbackNode<T>>,
            |
                #![trigger this.may_connect(found), crate::task_builder::all_same_but_ports(found, placed)]
                this.may_connect(found) && crate::task_builder::all_same_but_ports(found, placed)
                    && !crate::task_builder::mismatched(placed)
                    && (crate::task_graph_builder::thread_sum(
                    this.pools@,
                    this.pools@.len() as int,
                ) == 0 || !crate::task_graph_builder::has_log_mismatch(placed))
                    && crate::task_graph_builder::distributed(
                    this.pools@,
                    placed,
                    r->Ok_0.pools@,
                ) && crate::task_graph_builder::wired(
                    r->Ok_0.system,
                    placed,
                    r->Ok_0.execution_log_publishers@,
                ) && crate::iox2::is_context_of(
                    r->Ok_0.iox2_context,
                    this.iox2_config,
                    this.endpoints(found),
                );
            crate::task_graph_builder::lemma_same_mismatches(all, placed);
            let counts = crate::task_graph_builder::own_counts(this.pools@);
            assert(counts =~= seq![all.len() as usize]);
            reveal_with_fuel(crate::graph_pools::count_sum, 2);
            assert(crate::graph_pools::pool_part(placed, counts, 0) =~= placed);
            assert(is_graph_of(r->Ok_0, placed, thread_count));
        }
    }
    r
}

} // verus!
