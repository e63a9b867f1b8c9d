//! Building a graph of callback nodes, pool by pool.
use vstd::prelude::*;

use crate::callback::CallbackNode;
use crate::callback_builder::{CallbackBuildError, CallbackBuilder};
use crate::callback_storage::CallbackStorage;
use crate::channel_registry::{ChannelRegistry, EXECUTION_LOG_VALUE_TYPE};
use crate::connect::MismatchTypeError;
use crate::execution_log::ExecutionLogConnectError;
use crate::executor::ThreadPoolConfig;
use crate::iox2::{Iox2Context, Iox2GraphConfig};
use crate::pub_sub::PubSub;
use crate::pub_sub_factory::Iox2EndpointInfo;
use crate::string_interner::{CallbackNameTag, ChannelNameTag, StringInterner};

verus! {

/// Error hit while building a graph.
#[allow(inconsistent_fields)]
#[derive(Debug)]
pub enum TaskGraphBuildError {
    /// Error hit during callback node connection.
    ConnectionError(MismatchTypeError),
    /// Error hit during a graph build step.
    BuildStepError {
        /// Name of the build step that failed.
        step_name: String,
        /// The error returned by the build step.
        error: String,
    },
    /// Error hit building a callback node from a queued builder.
    CallbackBuildError {
        /// Name of the callback node that failed to build.
        callback_name: String,
        /// The error returned by the builder.
        error: CallbackBuildError,
    },
    /// Error during execution-log wiring.
    ExecutionLogError(ExecutionLogConnectError),
    /// Native and shared-memory endpoints share a channel.
    MixedTransport { channel: String },
    /// Data endpoints of one channel differ in their payload type.
    MixedPayloadType { channel: String },
    /// A channel's name, with the graph's prefix, is no service name.
    InvalidServiceName { channel: String, reason: String },
    /// A channel's service could not be opened.
    Iox2ServiceOpen { channel: String, source: String },
    /// The graph's node could not be created.
    Iox2NodeCreation { source: String },
}

impl TaskGraphBuildError {
    /// The error as a message.
    pub open spec fn text(self) -> Seq<char> {
        match self {
            TaskGraphBuildError::ConnectionError(e) => "Callback node '"@
                + e.publisher_callback_node@ + "' publishes on '"@ + e.channel_name@
                + "' but subscriber callback node '"@ + e.subscriber_callback_node@
                + "' has a different type for that channel"@,
            TaskGraphBuildError::BuildStepError { step_name, error } => "Build step '"@ + step_name@
                + "' failed with "@ + error@,
            TaskGraphBuildError::CallbackBuildError { callback_name, error } => "Callback node '"@
                + callback_name@ + "' build failed with "@ + error.text(),
            TaskGraphBuildError::ExecutionLogError(e) => "Execution log wiring failed: "@
                + e.text(),
            TaskGraphBuildError::MixedTransport { channel } =>
            "channel "@ + channel@ + " mixes transports: its endpoints are native and iox2"@,
            TaskGraphBuildError::MixedPayloadType { channel } =>
            "iox2 endpoints disagree on the payload type of channel "@ + channel@,
            TaskGraphBuildError::InvalidServiceName { channel, reason } =>
            "no iox2 service name for channel "@ + channel@ + ": "@ + reason@,
            TaskGraphBuildError::Iox2ServiceOpen { channel, source } =>
            "iox2 service open failed for channel "@ + channel@ + ": "@ + source@,
            TaskGraphBuildError::Iox2NodeCreation { source } => "iox2 node creation failed: "@
                + source@,
        }
    }

    pub fn to_string(&self) -> (r: String)
        ensures
            r@ == self.text(),
    {
        match self {
            TaskGraphBuildError::ConnectionError(e) => e.to_string(),
            TaskGraphBuildError::BuildStepError { step_name, error } => joined(
                "Build step '",
                step_name.as_str(),
                "' failed with ",
                error.as_str(),
            ),
            TaskGraphBuildError::CallbackBuildError { callback_name, error } => joined(
                "Callback node '",
                callback_name.as_str(),
                "' build failed with ",
                error.to_string().as_str(),
            ),
            TaskGraphBuildError::ExecutionLogError(e) => {
                let mut text = "Execution log wiring failed: ".to_owned();
                text.append(e.to_string().as_str());
                text
            },
            TaskGraphBuildError::MixedTransport { channel } => {
                let mut text = "channel ".to_owned();
                text.append(channel.as_str());
                text.append(" mixes transports: its endpoints are native and iox2");
                text
            },
            TaskGraphBuildError::MixedPayloadType { channel } => {
                let mut text = "iox2 endpoints disagree on the payload type of channel ".to_owned();
                text.append(channel.as_str());
                text
            },
            TaskGraphBuildError::InvalidServiceName { channel, reason } => joined(
                "no iox2 service name for channel ",
                channel.as_str(),
                ": ",
                reason.as_str(),
            ),
            TaskGraphBuildError::Iox2ServiceOpen { channel, source } => joined(
                "iox2 service open failed for channel ",
                channel.as_str(),
                ": ",
                source.as_str(),
            ),
            TaskGraphBuildError::Iox2NodeCreation { source } => {
                let mut text = "iox2 node creation failed: ".to_owned();
                text.append(source.as_str());
                text
            },
        }
    }
}

fn joined(a: &str, b: &str, c: &str, d: &str) -> (r: String)
    ensures
        r@ == a@ + b@ + c@ + d@,
{
    let mut text = a.to_owned();
    text.append(b);
    text.append(c);
    text.append(d);
    text
}

/// Allows for introspection on the entire set of callback nodes so that new
/// ones can be added that are derived from the existing ones. Steps are run in
/// the order in which they were added, and a given step can be run several
/// times.
pub trait TaskGraphBuildStep<T> {
    /// Which names the step may go by.
    open spec fn is_named(&self, name: Seq<char>) -> bool {
        true
    }

    /// What the step may answer, and make of the registry. A step that promises
    /// nothing more leaves it open.
    open spec fn adds(
        &self,
        existing: Seq<CallbackNode<T>>,
        before: ChannelRegistry,
        r: Result<Vec<CallbackNode<T>>, String>,
        after: ChannelRegistry,
    ) -> bool {
        true
    }

    /// Human-readable name for this build step, used in error messages.
    fn name(&self) -> (r: &str)
        ensures
            self.is_named(r@),
    ;

    /// Exposes access to all existing callback nodes. Allows the step to
    /// return additional callback nodes to add, if desired.
    fn build_step(
        &self,
        nodes: &Vec<CallbackNode<T>>,
        channel_registry: &mut ChannelRegistry,
    ) -> (r: Result<Vec<CallbackNode<T>>, String>)
        requires
            old(channel_registry).wf(),
        ensures
            final(channel_registry).wf(),
            self.adds(nodes@, *old(channel_registry), r, *final(channel_registry)),
            r matches Ok(added) ==> crate::task_builder::all_wf(added@),
    ;
}

/// A graph build step of whatever kind.
#[verifier::reject_recursive_types(T)]
pub struct AnyGraphStep<T> {
    pub inner: Box<dyn TaskGraphBuildStep<T>>,
}

/// Whether the first `k` steps can take the nodes from `start` to `nodes`, and
/// the registry from `first` to `registry`.
pub open spec fn reaches<T>(
    start: Seq<CallbackNode<T>>,
    first: ChannelRegistry,
    steps: Seq<AnyGraphStep<T>>,
    k: int,
    nodes: Seq<CallbackNode<T>>,
    registry: ChannelRegistry,
) -> bool
    decreases k,
{
    if k <= 0 {
        nodes == start && registry == first
    } else {
        exists|
            before: Seq<CallbackNode<T>>,
            known: ChannelRegistry,
            added: Vec<CallbackNode<T>>,
        | #[trigger]
            steps[k - 1].inner.adds(before, known, Ok(added), registry) && reaches(
                start,
                first,
                steps,
                k - 1,
                before,
                known,
            ) && nodes == before + added@
    }
}

/// Whether step `k` can fail, as `error` says.
pub open spec fn step_fails<T>(
    start: Seq<CallbackNode<T>>,
    first: ChannelRegistry,
    steps: Seq<AnyGraphStep<T>>,
    k: int,
    error: TaskGraphBuildError,
) -> bool {
    &&& 0 <= k < steps.len()
    &&& error is BuildStepError
    &&& steps[k].inner.is_named(error->BuildStepError_step_name@)
    &&& exists|
        before: Seq<CallbackNode<T>>,
        known: ChannelRegistry,
        after: ChannelRegistry,
    | #[trigger]
        steps[k].inner.adds(before, known, Err(error->BuildStepError_error), after) && reaches(
            start,
            first,
            steps,
            k,
            before,
            known,
        )
}

/// Accumulates callback nodes that will be assigned to one executor thread
/// pool.
#[verifier::reject_recursive_types(T)]
pub struct PoolBuilder<T> {
    pub thread_count: usize,
    pub callbacks: Vec<CallbackNode<T>>,
    pub pending_builders: Vec<CallbackBuilder<T>>,
}

impl<T> PoolBuilder<T> {
    pub open spec fn wf(&self) -> bool {
        &&& crate::task_builder::all_wf(self.callbacks@)
        &&& forall|b: int|
            0 <= b < self.pending_builders@.len() ==> (#[trigger] self.pending_builders@[b]).wf()
    }

    /// The nodes of the pool: what the builders give, then the callbacks.
    pub open spec fn nodes(&self) -> Seq<CallbackNode<T>> {
        self.pending_builders@.map_values(|builder: CallbackBuilder<T>| builder.node())
            + self.callbacks@
    }

    /// A pool without nodes.
    pub fn new(thread_count: usize) -> (r: Self)
        ensures
            r.wf(),
            r.thread_count == thread_count,
            r.callbacks@.len() == 0,
            r.pending_builders@.len() == 0,
    {
        PoolBuilder { thread_count, callbacks: Vec::new(), pending_builders: Vec::new() }
    }

    pub fn add_callback(self, callback: CallbackNode<T>) -> (r: Self)
        ensures
            r.callbacks@ == self.callbacks@.push(callback),
            r.pending_builders == self.pending_builders,
            r.thread_count == self.thread_count,
    {
        let mut pool = self;
        pool.callbacks.push(callback);
        pool
    }

    pub fn add_callback_builder(self, builder: CallbackBuilder<T>) -> (r: Self)
        ensures
            r.pending_builders@ == self.pending_builders@.push(builder),
            r.callbacks == self.callbacks,
            r.thread_count == self.thread_count,
    {
        let mut pool = self;
        pool.pending_builders.push(builder);
        pool
    }
}

/// The nodes of the first `k` pools, pool after pool.
pub open spec fn graph_nodes<T>(pools: Seq<PoolBuilder<T>>, k: int) -> Seq<CallbackNode<T>>
    decreases k,
{
    if k <= 0 {
        Seq::empty()
    } else {
        graph_nodes(pools, k - 1) + pools[k - 1].nodes()
    }
}

/// The threads of the first `k` pools.
pub open spec fn thread_sum<T>(pools: Seq<PoolBuilder<T>>, k: int) -> int
    decreases k,
{
    if k <= 0 {
        0
    } else {
        thread_sum(pools, k - 1) + pools[k - 1].thread_count
    }
}

/// How many nodes each pool has of its own.
pub open spec fn own_counts<T>(pools: Seq<PoolBuilder<T>>) -> Seq<usize> {
    pools.map_values(|pool: PoolBuilder<T>| pool.nodes().len() as usize)
}

/// Whether builder `b` of pool `k` fails.
pub open spec fn builder_fails<T>(pools: Seq<PoolBuilder<T>>, k: int, b: int) -> bool {
    &&& 0 <= k < pools.len()
    &&& 0 <= b < pools[k].pending_builders@.len()
    &&& pools[k].pending_builders@[b].error() is Some
}

/// Whether builder `b` of pool `k` is the first that fails, and `error` says
/// so.
pub open spec fn first_failure<T>(
    pools: Seq<PoolBuilder<T>>,
    k: int,
    b: int,
    error: TaskGraphBuildError,
) -> bool {
    &&& builder_fails(pools, k, b)
    &&& forall|m: int, c: int| m < k || m == k && c < b ==> !#[trigger] builder_fails(pools, m, c)
    &&& error is CallbackBuildError
    &&& error->CallbackBuildError_callback_name@ == pools[k].pending_builders@[b].name@
    &&& Some(error->CallbackBuildError_error) == pools[k].pending_builders@[b].error()
}

/// The nodes with the log setting that holds for the whole graph, if one does.
pub open spec fn leveled<T>(nodes: Seq<CallbackNode<T>>, level: Option<bool>) -> Seq<
    CallbackNode<T>,
> {
    match level {
        Some(enabled) => nodes.map_values(
            |node: CallbackNode<T>| CallbackNode { log_executions: enabled, ..node },
        ),
        None => nodes,
    }
}

/// Dangling-channel diagnostics.
#[derive(Debug)]
pub struct GraphDebugInfo {
    pub dangling_subscribers: Vec<String>,
    pub dangling_publishers: Vec<String>,
}

#[verifier::reject_recursive_types(T)]
pub struct BuiltTaskGraph<T> {
    pub pools: Vec<ThreadPoolConfig<T>>,
    /// Holds the ports of all nodes and the execution-log publishers.
    pub system: PubSub<T>,
    /// Per-worker execution-log publishers, wired to any execution-log
    /// subscribers found in the graph.
    pub execution_log_publishers: Vec<usize>,
    /// Every loggable channel found across the graph's ports, and the
    /// framework's execution-log channel.
    pub channel_registry: ChannelRegistry,
    /// All channel names found at the end of the graph build.
    pub channel_interner: StringInterner<ChannelNameTag>,
    /// All callback names found at the end of the graph build.
    pub callback_interner: StringInterner<CallbackNameTag>,
    /// Dangling-channel diagnostics, where they were asked for.
    pub debug_info: Option<GraphDebugInfo>,
    /// The settings of the shared-memory channels, if the graph has any.
    pub iox2_context: Option<Iox2Context>,
}

#[verifier::reject_recursive_types(T)]
pub struct TaskGraphBuilder<T> {
    pub pools: Vec<PoolBuilder<T>>,
    pub build_steps: Vec<AnyGraphStep<T>>,
    pub execution_log_level_override: Option<bool>,
    pub channel_registry: ChannelRegistry,
    pub debug_info: bool,
    pub iox2_config: Iox2GraphConfig,
    /// The shared-memory endpoints of the callbacks.
    pub iox2_endpoints: Vec<Iox2EndpointInfo>,
}

/// Whether the pools are the ones that a graph with these nodes gets: none
/// without nodes, one of one thread where no pool was asked for, else those
/// that were asked for, and nodes of build steps go to the first.
pub open spec fn distributed<T>(
    builders: Seq<PoolBuilder<T>>,
    nodes: Seq<CallbackNode<T>>,
    pools: Seq<ThreadPoolConfig<T>>,
) -> bool {
    if nodes.len() == 0 {
        pools.len() == 0
    } else if builders.len() == 0 {
        &&& pools.len() == 1
        &&& pools[0].thread_count == 1
        &&& pools[0].nodes.holds(nodes)
    } else {
        &&& pools.len() == builders.len()
        &&& forall|k: int|
            0 <= k < pools.len() ==> (#[trigger] pools[k]).thread_count
                == builders[k].thread_count && pools[k].nodes.holds(
                crate::graph_pools::pool_part(nodes, own_counts(builders), k),
            )
    }
}

/// Whether `system` holds the connected ports of the nodes and, behind their
/// publishers, the execution-log publishers with the numbers in `log_ids`.
pub open spec fn wired<T>(
    system: PubSub<T>,
    nodes: Seq<CallbackNode<T>>,
    log_ids: Seq<usize>,
) -> bool {
    &&& system.wf()
    &&& exists|graph: PubSub<T>| #[trigger]
        crate::connect_graph::connected(graph, nodes) && extends(system, graph, log_ids)
}

/// Whether `system` is `graph` with the execution-log publishers added.
pub open spec fn extends<T>(system: PubSub<T>, graph: PubSub<T>, log_ids: Seq<usize>) -> bool {
    &&& system.subscribers == graph.subscribers
    &&& system.readiness == graph.readiness
    &&& system.publishers@.len() == graph.publishers@.len() + log_ids.len()
    &&& forall|q: int|
        0 <= q < graph.publishers@.len() ==> #[trigger] system.publishers@[q]
            == graph.publishers@[q]
    &&& log_ids.len() > 0 ==> exists|order: Seq<usize>| #[trigger]
        crate::log_listeners::lists_all(order, system.subscribers@) && logs_ready(
            system,
            graph.publishers@.len() as int,
            log_ids,
            order,
        )
}

/// Whether the execution-log publishers stand from number `first` on, each
/// connected to the subscribers in `order`.
pub open spec fn logs_ready<T>(
    system: PubSub<T>,
    first: int,
    log_ids: Seq<usize>,
    order: Seq<usize>,
) -> bool {
    forall|i: int|
        0 <= i < log_ids.len() ==> #[trigger] log_ids[i] == first + i
            && crate::execution_log::log_ready(
            system.publishers@[log_ids[i] as int],
            system.subscribers@,
            order,
            EXECUTION_LOG_VALUE_TYPE,
        )
}

/// Whether input `i` of node `n` listens to the execution-log channel for
/// another payload type.
pub open spec fn is_log_mismatch<T>(nodes: Seq<CallbackNode<T>>, n: int, i: int) -> bool {
    &&& 0 <= n < nodes.len()
    &&& 0 <= i < nodes[n].subscribers@.len()
    &&& nodes[n].subscribers@[i].config.channel_name@
        == crate::execution_log::EXECUTION_LOG_CHANNEL@
    &&& nodes[n].subscribers@[i].value_type != EXECUTION_LOG_VALUE_TYPE
}

pub open spec fn has_log_mismatch<T>(nodes: Seq<CallbackNode<T>>) -> bool {
    exists|n: int, i: int| #[trigger] is_log_mismatch(nodes, n, i)
}

/// Whether `error` names `node` as the one whose input has the wrong type.
pub open spec fn reports_log_mismatch<T>(error: TaskGraphBuildError, node: CallbackNode<T>) -> bool {
    &&& error is ExecutionLogError
    &&& error->ExecutionLogError_0.channel_name@ == crate::execution_log::EXECUTION_LOG_CHANNEL@
    &&& error->ExecutionLogError_0.subscriber_node@ == node.name@
}

/// Whether an input of the node listens to the execution-log channel for another
/// payload type.
pub open spec fn hears_other_logs<T>(node: CallbackNode<T>) -> bool {
    exists|i: int|
        0 <= i < node.subscribers@.len() && (#[trigger]
        node.subscribers@[i]).config.channel_name@ == crate::execution_log::EXECUTION_LOG_CHANNEL@
            && node.subscribers@[i].value_type != EXECUTION_LOG_VALUE_TYPE
}

/// Whether node `i` of pool `k` is the first with such an input, pool by pool
/// and node by node, once the nodes are distributed over the pools.
pub open spec fn first_log_mismatch<T>(
    pools: Seq<PoolBuilder<T>>,
    nodes: Seq<CallbackNode<T>>,
    k: int,
    i: int,
) -> bool {
    let counts = own_counts(pools);
    &&& 0 <= k < pools.len()
    &&& 0 <= i < crate::graph_pools::pool_part(nodes, counts, k).len()
    &&& hears_other_logs(crate::graph_pools::pool_part(nodes, counts, k)[i])
    &&& forall|a: int, b: int|
        0 <= a <= k && 0 <= b < crate::graph_pools::pool_part(nodes, counts, a).len() && (a < k
            || b < i) ==> !hears_other_logs(
            #[trigger] crate::graph_pools::pool_part(nodes, counts, a)[b],
        )
}

/// Where node `i` of pool `k` stands among all nodes.
spec fn place_of(counts: Seq<usize>, k: int, i: int) -> int {
    let start = crate::graph_pools::count_sum(counts, k);
    let own = crate::graph_pools::count_sum(counts, k + 1) - start;
    if i < own {
        start + i
    } else {
        crate::graph_pools::count_sum(counts, counts.len() as int) + (i - own)
    }
}

proof fn lemma_place<T>(nodes: Seq<CallbackNode<T>>, counts: Seq<usize>, k: int, i: int)
    requires
        0 <= k < counts.len(),
        crate::graph_pools::count_sum(counts, counts.len() as int) <= nodes.len(),
        0 <= i < crate::graph_pools::pool_part(nodes, counts, k).len(),
    ensures
        0 <= place_of(counts, k, i) < nodes.len(),
        crate::graph_pools::pool_part(nodes, counts, k)[i] == nodes[place_of(counts, k, i)],
{
    crate::graph_pools::lemma_count_sum(counts, 0, k);
    crate::graph_pools::lemma_count_sum(counts, k, k + 1);
    crate::graph_pools::lemma_count_sum(counts, k + 1, counts.len() as int);
}

/// How many nodes a pool gets depends on how many there are.
proof fn lemma_part_sizes<T>(
    a: Seq<CallbackNode<T>>,
    b: Seq<CallbackNode<T>>,
    counts: Seq<usize>,
    k: int,
)
    requires
        a.len() == b.len(),
        0 <= k < counts.len(),
        crate::graph_pools::count_sum(counts, counts.len() as int) <= a.len(),
    ensures
        crate::graph_pools::pool_part(a, counts, k).len() == crate::graph_pools::pool_part(
            b,
            counts,
            k,
        ).len(),
{
    crate::graph_pools::lemma_count_sum(counts, 0, k);
    crate::graph_pools::lemma_count_sum(counts, k, k + 1);
    crate::graph_pools::lemma_count_sum(counts, k + 1, counts.len() as int);
}

/// Which node is the first with a mismatch does not depend on where ports stand.
pub(crate) proof fn lemma_same_first_mismatch<T>(
    pools: Seq<PoolBuilder<T>>,
    nodes: Seq<CallbackNode<T>>,
    placed: Seq<CallbackNode<T>>,
    k: int,
    i: int,
)
    requires
        crate::task_builder::all_same_but_ports(nodes, placed),
        crate::graph_pools::count_sum(own_counts(pools), pools.len() as int) <= nodes.len(),
        first_log_mismatch(pools, placed, k, i),
    ensures
        first_log_mismatch(pools, nodes, k, i),
        crate::graph_pools::pool_part(nodes, own_counts(pools), k)[i].name
            == crate::graph_pools::pool_part(placed, own_counts(pools), k)[i].name,
{
    let counts = own_counts(pools);
    assert forall|a: int, b: int|
        0 <= a <= k && 0 <= b < crate::graph_pools::pool_part(nodes, counts, a).len() implies {
        &&& b < crate::graph_pools::pool_part(placed, counts, a).len()
        &&& (#[trigger] crate::graph_pools::pool_part(nodes, counts, a)[b]).subscribers
            == crate::graph_pools::pool_part(placed, counts, a)[b].subscribers
        &&& crate::graph_pools::pool_part(nodes, counts, a)[b].name
            == crate::graph_pools::pool_part(placed, counts, a)[b].name
    } by {
        lemma_part_sizes(nodes, placed, counts, a);
        lemma_place(nodes, counts, a, b);
        lemma_place(placed, counts, a, b);
        let n = place_of(counts, a, b);
        assert(crate::connect::same_but_ports(placed[n], nodes[n]));
    }
    lemma_part_sizes(nodes, placed, counts, k);
    assert(hears_other_logs(crate::graph_pools::pool_part(nodes, counts, k)[i]));
}

/// Mismatches do not depend on where ports stand.
pub(crate) proof fn lemma_same_mismatches<T>(nodes: Seq<CallbackNode<T>>, placed: Seq<CallbackNode<T>>)
    requires
        crate::task_builder::all_same_but_ports(nodes, placed),
    ensures
        forall|ci: int, oi: int, pi: int, si: int|
            #[trigger] crate::connect_graph::mismatch(nodes, ci, oi, pi, si)
                <==> crate::connect_graph::mismatch(placed, ci, oi, pi, si),
        forall|ci: int, oi: int, pi: int, si: int|
            #[trigger] crate::connect_graph::mismatch(placed, ci, oi, pi, si)
                <==> crate::connect_graph::mismatch(nodes, ci, oi, pi, si),
        forall|n: int, i: int|
            #[trigger] is_log_mismatch(nodes, n, i)
                <==> is_log_mismatch(placed, n, i),
        forall|n: int, i: int|
            #[trigger] is_log_mismatch(placed, n, i)
                <==> is_log_mismatch(nodes, n, i),
{
    assert forall|ci: int, oi: int, pi: int, si: int|
        #[trigger] crate::connect_graph::mismatch(nodes, ci, oi, pi, si)
            <==> crate::connect_graph::mismatch(placed, ci, oi, pi, si) by {
        if 0 <= ci < nodes.len() && 0 <= oi < nodes.len() {
            assert(crate::connect::same_but_ports(placed[ci], nodes[ci]));
            assert(crate::connect::same_but_ports(placed[oi], nodes[oi]));
        }
    }
    assert forall|n: int, i: int|
        #[trigger] is_log_mismatch(nodes, n, i)
            <==> is_log_mismatch(placed, n, i) by {
        if 0 <= n < nodes.len() {
            assert(crate::connect::same_but_ports(placed[n], nodes[n]));
        }
    }
}

/// The names of the graph in the order in which they are met.
pub open spec fn interned<T>(built: BuiltTaskGraph<T>) -> bool {
    &&& built.channel_interner.wf()
    &&& built.callback_interner.wf()
    &&& crate::string_interner::texts(built.channel_interner.names@)
        == crate::string_interner::interned_all(
        Seq::empty(),
        crate::executor::pool_channels(built.pools@, built.pools@.len() as int),
    )
    &&& crate::string_interner::texts(built.callback_interner.names@)
        == crate::string_interner::interned_all(
        Seq::empty(),
        crate::executor::pool_names(built.pools@, built.pools@.len() as int),
    )
}

impl<T> TaskGraphBuilder<T> {
    pub open spec fn wf(&self) -> bool {
        &&& self.channel_registry.wf()
        &&& forall|k: int| 0 <= k < self.pools@.len() ==> (#[trigger] self.pools@[k]).wf()
    }

    /// Whether the registry can be `first` once the callbacks of the pools have
    /// registered their channels.
    pub open spec fn registers_to(&self, first: ChannelRegistry) -> bool {
        registers_all(
            graph_nodes(self.pools@, self.pools@.len() as int),
            self.channel_registry,
            first,
        )
    }

    /// Whether the build steps can take the nodes of the pools to `before`, and
    /// a registry that knows the channels of the pools to `known`.
    pub open spec fn may_reach(&self, before: Seq<CallbackNode<T>>, known: ChannelRegistry) -> bool {
        exists|first: ChannelRegistry| #[trigger]
            self.registers_to(first) && reaches(
                graph_nodes(self.pools@, self.pools@.len() as int),
                first,
                self.build_steps@,
                self.build_steps@.len() as int,
                before,
                known,
            )
    }

    /// Whether `nodes` can be the nodes that are connected: those of the
    /// pools, and behind them what the build steps add.
    pub open spec fn may_connect(&self, nodes: Seq<CallbackNode<T>>) -> bool {
        exists|before: Seq<CallbackNode<T>>, known: ChannelRegistry| #[trigger]
            self.may_reach(before, known) && nodes == leveled(
                before,
                self.execution_log_level_override,
            )
    }

    /// Whether `nodes` can be connected with `registry` knowing their channels:
    /// the callbacks of the pools register theirs, then the build steps run, and
    /// then all callbacks register theirs.
    pub open spec fn connects_with(
        &self,
        nodes: Seq<CallbackNode<T>>,
        registry: ChannelRegistry,
    ) -> bool {
        exists|before: Seq<CallbackNode<T>>, known: ChannelRegistry| #[trigger]
            self.may_reach(before, known) && nodes == leveled(
                before,
                self.execution_log_level_override,
            ) && registers_all(before, known, registry)
    }

    /// Whether the sizes of the graph fit machine words, whatever the build
    /// steps add.
    pub open spec fn fits(&self) -> bool {
        &&& thread_sum(self.pools@, self.pools@.len() as int) <= usize::MAX
        &&& graph_nodes(self.pools@, self.pools@.len() as int).len() <= usize::MAX
        &&& crate::iox2::capacities_fit(self.iox2_endpoints@)
        &&& forall|nodes: Seq<CallbackNode<T>>| #[trigger]
            self.may_connect(nodes) ==> {
                &&& crate::connect_graph::sizes_fit(nodes)
                &&& 1 + 2 * crate::connect::buffered_total(nodes) <= usize::MAX
                &&& crate::graph_pools::port_total(nodes) <= u32::MAX
                &&& nodes.len() <= u32::MAX
            }
    }

    pub fn new() -> (r: Self)
        ensures
            r.wf(),
            r.pools@.len() == 0,
            r.build_steps@.len() == 0,
            r.execution_log_level_override is None,
            r.channel_registry.is_fresh(),
            !r.debug_info,
            r.iox2_config.namespace is None,
            r.iox2_config.node_name is None,
            r.iox2_endpoints@.len() == 0,
    {
        TaskGraphBuilder {
            pools: Vec::new(),
            build_steps: Vec::new(),
            execution_log_level_override: None,
            channel_registry: ChannelRegistry::new(),
            debug_info: false,
            iox2_config: Iox2GraphConfig::default(),
            iox2_endpoints: Vec::new(),
        }
    }

    /// Set how the graph's shared-memory services and its node are named.
    pub fn with_iox2_config(self, config: Iox2GraphConfig) -> (r: Self)
        ensures
            r == (TaskGraphBuilder { iox2_config: config, ..self }),
    {
        let mut builder = self;
        builder.iox2_config = config;
        builder
    }

    /// Add a shared-memory endpoint of one of the graph's callbacks.
    pub fn add_iox2_endpoint(self, endpoint: Iox2EndpointInfo) -> (r: Self)
        ensures
            r.iox2_endpoints@ == self.iox2_endpoints@.push(endpoint),
            r == (TaskGraphBuilder { iox2_endpoints: r.iox2_endpoints, ..self }),
    {
        let mut builder = self;
        builder.iox2_endpoints.push(endpoint);
        builder
    }

    /// Every endpoint of a graph with these nodes: the native ports, then the
    /// shared-memory endpoints.
    pub open spec fn endpoints(&self, nodes: Seq<CallbackNode<T>>) -> Seq<Iox2EndpointInfo> {
        crate::iox2::all_native_endpoints(nodes, nodes.len() as int) + self.iox2_endpoints@
    }

    /// Whether the endpoints of a graph with these nodes disagree on the
    /// transport or the payload type of a channel.
    pub open spec fn conflicting(&self, nodes: Seq<CallbackNode<T>>) -> bool {
        exists|i: int, j: int| #[trigger] crate::iox2::conflicts(self.endpoints(nodes), i, j)
    }

    /// Set whether executions are logged for every callback node in the graph.
    /// Applied after build steps run, so build-step-created nodes are
    /// included. It overrides any per-node setting.
    pub fn with_execution_log_level(self, enabled: bool) -> (r: Self)
        ensures
            r == (TaskGraphBuilder { execution_log_level_override: Some(enabled), ..self }),
    {
        let mut builder = self;
        builder.execution_log_level_override = Some(enabled);
        builder
    }

    /// Set to `true` to compute dangling-channel diagnostics. Defaults to
    /// `false`.
    pub fn with_debug_info(self, enabled: bool) -> (r: Self)
        ensures
            r == (TaskGraphBuilder { debug_info: enabled, ..self }),
    {
        let mut builder = self;
        builder.debug_info = enabled;
        builder
    }

    /// Add a thread pool to the graph. The closure receives a fresh pool and
    /// must return it after adding any callbacks to be assigned to this pool.
    /// Build-step-created nodes are assigned to the first pool.
    pub fn add_pool<F: FnOnce(PoolBuilder<T>) -> PoolBuilder<T>>(
        self,
        thread_count: usize,
        configure: F,
    ) -> (r: Self)
        requires
            forall|pool: PoolBuilder<T>|
                pool.thread_count == thread_count && pool.callbacks@.len() == 0
                    && pool.pending_builders@.len() == 0 ==> #[trigger] call_requires(
                    configure,
                    (pool,),
                ),
        ensures
            r.pools@.len() == self.pools@.len() + 1,
            r.pools@.drop_last() == self.pools@,
            exists|pool: PoolBuilder<T>|
                pool.thread_count == thread_count && pool.callbacks@.len() == 0
                    && pool.pending_builders@.len() == 0 && #[trigger] call_ensures(
                    configure,
                    (pool,),
                    r.pools@.last(),
                ),
            r == (TaskGraphBuilder { pools: r.pools, ..self }),
    {
        let mut builder = self;
        let pool = PoolBuilder::new(thread_count);
        let configured = configure(pool);
        assert(call_ensures(configure, (pool,), configured));
        builder.pools.push(configured);
        assert(builder.pools@.drop_last() =~= self.pools@);
        assert(builder.pools@.last() == configured);
        assert(call_ensures(configure, (pool,), builder.pools@.last()));
        builder
    }

    pub fn add_build_step(self, build_step: AnyGraphStep<T>) -> (r: Self)
        ensures
            r.build_steps@ == self.build_steps@.push(build_step),
            r == (TaskGraphBuilder { build_steps: r.build_steps, ..self }),
    {
        let mut builder = self;
        builder.build_steps.push(build_step);
        builder
    }

    /// Expose the channel registry. Most channels are registered
    /// automatically during `build`; this is an escape hatch for channels the
    /// graph cannot introspect.
    pub fn channel_registry_mut(&mut self) -> (r: &mut ChannelRegistry)
        ensures
            *r == old(self).channel_registry,
            *final(self) == (TaskGraphBuilder { channel_registry: *final(r), ..*old(self) }),
    {
        &mut self.channel_registry
    }

    /// Builds the nodes, runs the build steps in order, checks that the
    /// endpoints of each channel agree, collects the settings of the
    /// shared-memory channels, connects all nodes and distributes them over the
    /// pools. The first error ends the build.
    pub fn build(self) -> (r: Result<BuiltTaskGraph<T>, TaskGraphBuildError>)
        requires
            self.wf(),
            self.fits(),
        ensures
            r is Err && r->Err_0 is CallbackBuildError <==> exists|k: int, b: int| #[trigger]
                builder_fails(self.pools@, k, b),
            r is Err && r->Err_0 is CallbackBuildError ==> exists|k: int, b: int| #[trigger]
                builder_fails(self.pools@, k, b) && first_failure(self.pools@, k, b, r->Err_0),
            r is Err && r->Err_0 is BuildStepError ==> exists|first: ChannelRegistry, k: int|
                #![trigger step_fails(graph_nodes(self.pools@, self.pools@.len() as int), first, self.build_steps@, k, r->Err_0)]
                self.registers_to(first) && step_fails(
                    graph_nodes(self.pools@, self.pools@.len() as int),
                    first,
                    self.build_steps@,
                    k,
                    r->Err_0,
                ),
            r is Err && r->Err_0 is ConnectionError ==> exists|
                nodes: Seq<CallbackNode<T>>,
                placed: Seq<CallbackNode<T>>,
            |
                #![trigger self.may_connect(nodes), crate::task_builder::all_same_but_ports(nodes, placed)]
                self.may_connect(nodes) && crate::task_builder::all_same_but_ports(nodes, placed)
                    && !self.conflicting(nodes) && crate::task_builder::mismatched(placed)
                    && crate::connect_graph::reports_first_mismatch(
                    r->Err_0->ConnectionError_0,
                    placed,
                ),
            r is Err ==> r->Err_0 is CallbackBuildError || r->Err_0 is BuildStepError
                || r->Err_0 is ConnectionError || r->Err_0 is ExecutionLogError
                || r->Err_0 is MixedTransport || r->Err_0 is MixedPayloadType
                || r->Err_0 is Iox2NodeCreation,
            r is Err && (r->Err_0 is MixedTransport || r->Err_0 is MixedPayloadType)
                ==> exists|nodes: Seq<CallbackNode<T>>| #[trigger]
                self.may_connect(nodes) && crate::iox2::explains_conflict(
                    r->Err_0,
                    self.endpoints(nodes),
                ),
            r is Err && r->Err_0 is Iox2NodeCreation ==> crate::iox2::node_name_refused(
                self.iox2_config,
            ) && r->Err_0->Iox2NodeCreation_source@ == crate::iox2::node_name_reason(
                crate::iox2_names::node_name_error(self.iox2_config.node_name->0@)->0,
            ) && exists|nodes: Seq<CallbackNode<T>>| #[trigger]
                self.may_connect(nodes) && !self.conflicting(nodes) && crate::iox2::uses_iox2(
                    self.endpoints(nodes),
                ),
            r is Err && r->Err_0 is ExecutionLogError ==> thread_sum(
                self.pools@,
                self.pools@.len() as int,
            ) > 0 && exists|nodes: Seq<CallbackNode<T>>, k: int, i: int|
                #![trigger self.may_connect(nodes), first_log_mismatch(self.pools@, nodes, k, i)]
                self.may_connect(nodes) && !self.conflicting(nodes) && first_log_mismatch(
                    self.pools@,
                    nodes,
                    k,
                    i,
                ) && reports_log_mismatch(
                    r->Err_0,
                    crate::graph_pools::pool_part(nodes, own_counts(self.pools@), k)[i],
                ) && !crate::task_builder::mismatched(nodes),
            r is Ok ==> exists|nodes: Seq<CallbackNode<T>>, placed: Seq<CallbackNode<T>>|
                #![trigger self.may_connect(nodes), crate::task_builder::all_same_but_ports(nodes, placed)]
                self.may_connect(nodes) && self.connects_with(nodes, r->Ok_0.channel_registry)
                    && !self.conflicting(nodes) && crate::iox2::is_context_of(
                    r->Ok_0.iox2_context,
                    self.iox2_config,
                    self.endpoints(nodes),
                ) && crate::task_builder::all_same_but_ports(nodes, placed)
                    && !crate::task_builder::mismatched(placed) && (thread_sum(
                    self.pools@,
                    self.pools@.len() as int,
                ) == 0 || !has_log_mismatch(placed)) && distributed(
                    self.pools@,
                    placed,
                    r->Ok_0.pools@,
                ) && wired(r->Ok_0.system, placed, r->Ok_0.execution_log_publishers@)
                    && r->Ok_0.execution_log_publishers@.len() == (if placed.len() == 0 {
                    0
                } else {
                    thread_sum(self.pools@, self.pools@.len() as int)
                }) && (r->Ok_0.debug_info is Some <==> self.debug_info && placed.len() > 0) && (
                r->Ok_0.debug_info is Some ==> lists_dangling(
                    r->Ok_0.debug_info->0,
                    placed,
                    thread_sum(self.pools@, self.pools@.len() as int) > 0,
                )),
            r is Ok ==> interned(r->Ok_0) && r->Ok_0.channel_registry.wf(),
            r is Ok ==> crate::execution_log::logs_in_turn(
                r->Ok_0.pools@,
                r->Ok_0.system,
                r->Ok_0.execution_log_publishers@,
            ),
    {
        let ghost this = self;
        let TaskGraphBuilder {
            pools,
            build_steps,
            execution_log_level_override,
            channel_registry,
            debug_info,
            iox2_config,
            iox2_endpoints,
        } = self;
        let mut channel_registry = channel_registry;
        let (all_nodes, counts, thread_counts) = match build_pool_nodes(pools) {
            Ok(parts) => parts,
            Err(error) => {
                return Err(error);
            },
        };
        let mut all_nodes = all_nodes;
        let ghost start = all_nodes@;
        register_nodes(&all_nodes, &mut channel_registry);
        let ghost first = channel_registry;
        assert(this.registers_to(first));
        match run_graph_steps(&mut all_nodes, &build_steps, &mut channel_registry) {
            Ok(_) => {},
            Err(error) => {
                let r: Result<BuiltTaskGraph<T>, TaskGraphBuildError> = Err(error);
                proof {
                    let k = choose|k: int| #[trigger]
                        step_fails(start, first, this.build_steps@, k, error);
                    assert(step_fails(start, first, this.build_steps@, k, r->Err_0));
                }
                return r;
            },
        }
        let ghost before = all_nodes@;
        let ghost known = channel_registry;
        register_nodes(&all_nodes, &mut channel_registry);
        set_log_level(&mut all_nodes, execution_log_level_override);
        let ghost nodes = all_nodes@;
        proof {
            let n = this.build_steps@.len() as int;
            assert(reaches(start, first, this.build_steps@, n, before, known));
            assert(this.may_reach(before, known));
            assert(this.may_connect(nodes));
            assert(this.connects_with(nodes, channel_registry));
            lemma_reaches_grows(start, first, this.build_steps@, n, before, known);
        }
        let iox2_context = match check_endpoints(&all_nodes, iox2_endpoints, &iox2_config) {
            Ok(context) => context,
            Err(error) => {
                let r: Result<BuiltTaskGraph<T>, TaskGraphBuildError> = Err(error);
                assert(this.may_connect(nodes));
                return r;
            },
        };
        let connection = crate::connect_graph::connect_callback_nodes(&mut all_nodes);
        let ghost placed = all_nodes@;
        assert(crate::task_builder::all_same_but_ports(nodes, placed));
        let system = match connection {
            Ok(system) => system,
            Err(error) => {
                let r: Result<BuiltTaskGraph<T>, TaskGraphBuildError> = Err(
                    TaskGraphBuildError::ConnectionError(error),
                );
                assert(crate::connect_graph::reports_first_mismatch(
                    r->Err_0->ConnectionError_0,
                    placed,
                ));
                return r;
            },
        };
        let r = finish_graph(
            all_nodes,
            &counts,
            &thread_counts,
            system,
            channel_registry,
            debug_info,
            iox2_context,
            Ghost((this, nodes)),
        );
        proof {
            if r is Err {
                let (k, i) = choose|k: int, i: int| #[trigger]
                    first_log_mismatch(this.pools@, placed, k, i) && reports_log_mismatch(
                        r->Err_0,
                        crate::graph_pools::pool_part(placed, own_counts(this.pools@), k)[i],
                    );
                lemma_same_first_mismatch(this.pools@, nodes, placed, k, i);
                lemma_same_mismatches(nodes, placed);
            }
        }
        r
    }
}

/// Whether the diagnostics list the dangling channels of these nodes; `logged`
/// says whether the graph publishes execution logs.
pub open spec fn lists_dangling<T>(
    info: GraphDebugInfo,
    nodes: Seq<CallbackNode<T>>,
    logged: bool,
) -> bool {
    &&& crate::string_interner::texts(info.dangling_subscribers@)
        == crate::dangling::unfed_channels(nodes, logged)
    &&& crate::string_interner::texts(info.dangling_publishers@)
        == crate::dangling::unread_channels(nodes)
}

/// The dangling-channel diagnostics.
fn compute_debug_info<T>(nodes: &Vec<CallbackNode<T>>, logged: bool) -> (r: GraphDebugInfo)
    ensures
        lists_dangling(r, nodes@, logged),
{
    GraphDebugInfo {
        dangling_subscribers: crate::dangling::find_dangling_subscribers(nodes, logged),
        dangling_publishers: crate::dangling::find_dangling_publishers(nodes),
    }
}

/// Checks that the endpoints of each channel agree, and collects the settings of
/// the shared-memory channels.
fn check_endpoints<T>(
    nodes: &Vec<CallbackNode<T>>,
    iox2_endpoints: Vec<Iox2EndpointInfo>,
    config: &Iox2GraphConfig,
) -> (r: Result<Option<Iox2Context>, TaskGraphBuildError>)
    requires
        crate::iox2::capacities_fit(iox2_endpoints@),
    ensures
        ({
            let all = crate::iox2::all_native_endpoints(nodes@, nodes@.len() as int)
                + iox2_endpoints@;
            let conflicting = exists|i: int, j: int| #[trigger] crate::iox2::conflicts(all, i, j);
            &&& r matches Ok(context) ==> !conflicting && crate::iox2::is_context_of(
                context,
                *config,
                all,
            )
            &&& r matches Err(error) ==> if conflicting {
                crate::iox2::explains_conflict(error, all)
            } else {
                &&& crate::iox2::uses_iox2(all)
                &&& crate::iox2::node_name_refused(*config)
                &&& error is Iox2NodeCreation
                &&& error->Iox2NodeCreation_source@ == crate::iox2::node_name_reason(
                    crate::iox2_names::node_name_error(config.node_name->0@)->0,
                )
            }
        }),
{
    let mut endpoints = crate::iox2::list_native_endpoints(nodes);
    let ghost native = endpoints@;
    let mut rest = iox2_endpoints;
    endpoints.append(&mut rest);
    proof {
        crate::iox2::lemma_native_endpoints(nodes@, nodes@.len() as int);
        assert(endpoints@ =~= native + iox2_endpoints@);
        assert forall|i: int|
            0 <= i < endpoints@.len() && (#[trigger]
            endpoints@[i]).kind is Iox2DataSub implies 2
            * endpoints@[i].kind->Iox2DataSub_capacity <= usize::MAX by {
            if i >= native.len() {
                assert(endpoints@[i] == iox2_endpoints@[i - native.len()]);
            } else {
                assert(endpoints@[i] == native[i]);
            }
        }
    }
    match crate::iox2::validate_endpoints(&endpoints) {
        Ok(_) => {},
        Err(error) => {
            return Err(error);
        },
    }
    Iox2Context::from_endpoints(config, &endpoints)
}

/// Whether some pool has a thread.
fn has_threads<T>(thread_counts: &Vec<usize>, Ghost(pools): Ghost<Seq<PoolBuilder<T>>>) -> (r: bool)
    requires
        thread_counts@.len() == pools.len(),
        forall|k: int|
            0 <= k < thread_counts@.len() ==> #[trigger] thread_counts@[k]
                == pools[k].thread_count,
    ensures
        r == (thread_sum(pools, pools.len() as int) > 0),
{
    let mut found = false;
    let mut k: usize = 0;
    while k < thread_counts.len()
        invariant
            k <= thread_counts@.len(),
            thread_counts@.len() == pools.len(),
            forall|m: int|
                0 <= m < thread_counts@.len() ==> #[trigger] thread_counts@[m]
                    == pools[m].thread_count,
            found == (thread_sum(pools, k as int) > 0),
            thread_sum(pools, k as int) >= 0,
        decreases thread_counts@.len() - k,
    {
        if thread_counts[k] > 0 {
            found = true;
        }
        k = k + 1;
    }
    found
}

/// What is left of a build once the nodes are connected: distributing them over
/// the pools, wiring the execution logs and collecting the names.
fn finish_graph<T>(
    all_nodes: Vec<CallbackNode<T>>,
    counts: &Vec<usize>,
    thread_counts: &Vec<usize>,
    system: PubSub<T>,
    channel_registry: ChannelRegistry,
    debug_info: bool,
    iox2_context: Option<Iox2Context>,
    Ghost(from): Ghost<(TaskGraphBuilder<T>, Seq<CallbackNode<T>>)>,
) -> (r: Result<BuiltTaskGraph<T>, TaskGraphBuildError>)
    requires
        channel_registry.wf(),
        from.0.may_connect(from.1),
        from.0.fits(),
        crate::task_builder::all_same_but_ports(from.1, all_nodes@),
        !crate::task_builder::mismatched(all_nodes@),
        crate::connect_graph::connected(system, all_nodes@),
        counts@ == own_counts(from.0.pools@),
        thread_counts@.len() == counts@.len(),
        forall|k: int|
            0 <= k < thread_counts@.len() ==> #[trigger] thread_counts@[k]
                == from.0.pools@[k].thread_count,
        crate::graph_pools::count_sum(counts@, counts@.len() as int) <= all_nodes@.len(),
    ensures
        r is Err <==> thread_sum(from.0.pools@, from.0.pools@.len() as int) > 0
            && has_log_mismatch(all_nodes@),
        r is Err ==> r->Err_0 is ExecutionLogError && exists|k: int, i: int| #[trigger]
            first_log_mismatch(from.0.pools@, all_nodes@, k, i) && reports_log_mismatch(
                r->Err_0,
                crate::graph_pools::pool_part(all_nodes@, own_counts(from.0.pools@), k)[i],
            ),
        r matches Ok(built) ==> {
            &&& distributed(from.0.pools@, all_nodes@, built.pools@)
            &&& wired(built.system, all_nodes@, built.execution_log_publishers@)
            &&& crate::execution_log::logs_in_turn(
                built.pools@,
                built.system,
                built.execution_log_publishers@,
            )
            &&& built.execution_log_publishers@.len() == (if all_nodes@.len() == 0 {
                0
            } else {
                thread_sum(from.0.pools@, from.0.pools@.len() as int)
            })
            &&& built.debug_info is Some <==> debug_info && all_nodes@.len() > 0
            &&& built.debug_info is Some ==> lists_dangling(
                built.debug_info->0,
                all_nodes@,
                thread_sum(from.0.pools@, from.0.pools@.len() as int) > 0,
            )
            &&& interned(built)
            &&& built.channel_registry == channel_registry
            &&& built.iox2_context == iox2_context
        },
{
    let ghost placed = all_nodes@;
    let ghost builders = from.0.pools@;
    proof {
        if builders.len() == 0 {
            assert(thread_sum(builders, 0) == 0);
        }
    }
    let no_logs: Vec<usize> = Vec::new();
    assert(extends(system, system, no_logs@));
    assert(wired(system, placed, no_logs@));
    if all_nodes.len() == 0 {
        let pools: Vec<ThreadPoolConfig<T>> = Vec::new();
        let built = BuiltTaskGraph {
            pools,
            system,
            execution_log_publishers: no_logs,
            channel_registry,
            channel_interner: StringInterner::new(),
            callback_interner: StringInterner::new(),
            debug_info: None,
            iox2_context,
        };
        proof {
            let none = Seq::<Seq<char>>::empty();
            assert(crate::executor::pool_channels(built.pools@, 0) =~= none);
            assert(crate::executor::pool_names(built.pools@, 0) =~= none);
            assert(crate::string_interner::interned_all(none, none) =~= none);
            assert(crate::string_interner::texts(built.channel_interner.names@) =~= none);
            assert(crate::string_interner::texts(built.callback_interner.names@) =~= none);
        }
        return Ok(built);
    }
    proof {
        assert forall|n: int| 0 <= n < placed.len() implies (#[trigger] placed[n]).subscribers
            == from.1[n].subscribers && placed[n].publishers == from.1[n].publishers by {
            assert(crate::connect::same_but_ports(placed[n], from.1[n]));
        }
        crate::graph_pools::lemma_port_total_kept(from.1, placed);
        crate::connect_graph::lemma_totals_agree(from.1, placed);
    }
    let logged = has_threads::<T>(thread_counts, Ghost(builders));
    let info = if debug_info {
        Some(compute_debug_info(&all_nodes, logged))
    } else {
        None
    };
    if counts.len() == 0 {
        let mut pools: Vec<ThreadPoolConfig<T>> = Vec::new();
        let storage = CallbackStorage::from_nodes(all_nodes);
        pools.push(ThreadPoolConfig::new(1, storage));
        proof {
            assert(crate::graph_pools::pool_part(placed, seq![placed.len() as usize], 0) =~= placed) by {
                reveal_with_fuel(crate::graph_pools::count_sum, 3);
            }
            reveal_with_fuel(crate::graph_pools::count_sum, 3);
            crate::graph_pools::lemma_pools_keep_counts(
                pools@,
                placed,
                seq![placed.len() as usize],
            );
        }
        let (channel_interner, callback_interner) = crate::executor::build_name_interners(&pools);
        return Ok(
            BuiltTaskGraph {
                pools,
                system,
                execution_log_publishers: no_logs,
                channel_registry,
                channel_interner,
                callback_interner,
                debug_info: info,
                iox2_context,
            },
        );
    }
    let pools = crate::graph_pools::split_pools(all_nodes, counts, thread_counts);
    proof {
        lemma_thread_totals(builders, pools@, builders.len() as int);
        lemma_all_owned(pools@, placed, counts@, system);
        lemma_owned_once(pools@, placed, counts@, system);
        lemma_inputs_stand(pools@, placed, counts@, system);
        crate::connect_graph::lemma_slots_of_nodes(system, placed, placed.len() as int, 0);
        assert(placed.take(placed.len() as int) =~= placed);
        crate::graph_pools::lemma_pools_keep_counts(pools@, placed, counts@);
    }
    let log_pubs = crate::execution_log::log_publishers(&pools, EXECUTION_LOG_VALUE_TYPE);
    let ghost graph = system;
    let mut system = system;
    let execution_log_publishers = match crate::execution_log::connect(
        &pools,
        log_pubs,
        EXECUTION_LOG_VALUE_TYPE,
        &mut system,
    ) {
        Ok(ids) => ids,
        Err(error) => {
            let r: Result<BuiltTaskGraph<T>, TaskGraphBuildError> = Err(
                TaskGraphBuildError::ExecutionLogError(error),
            );
            proof {
                let (k, i) = choose|k: int, i: int| #[trigger]
                    crate::execution_log::first_mismatch(
                        pools@,
                        graph,
                        EXECUTION_LOG_VALUE_TYPE,
                        k,
                        i,
                    ) && error.subscriber_node@ == pools@[k].nodes.nodes@[i].node.name@;
                lemma_first_mismatch(builders, pools@, placed, graph, k, i);
                assert(first_log_mismatch(builders, placed, k, i));
                assert(has_log_mismatch(placed));
            }
            return r;
        },
    };
    proof {
        if has_log_mismatch(placed) && thread_sum(builders, builders.len() as int) > 0 {
            let (n, j) = choose|n: int, j: int| #[trigger] is_log_mismatch(placed, n, j);
            lemma_mismatch_in_system(placed, graph, n, j);
        }
    }
    proof {
        let order = choose|order: Seq<usize>| #[trigger]
            crate::log_listeners::in_turn(order, pools@) && crate::log_listeners::lists_all(
                order,
                system.subscribers@,
            ) && forall|i: int|
                0 <= i < execution_log_publishers@.len() ==> #[trigger] execution_log_publishers@[i]
                    == graph.publishers@.len() + i && crate::execution_log::log_ready(
                    system.publishers@[execution_log_publishers@[i] as int],
                    system.subscribers@,
                    order,
                    EXECUTION_LOG_VALUE_TYPE,
                );
        assert(crate::log_listeners::lists_all(order, system.subscribers@));
        assert(logs_ready(
            system,
            graph.publishers@.len() as int,
            execution_log_publishers@,
            order,
        ));
        assert(extends(system, graph, execution_log_publishers@));
        assert(crate::log_listeners::in_turn(order, pools@));
    }
    let (channel_interner, callback_interner) = crate::executor::build_name_interners(&pools);
    Ok(
        BuiltTaskGraph {
            pools,
            system,
            execution_log_publishers,
            channel_registry,
            channel_interner,
            callback_interner,
            debug_info: info,
            iox2_context,
        },
    )
}

/// Pools have the threads of their builders.
proof fn lemma_thread_totals<T>(
    builders: Seq<PoolBuilder<T>>,
    pools: Seq<ThreadPoolConfig<T>>,
    k: int,
)
    requires
        0 <= k <= builders.len(),
        pools.len() == builders.len(),
        forall|m: int|
            0 <= m < pools.len() ==> (#[trigger] pools[m]).thread_count == builders[m].thread_count,
    ensures
        crate::execution_log::thread_total(pools, k) == thread_sum(builders, k),
        thread_sum(builders, k) >= 0,
    decreases k,
{
    if k > 0 {
        lemma_thread_totals(builders, pools, k - 1);
        assert(pools[k - 1].thread_count == builders[k - 1].thread_count);
    }
}

/// Each subscriber of the graph belongs to a node of a pool.
proof fn lemma_all_owned<T>(
    pools: Seq<ThreadPoolConfig<T>>,
    nodes: Seq<CallbackNode<T>>,
    counts: Seq<usize>,
    system: PubSub<T>,
)
    requires
        counts.len() > 0,
        pools.len() == counts.len(),
        crate::graph_pools::count_sum(counts, counts.len() as int) <= nodes.len(),
        forall|k: int|
            0 <= k < pools.len() ==> (#[trigger] pools[k]).nodes.holds(
                crate::graph_pools::pool_part(nodes, counts, k),
            ),
        crate::connect::ports_stand(system, nodes, nodes.len() as int),
    ensures
        crate::log_listeners::all_owned(pools, system),
{
    assert forall|s: int| 0 <= s < system.subscribers@.len() implies #[trigger]
    crate::log_listeners::owned(pools, s) by {
        let (n, j) = crate::connect_graph::lemma_owner_of_subscriber(
            nodes,
            nodes.len() as int,
            s,
        );
        crate::graph_pools::law_every_node_has_a_pool(nodes, counts, n);
        let (k, i) = choose|k: int, i: int| #[trigger]
            crate::graph_pools::went_to(nodes, counts, n, k, i);
        assert(crate::connect::node_stands(
            system,
            nodes[n],
            crate::connect::subscriber_offset(nodes, n),
            crate::connect::publisher_offset(nodes, n),
            n,
        ));
        assert(pools[k].nodes.holds(crate::graph_pools::pool_part(nodes, counts, k)));
        assert(pools[k].nodes.nodes@[i].node == nodes[n]);
        assert(crate::log_listeners::owner_at(pools, k, i, s));
    }
}

/// Two places in the pools are two places among all nodes.
proof fn lemma_places_differ(counts: Seq<usize>, k: int, i: int, l: int, j: int)
    requires
        0 <= k < counts.len(),
        0 <= l < counts.len(),
        0 <= i,
        0 <= j,
        k > 0 ==> i < counts[k],
        l > 0 ==> j < counts[l],
        place_of(counts, k, i) == place_of(counts, l, j),
    ensures
        k == l,
        i == j,
{
    if k == l {
        crate::graph_pools::lemma_count_sum(counts, k + 1, counts.len() as int);
    } else if k < l {
        crate::graph_pools::lemma_count_sum(counts, k + 1, l);
        crate::graph_pools::lemma_count_sum(counts, l + 1, counts.len() as int);
    } else {
        crate::graph_pools::lemma_count_sum(counts, l + 1, k);
        crate::graph_pools::lemma_count_sum(counts, k + 1, counts.len() as int);
    }
}

/// No subscriber of the graph belongs to two nodes of the pools.
proof fn lemma_owned_once<T>(
    pools: Seq<ThreadPoolConfig<T>>,
    nodes: Seq<CallbackNode<T>>,
    counts: Seq<usize>,
    system: PubSub<T>,
)
    requires
        pools.len() == counts.len(),
        crate::graph_pools::count_sum(counts, counts.len() as int) <= nodes.len(),
        forall|k: int|
            0 <= k < pools.len() ==> (#[trigger] pools[k]).nodes.holds(
                crate::graph_pools::pool_part(nodes, counts, k),
            ),
        crate::connect::ports_stand(system, nodes, nodes.len() as int),
    ensures
        crate::log_listeners::owned_once(pools),
{
    assert forall|k: int, i: int, l: int, j: int, s: int|
        #[trigger] crate::log_listeners::owner_at(pools, k, i, s)
            && #[trigger] crate::log_listeners::owner_at(pools, l, j, s) implies k == l && i
        == j by {
        let (m, n) = (place_of(counts, k, i), place_of(counts, l, j));
        lemma_owner_place(pools, nodes, counts, system, k, i, s);
        lemma_owner_place(pools, nodes, counts, system, l, j, s);
        if m < n {
            crate::connect::lemma_offsets_ordered(nodes, m, n);
        } else if n < m {
            crate::connect::lemma_offsets_ordered(nodes, n, m);
        }
        lemma_places_differ(counts, k, i, l, j);
    }
}

/// The owner of a subscriber stands where its inputs begin.
proof fn lemma_owner_place<T>(
    pools: Seq<ThreadPoolConfig<T>>,
    nodes: Seq<CallbackNode<T>>,
    counts: Seq<usize>,
    system: PubSub<T>,
    k: int,
    i: int,
    s: int,
)
    requires
        pools.len() == counts.len(),
        crate::graph_pools::count_sum(counts, counts.len() as int) <= nodes.len(),
        crate::log_listeners::owner_at(pools, k, i, s),
        pools[k].nodes.holds(crate::graph_pools::pool_part(nodes, counts, k)),
        crate::connect::ports_stand(system, nodes, nodes.len() as int),
    ensures
        0 <= place_of(counts, k, i) < nodes.len(),
        crate::connect::subscriber_offset(nodes, place_of(counts, k, i)) <= s
            < crate::connect::subscriber_offset(nodes, place_of(counts, k, i))
            + nodes[place_of(counts, k, i)].subscribers@.len(),
        k > 0 ==> i < counts[k],
{
    crate::graph_pools::lemma_count_sum(counts, 0, k);
    crate::graph_pools::lemma_count_sum(counts, k, k + 1);
    crate::graph_pools::lemma_count_sum(counts, k + 1, counts.len() as int);
    lemma_place(nodes, counts, k, i);
    let n = place_of(counts, k, i);
    assert(pools[k].nodes.nodes@[i].node == nodes[n]);
    assert(crate::connect::node_stands(
        system,
        nodes[n],
        crate::connect::subscriber_offset(nodes, n),
        crate::connect::publisher_offset(nodes, n),
        n,
    ));
}

/// The inputs of the nodes of the pools stand in the graph.
proof fn lemma_inputs_stand<T>(
    pools: Seq<ThreadPoolConfig<T>>,
    nodes: Seq<CallbackNode<T>>,
    counts: Seq<usize>,
    system: PubSub<T>,
)
    requires
        pools.len() == counts.len(),
        crate::graph_pools::count_sum(counts, counts.len() as int) <= nodes.len(),
        forall|k: int|
            0 <= k < pools.len() ==> (#[trigger] pools[k]).nodes.holds(
                crate::graph_pools::pool_part(nodes, counts, k),
            ),
        crate::connect::ports_stand(system, nodes, nodes.len() as int),
    ensures
        crate::log_listeners::inputs_stand(pools, system),
{
    assert forall|k: int, i: int| 0 <= k < pools.len() && 0 <= i < pools[k].nodes.nodes@.len() implies ({
        let ports = (#[trigger] pools[k].nodes.nodes@[i]).node.ports;
        ports.first_subscriber + ports.subscriber_count <= system.subscribers@.len()
    }) by {
        assert(pools[k].nodes.holds(crate::graph_pools::pool_part(nodes, counts, k)));
        lemma_place(nodes, counts, k, i);
        let n = place_of(counts, k, i);
        assert(crate::connect::node_stands(
            system,
            nodes[n],
            crate::connect::subscriber_offset(nodes, n),
            crate::connect::publisher_offset(nodes, n),
            n,
        ));
    }
}

/// A node has a mismatching subscriber if and only if one of its inputs
/// mismatches.
proof fn lemma_node_mismatch<T>(
    pools: Seq<ThreadPoolConfig<T>>,
    nodes: Seq<CallbackNode<T>>,
    counts: Seq<usize>,
    system: PubSub<T>,
    k: int,
    i: int,
)
    requires
        pools.len() == counts.len(),
        crate::graph_pools::count_sum(counts, counts.len() as int) <= nodes.len(),
        0 <= k < pools.len(),
        0 <= i < pools[k].nodes.nodes@.len(),
        pools[k].nodes.holds(crate::graph_pools::pool_part(nodes, counts, k)),
        crate::connect::ports_stand(system, nodes, nodes.len() as int),
    ensures
        i < crate::graph_pools::pool_part(nodes, counts, k).len(),
        pools[k].nodes.nodes@[i].node == crate::graph_pools::pool_part(nodes, counts, k)[i],
        crate::execution_log::node_mismatch(pools, system, EXECUTION_LOG_VALUE_TYPE, k, i)
            <==> hears_other_logs(crate::graph_pools::pool_part(nodes, counts, k)[i]),
        hears_other_logs(crate::graph_pools::pool_part(nodes, counts, k)[i]) ==> has_log_mismatch(
            nodes,
        ),
{
    let part = crate::graph_pools::pool_part(nodes, counts, k);
    assert(pools[k].nodes.nodes@[i].node == part[i]);
    lemma_place(nodes, counts, k, i);
    let n = place_of(counts, k, i);
    let s = crate::connect::subscriber_offset(nodes, n);
    assert(crate::connect::node_stands(
        system,
        nodes[n],
        s,
        crate::connect::publisher_offset(nodes, n),
        n,
    ));
    if crate::execution_log::node_mismatch(pools, system, EXECUTION_LOG_VALUE_TYPE, k, i) {
        let t = choose|t: int| #[trigger]
            crate::execution_log::log_mismatch(system, t, EXECUTION_LOG_VALUE_TYPE)
                && crate::log_listeners::owner_at(pools, k, i, t);
        assert(crate::connect::is_input(
            system.subscribers@[s + (t - s)],
            nodes[n].subscribers@[t - s],
            crate::connect::role_of(nodes[n].subscribers@, t - s, n),
        ));
        assert(hears_other_logs(part[i]));
    }
    if hears_other_logs(part[i]) {
        let j = choose|j: int|
            0 <= j < nodes[n].subscribers@.len() && (#[trigger]
            nodes[n].subscribers@[j]).config.channel_name@
                == crate::execution_log::EXECUTION_LOG_CHANNEL@
                && nodes[n].subscribers@[j].value_type != EXECUTION_LOG_VALUE_TYPE;
        assert(is_log_mismatch(nodes, n, j));
        assert(crate::connect::is_input(
            system.subscribers@[s + j],
            nodes[n].subscribers@[j],
            crate::connect::role_of(nodes[n].subscribers@, j, n),
        ));
        assert(crate::execution_log::log_mismatch(system, s + j, EXECUTION_LOG_VALUE_TYPE));
        assert(crate::log_listeners::owner_at(pools, k, i, s + j));
    }
}

/// The first mismatching node of the pools is the first of the nodes.
proof fn lemma_first_mismatch<T>(
    builders: Seq<PoolBuilder<T>>,
    pools: Seq<ThreadPoolConfig<T>>,
    nodes: Seq<CallbackNode<T>>,
    system: PubSub<T>,
    k: int,
    i: int,
)
    requires
        pools.len() == builders.len(),
        crate::graph_pools::count_sum(own_counts(builders), builders.len() as int) <= nodes.len(),
        forall|m: int|
            0 <= m < pools.len() ==> (#[trigger] pools[m]).nodes.holds(
                crate::graph_pools::pool_part(nodes, own_counts(builders), m),
            ),
        crate::connect::ports_stand(system, nodes, nodes.len() as int),
        crate::execution_log::first_mismatch(pools, system, EXECUTION_LOG_VALUE_TYPE, k, i),
    ensures
        first_log_mismatch(builders, nodes, k, i),
        pools[k].nodes.nodes@[i].node == crate::graph_pools::pool_part(
            nodes,
            own_counts(builders),
            k,
        )[i],
        has_log_mismatch(nodes),
{
    let counts = own_counts(builders);
    let s = choose|s: int| #[trigger]
        crate::execution_log::log_mismatch(system, s, EXECUTION_LOG_VALUE_TYPE)
            && crate::log_listeners::owner_at(pools, k, i, s);
    assert(pools[k].nodes.holds(crate::graph_pools::pool_part(nodes, counts, k)));
    lemma_node_mismatch(pools, nodes, counts, system, k, i);
    assert forall|a: int, b: int|
        0 <= a <= k && 0 <= b < crate::graph_pools::pool_part(nodes, counts, a).len() && (a < k || b
            < i) implies !hears_other_logs(
        #[trigger] crate::graph_pools::pool_part(nodes, counts, a)[b],
    ) by {
        assert(pools[a].nodes.holds(crate::graph_pools::pool_part(nodes, counts, a)));
        lemma_node_mismatch(pools, nodes, counts, system, a, b);
        assert(!crate::execution_log::node_mismatch(
            pools,
            system,
            EXECUTION_LOG_VALUE_TYPE,
            a,
            b,
        ));
    }
}

/// A mismatching input of a node is a mismatching subscriber.
proof fn lemma_mismatch_in_system<T>(
    nodes: Seq<CallbackNode<T>>,
    system: PubSub<T>,
    n: int,
    i: int,
)
    requires
        crate::connect::ports_stand(system, nodes, nodes.len() as int),
        is_log_mismatch(nodes, n, i),
    ensures
        exists|s: int| #[trigger]
            crate::execution_log::log_mismatch(system, s, EXECUTION_LOG_VALUE_TYPE),
{
    let s = crate::connect::subscriber_offset(nodes, n) + i;
    crate::connect::lemma_offsets_ordered(nodes, n, nodes.len() as int);
    crate::connect::lemma_offsets_ordered(nodes, n + 1, nodes.len() as int);
    assert(crate::connect::node_stands(
        system,
        nodes[n],
        crate::connect::subscriber_offset(nodes, n),
        crate::connect::publisher_offset(nodes, n),
        n,
    ));
    assert(crate::connect::is_input(
        system.subscribers@[s],
        nodes[n].subscribers@[i],
        crate::connect::role_of(nodes[n].subscribers@, i, n),
    ));
    assert(crate::execution_log::log_mismatch(system, s, EXECUTION_LOG_VALUE_TYPE));
}

/// Build steps only add nodes.
pub(crate) proof fn lemma_reaches_grows<T>(
    start: Seq<CallbackNode<T>>,
    first: ChannelRegistry,
    steps: Seq<AnyGraphStep<T>>,
    k: int,
    nodes: Seq<CallbackNode<T>>,
    registry: ChannelRegistry,
)
    requires
        0 <= k <= steps.len(),
        reaches(start, first, steps, k, nodes, registry),
    ensures
        start.len() <= nodes.len(),
        nodes.take(start.len() as int) == start,
    decreases k,
{
    if k > 0 {
        let (before, known, added) = choose|
            before: Seq<CallbackNode<T>>,
            known: ChannelRegistry,
            added: Vec<CallbackNode<T>>,
        | #[trigger]
            steps[k - 1].inner.adds(before, known, Ok(added), registry) && reaches(
                start,
                first,
                steps,
                k - 1,
                before,
                known,
            ) && nodes == before + added@;
        lemma_reaches_grows(start, first, steps, k - 1, before, known);
        assert(nodes.take(start.len() as int) =~= before.take(start.len() as int));
    } else {
        assert(nodes.take(start.len() as int) =~= start);
    }
}

/// Whether `registries` is how a registry changes while the callbacks of
/// `nodes` register their channels, each once and in their order.
pub open spec fn registered_in_turn<T>(
    nodes: Seq<CallbackNode<T>>,
    registries: Seq<ChannelRegistry>,
) -> bool {
    &&& registries.len() == nodes.len() + 1
    &&& forall|n: int|
        0 <= n < nodes.len() ==> (#[trigger] nodes[n]).callback.inner.registers(
            registries[n],
            registries[n + 1],
        )
}

/// Whether registering the channels of all `nodes` can take `before` to
/// `after`.
pub open spec fn registers_all<T>(
    nodes: Seq<CallbackNode<T>>,
    before: ChannelRegistry,
    after: ChannelRegistry,
) -> bool {
    exists|registries: Seq<ChannelRegistry>| #[trigger]
        registered_in_turn(nodes, registries) && registries[0] == before && registries.last()
            == after
}

/// Registers every node's channels.
fn register_nodes<T>(nodes: &Vec<CallbackNode<T>>, registry: &mut ChannelRegistry)
    requires
        old(registry).wf(),
    ensures
        final(registry).wf(),
        registers_all(nodes@, *old(registry), *final(registry)),
{
    let ghost mut registries: Seq<ChannelRegistry> = seq![*registry];
    let mut n: usize = 0;
    while n < nodes.len()
        invariant
            n <= nodes@.len(),
            registry.wf(),
            registries.len() == n + 1,
            registries[0] == *old(registry),
            registries.last() == *registry,
            forall|m: int|
                0 <= m < n ==> (#[trigger] nodes@[m]).callback.inner.registers(
                    registries[m],
                    registries[m + 1],
                ),
        decreases nodes@.len() - n,
    {
        nodes[n].callback.inner.register_channels(registry);
        proof {
            registries = registries.push(*registry);
        }
        n = n + 1;
    }
    assert(registered_in_turn(nodes@, registries));
}

/// Sets the log setting that holds for the whole graph, if one does.
fn set_log_level<T>(nodes: &mut Vec<CallbackNode<T>>, level: Option<bool>)
    requires
        crate::task_builder::all_wf(old(nodes)@),
    ensures
        final(nodes)@ == leveled(old(nodes)@, level),
        crate::task_builder::all_wf(final(nodes)@),
{
    if let Some(enabled) = level {
        let ghost all = leveled(nodes@, level);
        let mut n: usize = 0;
        while n < nodes.len()
            invariant
                n <= nodes@.len(),
                nodes@.len() == old(nodes)@.len(),
                crate::task_builder::all_wf(old(nodes)@),
                all == leveled(old(nodes)@, Some(enabled)),
                forall|m: int| 0 <= m < n ==> #[trigger] nodes@[m] == all[m],
                forall|m: int| n <= m < nodes@.len() ==> #[trigger] nodes@[m] == old(nodes)@[m],
            decreases nodes@.len() - n,
        {
            nodes[n].set_log_executions(enabled);
            n = n + 1;
        }
        assert(nodes@ =~= all);
        assert forall|m: int| 0 <= m < nodes@.len() implies (#[trigger] nodes@[m]).wf() by {
            assert(old(nodes)@[m].wf());
        }
    }
}

/// Builds the nodes of all pools, pool by pool: what the builders give, then
/// the callbacks. Also counts the nodes and the threads of each pool.
fn build_pool_nodes<T>(pools: Vec<PoolBuilder<T>>) -> (r: Result<
    (Vec<CallbackNode<T>>, Vec<usize>, Vec<usize>),
    TaskGraphBuildError,
>)
    requires
        forall|k: int| 0 <= k < pools@.len() ==> (#[trigger] pools@[k]).wf(),
        graph_nodes(pools@, pools@.len() as int).len() <= usize::MAX,
    ensures
        r is Err <==> exists|k: int, b: int| #[trigger] builder_fails(pools@, k, b),
        r is Err ==> r->Err_0 is CallbackBuildError && exists|k: int, b: int| #[trigger]
            builder_fails(pools@, k, b) && first_failure(pools@, k, b, r->Err_0),
        r matches Ok(parts) ==> {
            &&& parts.0@ == graph_nodes(pools@, pools@.len() as int)
            &&& crate::task_builder::all_wf(parts.0@)
            &&& parts.1@ == own_counts(pools@)
            &&& parts.2@.len() == pools@.len()
            &&& forall|k: int|
                0 <= k < pools@.len() ==> #[trigger] parts.2@[k] == pools@[k].thread_count
            &&& crate::graph_pools::count_sum(parts.1@, pools@.len() as int) == parts.0@.len()
        },
{
    let ghost all = pools@;
    let mut rest = pools;
    let mut nodes: Vec<CallbackNode<T>> = Vec::new();
    let mut counts: Vec<usize> = Vec::new();
    let mut thread_counts: Vec<usize> = Vec::new();
    let ghost mut k: int = 0;
    assert(all.skip(0) =~= all);
    while rest.len() > 0
        invariant
            all == pools@,
            0 <= k <= all.len(),
            rest@ == all.skip(k),
            forall|m: int| 0 <= m < all.len() ==> (#[trigger] all[m]).wf(),
            graph_nodes(all, all.len() as int).len() <= usize::MAX,
            forall|m: int, b: int| m < k ==> !#[trigger] builder_fails(all, m, b),
            nodes@ == graph_nodes(all, k),
            crate::task_builder::all_wf(nodes@),
            counts@ == own_counts(all).take(k),
            crate::graph_pools::count_sum(counts@, k) == nodes@.len(),
            thread_counts@.len() == k,
            forall|m: int| 0 <= m < k ==> #[trigger] thread_counts@[m] == all[m].thread_count,
        decreases rest@.len(),
    {
        let pool = rest.remove(0);
        assert(pool == all[k]);
        proof {
            lemma_graph_nodes_grow(all, k, k + 1);
            lemma_graph_nodes_grow(all, k + 1, all.len() as int);
        }
        let ghost start = nodes@;
        let ghost builders = pool.pending_builders@;
        let ghost own = pool.nodes();
        let PoolBuilder { thread_count, callbacks, pending_builders } = pool;
        let mut pending = pending_builders;
        let ghost mut b: int = 0;
        assert(builders.skip(0) =~= builders);
        assert(nodes@ =~= start + own.take(0));
        while pending.len() > 0
            invariant
                all == pools@,
                0 <= k < all.len(),
                builders == all[k].pending_builders@,
                own == all[k].nodes(),
                all[k].wf(),
                0 <= b <= builders.len(),
                pending@ == builders.skip(b),
                forall|m: int, c: int|
                    m < k || m == k && c < b ==> !#[trigger] builder_fails(all, m, c),
                crate::task_builder::all_wf(nodes@),
                nodes@ == start + own.take(b),
            decreases pending@.len(),
        {
            let builder = pending.remove(0);
            assert(builder == builders[b]);
            assert(builders[b].wf());
            let callback_name = builder.name().to_owned();
            match builder.build() {
                Ok(node) => {
                    let ghost before = nodes@;
                    nodes.push(node);
                    proof {
                        assert(!builder_fails(all, k, b));
                        assert(own[b] == builders[b].node());
                        assert(nodes@ =~= start + own.take(b + 1));
                        assert forall|n: int| 0 <= n < nodes@.len() implies (#[trigger]
                        nodes@[n]).wf() by {
                            if n < before.len() {
                                assert(before[n].wf());
                            }
                        }
                        b = b + 1;
                        assert(pending@ =~= builders.skip(b));
                    }
                },
                Err(error) => {
                    let r: Result<
                        (Vec<CallbackNode<T>>, Vec<usize>, Vec<usize>),
                        TaskGraphBuildError,
                    > = Err(TaskGraphBuildError::CallbackBuildError { callback_name, error });
                    assert(builder_fails(all, k, b));
                    assert(first_failure(all, k, b, r->Err_0));
                    return r;
                },
            }
        }
        let ghost built = nodes@;
        let ghost given = callbacks@;
        let mut callbacks = callbacks;
        nodes.append(&mut callbacks);
        proof {
            assert(nodes@ =~= start + own);
            assert forall|n: int| 0 <= n < nodes@.len() implies (#[trigger] nodes@[n]).wf() by {
                if n < built.len() {
                    assert(built[n].wf());
                } else {
                    assert(given[n - built.len()].wf());
                }
            }
            assert forall|m: int, c: int| m < k + 1 implies !#[trigger] builder_fails(all, m, c) by {
                if m == k && c >= b {
                    assert(!(c < builders.len()));
                }
            }
        }
        let total: usize = nodes.len();
        let ghost counts_before = counts@;
        let mut counted: usize = 0;
        let mut j: usize = 0;
        while j < counts.len()
            invariant
                j <= counts@.len(),
                counts@ == counts_before,
                counts_before.len() == k,
                counted == crate::graph_pools::count_sum(counts_before, j as int),
                crate::graph_pools::count_sum(counts_before, k) == start.len(),
                start.len() <= usize::MAX,
            decreases counts@.len() - j,
        {
            proof {
                crate::graph_pools::lemma_count_sum(counts_before, j + 1, k);
            }
            counted = counted + counts[j];
            j = j + 1;
        }
        assert(counted == start.len());
        counts.push(total - counted);
        thread_counts.push(thread_count);
        proof {
            assert(own_counts(all)[k] == own.len());
            assert(counts@ =~= own_counts(all).take(k + 1));
            lemma_count_sum_prefix(counts_before, counts@, k);
            k = k + 1;
            assert(rest@ =~= all.skip(k));
        }
    }
    assert(own_counts(all).take(k) =~= own_counts(all));
    Ok((nodes, counts, thread_counts))
}

proof fn lemma_count_sum_prefix(a: Seq<usize>, b: Seq<usize>, k: int)
    requires
        0 <= k <= a.len() <= b.len(),
        forall|i: int| 0 <= i < a.len() ==> #[trigger] a[i] == b[i],
    ensures
        crate::graph_pools::count_sum(a, k) == crate::graph_pools::count_sum(b, k),
    decreases k,
{
    if k > 0 {
        lemma_count_sum_prefix(a, b, k - 1);
        assert(a[k - 1] == b[k - 1]);
    }
}

proof fn lemma_graph_nodes_grow<T>(pools: Seq<PoolBuilder<T>>, k: int, n: int)
    requires
        0 <= k <= n <= pools.len(),
    ensures
        graph_nodes(pools, k).len() <= graph_nodes(pools, n).len(),
        k < n ==> pools[k].nodes().len() <= graph_nodes(pools, n).len(),
    decreases n,
{
    if k < n {
        lemma_graph_nodes_grow(pools, k, n - 1);
    }
}

/// Runs the steps in order, each on the nodes so far, and adds what each
/// returns. Stops at the first that fails.
fn run_graph_steps<T>(
    nodes: &mut Vec<CallbackNode<T>>,
    steps: &Vec<AnyGraphStep<T>>,
    registry: &mut ChannelRegistry,
) -> (r: Result<(), TaskGraphBuildError>)
    requires
        crate::task_builder::all_wf(old(nodes)@),
        old(registry).wf(),
    ensures
        crate::task_builder::all_wf(final(nodes)@),
        final(registry).wf(),
        r is Ok ==> reaches(
            old(nodes)@,
            *old(registry),
            steps@,
            steps@.len() as int,
            final(nodes)@,
            *final(registry),
        ),
        r is Err ==> r->Err_0 is BuildStepError && exists|k: int| #[trigger]
            step_fails(old(nodes)@, *old(registry), steps@, k, r->Err_0),
{
    let ghost start = nodes@;
    let ghost first = *registry;
    let mut k: usize = 0;
    while k < steps.len()
        invariant
            k <= steps@.len(),
            crate::task_builder::all_wf(nodes@),
            registry.wf(),
            start == old(nodes)@,
            first == *old(registry),
            reaches(start, first, steps@, k as int, nodes@, *registry),
        decreases steps@.len() - k,
    {
        let ghost known = *registry;
        match steps[k].inner.build_step(nodes, registry) {
            Ok(added) => {
                let ghost before = nodes@;
                let ghost new = added;
                let mut added = added;
                nodes.append(&mut added);
                proof {
                    let m = k + 1;
                    assert(steps@[m - 1].inner.adds(before, known, Ok(new), *registry));
                    assert(reaches(start, first, steps@, m, before + new@, *registry));
                    assert forall|n: int| 0 <= n < nodes@.len() implies (#[trigger]
                    nodes@[n]).wf() by {
                        if n < before.len() {
                            assert(before[n].wf());
                        } else {
                            assert(new@[n - before.len()].wf());
                        }
                    }
                }
            },
            Err(error) => {
                assert(steps@[k as int].inner.adds(nodes@, known, Err(error), *registry));
                let step_name = steps[k].inner.name().to_owned();
                let r: Result<(), TaskGraphBuildError> = Err(
                    TaskGraphBuildError::BuildStepError { step_name, error },
                );
                proof {
                    let e = r->Err_0;
                    assert(e->BuildStepError_error == error);
                    assert(steps@[k as int].inner.adds(
                        nodes@,
                        known,
                        Err(e->BuildStepError_error),
                        *registry,
                    ));
                    assert(step_fails(start, first, steps@, k as int, e));
                }
                return r;
            },
        }
        k = k + 1;
    }
    Ok(())
}

impl<T> Default for TaskGraphBuilder<T> {
    fn default() -> (r: Self)
        ensures
            r.wf(),
            r.pools@.len() == 0,
            r.build_steps@.len() == 0,
            r.execution_log_level_override is None,
            r.channel_registry.is_fresh(),
            !r.debug_info,
    {
        TaskGraphBuilder::new()
    }
}

/// The nodes of the pools come first, in order; build steps only add nodes
/// behind them.
pub proof fn law_pool_nodes_come_first<T>(
    builder: TaskGraphBuilder<T>,
    nodes: Seq<CallbackNode<T>>,
)
    requires
        builder.may_connect(nodes),
        builder.execution_log_level_override is None,
    ensures
        graph_nodes(builder.pools@, builder.pools@.len() as int).len() <= nodes.len(),
        nodes.take(graph_nodes(builder.pools@, builder.pools@.len() as int).len() as int)
            == graph_nodes(builder.pools@, builder.pools@.len() as int),
{
    let (before, known) = choose|before: Seq<CallbackNode<T>>, known: ChannelRegistry| #[trigger]
        builder.may_reach(before, known) && nodes == leveled(
            before,
            builder.execution_log_level_override,
        );
    let start = graph_nodes(builder.pools@, builder.pools@.len() as int);
    let n = builder.build_steps@.len() as int;
    let first = choose|first: ChannelRegistry| #[trigger]
        builder.registers_to(first) && reaches(
            start,
            first,
            builder.build_steps@,
            n,
            before,
            known,
        );
    lemma_reaches_grows(start, first, builder.build_steps@, n, before, known);
}

} // verus!
