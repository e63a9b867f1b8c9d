//! Parameters to set up any executor.
use vstd::prelude::*;

use crate::callback::CallbackNode;
use crate::callback_storage::{CallbackStorage, SharedCallbackNode};
use crate::scheduling::CallbackNodeId;
use crate::string_interner::{CallbackNameTag, ChannelNameTag, StringInterner};
use crate::time::FrameworkTime;

verus! {

/// A pool of threads and the nodes that it runs.
#[verifier::reject_recursive_types(T)]
pub struct ThreadPoolConfig<T> {
    pub thread_count: usize,
    pub nodes: CallbackStorage<T>,
}

impl<T> ThreadPoolConfig<T> {
    pub fn new(virtual_thread_count: usize, nodes: CallbackStorage<T>) -> (r: Self)
        ensures
            r.thread_count == virtual_thread_count,
            r.nodes == nodes,
    {
        ThreadPoolConfig { thread_count: virtual_thread_count, nodes }
    }
}

/// The channels of a node, inputs first.
pub open spec fn node_channels<T>(node: CallbackNode<T>) -> Seq<Seq<char>> {
    node.subscribers@.map_values(
        |port: crate::callback::SubscriberPort| port.config.channel_name@,
    ) + node.publishers@.map_values(
        |port: crate::callback::PublisherPort| port.config.channel_name@,
    )
}

/// The channels of the first `n` nodes, node after node.
pub open spec fn storage_channels<T>(nodes: Seq<SharedCallbackNode<T>>, n: int) -> Seq<Seq<char>>
    decreases n,
{
    if n <= 0 {
        Seq::empty()
    } else {
        storage_channels(nodes, n - 1) + node_channels(nodes[n - 1].node)
    }
}

/// The names of the first `n` nodes.
pub open spec fn storage_names<T>(nodes: Seq<SharedCallbackNode<T>>, n: int) -> Seq<Seq<char>>
    decreases n,
{
    if n <= 0 {
        Seq::empty()
    } else {
        storage_names(nodes, n - 1).push(nodes[n - 1].node.name@)
    }
}

/// The channels of the first `k` pools, pool after pool.
pub open spec fn pool_channels<T>(pools: Seq<ThreadPoolConfig<T>>, k: int) -> Seq<Seq<char>>
    decreases k,
{
    if k <= 0 {
        Seq::empty()
    } else {
        pool_channels(pools, k - 1) + storage_channels(
            pools[k - 1].nodes.nodes@,
            pools[k - 1].nodes.nodes@.len() as int,
        )
    }
}

/// The names of the nodes of the first `k` pools.
pub open spec fn pool_names<T>(pools: Seq<ThreadPoolConfig<T>>, k: int) -> Seq<Seq<char>>
    decreases k,
{
    if k <= 0 {
        Seq::empty()
    } else {
        pool_names(pools, k - 1) + storage_names(
            pools[k - 1].nodes.nodes@,
            pools[k - 1].nodes.nodes@.len() as int,
        )
    }
}

/// How many nodes the first `k` pools have.
pub open spec fn pool_offset<T>(pools: Seq<ThreadPoolConfig<T>>, k: int) -> int
    decreases k,
{
    if k <= 0 {
        0
    } else {
        pool_offset(pools, k - 1) + pools[k - 1].nodes.nodes@.len()
    }
}

proof fn lemma_interned_len(names: Seq<Seq<char>>, values: Seq<Seq<char>>)
    ensures
        crate::string_interner::interned_all(names, values).len() <= names.len() + values.len(),
    decreases values.len(),
{
    if values.len() > 0 {
        lemma_interned_len(names, values.drop_last());
    }
}

/// Interns one name after those of `done`.
fn intern_next<Tag>(
    interner: &mut StringInterner<Tag>,
    name: &String,
    Ghost(done): Ghost<Seq<Seq<char>>>,
)
    requires
        old(interner).wf(),
        crate::string_interner::texts(old(interner).names@)
            == crate::string_interner::interned_all(Seq::empty(), done),
        done.len() <= u32::MAX,
    ensures
        final(interner).wf(),
        crate::string_interner::texts(final(interner).names@)
            == crate::string_interner::interned_all(Seq::empty(), done.push(name@)),
{
    proof {
        lemma_interned_len(Seq::empty(), done);
        crate::string_interner::lemma_interned_in_turn(Seq::empty(), done, seq![name@]);
        assert(done + seq![name@] =~= done.push(name@));
    }
    let _ = interner.intern(name.as_str());
}

/// Interns the channels of a node, inputs first, after those of `done`.
fn intern_node_channels<T>(
    interner: &mut StringInterner<ChannelNameTag>,
    node: &CallbackNode<T>,
    Ghost(done): Ghost<Seq<Seq<char>>>,
)
    requires
        old(interner).wf(),
        crate::string_interner::texts(old(interner).names@)
            == crate::string_interner::interned_all(Seq::empty(), done),
        done.len() + node_channels(*node).len() <= u32::MAX,
    ensures
        final(interner).wf(),
        crate::string_interner::texts(final(interner).names@)
            == crate::string_interner::interned_all(Seq::empty(), done + node_channels(*node)),
{
    let ghost all = node_channels(*node);
    let mut s: usize = 0;
    assert(done + all.take(0) =~= done);
    while s < node.subscribers.len()
        invariant
            s <= node.subscribers@.len(),
            all == node_channels(*node),
            interner.wf(),
            done.len() + all.len() <= u32::MAX,
            crate::string_interner::texts(interner.names@)
                == crate::string_interner::interned_all(Seq::empty(), done + all.take(s as int)),
        decreases node.subscribers@.len() - s,
    {
        let ghost before = done + all.take(s as int);
        intern_next(interner, &node.subscribers[s].config.channel_name, Ghost(before));
        assert(before.push(all[s as int]) =~= done + all.take(s + 1));
        s = s + 1;
    }
    let mut p: usize = 0;
    let ghost n = node.subscribers@.len();
    while p < node.publishers.len()
        invariant
            p <= node.publishers@.len(),
            n == node.subscribers@.len(),
            all == node_channels(*node),
            interner.wf(),
            done.len() + all.len() <= u32::MAX,
            crate::string_interner::texts(interner.names@)
                == crate::string_interner::interned_all(Seq::empty(), done + all.take(n + p)),
        decreases node.publishers@.len() - p,
    {
        let ghost before = done + all.take(n + p);
        intern_next(interner, &node.publishers[p].config.channel_name, Ghost(before));
        assert(before.push(all[n + p]) =~= done + all.take(n + p + 1));
        p = p + 1;
    }
    assert(all.take(n + p) =~= all);
}

/// Interns the names of the graph's nodes and of their channels, pool after
/// pool and node after node; within a node, inputs come before outputs.
pub fn build_name_interners<T>(pools: &Vec<ThreadPoolConfig<T>>) -> (r: (
    StringInterner<ChannelNameTag>,
    StringInterner<CallbackNameTag>,
))
    requires
        pool_channels(pools@, pools@.len() as int).len() <= u32::MAX,
        pool_names(pools@, pools@.len() as int).len() <= u32::MAX,
    ensures
        r.0.wf(),
        r.1.wf(),
        crate::string_interner::texts(r.0.names@) == crate::string_interner::interned_all(
            Seq::empty(),
            pool_channels(pools@, pools@.len() as int),
        ),
        crate::string_interner::texts(r.1.names@) == crate::string_interner::interned_all(
            Seq::empty(),
            pool_names(pools@, pools@.len() as int),
        ),
{
    let mut channel_interner: StringInterner<ChannelNameTag> = StringInterner::new();
    let mut callback_interner: StringInterner<CallbackNameTag> = StringInterner::new();
    let mut k: usize = 0;
    assert(crate::string_interner::texts(channel_interner.names@) =~= Seq::empty());
    assert(crate::string_interner::texts(callback_interner.names@) =~= Seq::empty());
    while k < pools.len()
        invariant
            k <= pools@.len(),
            channel_interner.wf(),
            callback_interner.wf(),
            pool_channels(pools@, pools@.len() as int).len() <= u32::MAX,
            pool_names(pools@, pools@.len() as int).len() <= u32::MAX,
            crate::string_interner::texts(channel_interner.names@)
                == crate::string_interner::interned_all(
                Seq::empty(),
                pool_channels(pools@, k as int),
            ),
            crate::string_interner::texts(callback_interner.names@)
                == crate::string_interner::interned_all(Seq::empty(), pool_names(pools@, k as int)),
        decreases pools@.len() - k,
    {
        let nodes = &pools[k].nodes.nodes;
        let ghost channels = pool_channels(pools@, k as int);
        let ghost names = pool_names(pools@, k as int);
        let mut i: usize = 0;
        assert(channels + storage_channels(nodes@, 0) =~= channels);
        assert(names + storage_names(nodes@, 0) =~= names);
        proof {
            lemma_pools_grow(pools@, k + 1, pools@.len() as int);
        }
        while i < nodes.len()
            invariant
                i <= nodes@.len(),
                channel_interner.wf(),
                callback_interner.wf(),
                channels.len() + storage_channels(nodes@, nodes@.len() as int).len() <= u32::MAX,
                names.len() + storage_names(nodes@, nodes@.len() as int).len() <= u32::MAX,
                crate::string_interner::texts(channel_interner.names@)
                    == crate::string_interner::interned_all(
                    Seq::empty(),
                    channels + storage_channels(nodes@, i as int),
                ),
                crate::string_interner::texts(callback_interner.names@)
                    == crate::string_interner::interned_all(
                    Seq::empty(),
                    names + storage_names(nodes@, i as int),
                ),
            decreases nodes@.len() - i,
        {
            proof {
                lemma_storage_grows(nodes@, i + 1, nodes@.len() as int);
            }
            let node = &nodes[i].node;
            let ghost named = names + storage_names(nodes@, i as int);
            intern_next(&mut callback_interner, &node.name, Ghost(named));
            assert(named.push(node.name@) =~= names + storage_names(nodes@, i + 1));
            let ghost before = channels + storage_channels(nodes@, i as int);
            intern_node_channels(&mut channel_interner, node, Ghost(before));
            assert(before + node_channels(*node) =~= channels + storage_channels(nodes@, i + 1));
            i = i + 1;
        }
        k = k + 1;
    }
    (channel_interner, callback_interner)
}

proof fn lemma_storage_grows<T>(nodes: Seq<SharedCallbackNode<T>>, m: int, n: int)
    requires
        m <= n,
    ensures
        storage_channels(nodes, m).len() <= storage_channels(nodes, n).len(),
        storage_names(nodes, m).len() <= storage_names(nodes, n).len(),
    decreases n - m,
{
    if m < n {
        lemma_storage_grows(nodes, m, n - 1);
    }
}

proof fn lemma_pools_grow<T>(pools: Seq<ThreadPoolConfig<T>>, m: int, n: int)
    requires
        m <= n,
    ensures
        pool_channels(pools, m).len() <= pool_channels(pools, n).len(),
        pool_names(pools, m).len() <= pool_names(pools, n).len(),
    decreases n - m,
{
    if m < n {
        lemma_pools_grow(pools, m, n - 1);
    }
}

/// Parameters to set up any executor.
#[verifier::reject_recursive_types(T)]
pub struct ExecutorParams<T> {
    pub pools: Vec<ThreadPoolConfig<T>>,
    pub channel_interner: StringInterner<ChannelNameTag>,
    pub callback_interner: StringInterner<CallbackNameTag>,
}

/// Whether two pools are the same up to the identities of their nodes.
pub open spec fn same_but_ids<T>(a: ThreadPoolConfig<T>, b: ThreadPoolConfig<T>) -> bool {
    &&& a.thread_count == b.thread_count
    &&& a.nodes.nodes@.len() == b.nodes.nodes@.len()
    &&& forall|i: int|
        0 <= i < a.nodes.nodes@.len() ==> same_node_but_id(
            #[trigger] a.nodes.nodes@[i],
            b.nodes.nodes@[i],
        )
}

/// Whether two nodes are the same up to their identity.
pub open spec fn same_node_but_id<T>(a: SharedCallbackNode<T>, b: SharedCallbackNode<T>) -> bool {
    &&& a.run_state == b.run_state
    &&& a.next_exec_time == b.next_exec_time
    &&& a.node == (CallbackNode { id: a.node.id, ..b.node })
}

/// Whether `params` are for the nodes of `pools`, numbered pool after pool, with
/// their names and channels interned.
pub open spec fn is_numbered<T>(
    params: ExecutorParams<T>,
    pools: Seq<ThreadPoolConfig<T>>,
) -> bool {
    &&& params.pools@.len() == pools.len()
    &&& forall|k: int| 0 <= k < pools.len() ==> same_but_ids(#[trigger] params.pools@[k], pools[k])
    &&& forall|k: int, i: int|
        0 <= k < pools.len() && 0 <= i < pools[k].nodes.nodes@.len() ==> (#[trigger]
        params.pools@[k].nodes.nodes@[i]).node.id == Some(
            CallbackNodeId((pool_offset(pools, k) + i) as usize),
        )
    &&& params.channel_interner.wf()
    &&& params.callback_interner.wf()
    &&& crate::string_interner::texts(params.channel_interner.names@)
        == crate::string_interner::interned_all(
        Seq::empty(),
        pool_channels(pools, pools.len() as int),
    )
    &&& crate::string_interner::texts(params.callback_interner.names@)
        == crate::string_interner::interned_all(
        Seq::empty(),
        pool_names(pools, pools.len() as int),
    )
}

/// Numbered pools start at the same places.
pub proof fn lemma_numbered_offset<T>(
    params: ExecutorParams<T>,
    pools: Seq<ThreadPoolConfig<T>>,
    k: int,
)
    requires
        is_numbered(params, pools),
        0 <= k <= pools.len(),
    ensures
        pool_offset(params.pools@, k) == pool_offset(pools, k),
    decreases k,
{
    if k > 0 {
        lemma_numbered_offset(params, pools, k - 1);
        assert(same_but_ids(params.pools@[k - 1], pools[k - 1]));
    }
}

impl<T> ExecutorParams<T> {
    /// Numbers the nodes, pool after pool, and interns their names and
    /// channels.
    pub fn new(pools: Vec<ThreadPoolConfig<T>>) -> (r: Self)
        requires
            pool_channels(pools@, pools@.len() as int).len() <= u32::MAX,
            pool_names(pools@, pools@.len() as int).len() <= u32::MAX,
        ensures
            is_numbered(r, pools@),
    {
        let interners = build_name_interners(&pools);
        let mut bound = pools;
        let mut next: usize = 0;
        let mut k: usize = 0;
        while k < bound.len()
            invariant
                k <= bound@.len(),
                bound@.len() == pools@.len(),
                next == pool_offset(pools@, k as int),
                pool_names(pools@, pools@.len() as int).len() <= u32::MAX,
                forall|m: int|
                    0 <= m < pools@.len() ==> same_but_ids(#[trigger] bound@[m], pools@[m]),
                forall|m: int| k <= m < pools@.len() ==> #[trigger] bound@[m] == pools@[m],
                forall|m: int, i: int|
                    0 <= m < k && 0 <= i < pools@[m].nodes.nodes@.len() ==> (#[trigger]
                    bound@[m].nodes.nodes@[i]).node.id == Some(
                        CallbackNodeId((pool_offset(pools@, m) + i) as usize),
                    ),
            decreases bound@.len() - k,
        {
            let ghost before = bound@;
            proof {
                lemma_pools_grow(pools@, k + 1, pools@.len() as int);
                lemma_names_len(pools@, k + 1);
            }
            next = bind_pool(&mut bound[k], next);
            proof {
                assert forall|m: int| 0 <= m < pools@.len() implies same_but_ids(
                    #[trigger] bound@[m],
                    pools@[m],
                ) by {
                    assert(same_but_ids(before[m], pools@[m]));
                }
                assert forall|m: int, i: int|
                    0 <= m < k + 1 && 0 <= i < pools@[m].nodes.nodes@.len() implies (#[trigger]
                bound@[m].nodes.nodes@[i]).node.id == Some(
                    CallbackNodeId((pool_offset(pools@, m) + i) as usize),
                ) by {
                    if m < k {
                        assert(before[m].nodes.nodes@[i].node.id == Some(
                            CallbackNodeId((pool_offset(pools@, m) + i) as usize),
                        ));
                    }
                }
            }
            k = k + 1;
        }
        ExecutorParams { pools: bound, channel_interner: interners.0, callback_interner: interners.1 }
    }

    pub fn pools(&self) -> (r: &Vec<ThreadPoolConfig<T>>)
        ensures
            *r == self.pools,
    {
        &self.pools
    }

    pub fn into_parts(self) -> (r: (
        Vec<ThreadPoolConfig<T>>,
        StringInterner<ChannelNameTag>,
        StringInterner<CallbackNameTag>,
    ))
        ensures
            r == (self.pools, self.channel_interner, self.callback_interner),
    {
        (self.pools, self.channel_interner, self.callback_interner)
    }
}

proof fn lemma_names_len<T>(pools: Seq<ThreadPoolConfig<T>>, k: int)
    ensures
        pool_names(pools, k).len() == pool_offset(pools, k),
    decreases k,
{
    if k > 0 {
        lemma_names_len(pools, k - 1);
        lemma_storage_names_len(
            pools[k - 1].nodes.nodes@,
            pools[k - 1].nodes.nodes@.len() as int,
        );
    }
}

proof fn lemma_storage_names_len<T>(nodes: Seq<SharedCallbackNode<T>>, n: int)
    requires
        0 <= n,
    ensures
        storage_names(nodes, n).len() == n,
    decreases n,
{
    if n > 0 {
        lemma_storage_names_len(nodes, n - 1);
    }
}

/// Numbers the nodes of a pool from `first` on. Returns the next number.
fn bind_pool<T>(pool: &mut ThreadPoolConfig<T>, first: usize) -> (next: usize)
    requires
        first + old(pool).nodes.nodes@.len() <= u32::MAX,
    ensures
        next == first + old(pool).nodes.nodes@.len(),
        same_but_ids(*final(pool), *old(pool)),
        forall|i: int|
            0 <= i < old(pool).nodes.nodes@.len() ==> (#[trigger] final(
                pool).nodes.nodes@[i]).node.id == Some(CallbackNodeId((first + i) as usize)),
{
    let mut i: usize = 0;
    while i < pool.nodes.nodes.len()
        invariant
            i <= pool.nodes.nodes@.len(),
            first + old(pool).nodes.nodes@.len() <= u32::MAX,
            pool.thread_count == old(pool).thread_count,
            pool.nodes.nodes@.len() == old(pool).nodes.nodes@.len(),
            forall|j: int|
                0 <= j < i ==> same_node_but_id(
                    #[trigger] pool.nodes.nodes@[j],
                    old(pool).nodes.nodes@[j],
                ) && pool.nodes.nodes@[j].node.id == Some(CallbackNodeId((first + j) as usize)),
            forall|j: int|
                i <= j < pool.nodes.nodes@.len() ==> #[trigger] pool.nodes.nodes@[j] == old(
                    pool).nodes.nodes@[j],
        decreases pool.nodes.nodes@.len() - i,
    {
        pool.nodes.nodes[i].node.bind_id(CallbackNodeId(first + i));
        i = i + 1;
    }
    first + i
}

/// A handle for signaling an executor to stop.
pub trait ExecutorStopSignal {
    fn request_stop(&mut self);
}

/// Source of monotonic time for an executor. Replay executors substitute a
/// log-driven time source, so that all callbacks see the same replayed time.
pub trait TimeSource {
    fn now(&self) -> FrameworkTime;
}

/// Something that runs a graph.
pub trait Executor {
    type Error;

    /// Start the executor. Callback nodes will begin running after this call.
    fn start(&mut self);

    /// Signal shutdown and block until all threads have joined.
    fn stop(&mut self) -> Result<(), Self::Error>;

    /// Signal shutdown without blocking.
    fn request_stop(&mut self);

    /// Return whether the executor is still running.
    fn is_running(&self) -> bool;
}

} // verus!
