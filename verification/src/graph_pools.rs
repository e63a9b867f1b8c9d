//! Distributing the nodes of a graph over its thread pools.
use vstd::prelude::*;

use crate::callback::CallbackNode;
use crate::callback_storage::CallbackStorage;
use crate::executor::ThreadPoolConfig;

verus! {

/// How many nodes the first `k` pools have of their own.
pub open spec fn count_sum(counts: Seq<usize>, k: int) -> int
    decreases k,
{
    if k <= 0 {
        0
    } else {
        count_sum(counts, k - 1) + counts[k - 1]
    }
}

pub(crate) proof fn lemma_count_sum(counts: Seq<usize>, k: int, n: int)
    requires
        0 <= k <= n <= counts.len(),
    ensures
        0 <= count_sum(counts, k) <= count_sum(counts, n),
    decreases n,
{
    if k < n {
        lemma_count_sum(counts, k, n - 1);
    } else if k > 0 {
        lemma_count_sum(counts, k - 1, k - 1);
    }
}

/// The nodes of pool `k`: its own, and for the first pool also those behind
/// the own nodes of all pools.
pub open spec fn pool_part<T>(nodes: Seq<CallbackNode<T>>, counts: Seq<usize>, k: int) -> Seq<
    CallbackNode<T>,
> {
    let own = nodes.subrange(count_sum(counts, k), count_sum(counts, k + 1));
    if k == 0 {
        own + nodes.skip(count_sum(counts, counts.len() as int))
    } else {
        own
    }
}

/// Distributes the nodes: each pool gets its own, in order, and the first pool
/// also gets those that belong to none.
pub(crate) fn split_pools<T>(
    nodes: Vec<CallbackNode<T>>,
    counts: &Vec<usize>,
    thread_counts: &Vec<usize>,
) -> (pools: Vec<ThreadPoolConfig<T>>)
    requires
        counts@.len() == thread_counts@.len(),
        count_sum(counts@, counts@.len() as int) <= nodes@.len(),
    ensures
        pools@.len() == counts@.len(),
        forall|k: int|
            0 <= k < pools@.len() ==> (#[trigger] pools@[k]).thread_count == thread_counts@[k]
                && pools@[k].nodes.holds(pool_part(nodes@, counts@, k)),
{
    let ghost all = nodes@;
    let ghost total = count_sum(counts@, counts@.len() as int);
    let mut rest = nodes;
    let mut own: usize = 0;
    let mut j: usize = 0;
    assert(rest.len() == all.len());
    while j < counts.len()
        invariant
            j <= counts@.len(),
            own == count_sum(counts@, j as int),
            total == count_sum(counts@, counts@.len() as int),
            total <= all.len() <= usize::MAX,
        decreases counts@.len() - j,
    {
        proof {
            lemma_count_sum(counts@, j + 1, counts@.len() as int);
        }
        own = own + counts[j];
        j = j + 1;
    }
    let extras = rest.split_off(own);
    let ghost tail = extras@;
    let mut extras = extras;
    assert(tail =~= all.skip(total));
    assert(rest@ =~= all.take(total));
    let mut pools: Vec<ThreadPoolConfig<T>> = Vec::new();
    let mut k: usize = 0;
    while k < counts.len()
        invariant
            k <= counts@.len(),
            counts@.len() == thread_counts@.len(),
            total == count_sum(counts@, counts@.len() as int),
            0 <= count_sum(counts@, k as int) <= total <= all.len(),
            rest@ == all.subrange(count_sum(counts@, k as int), total),
            tail == all.skip(total),
            k == 0 ==> extras@ == tail,
            pools@.len() == k,
            forall|m: int|
                0 <= m < k ==> (#[trigger] pools@[m]).thread_count == thread_counts@[m]
                    && pools@[m].nodes.holds(pool_part(all, counts@, m)),
        decreases counts@.len() - k,
    {
        proof {
            lemma_count_sum(counts@, k as int, k as int);
            lemma_count_sum(counts@, k + 1, counts@.len() as int);
        }
        let ghost start = count_sum(counts@, k as int);
        let ghost end = count_sum(counts@, k + 1);
        let behind = rest.split_off(counts[k]);
        let mut part = rest;
        rest = behind;
        assert(part@ =~= all.subrange(start, end));
        assert(rest@ =~= all.subrange(end, total));
        if k == 0 {
            part.append(&mut extras);
        }
        assert(part@ =~= pool_part(all, counts@, k as int));
        pools.push(ThreadPoolConfig::new(thread_counts[k], CallbackStorage::from_nodes(part)));
        k = k + 1;
    }
    pools
}

/// Whether place `i` of pool `k` is where node `n` went.
pub open spec fn went_to<T>(nodes: Seq<CallbackNode<T>>, counts: Seq<usize>, n: int, k: int, i: int) -> bool {
    &&& 0 <= k < counts.len()
    &&& 0 <= i < pool_part(nodes, counts, k).len()
    &&& pool_part(nodes, counts, k)[i] == nodes[n]
}

/// Every node goes to a pool.
pub proof fn law_every_node_has_a_pool<T>(nodes: Seq<CallbackNode<T>>, counts: Seq<usize>, n: int)
    requires
        0 <= n < nodes.len(),
        counts.len() > 0,
        count_sum(counts, counts.len() as int) <= nodes.len(),
    ensures
        exists|k: int, i: int| #[trigger] went_to(nodes, counts, n, k, i),
{
    let total = count_sum(counts, counts.len() as int);
    lemma_count_sum(counts, 0, counts.len() as int);
    if n < total {
        lemma_own_pool(nodes, counts, n, counts.len() as int);
    } else {
        lemma_count_sum(counts, 1, counts.len() as int);
        let own = nodes.subrange(0, count_sum(counts, 1));
        assert(count_sum(counts, 0) == 0);
        let i = own.len() + (n - total);
        assert(pool_part(nodes, counts, 0)[i] == nodes.skip(total)[n - total]);
        assert(went_to(nodes, counts, n, 0, i));
    }
}

proof fn lemma_own_pool<T>(nodes: Seq<CallbackNode<T>>, counts: Seq<usize>, n: int, m: int)
    requires
        0 <= m <= counts.len(),
        0 <= n < count_sum(counts, m),
        count_sum(counts, counts.len() as int) <= nodes.len(),
    ensures
        exists|k: int, i: int| #[trigger] went_to(nodes, counts, n, k, i),
    decreases m,
{
    if n < count_sum(counts, m - 1) {
        lemma_own_pool(nodes, counts, n, m - 1);
    } else {
        let k = m - 1;
        lemma_count_sum(counts, k, counts.len() as int);
        lemma_count_sum(counts, m, counts.len() as int);
        let i = n - count_sum(counts, k);
        assert(pool_part(nodes, counts, k)[i] == nodes[n]);
        assert(went_to(nodes, counts, n, k, i));
    }
}

/// How many ports the nodes have.
pub open spec fn port_total<T>(nodes: Seq<CallbackNode<T>>) -> nat
    decreases nodes.len(),
{
    if nodes.len() == 0 {
        0
    } else {
        port_total(nodes.drop_last()) + nodes.last().subscribers@.len()
            + nodes.last().publishers@.len()
    }
}

proof fn lemma_port_total_add<T>(a: Seq<CallbackNode<T>>, b: Seq<CallbackNode<T>>)
    ensures
        port_total(a + b) == port_total(a) + port_total(b),
    decreases b.len(),
{
    if b.len() == 0 {
        assert(a + b =~= a);
    } else {
        lemma_port_total_add(a, b.drop_last());
        assert((a + b).drop_last() =~= a + b.drop_last());
        assert((a + b).last() == b.last());
    }
}

/// The ports of the nodes of the first `k` pools.
spec fn parts_ports<T>(nodes: Seq<CallbackNode<T>>, counts: Seq<usize>, k: int) -> int
    decreases k,
{
    if k <= 0 {
        0
    } else {
        parts_ports(nodes, counts, k - 1) + port_total(pool_part(nodes, counts, k - 1))
    }
}

/// The nodes of the first `k` pools.
spec fn parts_len<T>(nodes: Seq<CallbackNode<T>>, counts: Seq<usize>, k: int) -> int
    decreases k,
{
    if k <= 0 {
        0
    } else {
        parts_len(nodes, counts, k - 1) + pool_part(nodes, counts, k - 1).len()
    }
}

proof fn lemma_parts<T>(nodes: Seq<CallbackNode<T>>, counts: Seq<usize>, k: int)
    requires
        0 < k <= counts.len(),
        count_sum(counts, counts.len() as int) <= nodes.len(),
    ensures
        parts_ports(nodes, counts, k) == port_total(nodes.take(count_sum(counts, k)))
            + port_total(nodes.skip(count_sum(counts, counts.len() as int))),
        parts_len(nodes, counts, k) == count_sum(counts, k) + nodes.len() - count_sum(
            counts,
            counts.len() as int,
        ),
    decreases k,
{
    let start = count_sum(counts, k - 1);
    let end = count_sum(counts, k);
    let total = count_sum(counts, counts.len() as int);
    lemma_count_sum(counts, k - 1, k);
    lemma_count_sum(counts, k, counts.len() as int);
    let own = nodes.subrange(start, end);
    lemma_port_total_add(nodes.take(start), own);
    assert(nodes.take(start) + own =~= nodes.take(end));
    if k == 1 {
        assert(count_sum(counts, 0) == 0);
        assert(nodes.take(0) =~= Seq::empty());
        lemma_port_total_add(own, nodes.skip(total));
        assert(parts_ports(nodes, counts, 0) == 0);
        assert(parts_len(nodes, counts, 0) == 0);
    } else {
        lemma_parts(nodes, counts, k - 1);
    }
}

/// The channels and names of a pool are those of its nodes.
pub(crate) proof fn lemma_storage_counts<T>(
    storage: Seq<crate::callback_storage::SharedCallbackNode<T>>,
    nodes: Seq<CallbackNode<T>>,
    n: int,
)
    requires
        0 <= n <= nodes.len(),
        storage.len() == nodes.len(),
        forall|i: int| 0 <= i < nodes.len() ==> (#[trigger] storage[i]).node == nodes[i],
    ensures
        crate::executor::storage_channels(storage, n).len() == port_total(nodes.take(n)),
        crate::executor::storage_names(storage, n).len() == n,
    decreases n,
{
    if n > 0 {
        lemma_storage_counts(storage, nodes, n - 1);
        assert(nodes.take(n).drop_last() =~= nodes.take(n - 1));
        assert(storage[n - 1].node == nodes[n - 1]);
    } else {
        assert(nodes.take(0) =~= Seq::empty());
    }
}

proof fn lemma_pool_counts<T>(
    pools: Seq<ThreadPoolConfig<T>>,
    nodes: Seq<CallbackNode<T>>,
    counts: Seq<usize>,
    k: int,
)
    requires
        0 <= k <= pools.len(),
        pools.len() == counts.len(),
        forall|m: int|
            0 <= m < pools.len() ==> (#[trigger] pools[m]).nodes.holds(
                pool_part(nodes, counts, m),
            ),
    ensures
        crate::executor::pool_channels(pools, k).len() == parts_ports(nodes, counts, k),
        crate::executor::pool_names(pools, k).len() == parts_len(nodes, counts, k),
    decreases k,
{
    if k > 0 {
        lemma_pool_counts(pools, nodes, counts, k - 1);
        let part = pool_part(nodes, counts, k - 1);
        assert(pools[k - 1].nodes.holds(part));
        lemma_storage_counts(pools[k - 1].nodes.nodes@, part, part.len() as int);
        assert(part.take(part.len() as int) =~= part);
    }
}

/// The pools have as many channels and names as the nodes together.
pub(crate) proof fn lemma_pools_keep_counts<T>(
    pools: Seq<ThreadPoolConfig<T>>,
    nodes: Seq<CallbackNode<T>>,
    counts: Seq<usize>,
)
    requires
        pools.len() == counts.len(),
        counts.len() > 0,
        count_sum(counts, counts.len() as int) <= nodes.len(),
        forall|m: int|
            0 <= m < pools.len() ==> (#[trigger] pools[m]).nodes.holds(
                pool_part(nodes, counts, m),
            ),
    ensures
        crate::executor::pool_channels(pools, pools.len() as int).len() == port_total(nodes),
        crate::executor::pool_names(pools, pools.len() as int).len() == nodes.len(),
{
    let total = count_sum(counts, counts.len() as int);
    lemma_count_sum(counts, 0, counts.len() as int);
    lemma_pool_counts(pools, nodes, counts, counts.len() as int);
    lemma_parts(nodes, counts, counts.len() as int);
    lemma_port_total_add(nodes.take(total), nodes.skip(total));
    assert(nodes.take(total) + nodes.skip(total) =~= nodes);
}

/// Port counts do not depend on where ports stand.
pub(crate) proof fn lemma_port_total_kept<T>(a: Seq<CallbackNode<T>>, b: Seq<CallbackNode<T>>)
    requires
        a.len() == b.len(),
        forall|n: int|
            0 <= n < a.len() ==> (#[trigger] b[n]).subscribers == a[n].subscribers
                && b[n].publishers == a[n].publishers,
    ensures
        port_total(a) == port_total(b),
    decreases a.len(),
{
    if a.len() > 0 {
        assert forall|n: int| 0 <= n < a.drop_last().len() implies (#[trigger]
        b.drop_last()[n]).subscribers == a.drop_last()[n].subscribers
            && b.drop_last()[n].publishers == a.drop_last()[n].publishers by {
            assert(b[n].subscribers == a[n].subscribers);
        }
        lemma_port_total_kept(a.drop_last(), b.drop_last());
        assert(b[a.len() - 1].subscribers == a[a.len() - 1].subscribers);
    }
}

} // verus!
