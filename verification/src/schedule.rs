//! Which nodes of a simulation run when: virtual thread pools, periodic nodes
//! and simulation time.
use vstd::prelude::*;

use crate::time::{Duration, FrameworkTime};

verus! {

/// A node that asked to run at a given time.
#[derive(Debug, Clone, Copy, PartialEq, Eq, Structural)]
pub struct TimeTriggeredNode {
    pub index: usize,
    pub requested_exec_time: FrameworkTime,
}

/// A virtual pool tracks how many concurrent "threads" it models, without
/// spawning real OS threads.
#[derive(Debug, Clone, Copy, PartialEq, Eq, Structural)]
pub struct VirtualPool {
    /// Total count of threads in the pool.
    pub virtual_thread_count: usize,
    /// How many threads are taken up by a callback node until its busy time is
    /// over.
    pub num_threads_occupied: usize,
}

/// The scheduling state of a simulation. A node's index into one of the lists
/// is its index into the others.
pub struct Schedule {
    /// Maps each node to its pool.
    pub node_to_pool: Vec<usize>,
    pub virtual_pools: Vec<VirtualPool>,
    pub periodic_nodes: Vec<TimeTriggeredNode>,
    /// Simulation time at which each node's last execution finishes.
    pub node_busy_until: Vec<FrameworkTime>,
    /// Whether each node currently holds a virtual thread of its pool.
    pub node_thread_occupied: Vec<bool>,
    /// Simulation time at which each node first became ready without having
    /// been given a thread since. Used to prefer the nodes that wait longest.
    pub node_ready_since: Vec<Option<FrameworkTime>>,
    pub time: FrameworkTime,
    /// How often the simulation was stepped; stays at the greatest count.
    pub step_count: usize,
    /// When the next input from outside the graph arrives, if one is expected.
    pub next_input: Option<FrameworkTime>,
}

/// How many of the first `n` nodes hold a thread of pool `p`.
pub open spec fn occupancy(
    occupied: Seq<bool>,
    node_to_pool: Seq<usize>,
    p: int,
    n: int,
) -> nat
    decreases n,
{
    if n <= 0 {
        0
    } else {
        occupancy(occupied, node_to_pool, p, n - 1) + if occupied[n - 1] && node_to_pool[n - 1] == p {
            1nat
        } else {
            0nat
        }
    }
}

proof fn lemma_occupancy_set(
    occupied: Seq<bool>,
    node_to_pool: Seq<usize>,
    p: int,
    n: int,
    i: int,
    value: bool,
)
    requires
        0 <= n <= occupied.len(),
        0 <= i < occupied.len(),
    ensures
        occupancy(occupied.update(i, value), node_to_pool, p, n) == occupancy(
            occupied,
            node_to_pool,
            p,
            n,
        ) + if i < n && node_to_pool[i] == p {
            (if value {
                1int
            } else {
                0int
            }) - (if occupied[i] {
                1int
            } else {
                0int
            })
        } else {
            0int
        },
    decreases n,
{
    if n > 0 {
        lemma_occupancy_set(occupied, node_to_pool, p, n - 1, i, value);
    }
}

proof fn lemma_occupancy_none(occupied: Seq<bool>, node_to_pool: Seq<usize>, p: int, n: int)
    requires
        0 <= n <= occupied.len(),
        forall|i: int| 0 <= i < occupied.len() ==> !#[trigger] occupied[i],
    ensures
        occupancy(occupied, node_to_pool, p, n) == 0,
    decreases n,
{
    if n > 0 {
        lemma_occupancy_none(occupied, node_to_pool, p, n - 1);
        assert(!occupied[n - 1]);
    }
}

/// A node that holds a thread is counted.
proof fn lemma_occupancy_positive(
    occupied: Seq<bool>,
    node_to_pool: Seq<usize>,
    p: int,
    n: int,
    i: int,
)
    requires
        0 <= i < n <= occupied.len(),
        occupied[i],
        node_to_pool[i] == p,
    ensures
        occupancy(occupied, node_to_pool, p, n) >= 1,
    decreases n,
{
    if i < n - 1 {
        lemma_occupancy_positive(occupied, node_to_pool, p, n - 1, i);
    }
}

/// Where a node stands in the order of waiting: the time since which it has
/// been ready; a node that is not waiting stands before all others.
pub open spec fn wait_key(since: Seq<Option<FrameworkTime>>, i: usize) -> int {
    match since[i as int] {
        Some(time) => time.nanoseconds as int,
        None => i64::MIN - 1,
    }
}

/// Whether node `a` comes before node `b`: it has waited longer, or equally
/// long and has the smaller index.
pub open spec fn waits_longer(since: Seq<Option<FrameworkTime>>, a: usize, b: usize) -> bool {
    wait_key(since, a) < wait_key(since, b) || (wait_key(since, a) == wait_key(since, b) && a < b)
}

/// Whether `order` lists exactly the nodes of `candidates`, the one that has
/// waited longest first.
pub open spec fn by_wait(
    order: Seq<usize>,
    candidates: Seq<usize>,
    since: Seq<Option<FrameworkTime>>,
) -> bool {
    &&& forall|i: int, j: int|
        0 <= i < j < order.len() ==> waits_longer(since, #[trigger] order[i], #[trigger] order[j])
    &&& forall|x: usize| #[trigger] order.contains(x) <==> candidates.contains(x)
}

/// The candidates, the one that has waited longest first.
pub open spec fn wait_order(candidates: Seq<usize>, since: Seq<Option<FrameworkTime>>) -> Seq<usize> {
    choose|order: Seq<usize>| by_wait(order, candidates, since)
}

/// The order of waiting is determined: whatever way the candidates are sorted,
/// the outcome is the same.
pub proof fn law_wait_order_is_unique(
    a: Seq<usize>,
    b: Seq<usize>,
    candidates: Seq<usize>,
    since: Seq<Option<FrameworkTime>>,
)
    requires
        by_wait(a, candidates, since),
        by_wait(b, candidates, since),
    ensures
        a == b,
    decreases a.len(),
{
    if a.len() == 0 {
        if b.len() > 0 {
            assert(b.contains(b[0]));
            assert(a.contains(b[0]));
        }
    } else {
        assert(a.contains(a[0]));
        assert(b.contains(a[0]));
        assert(b.contains(b[0]));
        assert(a.contains(b[0]));
        let i = choose|i: int| 0 <= i < b.len() && b[i] == a[0];
        let j = choose|j: int| 0 <= j < a.len() && a[j] == b[0];
        if i > 0 && j > 0 {
            assert(waits_longer(since, a[0], a[j]));
            assert(waits_longer(since, b[0], b[i]));
        }
        assert(a[0] == b[0]) by {
            if i > 0 {
                assert(waits_longer(since, b[0], b[i]));
                if j > 0 {
                    assert(waits_longer(since, a[0], a[j]));
                }
            }
        }
        let first = a[0];
        let a1 = a.skip(1);
        let b1 = b.skip(1);
        let rest = a1;
        assert forall|x: usize| #[trigger] a1.contains(x) <==> rest.contains(x) by {}
        assert forall|x: usize| #[trigger] b1.contains(x) <==> rest.contains(x) by {
            if b1.contains(x) {
                let k = choose|k: int| 0 <= k < b1.len() && b1[k] == x;
                assert(b[k + 1] == x);
                assert(b.contains(x));
                assert(a.contains(x));
                let m = choose|m: int| 0 <= m < a.len() && a[m] == x;
                assert(waits_longer(since, b[0], b[k + 1]));
                assert(m > 0);
                assert(a1[m - 1] == x);
            }
            if a1.contains(x) {
                let k = choose|k: int| 0 <= k < a1.len() && a1[k] == x;
                assert(a[k + 1] == x);
                assert(a.contains(x));
                assert(b.contains(x));
                let m = choose|m: int| 0 <= m < b.len() && b[m] == x;
                assert(waits_longer(since, a[0], a[k + 1]));
                assert(m > 0);
                assert(b1[m - 1] == x);
            }
        }
        assert forall|p: int, q: int| 0 <= p < q < a1.len() implies waits_longer(
            since,
            #[trigger] a1[p],
            #[trigger] a1[q],
        ) by {
            assert(waits_longer(since, a[p + 1], a[q + 1]));
        }
        assert forall|p: int, q: int| 0 <= p < q < b1.len() implies waits_longer(
            since,
            #[trigger] b1[p],
            #[trigger] b1[q],
        ) by {
            assert(waits_longer(since, b[p + 1], b[q + 1]));
        }
        law_wait_order_is_unique(a1, b1, rest, since);
        assert(a =~= seq![first] + a1);
        assert(b =~= seq![first] + b1);
    }
}

/// The order of waiting exists: it lists exactly the candidates, each once, the
/// one that has waited longest first.
pub proof fn law_wait_order_sorts(candidates: Seq<usize>, since: Seq<Option<FrameworkTime>>)
    ensures
        by_wait(wait_order(candidates, since), candidates, since),
        candidates.no_duplicates() ==> wait_order(candidates, since).len() == candidates.len(),
{
    let order = lemma_sorted_by_wait(candidates, since);
    assert(by_wait(wait_order(candidates, since), candidates, since));
    if candidates.no_duplicates() {
        lemma_by_wait_len(wait_order(candidates, since), candidates, since);
    }
}

/// An order by waiting has as many nodes as there are candidates.
proof fn lemma_by_wait_len(
    order: Seq<usize>,
    candidates: Seq<usize>,
    since: Seq<Option<FrameworkTime>>,
)
    requires
        by_wait(order, candidates, since),
        candidates.no_duplicates(),
    ensures
        order.len() == candidates.len(),
{
    assert(order.no_duplicates()) by {
        assert forall|i: int, j: int|
            0 <= i < order.len() && 0 <= j < order.len() && i != j implies order[i]
            != order[j] by {
            if i < j {
                assert(waits_longer(since, order[i], order[j]));
            } else {
                assert(waits_longer(since, order[j], order[i]));
            }
        }
    }
    order.unique_seq_to_set();
    candidates.unique_seq_to_set();
    assert(order.to_set() =~= candidates.to_set()) by {
        assert forall|x: usize| order.to_set().contains(x) == candidates.to_set().contains(x) by {
            assert(order.contains(x) <==> candidates.contains(x));
        }
    }
}

/// Some order by waiting, found by putting one candidate after the other in
/// its place.
proof fn lemma_sorted_by_wait(candidates: Seq<usize>, since: Seq<Option<FrameworkTime>>) -> (order:
    Seq<usize>)
    ensures
        by_wait(order, candidates, since),
    decreases candidates.len(),
{
    if candidates.len() == 0 {
        Seq::empty()
    } else {
        let x = candidates.last();
        let init = candidates.drop_last();
        let rest = lemma_sorted_by_wait(init, since);
        assert forall|y: usize| #[trigger] candidates.contains(y) <==> (init.contains(y) || y
            == x) by {
            if candidates.contains(y) {
                let i = choose|i: int| 0 <= i < candidates.len() && candidates[i] == y;
                if i < init.len() {
                    assert(init[i] == y);
                }
            }
            if init.contains(y) {
                let i = choose|i: int| 0 <= i < init.len() && init[i] == y;
                assert(candidates[i] == y);
            }
            assert(candidates[candidates.len() - 1] == x);
        }
        if rest.contains(x) {
            rest
        } else {
            lemma_placed_by_wait(rest, init, x, candidates, since)
        }
    }
}

/// `rest` with `x` put in its place.
proof fn lemma_placed_by_wait(
    rest: Seq<usize>,
    init: Seq<usize>,
    x: usize,
    candidates: Seq<usize>,
    since: Seq<Option<FrameworkTime>>,
) -> (order: Seq<usize>)
    requires
        by_wait(rest, init, since),
        !rest.contains(x),
        forall|y: usize| #[trigger] candidates.contains(y) <==> (init.contains(y) || y == x),
    ensures
        by_wait(order, candidates, since),
{
    let at = lemma_place(rest, x, since, rest.len() as int);
    let order = rest.take(at) + seq![x] + rest.skip(at);
    assert forall|i: int, j: int| 0 <= i < j < order.len() implies waits_longer(
        since,
        #[trigger] order[i],
        #[trigger] order[j],
    ) by {
        let a = if i < at { i } else { i - 1 };
        let b = if j < at { j } else { j - 1 };
        if i != at && j != at {
            assert(waits_longer(since, rest[a], rest[b]));
        }
    }
    assert forall|y: usize| #[trigger] order.contains(y) <==> candidates.contains(y) by {
        if order.contains(y) {
            let i = choose|i: int| 0 <= i < order.len() && order[i] == y;
            if i < at {
                assert(rest[i] == y);
                assert(rest.contains(y));
            } else if i > at {
                assert(rest[i - 1] == y);
                assert(rest.contains(y));
            }
        }
        if candidates.contains(y) {
            if y == x {
                assert(order[at] == x);
            } else {
                assert(rest.contains(y));
                let i = choose|i: int| 0 <= i < rest.len() && rest[i] == y;
                if i < at {
                    assert(order[i] == y);
                } else {
                    assert(order[i + 1] == y);
                }
            }
        }
    }
    order
}

/// The place of `x` among the first `n` nodes of an order.
proof fn lemma_place(
    rest: Seq<usize>,
    x: usize,
    since: Seq<Option<FrameworkTime>>,
    n: int,
) -> (at: int)
    requires
        0 <= n <= rest.len(),
        !rest.contains(x),
        forall|i: int, j: int|
            0 <= i < j < rest.len() ==> waits_longer(since, #[trigger] rest[i], #[trigger] rest[j]),
    ensures
        0 <= at <= n,
        forall|i: int| 0 <= i < at ==> waits_longer(since, #[trigger] rest[i], x),
        forall|i: int| at <= i < n ==> waits_longer(since, x, #[trigger] rest[i]),
    decreases n,
{
    if n == 0 {
        0
    } else {
        assert(rest.contains(rest[n - 1]));
        if waits_longer(since, rest[n - 1], x) {
            assert forall|i: int| 0 <= i < n implies waits_longer(since, #[trigger] rest[i], x) by {
                if i < n - 1 {
                    assert(waits_longer(since, rest[i], rest[n - 1]));
                }
            }
            n
        } else {
            lemma_place(rest, x, since, n - 1)
        }
    }
}

/// The nodes that data asks to run, by index: ready and not busy.
pub open spec fn data_candidates(
    ready: Seq<bool>,
    busy_until: Seq<FrameworkTime>,
    time: FrameworkTime,
    n: int,
) -> Seq<usize>
    decreases n,
{
    if n <= 0 {
        Seq::empty()
    } else {
        let rest = data_candidates(ready, busy_until, time, n - 1);
        if ready[n - 1] && time.nanoseconds >= busy_until[n - 1].nanoseconds {
            rest.push((n - 1) as usize)
        } else {
            rest
        }
    }
}

/// `candidates` with the first `k` periodic nodes that are due, not busy and
/// not among them yet.
pub open spec fn with_periodic(
    candidates: Seq<usize>,
    periodic: Seq<TimeTriggeredNode>,
    busy_until: Seq<FrameworkTime>,
    time: FrameworkTime,
    k: int,
) -> Seq<usize>
    decreases k,
{
    if k <= 0 {
        candidates
    } else {
        let rest = with_periodic(candidates, periodic, busy_until, time, k - 1);
        let node = periodic[k - 1];
        if node.requested_exec_time.nanoseconds <= time.nanoseconds && time.nanoseconds
            >= busy_until[node.index as int].nanoseconds && !rest.contains(node.index) {
            rest.push(node.index)
        } else {
            rest
        }
    }
}

/// `since` with `time` noted for those of `candidates` that were not waiting
/// yet.
pub open spec fn noted(
    since: Seq<Option<FrameworkTime>>,
    candidates: Seq<usize>,
    time: FrameworkTime,
) -> Seq<Option<FrameworkTime>> {
    Seq::new(
        since.len(),
        |i: int|
            if candidates.contains(i as usize) && since[i] is None {
                Some(time)
            } else {
                since[i]
            },
    )
}

/// Who gets a thread, and the pools after that, when each node of `order` in
/// turn takes a free thread of its pool if there is one.
pub open spec fn granted(
    order: Seq<usize>,
    pools: Seq<VirtualPool>,
    node_to_pool: Seq<usize>,
) -> (Seq<usize>, Seq<VirtualPool>)
    decreases order.len(),
{
    if order.len() == 0 {
        (Seq::empty(), pools)
    } else {
        let p = node_to_pool[order[0] as int] as int;
        if pools[p].num_threads_occupied < pools[p].virtual_thread_count {
            let taken = VirtualPool {
                virtual_thread_count: pools[p].virtual_thread_count,
                num_threads_occupied: (pools[p].num_threads_occupied + 1) as usize,
            };
            let rest = granted(order.skip(1), pools.update(p, taken), node_to_pool);
            (seq![order[0]] + rest.0, rest.1)
        } else {
            granted(order.skip(1), pools, node_to_pool)
        }
    }
}

/// Threads go to the nodes that have waited longest: a node of a pool gets a
/// thread only if each node of that pool that comes before it in `order` gets
/// one too.
pub proof fn law_longest_wait_first(
    order: Seq<usize>,
    pools: Seq<VirtualPool>,
    node_to_pool: Seq<usize>,
    i: int,
    j: int,
)
    requires
        0 <= i < j < order.len(),
        forall|a: int, b: int|
            0 <= a < b < order.len() ==> #[trigger] order[a] != #[trigger] order[b],
        forall|a: int|
            0 <= a < order.len() ==> node_to_pool[(#[trigger] order[a]) as int] < pools.len(),
        node_to_pool[order[i] as int] == node_to_pool[order[j] as int],
        granted(order, pools, node_to_pool).0.contains(order[j]),
    ensures
        granted(order, pools, node_to_pool).0.contains(order[i]),
    decreases order.len(),
{
    let p = node_to_pool[order[0] as int] as int;
    let all = granted(order, pools, node_to_pool).0;
    let rest = order.skip(1);
    assert forall|a: int| 0 <= a < rest.len() implies node_to_pool[(#[trigger] rest[a]) as int]
        < pools.len() by {
        assert(rest[a] == order[a + 1]);
    }
    if pools[p].num_threads_occupied < pools[p].virtual_thread_count {
        let taken = VirtualPool {
            virtual_thread_count: pools[p].virtual_thread_count,
            num_threads_occupied: (pools[p].num_threads_occupied + 1) as usize,
        };
        let next = pools.update(p, taken);
        let tail = granted(rest, next, node_to_pool).0;
        assert(all =~= seq![order[0]] + tail);
        if i == 0 {
            assert(all[0] == order[0]);
        } else {
            let k = choose|k: int| 0 <= k < all.len() && all[k] == order[j];
            assert(order[0] != order[j]);
            assert(tail[k - 1] == rest[j - 1]);
            law_longest_wait_first(rest, next, node_to_pool, i - 1, j - 1);
            let m = choose|m: int| 0 <= m < tail.len() && tail[m] == rest[i - 1];
            assert(all[m + 1] == order[i]);
        }
    } else if i == 0 {
        assert(rest[j - 1] == order[j]);
        lemma_full_pool_grants_nothing(rest, pools, node_to_pool, j - 1);
    } else {
        assert(rest[j - 1] == order[j]);
        assert(rest[i - 1] == order[i]);
        law_longest_wait_first(rest, pools, node_to_pool, i - 1, j - 1);
    }
}

/// No node of a pool without a free thread gets one.
proof fn lemma_full_pool_grants_nothing(
    order: Seq<usize>,
    pools: Seq<VirtualPool>,
    node_to_pool: Seq<usize>,
    j: int,
)
    requires
        0 <= j < order.len(),
        forall|a: int, b: int|
            0 <= a < b < order.len() ==> #[trigger] order[a] != #[trigger] order[b],
        forall|a: int|
            0 <= a < order.len() ==> node_to_pool[(#[trigger] order[a]) as int] < pools.len(),
        ({
            let p = node_to_pool[order[j] as int] as int;
            pools[p].num_threads_occupied >= pools[p].virtual_thread_count
        }),
    ensures
        !granted(order, pools, node_to_pool).0.contains(order[j]),
    decreases order.len(),
{
    let p = node_to_pool[order[0] as int] as int;
    let rest = order.skip(1);
    let all = granted(order, pools, node_to_pool).0;
    assert forall|a: int| 0 <= a < rest.len() implies node_to_pool[(#[trigger] rest[a]) as int]
        < pools.len() by {
        assert(rest[a] == order[a + 1]);
    }
    if pools[p].num_threads_occupied < pools[p].virtual_thread_count {
        let taken = VirtualPool {
            virtual_thread_count: pools[p].virtual_thread_count,
            num_threads_occupied: (pools[p].num_threads_occupied + 1) as usize,
        };
        let next = pools.update(p, taken);
        let tail = granted(rest, next, node_to_pool).0;
        assert(all =~= seq![order[0]] + tail);
        assert(j > 0);
        assert(rest[j - 1] == order[j]);
        lemma_full_pool_grants_nothing(rest, next, node_to_pool, j - 1);
        if all.contains(order[j]) {
            let k = choose|k: int| 0 <= k < all.len() && all[k] == order[j];
            assert(order[0] != order[j]);
            assert(tail[k - 1] == rest[j - 1]);
        }
    } else if j > 0 {
        assert(rest[j - 1] == order[j]);
        lemma_full_pool_grants_nothing(rest, pools, node_to_pool, j - 1);
    } else {
        let tail = granted(rest, pools, node_to_pool).0;
        assert(all == tail);
        lemma_granted_from_order(rest, pools, node_to_pool);
        if all.contains(order[0]) {
            let k = choose|k: int| 0 <= k < all.len() && all[k] == order[0];
            assert(rest.contains(tail[k]));
            let m = choose|m: int| 0 <= m < rest.len() && rest[m] == all[k];
            assert(order[m + 1] == order[0]);
        }
    }
}

/// Only nodes of `order` get threads, each at most once.
pub(crate) proof fn lemma_granted_from_order(
    order: Seq<usize>,
    pools: Seq<VirtualPool>,
    node_to_pool: Seq<usize>,
)
    requires
        forall|a: int, b: int|
            0 <= a < b < order.len() ==> #[trigger] order[a] != #[trigger] order[b],
    ensures
        forall|k: int|
            0 <= k < granted(order, pools, node_to_pool).0.len() ==> order.contains(
                #[trigger] granted(order, pools, node_to_pool).0[k],
            ),
        forall|a: int, b: int|
            0 <= a < b < granted(order, pools, node_to_pool).0.len() ==> #[trigger] granted(
                order,
                pools,
                node_to_pool,
            ).0[a] != #[trigger] granted(order, pools, node_to_pool).0[b],
    decreases order.len(),
{
    if order.len() > 0 {
        let p = node_to_pool[order[0] as int] as int;
        let rest = order.skip(1);
        let all = granted(order, pools, node_to_pool).0;
        let free = pools[p].num_threads_occupied < pools[p].virtual_thread_count;
        let next = if free {
            pools.update(
                p,
                VirtualPool {
                    virtual_thread_count: pools[p].virtual_thread_count,
                    num_threads_occupied: (pools[p].num_threads_occupied + 1) as usize,
                },
            )
        } else {
            pools
        };
        let tail = granted(rest, next, node_to_pool).0;
        lemma_granted_from_order(rest, next, node_to_pool);
        assert forall|k: int| 0 <= k < tail.len() implies order.contains(#[trigger] tail[k])
            && tail[k] != order[0] by {
            assert(rest.contains(tail[k]));
            let m = choose|m: int| 0 <= m < rest.len() && rest[m] == tail[k];
            assert(order[m + 1] == tail[k]);
        }
        if free {
            assert(all =~= seq![order[0]] + tail);
            assert forall|k: int| 0 <= k < all.len() implies order.contains(#[trigger] all[k]) by {
                if k > 0 {
                    assert(all[k] == tail[k - 1]);
                } else {
                    assert(all[0] == order[0]);
                }
            }
            assert forall|a: int, b: int| 0 <= a < b < all.len() implies #[trigger] all[a]
                != #[trigger] all[b] by {
                assert(all[b] == tail[b - 1]);
                if a > 0 {
                    assert(all[a] == tail[a - 1]);
                }
            }
        } else {
            assert(all =~= tail);
        }
    }
}

pub(crate) proof fn lemma_data_candidates(
    ready: Seq<bool>,
    busy_until: Seq<FrameworkTime>,
    time: FrameworkTime,
    n: int,
)
    requires
        0 <= n <= usize::MAX,
    ensures
        forall|k: int|
            0 <= k < data_candidates(ready, busy_until, time, n).len() ==> (#[trigger]
            data_candidates(ready, busy_until, time, n)[k]) < n && ready[data_candidates(
                ready,
                busy_until,
                time,
                n,
            )[k] as int] && time.nanoseconds >= busy_until[data_candidates(
                ready,
                busy_until,
                time,
                n,
            )[k] as int].nanoseconds,
        data_candidates(ready, busy_until, time, n).no_duplicates(),
    decreases n,
{
    if n > 0 {
        lemma_data_candidates(ready, busy_until, time, n - 1);
    }
}

pub(crate) proof fn lemma_with_periodic(
    candidates: Seq<usize>,
    periodic: Seq<TimeTriggeredNode>,
    busy_until: Seq<FrameworkTime>,
    time: FrameworkTime,
    k: int,
    n: int,
)
    requires
        0 <= k <= periodic.len(),
        forall|i: int| 0 <= i < periodic.len() ==> (#[trigger] periodic[i]).index < n,
        forall|i: int|
            0 <= i < candidates.len() ==> (#[trigger] candidates[i]) < n && time.nanoseconds
                >= busy_until[candidates[i] as int].nanoseconds,
        candidates.no_duplicates(),
    ensures
        with_periodic(candidates, periodic, busy_until, time, k).no_duplicates(),
        forall|i: int|
            0 <= i < with_periodic(candidates, periodic, busy_until, time, k).len() ==> (#[trigger]
            with_periodic(candidates, periodic, busy_until, time, k)[i]) < n && time.nanoseconds
                >= busy_until[with_periodic(
                candidates,
                periodic,
                busy_until,
                time,
                k,
            )[i] as int].nanoseconds,
    decreases k,
{
    if k > 0 {
        lemma_with_periodic(candidates, periodic, busy_until, time, k - 1, n);
    }
}

/// Whether `list` contains `index`.
pub(crate) fn list_contains(list: &Vec<usize>, index: usize) -> (r: bool)
    ensures
        r == list@.contains(index),
{
    let mut i: usize = 0;
    while i < list.len()
        invariant
            i <= list@.len(),
            forall|j: int| 0 <= j < i ==> #[trigger] list@[j] != index,
        decreases list@.len() - i,
    {
        if list[i] == index {
            assert(list@[i as int] == index);
            return true;
        }
        i = i + 1;
    }
    false
}

/// Whether node `a` comes before node `b` in the order of waiting.
fn comes_before(since: &Vec<Option<FrameworkTime>>, a: usize, b: usize) -> (r: bool)
    requires
        a < since@.len(),
        b < since@.len(),
    ensures
        r == waits_longer(since@, a, b),
{
    match (since[a], since[b]) {
        (Some(x), Some(y)) => x.nanoseconds < y.nanoseconds || (x.nanoseconds == y.nanoseconds && a
            < b),
        (None, Some(_)) => true,
        (Some(_), None) => false,
        (None, None) => a < b,
    }
}

/// The candidates, the one that has waited longest first.
fn sort_by_wait(candidates: &Vec<usize>, since: &Vec<Option<FrameworkTime>>) -> (order: Vec<usize>)
    requires
        candidates@.no_duplicates(),
        forall|i: int| 0 <= i < candidates@.len() ==> (#[trigger] candidates@[i]) < since@.len(),
    ensures
        by_wait(order@, candidates@, since@),
        order@ == wait_order(candidates@, since@),
{
    let mut order: Vec<usize> = Vec::new();
    let mut k: usize = 0;
    assert(candidates@.take(0) =~= Seq::empty());
    while k < candidates.len()
        invariant
            k <= candidates@.len(),
            candidates@.no_duplicates(),
            forall|i: int|
                0 <= i < candidates@.len() ==> (#[trigger] candidates@[i]) < since@.len(),
            by_wait(order@, candidates@.take(k as int), since@),
        decreases candidates@.len() - k,
    {
        let x: usize = candidates[k];
        let ghost before = order@;
        let ghost seen = candidates@.take(k as int);
        let mut at: usize = 0;
        proof {
            assert forall|i: int| 0 <= i < before.len() implies (#[trigger] before[i])
                < since@.len() && before[i] != x by {
                assert(before.contains(before[i]));
                assert(seen.contains(before[i]));
                let m = choose|m: int| 0 <= m < seen.len() && seen[m] == before[i];
                assert(candidates@[m] == before[i]);
            }
        }
        while at < order.len() && comes_before(since, order[at], x)
            invariant
                at <= order@.len(),
                order@ == before,
                x < since@.len(),
                forall|i: int| 0 <= i < before.len() ==> (#[trigger] before[i]) < since@.len(),
                forall|i: int| 0 <= i < at ==> waits_longer(since@, #[trigger] before[i], x),
            decreases order@.len() - at,
        {
            at = at + 1;
        }
        order.insert(at, x);
        proof {
            let now = candidates@.take(k + 1);
            assert(now =~= seen.push(x));
            assert(order@ =~= before.take(at as int).push(x) + before.skip(at as int));
            assert forall|i: int, j: int| 0 <= i < j < order@.len() implies waits_longer(
                since@,
                #[trigger] order@[i],
                #[trigger] order@[j],
            ) by {
                if i < at && j < at {
                    assert(waits_longer(since@, before[i], before[j]));
                } else if i < at && j == at {
                    assert(waits_longer(since@, before[i], x));
                } else if i < at {
                    assert(waits_longer(since@, before[i], before[j - 1]));
                } else if i == at {
                    assert(!waits_longer(since@, before[at as int], x));
                    if j - 1 > at {
                        assert(waits_longer(since@, before[at as int], before[j - 1]));
                    }
                } else {
                    assert(waits_longer(since@, before[i - 1], before[j - 1]));
                }
            }
            assert forall|y: usize| #[trigger] order@.contains(y) <==> now.contains(y) by {
                if order@.contains(y) {
                    let i = choose|i: int| 0 <= i < order@.len() && order@[i] == y;
                    if i == at {
                        assert(now[k as int] == y);
                    } else {
                        let m = if i < at {
                            i
                        } else {
                            i - 1
                        };
                        assert(before[m] == y);
                        assert(before.contains(y));
                        assert(seen.contains(y));
                        let q = choose|q: int| 0 <= q < seen.len() && seen[q] == y;
                        assert(now[q] == y);
                    }
                }
                if now.contains(y) {
                    let q = choose|q: int| 0 <= q < now.len() && now[q] == y;
                    if q == k {
                        assert(order@[at as int] == y);
                    } else {
                        assert(seen[q] == y);
                        assert(seen.contains(y));
                        assert(before.contains(y));
                        let m = choose|m: int| 0 <= m < before.len() && before[m] == y;
                        if m < at {
                            assert(order@[m] == y);
                        } else {
                            assert(order@[m + 1] == y);
                        }
                    }
                }
            }
        }
        k = k + 1;
    }
    assert(candidates@.take(k as int) =~= candidates@);
    proof {
        law_wait_order_is_unique(
            order@,
            wait_order(candidates@, since@),
            candidates@,
            since@,
        );
    }
    order
}

/// The nodes among the first `n` whose flag is set, all to run at `time`.
pub open spec fn periodic_nodes_of(flags: Seq<bool>, time: FrameworkTime, n: int) -> Seq<
    TimeTriggeredNode,
>
    decreases n,
{
    if n <= 0 {
        Seq::empty()
    } else {
        let rest = periodic_nodes_of(flags, time, n - 1);
        if flags[n - 1] {
            rest.push(
                TimeTriggeredNode { index: (n - 1) as usize, requested_exec_time: time },
            )
        } else {
            rest
        }
    }
}

impl Schedule {
    /// The parts fit together, and each pool has as many threads taken as
    /// nodes hold one of them.
    pub open spec fn shaped(&self) -> bool {
        let n = self.node_to_pool@.len();
        &&& self.node_busy_until@.len() == n
        &&& self.node_thread_occupied@.len() == n
        &&& self.node_ready_since@.len() == n
        &&& forall|i: int|
            0 <= i < n ==> (#[trigger] self.node_to_pool@[i]) < self.virtual_pools@.len()
        &&& forall|k: int|
            0 <= k < self.periodic_nodes@.len() ==> (#[trigger] self.periodic_nodes@[k]).index < n
        &&& forall|p: int|
            0 <= p < self.virtual_pools@.len() ==> (#[trigger]
            self.virtual_pools@[p]).num_threads_occupied == occupancy(
                self.node_thread_occupied@,
                self.node_to_pool@,
                p,
                n as int,
            ) && self.virtual_pools@[p].num_threads_occupied
                <= self.virtual_pools@[p].virtual_thread_count
    }

    /// The invariant between steps: the parts fit together, and a node holds a
    /// thread only while it is busy.
    pub open spec fn wf(&self) -> bool {
        &&& self.shaped()
        &&& forall|i: int|
            0 <= i < self.node_to_pool@.len() && (#[trigger] self.node_thread_occupied@[i])
                ==> self.node_busy_until@[i].nanoseconds > self.time.nanoseconds
    }

    /// The invariant within a step: besides the nodes that are busy, those of
    /// `runnable` hold a thread.
    pub open spec fn running(&self, runnable: Seq<usize>) -> bool {
        &&& self.shaped()
        &&& runnable.no_duplicates()
        &&& forall|k: int|
            0 <= k < runnable.len() ==> (#[trigger] runnable[k]) < self.node_to_pool@.len()
                && self.node_thread_occupied@[runnable[k] as int]
        &&& forall|i: int|
            0 <= i < self.node_to_pool@.len() && (#[trigger] self.node_thread_occupied@[i])
                ==> self.node_busy_until@[i].nanoseconds > self.time.nanoseconds
                || runnable.contains(i as usize)
    }

    /// The nodes that may run now, given which ones data makes ready.
    pub open spec fn candidates(&self, ready: Seq<bool>) -> Seq<usize> {
        with_periodic(
            data_candidates(
                ready,
                self.node_busy_until@,
                self.time,
                self.node_to_pool@.len() as int,
            ),
            self.periodic_nodes@,
            self.node_busy_until@,
            self.time,
            self.periodic_nodes@.len() as int,
        )
    }

    /// Who runs now and how the pools look after that, given which nodes data
    /// makes ready.
    pub open spec fn grants(&self, ready: Seq<bool>) -> (Seq<usize>, Seq<VirtualPool>) {
        let candidates = self.candidates(ready);
        granted(
            wait_order(candidates, noted(self.node_ready_since@, candidates, self.time)),
            self.virtual_pools@,
            self.node_to_pool@,
        )
    }

    /// Whether nothing has happened yet at `time`: no node is busy, holds a
    /// thread or waits for one, and none has asked for a time.
    pub open spec fn starts_at(&self, time: FrameworkTime) -> bool {
        &&& self.time == time
        &&& self.step_count == 0
        &&& self.next_input is None
        &&& self.periodic_nodes@.len() == 0
        &&& forall|i: int|
            0 <= i < self.node_busy_until@.len() ==> #[trigger] self.node_busy_until@[i] == time
        &&& forall|i: int|
            0 <= i < self.node_thread_occupied@.len() ==> !#[trigger] self.node_thread_occupied@[i]
        &&& forall|i: int|
            0 <= i < self.node_ready_since@.len() ==> #[trigger] self.node_ready_since@[i] is None
        &&& forall|p: int|
            0 <= p < self.virtual_pools@.len() ==> (#[trigger]
            self.virtual_pools@[p]).num_threads_occupied == 0
    }

    /// A schedule at `start_time` for nodes that are spread over pools: node
    /// `i` belongs to pool `node_to_pool[i]`, and pool `p` has
    /// `thread_counts[p]` threads.
    pub fn new(start_time: FrameworkTime, thread_counts: Vec<usize>, node_to_pool: Vec<usize>) -> (r:
        Self)
        requires
            forall|i: int|
                0 <= i < node_to_pool@.len() ==> (#[trigger] node_to_pool@[i])
                    < thread_counts@.len(),
        ensures
            r.wf(),
            r.starts_at(start_time),
            r.node_to_pool == node_to_pool,
            r.virtual_pools@.len() == thread_counts@.len(),
            forall|p: int|
                0 <= p < thread_counts@.len() ==> (#[trigger]
                r.virtual_pools@[p]).virtual_thread_count == thread_counts@[p],
    {
        let mut virtual_pools: Vec<VirtualPool> = Vec::new();
        let mut p: usize = 0;
        while p < thread_counts.len()
            invariant
                p <= thread_counts@.len(),
                virtual_pools@.len() == p,
                forall|q: int|
                    0 <= q < p ==> #[trigger] virtual_pools@[q] == (VirtualPool {
                        virtual_thread_count: thread_counts@[q],
                        num_threads_occupied: 0,
                    }),
            decreases thread_counts@.len() - p,
        {
            virtual_pools.push(
                VirtualPool { virtual_thread_count: thread_counts[p], num_threads_occupied: 0 },
            );
            p = p + 1;
        }
        let mut node_busy_until: Vec<FrameworkTime> = Vec::new();
        let mut node_thread_occupied: Vec<bool> = Vec::new();
        let mut node_ready_since: Vec<Option<FrameworkTime>> = Vec::new();
        let mut i: usize = 0;
        while i < node_to_pool.len()
            invariant
                i <= node_to_pool@.len(),
                node_busy_until@.len() == i,
                node_thread_occupied@.len() == i,
                node_ready_since@.len() == i,
                forall|j: int| 0 <= j < i ==> #[trigger] node_busy_until@[j] == start_time,
                forall|j: int| 0 <= j < i ==> !#[trigger] node_thread_occupied@[j],
                forall|j: int| 0 <= j < i ==> #[trigger] node_ready_since@[j] is None,
            decreases node_to_pool@.len() - i,
        {
            node_busy_until.push(start_time);
            node_thread_occupied.push(false);
            node_ready_since.push(None);
            i = i + 1;
        }
        proof {
            assert forall|q: int| 0 <= q < virtual_pools@.len() implies (#[trigger]
            virtual_pools@[q]).num_threads_occupied == occupancy(
                node_thread_occupied@,
                node_to_pool@,
                q,
                node_to_pool@.len() as int,
            ) by {
                lemma_occupancy_none(
                    node_thread_occupied@,
                    node_to_pool@,
                    q,
                    node_to_pool@.len() as int,
                );
            }
        }
        Schedule {
            node_to_pool,
            virtual_pools,
            periodic_nodes: Vec::new(),
            node_busy_until,
            node_thread_occupied,
            node_ready_since,
            time: start_time,
            step_count: 0,
            next_input: None,
        }
    }

    /// Notes a node that runs by time. Periodic nodes run at once, and then
    /// their requested times are honored.
    pub fn add_periodic(&mut self, index: usize)
        requires
            old(self).wf(),
            index < old(self).node_to_pool@.len(),
        ensures
            final(self).wf(),
            final(self).periodic_nodes@ == old(self).periodic_nodes@.push(
                TimeTriggeredNode { index, requested_exec_time: old(self).time },
            ),
            final(self).node_to_pool == old(self).node_to_pool,
            final(self).virtual_pools == old(self).virtual_pools,
            final(self).node_busy_until == old(self).node_busy_until,
            final(self).node_thread_occupied == old(self).node_thread_occupied,
            final(self).node_ready_since == old(self).node_ready_since,
            final(self).time == old(self).time,
            final(self).step_count == old(self).step_count,
            final(self).next_input == old(self).next_input,
    {
        self.periodic_nodes.push(
            TimeTriggeredNode { index, requested_exec_time: self.time },
        );
    }

    /// Notes the nodes that run by time, those whose flag is set. They run at
    /// once, and then their requested times are honored.
    pub fn start(&mut self, periodic: &Vec<bool>)
        requires
            old(self).wf(),
            periodic@.len() == old(self).node_to_pool@.len(),
        ensures
            final(self).wf(),
            final(self).periodic_nodes@ == old(self).periodic_nodes@ + periodic_nodes_of(
                periodic@,
                old(self).time,
                periodic@.len() as int,
            ),
            final(self).node_to_pool == old(self).node_to_pool,
            final(self).virtual_pools == old(self).virtual_pools,
            final(self).node_busy_until == old(self).node_busy_until,
            final(self).node_thread_occupied == old(self).node_thread_occupied,
            final(self).node_ready_since == old(self).node_ready_since,
            final(self).time == old(self).time,
            final(self).step_count == old(self).step_count,
            final(self).next_input == old(self).next_input,
    {
        let mut i: usize = 0;
        let ghost before = self.periodic_nodes@;
        assert(before + Seq::<TimeTriggeredNode>::empty() =~= before);
        while i < periodic.len()
            invariant
                i <= periodic@.len(),
                self.wf(),
                periodic@.len() == self.node_to_pool@.len(),
                before == old(self).periodic_nodes@,
                self.periodic_nodes@ == before + periodic_nodes_of(periodic@, self.time, i as int),
                self.node_to_pool == old(self).node_to_pool,
                self.virtual_pools == old(self).virtual_pools,
                self.node_busy_until == old(self).node_busy_until,
                self.node_thread_occupied == old(self).node_thread_occupied,
                self.node_ready_since == old(self).node_ready_since,
                self.time == old(self).time,
                self.step_count == old(self).step_count,
                self.next_input == old(self).next_input,
            decreases periodic@.len() - i,
        {
            if periodic[i] {
                self.add_periodic(i);
            }
            assert(self.periodic_nodes@ =~= before + periodic_nodes_of(
                periodic@,
                self.time,
                i + 1,
            ));
            i = i + 1;
        }
    }

    /// The nodes that may run now.
    fn find_candidates(&self, ready: &Vec<bool>) -> (candidates: Vec<usize>)
        requires
            self.shaped(),
            ready@.len() == self.node_to_pool@.len(),
        ensures
            candidates@ == self.candidates(ready@),
            candidates@.no_duplicates(),
            forall|i: int|
                0 <= i < candidates@.len() ==> (#[trigger] candidates@[i])
                    < self.node_to_pool@.len() && self.time.nanoseconds
                    >= self.node_busy_until@[candidates@[i] as int].nanoseconds,
    {
        let mut candidates: Vec<usize> = Vec::new();
        let mut i: usize = 0;
        while i < ready.len()
            invariant
                i <= ready@.len(),
                self.shaped(),
                ready@.len() == self.node_to_pool@.len(),
                candidates@ == data_candidates(ready@, self.node_busy_until@, self.time, i as int),
            decreases ready@.len() - i,
        {
            if ready[i] && self.time.nanoseconds >= self.node_busy_until[i].nanoseconds {
                candidates.push(i);
            }
            i = i + 1;
        }
        let ghost by_data = candidates@;
        let mut k: usize = 0;
        while k < self.periodic_nodes.len()
            invariant
                k <= self.periodic_nodes@.len(),
                self.shaped(),
                candidates@ == with_periodic(
                    by_data,
                    self.periodic_nodes@,
                    self.node_busy_until@,
                    self.time,
                    k as int,
                ),
            decreases self.periodic_nodes@.len() - k,
        {
            let periodic = self.periodic_nodes[k];
            if periodic.requested_exec_time.nanoseconds <= self.time.nanoseconds
                && self.time.nanoseconds >= self.node_busy_until[periodic.index].nanoseconds
                && !list_contains(&candidates, periodic.index) {
                candidates.push(periodic.index);
            }
            k = k + 1;
        }
        proof {
            let n = self.node_to_pool@.len() as int;
            assert(self.node_to_pool@.len() == self.node_to_pool.len());
            lemma_data_candidates(ready@, self.node_busy_until@, self.time, n);
            lemma_with_periodic(
                by_data,
                self.periodic_nodes@,
                self.node_busy_until@,
                self.time,
                k as int,
                n,
            );
        }
        candidates
    }

    /// Finds the nodes that run this step and gives each a thread of its pool.
    ///
    /// `ready` says which nodes data makes ready: a trigger fired and every
    /// required input has a value. A node is a candidate if it is ready and
    /// not busy, or periodic, due and not busy. Threads go to the candidates
    /// that have waited longest, with the node's index as a tiebreaker;
    /// candidates whose pool has no free thread go on waiting.
    pub fn allocate_nodes_to_threads(&mut self, ready: &Vec<bool>) -> (runnable: Vec<usize>)
        requires
            old(self).wf(),
            ready@.len() == old(self).node_to_pool@.len(),
        ensures
            final(self).running(runnable@),
            allocates(*old(self), *final(self), ready@, runnable@),
            forall|k: int|
                0 <= k < runnable@.len() ==> old(self).candidates(ready@).contains(
                    #[trigger] runnable@[k],
                ) && old(self).time.nanoseconds >= old(
                    self).node_busy_until@[runnable@[k] as int].nanoseconds,
    {
        let candidates = self.find_candidates(ready);
        let ghost n = self.node_to_pool@.len() as int;
        let mut i: usize = 0;
        while i < candidates.len()
            invariant
                i <= candidates@.len(),
                candidates@.no_duplicates(),
                n == self.node_to_pool@.len(),
                forall|j: int| 0 <= j < candidates@.len() ==> (#[trigger] candidates@[j]) < n,
                self.node_ready_since@.len() == n,
                old(self).node_ready_since@.len() == n,
                self.node_to_pool == old(self).node_to_pool,
                self.virtual_pools == old(self).virtual_pools,
                self.periodic_nodes == old(self).periodic_nodes,
                self.node_busy_until == old(self).node_busy_until,
                self.node_thread_occupied == old(self).node_thread_occupied,
                self.time == old(self).time,
                self.step_count == old(self).step_count,
                self.next_input == old(self).next_input,
                self.node_ready_since@ == noted(
                    old(self).node_ready_since@,
                    candidates@.take(i as int),
                    self.time,
                ),
            decreases candidates@.len() - i,
        {
            let ghost before = self.node_ready_since@;
            let index: usize = candidates[i];
            if self.node_ready_since[index].is_none() {
                self.node_ready_since.set(index, Some(self.time));
            }
            proof {
                let now = candidates@.take(i + 1);
                let seen = candidates@.take(i as int);
                assert(self.node_to_pool@.len() == self.node_to_pool.len());
                assert(now =~= seen.push(index));
                assert forall|j: int| 0 <= j < n implies self.node_ready_since@[j] == #[trigger] noted(
                    old(self).node_ready_since@,
                    now,
                    self.time,
                )[j] by {
                    assert(before[j] == noted(old(self).node_ready_since@, seen, self.time)[j]);
                    if now.contains(j as usize) {
                        let m = choose|m: int| 0 <= m < now.len() && now[m] == j as usize;
                        if m < i {
                            assert(seen[m] == j as usize);
                        }
                    }
                    if seen.contains(j as usize) {
                        let m = choose|m: int| 0 <= m < seen.len() && seen[m] == j as usize;
                        assert(now[m] == j as usize);
                    }
                    if j == index {
                        assert(now[i as int] == j as usize);
                    }
                }
                assert(self.node_ready_since@ =~= noted(
                    old(self).node_ready_since@,
                    now,
                    self.time,
                ));
            }
            i = i + 1;
        }
        assert(self.node_ready_since@ =~= noted(
            old(self).node_ready_since@,
            candidates@,
            self.time,
        )) by {
            assert(candidates@.take(i as int) =~= candidates@);
        }
        let order = sort_by_wait(&candidates, &self.node_ready_since);
        proof {
            assert forall|a: int, b: int| 0 <= a < b < order@.len() implies #[trigger] order@[a]
                != #[trigger] order@[b] by {
                assert(waits_longer(self.node_ready_since@, order@[a], order@[b]));
            }
            assert forall|a: int| 0 <= a < order@.len() implies (#[trigger] order@[a]) < n
                && candidates@.contains(order@[a]) && !old(
                self).node_thread_occupied@[order@[a] as int] by {
                assert(order@.contains(order@[a]));
                let m = choose|m: int| 0 <= m < candidates@.len() && candidates@[m] == order@[a];
                assert(self.time.nanoseconds
                    >= self.node_busy_until@[candidates@[m] as int].nanoseconds);
            }
        }
        self.grant_threads(&order)
    }

    /// Gives each node of `order` in turn a free thread of its pool, if there
    /// is one.
    fn grant_threads(&mut self, order: &Vec<usize>) -> (runnable: Vec<usize>)
        requires
            old(self).wf(),
            forall|a: int, b: int|
                0 <= a < b < order@.len() ==> #[trigger] order@[a] != #[trigger] order@[b],
            forall|a: int|
                0 <= a < order@.len() ==> (#[trigger] order@[a]) < old(self).node_to_pool@.len()
                    && !old(self).node_thread_occupied@[order@[a] as int],
        ensures
            final(self).running(runnable@),
            runnable@ == granted(
                order@,
                old(self).virtual_pools@,
                old(self).node_to_pool@,
            ).0,
            final(self).virtual_pools@ == granted(
                order@,
                old(self).virtual_pools@,
                old(self).node_to_pool@,
            ).1,
            final(self).node_ready_since@ == Seq::new(
                old(self).node_ready_since@.len(),
                |i: int|
                    if runnable@.contains(i as usize) {
                        None
                    } else {
                        old(self).node_ready_since@[i]
                    },
            ),
            final(self).node_thread_occupied@ == Seq::new(
                old(self).node_thread_occupied@.len(),
                |i: int| old(self).node_thread_occupied@[i] || runnable@.contains(i as usize),
            ),
            final(self).node_to_pool == old(self).node_to_pool,
            final(self).periodic_nodes == old(self).periodic_nodes,
            final(self).node_busy_until == old(self).node_busy_until,
            final(self).time == old(self).time,
            final(self).step_count == old(self).step_count,
            final(self).next_input == old(self).next_input,
            forall|k: int| 0 <= k < runnable@.len() ==> order@.contains(#[trigger] runnable@[k]),
    {
        let ghost n = self.node_to_pool@.len() as int;
        let ghost all = granted(order@, self.virtual_pools@, self.node_to_pool@);
        let mut runnable: Vec<usize> = Vec::new();
        let mut k: usize = 0;
        assert(order@.skip(0) =~= order@);
        assert(runnable@ + all.0 =~= all.0);
        assert(self.node_thread_occupied@ =~= Seq::new(
            n as nat,
            |i: int| old(self).node_thread_occupied@[i] || runnable@.contains(i as usize),
        ));
        assert(self.node_ready_since@ =~= Seq::new(
            n as nat,
            |i: int|
                if runnable@.contains(i as usize) {
                    None
                } else {
                    old(self).node_ready_since@[i]
                },
        ));
        while k < order.len()
            invariant
                k <= order@.len(),
                n == self.node_to_pool@.len(),
                self.shaped(),
                old(self).wf(),
                self.node_to_pool == old(self).node_to_pool,
                self.periodic_nodes == old(self).periodic_nodes,
                self.node_busy_until == old(self).node_busy_until,
                self.time == old(self).time,
                self.step_count == old(self).step_count,
                self.next_input == old(self).next_input,
                forall|a: int, b: int|
                    0 <= a < b < order@.len() ==> #[trigger] order@[a] != #[trigger] order@[b],
                forall|a: int|
                    0 <= a < order@.len() ==> (#[trigger] order@[a]) < n && !old(
                        self).node_thread_occupied@[order@[a] as int],
                forall|a: int|
                    k <= a < order@.len() ==> !self.node_thread_occupied@[(#[trigger]
                    order@[a]) as int],
                all == granted(order@, old(self).virtual_pools@, old(self).node_to_pool@),
                ({
                    let rest = granted(
                        order@.skip(k as int),
                        self.virtual_pools@,
                        self.node_to_pool@,
                    );
                    runnable@ + rest.0 == all.0 && rest.1 == all.1
                }),
                forall|j: int| 0 <= j < runnable@.len() ==> order@.contains(#[trigger] runnable@[j]),
                self.node_thread_occupied@ == Seq::new(
                    n as nat,
                    |i: int| old(self).node_thread_occupied@[i] || runnable@.contains(i as usize),
                ),
                self.node_ready_since@ == Seq::new(
                    n as nat,
                    |i: int|
                        if runnable@.contains(i as usize) {
                            None
                        } else {
                            old(self).node_ready_since@[i]
                        },
                ),
            decreases order@.len() - k,
        {
            let ghost before = *self;
            let ghost taken_before = runnable@;
            let index: usize = order[k];
            let pool_index: usize = self.node_to_pool[index];
            let pool = self.virtual_pools[pool_index];
            assert(order@.skip(k as int).skip(1) =~= order@.skip(k + 1));
            assert(order@.skip(k as int)[0] == index);
            let ghost rest_before = granted(
                order@.skip(k as int),
                self.virtual_pools@,
                self.node_to_pool@,
            );
            if pool.num_threads_occupied < pool.virtual_thread_count {
                self.virtual_pools.set(
                    pool_index,
                    VirtualPool {
                        virtual_thread_count: pool.virtual_thread_count,
                        num_threads_occupied: pool.num_threads_occupied + 1,
                    },
                );
                self.node_thread_occupied.set(index, true);
                self.node_ready_since.set(index, None);
                runnable.push(index);
                proof {
                    let rest = granted(
                        order@.skip(k + 1),
                        self.virtual_pools@,
                        self.node_to_pool@,
                    );
                    assert(self.node_to_pool@.len() == self.node_to_pool.len());
                    assert(rest_before.0 =~= seq![index] + rest.0);
                    assert(runnable@ + rest.0 =~= taken_before + rest_before.0);
                    assert forall|p: int| 0 <= p < self.virtual_pools@.len() implies (#[trigger]
                    self.virtual_pools@[p]).num_threads_occupied == occupancy(
                        self.node_thread_occupied@,
                        self.node_to_pool@,
                        p,
                        n,
                    ) && self.virtual_pools@[p].num_threads_occupied
                        <= self.virtual_pools@[p].virtual_thread_count by {
                        lemma_occupancy_set(
                            before.node_thread_occupied@,
                            self.node_to_pool@,
                            p,
                            n,
                            index as int,
                            true,
                        );
                        assert(before.virtual_pools@[p].num_threads_occupied == occupancy(
                            before.node_thread_occupied@,
                            self.node_to_pool@,
                            p,
                            n,
                        ));
                        assert(!before.node_thread_occupied@[order@[k as int] as int]);
                    }
                    assert forall|i: int| 0 <= i < n implies (#[trigger] runnable@.contains(
                        i as usize,
                    ) <==> taken_before.contains(i as usize) || i == index) by {
                        if taken_before.contains(i as usize) {
                            let m = choose|m: int|
                                0 <= m < taken_before.len() && taken_before[m] == i as usize;
                            assert(runnable@[m] == i as usize);
                        }
                        if runnable@.contains(i as usize) {
                            let m = choose|m: int|
                                0 <= m < runnable@.len() && runnable@[m] == i as usize;
                            if m < taken_before.len() {
                                assert(taken_before[m] == i as usize);
                            }
                        }
                        if i == index {
                            assert(runnable@[taken_before.len() as int] == i as usize);
                        }
                    }
                    assert(self.node_thread_occupied@ =~= Seq::new(
                        n as nat,
                        |i: int|
                            old(self).node_thread_occupied@[i] || runnable@.contains(i as usize),
                    ));
                    assert(self.node_ready_since@ =~= Seq::new(
                        n as nat,
                        |i: int|
                            if runnable@.contains(i as usize) {
                                None
                            } else {
                                old(self).node_ready_since@[i]
                            },
                    ));
                    assert forall|j: int| 0 <= j < runnable@.len() implies order@.contains(
                        #[trigger] runnable@[j],
                    ) by {
                        if j < taken_before.len() {
                            assert(order@.contains(taken_before[j]));
                        } else {
                            assert(order@[k as int] == runnable@[j]);
                        }
                    }
                }
            }
            k = k + 1;
        }
        proof {
            assert(order@.skip(k as int) =~= Seq::empty());
            assert(runnable@ + Seq::<usize>::empty() =~= runnable@);
            lemma_granted_from_order(order@, old(self).virtual_pools@, old(self).node_to_pool@);
            assert forall|j: int| 0 <= j < runnable@.len() implies (#[trigger] runnable@[j]) < n
                && self.node_thread_occupied@[runnable@[j] as int] by {
                assert(order@.contains(runnable@[j]));
                let m = choose|m: int| 0 <= m < order@.len() && order@[m] == runnable@[j];
                assert(order@[m] < n);
                assert(runnable@.contains(runnable@[j]));
            }
            assert forall|a: int, b: int| 0 <= a < b < runnable@.len() implies runnable@[a]
                != runnable@[b] by {
                assert(all.0[a] != all.0[b]);
            }
        }
        runnable
    }
}

/// The busy times after the first `k` of `runnable` have started at `time`.
pub open spec fn busied(
    busy_until: Seq<FrameworkTime>,
    runnable: Seq<usize>,
    durations: Seq<Duration>,
    time: FrameworkTime,
    k: int,
) -> Seq<FrameworkTime>
    decreases k,
{
    if k <= 0 {
        busy_until
    } else {
        busied(busy_until, runnable, durations, time, k - 1).update(
            runnable[k - 1] as int,
            crate::time::saturated_time_after(time, durations[k - 1]),
        )
    }
}

/// The periodic nodes after those of `runnable` said when they want to run
/// next; one that does not say keeps its time.
pub open spec fn rescheduled(
    periodic: Seq<TimeTriggeredNode>,
    runnable: Seq<usize>,
    next_times: Seq<Option<FrameworkTime>>,
) -> Seq<TimeTriggeredNode> {
    Seq::new(
        periodic.len(),
        |k: int|
            match next_times[k] {
                Some(time) => if runnable.contains(periodic[k].index) {
                    TimeTriggeredNode { index: periodic[k].index, requested_exec_time: time }
                } else {
                    periodic[k]
                },
                None => periodic[k],
            },
    )
}

/// Whether `time` is among the times at which something happens next: when one
/// of `runnable` is no longer busy, when a periodic node wants to run, or when
/// an input arrives.
pub open spec fn is_event(
    runnable: Seq<usize>,
    busy_until: Seq<FrameworkTime>,
    periodic: Seq<TimeTriggeredNode>,
    input: Option<FrameworkTime>,
    time: FrameworkTime,
) -> bool {
    ||| exists|k: int|
        0 <= k < runnable.len() && busy_until[(#[trigger] runnable[k]) as int] == time
    ||| exists|k: int|
        0 <= k < periodic.len() && (#[trigger] periodic[k]).requested_exec_time == time
    ||| input == Some(time)
}

/// Whether `next` is the earliest event strictly after `now`, or `now` where
/// there is none. Times that are not strictly in the future do not count: a
/// zero-duration node is free again at once, and must not freeze the clock.
pub open spec fn is_next_time(
    now: FrameworkTime,
    runnable: Seq<usize>,
    busy_until: Seq<FrameworkTime>,
    periodic: Seq<TimeTriggeredNode>,
    input: Option<FrameworkTime>,
    next: FrameworkTime,
) -> bool {
    &&& next.nanoseconds >= now.nanoseconds
    &&& next.nanoseconds > now.nanoseconds ==> is_event(
        runnable,
        busy_until,
        periodic,
        input,
        next,
    )
    &&& next.nanoseconds == now.nanoseconds ==> next == now
    &&& forall|time: FrameworkTime| #[trigger]
        is_event(runnable, busy_until, periodic, input, time) && time.nanoseconds > now.nanoseconds
            ==> next.nanoseconds > now.nanoseconds && next.nanoseconds <= time.nanoseconds
}

/// What giving threads to the nodes of `runnable` changes, where `ready` says
/// which nodes data makes ready.
pub open spec fn allocates(
    before: Schedule,
    after: Schedule,
    ready: Seq<bool>,
    runnable: Seq<usize>,
) -> bool {
    &&& runnable == before.grants(ready).0
    &&& after.virtual_pools@ == before.grants(ready).1
    &&& after.node_ready_since@ == Seq::new(
        before.node_ready_since@.len(),
        |i: int|
            if runnable.contains(i as usize) {
                None
            } else {
                noted(before.node_ready_since@, before.candidates(ready), before.time)[i]
            },
    )
    &&& after.node_thread_occupied@ == Seq::new(
        before.node_thread_occupied@.len(),
        |i: int| before.node_thread_occupied@[i] || runnable.contains(i as usize),
    )
    &&& after.node_to_pool == before.node_to_pool
    &&& after.periodic_nodes == before.periodic_nodes
    &&& after.node_busy_until == before.node_busy_until
    &&& after.time == before.time
    &&& after.step_count == before.step_count
    &&& after.next_input == before.next_input
}

/// What ending a step changes in which the nodes of `runnable` ran for
/// `durations` and the periodic nodes asked for `next_times`.
pub open spec fn completes(
    before: Schedule,
    after: Schedule,
    runnable: Seq<usize>,
    durations: Seq<Duration>,
    next_times: Seq<Option<FrameworkTime>>,
) -> bool {
    &&& after.node_busy_until@ == busied(
        before.node_busy_until@,
        runnable,
        durations,
        before.time,
        runnable.len() as int,
    )
    &&& after.periodic_nodes@ == rescheduled(before.periodic_nodes@, runnable, next_times)
    &&& is_next_time(
        before.time,
        runnable,
        after.node_busy_until@,
        after.periodic_nodes@,
        before.next_input,
        after.time,
    )
    &&& after.node_thread_occupied@ == Seq::new(
        before.node_thread_occupied@.len(),
        |i: int|
            before.node_thread_occupied@[i] && after.node_busy_until@[i].nanoseconds
                > after.time.nanoseconds,
    )
    &&& after.node_to_pool == before.node_to_pool
    &&& after.node_ready_since == before.node_ready_since
    &&& after.virtual_pools@.len() == before.virtual_pools@.len()
    &&& forall|p: int|
        0 <= p < before.virtual_pools@.len() ==> (#[trigger]
        after.virtual_pools@[p]).virtual_thread_count == before.virtual_pools@[p].virtual_thread_count
    &&& after.next_input == before.next_input
    &&& after.step_count == if before.step_count == usize::MAX {
        usize::MAX
    } else {
        (before.step_count + 1) as usize
    }
}

/// Whether two schedules hold the same.
pub open spec fn schedules_alike(a: Schedule, b: Schedule) -> bool {
    &&& a.node_to_pool@ == b.node_to_pool@
    &&& a.virtual_pools@ == b.virtual_pools@
    &&& a.periodic_nodes@ == b.periodic_nodes@
    &&& a.node_busy_until@ == b.node_busy_until@
    &&& a.node_thread_occupied@ == b.node_thread_occupied@
    &&& a.node_ready_since@ == b.node_ready_since@
    &&& a.time == b.time
    &&& a.step_count == b.step_count
    &&& a.next_input == b.next_input
}

/// A step is deterministic: from alike schedules, the same ready nodes, the
/// same durations and the same requested times come the same runs and alike
/// schedules.
pub proof fn law_step_is_deterministic(
    before_a: Schedule,
    before_b: Schedule,
    ready: Seq<bool>,
    durations: Seq<Duration>,
    next_times: Seq<Option<FrameworkTime>>,
    mid_a: Schedule,
    runnable_a: Seq<usize>,
    after_a: Schedule,
    mid_b: Schedule,
    runnable_b: Seq<usize>,
    after_b: Schedule,
)
    requires
        schedules_alike(before_a, before_b),
        allocates(before_a, mid_a, ready, runnable_a),
        completes(mid_a, after_a, runnable_a, durations, next_times),
        after_a.wf(),
        allocates(before_b, mid_b, ready, runnable_b),
        completes(mid_b, after_b, runnable_b, durations, next_times),
        after_b.wf(),
    ensures
        runnable_a == runnable_b,
        schedules_alike(after_a, after_b),
{
    law_next_time_is_unique(
        before_a.time,
        runnable_a,
        after_a.node_busy_until@,
        after_a.periodic_nodes@,
        before_a.next_input,
        after_a.time,
        after_b.time,
    );
    assert(after_a.node_thread_occupied@ =~= after_b.node_thread_occupied@);
    assert forall|p: int| 0 <= p < after_a.virtual_pools@.len() implies #[trigger] after_a.virtual_pools@[p]
        == after_b.virtual_pools@[p] by {
        assert(after_b.virtual_pools@[p].virtual_thread_count
            == mid_b.virtual_pools@[p].virtual_thread_count);
    }
    assert(after_a.virtual_pools@ =~= after_b.virtual_pools@);
}

/// The next time is determined.
pub proof fn law_next_time_is_unique(
    now: FrameworkTime,
    runnable: Seq<usize>,
    busy_until: Seq<FrameworkTime>,
    periodic: Seq<TimeTriggeredNode>,
    input: Option<FrameworkTime>,
    a: FrameworkTime,
    b: FrameworkTime,
)
    requires
        is_next_time(now, runnable, busy_until, periodic, input, a),
        is_next_time(now, runnable, busy_until, periodic, input, b),
    ensures
        a == b,
{
    if a.nanoseconds > now.nanoseconds {
        assert(is_event(runnable, busy_until, periodic, input, a));
    }
    if b.nanoseconds > now.nanoseconds {
        assert(is_event(runnable, busy_until, periodic, input, b));
    }
}

pub(crate) proof fn lemma_busied_len(
    busy_until: Seq<FrameworkTime>,
    runnable: Seq<usize>,
    durations: Seq<Duration>,
    time: FrameworkTime,
    k: int,
)
    requires
        0 <= k <= runnable.len(),
        forall|j: int| 0 <= j < runnable.len() ==> (#[trigger] runnable[j]) < busy_until.len(),
    ensures
        busied(busy_until, runnable, durations, time, k).len() == busy_until.len(),
        forall|i: int|
            0 <= i < busy_until.len() && (forall|j: int|
                0 <= j < k ==> (#[trigger] runnable[j]) != i) ==> #[trigger] busied(
                busy_until,
                runnable,
                durations,
                time,
                k,
            )[i] == busy_until[i],
    decreases k,
{
    if k > 0 {
        lemma_busied_len(busy_until, runnable, durations, time, k - 1);
    }
}

/// A node that started is busy for its duration.
pub proof fn law_started_node_is_busy_for_its_duration(
    busy_until: Seq<FrameworkTime>,
    runnable: Seq<usize>,
    durations: Seq<Duration>,
    time: FrameworkTime,
    k: int,
    j: int,
)
    requires
        0 <= j < k <= runnable.len(),
        runnable.no_duplicates(),
        forall|i: int| 0 <= i < runnable.len() ==> (#[trigger] runnable[i]) < busy_until.len(),
    ensures
        busied(busy_until, runnable, durations, time, k)[runnable[j] as int]
            == crate::time::saturated_time_after(time, durations[j]),
    decreases k,
{
    lemma_busied_len(busy_until, runnable, durations, time, k - 1);
    if j < k - 1 {
        law_started_node_is_busy_for_its_duration(
            busy_until,
            runnable,
            durations,
            time,
            k - 1,
            j,
        );
        assert(runnable[j] != runnable[k - 1]);
    }
}

/// The earlier of two times that are after `now`, where there are such.
fn earlier_after(now: FrameworkTime, best: Option<FrameworkTime>, time: FrameworkTime) -> (r: Option<
    FrameworkTime,
>)
    requires
        best matches Some(b) ==> b.nanoseconds > now.nanoseconds,
    ensures
        r matches Some(b) ==> b.nanoseconds > now.nanoseconds && (r == best || b == time),
        best is Some ==> r is Some && r->0.nanoseconds <= best->0.nanoseconds,
        time.nanoseconds > now.nanoseconds ==> r is Some && r->0.nanoseconds <= time.nanoseconds,
{
    if time.nanoseconds > now.nanoseconds {
        match best {
            Some(b) => if time.nanoseconds < b.nanoseconds {
                Some(time)
            } else {
                Some(b)
            },
            None => Some(time),
        }
    } else {
        best
    }
}

impl Schedule {
    /// Notes when the next input from outside the graph arrives.
    pub fn expect_input(&mut self, next_input: Option<FrameworkTime>)
        ensures
            *final(self) == (Schedule { next_input, ..*old(self) }),
    {
        self.next_input = next_input;
    }

    /// Ends a step in which the nodes of `runnable` ran for `durations`, and
    /// the periodic nodes, in their order, asked for `next_times`: notes until
    /// when the nodes are busy and when periodic ones run next, advances the
    /// time to the next event, and frees the threads of the nodes that are no
    /// longer busy then.
    pub fn complete_step(
        &mut self,
        runnable: &Vec<usize>,
        durations: &Vec<Duration>,
        next_times: &Vec<Option<FrameworkTime>>,
    )
        requires
            old(self).running(runnable@),
            durations@.len() == runnable@.len(),
            next_times@.len() == old(self).periodic_nodes@.len(),
        ensures
            final(self).wf(),
            completes(*old(self), *final(self), runnable@, durations@, next_times@),
    {
        self.note_durations(runnable, durations);
        self.note_next_times(runnable, next_times);
        self.advance_time(runnable);
        self.free_threads();
        self.step_count = self.step_count.saturating_add(1);
    }

    fn note_durations(&mut self, runnable: &Vec<usize>, durations: &Vec<Duration>)
        requires
            old(self).running(runnable@),
            durations@.len() == runnable@.len(),
        ensures
            final(self).shaped(),
            forall|i: int|
                0 <= i < final(self).node_to_pool@.len() && (#[trigger] final(
                    self).node_thread_occupied@[i]) ==> final(self).node_busy_until@[i].nanoseconds
                    > final(self).time.nanoseconds || runnable@.contains(i as usize),
            final(self).node_busy_until@ == busied(
                old(self).node_busy_until@,
                runnable@,
                durations@,
                old(self).time,
                runnable@.len() as int,
            ),
            final(self).node_to_pool == old(self).node_to_pool,
            final(self).virtual_pools == old(self).virtual_pools,
            final(self).periodic_nodes == old(self).periodic_nodes,
            final(self).node_thread_occupied == old(self).node_thread_occupied,
            final(self).node_ready_since == old(self).node_ready_since,
            final(self).time == old(self).time,
            final(self).step_count == old(self).step_count,
            final(self).next_input == old(self).next_input,
    {
        let mut k: usize = 0;
        while k < runnable.len()
            invariant
                k <= runnable@.len(),
                old(self).running(runnable@),
                durations@.len() == runnable@.len(),
                self.node_busy_until@ == busied(
                    old(self).node_busy_until@,
                    runnable@,
                    durations@,
                    old(self).time,
                    k as int,
                ),
                self.node_busy_until@.len() == old(self).node_busy_until@.len(),
                self.node_to_pool == old(self).node_to_pool,
                self.virtual_pools == old(self).virtual_pools,
                self.periodic_nodes == old(self).periodic_nodes,
                self.node_thread_occupied == old(self).node_thread_occupied,
                self.node_ready_since == old(self).node_ready_since,
                self.time == old(self).time,
                self.step_count == old(self).step_count,
                self.next_input == old(self).next_input,
            decreases runnable@.len() - k,
        {
            let busy_until = self.time.saturating_add(durations[k]);
            self.node_busy_until.set(runnable[k], busy_until);
            k = k + 1;
        }
        proof {
            lemma_busied_len(
                old(self).node_busy_until@,
                runnable@,
                durations@,
                old(self).time,
                k as int,
            );
            assert(self.node_to_pool@.len() == self.node_to_pool.len());
            assert forall|i: int|
                0 <= i < self.node_to_pool@.len() && (#[trigger] self.node_thread_occupied@[i])
                implies self.node_busy_until@[i].nanoseconds > self.time.nanoseconds
                || runnable@.contains(i as usize) by {
                if !runnable@.contains(i as usize) {
                    assert forall|j: int| 0 <= j < k implies (#[trigger] runnable@[j]) != i by {}
                    assert(busied(
                        old(self).node_busy_until@,
                        runnable@,
                        durations@,
                        old(self).time,
                        k as int,
                    )[i] == old(self).node_busy_until@[i]);
                }
            }
        }
    }

    fn note_next_times(&mut self, runnable: &Vec<usize>, next_times: &Vec<Option<FrameworkTime>>)
        requires
            old(self).shaped(),
            next_times@.len() == old(self).periodic_nodes@.len(),
        ensures
            final(self).shaped(),
            final(self).periodic_nodes@ == rescheduled(
                old(self).periodic_nodes@,
                runnable@,
                next_times@,
            ),
            final(self).node_to_pool == old(self).node_to_pool,
            final(self).virtual_pools == old(self).virtual_pools,
            final(self).node_busy_until == old(self).node_busy_until,
            final(self).node_thread_occupied == old(self).node_thread_occupied,
            final(self).node_ready_since == old(self).node_ready_since,
            final(self).time == old(self).time,
            final(self).step_count == old(self).step_count,
            final(self).next_input == old(self).next_input,
    {
        let mut k: usize = 0;
        while k < self.periodic_nodes.len()
            invariant
                k <= self.periodic_nodes@.len(),
                self.shaped(),
                self.periodic_nodes@.len() == old(self).periodic_nodes@.len(),
                next_times@.len() == self.periodic_nodes@.len(),
                self.node_to_pool == old(self).node_to_pool,
                self.virtual_pools == old(self).virtual_pools,
                self.node_busy_until == old(self).node_busy_until,
                self.node_thread_occupied == old(self).node_thread_occupied,
                self.node_ready_since == old(self).node_ready_since,
                self.time == old(self).time,
                self.step_count == old(self).step_count,
                self.next_input == old(self).next_input,
                forall|j: int|
                    0 <= j < self.periodic_nodes@.len() ==> #[trigger] self.periodic_nodes@[j]
                        == if j < k {
                        rescheduled(old(self).periodic_nodes@, runnable@, next_times@)[j]
                    } else {
                        old(self).periodic_nodes@[j]
                    },
            decreases self.periodic_nodes@.len() - k,
        {
            let index: usize = self.periodic_nodes[k].index;
            if list_contains(runnable, index) {
                match next_times[k] {
                    Some(next_time) => {
                        self.periodic_nodes.set(
                            k,
                            TimeTriggeredNode { index, requested_exec_time: next_time },
                        );
                    },
                    None => {},
                }
            }
            k = k + 1;
        }
        assert(self.periodic_nodes@ =~= rescheduled(
            old(self).periodic_nodes@,
            runnable@,
            next_times@,
        ));
    }

    fn advance_time(&mut self, runnable: &Vec<usize>)
        requires
            old(self).shaped(),
            forall|k: int|
                0 <= k < runnable@.len() ==> (#[trigger] runnable@[k])
                    < old(self).node_to_pool@.len(),
        ensures
            final(self).shaped(),
            is_next_time(
                old(self).time,
                runnable@,
                final(self).node_busy_until@,
                final(self).periodic_nodes@,
                final(self).next_input,
                final(self).time,
            ),
            final(self).node_to_pool == old(self).node_to_pool,
            final(self).virtual_pools == old(self).virtual_pools,
            final(self).periodic_nodes == old(self).periodic_nodes,
            final(self).node_busy_until == old(self).node_busy_until,
            final(self).node_thread_occupied == old(self).node_thread_occupied,
            final(self).node_ready_since == old(self).node_ready_since,
            final(self).step_count == old(self).step_count,
            final(self).next_input == old(self).next_input,
    {
        let now = self.time;
        let mut next: Option<FrameworkTime> = None;
        let mut k: usize = 0;
        while k < runnable.len()
            invariant
                k <= runnable@.len(),
                *self == *old(self),
                self.shaped(),
                forall|j: int|
                    0 <= j < runnable@.len() ==> (#[trigger] runnable@[j])
                        < self.node_to_pool@.len(),
                next matches Some(b) ==> b.nanoseconds > now.nanoseconds && is_event(
                    runnable@,
                    self.node_busy_until@,
                    self.periodic_nodes@,
                    self.next_input,
                    b,
                ),
                forall|j: int|
                    0 <= j < k && self.node_busy_until@[(#[trigger] runnable@[j]) as int].nanoseconds
                        > now.nanoseconds ==> next is Some && next->0.nanoseconds
                        <= self.node_busy_until@[runnable@[j] as int].nanoseconds,
            decreases runnable@.len() - k,
        {
            let time = self.node_busy_until[runnable[k]];
            assert(is_event(
                runnable@,
                self.node_busy_until@,
                self.periodic_nodes@,
                self.next_input,
                time,
            )) by {
                assert(self.node_busy_until@[runnable@[k as int] as int] == time);
            }
            next = earlier_after(now, next, time);
            k = k + 1;
        }
        let mut m: usize = 0;
        while m < self.periodic_nodes.len()
            invariant
                m <= self.periodic_nodes@.len(),
                *self == *old(self),
                self.shaped(),
                next matches Some(b) ==> b.nanoseconds > now.nanoseconds && is_event(
                    runnable@,
                    self.node_busy_until@,
                    self.periodic_nodes@,
                    self.next_input,
                    b,
                ),
                forall|j: int|
                    0 <= j < runnable@.len() && self.node_busy_until@[(#[trigger]
                    runnable@[j]) as int].nanoseconds > now.nanoseconds ==> next is Some
                        && next->0.nanoseconds <= self.node_busy_until@[runnable@[j] as int].nanoseconds,
                forall|j: int|
                    0 <= j < m && (#[trigger]
                    self.periodic_nodes@[j]).requested_exec_time.nanoseconds > now.nanoseconds
                        ==> next is Some && next->0.nanoseconds
                        <= self.periodic_nodes@[j].requested_exec_time.nanoseconds,
            decreases self.periodic_nodes@.len() - m,
        {
            let time = self.periodic_nodes[m].requested_exec_time;
            assert(is_event(
                runnable@,
                self.node_busy_until@,
                self.periodic_nodes@,
                self.next_input,
                time,
            )) by {
                assert(self.periodic_nodes@[m as int].requested_exec_time == time);
            }
            next = earlier_after(now, next, time);
            m = m + 1;
        }
        if let Some(input) = self.next_input {
            assert(is_event(
                runnable@,
                self.node_busy_until@,
                self.periodic_nodes@,
                self.next_input,
                input,
            ));
            next = earlier_after(now, next, input);
        }
        match next {
            Some(time) => {
                self.time = time;
            },
            None => {},
        }
    }

    /// Frees the thread of each node that is no longer busy.
    fn free_threads(&mut self)
        requires
            old(self).shaped(),
        ensures
            final(self).wf(),
            final(self).node_thread_occupied@ == Seq::new(
                old(self).node_thread_occupied@.len(),
                |i: int|
                    old(self).node_thread_occupied@[i] && old(self).node_busy_until@[i].nanoseconds
                        > old(self).time.nanoseconds,
            ),
            final(self).virtual_pools@.len() == old(self).virtual_pools@.len(),
            forall|p: int|
                0 <= p < old(self).virtual_pools@.len() ==> (#[trigger] final(
                    self).virtual_pools@[p]).virtual_thread_count == old(
                    self).virtual_pools@[p].virtual_thread_count,
            final(self).node_to_pool == old(self).node_to_pool,
            final(self).periodic_nodes == old(self).periodic_nodes,
            final(self).node_busy_until == old(self).node_busy_until,
            final(self).node_ready_since == old(self).node_ready_since,
            final(self).time == old(self).time,
            final(self).step_count == old(self).step_count,
            final(self).next_input == old(self).next_input,
    {
        let ghost n = self.node_to_pool@.len() as int;
        let mut index: usize = 0;
        while index < self.node_to_pool.len()
            invariant
                index <= n,
                n == self.node_to_pool@.len(),
                self.shaped(),
                self.virtual_pools@.len() == old(self).virtual_pools@.len(),
                forall|p: int|
                    0 <= p < old(self).virtual_pools@.len() ==> (#[trigger]
                    self.virtual_pools@[p]).virtual_thread_count == old(
                        self).virtual_pools@[p].virtual_thread_count,
                self.node_to_pool == old(self).node_to_pool,
                self.periodic_nodes == old(self).periodic_nodes,
                self.node_busy_until == old(self).node_busy_until,
                self.node_ready_since == old(self).node_ready_since,
                self.time == old(self).time,
                self.step_count == old(self).step_count,
                self.next_input == old(self).next_input,
                forall|i: int|
                    0 <= i < n ==> #[trigger] self.node_thread_occupied@[i] == (old(
                        self).node_thread_occupied@[i] && (i >= index || old(
                        self).node_busy_until@[i].nanoseconds > old(self).time.nanoseconds)),
            decreases n - index,
        {
            if self.node_thread_occupied[index] && self.node_busy_until[index].nanoseconds
                <= self.time.nanoseconds {
                let ghost before = *self;
                let pool_index: usize = self.node_to_pool[index];
                let pool = self.virtual_pools[pool_index];
                proof {
                    lemma_occupancy_positive(
                        self.node_thread_occupied@,
                        self.node_to_pool@,
                        pool_index as int,
                        n,
                        index as int,
                    );
                }
                self.node_thread_occupied.set(index, false);
                self.virtual_pools.set(
                    pool_index,
                    VirtualPool {
                        virtual_thread_count: pool.virtual_thread_count,
                        num_threads_occupied: pool.num_threads_occupied - 1,
                    },
                );
                proof {
                    assert forall|p: int| 0 <= p < self.virtual_pools@.len() implies (#[trigger]
                    self.virtual_pools@[p]).num_threads_occupied == occupancy(
                        self.node_thread_occupied@,
                        self.node_to_pool@,
                        p,
                        n,
                    ) && self.virtual_pools@[p].num_threads_occupied
                        <= self.virtual_pools@[p].virtual_thread_count by {
                        lemma_occupancy_set(
                            before.node_thread_occupied@,
                            self.node_to_pool@,
                            p,
                            n,
                            index as int,
                            false,
                        );
                        assert(before.virtual_pools@[p].num_threads_occupied == occupancy(
                            before.node_thread_occupied@,
                            self.node_to_pool@,
                            p,
                            n,
                        ));
                    }
                }
            }
            index = index + 1;
        }
        assert(self.node_thread_occupied@ =~= Seq::new(
            n as nat,
            |i: int|
                old(self).node_thread_occupied@[i] && old(self).node_busy_until@[i].nanoseconds
                    > old(self).time.nanoseconds,
        ));
    }
}

/// An input that is expected is not passed: the time stops at it at the
/// latest.
pub proof fn law_no_input_is_passed(
    before: Schedule,
    after: Schedule,
    runnable: Seq<usize>,
    durations: Seq<Duration>,
    next_times: Seq<Option<FrameworkTime>>,
    input: FrameworkTime,
)
    requires
        completes(before, after, runnable, durations, next_times),
        before.next_input == Some(input),
        input.nanoseconds > before.time.nanoseconds,
    ensures
        before.time.nanoseconds < after.time.nanoseconds <= input.nanoseconds,
{
    assert(is_event(
        runnable,
        after.node_busy_until@,
        after.periodic_nodes@,
        before.next_input,
        input,
    ));
}

/// A future input advances an otherwise idle clock: where no node ran and no
/// periodic node wants to run later on, the time goes to the input.
pub proof fn law_input_advances_idle_clock(
    before: Schedule,
    after: Schedule,
    next_times: Seq<Option<FrameworkTime>>,
    input: FrameworkTime,
)
    requires
        completes(before, after, Seq::empty(), Seq::empty(), next_times),
        before.next_input == Some(input),
        input.nanoseconds > before.time.nanoseconds,
        forall|k: int|
            0 <= k < before.periodic_nodes@.len() ==> (#[trigger]
            before.periodic_nodes@[k]).requested_exec_time.nanoseconds <= before.time.nanoseconds,
    ensures
        after.time == input,
{
    law_no_input_is_passed(before, after, Seq::empty(), Seq::empty(), next_times, input);
    let none = Seq::<usize>::empty();
    assert(after.periodic_nodes@ =~= before.periodic_nodes@);
    assert(is_event(
        none,
        after.node_busy_until@,
        after.periodic_nodes@,
        before.next_input,
        after.time,
    ));
}

/// An input for a time that is over does not move the clock.
pub proof fn law_late_input_keeps_the_time(
    before: Schedule,
    after: Schedule,
    unasked: Schedule,
    runnable: Seq<usize>,
    durations: Seq<Duration>,
    next_times: Seq<Option<FrameworkTime>>,
    late: FrameworkTime,
)
    requires
        late.nanoseconds <= before.time.nanoseconds,
        before.next_input == Some(late),
        completes(before, after, runnable, durations, next_times),
        completes(
            (Schedule { next_input: None, ..before }),
            unasked,
            runnable,
            durations,
            next_times,
        ),
    ensures
        after.time == unasked.time,
{
    let busy = after.node_busy_until@;
    let periodic = after.periodic_nodes@;
    assert forall|time: FrameworkTime|
        time.nanoseconds > before.time.nanoseconds implies is_event(
        runnable,
        busy,
        periodic,
        Some(late),
        time,
    ) == #[trigger] is_event(runnable, busy, periodic, None, time) by {}
    assert(is_next_time(before.time, runnable, busy, periodic, None, after.time)) by {
        assert forall|time: FrameworkTime| #[trigger]
            is_event(runnable, busy, periodic, None, time) && time.nanoseconds
                > before.time.nanoseconds implies after.time.nanoseconds > before.time.nanoseconds
            && after.time.nanoseconds <= time.nanoseconds by {
            assert(is_event(runnable, busy, periodic, Some(late), time));
        }
        if after.time.nanoseconds > before.time.nanoseconds {
            assert(is_event(runnable, busy, periodic, Some(late), after.time));
        }
    }
    law_next_time_is_unique(
        before.time,
        runnable,
        busy,
        periodic,
        None,
        after.time,
        unasked.time,
    );
}

/// A pool never has more of its nodes running than it has threads.
pub proof fn law_pools_are_honored(schedule: Schedule, p: int)
    requires
        schedule.shaped(),
        0 <= p < schedule.virtual_pools@.len(),
    ensures
        occupancy(
            schedule.node_thread_occupied@,
            schedule.node_to_pool@,
            p,
            schedule.node_to_pool@.len() as int,
        ) <= schedule.virtual_pools@[p].virtual_thread_count,
{
    assert(schedule.virtual_pools@[p].num_threads_occupied
        <= schedule.virtual_pools@[p].virtual_thread_count);
}

/// A node that takes no time frees its thread in the step in which it ran.
pub proof fn law_zero_duration_frees_its_thread(
    before: Schedule,
    after: Schedule,
    runnable: Seq<usize>,
    durations: Seq<Duration>,
    next_times: Seq<Option<FrameworkTime>>,
    k: int,
)
    requires
        before.running(runnable),
        0 <= k < runnable.len(),
        durations.len() == runnable.len(),
        durations[k].nanoseconds == 0,
        completes(before, after, runnable, durations, next_times),
    ensures
        !after.node_thread_occupied@[runnable[k] as int],
{
    law_started_node_is_busy_for_its_duration(
        before.node_busy_until@,
        runnable,
        durations,
        before.time,
        runnable.len() as int,
        k,
    );
    assert(runnable[k] < before.node_to_pool@.len());
}

} // verus!
