//! What a simulation's schedule is for: which nodes run, in which order, for
//! how long, and where the clock goes next.
use vstd::prelude::*;

use crate::schedule::{allocates, completes, occupancy, Schedule, TimeTriggeredNode, VirtualPool};
use crate::time::{Duration, FrameworkTime};

verus! {

/// A node that data makes ready and that is not busy is a data candidate, and
/// only such a node is one.
proof fn lemma_ready_is_candidate(
    ready: Seq<bool>,
    busy_until: Seq<FrameworkTime>,
    time: FrameworkTime,
    n: int,
    i: int,
)
    requires
        0 <= i < n <= usize::MAX,
    ensures
        crate::schedule::data_candidates(ready, busy_until, time, n).contains(i as usize) <==> ready[i]
            && busy_until[i].nanoseconds <= time.nanoseconds,
    decreases n,
{
    let all = crate::schedule::data_candidates(ready, busy_until, time, n);
    let rest = crate::schedule::data_candidates(ready, busy_until, time, n - 1);
    crate::schedule::lemma_data_candidates(ready, busy_until, time, n);
    if all.contains(i as usize) {
        let k = choose|k: int| 0 <= k < all.len() && all[k] == i as usize;
        assert(ready[all[k] as int]);
    }
    if ready[i] && busy_until[i].nanoseconds <= time.nanoseconds {
        if i == n - 1 {
            assert(all[all.len() - 1] == i as usize);
        } else {
            lemma_ready_is_candidate(ready, busy_until, time, n - 1, i);
            let k = choose|k: int| 0 <= k < rest.len() && rest[k] == i as usize;
            assert(all[k] == i as usize);
        }
    }
}

/// What is added for the periodic nodes.
proof fn lemma_periodic_added(
    candidates: Seq<usize>,
    periodic: Seq<TimeTriggeredNode>,
    busy_until: Seq<FrameworkTime>,
    time: FrameworkTime,
    k: int,
    x: usize,
)
    requires
        0 <= k <= periodic.len(),
    ensures
        crate::schedule::with_periodic(candidates, periodic, busy_until, time, k).contains(x) <==> (
        candidates.contains(x) || exists|j: int|
            0 <= j < k && (#[trigger] periodic[j]).index == x
                && periodic[j].requested_exec_time.nanoseconds <= time.nanoseconds
                && busy_until[x as int].nanoseconds <= time.nanoseconds),
    decreases k,
{
    if k > 0 {
        lemma_periodic_added(candidates, periodic, busy_until, time, k - 1, x);
        let all = crate::schedule::with_periodic(candidates, periodic, busy_until, time, k);
        let rest = crate::schedule::with_periodic(candidates, periodic, busy_until, time, k - 1);
        if rest.contains(x) {
            let m = choose|m: int| 0 <= m < rest.len() && rest[m] == x;
            assert(all[m] == x);
        }
        if all.contains(x) && !rest.contains(x) {
            let m = choose|m: int| 0 <= m < all.len() && all[m] == x;
            if m < rest.len() {
                assert(rest[m] == x);
            }
            assert(periodic[k - 1].index == x);
        }
        let node = periodic[k - 1];
        if node.index == x && node.requested_exec_time.nanoseconds <= time.nanoseconds
            && busy_until[x as int].nanoseconds <= time.nanoseconds && !rest.contains(x) {
            assert(all[all.len() - 1] == x);
        }
    }
}

/// The candidates of a step are exactly the nodes that are not busy and that
/// data makes ready or whose requested time has come, whatever the other nodes
/// do.
pub proof fn law_candidates_are_the_due_nodes(schedule: Schedule, ready: Seq<bool>, i: int)
    requires
        schedule.shaped(),
        ready.len() == schedule.node_to_pool@.len(),
        0 <= i < schedule.node_to_pool@.len(),
    ensures
        schedule.candidates(ready).contains(i as usize) <==> {
            &&& schedule.node_busy_until@[i].nanoseconds <= schedule.time.nanoseconds
            &&& ready[i] || exists|k: int|
                0 <= k < schedule.periodic_nodes@.len() && (#[trigger]
                schedule.periodic_nodes@[k]).index == i
                    && schedule.periodic_nodes@[k].requested_exec_time.nanoseconds
                    <= schedule.time.nanoseconds
        },
{
    let n = schedule.node_to_pool@.len() as int;
    assert(schedule.node_to_pool.len() == schedule.node_to_pool@.len());
    lemma_ready_is_candidate(ready, schedule.node_busy_until@, schedule.time, n, i);
    lemma_periodic_added(
        crate::schedule::data_candidates(ready, schedule.node_busy_until@, schedule.time, n),
        schedule.periodic_nodes@,
        schedule.node_busy_until@,
        schedule.time,
        schedule.periodic_nodes@.len() as int,
        i as usize,
    );
}

/// The candidates are nodes, each listed once.
proof fn lemma_candidates_are_nodes(schedule: Schedule, ready: Seq<bool>)
    requires
        schedule.shaped(),
        ready.len() == schedule.node_to_pool@.len(),
    ensures
        schedule.candidates(ready).no_duplicates(),
        forall|i: int|
            0 <= i < schedule.candidates(ready).len() ==> (#[trigger] schedule.candidates(ready)[i])
                < schedule.node_to_pool@.len(),
{
    let n = schedule.node_to_pool@.len() as int;
    assert(schedule.node_to_pool.len() == schedule.node_to_pool@.len());
    crate::schedule::lemma_data_candidates(ready, schedule.node_busy_until@, schedule.time, n);
    crate::schedule::lemma_with_periodic(
        crate::schedule::data_candidates(ready, schedule.node_busy_until@, schedule.time, n),
        schedule.periodic_nodes@,
        schedule.node_busy_until@,
        schedule.time,
        schedule.periodic_nodes@.len() as int,
        n,
    );
}

/// Giving out threads keeps the size of each pool and takes none back.
proof fn lemma_granted_pools(order: Seq<usize>, pools: Seq<VirtualPool>, node_to_pool: Seq<usize>, p: int)
    requires
        0 <= p < pools.len(),
        forall|a: int|
            0 <= a < order.len() ==> node_to_pool[(#[trigger] order[a]) as int] < pools.len(),
    ensures
        crate::schedule::granted(order, pools, node_to_pool).1.len() == pools.len(),
        crate::schedule::granted(order, pools, node_to_pool).1[p].virtual_thread_count
            == pools[p].virtual_thread_count,
        crate::schedule::granted(order, pools, node_to_pool).1[p].num_threads_occupied
            >= pools[p].num_threads_occupied,
    decreases order.len(),
{
    if order.len() > 0 {
        let q = node_to_pool[order[0] as int] as int;
        let rest = order.skip(1);
        assert forall|a: int| 0 <= a < rest.len() implies node_to_pool[(#[trigger] rest[a]) as int]
            < pools.len() by {
            assert(rest[a] == order[a + 1]);
        }
        if pools[q].num_threads_occupied < pools[q].virtual_thread_count {
            let taken = VirtualPool {
                virtual_thread_count: pools[q].virtual_thread_count,
                num_threads_occupied: (pools[q].num_threads_occupied + 1) as usize,
            };
            lemma_granted_pools(rest, pools.update(q, taken), node_to_pool, p);
        } else {
            lemma_granted_pools(rest, pools, node_to_pool, p);
        }
    }
}

/// A node that gets no thread belongs to a pool that has none left.
proof fn lemma_refused_pool_is_full(
    order: Seq<usize>,
    pools: Seq<VirtualPool>,
    node_to_pool: Seq<usize>,
    a: int,
)
    requires
        0 <= a < order.len(),
        forall|b: int|
            0 <= b < order.len() ==> node_to_pool[(#[trigger] order[b]) as int] < pools.len(),
        !crate::schedule::granted(order, pools, node_to_pool).0.contains(order[a]),
    ensures
        ({
            let pool = crate::schedule::granted(
                order,
                pools,
                node_to_pool,
            ).1[node_to_pool[order[a] as int] as int];
            pool.num_threads_occupied >= pool.virtual_thread_count
        }),
    decreases order.len(),
{
    let q = node_to_pool[order[0] as int] as int;
    let rest = order.skip(1);
    let all = crate::schedule::granted(order, pools, node_to_pool).0;
    assert forall|b: int| 0 <= b < rest.len() implies node_to_pool[(#[trigger] rest[b]) as int]
        < pools.len() by {
        assert(rest[b] == order[b + 1]);
    }
    if pools[q].num_threads_occupied < pools[q].virtual_thread_count {
        let taken = VirtualPool {
            virtual_thread_count: pools[q].virtual_thread_count,
            num_threads_occupied: (pools[q].num_threads_occupied + 1) as usize,
        };
        let next = pools.update(q, taken);
        let tail = crate::schedule::granted(rest, next, node_to_pool).0;
        assert(all =~= seq![order[0]] + tail);
        assert(all[0] == order[0]);
        assert(a > 0);
        assert(rest[a - 1] == order[a]);
        if tail.contains(order[a]) {
            let k = choose|k: int| 0 <= k < tail.len() && tail[k] == order[a];
            assert(all[k + 1] == order[a]);
        }
        lemma_refused_pool_is_full(rest, next, node_to_pool, a - 1);
    } else if a > 0 {
        assert(rest[a - 1] == order[a]);
        lemma_refused_pool_is_full(rest, pools, node_to_pool, a - 1);
    } else {
        lemma_granted_pools(rest, pools, node_to_pool, q);
    }
}

/// Where a granted node stands in the order: later ones stand later.
proof fn lemma_granted_in_order(
    order: Seq<usize>,
    pools: Seq<VirtualPool>,
    node_to_pool: Seq<usize>,
    a: int,
    b: int,
) -> (at: (int, int))
    requires
        0 <= a < b < crate::schedule::granted(order, pools, node_to_pool).0.len(),
    ensures
        0 <= at.0 < at.1 < order.len(),
        order[at.0] == crate::schedule::granted(order, pools, node_to_pool).0[a],
        order[at.1] == crate::schedule::granted(order, pools, node_to_pool).0[b],
    decreases order.len(),
{
    let q = node_to_pool[order[0] as int] as int;
    let rest = order.skip(1);
    let all = crate::schedule::granted(order, pools, node_to_pool).0;
    if pools[q].num_threads_occupied < pools[q].virtual_thread_count {
        let taken = VirtualPool {
            virtual_thread_count: pools[q].virtual_thread_count,
            num_threads_occupied: (pools[q].num_threads_occupied + 1) as usize,
        };
        let next = pools.update(q, taken);
        let tail = crate::schedule::granted(rest, next, node_to_pool).0;
        assert(all =~= seq![order[0]] + tail);
        assert(all[b] == tail[b - 1]);
        if a > 0 {
            assert(all[a] == tail[a - 1]);
            let at = lemma_granted_in_order(rest, next, node_to_pool, a - 1, b - 1);
            (at.0 + 1, at.1 + 1)
        } else {
            let m = lemma_granted_place(rest, next, node_to_pool, b - 1);
            (0, m + 1)
        }
    } else {
        let at = lemma_granted_in_order(rest, pools, node_to_pool, a, b);
        (at.0 + 1, at.1 + 1)
    }
}

/// Where a granted node stands in the order.
proof fn lemma_granted_place(
    order: Seq<usize>,
    pools: Seq<VirtualPool>,
    node_to_pool: Seq<usize>,
    a: int,
) -> (at: int)
    requires
        0 <= a < crate::schedule::granted(order, pools, node_to_pool).0.len(),
    ensures
        0 <= at < order.len(),
        order[at] == crate::schedule::granted(order, pools, node_to_pool).0[a],
    decreases order.len(),
{
    let q = node_to_pool[order[0] as int] as int;
    let rest = order.skip(1);
    let all = crate::schedule::granted(order, pools, node_to_pool).0;
    if pools[q].num_threads_occupied < pools[q].virtual_thread_count {
        let taken = VirtualPool {
            virtual_thread_count: pools[q].virtual_thread_count,
            num_threads_occupied: (pools[q].num_threads_occupied + 1) as usize,
        };
        let next = pools.update(q, taken);
        let tail = crate::schedule::granted(rest, next, node_to_pool).0;
        assert(all =~= seq![order[0]] + tail);
        if a > 0 {
            assert(all[a] == tail[a - 1]);
            lemma_granted_place(rest, next, node_to_pool, a - 1) + 1
        } else {
            0
        }
    } else {
        lemma_granted_place(rest, pools, node_to_pool, a) + 1
    }
}

/// The order in which the candidates of a step are considered, and what it
/// lists.
proof fn lemma_order_of(schedule: Schedule, ready: Seq<bool>) -> (order: Seq<usize>)
    requires
        schedule.shaped(),
        ready.len() == schedule.node_to_pool@.len(),
    ensures
        schedule.grants(ready) == crate::schedule::granted(
            order,
            schedule.virtual_pools@,
            schedule.node_to_pool@,
        ),
        forall|x: usize| #[trigger]
            order.contains(x) <==> schedule.candidates(ready).contains(x),
        forall|a: int, b: int|
            0 <= a < b < order.len() ==> goes_first(
                schedule,
                #[trigger] order[a] as int,
                #[trigger] order[b] as int,
            ),
        forall|a: int, b: int|
            0 <= a < b < order.len() ==> #[trigger] order[a] != #[trigger] order[b],
        forall|a: int|
            0 <= a < order.len() ==> (#[trigger] order[a]) < schedule.node_to_pool@.len()
                && schedule.node_to_pool@[order[a] as int] < schedule.virtual_pools@.len(),
{
    let candidates = schedule.candidates(ready);
    let since = crate::schedule::noted(schedule.node_ready_since@, candidates, schedule.time);
    let order = crate::schedule::wait_order(candidates, since);
    crate::schedule::law_wait_order_sorts(candidates, since);
    lemma_candidates_are_nodes(schedule, ready);
    assert forall|a: int| 0 <= a < order.len() implies (#[trigger] order[a])
        < schedule.node_to_pool@.len() && candidates.contains(order[a]) by {
        assert(order.contains(order[a]));
        let m = choose|m: int| 0 <= m < candidates.len() && candidates[m] == order[a];
        assert(candidates[m] < schedule.node_to_pool@.len());
    }
    assert forall|a: int, b: int| 0 <= a < b < order.len() implies goes_first(
        schedule,
        #[trigger] order[a] as int,
        #[trigger] order[b] as int,
    ) && order[a] != order[b] by {
        assert(crate::schedule::waits_longer(since, order[a], order[b]));
        assert(candidates.contains(order[a]) && candidates.contains(order[b]));
    }
    order
}

/// Since when node `i` has waited, if it waits at the schedule's time.
spec fn waiting_since(schedule: Schedule, i: int) -> FrameworkTime {
    match schedule.node_ready_since@[i] {
        Some(time) => time,
        None => schedule.time,
    }
}

/// Whether node `i` has waited longer than node `j`, or equally long and has
/// the smaller index.
spec fn goes_first(schedule: Schedule, i: int, j: int) -> bool {
    let (a, b) = (waiting_since(schedule, i), waiting_since(schedule, j));
    a.nanoseconds < b.nanoseconds || a.nanoseconds == b.nanoseconds && i < j
}

/// A node that is not busy and that data makes ready, or whose requested time
/// has come, either runs or waits for a thread of its pool, and it waits only
/// where the pool has no thread left. One that waits has done so since it first
/// became ready.
pub proof fn law_due_node_runs_or_its_pool_is_full(
    before: Schedule,
    after: Schedule,
    ready: Seq<bool>,
    runnable: Seq<usize>,
    i: int,
)
    requires
        before.shaped(),
        ready.len() == before.node_to_pool@.len(),
        allocates(before, after, ready, runnable),
        0 <= i < before.node_to_pool@.len(),
        before.node_busy_until@[i].nanoseconds <= before.time.nanoseconds,
        ready[i] || exists|k: int|
            0 <= k < before.periodic_nodes@.len() && (#[trigger] before.periodic_nodes@[k]).index
                == i && before.periodic_nodes@[k].requested_exec_time.nanoseconds
                <= before.time.nanoseconds,
    ensures
        runnable.contains(i as usize) ==> after.node_ready_since@[i] is None
            && after.node_thread_occupied@[i],
        !runnable.contains(i as usize) ==> {
            let pool = after.virtual_pools@[before.node_to_pool@[i] as int];
            &&& pool.num_threads_occupied >= pool.virtual_thread_count
            &&& pool.virtual_thread_count
                == before.virtual_pools@[before.node_to_pool@[i] as int].virtual_thread_count
            &&& after.node_ready_since@[i] == Some(
                match before.node_ready_since@[i] {
                    Some(since) => since,
                    None => before.time,
                },
            )
        },
{
    law_candidates_are_the_due_nodes(before, ready, i);
    let order = lemma_order_of(before, ready);
    assert(order.contains(i as usize));
    let a = choose|a: int| 0 <= a < order.len() && order[a] == i as usize;
    assert(before.node_to_pool.len() == before.node_to_pool@.len());
    if !runnable.contains(i as usize) {
        lemma_refused_pool_is_full(order, before.virtual_pools@, before.node_to_pool@, a);
        lemma_granted_pools(
            order,
            before.virtual_pools@,
            before.node_to_pool@,
            before.node_to_pool@[i] as int,
        );
    }
}

/// Only nodes run that are not busy and that data makes ready or whose
/// requested time has come; each runs once in a step.
pub proof fn law_only_due_nodes_run(
    before: Schedule,
    after: Schedule,
    ready: Seq<bool>,
    runnable: Seq<usize>,
    i: int,
)
    requires
        before.shaped(),
        ready.len() == before.node_to_pool@.len(),
        allocates(before, after, ready, runnable),
        runnable.contains(i as usize),
        0 <= i <= usize::MAX,
    ensures
        i < before.node_to_pool@.len(),
        before.node_busy_until@[i].nanoseconds <= before.time.nanoseconds,
        ready[i] || exists|k: int|
            0 <= k < before.periodic_nodes@.len() && (#[trigger] before.periodic_nodes@[k]).index
                == i && before.periodic_nodes@[k].requested_exec_time.nanoseconds
                <= before.time.nanoseconds,
        runnable.no_duplicates(),
{
    let order = lemma_order_of(before, ready);
    crate::schedule::lemma_granted_from_order(order, before.virtual_pools@, before.node_to_pool@);
    let k = choose|k: int| 0 <= k < runnable.len() && runnable[k] == i as usize;
    assert(order.contains(runnable[k]));
    let a = choose|a: int| 0 <= a < order.len() && order[a] == i as usize;
    assert(order[a] < before.node_to_pool@.len());
    law_candidates_are_the_due_nodes(before, ready, i);
    assert forall|a: int, b: int| 0 <= a < b < runnable.len() implies runnable[a]
        != runnable[b] by {
        assert(crate::schedule::granted(order, before.virtual_pools@, before.node_to_pool@).0[a]
            != crate::schedule::granted(order, before.virtual_pools@, before.node_to_pool@).0[b]);
    }
}

/// The nodes that wait longest go first: a node that runs goes before each node
/// of its pool that has to wait, and the nodes that run are listed in that
/// order.
pub proof fn law_threads_go_to_the_longest_waiting(
    before: Schedule,
    after: Schedule,
    ready: Seq<bool>,
    runnable: Seq<usize>,
)
    requires
        before.shaped(),
        ready.len() == before.node_to_pool@.len(),
        allocates(before, after, ready, runnable),
    ensures
        ({
            let since = |i: int|
                match before.node_ready_since@[i] {
                    Some(time) => time.nanoseconds as int,
                    None => before.time.nanoseconds as int,
                };
            &&& forall|a: int, b: int|
                0 <= a < b < runnable.len() ==> {
                    let (i, j) = (#[trigger] runnable[a] as int, #[trigger] runnable[b] as int);
                    since(i) < since(j) || since(i) == since(j) && i < j
                }
            &&& forall|a: int, j: int|
                #![trigger runnable[a], before.node_busy_until@[j]]
                0 <= a < runnable.len() && 0 <= j < before.node_to_pool@.len()
                    && !runnable.contains(j as usize) && before.node_to_pool@[j]
                    == before.node_to_pool@[runnable[a] as int]
                    && before.node_busy_until@[j].nanoseconds <= before.time.nanoseconds && (
                ready[j] || exists|k: int|
                    0 <= k < before.periodic_nodes@.len() && (#[trigger]
                    before.periodic_nodes@[k]).index == j
                        && before.periodic_nodes@[k].requested_exec_time.nanoseconds
                        <= before.time.nanoseconds) ==> {
                    let i = runnable[a] as int;
                    since(i) < since(j) || since(i) == since(j) && i < j
                }
        }),
{
    let order = lemma_order_of(before, ready);
    let pools = before.virtual_pools@;
    let node_to_pool = before.node_to_pool@;
    assert(before.node_to_pool.len() == before.node_to_pool@.len());
    assert forall|a: int, b: int| 0 <= a < b < runnable.len() implies goes_first(
        before,
        #[trigger] runnable[a] as int,
        #[trigger] runnable[b] as int,
    ) by {
        let at = lemma_granted_in_order(order, pools, node_to_pool, a, b);
        assert(goes_first(before, order[at.0] as int, order[at.1] as int));
    }
    assert forall|a: int, j: int|
        #![trigger runnable[a], before.node_busy_until@[j]]
        0 <= a < runnable.len() && 0 <= j < before.node_to_pool@.len() && !runnable.contains(
            j as usize,
        ) && before.node_to_pool@[j] == before.node_to_pool@[runnable[a] as int]
            && before.node_busy_until@[j].nanoseconds <= before.time.nanoseconds && (ready[j]
            || exists|k: int|
            0 <= k < before.periodic_nodes@.len() && (#[trigger] before.periodic_nodes@[k]).index
                == j && before.periodic_nodes@[k].requested_exec_time.nanoseconds
                <= before.time.nanoseconds) implies goes_first(
        before,
        runnable[a] as int,
        j,
    ) by {
        law_candidates_are_the_due_nodes(before, ready, j);
        assert(order.contains(j as usize));
        let at = choose|at: int| 0 <= at < order.len() && order[at] == j as usize;
        let place = lemma_granted_place(order, pools, node_to_pool, a);
        if at < place {
            crate::schedule::law_longest_wait_first(order, pools, node_to_pool, at, place);
        } else {
            assert(runnable.contains(runnable[a]));
            assert(at != place);
            assert(goes_first(before, order[place] as int, order[at] as int));
        }
    }
}

/// The nodes of pool `p` that hold a thread.
spec fn holders(schedule: Schedule, p: int) -> Set<int> {
    Set::new(
        |i: int|
            0 <= i < schedule.node_to_pool@.len() && schedule.node_thread_occupied@[i]
                && schedule.node_to_pool@[i] == p,
    )
}

proof fn lemma_occupancy_counts(occupied: Seq<bool>, node_to_pool: Seq<usize>, p: int, n: int)
    requires
        0 <= n,
    ensures
        Set::new(|i: int| 0 <= i < n && occupied[i] && node_to_pool[i] == p).finite(),
        occupancy(occupied, node_to_pool, p, n) == Set::new(
            |i: int| 0 <= i < n && occupied[i] && node_to_pool[i] == p,
        ).len(),
    decreases n,
{
    let all = Set::new(|i: int| 0 <= i < n && occupied[i] && node_to_pool[i] == p);
    if n > 0 {
        lemma_occupancy_counts(occupied, node_to_pool, p, n - 1);
        let rest = Set::new(|i: int| 0 <= i < n - 1 && occupied[i] && node_to_pool[i] == p);
        if occupied[n - 1] && node_to_pool[n - 1] == p {
            assert(all =~= rest.insert(n - 1));
        } else {
            assert(all =~= rest);
        }
    } else {
        assert(all =~= Set::empty());
    }
}

/// A pool has as many threads taken as its nodes hold, and never more than it
/// has.
pub proof fn law_pool_counts_its_nodes(schedule: Schedule, p: int)
    requires
        schedule.shaped(),
        0 <= p < schedule.virtual_pools@.len(),
    ensures
        ({
            let holders = Set::new(
                |i: int|
                    0 <= i < schedule.node_to_pool@.len() && schedule.node_thread_occupied@[i]
                        && schedule.node_to_pool@[i] == p,
            );
            &&& holders.finite()
            &&& schedule.virtual_pools@[p].num_threads_occupied == holders.len()
            &&& holders.len() <= schedule.virtual_pools@[p].virtual_thread_count
        }),
{
    lemma_pool_counts(schedule, p);
    assert(holders(schedule, p) =~= Set::new(
        |i: int|
            0 <= i < schedule.node_to_pool@.len() && schedule.node_thread_occupied@[i]
                && schedule.node_to_pool@[i] == p,
    ));
}

proof fn lemma_pool_counts(schedule: Schedule, p: int)
    requires
        schedule.shaped(),
        0 <= p < schedule.virtual_pools@.len(),
    ensures
        holders(schedule, p).finite(),
        schedule.virtual_pools@[p].num_threads_occupied == holders(schedule, p).len(),
        holders(schedule, p).len() <= schedule.virtual_pools@[p].virtual_thread_count,
{
    let n = schedule.node_to_pool@.len() as int;
    lemma_occupancy_counts(schedule.node_thread_occupied@, schedule.node_to_pool@, p, n);
    assert(holders(schedule, p) =~= Set::new(
        |i: int|
            0 <= i < n && schedule.node_thread_occupied@[i] && schedule.node_to_pool@[i] == p,
    ));
    assert(schedule.virtual_pools@[p].num_threads_occupied
        <= schedule.virtual_pools@[p].virtual_thread_count);
}

/// The nodes of pool `p` that are not busy and that data makes ready or whose
/// requested time has come.
spec fn due_nodes(schedule: Schedule, ready: Seq<bool>, p: int) -> Set<int> {
    Set::new(
        |i: int|
            0 <= i < schedule.node_to_pool@.len() && schedule.node_to_pool@[i] == p
                && schedule.node_busy_until@[i].nanoseconds <= schedule.time.nanoseconds && (ready[i]
                || exists|k: int|
                0 <= k < schedule.periodic_nodes@.len() && (#[trigger]
                schedule.periodic_nodes@[k]).index == i
                    && schedule.periodic_nodes@[k].requested_exec_time.nanoseconds
                    <= schedule.time.nanoseconds),
    )
}

/// Where a pool has a free thread for each of its nodes that are due, all of
/// them run.
pub proof fn law_free_threads_serve_all_due_nodes(
    before: Schedule,
    after: Schedule,
    ready: Seq<bool>,
    runnable: Seq<usize>,
    p: int,
    i: int,
)
    requires
        before.shaped(),
        after.shaped(),
        ready.len() == before.node_to_pool@.len(),
        allocates(before, after, ready, runnable),
        0 <= p < before.virtual_pools@.len(),
        0 <= i < before.node_to_pool@.len(),
        ({
            let due = Set::new(
                |j: int|
                    0 <= j < before.node_to_pool@.len() && before.node_to_pool@[j] == p
                        && before.node_busy_until@[j].nanoseconds <= before.time.nanoseconds && (
                    ready[j] || exists|k: int|
                        0 <= k < before.periodic_nodes@.len() && (#[trigger]
                        before.periodic_nodes@[k]).index == j
                            && before.periodic_nodes@[k].requested_exec_time.nanoseconds
                            <= before.time.nanoseconds),
            );
            &&& before.virtual_pools@[p].num_threads_occupied + due.len()
                <= before.virtual_pools@[p].virtual_thread_count
            &&& due.contains(i)
        }),
    ensures
        runnable.contains(i as usize),
{
    assert(due_nodes(before, ready, p) =~= Set::new(
        |j: int|
            0 <= j < before.node_to_pool@.len() && before.node_to_pool@[j] == p
                && before.node_busy_until@[j].nanoseconds <= before.time.nanoseconds && (ready[j]
                || exists|k: int|
                0 <= k < before.periodic_nodes@.len() && (#[trigger]
                before.periodic_nodes@[k]).index == j
                    && before.periodic_nodes@[k].requested_exec_time.nanoseconds
                    <= before.time.nanoseconds),
    ));
    if !runnable.contains(i as usize) {
        law_due_node_runs_or_its_pool_is_full(before, after, ready, runnable, i);
        lemma_pool_counts(after, p);
        lemma_pool_counts(before, p);
        let n = before.node_to_pool@.len() as int;
        let due = due_nodes(before, ready, p);
        vstd::set_lib::lemma_int_range(0, n);
        assert(due.subset_of(vstd::set_lib::set_int_range(0, n)));
        vstd::set_lib::lemma_len_subset(due, vstd::set_lib::set_int_range(0, n));
        let others = due.remove(i);
        let bound = holders(before, p).union(others);
        assert(before.node_to_pool.len() == before.node_to_pool@.len());
        assert(holders(after, p).subset_of(bound)) by {
            assert forall|j: int| holders(after, p).contains(j) implies bound.contains(j) by {
                if !before.node_thread_occupied@[j] {
                    assert(runnable.contains(j as usize));
                    law_only_due_nodes_run(before, after, ready, runnable, j);
                }
            }
        }
        vstd::set_lib::lemma_len_subset(holders(after, p), bound);
        vstd::set_lib::lemma_len_union(holders(before, p), others);
    }
}

/// A node that ran is busy for the time that the run took, counted from the
/// step's time and held down to the clock's greatest reading. The others stay
/// busy as they were.
pub proof fn law_runs_take_their_time(
    before: Schedule,
    after: Schedule,
    runnable: Seq<usize>,
    durations: Seq<Duration>,
    next_times: Seq<Option<FrameworkTime>>,
)
    requires
        before.running(runnable),
        durations.len() == runnable.len(),
        completes(before, after, runnable, durations, next_times),
    ensures
        after.node_busy_until@.len() == before.node_busy_until@.len(),
        forall|k: int|
            0 <= k < runnable.len() ==> {
                let end = after.node_busy_until@[(#[trigger] runnable[k]) as int].nanoseconds;
                if durations[k].nanoseconds > i64::MAX || before.time.nanoseconds
                    + durations[k].nanoseconds > i64::MAX {
                    end == i64::MAX
                } else {
                    end == before.time.nanoseconds + durations[k].nanoseconds
                }
            },
        forall|i: int|
            0 <= i < before.node_busy_until@.len() && !runnable.contains(i as usize)
                ==> #[trigger] after.node_busy_until@[i] == before.node_busy_until@[i],
{
    let n = runnable.len() as int;
    assert(before.node_to_pool.len() == before.node_to_pool@.len());
    assert forall|k: int| 0 <= k < runnable.len() implies ends_at(
        before.time,
        durations[k],
        after.node_busy_until@[(#[trigger] runnable[k]) as int],
    ) by {
        crate::schedule::law_started_node_is_busy_for_its_duration(
            before.node_busy_until@,
            runnable,
            durations,
            before.time,
            n,
            k,
        );
    }
    crate::schedule::lemma_busied_len(
        before.node_busy_until@,
        runnable,
        durations,
        before.time,
        n,
    );
    assert forall|i: int|
        0 <= i < before.node_busy_until@.len() && !runnable.contains(i as usize) implies #[trigger]
    after.node_busy_until@[i] == before.node_busy_until@[i] by {
        assert forall|j: int| 0 <= j < n implies (#[trigger] runnable[j]) != i by {}
    }
}

/// Whether a span from `start` ends at `end`: the sum of both, or the clock's
/// greatest reading where the sum or the span is beyond it.
spec fn ends_at(start: FrameworkTime, span: Duration, end: FrameworkTime) -> bool {
    if span.nanoseconds > i64::MAX || start.nanoseconds + span.nanoseconds > i64::MAX {
        end.nanoseconds == i64::MAX
    } else {
        end.nanoseconds == start.nanoseconds + span.nanoseconds
    }
}

/// A periodic node that ran is next wanted at the time that it asked for, if it
/// asked for one; the others are wanted when they were.
pub proof fn law_requested_times_are_honored(
    before: Schedule,
    after: Schedule,
    runnable: Seq<usize>,
    durations: Seq<Duration>,
    next_times: Seq<Option<FrameworkTime>>,
    k: int,
)
    requires
        completes(before, after, runnable, durations, next_times),
        next_times.len() == before.periodic_nodes@.len(),
        0 <= k < before.periodic_nodes@.len(),
    ensures
        after.periodic_nodes@.len() == before.periodic_nodes@.len(),
        after.periodic_nodes@[k].index == before.periodic_nodes@[k].index,
        runnable.contains(before.periodic_nodes@[k].index) && next_times[k] is Some
            ==> after.periodic_nodes@[k].requested_exec_time == next_times[k]->0,
        !runnable.contains(before.periodic_nodes@[k].index) || next_times[k] is None
            ==> after.periodic_nodes@[k].requested_exec_time
            == before.periodic_nodes@[k].requested_exec_time,
{
}

/// A step does not pass over anything that happens: the clock stops at the
/// latest where a node that ran takes some time and is done, where a periodic
/// node wants to run, and where an input arrives, if that lies ahead.
pub proof fn law_clock_passes_over_nothing(
    before: Schedule,
    after: Schedule,
    runnable: Seq<usize>,
    durations: Seq<Duration>,
    next_times: Seq<Option<FrameworkTime>>,
)
    requires
        before.running(runnable),
        durations.len() == runnable.len(),
        completes(before, after, runnable, durations, next_times),
    ensures
        forall|k: int|
            0 <= k < runnable.len() && (#[trigger] durations[k]).nanoseconds > 0
                && before.time.nanoseconds < i64::MAX ==> before.time.nanoseconds
                < after.time.nanoseconds && (durations[k].nanoseconds <= i64::MAX
                ==> after.time.nanoseconds <= before.time.nanoseconds + durations[k].nanoseconds),
        forall|k: int|
            0 <= k < after.periodic_nodes@.len() && (#[trigger]
            after.periodic_nodes@[k]).requested_exec_time.nanoseconds > before.time.nanoseconds
                ==> before.time.nanoseconds < after.time.nanoseconds
                <= after.periodic_nodes@[k].requested_exec_time.nanoseconds,
        before.next_input matches Some(input) ==> input.nanoseconds > before.time.nanoseconds
            ==> before.time.nanoseconds < after.time.nanoseconds <= input.nanoseconds,
{
    law_runs_take_their_time(before, after, runnable, durations, next_times);
    let busy = after.node_busy_until@;
    let periodic = after.periodic_nodes@;
    assert forall|k: int|
        0 <= k < runnable.len() && (#[trigger] durations[k]).nanoseconds > 0
            && before.time.nanoseconds < i64::MAX implies before.time.nanoseconds
        < after.time.nanoseconds && (durations[k].nanoseconds <= i64::MAX
        ==> after.time.nanoseconds <= before.time.nanoseconds + durations[k].nanoseconds) by {
        let end = busy[runnable[k] as int];
        assert(ends_at(before.time, durations[k], end));
        assert(crate::schedule::is_event(runnable, busy, periodic, before.next_input, end));
    }
    assert forall|k: int|
        0 <= k < periodic.len() && (#[trigger] periodic[k]).requested_exec_time.nanoseconds
            > before.time.nanoseconds implies before.time.nanoseconds < after.time.nanoseconds
        <= periodic[k].requested_exec_time.nanoseconds by {
        assert(crate::schedule::is_event(
            runnable,
            busy,
            periodic,
            before.next_input,
            periodic[k].requested_exec_time,
        ));
    }
    if before.next_input is Some {
        assert(crate::schedule::is_event(
            runnable,
            busy,
            periodic,
            before.next_input,
            before.next_input->0,
        ));
    }
}

/// The clock goes nowhere but where something happens: a step leaves it, or it
/// stops where a node that ran is done, a periodic node wants to run, or an
/// input arrives.
pub proof fn law_clock_stops_where_something_happens(
    before: Schedule,
    after: Schedule,
    runnable: Seq<usize>,
    durations: Seq<Duration>,
    next_times: Seq<Option<FrameworkTime>>,
)
    requires
        before.running(runnable),
        durations.len() == runnable.len(),
        completes(before, after, runnable, durations, next_times),
    ensures
        after.time.nanoseconds >= before.time.nanoseconds,
        after.time != before.time ==> {
            ||| exists|k: int|
                0 <= k < runnable.len() && after.time.nanoseconds == if (#[trigger]
                durations[k]).nanoseconds > i64::MAX || before.time.nanoseconds
                    + durations[k].nanoseconds > i64::MAX {
                    i64::MAX as int
                } else {
                    before.time.nanoseconds + durations[k].nanoseconds
                }
            ||| exists|k: int|
                0 <= k < after.periodic_nodes@.len() && (#[trigger]
                after.periodic_nodes@[k]).requested_exec_time == after.time
            ||| before.next_input == Some(after.time)
        },
{
    law_runs_take_their_time(before, after, runnable, durations, next_times);
    if after.time != before.time {
        let busy = after.node_busy_until@;
        assert(crate::schedule::is_event(
            runnable,
            busy,
            after.periodic_nodes@,
            before.next_input,
            after.time,
        ));
        if exists|k: int|
            0 <= k < runnable.len() && busy[(#[trigger] runnable[k]) as int] == after.time {
            let k = choose|k: int|
                0 <= k < runnable.len() && busy[(#[trigger] runnable[k]) as int] == after.time;
            assert(ends_at(before.time, durations[k], after.time));
        }
    }
}

/// A node holds its thread as long as it is busy: it loses it once the clock has
/// come to the end of its run, and not before.
pub proof fn law_threads_are_held_while_busy(
    before: Schedule,
    after: Schedule,
    runnable: Seq<usize>,
    durations: Seq<Duration>,
    next_times: Seq<Option<FrameworkTime>>,
    i: int,
)
    requires
        before.running(runnable),
        completes(before, after, runnable, durations, next_times),
        0 <= i < before.node_to_pool@.len(),
    ensures
        after.node_thread_occupied@[i] <==> before.node_thread_occupied@[i]
            && after.node_busy_until@[i].nanoseconds > after.time.nanoseconds,
        after.virtual_pools@.len() == before.virtual_pools@.len(),
        forall|p: int|
            0 <= p < before.virtual_pools@.len() ==> (#[trigger]
            after.virtual_pools@[p]).virtual_thread_count
                == before.virtual_pools@[p].virtual_thread_count,
        after.node_to_pool@ == before.node_to_pool@,
        after.node_ready_since@ == before.node_ready_since@,
{
}

/// Every step is counted.
pub proof fn law_steps_are_counted(
    before: Schedule,
    after: Schedule,
    runnable: Seq<usize>,
    durations: Seq<Duration>,
    next_times: Seq<Option<FrameworkTime>>,
)
    requires
        completes(before, after, runnable, durations, next_times),
    ensures
        before.step_count < usize::MAX ==> after.step_count == before.step_count + 1,
        before.step_count == usize::MAX ==> after.step_count == usize::MAX,
{
}

/// Starting notes each node that asks for a time, to run at once, and no other.
pub proof fn law_start_notes_the_asking_nodes(flags: Seq<bool>, time: FrameworkTime, n: int, i: int)
    requires
        0 <= i < n <= flags.len(),
        n <= usize::MAX,
    ensures
        flags[i] <==> exists|k: int|
            0 <= k < crate::schedule::periodic_nodes_of(flags, time, n).len() && (#[trigger]
            crate::schedule::periodic_nodes_of(flags, time, n)[k]).index == i,
        forall|k: int|
            0 <= k < crate::schedule::periodic_nodes_of(flags, time, n).len() ==> (#[trigger]
            crate::schedule::periodic_nodes_of(flags, time, n)[k]).requested_exec_time == time
                && crate::schedule::periodic_nodes_of(flags, time, n)[k].index < n,
    decreases n,
{
    let all = crate::schedule::periodic_nodes_of(flags, time, n);
    let rest = crate::schedule::periodic_nodes_of(flags, time, n - 1);
    if n > 1 {
        law_start_notes_the_asking_nodes(flags, time, n - 1, if i < n - 1 { i } else { 0 });
    } else {
        assert(rest.len() == 0);
    }
    if flags[i] {
        if i < n - 1 {
            let k = choose|k: int| 0 <= k < rest.len() && (#[trigger] rest[k]).index == i;
            assert(all[k].index == i);
        } else {
            assert(all[all.len() - 1].index == i);
        }
    }
    if exists|k: int| 0 <= k < all.len() && (#[trigger] all[k]).index == i {
        let k = choose|k: int| 0 <= k < all.len() && (#[trigger] all[k]).index == i;
        if k < rest.len() {
            assert(rest[k].index == i);
        }
    }
}

} // verus!
