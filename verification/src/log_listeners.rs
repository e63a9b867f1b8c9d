//! The subscribers of the execution-log channel, and the order in which the
//! execution-log publishers are connected to them.
use vstd::prelude::*;

use crate::connect_graph::all_slots;
use crate::execution_log::EXECUTION_LOG_CHANNEL;
use crate::executor::ThreadPoolConfig;
use crate::pub_sub::PubSub;
use crate::publisher::SubscriberBuffer;
use crate::subscriber::Subscriber;

verus! {

/// Whether subscriber `s` listens to the execution-log channel.
pub open spec fn listens(subscribers: Seq<Subscriber>, s: int) -> bool {
    &&& 0 <= s < subscribers.len()
    &&& subscribers[s].config.channel_name@ == EXECUTION_LOG_CHANNEL@
}

/// Whether `order` lists number `s` at place `a`.
pub open spec fn listed_at(order: Seq<usize>, a: int, s: int) -> bool {
    0 <= a < order.len() && order[a] == s
}

/// Whether `order` lists the subscribers of the execution-log channel, each
/// once.
pub open spec fn lists_all(order: Seq<usize>, subscribers: Seq<Subscriber>) -> bool {
    &&& order.no_duplicates()
    &&& forall|a: int|
        0 <= a < order.len() ==> listens(subscribers, #[trigger] order[a] as int)
    &&& forall|s: int| #[trigger]
        listens(subscribers, s) ==> exists|a: int| #[trigger] listed_at(order, a, s)
}

/// Whether node `i` of pool `k` owns subscriber `s`.
pub open spec fn owner_at<T>(pools: Seq<ThreadPoolConfig<T>>, k: int, i: int, s: int) -> bool {
    &&& 0 <= k < pools.len()
    &&& 0 <= i < pools[k].nodes.nodes@.len()
    &&& pools[k].nodes.nodes@[i].node.ports.owns_subscriber(s)
}

/// Whether each subscriber belongs to a node of the pools.
pub open spec fn all_owned<T>(pools: Seq<ThreadPoolConfig<T>>, system: PubSub<T>) -> bool {
    forall|s: int| 0 <= s < system.subscribers@.len() ==> #[trigger] owned(pools, s)
}

/// Whether subscriber `s` belongs to a node of the pools.
pub open spec fn owned<T>(pools: Seq<ThreadPoolConfig<T>>, s: int) -> bool {
    exists|k: int, i: int| #[trigger] owner_at(pools, k, i, s)
}

/// Whether no subscriber belongs to two nodes.
pub open spec fn owned_once<T>(pools: Seq<ThreadPoolConfig<T>>) -> bool {
    forall|k: int, i: int, l: int, j: int, s: int|
        #[trigger] owner_at(pools, k, i, s) && #[trigger] owner_at(pools, l, j, s) ==> k == l && i
            == j
}

/// Whether the inputs of the nodes stand in `system`.
pub open spec fn inputs_stand<T>(pools: Seq<ThreadPoolConfig<T>>, system: PubSub<T>) -> bool {
    forall|k: int, i: int|
        0 <= k < pools.len() && 0 <= i < pools[k].nodes.nodes@.len() ==> {
            let ports = (#[trigger] pools[k].nodes.nodes@[i]).node.ports;
            ports.first_subscriber + ports.subscriber_count <= system.subscribers@.len()
        }
}

/// Whether subscriber `s` of node `i` of pool `k` is met before subscriber `t`
/// of node `j` of pool `l`: pool by pool, node by node, input by input.
pub open spec fn met_before(k: int, i: int, s: int, l: int, j: int, t: int) -> bool {
    ||| k < l
    ||| k == l && i < j
    ||| k == l && i == j && s < t
}

/// Whether `order` lists its subscribers as they are met.
pub open spec fn in_turn<T>(order: Seq<usize>, pools: Seq<ThreadPoolConfig<T>>) -> bool {
    forall|a: int, b: int, k: int, i: int, l: int, j: int|
        #![trigger owner_at(pools, k, i, order[a] as int), owner_at(pools, l, j, order[b] as int)]
        0 <= a < b < order.len() && owner_at(pools, k, i, order[a] as int) && owner_at(
            pools,
            l,
            j,
            order[b] as int,
        ) ==> met_before(k, i, order[a] as int, l, j, order[b] as int)
}

/// Whether `order` lists in turn those listeners that are met before subscriber
/// `t` of node `j` of pool `l`.
spec fn listed_before<T>(
    order: Seq<usize>,
    pools: Seq<ThreadPoolConfig<T>>,
    subscribers: Seq<Subscriber>,
    l: int,
    j: int,
    t: int,
) -> bool {
    &&& in_turn(order, pools)
    &&& forall|a: int|
        0 <= a < order.len() ==> listens(subscribers, #[trigger] order[a] as int)
    &&& forall|a: int, k: int, i: int|
        #![trigger owner_at(pools, k, i, order[a] as int)]
        0 <= a < order.len() && owner_at(pools, k, i, order[a] as int) ==> met_before(
            k,
            i,
            order[a] as int,
            l,
            j,
            t,
        )
    &&& forall|s: int, k: int, i: int|
        #![trigger listens(subscribers, s), owner_at(pools, k, i, s)]
        listens(subscribers, s) && owner_at(pools, k, i, s) && met_before(k, i, s, l, j, t)
            ==> exists|a: int| #[trigger] listed_at(order, a, s)
}

/// The next listener goes to the end of the list.
proof fn lemma_listed_next<T>(
    order: Seq<usize>,
    pools: Seq<ThreadPoolConfig<T>>,
    subscribers: Seq<Subscriber>,
    l: int,
    j: int,
    s: usize,
)
    requires
        listed_before(order, pools, subscribers, l, j, s as int),
        owned_once(pools),
        owner_at(pools, l, j, s as int),
    ensures
        listens(subscribers, s as int) ==> listed_before(
            order.push(s),
            pools,
            subscribers,
            l,
            j,
            s + 1,
        ),
        !listens(subscribers, s as int) ==> listed_before(
            order,
            pools,
            subscribers,
            l,
            j,
            s + 1,
        ),
{
    if listens(subscribers, s as int) {
        let more = order.push(s);
        assert forall|a: int, b: int, k: int, i: int, m: int, n: int|
            #![trigger owner_at(pools, k, i, more[a] as int), owner_at(pools, m, n, more[b] as int)]
            0 <= a < b < more.len() && owner_at(pools, k, i, more[a] as int) && owner_at(
                pools,
                m,
                n,
                more[b] as int,
            ) implies met_before(k, i, more[a] as int, m, n, more[b] as int) by {
            assert(more[a] == order[a]);
            if b < order.len() {
                assert(more[b] == order[b]);
            } else {
                assert(m == l && n == j);
            }
        }
        assert forall|a: int, k: int, i: int|
            #![trigger owner_at(pools, k, i, more[a] as int)]
            0 <= a < more.len() && owner_at(pools, k, i, more[a] as int) implies met_before(
            k,
            i,
            more[a] as int,
            l,
            j,
            s + 1,
        ) by {
            if a < order.len() {
                assert(more[a] == order[a]);
            }
        }
        assert forall|t: int, k: int, i: int|
            #![trigger listens(subscribers, t), owner_at(pools, k, i, t)]
            listens(subscribers, t) && owner_at(pools, k, i, t) && met_before(
                k,
                i,
                t,
                l,
                j,
                s + 1,
            ) implies exists|a: int| #[trigger] listed_at(more, a, t) by {
            if t == s {
                assert(listed_at(more, order.len() as int, t));
            } else {
                let a = choose|a: int| #[trigger] listed_at(order, a, t);
                assert(listed_at(more, a, t));
            }
        }
    }
}

/// A list of what is met before some place is one of what is met before
/// another, where nothing is met in between.
proof fn lemma_listed_on<T>(
    order: Seq<usize>,
    pools: Seq<ThreadPoolConfig<T>>,
    subscribers: Seq<Subscriber>,
    from: (int, int, int),
    to: (int, int, int),
)
    requires
        listed_before(order, pools, subscribers, from.0, from.1, from.2),
        forall|k: int, i: int, s: int| #[trigger]
            owner_at(pools, k, i, s) ==> (met_before(k, i, s, from.0, from.1, from.2)
                <==> met_before(k, i, s, to.0, to.1, to.2)),
    ensures
        listed_before(order, pools, subscribers, to.0, to.1, to.2),
{
}

/// The subscribers of the execution-log channel in the order in which they are
/// met, pool by pool and node by node.
pub(crate) fn list_listeners<T>(pools: &Vec<ThreadPoolConfig<T>>, system: &PubSub<T>) -> (order: Vec<
    usize,
>)
    requires
        all_owned(pools@, *system),
        owned_once(pools@),
        inputs_stand(pools@, *system),
    ensures
        lists_all(order@, system.subscribers@),
        in_turn(order@, pools@),
{
    let own_log = EXECUTION_LOG_CHANNEL.to_owned();
    let ghost subs = system.subscribers@;
    let mut order: Vec<usize> = Vec::new();
    let mut k: usize = 0;
    while k < pools.len()
        invariant
            k <= pools@.len(),
            own_log@ == EXECUTION_LOG_CHANNEL@,
            subs == system.subscribers@,
            owned_once(pools@),
            inputs_stand(pools@, *system),
            listed_before(order@, pools@, subs, k as int, 0, 0),
        decreases pools@.len() - k,
    {
        let mut i: usize = 0;
        while i < pools[k].nodes.nodes.len()
            invariant
                k < pools@.len(),
                i <= pools@[k as int].nodes.nodes@.len(),
                own_log@ == EXECUTION_LOG_CHANNEL@,
                subs == system.subscribers@,
                owned_once(pools@),
                inputs_stand(pools@, *system),
                listed_before(order@, pools@, subs, k as int, i as int, 0),
            decreases pools@[k as int].nodes.nodes@.len() - i,
        {
            let ports = &pools[k].nodes.nodes[i].node.ports;
            assert(pools@[k as int].nodes.nodes@[i as int].node.ports == *ports);
            assert(system.subscribers.len() == system.subscribers@.len());
            let mut s: usize = ports.first_subscriber;
            let end: usize = ports.first_subscriber + ports.subscriber_count;
            proof {
                lemma_listed_on(
                    order@,
                    pools@,
                    subs,
                    (k as int, i as int, 0),
                    (k as int, i as int, s as int),
                );
            }
            while s < end
                invariant
                    ports.first_subscriber <= s <= end,
                    end == ports.first_subscriber + ports.subscriber_count,
                    end <= system.subscribers@.len(),
                    k < pools@.len(),
                    i < pools@[k as int].nodes.nodes@.len(),
                    *ports == pools@[k as int].nodes.nodes@[i as int].node.ports,
                    own_log@ == EXECUTION_LOG_CHANNEL@,
                    subs == system.subscribers@,
                    owned_once(pools@),
                    listed_before(order@, pools@, subs, k as int, i as int, s as int),
                decreases end - s,
            {
                assert(owner_at(pools@, k as int, i as int, s as int));
                proof {
                    lemma_listed_next(order@, pools@, subs, k as int, i as int, s);
                }
                if system.subscribers[s].config.channel_name == own_log {
                    order.push(s);
                }
                s = s + 1;
            }
            proof {
                lemma_listed_on(
                    order@,
                    pools@,
                    subs,
                    (k as int, i as int, s as int),
                    (k as int, i + 1, 0),
                );
            }
            i = i + 1;
        }
        proof {
            lemma_listed_on(
                order@,
                pools@,
                subs,
                (k as int, i as int, 0),
                (k + 1, 0, 0),
            );
        }
        k = k + 1;
    }
    proof {
        assert forall|a: int, b: int| 0 <= a < b < order@.len() implies order@[a] != order@[b] by {
            assert(listens(subs, order@[a] as int));
            assert(owned(pools@, order@[a] as int));
            let (l, j) = choose|l: int, j: int| #[trigger]
                owner_at(pools@, l, j, order@[a] as int);
            if order@[a] == order@[b] {
                assert(owner_at(pools@, l, j, order@[b] as int));
            }
        }
        assert forall|s: int| #[trigger] listens(subs, s) implies exists|a: int| #[trigger]
            listed_at(order@, a, s) by {
            assert(owned(pools@, s));
            let (l, j) = choose|l: int, j: int| #[trigger] owner_at(pools@, l, j, s);
            assert(met_before(l, j, s, k as int, 0, 0));
        }
    }
    order
}

/// The connections to the subscribers in `order`.
pub open spec fn links(subscribers: Seq<Subscriber>, order: Seq<usize>) -> Seq<SubscriberBuffer> {
    Seq::new(
        order.len(),
        |a: int|
            SubscriberBuffer {
                subscriber: order[a],
                readiness: subscribers[order[a] as int].readiness_state,
            },
    )
}

/// The slots that the subscribers in `order` can fill.
pub open spec fn slots_of(subscribers: Seq<Subscriber>, order: Seq<usize>) -> int
    decreases order.len(),
{
    if order.len() == 0 {
        0
    } else {
        slots_of(subscribers, order.drop_last())
            + subscribers[order.last() as int].config.buffered()
    }
}

/// Taking a subscriber off the list takes its slots off.
proof fn lemma_slots_without(subscribers: Seq<Subscriber>, order: Seq<usize>, a: int)
    requires
        0 <= a < order.len(),
    ensures
        slots_of(subscribers, order) == slots_of(subscribers, order.remove(a))
            + subscribers[order[a] as int].config.buffered(),
    decreases order.len(),
{
    if a == order.len() - 1 {
        assert(order.remove(a) =~= order.drop_last());
    } else {
        lemma_slots_without(subscribers, order.drop_last(), a);
        assert(order.remove(a).drop_last() =~= order.drop_last().remove(a));
        assert(order.remove(a).last() == order.last());
    }
}

/// Subscribers that are listed once each fill no more slots than all of them.
proof fn lemma_slots_listed_once(subscribers: Seq<Subscriber>, order: Seq<usize>, n: int)
    requires
        0 <= n <= subscribers.len(),
        order.no_duplicates(),
        forall|a: int| 0 <= a < order.len() ==> #[trigger] order[a] < n,
        forall|s: int| 0 <= s < subscribers.len() ==> (#[trigger] subscribers[s]).config.valid(),
    ensures
        0 <= slots_of(subscribers, order) <= all_slots(subscribers, n),
        2 * order.len() <= all_slots(subscribers, n),
    decreases n,
{
    if n == 0 {
        if order.len() > 0 {
            assert(order[0] < n);
        }
    } else {
        assert(subscribers[n - 1].config.valid());
        if exists|a: int| #[trigger] listed_at(order, a, n - 1) {
            let a = choose|a: int| #[trigger] listed_at(order, a, n - 1);
            let rest = order.remove(a);
            assert forall|b: int| 0 <= b < rest.len() implies #[trigger] rest[b] < n - 1 by {
                let c = if b < a {
                    b
                } else {
                    b + 1
                };
                assert(rest[b] == order[c]);
                assert(order[c] < n && order[c] != order[a]);
            }
            lemma_slots_without(subscribers, order, a);
            lemma_slots_listed_once(subscribers, rest, n - 1);
        } else {
            assert forall|b: int| 0 <= b < order.len() implies #[trigger] order[b] < n - 1 by {
                assert(!listed_at(order, b, n - 1));
            }
            lemma_slots_listed_once(subscribers, order, n - 1);
        }
    }
}

/// The buffers behind the connections are the slots of the list.
pub(crate) proof fn lemma_links_buffer<T>(system: PubSub<T>, order: Seq<usize>)
    ensures
        crate::pub_sub_laws::buffered_by(system, links(system.subscribers@, order)) == slots_of(
            system.subscribers@,
            order,
        ),
    decreases order.len(),
{
    if order.len() > 0 {
        lemma_links_buffer(system, order.drop_last());
        let all = links(system.subscribers@, order);
        assert(all.drop_last() =~= links(system.subscribers@, order.drop_last()));
    }
}

/// Connects a fresh publisher to the subscribers in `order`, one after the
/// other.
pub(crate) fn connect_listeners<T>(system: &mut PubSub<T>, publisher: usize, order: &Vec<usize>)
    requires
        old(system).wf(),
        publisher < old(system).publishers@.len(),
        old(system).publishers@[publisher as int].fresh(),
        lists_all(order@, old(system).subscribers@),
        forall|a: int|
            0 <= a < order@.len() ==> old(system).subscribers@[#[trigger] order@[a] as int].value_type
                == old(system).publishers@[publisher as int].value_type,
        old(system).publishers@[publisher as int].config.capacity + 2 * all_slots(
            old(system).subscribers@,
            old(system).subscribers@.len() as int,
        ) <= usize::MAX,
    ensures
        final(system).wf(),
        final(system).subscribers == old(system).subscribers,
        final(system).readiness == old(system).readiness,
        final(system).publishers@.len() == old(system).publishers@.len(),
        forall|q: int|
            0 <= q < old(system).publishers@.len() && q != publisher ==> #[trigger] final(
                system).publishers@[q] == old(system).publishers@[q],
        ({
            let before = old(system).publishers@[publisher as int];
            let after = final(system).publishers@[publisher as int];
            &&& after.config == before.config
            &&& after.value_type == before.value_type
            &&& after.forwarded_channels == before.forwarded_channels
            &&& after.loaned_values@.len() == 0
            &&& after.arena.storage@.len() == 0
            &&& after.connections@ == links(old(system).subscribers@, order@)
            &&& after.arena.slot_capacity == before.config.capacity + slots_of(
                old(system).subscribers@,
                order@,
            )
        }),
{
    let ghost p = publisher as int;
    let ghost subs = system.subscribers@;
    proof {
        assert forall|s: int| 0 <= s < subs.len() implies (#[trigger] subs[s]).config.valid() by {
            assert(subs[s].wf());
        }
        assert(order@.take(0) =~= Seq::empty());
        assert(system.publishers@[p].connections@ =~= links(subs, order@.take(0)));
    }
    let mut a: usize = 0;
    while a < order.len()
        invariant
            a <= order@.len(),
            p == publisher,
            system.wf(),
            publisher < system.publishers@.len(),
            subs == old(system).subscribers@,
            system.subscribers == old(system).subscribers,
            system.readiness == old(system).readiness,
            system.publishers@.len() == old(system).publishers@.len(),
            forall|q: int|
                0 <= q < old(system).publishers@.len() && q != publisher ==> #[trigger]
                system.publishers@[q] == old(system).publishers@[q],
            system.publishers@[p].config == old(system).publishers@[p].config,
            system.publishers@[p].value_type == old(system).publishers@[p].value_type,
            system.publishers@[p].forwarded_channels == old(system).publishers@[p].forwarded_channels,
            system.publishers@[p].loaned_values@.len() == 0,
            system.publishers@[p].arena.storage@.len() == 0,
            system.publishers@[p].connections@ == links(subs, order@.take(a as int)),
            system.publishers@[p].arena.slot_capacity == system.publishers@[p].config.capacity
                + slots_of(subs, order@.take(a as int)),
            lists_all(order@, subs),
            forall|b: int|
                0 <= b < order@.len() ==> subs[#[trigger] order@[b] as int].value_type
                    == system.publishers@[p].value_type,
            forall|s: int| 0 <= s < subs.len() ==> (#[trigger] subs[s]).config.valid(),
            system.publishers@[p].config.capacity + 2 * all_slots(subs, subs.len() as int)
                <= usize::MAX,
        decreases order@.len() - a,
    {
        let ghost some = order@.take(a + 1);
        proof {
            assert(listens(subs, order@[a as int] as int));
            assert(some.drop_last() =~= order@.take(a as int));
            assert forall|b: int| 0 <= b < some.len() implies #[trigger] some[b] < subs.len() by {
                assert(listens(subs, order@[b] as int));
            }
            lemma_slots_listed_once(subs, some, subs.len() as int);
        }
        let _met = system.connect_to_subscriber(publisher, order[a]);
        assert(_met is Ok);
        assert(system.publishers@[p].connections@ =~= links(subs, some));
        a = a + 1;
    }
    assert(order@.take(a as int) =~= order@);
}

} // verus!
