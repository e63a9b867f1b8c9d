//! Connecting every publisher of a graph to the subscribers of its channel.
use vstd::prelude::*;

use crate::callback::CallbackNode;
use crate::connect::MismatchTypeError;
use crate::pub_sub::PubSub;
use crate::publisher::{Publisher, SubscriberBuffer};
use crate::subscriber::Subscriber;

verus! {

/// The connections to those of the first `k` subscribers that listen to
/// channel `name`, in their order.
pub open spec fn matched(subscribers: Seq<Subscriber>, name: Seq<char>, k: int) -> Seq<
    SubscriberBuffer,
>
    decreases k,
{
    if k <= 0 {
        Seq::empty()
    } else {
        let rest = matched(subscribers, name, k - 1);
        if subscribers[k - 1].config.channel_name@ == name {
            rest.push(
                SubscriberBuffer {
                    subscriber: (k - 1) as usize,
                    readiness: subscribers[k - 1].readiness_state,
                },
            )
        } else {
            rest
        }
    }
}

/// The slots that those of the first `k` subscribers can fill that listen to
/// channel `name`.
pub open spec fn matched_slots(subscribers: Seq<Subscriber>, name: Seq<char>, k: int) -> int
    decreases k,
{
    if k <= 0 {
        0
    } else {
        matched_slots(subscribers, name, k - 1) + if subscribers[k - 1].config.channel_name@ == name {
            subscribers[k - 1].config.buffered()
        } else {
            0
        }
    }
}

/// The slots that the first `k` subscribers can fill.
pub open spec fn all_slots(subscribers: Seq<Subscriber>, k: int) -> int
    decreases k,
{
    if k <= 0 {
        0
    } else {
        all_slots(subscribers, k - 1) + subscribers[k - 1].config.buffered()
    }
}

pub(crate) proof fn lemma_slots_bounded(subscribers: Seq<Subscriber>, name: Seq<char>, k: int, n: int)
    requires
        0 <= k <= n <= subscribers.len(),
        forall|s: int| 0 <= s < subscribers.len() ==> (#[trigger] subscribers[s]).config.valid(),
    ensures
        0 <= matched_slots(subscribers, name, k) <= all_slots(subscribers, k) <= all_slots(
            subscribers,
            n,
        ),
        2 * matched(subscribers, name, k).len() <= all_slots(subscribers, k),
    decreases n,
{
    if k < n {
        lemma_slots_bounded(subscribers, name, k, n - 1);
        assert(subscribers[n - 1].config.valid());
    } else if k > 0 {
        lemma_slots_bounded(subscribers, name, k - 1, n - 1);
        assert(subscribers[k - 1].config.valid());
    }
}

/// Publisher `p` is connected to those of the first `k` subscribers that
/// listen to its channel, has room for what they can hold, and carries their
/// payload type.
pub open spec fn linked<T>(publisher: Publisher<T>, subscribers: Seq<Subscriber>, k: int) -> bool {
    &&& publisher.loaned_values@.len() == 0
    &&& publisher.arena.storage@.len() == 0
    &&& publisher.connections@ == matched(subscribers, publisher.config.channel_name@, k)
    &&& publisher.arena.slot_capacity == publisher.config.capacity + matched_slots(
        subscribers,
        publisher.config.channel_name@,
        k,
    )
    &&& forall|s: int|
        0 <= s < k && (#[trigger] subscribers[s]).config.channel_name@
            == publisher.config.channel_name@ ==> subscribers[s].value_type == publisher.value_type
}

/// Connects a publisher to those subscribers from number `from` up to `to`
/// that listen to its channel. Returns the first of them with another payload
/// type, if there is one.
pub(crate) fn connect_range<T>(system: &mut PubSub<T>, publisher: usize, from: usize, to: usize) -> (r: Option<
    usize,
>)
    requires
        old(system).wf(),
        publisher < old(system).publishers@.len(),
        from <= to <= old(system).subscribers@.len(),
        linked(old(system).publishers@[publisher as int], old(system).subscribers@, from as int),
        old(system).publishers@[publisher as int].config.capacity + 2 * all_slots(
            old(system).subscribers@,
            old(system).subscribers@.len() as int,
        ) <= usize::MAX,
    ensures
        final(system).wf(),
        final(system).subscribers == old(system).subscribers,
        final(system).readiness == old(system).readiness,
        final(system).publishers@.len() == old(system).publishers@.len(),
        forall|q: int|
            0 <= q < old(system).publishers@.len() && q != publisher ==> #[trigger] final(
                system).publishers@[q] == old(system).publishers@[q],
        final(system).publishers@[publisher as int].config == old(
            system).publishers@[publisher as int].config,
        final(system).publishers@[publisher as int].value_type == old(
            system).publishers@[publisher as int].value_type,
        final(system).publishers@[publisher as int].forwarded_channels == old(
            system).publishers@[publisher as int].forwarded_channels,
        r is None ==> linked(
            final(system).publishers@[publisher as int],
            old(system).subscribers@,
            to as int,
        ),
        r matches Some(s) ==> {
            &&& from <= s < to
            &&& linked(
                final(system).publishers@[publisher as int],
                old(system).subscribers@,
                s as int,
            )
            &&& old(system).subscribers@[s as int].config.channel_name@ == old(
                system).publishers@[publisher as int].config.channel_name@
            &&& old(system).subscribers@[s as int].value_type != old(
                system).publishers@[publisher as int].value_type
        },
{
    let ghost p = publisher as int;
    let mut s: usize = from;
    while s < to
        invariant
            system.wf(),
            p == publisher,
            publisher < system.publishers@.len(),
            from <= s <= to <= system.subscribers@.len(),
            system.subscribers == old(system).subscribers,
            system.readiness == old(system).readiness,
            system.publishers@.len() == old(system).publishers@.len(),
            forall|q: int|
                0 <= q < old(system).publishers@.len() && q != publisher ==> #[trigger]
                system.publishers@[q] == old(system).publishers@[q],
            system.publishers@[p].config == old(system).publishers@[p].config,
            system.publishers@[p].value_type == old(system).publishers@[p].value_type,
            system.publishers@[p].forwarded_channels == old(system).publishers@[p].forwarded_channels,
            linked(system.publishers@[p], system.subscribers@, s as int),
            system.publishers@[p].config.capacity + 2 * all_slots(
                system.subscribers@,
                system.subscribers@.len() as int,
            ) <= usize::MAX,
        decreases to - s,
    {
        if system.publishers[publisher].config.channel_name
            == system.subscribers[s].config.channel_name {
            proof {
                let subs = system.subscribers@;
                assert forall|t: int| 0 <= t < subs.len() implies (#[trigger]
                subs[t]).config.valid() by {
                    assert(subs[t].wf());
                }
                lemma_slots_bounded(
                    subs,
                    system.publishers@[p].config.channel_name@,
                    s + 1,
                    subs.len() as int,
                );
                lemma_slots_bounded(
                    subs,
                    system.publishers@[p].config.channel_name@,
                    s as int,
                    subs.len() as int,
                );
            }
            match system.connect_to_subscriber(publisher, s) {
                Ok(_) => {},
                Err(_) => {
                    return Some(s);
                },
            }
        }
        s = s + 1;
    }
    None
}

/// Output `pi` of node `ci` and input `si` of node `oi` share a channel and
/// differ in payload type.
pub open spec fn mismatch<T>(
    nodes: Seq<CallbackNode<T>>,
    ci: int,
    oi: int,
    pi: int,
    si: int,
) -> bool {
    &&& 0 <= ci < nodes.len()
    &&& 0 <= oi < nodes.len()
    &&& 0 <= pi < nodes[ci].publishers@.len()
    &&& 0 <= si < nodes[oi].subscribers@.len()
    &&& nodes[ci].publishers@[pi].config.channel_name@
        == nodes[oi].subscribers@[si].config.channel_name@
    &&& nodes[ci].publishers@[pi].value_type != nodes[oi].subscribers@[si].value_type
}

/// Whether the pair of ports `a` is looked at before `b`: by publishing node,
/// then by subscribing node, then by output, then by input.
pub open spec fn looked_at_before(a: (int, int, int, int), b: (int, int, int, int)) -> bool {
    ||| a.0 < b.0
    ||| a.0 == b.0 && a.1 < b.1
    ||| a.0 == b.0 && a.1 == b.1 && a.2 < b.2
    ||| a.0 == b.0 && a.1 == b.1 && a.2 == b.2 && a.3 < b.3
}

/// Whether `error` reports the first mismatch of the graph.
pub open spec fn reports_first_mismatch<T>(
    error: MismatchTypeError,
    nodes: Seq<CallbackNode<T>>,
) -> bool {
    exists|ci: int, oi: int, pi: int, si: int| #[trigger]
        mismatch(nodes, ci, oi, pi, si) && error.channel_name@
            == nodes[ci].publishers@[pi].config.channel_name@ && error.publisher_callback_node@
            == nodes[ci].name@ && error.subscriber_callback_node@ == nodes[oi].name@ && no_mismatch_before(
            nodes,
            (ci, oi, pi, si),
        )
}

/// Whether nothing that is looked at before `b` is a mismatch.
pub open spec fn no_mismatch_before<T>(
    nodes: Seq<CallbackNode<T>>,
    b: (int, int, int, int),
) -> bool {
    forall|ci: int, oi: int, pi: int, si: int|
        looked_at_before((ci, oi, pi, si), b) ==> !#[trigger] mismatch(nodes, ci, oi, pi, si)
}

/// Up to which subscriber publisher `q` is connected when the outputs before
/// `pi` of node `ci` have met the inputs of node `oi`.
pub open spec fn met<T>(nodes: Seq<CallbackNode<T>>, ci: int, oi: int, pi: int, q: int) -> int {
    let first = crate::connect::publisher_offset(nodes, ci);
    if q < first {
        crate::connect::subscriber_offset(nodes, nodes.len() as int)
    } else if q < first + pi {
        crate::connect::subscriber_offset(nodes, oi + 1)
    } else if ci < nodes.len() && q < first + nodes[ci].publishers@.len() {
        crate::connect::subscriber_offset(nodes, oi)
    } else {
        0
    }
}

/// Every publisher is connected as far as `met` says.
pub open spec fn all_met<T>(
    system: PubSub<T>,
    nodes: Seq<CallbackNode<T>>,
    ci: int,
    oi: int,
    pi: int,
) -> bool {
    forall|q: int|
        0 <= q < system.publishers@.len() ==> linked(
            #[trigger] system.publishers@[q],
            system.subscribers@,
            met(nodes, ci, oi, pi, q),
        )
}

/// A publisher that met a subscriber does not mismatch it.
proof fn lemma_met_means_match<T>(
    system: PubSub<T>,
    nodes: Seq<CallbackNode<T>>,
    k: int,
    a: int,
    b: int,
    c: int,
    d: int,
)
    requires
        crate::connect::ports_stand(system, nodes, nodes.len() as int),
        0 <= a < nodes.len(),
        0 <= b < nodes.len(),
        0 <= c < nodes[a].publishers@.len(),
        0 <= d < nodes[b].subscribers@.len(),
        linked(
            system.publishers@[crate::connect::publisher_offset(nodes, a) + c],
            system.subscribers@,
            k,
        ),
        crate::connect::subscriber_offset(nodes, b) + d < k,
    ensures
        !mismatch(nodes, a, b, c, d),
{
    let n = nodes.len() as int;
    crate::connect::lemma_offsets_ordered(nodes, a, n);
    crate::connect::lemma_offsets_ordered(nodes, b, n);
    let na = nodes[a];
    let nb = nodes[b];
    let s = crate::connect::subscriber_offset(nodes, b) + d;
    let p = crate::connect::publisher_offset(nodes, a) + c;
    assert(crate::connect::is_output(system.publishers@[p], na.publishers@[c]));
    assert(crate::connect::is_input(
        system.subscribers@[s],
        nb.subscribers@[d],
        crate::connect::role_of(nb.subscribers@, d, b),
    ));
    assert(system.subscribers@[s].config == nb.subscribers@[d].config);
}

/// The slots that the placed subscribers can fill are those of the nodes'
/// inputs.
pub(crate) proof fn lemma_slots_of_nodes<T>(system: PubSub<T>, nodes: Seq<CallbackNode<T>>, n: int, i: int)
    requires
        crate::connect::ports_stand(system, nodes, nodes.len() as int),
        0 <= n <= nodes.len(),
        n < nodes.len() ==> 0 <= i <= nodes[n].subscribers@.len(),
        n == nodes.len() ==> i == 0,
    ensures
        all_slots(system.subscribers@, crate::connect::subscriber_offset(nodes, n) + i)
            == crate::connect::buffered_total(nodes.take(n)) + if n < nodes.len() {
            crate::connect::buffered_in(nodes[n].subscribers@.take(i))
        } else {
            0
        },
    decreases n, i,
{
    crate::connect::lemma_offsets_ordered(nodes, n, nodes.len() as int);
    if i > 0 {
        lemma_slots_of_nodes(system, nodes, n, i - 1);
        let node = nodes[n];
        let ports = node.subscribers@;
        assert(ports.take(i).drop_last() =~= ports.take(i - 1));
        assert(crate::connect::is_input(
            system.subscribers@[crate::connect::subscriber_offset(nodes, n) + (i - 1)],
            node.subscribers@[i - 1],
            crate::connect::role_of(node.subscribers@, i - 1, n),
        ));
    } else if n > 0 {
        let node = nodes[n - 1];
        let ports = node.subscribers@;
        lemma_slots_of_nodes(system, nodes, n - 1, ports.len() as int);
        assert(nodes.take(n).drop_last() =~= nodes.take(n - 1));
        assert(nodes.take(n).last() == node);
        assert(ports.take(ports.len() as int) =~= ports);
        if n < nodes.len() {
            assert(nodes[n].subscribers@.take(0) =~= Seq::empty());
        }
    } else {
        assert(nodes.take(0) =~= Seq::empty());
        if n < nodes.len() {
            assert(nodes[n].subscribers@.take(0) =~= Seq::empty());
        }
    }
}

/// Whether the sizes of all arenas fit a machine word.
pub open spec fn sizes_fit<T>(nodes: Seq<CallbackNode<T>>) -> bool {
    &&& crate::connect::buffered_total(nodes) <= usize::MAX
    &&& forall|n: int, p: int|
        0 <= n < nodes.len() && 0 <= p < nodes[n].publishers@.len() ==> (#[trigger]
        nodes[n].publishers@[p]).config.capacity + 2 * crate::connect::buffered_total(nodes)
            <= usize::MAX
}

/// Connects every publisher to the subscribers of its channel.
fn connect_ports<T>(system: &mut PubSub<T>, nodes: &Vec<CallbackNode<T>>) -> (r: Result<
    (),
    MismatchTypeError,
>)
    requires
        old(system).wf(),
        crate::connect::ports_stand(*old(system), nodes@, nodes@.len() as int),
        sizes_fit(nodes@),
        forall|p: int|
            0 <= p < old(system).publishers@.len() ==> (#[trigger] old(
                system).publishers@[p]).fresh(),
    ensures
        final(system).wf(),
        final(system).subscribers == old(system).subscribers,
        final(system).readiness == old(system).readiness,
        crate::connect::ports_stand(*final(system), nodes@, nodes@.len() as int),
        r is Ok ==> forall|q: int|
            0 <= q < final(system).publishers@.len() ==> linked(
                #[trigger] final(system).publishers@[q],
                final(system).subscribers@,
                final(system).subscribers@.len() as int,
            ),
        r is Ok ==> forall|ci: int, oi: int, pi: int, si: int|
            !#[trigger] mismatch(nodes@, ci, oi, pi, si),
        r matches Err(error) ==> reports_first_mismatch(error, nodes@),
{
    let ghost n = nodes@.len() as int;
    let mut ci: usize = 0;
    assert(all_met(*system, nodes@, 0, 0, 0)) by {
        assert forall|q: int| 0 <= q < system.publishers@.len() implies linked(
            #[trigger] system.publishers@[q],
            system.subscribers@,
            met(nodes@, 0, 0, 0, q),
        ) by {
            assert(system.publishers@[q].fresh());
            assert(system.publishers@[q].connections@ =~= Seq::empty());
        }
    }
    while ci < nodes.len()
        invariant
            ci <= nodes@.len(),
            n == nodes@.len(),
            system.wf(),
            system.subscribers == old(system).subscribers,
            system.readiness == old(system).readiness,
            crate::connect::ports_stand(*system, nodes@, n),
            sizes_fit(nodes@),
            all_met(*system, nodes@, ci as int, 0, 0),
        decreases nodes@.len() - ci,
    {
        let mut oi: usize = 0;
        while oi < nodes.len()
            invariant
                ci < nodes@.len(),
                oi <= nodes@.len(),
                n == nodes@.len(),
                system.wf(),
                system.subscribers == old(system).subscribers,
                system.readiness == old(system).readiness,
                crate::connect::ports_stand(*system, nodes@, n),
                sizes_fit(nodes@),
                all_met(*system, nodes@, ci as int, oi as int, 0),
            decreases nodes@.len() - oi,
        {
            let mut pi: usize = 0;
            while pi < nodes[ci].publishers.len()
                invariant
                    ci < nodes@.len(),
                    oi < nodes@.len(),
                    pi <= nodes@[ci as int].publishers@.len(),
                    n == nodes@.len(),
                    system.wf(),
                    system.subscribers == old(system).subscribers,
                    system.readiness == old(system).readiness,
                    crate::connect::ports_stand(*system, nodes@, n),
                    sizes_fit(nodes@),
                    all_met(*system, nodes@, ci as int, oi as int, pi as int),
                decreases nodes@[ci as int].publishers@.len() - pi,
            {
                let ghost before = *system;
                proof {
                    crate::connect::lemma_offsets_ordered(nodes@, ci as int, n);
                    crate::connect::lemma_offsets_ordered(nodes@, oi as int, n);
                    lemma_slots_of_nodes(*system, nodes@, n, 0);
                    assert(nodes@.take(n) =~= nodes@);
                    assert(crate::connect::node_stands(
                        *system,
                        nodes@[ci as int],
                        crate::connect::subscriber_offset(nodes@, ci as int),
                        crate::connect::publisher_offset(nodes@, ci as int),
                        ci as int,
                    ));
                    assert(crate::connect::node_stands(
                        *system,
                        nodes@[oi as int],
                        crate::connect::subscriber_offset(nodes@, oi as int),
                        crate::connect::publisher_offset(nodes@, oi as int),
                        oi as int,
                    ));
                    assert(system.publishers.len() == system.publishers@.len());
                    assert(system.subscribers.len() == system.subscribers@.len());
                }
                let publisher: usize = nodes[ci].ports.first_publisher + pi;
                let from: usize = nodes[oi].ports.first_subscriber;
                let to: usize = from + nodes[oi].ports.subscriber_count;
                proof {
                    assert(crate::connect::is_output(
                        system.publishers@[publisher as int],
                        nodes@[ci as int].publishers@[pi as int],
                    ));
                }
                let outcome = connect_range(system, publisher, from, to);
                proof {
                    lemma_ports_still_stand(before, *system, nodes@, publisher as int);
                }
                match outcome {
                    Some(s) => {
                        let ghost si = s - from;
                        proof {
                            lemma_first_mismatch(
                                before,
                                nodes@,
                                ci as int,
                                oi as int,
                                pi as int,
                                si,
                                *system,
                            );
                        }
                        return Err(
                            MismatchTypeError {
                                channel_name: system.publishers[publisher].config.channel_name.clone(),
                                publisher_callback_node: nodes[ci].name.clone(),
                                subscriber_callback_node: nodes[oi].name.clone(),
                            },
                        );
                    },
                    None => {},
                }
                proof {
                    assert forall|q: int| 0 <= q < system.publishers@.len() implies linked(
                        #[trigger] system.publishers@[q],
                        system.subscribers@,
                        met(nodes@, ci as int, oi as int, pi + 1, q),
                    ) by {
                        assert(linked(
                            before.publishers@[q],
                            before.subscribers@,
                            met(nodes@, ci as int, oi as int, pi as int, q),
                        ));
                    }
                }
                pi = pi + 1;
            }
            proof {
                assert forall|q: int| 0 <= q < system.publishers@.len() implies linked(
                    #[trigger] system.publishers@[q],
                    system.subscribers@,
                    met(nodes@, ci as int, oi + 1, 0, q),
                ) by {
                    assert(met(nodes@, ci as int, oi + 1, 0, q) == met(
                        nodes@,
                        ci as int,
                        oi as int,
                        pi as int,
                        q,
                    ));
                }
            }
            oi = oi + 1;
        }
        proof {
            assert forall|q: int| 0 <= q < system.publishers@.len() implies linked(
                #[trigger] system.publishers@[q],
                system.subscribers@,
                met(nodes@, ci + 1, 0, 0, q),
            ) by {
                assert(met(nodes@, ci + 1, 0, 0, q) == met(nodes@, ci as int, n, 0, q));
            }
        }
        ci = ci + 1;
    }
    proof {
        assert forall|q: int| 0 <= q < system.publishers@.len() implies linked(
            #[trigger] system.publishers@[q],
            system.subscribers@,
            system.subscribers@.len() as int,
        ) by {
            assert(met(nodes@, n, 0, 0, q) == system.subscribers@.len());
        }
        assert forall|a: int, b: int, c: int, d: int| !#[trigger]
            mismatch(nodes@, a, b, c, d) by {
            if mismatch(nodes@, a, b, c, d) {
                crate::connect::lemma_offsets_ordered(nodes@, a, n);
                crate::connect::lemma_offsets_ordered(nodes@, b, n);
                lemma_met_means_match(*system, nodes@, system.subscribers@.len() as int, a, b, c, d);
            }
        }
    }
    Ok(())
}

/// Connecting a publisher leaves its port where it stands.
proof fn lemma_ports_still_stand<T>(
    before: PubSub<T>,
    after: PubSub<T>,
    nodes: Seq<CallbackNode<T>>,
    p: int,
)
    requires
        crate::connect::ports_stand(before, nodes, nodes.len() as int),
        after.subscribers == before.subscribers,
        after.readiness == before.readiness,
        after.publishers@.len() == before.publishers@.len(),
        forall|q: int|
            0 <= q < before.publishers@.len() && q != p ==> #[trigger] after.publishers@[q]
                == before.publishers@[q],
        0 <= p < before.publishers@.len(),
        after.publishers@[p].config == before.publishers@[p].config,
        after.publishers@[p].value_type == before.publishers@[p].value_type,
        after.publishers@[p].forwarded_channels == before.publishers@[p].forwarded_channels,
    ensures
        crate::connect::ports_stand(after, nodes, nodes.len() as int),
{
    let n = nodes.len() as int;
    assert forall|m: int| 0 <= m < n implies crate::connect::node_stands(
        after,
        #[trigger] nodes[m],
        crate::connect::subscriber_offset(nodes, m),
        crate::connect::publisher_offset(nodes, m),
        m,
    ) by {
        crate::connect::lemma_offsets_ordered(nodes, m, n);
        let node = nodes[m];
        let base = crate::connect::publisher_offset(nodes, m);
        assert(crate::connect::node_stands(
            before,
            node,
            crate::connect::subscriber_offset(nodes, m),
            base,
            m,
        ));
        assert forall|i: int| 0 <= i < node.publishers@.len() implies crate::connect::is_output(
            after.publishers@[base + i],
            #[trigger] node.publishers@[i],
        ) by {
            assert(crate::connect::is_output(before.publishers@[base + i], node.publishers@[i]));
        }
    }
}

/// The mismatch that stops the connecting is the first one.
proof fn lemma_first_mismatch<T>(
    before: PubSub<T>,
    nodes: Seq<CallbackNode<T>>,
    ci: int,
    oi: int,
    pi: int,
    si: int,
    after: PubSub<T>,
)
    requires
        crate::connect::ports_stand(before, nodes, nodes.len() as int),
        crate::connect::ports_stand(after, nodes, nodes.len() as int),
        0 <= ci < nodes.len(),
        0 <= oi < nodes.len(),
        0 <= pi < nodes[ci].publishers@.len(),
        0 <= si < nodes[oi].subscribers@.len(),
        all_met(before, nodes, ci, oi, pi),
        after.subscribers == before.subscribers,
        ({
            let p = crate::connect::publisher_offset(nodes, ci) + pi;
            let s = crate::connect::subscriber_offset(nodes, oi) + si;
            &&& linked(after.publishers@[p], after.subscribers@, s)
            &&& after.subscribers@[s].config.channel_name@
                == after.publishers@[p].config.channel_name@
            &&& after.subscribers@[s].value_type != after.publishers@[p].value_type
        }),
    ensures
        mismatch(nodes, ci, oi, pi, si),
        no_mismatch_before(nodes, (ci, oi, pi, si)),
        after.publishers@[crate::connect::publisher_offset(nodes, ci) + pi].config
            == nodes[ci].publishers@[pi].config,
{
    let n = nodes.len() as int;
    let p = crate::connect::publisher_offset(nodes, ci) + pi;
    let s = crate::connect::subscriber_offset(nodes, oi) + si;
    let nc = nodes[ci];
    let no = nodes[oi];
    assert(crate::connect::is_output(after.publishers@[p], nc.publishers@[pi]));
    assert(crate::connect::is_input(
        after.subscribers@[s],
        no.subscribers@[si],
        crate::connect::role_of(no.subscribers@, si, oi),
    ));
    assert forall|a: int, b: int, c: int, d: int|
        looked_at_before((a, b, c, d), (ci, oi, pi, si)) implies !#[trigger] mismatch(
        nodes,
        a,
        b,
        c,
        d,
    ) by {
        if mismatch(nodes, a, b, c, d) {
            crate::connect::lemma_offsets_ordered(nodes, a, n);
            crate::connect::lemma_offsets_ordered(nodes, b, n);
            crate::connect::lemma_offsets_ordered(nodes, ci, n);
            let q = crate::connect::publisher_offset(nodes, a) + c;
            if a == ci && b == oi && c == pi {
                lemma_met_means_match(after, nodes, s, a, b, c, d);
            } else {
                if a < ci {
                    crate::connect::lemma_offsets_ordered(nodes, a, ci);
                } else if b < oi {
                    crate::connect::lemma_offsets_ordered(nodes, b, oi);
                }
                crate::connect::lemma_offsets_ordered(nodes, oi, oi + 1);
                crate::connect::lemma_offsets_ordered(nodes, b, b + 1);
                lemma_met_means_match(before, nodes, met(nodes, ci, oi, pi, q), a, b, c, d);
            }
        }
    }
}

/// The slots that forwarding adds to the arena of a publisher on channel
/// `name`.
pub open spec fn forwarded_slots<T>(nodes: Seq<CallbackNode<T>>, name: Seq<char>) -> int {
    if crate::connect::is_forwarded(nodes, name) {
        crate::connect::usage_of(nodes, name)
    } else {
        0
    }
}

/// A publisher that is connected to every subscriber of its channel and whose
/// slots are allocated, all of them free: one for each of its own loans, for
/// each message that its subscribers can hold, and for what forwarding adds.
pub open spec fn ready_to_publish<T>(
    publisher: Publisher<T>,
    subscribers: Seq<Subscriber>,
    nodes: Seq<CallbackNode<T>>,
) -> bool {
    let name = publisher.config.channel_name@;
    &&& publisher.loaned_values@.len() == 0
    &&& publisher.connections@ == matched(subscribers, name, subscribers.len() as int)
    &&& publisher.arena.slot_capacity == publisher.config.capacity + matched_slots(
        subscribers,
        name,
        subscribers.len() as int,
    ) + forwarded_slots(nodes, name)
    &&& publisher.arena.storage@.len() == publisher.arena.slot_capacity
    &&& forall|i: int|
        0 <= i < publisher.arena.storage@.len() ==> (#[trigger]
        publisher.arena.storage@[i]).ref_count == 0
}

/// Gives each publisher the slots that forwarding adds and allocates its
/// arena.
fn allocate_arenas<T>(system: &mut PubSub<T>, nodes: &Vec<CallbackNode<T>>)
    requires
        old(system).wf(),
        crate::connect::ports_stand(*old(system), nodes@, nodes@.len() as int),
        sizes_fit(nodes@),
        forall|q: int|
            0 <= q < old(system).publishers@.len() ==> linked(
                #[trigger] old(system).publishers@[q],
                old(system).subscribers@,
                old(system).subscribers@.len() as int,
            ),
    ensures
        final(system).wf(),
        final(system).subscribers == old(system).subscribers,
        final(system).readiness == old(system).readiness,
        crate::connect::ports_stand(*final(system), nodes@, nodes@.len() as int),
        forall|q: int|
            0 <= q < final(system).publishers@.len() ==> ready_to_publish(
                #[trigger] final(system).publishers@[q],
                final(system).subscribers@,
                nodes@,
            ),
{
    let usages = crate::connect::find_forwarded_channel_usage(nodes);
    let ghost n = nodes@.len() as int;
    let mut p: usize = 0;
    while p < system.publishers.len()
        invariant
            p <= system.publishers@.len(),
            n == nodes@.len(),
            system.wf(),
            system.subscribers == old(system).subscribers,
            system.readiness == old(system).readiness,
            crate::connect::ports_stand(*system, nodes@, n),
            sizes_fit(nodes@),
            crate::connect::usages_are(usages@, nodes@),
            forall|name: Seq<char>| #[trigger]
                crate::connect::lists(usages@, name) <==> crate::connect::is_forwarded(
                    nodes@,
                    name,
                ),
            forall|q: int|
                0 <= q < p ==> ready_to_publish(
                    #[trigger] system.publishers@[q],
                    system.subscribers@,
                    nodes@,
                ),
            forall|q: int|
                p <= q < system.publishers@.len() ==> linked(
                    #[trigger] system.publishers@[q],
                    system.subscribers@,
                    system.subscribers@.len() as int,
                ),
        decreases system.publishers@.len() - p,
    {
        let ghost before = *system;
        let ghost name = system.publishers@[p as int].config.channel_name@;
        proof {
            lemma_publisher_room(*system, nodes@, p as int);
            assert(linked(
                system.publishers@[p as int],
                system.subscribers@,
                system.subscribers@.len() as int,
            ));
        }
        let mut i: usize = 0;
        let mut extra: usize = 0;
        while i < usages.len()
            invariant
                i <= usages@.len(),
                p < system.publishers@.len(),
                name == system.publishers@[p as int].config.channel_name@,
                crate::connect::usages_are(usages@, nodes@),
                (exists|j: int| 0 <= j < i && (#[trigger] usages@[j]).channel_name@ == name)
                    ==> extra == crate::connect::usage_of(nodes@, name),
                (forall|j: int| 0 <= j < i ==> (#[trigger] usages@[j]).channel_name@ != name)
                    ==> extra == 0,
            decreases usages@.len() - i,
        {
            if usages[i].channel_name == system.publishers[p].config.channel_name {
                extra = usages[i].usage;
            }
            i = i + 1;
        }
        assert(extra == forwarded_slots(nodes@, name)) by {
            assert(crate::connect::lists(usages@, name) <==> crate::connect::is_forwarded(
                nodes@,
                name,
            ));
        }
        system.increase_arena_size(p, extra);
        let ghost grown = *system;
        system.allocate_arena(p);
        proof {
            lemma_ports_still_stand(before, *system, nodes@, p as int);
            assert forall|q: int| 0 <= q < p + 1 implies ready_to_publish(
                #[trigger] system.publishers@[q],
                system.subscribers@,
                nodes@,
            ) by {
                if q < p {
                    assert(grown.publishers@[q] == before.publishers@[q]);
                }
            }
            assert forall|q: int| p + 1 <= q < system.publishers@.len() implies linked(
                #[trigger] system.publishers@[q],
                system.subscribers@,
                system.subscribers@.len() as int,
            ) by {
                assert(grown.publishers@[q] == before.publishers@[q]);
            }
        }
        p = p + 1;
    }
}

/// The arena of a publisher has room for what it may be asked to hold.
proof fn lemma_publisher_room<T>(system: PubSub<T>, nodes: Seq<CallbackNode<T>>, p: int)
    requires
        system.wf(),
        crate::connect::ports_stand(system, nodes, nodes.len() as int),
        sizes_fit(nodes),
        0 <= p < system.publishers@.len(),
    ensures
        ({
            let name = system.publishers@[p].config.channel_name@;
            system.publishers@[p].config.capacity + matched_slots(
                system.subscribers@,
                name,
                system.subscribers@.len() as int,
            ) + forwarded_slots(nodes, name) <= usize::MAX
        }),
{
    let n = nodes.len() as int;
    let subs = system.subscribers@;
    let name = system.publishers@[p].config.channel_name@;
    lemma_slots_of_nodes(system, nodes, n, 0);
    assert(nodes.take(n) =~= nodes);
    assert forall|t: int| 0 <= t < subs.len() implies (#[trigger] subs[t]).config.valid() by {
        assert(subs[t].wf());
    }
    lemma_slots_bounded(subs, name, subs.len() as int, subs.len() as int);
    crate::connect::lemma_usage_bounded(nodes, name, n);
    let (m, i) = lemma_owner_of_publisher(nodes, n, p);
    let node = nodes[m];
    assert(crate::connect::is_output(
        system.publishers@[crate::connect::publisher_offset(nodes, m) + i],
        node.publishers@[i],
    ));
    assert(nodes[m].publishers@[i].config.capacity + 2 * crate::connect::buffered_total(nodes)
        <= usize::MAX);
}

/// The node and the output that publisher `p` is.
pub(crate) proof fn lemma_owner_of_publisher<T>(nodes: Seq<CallbackNode<T>>, n: int, p: int) -> (r: (
    int,
    int,
))
    requires
        0 <= n <= nodes.len(),
        0 <= p < crate::connect::publisher_offset(nodes, n),
    ensures
        0 <= r.0 < n,
        0 <= r.1 < nodes[r.0].publishers@.len(),
        p == crate::connect::publisher_offset(nodes, r.0) + r.1,
    decreases n,
{
    if p < crate::connect::publisher_offset(nodes, n - 1) {
        lemma_owner_of_publisher(nodes, n - 1, p)
    } else {
        (n - 1, p - crate::connect::publisher_offset(nodes, n - 1))
    }
}

/// Makes the pub/sub system of a graph: places every port, connects each
/// publisher to the subscribers of its channel, and sizes and allocates the
/// arenas. Fails where a publisher and a subscriber of one channel carry
/// different payload types.
pub fn connect_callback_nodes<T>(nodes: &mut Vec<CallbackNode<T>>) -> (r: Result<
    PubSub<T>,
    MismatchTypeError,
>)
    requires
        forall|n: int| 0 <= n < old(nodes)@.len() ==> (#[trigger] old(nodes)@[n]).wf(),
        sizes_fit(old(nodes)@),
    ensures
        final(nodes)@.len() == old(nodes)@.len(),
        forall|n: int|
            0 <= n < old(nodes)@.len() ==> crate::connect::same_but_ports(
                #[trigger] final(nodes)@[n],
                old(nodes)@[n],
            ),
        r is Ok <==> forall|ci: int, oi: int, pi: int, si: int|
            !#[trigger] mismatch(final(nodes)@, ci, oi, pi, si),
        r matches Err(error) ==> reports_first_mismatch(error, final(nodes)@),
        r matches Ok(system) ==> connected(system, final(nodes)@),
{
    let mut system = crate::connect::place_nodes(nodes);
    proof {
        lemma_sizes_kept(old(nodes)@, nodes@);
    }
    match connect_ports(&mut system, nodes) {
        Ok(_) => {
            allocate_arenas(&mut system, nodes);
            Ok(system)
        },
        Err(error) => Err(error),
    }
}

/// Whether `system` holds the ports of `nodes`, all connected and ready to
/// publish.
pub open spec fn connected<T>(system: PubSub<T>, nodes: Seq<CallbackNode<T>>) -> bool {
    &&& system.wf()
    &&& crate::connect::ports_stand(system, nodes, nodes.len() as int)
    &&& forall|q: int|
        0 <= q < system.publishers@.len() ==> ready_to_publish(
            #[trigger] system.publishers@[q],
            system.subscribers@,
            nodes,
        )
}

/// Sizes do not depend on where ports stand.
proof fn lemma_sizes_kept<T>(a: Seq<CallbackNode<T>>, b: Seq<CallbackNode<T>>)
    requires
        a.len() == b.len(),
        forall|n: int| 0 <= n < a.len() ==> crate::connect::same_but_ports(#[trigger] b[n], a[n]),
        sizes_fit(a),
    ensures
        sizes_fit(b),
{
    lemma_totals_agree(a, b);
    assert forall|n: int, p: int| 0 <= n < b.len() && 0 <= p < b[n].publishers@.len() implies (#[trigger]
    b[n].publishers@[p]).config.capacity + 2 * crate::connect::buffered_total(b) <= usize::MAX by {
        assert(crate::connect::same_but_ports(b[n], a[n]));
        assert(a[n].publishers@[p].config.capacity + 2 * crate::connect::buffered_total(a)
            <= usize::MAX);
    }
}

pub(crate) proof fn lemma_totals_agree<T>(a: Seq<CallbackNode<T>>, b: Seq<CallbackNode<T>>)
    requires
        a.len() == b.len(),
        forall|n: int| 0 <= n < a.len() ==> crate::connect::same_but_ports(#[trigger] b[n], a[n]),
    ensures
        crate::connect::buffered_total(a) == crate::connect::buffered_total(b),
    decreases a.len(),
{
    if a.len() > 0 {
        assert forall|n: int| 0 <= n < a.drop_last().len() implies crate::connect::same_but_ports(
            #[trigger] b.drop_last()[n],
            a.drop_last()[n],
        ) by {
            assert(crate::connect::same_but_ports(b[n], a[n]));
        }
        lemma_totals_agree(a.drop_last(), b.drop_last());
        assert(crate::connect::same_but_ports(b[a.len() - 1], a[a.len() - 1]));
    }
}

/// Matched connections lead to the subscribers of the channel, each once, and
/// their buffers are what `matched_slots` says.
pub(crate) proof fn lemma_matched<T>(system: PubSub<T>, name: Seq<char>, k: int, s: int)
    requires
        0 <= k <= system.subscribers@.len(),
        system.subscribers@.len() <= usize::MAX,
        0 <= s < system.subscribers@.len(),
    ensures
        crate::pub_sub_laws::buffered_by(system, matched(system.subscribers@, name, k))
            == matched_slots(system.subscribers@, name, k),
    decreases k,
{
    if k > 0 {
        lemma_matched(system, name, k - 1, s);
        let m = matched(system.subscribers@, name, k);
        if system.subscribers@[k - 1].config.channel_name@ == name {
            assert(m.drop_last() =~= matched(system.subscribers@, name, k - 1));
        }
    }
}

/// A graph that was just connected is one whose arenas never run out: nothing
/// is queued or forwarded yet, and each arena has a slot for each of its
/// publisher's loans and for each message that a connected subscriber can
/// hold.
pub proof fn law_connected_graph_is_sized<T>(
    system: PubSub<T>,
    nodes: Seq<CallbackNode<T>>,
    p: int,
)
    requires
        connected(system, nodes),
        0 <= p < system.publishers@.len(),
    ensures
        crate::pub_sub_laws::sized(system, p),
        crate::pub_sub_laws::routed(system, p),
        crate::pub_sub_laws::not_forwarded(system, p),
        crate::pub_sub_io::can_loan(system, p),
{
    let publisher = system.publishers@[p];
    let name = publisher.config.channel_name@;
    let n = nodes.len() as int;
    assert(ready_to_publish(publisher, system.subscribers@, nodes));
    assert(system.subscribers@.len() == system.subscribers.len());
    if system.subscribers@.len() > 0 {
        lemma_matched(system, name, system.subscribers@.len() as int, 0);
    }
    crate::connect::lemma_usage_bounded(nodes, name, n);
    assert(nodes.take(n) =~= nodes);
    assert(crate::pub_sub_laws::sized(system, p));
    assert forall|s: int, i: int|
        0 <= s < system.subscribers@.len() && 0 <= i < system.subscribers@[s].held().len()
            && #[trigger] system.subscribers@[s].held()[i].0 == p implies crate::pub_sub_laws::connects(
        system,
        p,
        s,
    ) by {
        let (m, j) = lemma_owner_of_subscriber(nodes, n, s);
        let node = nodes[m];
        assert(crate::connect::is_input(
            system.subscribers@[crate::connect::subscriber_offset(nodes, m) + j],
            node.subscribers@[j],
            crate::connect::role_of(node.subscribers@, j, m),
        ));
    }
    assert forall|q: int, i: int|
        0 <= q < system.publishers@.len() && 0 <= i < system.forward_groups()[q].len() implies #[trigger] system.forward_groups()[q][i].0
        != p by {
        let storage = system.publishers@[q].arena.storage@;
        assert(ready_to_publish(system.publishers@[q], system.subscribers@, nodes));
        assert(system.publishers@[q].wf());
        assert forall|k: int| 0 <= k < storage.len() implies (#[trigger] storage[k]).payload is None by {
            assert(storage[k].ref_count == 0);
        }
        crate::publisher::lemma_no_forwards(storage);
    }
    crate::pub_sub_laws::law_sized_arena_never_runs_out(system, p);
}

/// The node and the input that subscriber `s` is.
pub(crate) proof fn lemma_owner_of_subscriber<T>(nodes: Seq<CallbackNode<T>>, n: int, s: int) -> (r: (
    int,
    int,
))
    requires
        0 <= n <= nodes.len(),
        0 <= s < crate::connect::subscriber_offset(nodes, n),
    ensures
        0 <= r.0 < n,
        0 <= r.1 < nodes[r.0].subscribers@.len(),
        s == crate::connect::subscriber_offset(nodes, r.0) + r.1,
    decreases n,
{
    if s < crate::connect::subscriber_offset(nodes, n - 1) {
        lemma_owner_of_subscriber(nodes, n - 1, s)
    } else {
        (n - 1, s - crate::connect::subscriber_offset(nodes, n - 1))
    }
}

} // verus!
