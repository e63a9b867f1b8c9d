//! Placing the ports of a graph's nodes in a pub/sub system and connecting
//! publishers to subscribers.
use vstd::prelude::*;

use crate::callback::{CallbackNode, NodePorts, PublisherPort, SubscriberPort};
use crate::pub_sub::PubSub;
use crate::publisher::Publisher;
use crate::readiness::{CallbackNodeReadiness, SubscriberReadiness};
use crate::subscriber::Subscriber;

verus! {

/// A publisher and a subscriber of one channel carry different payload types.
#[derive(Debug)]
pub struct MismatchTypeError {
    pub channel_name: String,
    pub publisher_callback_node: String,
    pub subscriber_callback_node: String,
}

impl MismatchTypeError {
    /// The error as a message.
    pub fn to_string(&self) -> (r: String)
        ensures
            r@ == "Callback node '"@ + self.publisher_callback_node@ + "' publishes on '"@
                + self.channel_name@ + "' but subscriber callback node '"@
                + self.subscriber_callback_node@ + "' has a different type for that channel"@,
    {
        let mut text = "Callback node '".to_owned();
        text.append(self.publisher_callback_node.as_str());
        text.append("' publishes on '");
        text.append(self.channel_name.as_str());
        text.append("' but subscriber callback node '");
        text.append(self.subscriber_callback_node.as_str());
        text.append("' has a different type for that channel");
        text
    }
}

/// How many slots the inputs on channel `name` can fill with their buffers.
pub open spec fn usage_in(ports: Seq<SubscriberPort>, name: Seq<char>) -> int
    decreases ports.len(),
{
    if ports.len() == 0 {
        0
    } else {
        usage_in(ports.drop_last(), name) + if ports.last().config.channel_name@ == name {
            ports.last().config.buffered()
        } else {
            0
        }
    }
}

/// `usage_in` over the inputs of all nodes.
pub open spec fn usage_of<T>(nodes: Seq<CallbackNode<T>>, name: Seq<char>) -> int
    decreases nodes.len(),
{
    if nodes.len() == 0 {
        0
    } else {
        usage_of(nodes.drop_last(), name) + usage_in(nodes.last().subscribers@, name)
    }
}

/// How many slots all inputs can fill with their buffers.
pub open spec fn buffered_in(ports: Seq<SubscriberPort>) -> int
    decreases ports.len(),
{
    if ports.len() == 0 {
        0
    } else {
        buffered_in(ports.drop_last()) + ports.last().config.buffered()
    }
}

/// `buffered_in` over the inputs of all nodes.
pub open spec fn buffered_total<T>(nodes: Seq<CallbackNode<T>>) -> int
    decreases nodes.len(),
{
    if nodes.len() == 0 {
        0
    } else {
        buffered_total(nodes.drop_last()) + buffered_in(nodes.last().subscribers@)
    }
}

/// Whether some output forwards messages onto channel `name`.
pub open spec fn is_forwarded<T>(nodes: Seq<CallbackNode<T>>, name: Seq<char>) -> bool {
    exists|n: int, p: int, k: int|
        0 <= n < nodes.len() && 0 <= p < nodes[n].publishers@.len() && 0 <= k
            < nodes[n].publishers@[p].forwarded_channels@.len()
            && #[trigger] nodes[n].publishers@[p].forwarded_channels@[k]@ == name
}

proof fn lemma_usage_in_bounded(ports: Seq<SubscriberPort>, name: Seq<char>, k: int)
    requires
        0 <= k <= ports.len(),
    ensures
        0 <= usage_in(ports.take(k), name) <= buffered_in(ports.take(k)) <= buffered_in(ports),
    decreases ports.len(),
{
    if ports.len() > 0 {
        if k == ports.len() {
            assert(ports.take(k) =~= ports);
            lemma_usage_in_bounded(ports.drop_last(), name, k - 1);
            assert(ports.drop_last().take(k - 1) =~= ports.drop_last());
        } else {
            lemma_usage_in_bounded(ports.drop_last(), name, k);
            assert(ports.drop_last().take(k) =~= ports.take(k));
        }
    } else {
        assert(ports.take(k) =~= ports);
    }
}

pub(crate) proof fn lemma_usage_bounded<T>(nodes: Seq<CallbackNode<T>>, name: Seq<char>, k: int)
    requires
        0 <= k <= nodes.len(),
    ensures
        0 <= usage_of(nodes.take(k), name) <= buffered_total(nodes.take(k)) <= buffered_total(nodes),
    decreases nodes.len(),
{
    if nodes.len() > 0 {
        let last = nodes.last().subscribers@;
        lemma_usage_in_bounded(last, name, last.len() as int);
        assert(last.take(last.len() as int) =~= last);
        if k == nodes.len() {
            assert(nodes.take(k) =~= nodes);
            lemma_usage_bounded(nodes.drop_last(), name, k - 1);
            assert(nodes.drop_last().take(k - 1) =~= nodes.drop_last());
        } else {
            lemma_usage_bounded(nodes.drop_last(), name, k);
            assert(nodes.drop_last().take(k) =~= nodes.take(k));
        }
    } else {
        assert(nodes.take(k) =~= nodes);
    }
}

/// The usage of a channel, if some output forwards messages onto it.
fn forwarded_usage<T>(nodes: &Vec<CallbackNode<T>>, name: &String) -> (r: Option<usize>)
    requires
        buffered_total(nodes@) <= usize::MAX,
    ensures
        r is Some <==> is_forwarded(nodes@, name@),
        r matches Some(usage) ==> usage == usage_of(nodes@, name@),
{
    if !forwards_onto(nodes, name) {
        return None;
    }
    let mut usage: usize = 0;
    let mut n: usize = 0;
    assert(nodes@.take(0) =~= Seq::empty());
    while n < nodes.len()
        invariant
            n <= nodes@.len(),
            buffered_total(nodes@) <= usize::MAX,
            usage == usage_of(nodes@.take(n as int), name@),
        decreases nodes@.len() - n,
    {
        assert(nodes@.take(n + 1).drop_last() =~= nodes@.take(n as int));
        let ports = &nodes[n].subscribers;
        let ghost before = usage;
        let mut s: usize = 0;
        assert(ports@.take(0) =~= Seq::empty());
        proof {
            lemma_usage_bounded(nodes@, name@, n + 1);
        }
        while s < ports.len()
            invariant
                s <= ports@.len(),
                n < nodes@.len(),
                ports@ == nodes@[n as int].subscribers@,
                nodes@.take(n + 1).drop_last() == nodes@.take(n as int),
                before == usage_of(nodes@.take(n as int), name@),
                usage == before + usage_in(ports@.take(s as int), name@),
                usage_of(nodes@.take(n + 1), name@) <= usize::MAX,
            decreases ports@.len() - s,
        {
            assert(ports@.take(s + 1).drop_last() =~= ports@.take(s as int));
            proof {
                assert(nodes@.take(n + 1).last() == nodes@[n as int]);
                lemma_usage_in_step(ports@, name@, s + 1);
            }
            if ports[s].config.channel_name == *name {
                usage = usage + 2 * ports[s].config.capacity;
            }
            s = s + 1;
        }
        assert(ports@.take(s as int) =~= ports@);
        assert(nodes@.take(n + 1).last() == nodes@[n as int]);
        n = n + 1;
    }
    assert(nodes@.take(n as int) =~= nodes@);
    Some(usage)
}

/// A part of the inputs uses no more than all of them.
proof fn lemma_usage_in_step(ports: Seq<SubscriberPort>, name: Seq<char>, k: int)
    requires
        0 <= k <= ports.len(),
    ensures
        usage_in(ports.take(k), name) <= usage_in(ports, name),
    decreases ports.len(),
{
    if k < ports.len() {
        lemma_usage_in_step(ports.drop_last(), name, k);
        assert(ports.drop_last().take(k) =~= ports.take(k));
    } else {
        assert(ports.take(k) =~= ports);
    }
}

/// Whether some output forwards messages onto channel `name`.
fn forwards_onto<T>(nodes: &Vec<CallbackNode<T>>, name: &String) -> (r: bool)
    ensures
        r == is_forwarded(nodes@, name@),
{
    let mut n: usize = 0;
    while n < nodes.len()
        invariant
            n <= nodes@.len(),
            forall|m: int, p: int, k: int|
                0 <= m < n && 0 <= p < nodes@[m].publishers@.len() && 0 <= k
                    < nodes@[m].publishers@[p].forwarded_channels@.len()
                    ==> #[trigger] nodes@[m].publishers@[p].forwarded_channels@[k]@ != name@,
        decreases nodes@.len() - n,
    {
        let mut p: usize = 0;
        while p < nodes[n].publishers.len()
            invariant
                n < nodes@.len(),
                p <= nodes@[n as int].publishers@.len(),
                forall|q: int, k: int|
                    0 <= q < p && 0 <= k < nodes@[n as int].publishers@[q].forwarded_channels@.len()
                        ==> #[trigger] nodes@[n as int].publishers@[q].forwarded_channels@[k]@
                        != name@,
            decreases nodes@[n as int].publishers@.len() - p,
        {
            let channels = &nodes[n].publishers[p].forwarded_channels;
            let mut k: usize = 0;
            while k < channels.len()
                invariant
                    n < nodes@.len(),
                    p < nodes@[n as int].publishers@.len(),
                    channels@ == nodes@[n as int].publishers@[p as int].forwarded_channels@,
                    k <= channels@.len(),
                    forall|j: int| 0 <= j < k ==> (#[trigger] channels@[j])@ != name@,
                decreases channels@.len() - k,
            {
                if channels[k] == *name {
                    assert(nodes@[n as int].publishers@[p as int].forwarded_channels@[k as int]@
                        == name@);
                    return true;
                }
                k = k + 1;
            }
            p = p + 1;
        }
        n = n + 1;
    }
    false
}

/// A forwarded channel with how many slots its subscribers can fill.
#[derive(Debug)]
pub struct ForwardedChannelUsage {
    pub channel_name: String,
    pub usage: usize,
}

/// Whether `found` lists forwarded channels only, each once, and says how much
/// each is used.
pub open spec fn usages_are<T>(
    found: Seq<ForwardedChannelUsage>,
    nodes: Seq<CallbackNode<T>>,
) -> bool {
    &&& forall|i: int|
        0 <= i < found.len() ==> is_forwarded(nodes, (#[trigger] found[i]).channel_name@)
            && found[i].usage == usage_of(nodes, found[i].channel_name@)
    &&& forall|i: int, j: int|
        0 <= i < j < found.len() ==> (#[trigger] found[i]).channel_name@ != (#[trigger]
        found[j]).channel_name@
}

/// Whether `found` lists channel `name`.
pub open spec fn lists(found: Seq<ForwardedChannelUsage>, name: Seq<char>) -> bool {
    exists|i: int| 0 <= i < found.len() && (#[trigger] found[i]).channel_name@ == name
}

/// Each channel onto which messages are forwarded, once, with how many slots
/// the queues of the subscribers listening to it can fill: up to `capacity` in
/// each write queue plus up to `capacity` in each read buffer.
pub fn find_forwarded_channel_usage<T>(nodes: &Vec<CallbackNode<T>>) -> (found: Vec<
    ForwardedChannelUsage,
>)
    requires
        buffered_total(nodes@) <= usize::MAX,
    ensures
        usages_are(found@, nodes@),
        forall|name: Seq<char>| #[trigger] lists(found@, name) <==> is_forwarded(nodes@, name),
{
    let mut found: Vec<ForwardedChannelUsage> = Vec::new();
    let mut n: usize = 0;
    while n < nodes.len()
        invariant
            n <= nodes@.len(),
            buffered_total(nodes@) <= usize::MAX,
            usages_are(found@, nodes@),
            forall|m: int, p: int, k: int|
                0 <= m < n && 0 <= p < nodes@[m].publishers@.len() && 0 <= k
                    < nodes@[m].publishers@[p].forwarded_channels@.len() ==> lists(
                    found@,
                    #[trigger] nodes@[m].publishers@[p].forwarded_channels@[k]@,
                ),
        decreases nodes@.len() - n,
    {
        let mut p: usize = 0;
        while p < nodes[n].publishers.len()
            invariant
                n < nodes@.len(),
                p <= nodes@[n as int].publishers@.len(),
                buffered_total(nodes@) <= usize::MAX,
                usages_are(found@, nodes@),
                forall|m: int, q: int, k: int|
                    0 <= m < n && 0 <= q < nodes@[m].publishers@.len() && 0 <= k
                        < nodes@[m].publishers@[q].forwarded_channels@.len() ==> lists(
                        found@,
                        #[trigger] nodes@[m].publishers@[q].forwarded_channels@[k]@,
                    ),
                forall|q: int, k: int|
                    0 <= q < p && 0 <= k < nodes@[n as int].publishers@[q].forwarded_channels@.len()
                        ==> lists(
                        found@,
                        #[trigger] nodes@[n as int].publishers@[q].forwarded_channels@[k]@,
                    ),
            decreases nodes@[n as int].publishers@.len() - p,
        {
            let channels = &nodes[n].publishers[p].forwarded_channels;
            let mut k: usize = 0;
            while k < channels.len()
                invariant
                    n < nodes@.len(),
                    p < nodes@[n as int].publishers@.len(),
                    channels@ == nodes@[n as int].publishers@[p as int].forwarded_channels@,
                    k <= channels@.len(),
                    buffered_total(nodes@) <= usize::MAX,
                    usages_are(found@, nodes@),
                    forall|m: int, q: int, j: int|
                        0 <= m < n && 0 <= q < nodes@[m].publishers@.len() && 0 <= j
                            < nodes@[m].publishers@[q].forwarded_channels@.len() ==> lists(
                            found@,
                            #[trigger] nodes@[m].publishers@[q].forwarded_channels@[j]@,
                        ),
                    forall|q: int, j: int|
                        0 <= q < p && 0 <= j
                            < nodes@[n as int].publishers@[q].forwarded_channels@.len() ==> lists(
                            found@,
                            #[trigger] nodes@[n as int].publishers@[q].forwarded_channels@[j]@,
                        ),
                    forall|j: int|
                        0 <= j < k ==> lists(found@, (#[trigger] channels@[j])@),
                decreases channels@.len() - k,
            {
                let ghost name = channels@[k as int]@;
                let ghost before = found@;
                assert(nodes@[n as int].publishers@[p as int].forwarded_channels@[k as int]@
                    == name);
                if !is_listed(&found, &channels[k]) {
                    match forwarded_usage(nodes, &channels[k]) {
                        Some(usage) => {
                            found.push(
                                ForwardedChannelUsage { channel_name: channels[k].clone(), usage },
                            );
                            proof {
                                assert(found@[before.len() as int].channel_name@ == name);
                                lemma_lists_push(before, found@);
                            }
                        },
                        None => {},
                    }
                }
                k = k + 1;
            }
            p = p + 1;
        }
        n = n + 1;
    }
    proof {
        assert forall|name: Seq<char>| #[trigger] lists(found@, name) <==> is_forwarded(
            nodes@,
            name,
        ) by {
            if is_forwarded(nodes@, name) {
                let (m, p, k) = choose|m: int, p: int, k: int|
                    0 <= m < nodes@.len() && 0 <= p < nodes@[m].publishers@.len() && 0 <= k
                        < nodes@[m].publishers@[p].forwarded_channels@.len()
                        && #[trigger] nodes@[m].publishers@[p].forwarded_channels@[k]@ == name;
                assert(lists(found@, nodes@[m].publishers@[p].forwarded_channels@[k]@));
            }
        }
    }
    found
}

/// What is listed stays listed.
proof fn lemma_lists_push(before: Seq<ForwardedChannelUsage>, after: Seq<ForwardedChannelUsage>)
    requires
        after.len() == before.len() + 1,
        forall|i: int| 0 <= i < before.len() ==> #[trigger] after[i] == before[i],
    ensures
        forall|name: Seq<char>| #[trigger] lists(before, name) ==> lists(after, name),
{
    assert forall|name: Seq<char>| #[trigger] lists(before, name) implies lists(after, name) by {
        let i = choose|i: int| 0 <= i < before.len() && (#[trigger] before[i]).channel_name@ == name;
        assert(after[i].channel_name@ == name);
    }
}

fn is_listed(found: &Vec<ForwardedChannelUsage>, name: &String) -> (r: bool)
    ensures
        r == lists(found@, name@),
{
    let mut i: usize = 0;
    while i < found.len()
        invariant
            i <= found@.len(),
            forall|j: int| 0 <= j < i ==> (#[trigger] found@[j]).channel_name@ != name@,
        decreases found@.len() - i,
    {
        if found[i].channel_name == *name {
            return true;
        }
        i = i + 1;
    }
    false
}

/// How many inputs the first `n` nodes have.
pub open spec fn subscriber_offset<T>(nodes: Seq<CallbackNode<T>>, n: int) -> int
    decreases n,
{
    if n <= 0 {
        0
    } else {
        subscriber_offset(nodes, n - 1) + nodes[n - 1].subscribers@.len()
    }
}

/// How many outputs the first `n` nodes have.
pub open spec fn publisher_offset<T>(nodes: Seq<CallbackNode<T>>, n: int) -> int
    decreases n,
{
    if n <= 0 {
        0
    } else {
        publisher_offset(nodes, n - 1) + nodes[n - 1].publishers@.len()
    }
}

/// The readiness role of a node's `i`-th input: a gating input owns the next
/// free bit, an optional trigger nudges its node, and any other input has no
/// part in it.
pub open spec fn role_of(ports: Seq<SubscriberPort>, i: int, node: int) -> Option<
    SubscriberReadiness,
> {
    if ports[i].config.gating() {
        Some(
            SubscriberReadiness::Gating(
                node as usize,
                crate::callback::gating_count(ports.take(i)) as usize,
            ),
        )
    } else if ports[i].config.is_trigger {
        Some(SubscriberReadiness::OptionalTrigger(node as usize))
    } else {
        None
    }
}

/// Whether `subscriber` is the input `port` with the given readiness role and
/// nothing received yet.
pub open spec fn is_input(
    subscriber: Subscriber,
    port: SubscriberPort,
    role: Option<SubscriberReadiness>,
) -> bool {
    &&& subscriber.config == port.config
    &&& subscriber.value_type == port.value_type
    &&& subscriber.readiness_state == role
    &&& subscriber.buffers.pending().len() == 0
    &&& subscriber.buffers.readable().len() == 0
}

/// Whether `publisher` is the output `port`.
pub open spec fn is_output<T>(publisher: Publisher<T>, port: PublisherPort) -> bool {
    &&& publisher.config == port.config
    &&& publisher.value_type == port.value_type
    &&& publisher.forwarded_channels@ == port.forwarded_channels@
}

/// Whether the ports of node number `n` stand in `system`, from subscriber `s`
/// and publisher `p` on.
pub open spec fn node_stands<T>(
    system: PubSub<T>,
    node: CallbackNode<T>,
    s: int,
    p: int,
    n: int,
) -> bool {
    &&& node.ports.first_subscriber == s
    &&& node.ports.subscriber_count == node.subscribers@.len()
    &&& node.ports.first_publisher == p
    &&& node.ports.publisher_count == node.publishers@.len()
    &&& node.ports.readiness == n
    &&& n < system.readiness@.len()
    &&& system.readiness@[n].node is None
    &&& starts_at(
        system.readiness@[n].bitmask,
        crate::callback::gating_count(node.subscribers@),
    )
    &&& s + node.subscribers@.len() <= system.subscribers@.len()
    &&& p + node.publishers@.len() <= system.publishers@.len()
    &&& forall|i: int|
        0 <= i < node.subscribers@.len() ==> is_input(
            system.subscribers@[s + i],
            #[trigger] node.subscribers@[i],
            role_of(node.subscribers@, i, n),
        )
    &&& forall|i: int|
        0 <= i < node.publishers@.len() ==> is_output(
            system.publishers@[p + i],
            #[trigger] node.publishers@[i],
        )
}

/// Whether the ports of the first `k` nodes, and no others, stand in `system`,
/// node after node.
pub open spec fn ports_stand<T>(system: PubSub<T>, nodes: Seq<CallbackNode<T>>, k: int) -> bool {
    &&& system.subscribers@.len() == subscriber_offset(nodes, k)
    &&& system.publishers@.len() == publisher_offset(nodes, k)
    &&& system.readiness@.len() == k
    &&& forall|n: int|
        0 <= n < k ==> node_stands(
            system,
            #[trigger] nodes[n],
            subscriber_offset(nodes, n),
            publisher_offset(nodes, n),
            n,
        )
}

/// Whether the lowest `gating` bits of `bitmask` are clear and the others set.
pub open spec fn starts_at(bitmask: usize, gating: nat) -> bool {
    forall|j: usize|
        j < usize::BITS ==> (#[trigger] crate::readiness::bit_is_set(bitmask, j) <==> j >= gating)
}

/// Whether two nodes are the same up to where their ports stand.
pub open spec fn same_but_ports<T>(a: CallbackNode<T>, b: CallbackNode<T>) -> bool {
    &&& a.subscribers == b.subscribers
    &&& a.publishers == b.publishers
    &&& a.callback == b.callback
    &&& a.next_execution_time_callback == b.next_execution_time_callback
    &&& a.execution_duration_callback == b.execution_duration_callback
    &&& a.name == b.name
    &&& a.log_executions == b.log_executions
    &&& a.id == b.id
}

/// The same names in a list of their own.
pub fn clone_names(names: &Vec<String>) -> (r: Vec<String>)
    ensures
        r@ == names@,
{
    let mut r: Vec<String> = Vec::new();
    let mut i: usize = 0;
    while i < names.len()
        invariant
            i <= names@.len(),
            r@ == names@.take(i as int),
        decreases names@.len() - i,
    {
        r.push(names[i].clone());
        assert(r@ =~= names@.take(i + 1));
        i = i + 1;
    }
    assert(names@.take(i as int) =~= names@);
    r
}

proof fn lemma_gating_take(ports: Seq<SubscriberPort>, i: int)
    requires
        0 <= i <= ports.len(),
    ensures
        crate::callback::gating_count(ports.take(i)) <= crate::callback::gating_count(ports),
        i < ports.len() && ports[i].config.gating() ==> crate::callback::gating_count(ports.take(i))
            < crate::callback::gating_count(ports),
    decreases ports.len() - i,
{
    if i < ports.len() {
        assert(ports.take(i + 1).drop_last() =~= ports.take(i));
        lemma_gating_take(ports, i + 1);
    } else {
        assert(ports.take(i) =~= ports);
    }
}

/// Adds a node's inputs to the system, with their readiness roles. Returns the
/// number of the first.
fn place_subscribers<T>(system: &mut PubSub<T>, ports: &Vec<SubscriberPort>, node: usize) -> (first:
    usize)
    requires
        old(system).wf(),
        node < old(system).readiness@.len(),
        crate::callback::subscriber_ports_valid(ports@),
    ensures
        final(system).wf(),
        first == old(system).subscribers@.len(),
        final(system).publishers == old(system).publishers,
        final(system).readiness == old(system).readiness,
        final(system).subscribers@.len() == old(system).subscribers@.len() + ports@.len(),
        forall|s: int|
            0 <= s < old(system).subscribers@.len() ==> #[trigger] final(system).subscribers@[s]
                == old(system).subscribers@[s],
        forall|i: int|
            0 <= i < ports@.len() ==> is_input(
                final(system).subscribers@[old(system).subscribers@.len() + i],
                #[trigger] ports@[i],
                role_of(ports@, i, node as int),
            ),
{
    let first: usize = system.subscribers.len();
    let mut bit_index: usize = 0;
    let mut i: usize = 0;
    assert(ports@.take(0) =~= Seq::empty());
    while i < ports.len()
        invariant
            i <= ports@.len(),
            system.wf(),
            node < system.readiness@.len(),
            crate::callback::subscriber_ports_valid(ports@),
            bit_index == crate::callback::gating_count(ports@.take(i as int)),
            system.publishers == old(system).publishers,
            system.readiness == old(system).readiness,
            system.subscribers@.len() == old(system).subscribers@.len() + i,
            forall|s: int|
                0 <= s < old(system).subscribers@.len() ==> #[trigger] system.subscribers@[s]
                    == old(system).subscribers@[s],
            forall|j: int|
                0 <= j < i ==> is_input(
                    system.subscribers@[old(system).subscribers@.len() + j],
                    #[trigger] ports@[j],
                    role_of(ports@, j, node as int),
                ),
        decreases ports@.len() - i,
    {
        assert(ports@.take(i + 1).drop_last() =~= ports@.take(i as int));
        proof {
            lemma_gating_take(ports@, i as int);
        }
        let port = &ports[i];
        let mut subscriber = Subscriber::new(port.config.clone(), port.value_type);
        if port.config.is_gating() {
            subscriber.set_readiness_state(SubscriberReadiness::Gating(node, bit_index));
            bit_index = bit_index + 1;
        } else if port.config.is_trigger {
            subscriber.set_readiness_state(SubscriberReadiness::OptionalTrigger(node));
        }
        let ghost before = *system;
        let _ = system.add_subscriber(subscriber);
        proof {
            assert forall|j: int| 0 <= j < i + 1 implies is_input(
                system.subscribers@[old(system).subscribers@.len() + j],
                #[trigger] ports@[j],
                role_of(ports@, j, node as int),
            ) by {
                if j < i {
                    assert(system.subscribers@[old(system).subscribers@.len() + j]
                        == before.subscribers@[old(system).subscribers@.len() + j]);
                }
            }
        }
        i = i + 1;
    }
    first
}

/// Adds a node's outputs to the system. Returns the number of the first.
fn place_publishers<T>(system: &mut PubSub<T>, ports: &Vec<PublisherPort>) -> (first: usize)
    requires
        old(system).wf(),
    ensures
        final(system).wf(),
        first == old(system).publishers@.len(),
        final(system).subscribers == old(system).subscribers,
        final(system).readiness == old(system).readiness,
        final(system).publishers@.len() == old(system).publishers@.len() + ports@.len(),
        forall|p: int|
            0 <= p < old(system).publishers@.len() ==> #[trigger] final(system).publishers@[p]
                == old(system).publishers@[p],
        forall|i: int|
            0 <= i < ports@.len() ==> is_output(
                final(system).publishers@[old(system).publishers@.len() + i],
                #[trigger] ports@[i],
            ) && final(system).publishers@[old(system).publishers@.len() + i].fresh(),
{
    let first: usize = system.publishers.len();
    let mut i: usize = 0;
    while i < ports.len()
        invariant
            i <= ports@.len(),
            system.wf(),
            system.subscribers == old(system).subscribers,
            system.readiness == old(system).readiness,
            system.publishers@.len() == old(system).publishers@.len() + i,
            forall|p: int|
                0 <= p < old(system).publishers@.len() ==> #[trigger] system.publishers@[p] == old(
                    system).publishers@[p],
            forall|j: int|
                0 <= j < i ==> is_output(
                    system.publishers@[old(system).publishers@.len() + j],
                    #[trigger] ports@[j],
                ) && system.publishers@[old(system).publishers@.len() + j].fresh(),
        decreases ports@.len() - i,
    {
        let port = &ports[i];
        let publisher = Publisher::new_with_forwards(
            port.config.clone(),
            port.value_type,
            clone_names(&port.forwarded_channels),
        );
        let ghost before = *system;
        let _ = system.add_publisher(publisher);
        proof {
            assert forall|j: int| 0 <= j < i + 1 implies is_output(
                system.publishers@[old(system).publishers@.len() + j],
                #[trigger] ports@[j],
            ) && system.publishers@[old(system).publishers@.len() + j].fresh() by {
                if j < i {
                    assert(system.publishers@[old(system).publishers@.len() + j]
                        == before.publishers@[old(system).publishers@.len() + j]);
                }
            }
        }
        i = i + 1;
    }
    first
}

proof fn lemma_offsets_agree<T>(a: Seq<CallbackNode<T>>, b: Seq<CallbackNode<T>>, n: int)
    requires
        0 <= n <= a.len(),
        a.len() == b.len(),
        forall|i: int| 0 <= i < a.len() ==> same_but_ports(#[trigger] a[i], b[i]),
    ensures
        subscriber_offset(a, n) == subscriber_offset(b, n),
        publisher_offset(a, n) == publisher_offset(b, n),
        subscriber_offset(a, n) >= 0,
        publisher_offset(a, n) >= 0,
    decreases n,
{
    if n > 0 {
        lemma_offsets_agree(a, b, n - 1);
        assert(same_but_ports(a[n - 1], b[n - 1]));
    }
}

pub(crate) proof fn lemma_offsets_ordered<T>(nodes: Seq<CallbackNode<T>>, m: int, n: int)
    requires
        0 <= m <= n <= nodes.len(),
    ensures
        0 <= subscriber_offset(nodes, m) <= subscriber_offset(nodes, n),
        0 <= publisher_offset(nodes, m) <= publisher_offset(nodes, n),
        m < n ==> subscriber_offset(nodes, m) + nodes[m].subscribers@.len() <= subscriber_offset(
            nodes,
            n,
        ),
        m < n ==> publisher_offset(nodes, m) + nodes[m].publishers@.len() <= publisher_offset(
            nodes,
            n,
        ),
    decreases n,
{
    if m < n {
        lemma_offsets_ordered(nodes, m, n - 1);
    } else if n > 0 {
        lemma_offsets_ordered(nodes, m - 1, n - 1);
    }
}

/// What stands goes on standing when more is added.
proof fn lemma_still_stands<T>(
    before: PubSub<T>,
    after: PubSub<T>,
    node: CallbackNode<T>,
    s: int,
    p: int,
    n: int,
)
    requires
        node_stands(before, node, s, p, n),
        0 <= s,
        0 <= p,
        0 <= n,
        before.subscribers@.len() <= after.subscribers@.len(),
        before.publishers@.len() <= after.publishers@.len(),
        before.readiness@.len() <= after.readiness@.len(),
        forall|i: int|
            0 <= i < before.subscribers@.len() ==> #[trigger] after.subscribers@[i]
                == before.subscribers@[i],
        forall|i: int|
            0 <= i < before.publishers@.len() ==> #[trigger] after.publishers@[i]
                == before.publishers@[i],
        forall|i: int|
            0 <= i < before.readiness@.len() ==> #[trigger] after.readiness@[i]
                == before.readiness@[i],
    ensures
        node_stands(after, node, s, p, n),
{
    assert forall|i: int| 0 <= i < node.subscribers@.len() implies is_input(
        after.subscribers@[s + i],
        #[trigger] node.subscribers@[i],
        role_of(node.subscribers@, i, n),
    ) by {
        assert(after.subscribers@[s + i] == before.subscribers@[s + i]);
    }
    assert forall|i: int| 0 <= i < node.publishers@.len() implies is_output(
        after.publishers@[p + i],
        #[trigger] node.publishers@[i],
    ) by {
        assert(after.publishers@[p + i] == before.publishers@[p + i]);
    }
}

/// Adds the ports of one node to the system.
fn place_node<T>(system: &mut PubSub<T>, node: &mut CallbackNode<T>)
    requires
        old(system).wf(),
        old(node).wf(),
    ensures
        final(system).wf(),
        same_but_ports(*final(node), *old(node)),
        final(system).subscribers@.len() == old(system).subscribers@.len() + old(
            node).subscribers@.len(),
        final(system).publishers@.len() == old(system).publishers@.len() + old(
            node).publishers@.len(),
        final(system).readiness@.len() == old(system).readiness@.len() + 1,
        forall|i: int|
            0 <= i < old(system).subscribers@.len() ==> #[trigger] final(system).subscribers@[i]
                == old(system).subscribers@[i],
        forall|i: int|
            0 <= i < old(system).publishers@.len() ==> #[trigger] final(system).publishers@[i]
                == old(system).publishers@[i],
        forall|i: int|
            0 <= i < old(system).readiness@.len() ==> #[trigger] final(system).readiness@[i] == old(
                system).readiness@[i],
        forall|i: int|
            old(system).publishers@.len() <= i < final(system).publishers@.len() ==> (#[trigger]
            final(system).publishers@[i]).fresh(),
        node_stands(
            *final(system),
            *final(node),
            old(system).subscribers@.len() as int,
            old(system).publishers@.len() as int,
            old(system).readiness@.len() as int,
        ),
{
    let bitmask: usize = crate::callback::starting_subscriber_bitmask(&node.subscribers);
    let readiness = system.add_readiness(CallbackNodeReadiness::new(bitmask));
    let first_subscriber = place_subscribers(system, &node.subscribers, readiness);
    let first_publisher = place_publishers(system, &node.publishers);
    let subscriber_count: usize = node.subscribers.len();
    let publisher_count: usize = node.publishers.len();
    node.ports =
    NodePorts { first_subscriber, subscriber_count, first_publisher, publisher_count, readiness };
    proof {
        let base = old(system).publishers@.len();
        assert forall|i: int| base <= i < system.publishers@.len() implies (#[trigger]
        system.publishers@[i]).fresh() by {
            let port = node.publishers@[i - base];
            assert(system.publishers@[base + (i - base)].fresh());
        }
    }
}

/// Makes a system with the ports of all nodes.
pub(crate) fn place_nodes<T>(nodes: &mut Vec<CallbackNode<T>>) -> (system: PubSub<T>)
    requires
        forall|n: int| 0 <= n < old(nodes)@.len() ==> (#[trigger] old(nodes)@[n]).wf(),
    ensures
        system.wf(),
        final(nodes)@.len() == old(nodes)@.len(),
        forall|n: int|
            0 <= n < old(nodes)@.len() ==> same_but_ports(
                #[trigger] final(nodes)@[n],
                old(nodes)@[n],
            ),
        ports_stand(system, final(nodes)@, final(nodes)@.len() as int),
        forall|p: int|
            0 <= p < system.publishers@.len() ==> (#[trigger] system.publishers@[p]).fresh(),
{
    let mut system: PubSub<T> = PubSub::new();
    let mut n: usize = 0;
    while n < nodes.len()
        invariant
            n <= nodes@.len(),
            nodes@.len() == old(nodes)@.len(),
            system.wf(),
            forall|m: int| 0 <= m < old(nodes)@.len() ==> (#[trigger] old(nodes)@[m]).wf(),
            forall|m: int|
                0 <= m < old(nodes)@.len() ==> same_but_ports(#[trigger] nodes@[m], old(nodes)@[m]),
            ports_stand(system, nodes@, n as int),
            forall|p: int|
                0 <= p < system.publishers@.len() ==> (#[trigger] system.publishers@[p]).fresh(),
        decreases nodes@.len() - n,
    {
        let ghost before = system;
        let ghost nodes_before = nodes@;
        assert(same_but_ports(nodes@[n as int], old(nodes)@[n as int]));
        assert(old(nodes)@[n as int].wf());
        place_node(&mut system, &mut nodes[n]);
        proof {
            let k = n as int;
            assert forall|m: int| 0 <= m < nodes@.len() implies same_but_ports(
                #[trigger] nodes@[m],
                nodes_before[m],
            ) by {}
            assert forall|m: int| 0 <= m < old(nodes)@.len() implies same_but_ports(
                #[trigger] nodes@[m],
                old(nodes)@[m],
            ) by {
                assert(same_but_ports(nodes_before[m], old(nodes)@[m]));
            }
            lemma_offsets_agree(nodes@, nodes_before, k);
            assert forall|m: int| 0 <= m < k + 1 implies node_stands(
                system,
                #[trigger] nodes@[m],
                subscriber_offset(nodes@, m),
                publisher_offset(nodes@, m),
                m,
            ) by {
                lemma_offsets_agree(nodes@, nodes_before, m);
                if m < k {
                    assert(nodes@[m] == nodes_before[m]);
                    lemma_still_stands(
                        before,
                        system,
                        nodes@[m],
                        subscriber_offset(nodes@, m),
                        publisher_offset(nodes@, m),
                        m,
                    );
                }
            }
        }
        n = n + 1;
    }
    system
}

} // verus!
