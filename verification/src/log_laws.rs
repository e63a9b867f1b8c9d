//! What logs are for: every message that a callback read or sent is there with
//! its header, and what was written is found again.
use vstd::prelude::*;

use crate::callback::{CallbackNode, SubscriberPort};
use crate::execution_log::CallbackDescriptor;
use crate::executor::ThreadPoolConfig;
use crate::log_types::{
    CallbackExecutionLog, ChannelLogMode, InMemoryLogWriter, LogWriter, LoggedView,
};
use crate::loggable::{DeserializeError, Loggable, MessageLog, ReplayMessageLog, SerializeError};
use crate::message::{Message, MessageHeader};
use crate::pub_sub::PubSub;
use crate::publisher::{LoanedValue, Publisher};
use crate::subscriber::Subscriber;

verus! {

/// What the next flush publishes are the loans that are marked as sent.
proof fn lemma_pending<T>(system: PubSub<T>, p: int, n: int)
    requires
        0 <= n <= system.publishers@[p].loaned_values@.len(),
    ensures
        crate::log_types::pending_messages(system, p, n)
            == system.publishers@[p].loaned_values@.take(n).filter(
            |loan: LoanedValue| loan.sent,
        ).map_values(
            |loan: LoanedValue| system.entry((p as usize, loan.ptr.slot as u64)).message,
        ),
    decreases n,
{
    reveal(Seq::filter);
    let loans = system.publishers@[p].loaned_values@;
    if n > 0 {
        lemma_pending(system, p, n - 1);
        assert(loans.take(n).drop_last() =~= loans.take(n - 1));
        assert(loans.take(n).last() == loans[n - 1]);
    }
    assert(crate::log_types::pending_messages(system, p, n) =~= loans.take(n).filter(
        |loan: LoanedValue| loan.sent,
    ).map_values(|loan: LoanedValue| system.entry((p as usize, loan.ptr.slot as u64)).message));
}

/// What a callback sent through an output is logged as the output's mode says:
/// nothing without a mode or where the channel is skipped; else one entry per
/// message that was sent, in order, with its header, and with its value exactly
/// if values are logged. What was loaned and not sent is not logged.
pub proof fn law_sent_messages_are_logged<T>(
    modes: Seq<ChannelLogMode<T>>,
    i: int,
    system: PubSub<T>,
    p: int,
    log: Seq<LoggedView>,
)
    requires
        0 <= i,
        0 <= p < system.publishers@.len(),
        crate::log_types::records_all(
            crate::log_types::mode_of(modes, i),
            crate::log_types::pending_messages(
                system,
                p,
                system.publishers@[p].loaned_values@.len() as int,
            ),
            log,
        ),
    ensures
        i >= modes.len() || modes[i] is Skip ==> log.len() == 0,
        i < modes.len() && !(modes[i] is Skip) ==> {
            let sent = system.publishers@[p].loaned_values@.filter(|loan: LoanedValue| loan.sent);
            &&& log.len() == sent.len()
            &&& forall|j: int|
                0 <= j < log.len() ==> {
                    let message = system.entry((p as usize, sent[j].ptr.slot as u64)).message;
                    &&& (#[trigger] log[j]).0 == message.header
                    &&& match modes[i] {
                        ChannelLogMode::HeaderAndValues(serializer) => log[j].1 is Some
                            && serializer.encodes(message.message, log[j].1->0),
                        _ => log[j].1 is None,
                    }
                }
        },
{
    let loans = system.publishers@[p].loaned_values@;
    lemma_pending(system, p, loans.len() as int);
    assert(loans.take(loans.len() as int) =~= loans);
    let mode = crate::log_types::mode_of(modes, i);
    if i < modes.len() && !(modes[i] is Skip) {
        let messages = crate::log_types::pending_messages(system, p, loans.len() as int);
        assert forall|j: int| 0 <= j < log.len() implies crate::log_types::records(
            mode,
            messages[j],
            #[trigger] log[j],
        ) by {}
    }
}

/// What a callback could read through an input is logged as the input's mode
/// says: nothing without a mode or where the channel is skipped; else one entry
/// per message, oldest first, with its header, and with its value exactly if
/// values are logged.
pub proof fn law_read_messages_are_logged<T>(
    modes: Seq<ChannelLogMode<T>>,
    i: int,
    system: PubSub<T>,
    s: int,
    log: Seq<LoggedView>,
)
    requires
        0 <= i,
        0 <= s < system.subscribers@.len(),
        crate::log_types::records_all(
            crate::log_types::mode_of(modes, i),
            crate::log_types::readable_messages(system, s),
            log,
        ),
    ensures
        i >= modes.len() || modes[i] is Skip ==> log.len() == 0,
        i < modes.len() && !(modes[i] is Skip) ==> {
            let readable = system.subscribers@[s].buffers.readable();
            &&& log.len() == readable.len()
            &&& forall|j: int|
                0 <= j < log.len() ==> {
                    let message = system.entry(readable[j]).message;
                    &&& (#[trigger] log[j]).0 == message.header
                    &&& match modes[i] {
                        ChannelLogMode::HeaderAndValues(serializer) => log[j].1 is Some
                            && serializer.encodes(message.message, log[j].1->0),
                        _ => log[j].1 is None,
                    }
                }
        },
{
    let mode = crate::log_types::mode_of(modes, i);
    if i < modes.len() && !(modes[i] is Skip) {
        let messages = crate::log_types::readable_messages(system, s);
        assert forall|j: int| 0 <= j < log.len() implies crate::log_types::records(
            mode,
            messages[j],
            #[trigger] log[j],
        ) by {}
    }
}

/// A mode is set for its port alone: the other ports keep theirs, and a port
/// that had none is skipped.
pub proof fn law_modes_are_set_for_one_port<T>(
    before: Seq<ChannelLogMode<T>>,
    after: Seq<ChannelLogMode<T>>,
    index: int,
    mode: ChannelLogMode<T>,
)
    requires
        0 <= index,
        crate::log_types::mode_set(before, after, index, mode),
    ensures
        index < after.len(),
        before.len() <= after.len(),
        after[index] == mode,
        forall|i: int| 0 <= i < before.len() && i != index ==> #[trigger] after[i] == before[i],
        forall|i: int|
            before.len() <= i < after.len() && i != index ==> (#[trigger] after[i]) is Skip,
{
}

/// A log in memory holds every execution that it was told of, the newest last,
/// with its time and every entry of every port.
pub proof fn law_logged_executions_are_kept(
    before: InMemoryLogWriter,
    after: InMemoryLogWriter,
    entry: CallbackExecutionLog,
)
    requires
        after.written() == before.written().push(entry@),
    ensures
        after.entries@.len() == before.entries@.len() + 1,
        after.entries@.last().execution_time == entry.execution_time,
        after.entries@.last().subscribers@.len() == entry.subscribers@.len(),
        after.entries@.last().publishers@.len() == entry.publishers@.len(),
        forall|s: int|
            0 <= s < entry.subscribers@.len() ==> (#[trigger]
            after.entries@.last().subscribers@[s]).entries@.len()
                == entry.subscribers@[s].entries@.len(),
        forall|p: int|
            0 <= p < entry.publishers@.len() ==> (#[trigger]
            after.entries@.last().publishers@[p]).entries@.len()
                == entry.publishers@[p].entries@.len(),
        forall|s: int, j: int|
            0 <= s < entry.subscribers@.len() && 0 <= j < entry.subscribers@[s].entries@.len()
                ==> (#[trigger] after.entries@.last().subscribers@[s].entries@[j]).header
                == entry.subscribers@[s].entries@[j].header,
        forall|p: int, j: int|
            0 <= p < entry.publishers@.len() && 0 <= j < entry.publishers@[p].entries@.len()
                ==> (#[trigger] after.entries@.last().publishers@[p].entries@[j]).header
                == entry.publishers@[p].entries@[j].header,
        forall|i: int|
            0 <= i < before.entries@.len() ==> (#[trigger] after.entries@[i])@
                == before.entries@[i]@,
{
    let n = before.entries@.len() as int;
    let newest = after.entries@.last();
    assert(after.written().len() == after.entries@.len());
    assert(after.written()[n] == entry@);
    assert(newest@ == entry@);
    assert(newest@.subscribers.len() == entry@.subscribers.len());
    assert(newest@.publishers.len() == entry@.publishers.len());
    assert forall|s: int| 0 <= s < entry.subscribers@.len() implies (#[trigger]
    newest.subscribers@[s])@ == entry.subscribers@[s]@ by {
        assert(newest@.subscribers[s] == entry@.subscribers[s]);
    }
    assert forall|p: int| 0 <= p < entry.publishers@.len() implies (#[trigger]
    newest.publishers@[p])@ == entry.publishers@[p]@ by {
        assert(newest@.publishers[p] == entry@.publishers[p]);
    }
    assert forall|s: int| 0 <= s < entry.subscribers@.len() implies (#[trigger]
    newest.subscribers@[s]).entries@.len() == entry.subscribers@[s].entries@.len() by {
        assert(newest.subscribers@[s]@.len() == entry.subscribers@[s]@.len());
    }
    assert forall|p: int| 0 <= p < entry.publishers@.len() implies (#[trigger]
    newest.publishers@[p]).entries@.len() == entry.publishers@[p].entries@.len() by {
        assert(newest.publishers@[p]@.len() == entry.publishers@[p]@.len());
    }
    assert forall|s: int, j: int|
        0 <= s < entry.subscribers@.len() && 0 <= j < entry.subscribers@[s].entries@.len() implies (
    #[trigger] newest.subscribers@[s].entries@[j]).header
        == entry.subscribers@[s].entries@[j].header by {
        assert(newest.subscribers@[s]@ == entry.subscribers@[s]@);
        assert(newest.subscribers@[s]@[j] == entry.subscribers@[s]@[j]);
    }
    assert forall|p: int, j: int|
        0 <= p < entry.publishers@.len() && 0 <= j < entry.publishers@[p].entries@.len() implies (
    #[trigger] newest.publishers@[p].entries@[j]).header
        == entry.publishers@[p].entries@[j].header by {
        assert(newest.publishers@[p]@ == entry.publishers@[p]@);
        assert(newest.publishers@[p]@[j] == entry.publishers@[p]@[j]);
    }
    assert forall|i: int| 0 <= i < before.entries@.len() implies (#[trigger] after.entries@[i])@
        == before.entries@[i]@ by {
        assert(after.written()[i] == before.written()[i]);
    }
}

/// A forwarded message that its log does not hold is not found, and what is
/// found was published at the time that was asked for, before any other such
/// message.
pub proof fn law_only_logged_messages_are_found<F>(
    log: ReplayMessageLog<F>,
    header: MessageHeader,
) -> (i: int)
    ensures
        log.finds(header) is Some <==> exists|j: int|
            0 <= j < log.messages@.len() && (#[trigger] log.messages@[j]).header.published_at
                == header.published_at,
        log.finds(header) is Some ==> {
            &&& 0 <= i < log.messages@.len()
            &&& log.finds(header) == Some(log.messages@[i])
            &&& log.messages@[i].header.published_at == header.published_at
            &&& forall|j: int|
                0 <= j < i ==> (#[trigger] log.messages@[j]).header.published_at
                    != header.published_at
        },
{
    crate::loggable::lemma_first_at(log.messages@, header.published_at)
}

/// A number is written behind what is there already, and what was added is read
/// back as that number.
pub proof fn law_numbers_are_appended(
    value: u64,
    before: Seq<u8>,
    after: Seq<u8>,
    written: Result<(), SerializeError>,
    r: Result<u64, DeserializeError>,
)
    requires
        value.writes(before, after, written),
        after.len() >= before.len(),
        u64::reads(after.skip(before.len() as int), r),
    ensures
        written is Ok,
        after.take(before.len() as int) == before,
        r is Ok,
        r->Ok_0 == value,
{
    assert(after.skip(before.len() as int) =~= crate::json_values::json_digits(value));
}

/// A text is written behind what is there already, and what was added is read
/// back as that text.
pub proof fn law_texts_are_appended(
    value: String,
    before: Seq<u8>,
    after: Seq<u8>,
    written: Result<(), SerializeError>,
    r: Result<String, DeserializeError>,
)
    requires
        value.writes(before, after, written),
        after.len() >= before.len(),
        <String as Loggable>::reads(after.skip(before.len() as int), r),
    ensures
        written is Ok,
        after.take(before.len() as int) == before,
        r is Ok,
        r->Ok_0@ == value@,
{
    assert(after.skip(before.len() as int) =~= crate::json_values::json_string(value@));
}

/// There is one execution-log publisher per thread: as many as the pools have
/// threads together.
pub proof fn law_threads_are_counted<T>(pools: Seq<ThreadPoolConfig<T>>)
    ensures
        crate::execution_log::thread_total(pools, pools.len() as int) == pools.map_values(
            |pool: ThreadPoolConfig<T>| pool.thread_count as int,
        ).fold_left(0, |sum: int, count: int| sum + count),
    decreases pools.len(),
{
    let plus = |sum: int, count: int| sum + count;
    let counts = pools.map_values(|pool: ThreadPoolConfig<T>| pool.thread_count as int);
    if pools.len() > 0 {
        let n = pools.len() as int;
        let rest = pools.drop_last();
        law_threads_are_counted(rest);
        lemma_threads_of_first(pools, n - 1);
        assert(rest.map_values(|pool: ThreadPoolConfig<T>| pool.thread_count as int)
            =~= counts.drop_last());
        assert(counts.fold_left(0, plus) == counts.drop_last().fold_left(0, plus) + counts.last());
    }
}

/// The threads of the first pools do not depend on the last one.
proof fn lemma_threads_of_first<T>(pools: Seq<ThreadPoolConfig<T>>, k: int)
    requires
        0 <= k < pools.len(),
    ensures
        crate::execution_log::thread_total(pools, k) == crate::execution_log::thread_total(
            pools.drop_last(),
            k,
        ),
    decreases k,
{
    if k > 0 {
        lemma_threads_of_first(pools, k - 1);
    }
}

/// An execution can be handed as many messages as the capacities of the inputs
/// are together.
pub proof fn law_capacities_are_counted(ports: Seq<SubscriberPort>)
    ensures
        crate::execution_log::capacity_total(ports, ports.len() as int) == ports.map_values(
            |port: SubscriberPort| port.config.capacity as int,
        ).fold_left(0, |sum: int, count: int| sum + count),
    decreases ports.len(),
{
    let plus = |sum: int, count: int| sum + count;
    let counts = ports.map_values(|port: SubscriberPort| port.config.capacity as int);
    if ports.len() > 0 {
        let n = ports.len() as int;
        let rest = ports.drop_last();
        law_capacities_are_counted(rest);
        lemma_capacity_of_first(ports, n - 1);
        assert(rest.map_values(|port: SubscriberPort| port.config.capacity as int)
            =~= counts.drop_last());
        assert(counts.fold_left(0, plus) == counts.drop_last().fold_left(0, plus) + counts.last());
    }
}

/// The capacities of the first inputs do not depend on the last one.
proof fn lemma_capacity_of_first(ports: Seq<SubscriberPort>, k: int)
    requires
        0 <= k < ports.len(),
    ensures
        crate::execution_log::capacity_total(ports, k) == crate::execution_log::capacity_total(
            ports.drop_last(),
            k,
        ),
    decreases k,
{
    if k > 0 {
        lemma_capacity_of_first(ports, k - 1);
    }
}

/// An execution-log publisher reaches every subscriber of the execution-log
/// channel, with the bit that makes its node ready, and no other subscriber,
/// each once.
pub proof fn law_logs_reach_their_listeners<T>(
    publisher: Publisher<T>,
    subscribers: Seq<Subscriber>,
    order: Seq<usize>,
    value_type: u64,
)
    requires
        crate::execution_log::log_ready(publisher, subscribers, order, value_type),
        crate::log_listeners::lists_all(order, subscribers),
    ensures
        forall|s: int|
            0 <= s < subscribers.len() && (#[trigger] subscribers[s]).config.channel_name@
                == crate::execution_log::EXECUTION_LOG_CHANNEL@ ==> exists|c: int|
                0 <= c < publisher.connections@.len() && (#[trigger]
                publisher.connections@[c]).subscriber == s && publisher.connections@[c].readiness
                    == subscribers[s].readiness_state,
        forall|c: int|
            0 <= c < publisher.connections@.len() ==> {
                let s = (#[trigger] publisher.connections@[c]).subscriber as int;
                &&& s < subscribers.len()
                &&& subscribers[s].config.channel_name@
                    == crate::execution_log::EXECUTION_LOG_CHANNEL@
            },
        forall|c: int, d: int|
            0 <= c < d < publisher.connections@.len() ==> (#[trigger]
            publisher.connections@[c]).subscriber != (#[trigger]
            publisher.connections@[d]).subscriber,
{
    let links = publisher.connections@;
    assert forall|s: int|
        0 <= s < subscribers.len() && (#[trigger] subscribers[s]).config.channel_name@
            == crate::execution_log::EXECUTION_LOG_CHANNEL@ implies exists|c: int|
        0 <= c < links.len() && (#[trigger] links[c]).subscriber == s && links[c].readiness
            == subscribers[s].readiness_state by {
        assert(crate::log_listeners::listens(subscribers, s));
        let a = choose|a: int| #[trigger] crate::log_listeners::listed_at(order, a, s);
        assert(links[a].subscriber == s);
    }
    assert forall|c: int| 0 <= c < links.len() implies ({
        let s = (#[trigger] links[c]).subscriber as int;
        &&& s < subscribers.len()
        &&& subscribers[s].config.channel_name@ == crate::execution_log::EXECUTION_LOG_CHANNEL@
    }) by {
        assert(crate::log_listeners::listens(subscribers, order[c] as int));
    }
}

/// The execution-log publishers meet the subscribers of their channel pool by
/// pool, node by node and input by input.
pub proof fn law_listeners_stand_in_order<T>(
    pools: Seq<ThreadPoolConfig<T>>,
    order: Seq<usize>,
    a: int,
    b: int,
    k: int,
    i: int,
    l: int,
    j: int,
)
    requires
        crate::log_listeners::in_turn(order, pools),
        0 <= a < b < order.len(),
        0 <= k < pools.len(),
        0 <= i < pools[k].nodes.nodes@.len(),
        0 <= l < pools.len(),
        0 <= j < pools[l].nodes.nodes@.len(),
        pools[k].nodes.nodes@[i].node.ports.first_subscriber <= order[a]
            < pools[k].nodes.nodes@[i].node.ports.first_subscriber
            + pools[k].nodes.nodes@[i].node.ports.subscriber_count,
        pools[l].nodes.nodes@[j].node.ports.first_subscriber <= order[b]
            < pools[l].nodes.nodes@[j].node.ports.first_subscriber
            + pools[l].nodes.nodes@[j].node.ports.subscriber_count,
    ensures
        k <= l,
        k == l ==> i <= j,
        k == l && i == j ==> order[a] < order[b],
{
    assert(crate::log_listeners::owner_at(pools, k, i, order[a] as int));
    assert(crate::log_listeners::owner_at(pools, l, j, order[b] as int));
}

/// Execution logs are refused exactly where a subscriber of their channel
/// carries another payload type.
pub proof fn law_other_log_types_are_refused<T>(system: PubSub<T>, value_type: u64)
    ensures
        (exists|s: int| #[trigger] crate::execution_log::log_mismatch(system, s, value_type))
            <==> exists|s: int|
            0 <= s < system.subscribers@.len() && (#[trigger]
            system.subscribers@[s]).config.channel_name@
                == crate::execution_log::EXECUTION_LOG_CHANNEL@
                && system.subscribers@[s].value_type != value_type,
{
    if exists|s: int| #[trigger] crate::execution_log::log_mismatch(system, s, value_type) {
        let s = choose|s: int| #[trigger] crate::execution_log::log_mismatch(system, s, value_type);
        assert(system.subscribers@[s].value_type != value_type);
    }
    if exists|s: int|
        0 <= s < system.subscribers@.len() && (#[trigger]
        system.subscribers@[s]).config.channel_name@
            == crate::execution_log::EXECUTION_LOG_CHANNEL@ && system.subscribers@[s].value_type
            != value_type {
        let s = choose|s: int|
            0 <= s < system.subscribers@.len() && (#[trigger]
            system.subscribers@[s]).config.channel_name@
                == crate::execution_log::EXECUTION_LOG_CHANNEL@
                && system.subscribers@[s].value_type != value_type;
        assert(crate::execution_log::log_mismatch(system, s, value_type));
    }
}

/// The node that is named when execution logs are refused has an input on their
/// channel with another payload type, and no node before it has one.
pub proof fn law_first_refused_node_is_named<T>(
    pools: Seq<ThreadPoolConfig<T>>,
    system: PubSub<T>,
    value_type: u64,
    k: int,
    i: int,
)
    requires
        crate::execution_log::first_mismatch(pools, system, value_type, k, i),
    ensures
        0 <= k < pools.len(),
        0 <= i < pools[k].nodes.nodes@.len(),
        exists|s: int|
            pools[k].nodes.nodes@[i].node.ports.first_subscriber <= s
                < pools[k].nodes.nodes@[i].node.ports.first_subscriber
                + pools[k].nodes.nodes@[i].node.ports.subscriber_count && s
                < system.subscribers@.len() && (#[trigger]
            system.subscribers@[s]).config.channel_name@
                == crate::execution_log::EXECUTION_LOG_CHANNEL@
                && system.subscribers@[s].value_type != value_type,
        forall|l: int, j: int, s: int|
            0 <= l < pools.len() && 0 <= j < pools[l].nodes.nodes@.len() && (l < k || l == k && j
                < i) && (#[trigger] pools[l].nodes.nodes@[j]).node.ports.first_subscriber <= s
                < pools[l].nodes.nodes@[j].node.ports.first_subscriber
                + pools[l].nodes.nodes@[j].node.ports.subscriber_count && 0 <= s
                < system.subscribers@.len() && (#[trigger]
            system.subscribers@[s]).config.channel_name@
                == crate::execution_log::EXECUTION_LOG_CHANNEL@
                ==> system.subscribers@[s].value_type == value_type,
{
    let s = choose|s: int| #[trigger]
        crate::execution_log::log_mismatch(system, s, value_type)
            && crate::log_listeners::owner_at(pools, k, i, s);
    assert(crate::execution_log::node_mismatch(pools, system, value_type, k, i));
    assert(system.subscribers@[s].value_type != value_type);
    assert forall|l: int, j: int, s: int|
        0 <= l < pools.len() && 0 <= j < pools[l].nodes.nodes@.len() && (l < k || l == k && j < i)
            && (#[trigger] pools[l].nodes.nodes@[j]).node.ports.first_subscriber <= s
            < pools[l].nodes.nodes@[j].node.ports.first_subscriber
            + pools[l].nodes.nodes@[j].node.ports.subscriber_count && 0 <= s
            < system.subscribers@.len() && (#[trigger]
        system.subscribers@[s]).config.channel_name@
            == crate::execution_log::EXECUTION_LOG_CHANNEL@ implies system.subscribers@[s].value_type
        == value_type by {
        assert(!crate::execution_log::node_mismatch(pools, system, value_type, l, j));
        assert(crate::log_listeners::owner_at(pools, l, j, s));
        if system.subscribers@[s].value_type != value_type {
            assert(crate::execution_log::log_mismatch(system, s, value_type));
        }
    }
}

/// What is written of a message is its header and its payload, from the start.
pub proof fn law_written_messages_keep_their_header<T: Loggable>(
    message: Message<T>,
    bytes: (MessageHeader, Vec<u8>),
)
    requires
        crate::channel_registry::written(message, bytes),
    ensures
        bytes.0.published_at == message.header.published_at,
        message.message.writes(Seq::empty(), bytes.1@, Ok(())),
{
}

/// A descriptor gives for each input and each output of a node, by its place, the
/// name of its channel, and nothing else.
pub proof fn law_descriptors_tell_the_channels<T>(
    descriptor: CallbackDescriptor,
    node: CallbackNode<T>,
    i: usize,
)
    requires
        descriptor.describes(node),
    ensures
        descriptor.subscriber_index_to_channel_name@.dom().contains(i) <==> i
            < node.subscribers@.len(),
        descriptor.publisher_index_to_channel_name@.dom().contains(i) <==> i
            < node.publishers@.len(),
        i < node.subscribers@.len() ==> descriptor.subscriber_index_to_channel_name@[i]@
            == node.subscribers@[i as int].config.channel_name@,
        i < node.publishers@.len() ==> descriptor.publisher_index_to_channel_name@[i]@
            == node.publishers@[i as int].config.channel_name@,
{
}

} // verus!
