//! What the shared-memory channels are for: each service is large enough for
//! its endpoints, and every sample and event from outside the graph reaches
//! those that wait for it, in order.
use vstd::prelude::*;

use crate::callback::CallbackNode;
use crate::generic_subscriber::GenericSubscriber;
use crate::iox2::{Iox2Context, Iox2GraphConfig};
use crate::iox2_data::LoanedIox2Message;
use crate::iox2_event::{EventRecord, Iox2EventSubscriber};
use crate::iox2_names::NameError;
use crate::message::{Message, MessageHeader};
use crate::pub_sub_factory::{EndpointKind, Iox2EndpointInfo};
use crate::readiness::{CallbackNodeReadiness, SubscriberReadiness};
use crate::simulation_iox2::{
    NodeInputs, RegistrationStep, ScheduledIox2Input, ScheduledIox2InputKind,
};
use crate::time::FrameworkTime;

verus! {

/// The endpoints of a channel are counted by their kinds.
proof fn lemma_aggregate(endpoints: Seq<Iox2EndpointInfo>, channel: Seq<char>, n: int)
    requires
        0 <= n <= endpoints.len(),
        endpoints.len() <= usize::MAX,
        crate::iox2::capacities_fit(endpoints),
    ensures
        ({
            let agg = crate::iox2::aggregated(endpoints, channel, n);
            let some = endpoints.take(n);
            &&& agg.data_sub_count == some.filter(
                |e: Iox2EndpointInfo| e.channel@ == channel && e.kind is Iox2DataSub,
            ).len()
            &&& agg.data_pub_count == some.filter(
                |e: Iox2EndpointInfo| e.channel@ == channel && e.kind is Iox2DataPub,
            ).len()
            &&& agg.event_sub_count == some.filter(
                |e: Iox2EndpointInfo| e.channel@ == channel && e.kind is Iox2EventSub,
            ).len()
            &&& agg.notifier_count == some.filter(
                |e: Iox2EndpointInfo|
                    e.channel@ == channel && (e.kind is Iox2Notifier || e.kind is Iox2DataPub
                        && e.kind->notify_on_send),
            ).len()
        }),
    decreases n,
{
    reveal(Seq::filter);
    let some = endpoints.take(n);
    if n > 0 {
        lemma_aggregate(endpoints, channel, n - 1);
        crate::iox2::lemma_aggregated_bounds(endpoints, channel, n - 1);
        assert(some.drop_last() =~= endpoints.take(n - 1));
        assert(some.last() == endpoints[n - 1]);
    }
}

/// The largest capacity and the largest event id of a channel are those of one
/// of its endpoints, and no other endpoint's is larger.
proof fn lemma_largest(endpoints: Seq<Iox2EndpointInfo>, channel: Seq<char>, n: int)
    requires
        0 <= n <= endpoints.len(),
        endpoints.len() <= usize::MAX,
        crate::iox2::capacities_fit(endpoints),
    ensures
        ({
            let agg = crate::iox2::aggregated(endpoints, channel, n);
            &&& forall|i: int|
                0 <= i < n && (#[trigger] endpoints[i]).channel@ == channel
                    && endpoints[i].kind is Iox2DataSub ==> endpoints[i].kind->Iox2DataSub_capacity
                    <= agg.max_sub_capacity
            &&& agg.max_sub_capacity > 0 ==> exists|i: int|
                0 <= i < n && (#[trigger] endpoints[i]).channel@ == channel
                    && endpoints[i].kind is Iox2DataSub && endpoints[i].kind->Iox2DataSub_capacity
                    == agg.max_sub_capacity
            &&& forall|i: int|
                0 <= i < n && (#[trigger] endpoints[i]).channel@ == channel
                    && endpoints[i].kind is Iox2Notifier
                    ==> endpoints[i].kind->Iox2Notifier_event_id <= agg.max_event_id
            &&& forall|i: int|
                0 <= i < n && (#[trigger] endpoints[i]).channel@ == channel
                    && endpoints[i].kind is Iox2DataPub && endpoints[i].kind->notify_on_send
                    ==> endpoints[i].kind->Iox2DataPub_event_id <= agg.max_event_id
            &&& agg.max_event_id > 0 ==> exists|i: int|
                0 <= i < n && (#[trigger] endpoints[i]).channel@ == channel && (
                endpoints[i].kind is Iox2Notifier && endpoints[i].kind->Iox2Notifier_event_id
                    == agg.max_event_id || endpoints[i].kind is Iox2DataPub
                    && endpoints[i].kind->notify_on_send && endpoints[i].kind->Iox2DataPub_event_id
                    == agg.max_event_id)
        }),
    decreases n,
{
    if n > 0 {
        lemma_largest(endpoints, channel, n - 1);
        let before = crate::iox2::aggregated(endpoints, channel, n - 1);
        let agg = crate::iox2::aggregated(endpoints, channel, n);
        let last = endpoints[n - 1];
        if agg.max_sub_capacity > 0 {
            if agg.max_sub_capacity == before.max_sub_capacity {
                let i = choose|i: int|
                    0 <= i < n - 1 && (#[trigger] endpoints[i]).channel@ == channel
                        && endpoints[i].kind is Iox2DataSub
                        && endpoints[i].kind->Iox2DataSub_capacity == before.max_sub_capacity;
                assert(endpoints[i].kind->Iox2DataSub_capacity == agg.max_sub_capacity);
            } else {
                assert(last.kind->Iox2DataSub_capacity == agg.max_sub_capacity);
            }
        }
        if agg.max_event_id > 0 {
            if agg.max_event_id == before.max_event_id {
                let i = choose|i: int|
                    0 <= i < n - 1 && (#[trigger] endpoints[i]).channel@ == channel && (
                    endpoints[i].kind is Iox2Notifier && endpoints[i].kind->Iox2Notifier_event_id
                        == before.max_event_id || endpoints[i].kind is Iox2DataPub
                        && endpoints[i].kind->notify_on_send
                        && endpoints[i].kind->Iox2DataPub_event_id == before.max_event_id);
                assert(endpoints[i].channel@ == channel);
            } else {
                assert(last.channel@ == channel);
            }
        }
    }
}

/// A channel gets a data service exactly if it has a data input or output, and
/// that service has room for all of them: at least as many ports, and a buffer
/// that is as large as the largest one that is asked for.
pub proof fn law_data_services_fit_their_channel(
    context: Iox2Context,
    config: Iox2GraphConfig,
    endpoints: Seq<Iox2EndpointInfo>,
    channel: Seq<char>,
)
    requires
        endpoints.len() <= usize::MAX,
        crate::iox2::capacities_fit(endpoints),
        crate::iox2::is_context_of(Some(context), config, endpoints),
    ensures
        ({
            let inputs = endpoints.filter(
                |e: Iox2EndpointInfo| e.channel@ == channel && e.kind is Iox2DataSub,
            );
            let outputs = endpoints.filter(
                |e: Iox2EndpointInfo| e.channel@ == channel && e.kind is Iox2DataPub,
            );
            let settings = context.pubsub_settings.at(channel);
            &&& settings is Some <==> inputs.len() > 0 || outputs.len() > 0
            &&& settings is Some ==> {
                &&& settings->0.max_subscribers >= inputs.len()
                &&& settings->0.max_publishers >= outputs.len()
                &&& settings->0.max_subscribers == inputs.len() || settings->0.max_subscribers == 8
                &&& settings->0.max_publishers == outputs.len() || settings->0.max_publishers == 2
                &&& settings->0.subscriber_max_buffer_size >= 1
                &&& forall|i: int|
                    0 <= i < endpoints.len() && (#[trigger] endpoints[i]).channel@ == channel
                        && endpoints[i].kind is Iox2DataSub
                        ==> settings->0.subscriber_max_buffer_size
                        >= endpoints[i].kind->Iox2DataSub_capacity
                &&& settings->0.subscriber_max_buffer_size == 1 || exists|i: int|
                    0 <= i < endpoints.len() && (#[trigger] endpoints[i]).channel@ == channel
                        && endpoints[i].kind is Iox2DataSub
                        && settings->0.subscriber_max_buffer_size
                        == endpoints[i].kind->Iox2DataSub_capacity
                &&& settings->0.subscriber_max_borrowed_samples
                    == settings->0.subscriber_max_buffer_size
                    + settings->0.subscriber_max_buffer_size
                &&& settings->0.enable_safe_overflow
                &&& settings->0.history_size == 0
            }
        }),
{
    let n = endpoints.len() as int;
    assert(endpoints.take(n) =~= endpoints);
    lemma_aggregate(endpoints, channel, n);
    lemma_largest(endpoints, channel, n);
    crate::iox2::lemma_aggregated_bounds(endpoints, channel, n);
}

/// A channel gets an event service exactly if something listens or notifies on
/// it, and that service has room for all of them and knows every event id. An
/// output that notifies when it sends counts as a notifier.
pub proof fn law_event_services_fit_their_channel(
    context: Iox2Context,
    config: Iox2GraphConfig,
    endpoints: Seq<Iox2EndpointInfo>,
    channel: Seq<char>,
)
    requires
        endpoints.len() <= usize::MAX,
        crate::iox2::capacities_fit(endpoints),
        crate::iox2::is_context_of(Some(context), config, endpoints),
    ensures
        ({
            let listeners = endpoints.filter(
                |e: Iox2EndpointInfo| e.channel@ == channel && e.kind is Iox2EventSub,
            );
            let notifiers = endpoints.filter(
                |e: Iox2EndpointInfo|
                    e.channel@ == channel && (e.kind is Iox2Notifier || e.kind is Iox2DataPub
                        && e.kind->notify_on_send),
            );
            let settings = context.event_settings.at(channel);
            &&& settings is Some <==> listeners.len() > 0 || notifiers.len() > 0
            &&& settings is Some ==> {
                &&& settings->0.max_listeners >= listeners.len()
                &&& settings->0.max_notifiers >= notifiers.len()
                &&& settings->0.max_listeners == listeners.len() || settings->0.max_listeners == 16
                &&& settings->0.max_notifiers == notifiers.len() || settings->0.max_notifiers == 16
                &&& forall|i: int|
                    0 <= i < endpoints.len() && (#[trigger] endpoints[i]).channel@ == channel
                        && endpoints[i].kind is Iox2Notifier ==> settings->0.event_id_max_value
                        >= endpoints[i].kind->Iox2Notifier_event_id
                &&& forall|i: int|
                    0 <= i < endpoints.len() && (#[trigger] endpoints[i]).channel@ == channel
                        && endpoints[i].kind is Iox2DataPub && endpoints[i].kind->notify_on_send
                        ==> settings->0.event_id_max_value
                        >= endpoints[i].kind->Iox2DataPub_event_id
                &&& settings->0.event_id_max_value == 0 || exists|i: int|
                    0 <= i < endpoints.len() && (#[trigger] endpoints[i]).channel@ == channel && (
                    endpoints[i].kind is Iox2Notifier && endpoints[i].kind->Iox2Notifier_event_id
                        == settings->0.event_id_max_value || endpoints[i].kind is Iox2DataPub
                        && endpoints[i].kind->notify_on_send
                        && endpoints[i].kind->Iox2DataPub_event_id
                        == settings->0.event_id_max_value)
            }
        }),
{
    let n = endpoints.len() as int;
    assert(endpoints.take(n) =~= endpoints);
    lemma_aggregate(endpoints, channel, n);
    lemma_largest(endpoints, channel, n);
}

/// A graph uses shared memory exactly if one of its endpoints does.
pub proof fn law_native_graphs_need_no_context(
    context: Option<Iox2Context>,
    config: Iox2GraphConfig,
    endpoints: Seq<Iox2EndpointInfo>,
)
    requires
        crate::iox2::is_context_of(context, config, endpoints),
    ensures
        context is Some <==> exists|i: int|
            0 <= i < endpoints.len() && match (#[trigger] endpoints[i]).kind {
                EndpointKind::Iox2DataSub { .. } => true,
                EndpointKind::Iox2DataPub { .. } => true,
                EndpointKind::Iox2EventSub => true,
                EndpointKind::Iox2Notifier { .. } => true,
                _ => false,
            },
{
    if exists|i: int| 0 <= i < endpoints.len() && (#[trigger] endpoints[i]).kind.iox2() {
        let i = choose|i: int| 0 <= i < endpoints.len() && (#[trigger] endpoints[i]).kind.iox2();
        assert(endpoints[i].kind.iox2());
    }
    if exists|i: int|
        0 <= i < endpoints.len() && match (#[trigger] endpoints[i]).kind {
            EndpointKind::Iox2DataSub { .. } => true,
            EndpointKind::Iox2DataPub { .. } => true,
            EndpointKind::Iox2EventSub => true,
            EndpointKind::Iox2Notifier { .. } => true,
            _ => false,
        } {
        let i = choose|i: int|
            0 <= i < endpoints.len() && match (#[trigger] endpoints[i]).kind {
                EndpointKind::Iox2DataSub { .. } => true,
                EndpointKind::Iox2DataPub { .. } => true,
                EndpointKind::Iox2EventSub => true,
                EndpointKind::Iox2Notifier { .. } => true,
                _ => false,
            };
        assert(endpoints[i].kind.iox2());
    }
}

/// The endpoints of a graph are accepted exactly if any two on one channel use
/// the same transport, and the same payload type where both have one.
pub proof fn law_channels_have_one_transport_and_type(endpoints: Seq<Iox2EndpointInfo>)
    ensures
        (forall|i: int, j: int| !#[trigger] crate::iox2::conflicts(endpoints, i, j)) <==> forall|
            i: int,
            j: int,
        |
            0 <= i < endpoints.len() && 0 <= j < endpoints.len() && (#[trigger]
            endpoints[i]).channel@ == (#[trigger] endpoints[j]).channel@ ==> {
                &&& (endpoints[i].kind is NativeSub || endpoints[i].kind is NativePub
                    || endpoints[i].kind is NativeForwardedSub
                    || endpoints[i].kind is NativeForwardingPub) <==> (
                endpoints[j].kind is NativeSub || endpoints[j].kind is NativePub
                    || endpoints[j].kind is NativeForwardedSub
                    || endpoints[j].kind is NativeForwardingPub)
                &&& endpoints[i].payload_type is Some && endpoints[j].payload_type is Some
                    ==> endpoints[i].payload_type->0 == endpoints[j].payload_type->0
            },
{
    if forall|i: int, j: int| !#[trigger] crate::iox2::conflicts(endpoints, i, j) {
        assert forall|i: int, j: int|
            0 <= i < endpoints.len() && 0 <= j < endpoints.len() && (#[trigger]
            endpoints[i]).channel@ == (#[trigger] endpoints[j]).channel@ implies ({
            &&& (endpoints[i].kind is NativeSub || endpoints[i].kind is NativePub
                || endpoints[i].kind is NativeForwardedSub
                || endpoints[i].kind is NativeForwardingPub) <==> (endpoints[j].kind is NativeSub
                || endpoints[j].kind is NativePub || endpoints[j].kind is NativeForwardedSub
                || endpoints[j].kind is NativeForwardingPub)
            &&& endpoints[i].payload_type is Some && endpoints[j].payload_type is Some
                ==> endpoints[i].payload_type->0 == endpoints[j].payload_type->0
        }) by {
            assert(!crate::iox2::conflicts(endpoints, i, j));
            assert(!crate::iox2::conflicts(endpoints, j, i));
        }
    } else {
        let (i, j) = choose|i: int, j: int| #[trigger] crate::iox2::conflicts(endpoints, i, j);
        assert(endpoints[i].channel@ == endpoints[j].channel@);
    }
}

/// Every native input of every node is among the endpoints of the graph.
pub proof fn law_native_inputs_are_endpoints<T>(nodes: Seq<CallbackNode<T>>, n: int, k: int, s: int) -> (i: int)
    requires
        0 <= k < n <= nodes.len(),
        0 <= s < nodes[k].subscribers@.len(),
    ensures
        0 <= i < crate::iox2::all_native_endpoints(nodes, n).len(),
        crate::iox2::all_native_endpoints(nodes, n)[i].channel@
            == nodes[k].subscribers@[s].config.channel_name@,
        crate::iox2::all_native_endpoints(nodes, n)[i].kind is NativeSub,
        crate::iox2::all_native_endpoints(nodes, n)[i].payload_type is None,
    decreases n,
{
    let all = crate::iox2::all_native_endpoints(nodes, n);
    let before = crate::iox2::all_native_endpoints(nodes, n - 1);
    let own = crate::iox2::native_endpoints(nodes[n - 1]);
    assert(all == before + own);
    if k < n - 1 {
        let i = law_native_inputs_are_endpoints(nodes, n - 1, k, s);
        assert(all[i] == before[i]);
        i
    } else {
        let at = s;
        assert(own[at].kind is NativeSub);
        assert(all[before.len() + at] == own[at]);
        before.len() + at
    }
}

/// Every native output of every node is among the endpoints of the graph.
pub proof fn law_native_outputs_are_endpoints<T>(nodes: Seq<CallbackNode<T>>, n: int, k: int, p: int) -> (i: int)
    requires
        0 <= k < n <= nodes.len(),
        0 <= p < nodes[k].publishers@.len(),
    ensures
        0 <= i < crate::iox2::all_native_endpoints(nodes, n).len(),
        crate::iox2::all_native_endpoints(nodes, n)[i].channel@
            == nodes[k].publishers@[p].config.channel_name@,
        crate::iox2::all_native_endpoints(nodes, n)[i].kind is NativePub,
        crate::iox2::all_native_endpoints(nodes, n)[i].payload_type is None,
    decreases n,
{
    let all = crate::iox2::all_native_endpoints(nodes, n);
    let before = crate::iox2::all_native_endpoints(nodes, n - 1);
    let own = crate::iox2::native_endpoints(nodes[n - 1]);
    assert(all == before + own);
    if k < n - 1 {
        let i = law_native_outputs_are_endpoints(nodes, n - 1, k, p);
        assert(all[i] == before[i]);
        i
    } else {
        let at = nodes[k].subscribers@.len() + p;
        assert(own[at].kind is NativePub);
        assert(all[before.len() + at] == own[at]);
        before.len() + at
    }
}

/// Every loan that was sent is sent, in order, with its payload and the time of
/// the flush, and nothing else is. Where sending notifies, each sample is
/// followed by one notification.
pub proof fn law_sent_samples_go_out<T>(
    loans: Seq<LoanedIox2Message<T>>,
    timestamp: FrameworkTime,
    notify_on_send: bool,
    j: int,
)
    ensures
        ({
            let actions = crate::iox2_data::send_actions(
                loans,
                timestamp,
                notify_on_send,
                loans.len() as int,
            );
            let sent = loans.filter(|loan: LoanedIox2Message<T>| loan.sent);
            let at = if notify_on_send {
                2 * j
            } else {
                j
            };
            &&& actions.len() == if notify_on_send {
                2 * sent.len()
            } else {
                sent.len()
            }
            &&& 0 <= j < sent.len() ==> {
                &&& actions[at] is Send
                &&& actions[at]->Send_0.message == sent[j].sample.message
                &&& actions[at]->Send_0.header.published_at == timestamp
                &&& notify_on_send ==> actions[at + 1] is Notify
            }
        }),
    decreases loans.len(),
{
    reveal(Seq::filter);
    if loans.len() > 0 {
        let rest = loans.drop_last();
        law_sent_samples_go_out(rest, timestamp, notify_on_send, j);
        lemma_actions_of_first(loans, timestamp, notify_on_send, rest.len() as int);
    }
}

/// What is done with the first loans does not depend on the last one.
proof fn lemma_actions_of_first<T>(
    loans: Seq<LoanedIox2Message<T>>,
    timestamp: FrameworkTime,
    notify_on_send: bool,
    n: int,
)
    requires
        0 <= n < loans.len(),
    ensures
        crate::iox2_data::send_actions(loans, timestamp, notify_on_send, n)
            == crate::iox2_data::send_actions(loans.drop_last(), timestamp, notify_on_send, n),
    decreases n,
{
    if n > 0 {
        lemma_actions_of_first(loans, timestamp, notify_on_send, n - 1);
    }
}

/// An input retains the newest of its earlier samples and those that arrived,
/// as many as its capacity says, oldest first.
pub proof fn law_newest_samples_are_retained<T>(
    read: Seq<Message<T>>,
    samples: Seq<Message<T>>,
    capacity: nat,
)
    requires
        0 < capacity,
        read.len() <= capacity,
    ensures
        ({
            let retained = crate::iox2_data::received_all(read, samples, capacity);
            let all = read + samples;
            let lost = all.len() - retained.len();
            &&& retained.len() <= all.len()
            &&& retained.len() <= capacity
            &&& retained.len() == capacity || retained.len() == all.len()
            &&& forall|i: int| 0 <= i < retained.len() ==> #[trigger] retained[i] == all[lost + i]
        }),
{
    crate::iox2_data::law_samples_arrive_in_order(read, samples, capacity);
}

/// A sample that arrives is the newest one, and only a full input loses its
/// oldest one to it.
pub proof fn law_arriving_sample_is_the_newest<T>(
    read: Seq<Message<T>>,
    sample: Message<T>,
    capacity: nat,
)
    requires
        0 < capacity,
        read.len() <= capacity,
    ensures
        ({
            let after = crate::iox2_data::newest_of(read.push(sample), capacity);
            let lost = read.len() + 1 - after.len();
            &&& after.len() > 0
            &&& after[after.len() - 1] == sample
            &&& lost == if read.len() == capacity {
                1int
            } else {
                0int
            }
            &&& forall|i: int| 0 <= i < after.len() - 1 ==> #[trigger] after[i] == read[lost + i]
        }),
{
}

/// A service name is accepted exactly if it is not empty, is not reserved, holds
/// no character but plain ones, and is not too long.
pub proof fn law_plain_service_names_are_accepted(name: Seq<char>)
    ensures
        crate::iox2_names::service_name_error(name) is None <==> {
            &&& name.len() > 0
            &&& !"iox2://"@.is_prefix_of(name)
            &&& forall|i: int| 0 <= i < name.len() ==> 0 < ((#[trigger] name[i]) as u32) < 128
            &&& vstd::utf8::encode_utf8(name).len() <= 255
        },
        crate::iox2_names::node_name_error(name) is None <==> {
            &&& forall|i: int| 0 <= i < name.len() ==> 0 < ((#[trigger] name[i]) as u32) < 128
            &&& vstd::utf8::encode_utf8(name).len() <= 128
        },
        vstd::utf8::encode_utf8(name).len() > 128 ==> crate::iox2_names::node_name_error(name)
            == Some(NameError::ExceedsMaximumLength),
{
}

/// The name of a channel's service is the channel behind its namespace.
pub proof fn law_services_are_named_after_channels(namespace: String, channel: Seq<char>)
    ensures
        ({
            let name = crate::iox2::full_name(Some(namespace), channel);
            let n = namespace@.len() as int;
            &&& name.len() == n + 1 + channel.len()
            &&& name.take(n) == namespace@
            &&& name[n] == '/'
            &&& name.skip(n + 1) == channel
        }),
        crate::iox2::full_name(None, channel) == channel,
{
    reveal_strlit("/");
    let name = crate::iox2::full_name(Some(namespace), channel);
    let n = namespace@.len() as int;
    assert(name.take(n) =~= namespace@);
    assert(name.skip(n + 1) =~= channel);
}

/// The occurrences of all records are counted.
pub proof fn law_occurrences_are_counted(records: Seq<EventRecord>)
    ensures
        crate::iox2_event::count_total(records, records.len() as int) == records.map_values(
            |record: EventRecord| record.count as int,
        ).fold_left(0, |sum: int, count: int| sum + count),
    decreases records.len(),
{
    let plus = |sum: int, count: int| sum + count;
    let counts = records.map_values(|record: EventRecord| record.count as int);
    if records.len() > 0 {
        let rest = records.drop_last();
        law_occurrences_are_counted(rest);
        lemma_count_of_first(records, rest.len() as int);
        assert(rest.map_values(|record: EventRecord| record.count as int) =~= counts.drop_last());
        assert(counts.fold_left(0, plus) == counts.drop_last().fold_left(0, plus) + counts.last());
    }
}

/// The occurrences of the first records do not depend on the last one.
proof fn lemma_count_of_first(records: Seq<EventRecord>, n: int)
    requires
        0 <= n < records.len(),
    ensures
        crate::iox2_event::count_total(records, n) == crate::iox2_event::count_total(
            records.drop_last(),
            n,
        ),
    decreases n,
{
    if n > 0 {
        lemma_count_of_first(records, n - 1);
    }
}

/// As many inputs are due as arrive no later.
proof fn lemma_due_count<T>(inputs: Seq<ScheduledIox2Input<T>>, at: FrameworkTime)
    requires
        forall|i: int, j: int|
            0 <= i <= j < inputs.len() ==> (#[trigger] inputs[i]).at.nanoseconds <= (#[trigger]
            inputs[j]).at.nanoseconds,
    ensures
        crate::simulation_iox2::due_count(inputs, at) <= inputs.len(),
        forall|i: int|
            0 <= i < inputs.len() ==> ((#[trigger] inputs[i]).at.nanoseconds <= at.nanoseconds <==> i
                < crate::simulation_iox2::due_count(inputs, at)),
    decreases inputs.len(),
{
    if inputs.len() > 0 {
        let rest = inputs.drop_last();
        assert forall|i: int, j: int| 0 <= i <= j < rest.len() implies (#[trigger]
        rest[i]).at.nanoseconds <= (#[trigger] rest[j]).at.nanoseconds by {
            assert(inputs[i].at.nanoseconds <= inputs[j].at.nanoseconds);
        }
        lemma_due_count(rest, at);
        let k = crate::simulation_iox2::due_count(rest, at);
        if inputs.last().at.nanoseconds <= at.nanoseconds && k < rest.len() {
            assert(rest[k as int].at.nanoseconds > at.nanoseconds);
            assert(inputs[k as int].at.nanoseconds <= inputs[rest.len() as int].at.nanoseconds);
        }
        assert forall|i: int| 0 <= i < inputs.len() implies ((#[trigger] inputs[i]).at.nanoseconds
            <= at.nanoseconds <==> i < crate::simulation_iox2::due_count(inputs, at)) by {
            if i < rest.len() {
                assert(rest[i] == inputs[i]);
            }
        }
    }
}

/// An input that is scheduled stands behind every one that arrives no later and
/// before every one that arrives later; all others stay, in order.
pub proof fn law_scheduled_inputs_wait_for_their_time<T>(
    before: Seq<ScheduledIox2Input<T>>,
    after: Seq<ScheduledIox2Input<T>>,
    at: FrameworkTime,
    kind: ScheduledIox2InputKind<T>,
) -> (k: int)
    requires
        forall|i: int, j: int|
            0 <= i <= j < before.len() ==> (#[trigger] before[i]).at.nanoseconds <= (#[trigger]
            before[j]).at.nanoseconds,
        crate::simulation_iox2::scheduled_behind(before, after, at, kind),
    ensures
        0 <= k < after.len(),
        after.len() == before.len() + 1,
        after[k].at == at,
        after[k].kind == kind,
        forall|i: int|
            0 <= i < k ==> (#[trigger] after[i]) == before[i] && after[i].at.nanoseconds
                <= at.nanoseconds,
        forall|i: int|
            k < i < after.len() ==> (#[trigger] after[i]) == before[i - 1] && after[i].at.nanoseconds
                > at.nanoseconds,
{
    lemma_due_count(before, at);
    let k = crate::simulation_iox2::due_count(before, at) as int;
    let first = before.take(k).push(after[k]);
    assert forall|i: int| 0 <= i < k implies (#[trigger] after[i]) == before[i]
        && after[i].at.nanoseconds <= at.nanoseconds by {
        assert(after[i] == first[i]);
    }
    assert forall|i: int| k < i < after.len() implies (#[trigger] after[i]) == before[i - 1]
        && after[i].at.nanoseconds > at.nanoseconds by {
        assert(after[i] == before.skip(k)[i - k - 1]);
    }
    k
}

/// Every payload among some inputs is published, in order, under its channel
/// and with the time for which it was scheduled.
proof fn lemma_payloads<T>(inputs: Seq<ScheduledIox2Input<T>>, n: int)
    requires
        0 <= n <= inputs.len(),
    ensures
        ({
            let data = inputs.take(n).filter(|input: ScheduledIox2Input<T>| input.kind is Data);
            let published = crate::simulation_iox2::payloads(inputs, n);
            &&& published.len() == data.len()
            &&& forall|j: int|
                0 <= j < data.len() ==> {
                    &&& (#[trigger] published[j]).0 == data[j].kind->Data_channel
                    &&& published[j].1.published_at == data[j].at
                    &&& published[j].2 == data[j].kind->payload
                }
        }),
    decreases n,
{
    reveal(Seq::filter);
    if n > 0 {
        lemma_payloads(inputs, n - 1);
        assert(inputs.take(n).drop_last() =~= inputs.take(n - 1));
        assert(inputs.take(n).last() == inputs[n - 1]);
    }
}

/// The due inputs are taken, all of them and no others. Their payloads are
/// published, in order, each under its channel and with the time for which it
/// was scheduled.
pub proof fn law_due_payloads_are_published<T>(
    inputs: Seq<ScheduledIox2Input<T>>,
    now: FrameworkTime,
    left: Seq<ScheduledIox2Input<T>>,
    published: Seq<(String, MessageHeader, T)>,
)
    requires
        forall|i: int, j: int|
            0 <= i <= j < inputs.len() ==> (#[trigger] inputs[i]).at.nanoseconds <= (#[trigger]
            inputs[j]).at.nanoseconds,
        left == inputs.skip(crate::simulation_iox2::due_count(inputs, now) as int),
        published == crate::simulation_iox2::payloads(
            inputs,
            crate::simulation_iox2::due_count(inputs, now) as int,
        ),
    ensures
        left.len() <= inputs.len(),
        ({
            let due = inputs.len() - left.len();
            let data = inputs.take(due).filter(|input: ScheduledIox2Input<T>| input.kind is Data);
            &&& forall|i: int|
                0 <= i < due ==> (#[trigger] inputs[i]).at.nanoseconds <= now.nanoseconds
            &&& forall|i: int|
                0 <= i < left.len() ==> (#[trigger] left[i]) == inputs[due + i]
                    && left[i].at.nanoseconds > now.nanoseconds
            &&& published.len() == data.len()
            &&& forall|j: int|
                0 <= j < data.len() ==> {
                    &&& (#[trigger] published[j]).0 == data[j].kind->Data_channel
                    &&& published[j].1.published_at == data[j].at
                    &&& published[j].2 == data[j].kind->payload
                }
        }),
{
    lemma_due_count(inputs, now);
    lemma_payloads(inputs, crate::simulation_iox2::due_count(inputs, now) as int);
}

/// What is staged for a listener is what waited and every event on its channel,
/// as far as its capacity goes.
proof fn lemma_events_staged<T>(
    inputs: Seq<ScheduledIox2Input<T>>,
    n: int,
    channel: Seq<char>,
    capacity: nat,
    waiting: Seq<(usize, u64)>,
)
    requires
        0 <= n <= inputs.len(),
        0 < capacity,
        waiting.len() <= capacity,
    ensures
        ({
            let staged = crate::simulation_iox2::events_staged(
                inputs,
                n,
                channel,
                capacity,
                waiting,
            );
            let events = inputs.take(n).filter(
                |input: ScheduledIox2Input<T>|
                    input.kind is Event && input.kind->Event_channel@ == channel,
            ).map_values(
                |input: ScheduledIox2Input<T>|
                    (input.kind->event_id, input.kind->Event_count),
            );
            let all = waiting + events;
            let lost = all.len() - staged.len();
            &&& staged.len() <= all.len()
            &&& staged.len() <= capacity
            &&& staged.len() == capacity || staged.len() == all.len()
            &&& forall|i: int| 0 <= i < staged.len() ==> #[trigger] staged[i] == all[lost + i]
        }),
    decreases n,
{
    reveal(Seq::filter);
    let chosen = |input: ScheduledIox2Input<T>|
        input.kind is Event && input.kind->Event_channel@ == channel;
    let told = |input: ScheduledIox2Input<T>| (input.kind->event_id, input.kind->Event_count);
    let events = inputs.take(n).filter(chosen).map_values(told);
    if n > 0 {
        lemma_events_staged(inputs, n - 1, channel, capacity, waiting);
        assert(inputs.take(n).drop_last() =~= inputs.take(n - 1));
        assert(inputs.take(n).last() == inputs[n - 1]);
        let before = inputs.take(n - 1).filter(chosen).map_values(told);
        if chosen(inputs[n - 1]) {
            assert(events =~= before.push(told(inputs[n - 1])));
            assert(waiting + events =~= (waiting + before).push(told(inputs[n - 1])));
        } else {
            assert(events =~= before);
        }
    } else {
        assert(inputs.take(0) =~= Seq::empty());
        assert(waiting + events =~= waiting);
    }
}

/// Every event among the inputs that are taken is staged for every listener of
/// its channel, behind what waits there, in order; a listener keeps the newest
/// records that fit.
pub proof fn law_events_reach_every_listener<T>(
    before: Seq<Iox2EventSubscriber>,
    after: Seq<Iox2EventSubscriber>,
    inputs: Seq<ScheduledIox2Input<T>>,
    n: int,
    l: int,
)
    requires
        0 <= n <= inputs.len(),
        0 <= l < before.len(),
        before[l].wf(),
        crate::simulation_iox2::all_staged(before, after, inputs, n),
    ensures
        ({
            let channel = before[l].config.channel_name@;
            let events = inputs.take(n).filter(
                |input: ScheduledIox2Input<T>|
                    input.kind is Event && input.kind->Event_channel@ == channel,
            ).map_values(
                |input: ScheduledIox2Input<T>|
                    (input.kind->event_id, input.kind->Event_count),
            );
            let all = before[l].staging@ + events;
            let staged = after[l].staging@;
            let lost = all.len() - staged.len();
            &&& staged.len() <= all.len()
            &&& staged.len() == before[l].config.capacity || staged.len() == all.len()
            &&& forall|i: int| 0 <= i < staged.len() ==> #[trigger] staged[i] == all[lost + i]
        }),
        after[l].read == before[l].read,
        after[l].config == before[l].config,
{
    lemma_events_staged(
        inputs,
        n,
        before[l].config.channel_name@,
        before[l].config.capacity as nat,
        before[l].staging@,
    );
}

/// An event is staged for every listener of its channel, as the newest record,
/// and for no other.
pub proof fn law_event_is_staged_for_its_channel(
    before: Seq<Iox2EventSubscriber>,
    after: Seq<Iox2EventSubscriber>,
    channel: Seq<char>,
    record: EventRecord,
    l: int,
)
    requires
        crate::simulation_iox2::staged_for(before, after, channel, record),
        0 <= l < before.len(),
        before[l].wf(),
    ensures
        before[l].config.channel_name@ == channel ==> after[l].staging@.len() > 0
            && after[l].staging@.last() == (record.event_id, record.count),
        before[l].config.channel_name@ != channel ==> after[l].staging@ == before[l].staging@,
        after[l].read == before[l].read,
{
    assert(after[l].config == before[l].config);
}

/// A node is asked to run exactly if something is staged for one of its
/// listeners.
pub proof fn law_staged_events_ask_their_node(
    listeners: Seq<Iox2EventSubscriber>,
    owners: Seq<usize>,
    n: int,
)
    ensures
        crate::simulation_iox2::events_ask(listeners, owners, n) <==> exists|i: int|
            0 <= i < listeners.len() && owners[i] == n && (#[trigger] listeners[i]).staging@.len()
                > 0,
{
}

/// The listeners of the nodes that run hand over every record that was staged,
/// in order; all other listeners keep theirs.
pub proof fn law_running_nodes_take_their_events(
    before: Seq<Iox2EventSubscriber>,
    after: Seq<Iox2EventSubscriber>,
    owners: Seq<usize>,
    runnable: Seq<usize>,
    l: int,
    r: int,
)
    requires
        crate::simulation_iox2::drained_for(before, after, owners, runnable),
        0 <= l < before.len(),
    ensures
        0 <= r < runnable.len() && runnable[r] == owners[l] ==> {
            &&& after[l].staging@.len() == 0
            &&& after[l].read@.len() == before[l].staging@.len()
            &&& forall|i: int|
                0 <= i < before[l].staging@.len() ==> (#[trigger] after[l].read@[i]).event_id
                    == before[l].staging@[i].0 && after[l].read@[i].count
                    == before[l].staging@[i].1
        },
        (forall|q: int| 0 <= q < runnable.len() ==> #[trigger] runnable[q] != owners[l])
            ==> after[l] == before[l],
{
    if 0 <= r < runnable.len() && runnable[r] == owners[l] {
        assert(runnable.contains(owners[l]));
        assert(after[l].config == before[l].config);
        let handed = crate::iox2_event::items(after[l].read@);
        assert(handed == before[l].staging@);
        assert forall|i: int| 0 <= i < before[l].staging@.len() implies (#[trigger]
        after[l].read@[i]).event_id == before[l].staging@[i].0 && after[l].read@[i].count
            == before[l].staging@[i].1 by {
            assert(handed[i] == after[l].read@[i].item());
        }
    }
    if forall|q: int| 0 <= q < runnable.len() ==> #[trigger] runnable[q] != owners[l] {
        assert(!runnable.contains(owners[l]));
        assert(after[l] == before[l]);
    }
}

/// The counts of one id add up to its total.
proof fn lemma_total_of(activations: Seq<EventRecord>, event_id: usize)
    ensures
        crate::simulation_iox2::total_of(activations, event_id) == activations.filter(
            |record: EventRecord| record.event_id == event_id,
        ).map_values(|record: EventRecord| record.count as int).fold_left(
            0,
            |sum: int, count: int| sum + count,
        ),
    decreases activations.len(),
{
    reveal(Seq::filter);
    let plus = |sum: int, count: int| sum + count;
    let counted = |record: EventRecord| record.count as int;
    let same = |record: EventRecord| record.event_id == event_id;
    let counts = activations.filter(same).map_values(counted);
    if activations.len() > 0 {
        let rest = activations.drop_last();
        lemma_total_of(rest, event_id);
        let before = rest.filter(same).map_values(counted);
        if activations.last().event_id == event_id {
            assert(counts =~= before.push(activations.last().count as int));
            assert(counts.drop_last() =~= before);
            assert(counts.fold_left(0, plus) == before.fold_left(0, plus) + counts.last());
        } else {
            assert(counts =~= before);
        }
    }
}

/// Folding keeps the ids that occur.
proof fn lemma_folded_ids(activations: Seq<EventRecord>, event_id: usize)
    ensures
        crate::simulation_iox2::has_id(crate::simulation_iox2::folded(activations), event_id)
            <==> crate::simulation_iox2::has_id(activations, event_id),
    decreases activations.len(),
{
    let folded = crate::simulation_iox2::folded(activations);
    if activations.len() > 0 {
        let rest = activations.drop_last();
        let last = activations.last();
        lemma_folded_ids(rest, event_id);
        lemma_folded_ids(rest, last.event_id);
        let before = crate::simulation_iox2::folded(rest);
        assert(activations[activations.len() - 1] == last);
        if crate::simulation_iox2::has_id(rest, event_id) {
            let i = choose|i: int| 0 <= i < rest.len() && (#[trigger] rest[i]).event_id == event_id;
            assert(activations[i].event_id == event_id);
        }
        if crate::simulation_iox2::has_id(activations, event_id) && last.event_id != event_id {
            let i = choose|i: int|
                0 <= i < activations.len() && (#[trigger] activations[i]).event_id == event_id;
            assert(rest[i].event_id == event_id);
        }
        if crate::simulation_iox2::has_id(before, event_id) {
            let i = choose|i: int|
                0 <= i < before.len() && (#[trigger] before[i]).event_id == event_id;
            assert(folded[i].event_id == event_id);
        }
        if crate::simulation_iox2::has_id(folded, event_id) && last.event_id != event_id {
            let i = choose|i: int|
                0 <= i < folded.len() && (#[trigger] folded[i]).event_id == event_id;
            assert(before[i].event_id == event_id);
        }
        if last.event_id == event_id {
            if crate::simulation_iox2::has_id(before, event_id) {
            } else {
                assert(folded[before.len() as int].event_id == event_id);
            }
        }
    }
}

/// There is one record for each id that occurs and for no other, and it counts
/// every occurrence of its id, up to the largest count that a record can hold.
pub proof fn law_every_activation_is_counted(activations: Seq<EventRecord>, event_id: usize)
    ensures
        ({
            let records = crate::simulation_iox2::folded(activations);
            let total = activations.filter(
                |record: EventRecord| record.event_id == event_id,
            ).map_values(|record: EventRecord| record.count as int).fold_left(
                0,
                |sum: int, count: int| sum + count,
            );
            &&& (exists|i: int|
                0 <= i < records.len() && (#[trigger] records[i]).event_id == event_id) <==> exists|
                i: int,
            |
                0 <= i < activations.len() && (#[trigger] activations[i]).event_id == event_id
            &&& forall|i: int|
                0 <= i < records.len() && (#[trigger] records[i]).event_id == event_id
                    ==> records[i].count == if total > u64::MAX {
                    u64::MAX as int
                } else {
                    total
                }
            &&& forall|i: int, j: int|
                0 <= i < j < records.len() ==> (#[trigger] records[i]).event_id != (#[trigger]
                records[j]).event_id
        }),
{
    let records = crate::simulation_iox2::folded(activations);
    crate::simulation_iox2::law_folded_ids_are_distinct(activations);
    lemma_folded_ids(activations, event_id);
    lemma_total_of(activations, event_id);
    assert forall|i: int| 0 <= i < records.len() && (#[trigger] records[i]).event_id
        == event_id implies records[i].count == if crate::simulation_iox2::total_of(
        activations,
        event_id,
    ) > u64::MAX {
        u64::MAX as int
    } else {
        crate::simulation_iox2::total_of(activations, event_id) as int
    } by {
        crate::simulation_iox2::law_folding_keeps_totals(activations, i);
    }
}

/// What the steps for one node add.
proof fn lemma_node_steps(
    nodes: Seq<NodeInputs>,
    n: int,
    i: int,
    steps: Seq<RegistrationStep>,
    step: RegistrationStep,
)
    requires
        0 <= n < nodes.len() <= usize::MAX,
        0 <= i <= nodes[n].inputs@.len() <= usize::MAX,
    ensures
        crate::simulation_iox2::node_steps(nodes, n, i, steps).contains(step) <==> {
            ||| steps.contains(step)
            ||| step is Listener && step->Listener_node == n && step->Listener_input < i
                && nodes[n].inputs@[step->Listener_input as int].kind is Iox2EventSub
            ||| step is Publisher && step->Publisher_node == n && step->Publisher_input < i
                && nodes[n].inputs@[step->Publisher_input as int].kind is Iox2DataSub
                && !crate::simulation_iox2::fed_before(nodes, n, step->Publisher_input as int)
        },
    decreases i,
{
    if i > 0 {
        lemma_node_steps(nodes, n, i - 1, steps, step);
        let rest = crate::simulation_iox2::node_steps(nodes, n, i - 1, steps);
        let all = crate::simulation_iox2::node_steps(nodes, n, i, steps);
        if rest.contains(step) {
            let j = choose|j: int| 0 <= j < rest.len() && rest[j] == step;
            assert(all[j] == step);
        }
        if all.contains(step) && !rest.contains(step) {
            let j = choose|j: int| 0 <= j < all.len() && all[j] == step;
            if j < rest.len() {
                assert(rest[j] == step);
            }
            assert(all.len() == rest.len() + 1);
            assert(all.last() == step);
        }
        if all.len() > rest.len() {
            assert(all[rest.len() as int] == all.last());
        }
    }
}

/// What the steps for the first nodes are.
proof fn lemma_registration_steps(nodes: Seq<NodeInputs>, n: int, step: RegistrationStep)
    requires
        0 <= n <= nodes.len() <= usize::MAX,
        forall|m: int| 0 <= m < nodes.len() ==> (#[trigger] nodes[m]).inputs@.len() <= usize::MAX,
    ensures
        crate::simulation_iox2::registration_steps(nodes, n).contains(step) <==> {
            ||| step is Listener && step->Listener_node < n && step->Listener_input
                < nodes[step->Listener_node as int].inputs@.len()
                && nodes[step->Listener_node as int].inputs@[step->Listener_input as int].kind is Iox2EventSub
            ||| step is Publisher && step->Publisher_node < n && step->Publisher_input
                < nodes[step->Publisher_node as int].inputs@.len()
                && nodes[step->Publisher_node as int].inputs@[step->Publisher_input as int].kind is Iox2DataSub
                && !crate::simulation_iox2::fed_before(
                nodes,
                step->Publisher_node as int,
                step->Publisher_input as int,
            )
        },
    decreases n,
{
    if n > 0 {
        lemma_registration_steps(nodes, n - 1, step);
        assert(nodes[n - 1].inputs@.len() <= usize::MAX);
        lemma_node_steps(
            nodes,
            n - 1,
            nodes[n - 1].inputs@.len() as int,
            crate::simulation_iox2::registration_steps(nodes, n - 1),
            step,
        );
    }
}

/// Every event input of every node gets a listener, and every channel that some
/// data input reads gets a publisher, for the first such input. Nothing else is
/// opened.
pub proof fn law_every_outside_input_is_opened(nodes: Seq<NodeInputs>, n: usize, i: usize)
    requires
        nodes.len() <= usize::MAX,
        forall|m: int| 0 <= m < nodes.len() ==> (#[trigger] nodes[m]).inputs@.len() <= usize::MAX,
        n < nodes.len(),
        i < nodes[n as int].inputs@.len(),
    ensures
        ({
            let steps = crate::simulation_iox2::registration_steps(nodes, nodes.len() as int);
            let own = nodes[n as int].inputs@[i as int];
            &&& steps.contains(RegistrationStep::Listener { node: n, input: i })
                <==> own.kind is Iox2EventSub
            &&& steps.contains(RegistrationStep::Publisher { node: n, input: i }) <==> {
                &&& own.kind is Iox2DataSub
                &&& forall|m: int, j: int|
                    0 <= m < nodes.len() && 0 <= j < nodes[m].inputs@.len() && (m < n || m == n && j
                        < i) && (#[trigger] nodes[m].inputs@[j]).kind is Iox2DataSub
                        ==> nodes[m].inputs@[j].channel@ != own.channel@
            }
        }),
{
    let listener = RegistrationStep::Listener { node: n, input: i };
    let publisher = RegistrationStep::Publisher { node: n, input: i };
    lemma_registration_steps(nodes, nodes.len() as int, listener);
    lemma_registration_steps(nodes, nodes.len() as int, publisher);
    let own = nodes[n as int].inputs@[i as int];
    if crate::simulation_iox2::fed_before(nodes, n as int, i as int) {
        let (m, j) = choose|m: int, j: int|
            (0 <= m < n && 0 <= j < nodes[m].inputs@.len() || m == n && 0 <= j < i) && (#[trigger]
            nodes[m].inputs@[j]).kind is Iox2DataSub && nodes[m].inputs@[j].channel@
                == nodes[n as int].inputs@[i as int].channel@;
        assert(nodes[m].inputs@[j].channel@ == own.channel@);
    } else {
        assert forall|m: int, j: int|
            0 <= m < nodes.len() && 0 <= j < nodes[m].inputs@.len() && (m < n || m == n && j < i)
                && (#[trigger] nodes[m].inputs@[j]).kind is Iox2DataSub implies nodes[m].inputs@[j].channel@
            != own.channel@ by {}
    }
}

/// An event enqueues the node of an optional trigger, once none of the node's
/// required inputs lacks a message; it enqueues no other node.
pub proof fn law_events_enqueue_ready_nodes(
    role: Option<SubscriberReadiness>,
    readiness: Seq<CallbackNodeReadiness>,
    n: usize,
)
    requires
        n < readiness.len(),
    ensures
        role == Some(SubscriberReadiness::OptionalTrigger(n)) && readiness[n as int].bitmask
            == usize::MAX ==> crate::iox2_event::nudged(role, readiness)
            == readiness[n as int].node,
        role == Some(SubscriberReadiness::OptionalTrigger(n)) && readiness[n as int].bitmask
            != usize::MAX ==> crate::iox2_event::nudged(role, readiness) is None,
        (match role {
            Some(SubscriberReadiness::OptionalTrigger(_)) => false,
            _ => true,
        }) ==> crate::iox2_event::nudged(role, readiness) is None,
{
}

/// A data input of a type is found exactly where one is declared, and so are one
/// of another type, an event input and an output.
pub proof fn law_outside_ports_are_found(
    endpoints: Seq<Iox2EndpointInfo>,
    channel: Seq<char>,
    value_type: u64,
    i: int,
)
    requires
        0 <= i < endpoints.len(),
    ensures
        crate::unit_test_iox2::is_data_input(endpoints, channel, value_type, i) <==> {
            &&& endpoints[i].channel@ == channel
            &&& endpoints[i].kind is Iox2DataSub
            &&& endpoints[i].payload_type is Some
            &&& endpoints[i].payload_type->0 == value_type
        },
        endpoints[i].channel@ == channel && endpoints[i].kind is Iox2DataSub ==> (
        crate::unit_test_iox2::is_data_input(endpoints, channel, value_type, i)
            != crate::unit_test_iox2::is_other_data_input(endpoints, channel, value_type, i)),
        crate::unit_test_iox2::is_event_input(endpoints, channel, i) <==> endpoints[i].channel@
            == channel && endpoints[i].kind is Iox2EventSub,
        crate::unit_test_iox2::is_output(endpoints, channel, i) <==> endpoints[i].channel@
            == channel && match endpoints[i].kind {
            EndpointKind::Iox2DataPub { .. } => true,
            EndpointKind::Iox2Notifier { .. } => true,
            _ => false,
        },
        crate::unit_test_iox2::is_output(endpoints, channel, i) ==> (
        crate::unit_test_iox2::is_other_output(endpoints, channel, value_type, i) <==> (
        endpoints[i].payload_type is None || endpoints[i].payload_type->0 != value_type)),
{
}

/// A test event is staged for a listener of its channel, as the newest record,
/// and for no other listener.
pub proof fn law_test_events_reach_their_channel(
    before: Iox2EventSubscriber,
    after: Iox2EventSubscriber,
    channel: Seq<char>,
    record: EventRecord,
)
    requires
        before.wf(),
        crate::unit_test_iox2::staged_at(before, after, channel, record),
    ensures
        before.config.channel_name@ == channel ==> after.staging@.len() > 0
            && after.staging@.last() == (record.event_id, record.count) && after.read
            == before.read,
        before.config.channel_name@ != channel ==> after == before,
{
}

/// An event input asks for a run exactly if something is staged for it, and never
/// keeps its node from running.
pub proof fn law_staged_events_ask_for_a_run(subscriber: Iox2EventSubscriber)
    ensures
        subscriber.asks_to_run() <==> subscriber.staging@.len() > 0,
        subscriber.can_run(),
{
}

} // verus!
