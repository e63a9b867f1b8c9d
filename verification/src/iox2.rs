//! Graph-scoped configuration of shared-memory channels.
//!
//! Processes sharing a channel must agree on all service-wide settings. The
//! first process creating a service establishes those settings; later openers
//! must request compatible values. Safe overflow is enabled so a full
//! subscriber buffer drops its oldest sample instead of blocking senders.
use vstd::prelude::*;

use crate::callback::{CallbackNode, PublisherPort, SubscriberPort};
use crate::channel_map::ChannelMap;
use crate::iox2_names::{NameError, ServiceDefaults};
use crate::pub_sub_factory::{EndpointKind, Iox2EndpointInfo};
use crate::task_graph_builder::TaskGraphBuildError;

verus! {

/// Graph-wide naming configuration.
#[derive(Debug)]
pub struct Iox2GraphConfig {
    /// Optional prefix prepended to each channel's service name.
    pub namespace: Option<String>,
    /// Optional node name.
    pub node_name: Option<String>,
}

impl Default for Iox2GraphConfig {
    fn default() -> (r: Self)
        ensures
            r.namespace is None,
            r.node_name is None,
    {
        Iox2GraphConfig { namespace: None, node_name: None }
    }
}

/// Service-wide publish-subscribe settings for one channel, aggregated from
/// every endpoint of the channel.
#[derive(Clone, Copy, Debug, PartialEq, Eq, Structural)]
pub struct PubSubServiceSettings {
    /// Per-subscriber-port receive buffer ceiling.
    pub subscriber_max_buffer_size: usize,
    /// How many received samples a consumer may hold at once.
    pub subscriber_max_borrowed_samples: usize,
    /// Historical samples delivered to late subscribers.
    pub history_size: usize,
    /// Drop-oldest overflow instead of blocking senders.
    pub enable_safe_overflow: bool,
    pub max_publishers: usize,
    pub max_subscribers: usize,
    pub max_nodes: usize,
}

/// Service-wide event settings for one channel.
#[derive(Clone, Copy, Debug, PartialEq, Eq, Structural)]
pub struct EventServiceSettings {
    pub max_notifiers: usize,
    pub max_listeners: usize,
    pub max_nodes: usize,
    /// Largest notification event id accepted by the service (inclusive).
    /// Keep this small: listeners scan the whole id range on every drain.
    pub event_id_max_value: usize,
}

/// What the endpoints of one channel ask for together.
#[derive(Clone, Copy, Debug, PartialEq, Eq, Structural)]
pub struct ChannelAggregates {
    pub max_sub_capacity: usize,
    pub data_sub_count: usize,
    pub data_pub_count: usize,
    pub event_sub_count: usize,
    pub notifier_count: usize,
    pub max_event_id: usize,
}

/// The larger of two numbers.
pub open spec fn larger(a: usize, b: usize) -> usize {
    if a >= b {
        a
    } else {
        b
    }
}

fn max_of(a: usize, b: usize) -> (r: usize)
    ensures
        r == larger(a, b),
{
    if a >= b {
        a
    } else {
        b
    }
}

/// No endpoints.
pub open spec fn no_endpoints() -> ChannelAggregates {
    ChannelAggregates {
        max_sub_capacity: 0,
        data_sub_count: 0,
        data_pub_count: 0,
        event_sub_count: 0,
        notifier_count: 0,
        max_event_id: 0,
    }
}

/// The aggregates with one endpoint more.
pub open spec fn with_endpoint(agg: ChannelAggregates, kind: EndpointKind) -> ChannelAggregates {
    match kind {
        EndpointKind::Iox2DataSub { capacity } => ChannelAggregates {
            max_sub_capacity: larger(agg.max_sub_capacity, capacity),
            data_sub_count: (agg.data_sub_count + 1) as usize,
            ..agg
        },
        EndpointKind::Iox2DataPub { capacity, notify_on_send, event_id } => if notify_on_send {
            ChannelAggregates {
                data_pub_count: (agg.data_pub_count + 1) as usize,
                notifier_count: (agg.notifier_count + 1) as usize,
                max_event_id: larger(agg.max_event_id, event_id),
                ..agg
            }
        } else {
            ChannelAggregates { data_pub_count: (agg.data_pub_count + 1) as usize, ..agg }
        },
        EndpointKind::Iox2EventSub => ChannelAggregates {
            event_sub_count: (agg.event_sub_count + 1) as usize,
            ..agg
        },
        EndpointKind::Iox2Notifier { event_id } => ChannelAggregates {
            notifier_count: (agg.notifier_count + 1) as usize,
            max_event_id: larger(agg.max_event_id, event_id),
            ..agg
        },
        _ => agg,
    }
}

/// What those of the first `n` endpoints ask for that belong to `channel`.
pub open spec fn aggregated(
    endpoints: Seq<Iox2EndpointInfo>,
    channel: Seq<char>,
    n: int,
) -> ChannelAggregates
    decreases n,
{
    if n <= 0 {
        no_endpoints()
    } else if endpoints[n - 1].channel@ == channel {
        with_endpoint(aggregated(endpoints, channel, n - 1), endpoints[n - 1].kind)
    } else {
        aggregated(endpoints, channel, n - 1)
    }
}

/// The publish-subscribe settings that a channel needs, if it carries data.
pub open spec fn pubsub_needs(agg: ChannelAggregates, defaults: ServiceDefaults) -> Option<
    PubSubServiceSettings,
> {
    if agg.data_sub_count > 0 || agg.data_pub_count > 0 {
        let buffer_size = larger(agg.max_sub_capacity, 1);
        Some(
            PubSubServiceSettings {
                subscriber_max_buffer_size: buffer_size,
                subscriber_max_borrowed_samples: (2 * buffer_size) as usize,
                history_size: 0,
                enable_safe_overflow: true,
                max_publishers: larger(defaults.max_publishers, agg.data_pub_count),
                max_subscribers: larger(defaults.max_subscribers, agg.data_sub_count),
                max_nodes: defaults.max_pubsub_nodes,
            },
        )
    } else {
        None
    }
}

/// The event settings that a channel needs, if it carries events.
pub open spec fn event_needs(agg: ChannelAggregates, defaults: ServiceDefaults) -> Option<
    EventServiceSettings,
> {
    if agg.event_sub_count > 0 || agg.notifier_count > 0 {
        Some(
            EventServiceSettings {
                max_notifiers: larger(defaults.max_notifiers, agg.notifier_count),
                max_listeners: larger(defaults.max_listeners, agg.event_sub_count),
                max_nodes: defaults.max_event_nodes,
                event_id_max_value: agg.max_event_id,
            },
        )
    } else {
        None
    }
}

/// The limits of a service that asks for nothing.
pub open spec fn standard_defaults() -> ServiceDefaults {
    ServiceDefaults {
        max_publishers: 2,
        max_subscribers: 8,
        max_pubsub_nodes: 20,
        max_notifiers: 16,
        max_listeners: 16,
        max_event_nodes: 36,
    }
}

/// Whether one of the first `n` endpoints belongs to `channel`.
pub open spec fn mentions(endpoints: Seq<Iox2EndpointInfo>, channel: Seq<char>, n: int) -> bool {
    exists|i: int| 0 <= i < n && (#[trigger] endpoints[i]).channel@ == channel
}

/// Whether some endpoint uses the shared-memory transport.
pub open spec fn uses_iox2(endpoints: Seq<Iox2EndpointInfo>) -> bool {
    exists|i: int| 0 <= i < endpoints.len() && (#[trigger] endpoints[i]).kind.iox2()
}

/// Whether twice each data input's capacity fits a machine word.
pub open spec fn capacities_fit(endpoints: Seq<Iox2EndpointInfo>) -> bool {
    forall|i: int|
        0 <= i < endpoints.len() ==> (#[trigger] endpoints[i]).kind is Iox2DataSub ==> 2
            * endpoints[i].kind->Iox2DataSub_capacity <= usize::MAX
}

/// No channel has more of anything than there are endpoints, and the largest
/// capacity is one of theirs.
pub(crate) proof fn lemma_aggregated_bounds(endpoints: Seq<Iox2EndpointInfo>, channel: Seq<char>, n: int)
    requires
        0 <= n <= endpoints.len(),
        endpoints.len() <= usize::MAX,
        capacities_fit(endpoints),
    ensures
        aggregated(endpoints, channel, n).data_sub_count <= n,
        aggregated(endpoints, channel, n).data_pub_count <= n,
        aggregated(endpoints, channel, n).event_sub_count <= n,
        aggregated(endpoints, channel, n).notifier_count <= n,
        2 * aggregated(endpoints, channel, n).max_sub_capacity <= usize::MAX,
        !mentions(endpoints, channel, n) ==> aggregated(endpoints, channel, n) == no_endpoints(),
    decreases n,
{
    if n > 0 {
        lemma_aggregated_bounds(endpoints, channel, n - 1);
        assert(mentions(endpoints, channel, n - 1) ==> mentions(endpoints, channel, n));
        if endpoints[n - 1].channel@ == channel {
            assert(mentions(endpoints, channel, n));
        }
    }
}

/// Aggregates the endpoints of one channel.
fn aggregate_channel(endpoints: &Vec<Iox2EndpointInfo>, channel: &String) -> (agg: ChannelAggregates)
    requires
        capacities_fit(endpoints@),
    ensures
        agg == aggregated(endpoints@, channel@, endpoints@.len() as int),
{
    let mut agg = ChannelAggregates {
        max_sub_capacity: 0,
        data_sub_count: 0,
        data_pub_count: 0,
        event_sub_count: 0,
        notifier_count: 0,
        max_event_id: 0,
    };
    assert(endpoints.len() == endpoints@.len());
    let mut i: usize = 0;
    while i < endpoints.len()
        invariant
            i <= endpoints@.len(),
            endpoints@.len() <= usize::MAX,
            capacities_fit(endpoints@),
            agg == aggregated(endpoints@, channel@, i as int),
        decreases endpoints@.len() - i,
    {
        proof {
            lemma_aggregated_bounds(endpoints@, channel@, i as int);
        }
        if endpoints[i].channel == *channel {
            match endpoints[i].kind {
                EndpointKind::Iox2DataSub { capacity } => {
                    agg.max_sub_capacity = max_of(agg.max_sub_capacity, capacity);
                    agg.data_sub_count = agg.data_sub_count + 1;
                },
                EndpointKind::Iox2DataPub { capacity: _, notify_on_send, event_id } => {
                    agg.data_pub_count = agg.data_pub_count + 1;
                    if notify_on_send {
                        agg.notifier_count = agg.notifier_count + 1;
                        agg.max_event_id = max_of(agg.max_event_id, event_id);
                    }
                },
                EndpointKind::Iox2EventSub => {
                    agg.event_sub_count = agg.event_sub_count + 1;
                },
                EndpointKind::Iox2Notifier { event_id } => {
                    agg.notifier_count = agg.notifier_count + 1;
                    agg.max_event_id = max_of(agg.max_event_id, event_id);
                },
                _ => {},
            }
        }
        i = i + 1;
    }
    agg
}

/// A name error as a message.
pub open spec fn service_name_reason(error: NameError) -> Seq<char> {
    match error {
        NameError::InvalidContent => "ServiceNameError::InvalidContent"@,
        NameError::ExceedsMaximumLength => "ServiceNameError::ExceedsMaximumLength"@,
    }
}

/// A node name error as a message.
pub open spec fn node_name_reason(error: NameError) -> Seq<char> {
    match error {
        NameError::InvalidContent => "SemanticStringError::InvalidContent"@,
        NameError::ExceedsMaximumLength => "SemanticStringError::ExceedsMaximumLength"@,
    }
}

/// The name of a channel's service: the channel's own, behind the prefix.
pub open spec fn full_name(namespace: Option<String>, channel: Seq<char>) -> Seq<char> {
    match namespace {
        Some(prefix) => prefix@ + "/"@ + channel,
        None => channel,
    }
}

/// Whether the graph's node cannot get its name.
pub open spec fn node_name_refused(config: Iox2GraphConfig) -> bool {
    config.node_name is Some && crate::iox2_names::node_name_error(config.node_name->0@) is Some
}

/// Graph-scoped settings of the shared-memory channels.
pub struct Iox2Context {
    pub namespace: Option<String>,
    pub node_name: Option<String>,
    pub pubsub_settings: ChannelMap<PubSubServiceSettings>,
    pub event_settings: ChannelMap<EventServiceSettings>,
}

impl Iox2Context {
    pub open spec fn wf(&self) -> bool {
        self.pubsub_settings.wf() && self.event_settings.wf()
    }

    /// Aggregates the endpoints into per-channel service settings. Returns
    /// `Ok(None)` when the graph declares no shared-memory endpoints, so that
    /// such graphs never create a node.
    pub fn from_endpoints(graph_config: &Iox2GraphConfig, endpoints: &Vec<Iox2EndpointInfo>) -> (r:
        Result<Option<Iox2Context>, TaskGraphBuildError>)
        requires
            capacities_fit(endpoints@),
        ensures
            r is Err <==> uses_iox2(endpoints@) && node_name_refused(*graph_config),
            r matches Err(error) ==> error is Iox2NodeCreation
                && error->Iox2NodeCreation_source@ == node_name_reason(
                crate::iox2_names::node_name_error(graph_config.node_name->0@)->0,
            ),
            r matches Ok(context) ==> is_context_of(context, *graph_config, endpoints@),
    {
        if !any_iox2(endpoints) {
            return Ok(None);
        }
        let defaults = crate::iox2_names::service_defaults();
        let mut pubsub_settings: ChannelMap<PubSubServiceSettings> = ChannelMap::new();
        let mut event_settings: ChannelMap<EventServiceSettings> = ChannelMap::new();
        assert(endpoints.len() == endpoints@.len());
        let ghost n = endpoints@.len() as int;
        let mut i: usize = 0;
        while i < endpoints.len()
            invariant
                i <= endpoints@.len(),
                n == endpoints@.len(),
                endpoints@.len() <= usize::MAX,
                capacities_fit(endpoints@),
                defaults == standard_defaults(),
                pubsub_settings.wf(),
                event_settings.wf(),
                forall|channel: Seq<char>| #[trigger]
                    pubsub_settings.at(channel) == if mentions(endpoints@, channel, i as int) {
                        pubsub_needs(aggregated(endpoints@, channel, n), defaults)
                    } else {
                        None
                    },
                forall|channel: Seq<char>| #[trigger]
                    event_settings.at(channel) == if mentions(endpoints@, channel, i as int) {
                        event_needs(aggregated(endpoints@, channel, n), defaults)
                    } else {
                        None
                    },
            decreases endpoints@.len() - i,
        {
            let ghost name = endpoints@[i as int].channel@;
            let ghost pubsub_before = pubsub_settings;
            let ghost event_before = event_settings;
            let agg = aggregate_channel(endpoints, &endpoints[i].channel);
            proof {
                lemma_aggregated_bounds(endpoints@, name, n);
            }
            if agg.data_sub_count > 0 || agg.data_pub_count > 0 {
                let buffer_size: usize = max_of(agg.max_sub_capacity, 1);
                pubsub_settings.insert(
                    endpoints[i].channel.clone(),
                    PubSubServiceSettings {
                        subscriber_max_buffer_size: buffer_size,
                        subscriber_max_borrowed_samples: 2 * buffer_size,
                        history_size: 0,
                        enable_safe_overflow: true,
                        max_publishers: max_of(defaults.max_publishers, agg.data_pub_count),
                        max_subscribers: max_of(defaults.max_subscribers, agg.data_sub_count),
                        max_nodes: defaults.max_pubsub_nodes,
                    },
                );
            }
            if agg.event_sub_count > 0 || agg.notifier_count > 0 {
                event_settings.insert(
                    endpoints[i].channel.clone(),
                    EventServiceSettings {
                        max_notifiers: max_of(defaults.max_notifiers, agg.notifier_count),
                        max_listeners: max_of(defaults.max_listeners, agg.event_sub_count),
                        max_nodes: defaults.max_event_nodes,
                        event_id_max_value: agg.max_event_id,
                    },
                );
            }
            proof {
                assert forall|channel: Seq<char>|
                    mentions(endpoints@, channel, i + 1) <==> mentions(
                        endpoints@,
                        channel,
                        i as int,
                    ) || channel == name by {
                    assert(endpoints@[i as int].channel@ == name);
                }
                assert forall|channel: Seq<char>| #[trigger]
                    pubsub_settings.at(channel) == if mentions(endpoints@, channel, i + 1) {
                        pubsub_needs(aggregated(endpoints@, channel, n), defaults)
                    } else {
                        None
                    } by {
                    assert(pubsub_before.at(channel) == if mentions(
                        endpoints@,
                        channel,
                        i as int,
                    ) {
                        pubsub_needs(aggregated(endpoints@, channel, n), defaults)
                    } else {
                        None
                    });
                }
                assert forall|channel: Seq<char>| #[trigger]
                    event_settings.at(channel) == if mentions(endpoints@, channel, i + 1) {
                        event_needs(aggregated(endpoints@, channel, n), defaults)
                    } else {
                        None
                    } by {
                    assert(event_before.at(channel) == if mentions(
                        endpoints@,
                        channel,
                        i as int,
                    ) {
                        event_needs(aggregated(endpoints@, channel, n), defaults)
                    } else {
                        None
                    });
                }
            }
            i = i + 1;
        }
        if let Some(node_name) = &graph_config.node_name {
            match crate::iox2_names::checked_node_name(node_name.as_str()) {
                Ok(_) => {},
                Err(error) => {
                    let source = match error {
                        NameError::InvalidContent =>
                        "SemanticStringError::InvalidContent".to_owned(),
                        NameError::ExceedsMaximumLength =>
                        "SemanticStringError::ExceedsMaximumLength".to_owned(),
                    };
                    return Err(TaskGraphBuildError::Iox2NodeCreation { source });
                },
            }
        }
        proof {
            assert forall|channel: Seq<char>| #[trigger]
                pubsub_settings.at(channel) == pubsub_needs(
                    aggregated(endpoints@, channel, n),
                    standard_defaults(),
                ) by {
                lemma_aggregated_bounds(endpoints@, channel, n);
            }
            assert forall|channel: Seq<char>| #[trigger]
                event_settings.at(channel) == event_needs(
                    aggregated(endpoints@, channel, n),
                    standard_defaults(),
                ) by {
                lemma_aggregated_bounds(endpoints@, channel, n);
            }
        }
        Ok(
            Some(
                Iox2Context {
                    namespace: graph_config.namespace.clone(),
                    node_name: graph_config.node_name.clone(),
                    pubsub_settings,
                    event_settings,
                },
            ),
        )
    }

    /// The prefixed service name for a channel.
    pub fn service_name(&self, channel: &str) -> (r: Result<String, TaskGraphBuildError>)
        ensures
            r is Ok <==> crate::iox2_names::service_name_error(
                full_name(self.namespace, channel@),
            ) is None,
            r matches Ok(name) ==> name@ == full_name(self.namespace, channel@),
            r matches Err(error) ==> error is InvalidServiceName
                && error->InvalidServiceName_channel@ == channel@
                && error->InvalidServiceName_reason@ == service_name_reason(
                crate::iox2_names::service_name_error(full_name(self.namespace, channel@))->0,
            ),
    {
        let full = match &self.namespace {
            Some(prefix) => {
                let mut text = prefix.clone();
                text.append("/");
                text.append(channel);
                text
            },
            None => channel.to_owned(),
        };
        assert(full@ =~= full_name(self.namespace, channel@));
        match crate::iox2_names::checked_service_name(full.as_str()) {
            Ok(name) => Ok(name),
            Err(error) => {
                let reason = match error {
                    NameError::InvalidContent => "ServiceNameError::InvalidContent".to_owned(),
                    NameError::ExceedsMaximumLength =>
                    "ServiceNameError::ExceedsMaximumLength".to_owned(),
                };
                Err(TaskGraphBuildError::InvalidServiceName { channel: channel.to_owned(), reason })
            },
        }
    }

    /// Aggregated publish-subscribe settings for a channel.
    pub fn pubsub_settings(&self, channel: &str) -> (r: Result<
        PubSubServiceSettings,
        TaskGraphBuildError,
    >)
        requires
            self.wf(),
        ensures
            r is Ok <==> self.pubsub_settings.at(channel@) is Some,
            r matches Ok(settings) ==> self.pubsub_settings.at(channel@) == Some(settings),
            r matches Err(error) ==> error is Iox2ServiceOpen
                && error->Iox2ServiceOpen_channel@ == channel@ && error->Iox2ServiceOpen_source@
                == "endpoint scan recorded no publish-subscribe settings for this channel"@,
    {
        let name = channel.to_owned();
        match self.pubsub_settings.get(&name) {
            Some(settings) => Ok(*settings),
            None => Err(
                TaskGraphBuildError::Iox2ServiceOpen {
                    channel: name,
                    source:
                        "endpoint scan recorded no publish-subscribe settings for this channel".to_owned(),
                },
            ),
        }
    }

    /// What to open as a channel's event service: its name, and the settings
    /// that the endpoints ask for, if any do.
    pub fn event_service(&self, channel: &str) -> (r: Result<
        (String, Option<EventServiceSettings>),
        TaskGraphBuildError,
    >)
        requires
            self.wf(),
        ensures
            r is Ok <==> crate::iox2_names::service_name_error(
                full_name(self.namespace, channel@),
            ) is None,
            r matches Ok(service) ==> service.0@ == full_name(self.namespace, channel@)
                && service.1 == self.event_settings.at(channel@),
            r matches Err(error) ==> error is InvalidServiceName
                && error->InvalidServiceName_channel@ == channel@
                && error->InvalidServiceName_reason@ == service_name_reason(
                crate::iox2_names::service_name_error(full_name(self.namespace, channel@))->0,
            ),
    {
        match self.service_name(channel) {
            Ok(name) => {
                let settings = match self.event_settings.get(&channel.to_owned()) {
                    Some(settings) => Some(*settings),
                    None => None,
                };
                Ok((name, settings))
            },
            Err(error) => Err(error),
        }
    }
}

/// Whether some endpoint uses the shared-memory transport.
fn any_iox2(endpoints: &Vec<Iox2EndpointInfo>) -> (r: bool)
    ensures
        r == uses_iox2(endpoints@),
{
    let mut i: usize = 0;
    while i < endpoints.len()
        invariant
            i <= endpoints@.len(),
            forall|j: int| 0 <= j < i ==> !(#[trigger] endpoints@[j]).kind.iox2(),
        decreases endpoints@.len() - i,
    {
        if endpoints[i].kind.is_iox2() {
            return true;
        }
        i = i + 1;
    }
    false
}

/// The endpoints that the native ports of a node are.
pub open spec fn native_endpoints<T>(node: CallbackNode<T>) -> Seq<Iox2EndpointInfo> {
    node.subscribers@.map_values(
        |port: SubscriberPort|
            Iox2EndpointInfo {
                channel: port.config.channel_name,
                kind: EndpointKind::NativeSub,
                payload_type: None,
            },
    ) + node.publishers@.map_values(
        |port: PublisherPort|
            Iox2EndpointInfo {
                channel: port.config.channel_name,
                kind: EndpointKind::NativePub,
                payload_type: None,
            },
    )
}

/// The endpoints that the native ports of the first `n` nodes are.
pub open spec fn all_native_endpoints<T>(nodes: Seq<CallbackNode<T>>, n: int) -> Seq<
    Iox2EndpointInfo,
>
    decreases n,
{
    if n <= 0 {
        Seq::empty()
    } else {
        all_native_endpoints(nodes, n - 1) + native_endpoints(nodes[n - 1])
    }
}

/// Native ports use no shared memory, and so they never disagree.
pub(crate) proof fn lemma_native_endpoints<T>(nodes: Seq<CallbackNode<T>>, n: int)
    requires
        0 <= n <= nodes.len(),
    ensures
        forall|i: int|
            0 <= i < all_native_endpoints(nodes, n).len() ==> {
                &&& !(#[trigger] all_native_endpoints(nodes, n)[i]).kind.iox2()
                &&& all_native_endpoints(nodes, n)[i].payload_type is None
            },
        forall|i: int, j: int| !#[trigger] conflicts(all_native_endpoints(nodes, n), i, j),
    decreases n,
{
    if n > 0 {
        lemma_native_endpoints(nodes, n - 1);
    }
}

/// The native endpoints of all nodes.
pub(crate) fn list_native_endpoints<T>(nodes: &Vec<CallbackNode<T>>) -> (r: Vec<Iox2EndpointInfo>)
    ensures
        r@ == all_native_endpoints(nodes@, nodes@.len() as int),
{
    let mut endpoints: Vec<Iox2EndpointInfo> = Vec::new();
    let mut n: usize = 0;
    while n < nodes.len()
        invariant
            n <= nodes@.len(),
            endpoints@ == all_native_endpoints(nodes@, n as int),
        decreases nodes@.len() - n,
    {
        let ghost before = endpoints@;
        let ghost own = native_endpoints(nodes@[n as int]);
        let node = &nodes[n];
        let mut i: usize = 0;
        assert(before + own.take(0) =~= before);
        while i < node.subscribers.len()
            invariant
                i <= node.subscribers@.len(),
                own == native_endpoints(*node),
                endpoints@ == before + own.take(i as int),
            decreases node.subscribers@.len() - i,
        {
            endpoints.push(
                Iox2EndpointInfo {
                    channel: node.subscribers[i].config.channel_name.clone(),
                    kind: EndpointKind::NativeSub,
                    payload_type: None,
                },
            );
            assert(endpoints@ =~= before + own.take(i + 1));
            i = i + 1;
        }
        let ghost inputs = i as int;
        let mut k: usize = 0;
        while k < node.publishers.len()
            invariant
                k <= node.publishers@.len(),
                inputs == node.subscribers@.len(),
                own == native_endpoints(*node),
                endpoints@ == before + own.take(inputs + k),
            decreases node.publishers@.len() - k,
        {
            endpoints.push(
                Iox2EndpointInfo {
                    channel: node.publishers[k].config.channel_name.clone(),
                    kind: EndpointKind::NativePub,
                    payload_type: None,
                },
            );
            assert(endpoints@ =~= before + own.take(inputs + k + 1));
            k = k + 1;
        }
        assert(own.take(inputs + k) =~= own);
        n = n + 1;
    }
    endpoints
}

/// Whether two endpoints of one channel differ in their transport.
pub open spec fn mixed_transport(a: Iox2EndpointInfo, b: Iox2EndpointInfo) -> bool {
    a.channel@ == b.channel@ && a.kind.iox2() != b.kind.iox2()
}

/// Whether two data endpoints of one channel differ in their payload type.
pub open spec fn mixed_payload(a: Iox2EndpointInfo, b: Iox2EndpointInfo) -> bool {
    &&& a.channel@ == b.channel@
    &&& a.payload_type is Some
    &&& b.payload_type is Some
    &&& a.payload_type != b.payload_type
}

/// Whether endpoints `i` and `j` are of one channel and disagree.
pub open spec fn conflicts(endpoints: Seq<Iox2EndpointInfo>, i: int, j: int) -> bool {
    0 <= i < j < endpoints.len() && (mixed_transport(endpoints[i], endpoints[j]) || mixed_payload(
        endpoints[i],
        endpoints[j],
    ))
}

/// Whether `i` and `j` are the first endpoints that disagree, going through the
/// endpoints in order and for each through those before it.
pub open spec fn first_conflict(endpoints: Seq<Iox2EndpointInfo>, i: int, j: int) -> bool {
    &&& conflicts(endpoints, i, j)
    &&& forall|a: int, b: int|
        b < j || b == j && a < i ==> !#[trigger] conflicts(endpoints, a, b)
}

/// Whether `error` says of the first endpoints that disagree on which channel
/// and in what they do. A difference in the transport comes first.
pub open spec fn explains_conflict(
    error: TaskGraphBuildError,
    endpoints: Seq<Iox2EndpointInfo>,
) -> bool {
    exists|i: int, j: int| #[trigger]
        first_conflict(endpoints, i, j) && match error {
            TaskGraphBuildError::MixedTransport { channel } => mixed_transport(
                endpoints[i],
                endpoints[j],
            ) && channel@ == endpoints[i].channel@,
            TaskGraphBuildError::MixedPayloadType { channel } => !mixed_transport(
                endpoints[i],
                endpoints[j],
            ) && channel@ == endpoints[i].channel@,
            _ => false,
        }
}

/// Whether `context` holds the settings that the endpoints ask for, if one uses
/// the shared-memory transport.
pub open spec fn is_context_of(
    context: Option<Iox2Context>,
    config: Iox2GraphConfig,
    endpoints: Seq<Iox2EndpointInfo>,
) -> bool {
    &&& context is Some <==> uses_iox2(endpoints)
    &&& context matches Some(context) ==> {
        &&& context.wf()
        &&& context.namespace == config.namespace
        &&& context.node_name == config.node_name
        &&& forall|channel: Seq<char>| #[trigger]
            context.pubsub_settings.at(channel) == pubsub_needs(
                aggregated(endpoints, channel, endpoints.len() as int),
                standard_defaults(),
            )
        &&& forall|channel: Seq<char>| #[trigger]
            context.event_settings.at(channel) == event_needs(
                aggregated(endpoints, channel, endpoints.len() as int),
                standard_defaults(),
            )
    }
}

/// Checks that the endpoints of each channel agree: native and shared-memory
/// endpoints cannot share a channel, and data endpoints have one payload type.
pub fn validate_endpoints(endpoints: &Vec<Iox2EndpointInfo>) -> (r: Result<(), TaskGraphBuildError>)
    ensures
        r is Ok <==> forall|i: int, j: int| !#[trigger] conflicts(endpoints@, i, j),
        r matches Err(error) ==> explains_conflict(error, endpoints@),
{
    let mut j: usize = 0;
    while j < endpoints.len()
        invariant
            j <= endpoints@.len(),
            forall|a: int, b: int| b < j ==> !#[trigger] conflicts(endpoints@, a, b),
        decreases endpoints@.len() - j,
    {
        let mut i: usize = 0;
        while i < j
            invariant
                i <= j < endpoints@.len(),
                forall|a: int, b: int|
                    b < j || b == j && a < i ==> !#[trigger] conflicts(endpoints@, a, b),
            decreases j - i,
        {
            if endpoints[i].channel == endpoints[j].channel {
                if endpoints[i].kind.is_iox2() != endpoints[j].kind.is_iox2() {
                    assert(first_conflict(endpoints@, i as int, j as int));
                    return Err(
                        TaskGraphBuildError::MixedTransport { channel: endpoints[i].channel.clone() },
                    );
                }
                if let (Some(a), Some(b)) = (endpoints[i].payload_type, endpoints[j].payload_type) {
                    if a != b {
                        assert(first_conflict(endpoints@, i as int, j as int));
                        return Err(
                            TaskGraphBuildError::MixedPayloadType {
                                channel: endpoints[i].channel.clone(),
                            },
                        );
                    }
                }
            }
            i = i + 1;
        }
        j = j + 1;
    }
    Ok(())
}

/// Declared notification ids are accepted: the event service of a channel
/// takes the id of each of its notifiers.
pub proof fn law_declared_event_ids_are_accepted(
    endpoints: Seq<Iox2EndpointInfo>,
    i: int,
    n: int,
)
    requires
        0 <= i < n <= endpoints.len(),
        endpoints.len() <= usize::MAX,
        capacities_fit(endpoints),
        endpoints[i].kind is Iox2Notifier,
    ensures
        event_needs(aggregated(endpoints, endpoints[i].channel@, n), standard_defaults()) is Some,
        event_needs(
            aggregated(endpoints, endpoints[i].channel@, n),
            standard_defaults(),
        )->0.event_id_max_value >= endpoints[i].kind->Iox2Notifier_event_id,
    decreases n,
{
    lemma_aggregated_bounds(endpoints, endpoints[i].channel@, n - 1);
    if i < n - 1 {
        law_declared_event_ids_are_accepted(endpoints, i, n - 1);
    }
}

/// Each data input gets the buffer it asks for.
pub proof fn law_declared_capacities_are_granted(
    endpoints: Seq<Iox2EndpointInfo>,
    i: int,
    n: int,
)
    requires
        0 <= i < n <= endpoints.len(),
        endpoints.len() <= usize::MAX,
        capacities_fit(endpoints),
        endpoints[i].kind is Iox2DataSub,
    ensures
        pubsub_needs(aggregated(endpoints, endpoints[i].channel@, n), standard_defaults()) is Some,
        pubsub_needs(
            aggregated(endpoints, endpoints[i].channel@, n),
            standard_defaults(),
        )->0.subscriber_max_buffer_size >= endpoints[i].kind->Iox2DataSub_capacity,
    decreases n,
{
    lemma_aggregated_bounds(endpoints, endpoints[i].channel@, n - 1);
    if i < n - 1 {
        law_declared_capacities_are_granted(endpoints, i, n - 1);
    }
}

/// The same channel can coexist under different namespaces: its services have
/// different names.
pub proof fn law_namespaces_keep_channels_apart(
    a: Option<String>,
    b: Option<String>,
    channel: Seq<char>,
)
    requires
        match (a, b) {
            (Some(x), Some(y)) => x@ != y@,
            (Some(_), None) => true,
            (None, Some(_)) => true,
            (None, None) => false,
        },
    ensures
        full_name(a, channel) != full_name(b, channel),
{
    reveal_strlit("/");
    match (a, b) {
        (Some(x), Some(y)) => {
            let m = full_name(a, channel);
            let n = full_name(b, channel);
            assert(m.len() == x@.len() + 1 + channel.len());
            assert(n.len() == y@.len() + 1 + channel.len());
            if m == n {
                assert(m.take(x@.len() as int) =~= x@);
                assert(n.take(y@.len() as int) =~= y@);
            }
        },
        _ => {},
    }
}

/// Within one namespace different channels have different service names.
pub proof fn law_channels_have_their_own_services(
    namespace: Option<String>,
    a: Seq<char>,
    b: Seq<char>,
)
    requires
        a != b,
    ensures
        full_name(namespace, a) != full_name(namespace, b),
{
    match namespace {
        Some(prefix) => {
            let m = full_name(namespace, a);
            let n = full_name(namespace, b);
            let k = (prefix@ + "/"@).len() as int;
            if m == n {
                assert(m.skip(k) =~= a);
                assert(n.skip(k) =~= b);
            }
        },
        None => {},
    }
}

/// It does not matter in which order the endpoints of a channel are listed:
/// two that disagree do so either way round.
pub proof fn law_conflicts_go_both_ways(a: Iox2EndpointInfo, b: Iox2EndpointInfo)
    ensures
        mixed_transport(a, b) == mixed_transport(b, a),
        mixed_payload(a, b) == mixed_payload(b, a),
{
}

} // verus!
