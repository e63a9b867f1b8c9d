use cfw::callback::{AnyCallback, AnyDuration, CallbackNode, PublisherPort, SubscriberPort};
use cfw::channel_map::ChannelMap;
use cfw::connect_graph::connect_callback_nodes;
use cfw::generic_subscriber::GenericSubscriber;
use cfw::iox2::{validate_endpoints, Iox2Context, Iox2GraphConfig};
use cfw::iox2_data::{
    Iox2OptionalInput, Iox2Output, Iox2Publisher, Iox2SendAction, Iox2Subscriber, Received,
};
use cfw::iox2_event::{
    EventRecord, Iox2Event, Iox2EventSubscriber, Iox2Notifier, Iox2NotifyOutput,
};
use cfw::message::MessageHeader;
use cfw::pub_sub_factory::{EndpointKind, Iox2EndpointInfo};
use cfw::publisher::PublisherConfig;
use cfw::readiness::{CallbackNodeReadiness, SubscriberReadiness};
use cfw::scheduling::CallbackNodeId;
use cfw::simulation::StepError;
use cfw::simulation_iox2::{
    after_registration_step, fold_activations, register_simulation_iox2_inputs,
    registration_error, Dispatch, Iox2InputError, Iox2SimulationState, NodeInputs,
    RegistrationStep,
};
use cfw::subscriber::SubscriberConfig;
use cfw::task_graph_builder::{TaskGraphBuildError, TaskGraphBuilder};
use cfw::test_tasks::NoOpCallback;
use cfw::time::{Duration, FrameworkTime};

const U64_TYPE: u64 = 64;
const U32_TYPE: u64 = 32;

fn iox2_subscriber_config(name: &str, capacity: usize) -> SubscriberConfig {
    SubscriberConfig {
        is_optional: true,
        capacity,
        is_trigger: true,
        keep_across_runs: true,
        channel_name: name.to_string(),
    }
}

fn iox2_publisher_config(name: &str) -> PublisherConfig {
    PublisherConfig {
        capacity: 1,
        channel_name: name.to_string(),
    }
}

fn subscriber(name: &str) -> Iox2EventSubscriber {
    Iox2EventSubscriber::new(iox2_subscriber_config(name, 4))
}

fn record(event_id: usize, count: u64) -> EventRecord {
    EventRecord { event_id, count }
}

fn at(nanoseconds: i64) -> FrameworkTime {
    FrameworkTime::from_nanoseconds(nanoseconds)
}

/// Staging drain moves the complete batch and clears the previous run's records.
#[test]
fn iox2_event_staging_drains_all_and_clears() {
    let mut sub = subscriber("staging_clear");
    let records = (0..3).map(|id| record(id, 1)).collect();
    sub.inject_events(&records, &vec![]);
    assert_eq!(sub.queue_info().writer_size, 3);
    sub.drain_writer_to_reader();
    assert_eq!(sub.queue_info().reader_size, 3);
    sub.drain_writer_to_reader();
    assert_eq!(sub.queue_info().reader_size, 0);
}

/// Event views sum counts and preserve record order.
#[test]
fn iox2_event_staging_counts_and_records() {
    let mut sub = subscriber("staging_records");
    sub.inject_events(&vec![record(2, 3), record(7, 5)], &vec![]);
    sub.drain_writer_to_reader();
    let view = Iox2Event::new(&sub);
    assert_eq!(view.count(), 8);
    assert_eq!(view.records(), vec![(2, 3), (7, 5)]);
}

/// Deposits made by distinct producer passes are visible together in one run.
#[test]
fn iox2_event_staging_multi_injection_aggregates() {
    let mut sub = subscriber("staging_multi");
    sub.inject_events(&vec![record(1, 4)], &vec![]);
    sub.inject_events(&vec![record(2, 6)], &vec![]);
    sub.drain_writer_to_reader();
    assert_eq!(Iox2Event::new(&sub).count(), 10);
}

/// Staged events request startup execution; draining clears the pending request.
#[test]
fn iox2_event_staging_requests_execution_tracks_queue() {
    let mut sub = subscriber("staging_startup");
    assert!(!sub.requests_execution());
    sub.inject_events(&vec![record(0, 1)], &vec![]);
    assert!(sub.requests_execution());
    sub.drain_writer_to_reader();
    assert!(!sub.requests_execution());
}

/// A node without a callback of its own, whose runs take no time.
fn node_with(
    name: &str,
    subscribers: Vec<SubscriberPort>,
    publishers: Vec<PublisherPort>,
) -> CallbackNode<u64> {
    let callback = AnyCallback {
        inner: Box::new(NoOpCallback {}),
    };
    let mut node = CallbackNode::new_with(callback, subscribers, publishers, name.to_string());
    node.set_execution_duration_callback(AnyDuration::fixed(Duration::from_nanos(0)));
    node
}

/// Event notifications wait for required inputs, and later event arrivals nudge
/// a ready node.
#[test]
fn iox2_event_staging_gating_respects_required_inputs() {
    let required = SubscriberPort {
        config: SubscriberConfig {
            is_optional: false,
            capacity: 1,
            is_trigger: true,
            keep_across_runs: true,
            channel_name: "required_native".to_string(),
        },
        value_type: U64_TYPE,
    };
    let mut event = subscriber("optional_event");
    let mut nodes = vec![node_with("gated_event", vec![required], vec![])];
    let mut system = connect_callback_nodes(&mut nodes).unwrap();
    assert_eq!(
        nodes[0].register_with_executor(&mut system, CallbackNodeId(3)),
        None
    );
    event.set_readiness_state(SubscriberReadiness::OptionalTrigger(nodes[0].ports.readiness));
    assert_eq!(
        event.inject_events(&vec![record(1, 1)], &system.readiness),
        None,
        "event alone cannot bypass the required input gate"
    );
    match system.subscribers[nodes[0].ports.first_subscriber].readiness_state {
        Some(SubscriberReadiness::Gating(readiness, bit)) => assert_eq!(
            system.readiness[readiness].set_bit(bit),
            Some(CallbackNodeId(3))
        ),
        _ => panic!("required input must own a gating bit"),
    }
    assert_eq!(
        event.inject_events(&vec![record(2, 1)], &system.readiness),
        Some(CallbackNodeId(3)),
        "a later event nudges the ready node"
    );
    assert!(event.requests_execution());
    event.drain_writer_to_reader();
    assert!(!event.requests_execution());
}

#[test]
fn an_injector_stages_events_for_its_input() {
    let mut event = subscriber("injected");
    let readiness = vec![CallbackNodeReadiness::new(0)];
    assert_eq!(event.injector().notify(4, 2, &readiness), None);
    assert!(event.requests_execution());
    event.drain_writer_to_reader();
    assert_eq!(Iox2Event::new(&event).records(), vec![(4, 2)]);
}

#[test]
fn a_burst_of_events_keeps_the_newest() {
    let mut sub = Iox2EventSubscriber::new(iox2_subscriber_config("burst", 2));
    sub.stage_all(&vec![record(1, 1), record(2, 1), record(3, 1)]);
    sub.drain_writer_to_reader();
    assert_eq!(Iox2Event::new(&sub).records(), vec![(2, 1), (3, 1)]);
    sub.stage(record(9, 1));
    sub.cleanup_buffers();
    assert_eq!(sub.queue_info().writer_size, 0);
    assert_eq!(sub.queue_info().reader_size, 0);
}

/// A notifier asks for its notification once per flush.
#[test]
fn iox2_notifier_notifies_through_graph() {
    let mut notifier = Iox2Notifier::new(iox2_publisher_config("stage3_notifier_graph"));
    assert!(!notifier.flush_loaned_values());
    Iox2NotifyOutput::new(&mut notifier).send();
    assert!(notifier.flush_loaned_values());
    assert!(!notifier.flush_loaned_values());
    let endpoint = notifier.endpoint();
    assert_eq!(endpoint.channel, "stage3_notifier_graph");
    assert_eq!(endpoint.kind, EndpointKind::Iox2Notifier { event_id: 0 });
    assert_eq!(endpoint.payload_type, None);
}

/// An event-only graph opens its declared event service.
#[test]
fn iox2_event_subscriber_opens_service() {
    let channel = "stage3_event_sub_open";
    let built = TaskGraphBuilder::new()
        .add_pool(1, |pool| {
            pool.add_callback(node_with("event_sub", vec![], vec![]))
        })
        .add_iox2_endpoint(subscriber(channel).endpoint())
        .build();
    let built = built.unwrap_or_else(|_| panic!("event input graph builds"));
    let context = built.iox2_context.unwrap();
    let (name, settings) = context.event_service(channel).unwrap();
    assert_eq!(name, channel);
    assert_eq!(settings.unwrap().event_id_max_value, 0);
}

fn info(channel: &str, kind: EndpointKind, payload_type: Option<u64>) -> Iox2EndpointInfo {
    Iox2EndpointInfo {
        channel: channel.to_string(),
        kind,
        payload_type,
    }
}

/// A declared data channel creates graph-scoped publish-subscribe settings and
/// node state.
#[test]
fn context_aggregates_data_settings() {
    let endpoints = vec![
        info(
            "stage2_context_settings",
            EndpointKind::Iox2DataSub { capacity: 3 },
            Some(U64_TYPE),
        ),
        info(
            "stage2_context_settings",
            EndpointKind::Iox2DataPub {
                capacity: 2,
                notify_on_send: false,
                event_id: 0,
            },
            Some(U64_TYPE),
        ),
    ];
    let context = Iox2Context::from_endpoints(&Iox2GraphConfig::default(), &endpoints)
        .unwrap()
        .unwrap();
    let settings = context.pubsub_settings("stage2_context_settings").unwrap();
    assert_eq!(settings.subscriber_max_buffer_size, 3);
    assert_eq!(settings.subscriber_max_borrowed_samples, 6);
    assert!(settings.enable_safe_overflow);
    assert_eq!(settings.max_publishers, 2);
    assert_eq!(settings.max_subscribers, 8);
    assert_eq!(settings.max_nodes, 20);
    assert!(!context
        .event_settings
        .contains(&"stage2_context_settings".to_string()));
}

/// Namespace prefixes are included in service-name validation diagnostics.
#[test]
fn namespace_prefix_is_applied_before_name_validation() {
    let channel = "x".repeat(255);
    let endpoints = vec![info(
        &channel,
        EndpointKind::Iox2DataSub { capacity: 1 },
        Some(U64_TYPE),
    )];
    let context = Iox2Context::from_endpoints(
        &Iox2GraphConfig {
            namespace: Some("stage2_prefix".to_string()),
            node_name: None,
        },
        &endpoints,
    )
    .unwrap()
    .unwrap();
    let result = context.service_name(&channel);
    assert!(
        matches!(result, Err(TaskGraphBuildError::InvalidServiceName { channel: ref value, .. }) if value == &channel)
    );
}

#[test]
fn service_names_are_checked() {
    let endpoints = vec![info("ok", EndpointKind::Iox2EventSub, None)];
    let context = Iox2Context::from_endpoints(&Iox2GraphConfig::default(), &endpoints)
        .unwrap()
        .unwrap();
    assert_eq!(context.service_name("ok").unwrap(), "ok");
    assert_eq!(context.service_name(&"x".repeat(255)).unwrap().len(), 255);
    for bad in ["", "iox2://internal", "nul\0", "gr\u{fc}n"] {
        assert!(matches!(
            context.service_name(bad),
            Err(TaskGraphBuildError::InvalidServiceName { .. })
        ));
    }
    assert!(matches!(
        context.service_name(&"x".repeat(256)),
        Err(TaskGraphBuildError::InvalidServiceName { .. })
    ));
}

#[test]
fn node_names_are_checked() {
    let endpoints = vec![info("ok", EndpointKind::Iox2EventSub, None)];
    let named = |name: String| {
        Iox2Context::from_endpoints(
            &Iox2GraphConfig {
                namespace: None,
                node_name: Some(name),
            },
            &endpoints,
        )
    };
    let context = named("n".repeat(128)).unwrap().unwrap();
    assert_eq!(context.node_name, Some("n".repeat(128)));
    assert!(matches!(
        named("n".repeat(129)),
        Err(TaskGraphBuildError::Iox2NodeCreation { .. })
    ));
    assert!(matches!(
        named("nul\0".to_string()),
        Err(TaskGraphBuildError::Iox2NodeCreation { .. })
    ));
}

#[test]
fn namespaces_keep_equal_channels_apart() {
    let name = |namespace: Option<&str>| {
        let config = Iox2GraphConfig {
            namespace: namespace.map(str::to_string),
            node_name: None,
        };
        let endpoints = vec![info("shared", EndpointKind::Iox2EventSub, None)];
        let context = Iox2Context::from_endpoints(&config, &endpoints);
        context.unwrap().unwrap().service_name("shared").unwrap()
    };
    assert_eq!(name(None), "shared");
    assert_eq!(name(Some("left")), "left/shared");
    assert_eq!(name(Some("right")), "right/shared");
}

#[test]
fn a_native_graph_needs_no_context() {
    let endpoints = vec![info("native", EndpointKind::NativePub, Some(U64_TYPE))];
    assert!(
        Iox2Context::from_endpoints(&Iox2GraphConfig::default(), &endpoints)
            .unwrap()
            .is_none()
    );
}

/// Declared notifier ids set the inclusive event service maximum.
#[test]
fn notifier_event_limit_includes_declared_id() {
    let endpoints = vec![info(
        "stage2_event_limit",
        EndpointKind::Iox2Notifier { event_id: 17 },
        None,
    )];
    let context = Iox2Context::from_endpoints(&Iox2GraphConfig::default(), &endpoints)
        .unwrap()
        .unwrap();
    let settings = context
        .event_settings
        .get(&"stage2_event_limit".to_string())
        .unwrap();
    assert_eq!(settings.event_id_max_value, 17);
    assert_eq!(settings.max_notifiers, 16);
    assert_eq!(settings.max_listeners, 16);
    assert_eq!(settings.max_nodes, 36);
}

/// Event and publish-subscribe settings are independently aggregated for the
/// same name.
#[test]
fn data_and_event_settings_coexist_under_one_channel_name() {
    let endpoints = vec![
        info(
            "stage2_coexist",
            EndpointKind::Iox2DataPub {
                capacity: 1,
                notify_on_send: true,
                event_id: 4,
            },
            Some(U64_TYPE),
        ),
        info(
            "stage2_coexist",
            EndpointKind::Iox2DataSub { capacity: 1 },
            Some(U64_TYPE),
        ),
    ];
    let context = Iox2Context::from_endpoints(&Iox2GraphConfig::default(), &endpoints)
        .unwrap()
        .unwrap();
    let channel = "stage2_coexist".to_string();
    assert!(context.pubsub_settings.contains(&channel));
    assert_eq!(
        context.event_settings.get(&channel).unwrap().event_id_max_value,
        4
    );
}

struct CountingProducer {
    publisher: Iox2Publisher<u64>,
    next: u64,
}

impl CountingProducer {
    fn new(channel: &str) -> Self {
        CountingProducer {
            publisher: Iox2Publisher::new(iox2_publisher_config(channel), U64_TYPE),
            next: 1,
        }
    }

    /// Publishes `count` numbers, each with a flush of its own.
    fn run(&mut self, count: usize, now: FrameworkTime) -> Vec<Iox2SendAction<u64>> {
        let mut actions = Vec::new();
        for _ in 0..count {
            let mut output = Iox2Output::new_default(&mut self.publisher);
            *output.value_mut() = self.next;
            self.next += 1;
            output.send();
            actions.append(&mut self.publisher.flush_loaned_values(now));
        }
        actions
    }
}

/// Hands the sent samples to the consumer, as its port would.
fn deliver(actions: Vec<Iox2SendAction<u64>>, consumer: &mut Iox2Subscriber<u64>) {
    for action in actions {
        if let Iox2SendAction::Send(sample) = action {
            assert!(consumer.receive(Received::Sample(sample)));
        }
    }
    assert!(!consumer.receive(Received::Empty));
}

fn drain_consumer(consumer: &mut Iox2Subscriber<u64>) -> (Option<u64>, Option<MessageHeader>) {
    let input = Iox2OptionalInput::new(consumer);
    (input.value().copied(), input.header())
}

/// A publish, flush, drain, and read cycle round-trips the payload and carries
/// the flush-time timestamp in the header.
#[test]
fn iox2_roundtrip_publishes_and_reads() {
    let mut producer = CountingProducer::new("stage2_roundtrip");
    let mut consumer: Iox2Subscriber<u64> =
        Iox2Subscriber::new(iox2_subscriber_config("stage2_roundtrip", 1), U64_TYPE);
    let actions = producer.run(1, at(77));
    assert!(matches!(actions[1], Iox2SendAction::Notify));
    deliver(actions, &mut consumer);
    let (value, header) = drain_consumer(&mut consumer);
    assert_eq!(value, Some(1));
    assert_eq!(header, Some(MessageHeader::new(at(77))));
}

/// With a capacity-one consumer, samples published between drains evict down
/// to the newest, and a following publish succeeds.
#[test]
fn iox2_eviction_keeps_newest_and_recycles_samples() {
    let mut producer = CountingProducer::new("stage2_eviction");
    let mut consumer: Iox2Subscriber<u64> =
        Iox2Subscriber::new(iox2_subscriber_config("stage2_eviction", 1), U64_TYPE);
    deliver(producer.run(3, at(77)), &mut consumer);
    let (value, _) = drain_consumer(&mut consumer);
    assert_eq!(value, Some(3), "newest sample should survive eviction");
    deliver(producer.run(1, at(77)), &mut consumer);
    let (value, _) = drain_consumer(&mut consumer);
    assert_eq!(value, Some(4));
}

/// Native and iox2 endpoints cannot share a channel, in either direction.
#[test]
fn iox2_mixed_transport_rejected_both_directions() {
    let channel = "stage2_mixed";
    let native_output = PublisherPort {
        config: iox2_publisher_config(channel),
        value_type: U64_TYPE,
        forwarded_channels: vec![],
    };
    let iox2_consumer: Iox2Subscriber<u64> =
        Iox2Subscriber::new(iox2_subscriber_config(channel, 1), U64_TYPE);
    let native_pub_graph = TaskGraphBuilder::new()
        .add_pool(1, |pool| {
            pool.add_callback(node_with("native_producer", vec![], vec![native_output]))
                .add_callback(node_with("iox2_consumer", vec![], vec![]))
        })
        .add_iox2_endpoint(iox2_consumer.endpoint())
        .build();
    assert!(
        matches!(native_pub_graph, Err(TaskGraphBuildError::MixedTransport { channel: ref c }) if c == channel)
    );

    let native_input = SubscriberPort {
        config: SubscriberConfig {
            is_optional: true,
            capacity: 1,
            is_trigger: false,
            keep_across_runs: true,
            channel_name: channel.to_string(),
        },
        value_type: U64_TYPE,
    };
    let iox2_producer: Iox2Publisher<u64> =
        Iox2Publisher::new(iox2_publisher_config(channel), U64_TYPE);
    let iox2_pub_graph = TaskGraphBuilder::new()
        .add_pool(1, |pool| {
            pool.add_callback(node_with("iox2_producer", vec![], vec![]))
                .add_callback(node_with("native_consumer", vec![native_input], vec![]))
        })
        .add_iox2_endpoint(iox2_producer.endpoint())
        .build();
    assert!(
        matches!(iox2_pub_graph, Err(TaskGraphBuildError::MixedTransport { channel: ref c }) if c == channel)
    );
}

/// Data endpoints on one channel must agree on the payload type.
#[test]
fn iox2_mixed_payload_type_rejected() {
    let channel = "stage2_mixed_payload";
    let producer: Iox2Publisher<u64> = Iox2Publisher::new(iox2_publisher_config(channel), U64_TYPE);
    let consumer: Iox2Subscriber<u32> =
        Iox2Subscriber::new(iox2_subscriber_config(channel, 1), U32_TYPE);
    let graph = TaskGraphBuilder::new()
        .add_pool(1, |pool| {
            pool.add_callback(node_with("producer", vec![], vec![]))
                .add_callback(node_with("consumer", vec![], vec![]))
        })
        .add_iox2_endpoint(producer.endpoint())
        .add_iox2_endpoint(consumer.endpoint())
        .build();
    assert!(
        matches!(graph, Err(TaskGraphBuildError::MixedPayloadType { channel: ref c }) if c == channel)
    );
    let narrow: Iox2Subscriber<u64> =
        Iox2Subscriber::new(iox2_subscriber_config(channel, 1), U32_TYPE);
    assert!(producer.connect_to_subscriber(&narrow).is_err());
    let matching = producer.build_matching_subscriber(iox2_subscriber_config(channel, 1));
    assert!(producer.connect_to_subscriber(&matching).is_ok());
}

/// The first endpoints that disagree are named.
#[test]
fn the_first_conflict_is_named() {
    let endpoints = vec![
        info("a", EndpointKind::NativePub, None),
        info("b", EndpointKind::Iox2DataSub { capacity: 1 }, Some(U64_TYPE)),
        info("b", EndpointKind::Iox2DataSub { capacity: 1 }, Some(U32_TYPE)),
        info("a", EndpointKind::Iox2EventSub, None),
    ];
    assert!(matches!(
        validate_endpoints(&endpoints),
        Err(TaskGraphBuildError::MixedPayloadType { channel: ref c }) if c == "b"
    ));
}

/// A graph whose node cannot get its name is not built.
#[test]
fn a_refused_node_name_ends_the_build() {
    let graph = TaskGraphBuilder::new()
        .with_iox2_config(Iox2GraphConfig {
            namespace: None,
            node_name: Some("x".repeat(1000)),
        })
        .add_pool(1, |pool| {
            pool.add_callback(node_with("event_sub", vec![], vec![]))
        })
        .add_iox2_endpoint(subscriber("events").endpoint())
        .build();
    assert!(matches!(
        graph,
        Err(TaskGraphBuildError::Iox2NodeCreation { .. })
    ));
}

/// A namespaced graph opens namespaced service names, so the same channel can
/// coexist under different namespaces.
#[test]
fn iox2_namespaced_graph_roundtrips() {
    let producer = CountingProducer::new("stage2_namespaced");
    let consumer: Iox2Subscriber<u64> =
        Iox2Subscriber::new(iox2_subscriber_config("stage2_namespaced", 1), U64_TYPE);
    let built = TaskGraphBuilder::new()
        .with_iox2_config(Iox2GraphConfig {
            namespace: Some("stage2_namespace".to_string()),
            node_name: None,
        })
        .add_pool(1, |pool| {
            pool.add_callback(node_with("producer", vec![], vec![]))
                .add_callback(node_with("consumer", vec![], vec![]))
        })
        .add_iox2_endpoint(producer.publisher.endpoint())
        .add_iox2_endpoint(consumer.endpoint())
        .build();
    let built = built.unwrap_or_else(|_| panic!("iox2 producer/consumer graph should build"));
    let context = built.iox2_context.unwrap();
    let output = producer.publisher.iox2_open(&context).unwrap();
    let input = consumer.iox2_open(&context).unwrap();
    assert_eq!(output.service_name, "stage2_namespace/stage2_namespaced");
    assert_eq!(input.service_name, output.service_name);
    assert_eq!(input.settings, output.settings);
    assert_eq!(output.notifier.unwrap().service_name, input.service_name);
    assert!(input.notifier.is_none());
}

/// Each message is drained exactly once.
#[test]
fn iox2_serializer_drains_each_message_once() {
    let mut producer = CountingProducer::new("stage2_serializer");
    let mut consumer: Iox2Subscriber<u64> =
        Iox2Subscriber::new(iox2_subscriber_config("stage2_serializer", 4), U64_TYPE);
    let mut serialized = 0;
    for _ in 0..3 {
        deliver(producer.run(1, at(77)), &mut consumer);
        let mut input = Iox2OptionalInput::new(&mut consumer);
        while input.guard.front().is_some() {
            input.guard.pop_front();
            serialized += 1;
        }
    }
    assert_eq!(
        serialized, 3,
        "each published message serialized exactly once"
    );
}

/// The event id equal to the service's configured maximum is accepted.
#[test]
fn iox2_event_boundary_id_is_inclusive() {
    let endpoints = vec![info(
        "stage2_event_boundary",
        EndpointKind::Iox2Notifier { event_id: 17 },
        None,
    )];
    let context = Iox2Context::from_endpoints(&Iox2GraphConfig::default(), &endpoints)
        .unwrap()
        .unwrap();
    let (_, settings) = context
        .event_service("stage2_event_boundary")
        .expect("event service opens");
    assert!(17 <= settings.unwrap().event_id_max_value);
}

#[test]
fn failed_receives_are_counted() {
    let mut consumer: Iox2Subscriber<u64> =
        Iox2Subscriber::new(iox2_subscriber_config("failing", 2), U64_TYPE);
    assert!(!consumer.receive(Received::Failed));
    assert_eq!(consumer.receive_errors, 1);
    assert_eq!(consumer.queue_info(true).writer_size, 1);
    assert_eq!(consumer.queue_info(false).writer_size, 0);
    let mut input = Iox2OptionalInput::new(&mut consumer);
    assert_eq!(input.value(), None);
    input.clear();
}

fn event_state(channels: &[&str]) -> Iox2SimulationState<u64> {
    let mut data = ChannelMap::new();
    data.insert("data".to_string(), U64_TYPE);
    Iox2SimulationState::new(
        channels.iter().map(|name| subscriber(name)).collect(),
        data,
    )
}

fn scheduled_run() -> (Vec<(String, i64, u64)>, Vec<(usize, u64)>) {
    let mut state = event_state(&["events"]);
    state
        .schedule_iox2_data(at(20), "data", 2, U64_TYPE)
        .unwrap();
    state
        .schedule_iox2_data(at(10), "data", 1, U64_TYPE)
        .unwrap();
    state
        .schedule_iox2_event(at(10), "events", 7, 3)
        .unwrap();
    state
        .schedule_iox2_data(at(10), "data", 9, U64_TYPE)
        .unwrap();
    let mut published = Vec::new();
    for now in [0, 10, 30] {
        for (channel, header, payload) in state.dispatch_due_inputs(at(now)) {
            published.push((channel, header.published_at.to_nanoseconds(), payload));
        }
    }
    let listener = &mut state.event_listeners[0];
    listener.drain_writer_to_reader();
    let events = Iox2Event::new(listener).records();
    (published, events)
}

#[test]
fn due_inputs_come_in_the_order_of_their_times() {
    let first = scheduled_run();
    assert_eq!(first, scheduled_run());
    assert_eq!(
        first.0,
        vec![
            ("data".to_string(), 10, 1),
            ("data".to_string(), 10, 9),
            ("data".to_string(), 20, 2),
        ]
    );
    assert_eq!(first.1, vec![(7, 3)]);
}

#[test]
fn inputs_wait_for_their_time() {
    let mut state = event_state(&["events"]);
    assert_eq!(state.next_input_time(at(0)), None);
    state
        .schedule_iox2_event(at(100), "events", 1, 1)
        .unwrap();
    assert_eq!(state.next_input_time(at(0)), Some(at(100)));
    assert_eq!(state.next_input_time(at(100)), None);
    assert!(matches!(state.dispatch_next(at(99)), Dispatch::Idle));
    assert!(matches!(state.dispatch_next(at(100)), Dispatch::Staged));
    assert!(matches!(state.dispatch_next(at(100)), Dispatch::Idle));
}

#[test]
fn unknown_inputs_are_refused() {
    let mut state = event_state(&["events"]);
    let error = state
        .schedule_iox2_data(at(1), "events", 1, U64_TYPE)
        .unwrap_err();
    assert!(matches!(error, Iox2InputError::UnknownDataChannel(_)));
    assert_eq!(
        error.to_string(),
        "no iox2 data input is registered for channel events"
    );
    let error = state
        .schedule_iox2_data(at(1), "data", 1, U32_TYPE)
        .unwrap_err();
    assert_eq!(
        error.to_string(),
        "iox2 data payload type does not match channel data"
    );
    let error = state.schedule_iox2_event(at(1), "data", 1, 1).unwrap_err();
    assert_eq!(
        error.to_string(),
        "no iox2 event input is registered for channel data"
    );
    assert!(state.scheduled_inputs.is_empty());
}

#[test]
fn polled_activations_are_folded_by_id() {
    let activations = vec![record(4, 1), record(2, 5), record(4, 2), record(2, u64::MAX)];
    assert_eq!(
        fold_activations(&activations),
        vec![record(4, 3), record(2, u64::MAX)]
    );
    let mut state = event_state(&["a", "b"]);
    state.poll_listener(1, &activations);
    assert_eq!(state.event_listeners[0].queue_info().writer_size, 0);
    assert_eq!(state.event_listeners[1].queue_info().writer_size, 2);
}

#[test]
fn each_data_channel_is_fed_once() {
    let nodes = vec![
        NodeInputs {
            name: "first".to_string(),
            inputs: vec![
                info("events", EndpointKind::Iox2EventSub, None),
                info(
                    "data",
                    EndpointKind::Iox2DataSub { capacity: 1 },
                    Some(U64_TYPE),
                ),
            ],
        },
        NodeInputs {
            name: "second".to_string(),
            inputs: vec![
                info("native", EndpointKind::NativeSub, Some(U64_TYPE)),
                info(
                    "data",
                    EndpointKind::Iox2DataSub { capacity: 2 },
                    Some(U64_TYPE),
                ),
                info("events", EndpointKind::Iox2EventSub, None),
            ],
        },
    ];
    assert_eq!(
        register_simulation_iox2_inputs(&nodes),
        vec![
            RegistrationStep::Listener { node: 0, input: 0 },
            RegistrationStep::Publisher { node: 0, input: 1 },
            RegistrationStep::Listener { node: 1, input: 2 },
        ]
    );
    let error = registration_error(
        RegistrationStep::Publisher { node: 0, input: 1 },
        "first",
        "no memory",
    );
    assert!(matches!(error, StepError::Iox2Input(ref text) if text == "node first: no memory"));
}

#[test]
fn the_first_failed_registration_ends_it() {
    let steps = vec![
        RegistrationStep::Listener { node: 0, input: 0 },
        RegistrationStep::Publisher { node: 1, input: 0 },
    ];
    assert_eq!(
        after_registration_step(&steps, 0, Ok(()), "first").ok(),
        Some(Some(steps[1]))
    );
    assert_eq!(
        after_registration_step(&steps, 1, Ok(()), "second").ok(),
        Some(None)
    );
    let error = after_registration_step(&steps, 0, Err("no memory".to_string()), "first").err();
    assert!(
        matches!(error, Some(StepError::Iox2Event(ref text)) if text == "node first: no memory")
    );
    let error = after_registration_step(&steps, 1, Err("no node".to_string()), "second").err();
    assert!(matches!(error, Some(StepError::Iox2Input(ref text)) if text == "node second: no node"));
}
