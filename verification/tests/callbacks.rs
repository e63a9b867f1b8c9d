use cfw::callback::{
    starting_subscriber_bitmask, AnyCallback, AnyDuration, AnySchedule, Callback, CallbackNode,
    InputKind, NodePorts, OutputKind, PublisherPort, Run, SubscriberPort,
};
use cfw::callback_builder::{CallbackBuildError, CallbackBuilder, ExpectedVsActual};
use cfw::channel_registry::ChannelRegistry;
use cfw::connect::find_forwarded_channel_usage;
use cfw::connect_graph::connect_callback_nodes;
use cfw::context::Context;
use cfw::generic_subscriber::GenericSubscriber;
use cfw::input::OptionalInput;
use cfw::output::Output;
use cfw::pub_sub::PubSub;
use cfw::publisher::PublisherConfig;
use cfw::readiness::{CallbackNodeReadiness, SubscriberReadiness};
use cfw::scheduling::CallbackNodeId;
use cfw::string_interner::StringInterner;
use cfw::subscriber::SubscriberConfig;
use cfw::test_tasks::NoOpCallback;
use cfw::time::{Duration, FrameworkTime};

const NUMBER: u64 = 1;

fn port(is_trigger: bool, is_optional: bool, capacity: usize, channel: &str) -> SubscriberPort {
    SubscriberPort {
        config: SubscriberConfig {
            is_optional,
            capacity,
            is_trigger,
            keep_across_runs: true,
            channel_name: channel.to_string(),
        },
        value_type: NUMBER,
    }
}

fn output(capacity: usize, channel: &str, forwarded: &[&str]) -> PublisherPort {
    PublisherPort {
        config: PublisherConfig {
            capacity,
            channel_name: channel.to_string(),
        },
        value_type: NUMBER,
        forwarded_channels: forwarded.iter().map(|name| name.to_string()).collect(),
    }
}

fn make_subscriber(is_trigger: bool, is_optional: bool) -> SubscriberPort {
    port(is_trigger, is_optional, 1, "")
}

fn compare_bitmask(subscribers: Vec<SubscriberPort>, expected: usize) {
    let actual = starting_subscriber_bitmask(&subscribers);
    assert_eq!(
        actual, expected,
        "Actual:{:064b} vs Expected:{:064b}",
        actual, expected
    );
}

fn node_with(
    subscribers: Vec<SubscriberPort>,
    publishers: Vec<PublisherPort>,
    name: &str,
) -> CallbackNode<u64> {
    CallbackNode::new_with(
        AnyCallback {
            inner: Box::new(NoOpCallback {}),
        },
        subscribers,
        publishers,
        name.to_string(),
    )
}

#[test]
fn test_two_trigger_subscribers_both_must_be_set() {
    let mut enqueue_count = 0;
    let initial =
        starting_subscriber_bitmask(&vec![port(true, false, 1, "a"), port(true, false, 1, "b")]);
    let mut readiness = CallbackNodeReadiness::new(initial);
    if readiness.register(CallbackNodeId(0)).is_some() {
        enqueue_count += 1;
    }

    // Only subscriber 0 is ready — should NOT enqueue yet
    if readiness.set_bit(0).is_some() {
        enqueue_count += 1;
    }
    assert_eq!(
        enqueue_count, 0,
        "should not enqueue after only one subscriber is ready"
    );

    // Now subscriber 1 is also ready — bitmask becomes MAX, should enqueue
    if readiness.set_bit(1).is_some() {
        enqueue_count += 1;
    }
    assert_eq!(
        enqueue_count, 1,
        "should enqueue once both subscribers are ready"
    );

    // Setting an already-set bit again should not double-enqueue
    if readiness.set_bit(0).is_some() {
        enqueue_count += 1;
    }
    assert_eq!(
        enqueue_count, 1,
        "should not enqueue again when bit is already set"
    );
}

struct LoopbackCallback {
    value_to_publish: u64,
    received: Vec<u64>,
}

impl Callback<u64> for LoopbackCallback {
    fn next_time(&self) -> Option<FrameworkTime> {
        None
    }

    fn wants_stop(&self) -> bool {
        false
    }

    fn run_generic(&mut self, system: &mut PubSub<u64>, ports: &NodePorts, _: &Context) -> Run {
        let input = OptionalInput::new(ports.subscriber(0));
        if let Some(msg) = input.value(system) {
            self.received.push(*msg);
        }
        let output = Output::new_default(system, ports.publisher(0), 0);
        *output.value_mut(system) = self.value_to_publish;
        output.send(system);
        self.value_to_publish += 1;
        Run::new(1)
    }

    fn register_channels(&self, _: &mut ChannelRegistry) {}

    fn build_subscribers(&self) -> Vec<SubscriberPort> {
        vec![port(false, true, 1, "loopback")]
    }

    fn build_publishers(&self) -> Vec<PublisherPort> {
        vec![output(1, "loopback", &[])]
    }
}

#[test]
fn test_loopback_self_subscribe() {
    let callback = LoopbackCallback {
        value_to_publish: 10,
        received: vec![],
    };
    let mut nodes = vec![CallbackNode::new_named(
        AnyCallback {
            inner: Box::new(callback),
        },
        "LoopbackCallback".to_string(),
    )];
    let mut system =
        connect_callback_nodes(&mut nodes).expect("loopback connection should succeed");

    let channels = StringInterner::new();
    let callbacks = StringInterner::new();
    let ctx = Context::new(FrameworkTime::from_nanoseconds(1), &channels, &callbacks);

    // Run 1: publishes 10, no loopback data yet (first run)
    nodes[0].run(&mut system, &ctx);
    nodes[0].flush_publishers(&mut system, ctx.now());

    // The published message should be in the subscriber's write buffer now
    nodes[0].drain_subscribers(&mut system);
    assert_eq!(*OptionalInput::new(0).value(&system).unwrap(), 10);

    // Run 2: should receive 10 from the loopback, publishes 11
    nodes[0].run(&mut system, &ctx);
    nodes[0].flush_publishers(&mut system, ctx.now());

    // After flush, the published message from run 2 is in the write buffer
    let sub_info = system.subscribers[0].queue_info();
    assert_eq!(
        sub_info.writer_size, 1,
        "loopback: published message should be in subscriber's write buffer"
    );

    nodes[0].drain_subscribers(&mut system);

    let sub_info = system.subscribers[0].queue_info();
    assert_eq!(
        sub_info.reader_size, 1,
        "loopback: message should have drained to read buffer"
    );
    assert_eq!(*OptionalInput::new(0).value(&system).unwrap(), 11);
}

#[test]
fn test_subscriber_bitmask() {
    // No subscribers → all bits 1 (nothing blocks us)
    compare_bitmask(vec![], usize::MAX);

    // One required trigger subscriber → bit 0 cleared
    compare_bitmask(vec![make_subscriber(true, false)], usize::MAX - 1);

    // Two required trigger subscribers → bits 0 and 1 cleared
    compare_bitmask(
        vec![make_subscriber(true, false), make_subscriber(true, false)],
        usize::MAX - 3,
    );

    // Optional trigger subscriber → bit stays at 1 (doesn't block)
    compare_bitmask(vec![make_subscriber(true, true)], usize::MAX);

    // Non-trigger required subscriber → bit stays at 1 (doesn't gate triggering)
    compare_bitmask(vec![make_subscriber(false, false)], usize::MAX);
}

#[test]
fn test_gating_bits_pack_densely_past_optional_subscribers() {
    compare_bitmask(
        vec![
            make_subscriber(true, true),  // optional trigger — no bit
            make_subscriber(true, false), // gating → bit 0
            make_subscriber(false, true), // optional non-trigger — no bit
            make_subscriber(true, false), // gating → bit 1
        ],
        usize::MAX - 3,
    );
}

#[test]
fn test_more_than_bitwidth_optional_subscribers_is_allowed() {
    let subscribers = (0..(std::mem::size_of::<usize>() * 8 + 1))
        .map(|_| make_subscriber(false, true))
        .collect::<Vec<_>>();
    compare_bitmask(subscribers, usize::MAX);
}

#[test]
fn test_optional_subscriber_drain_does_not_block_retriggering() {
    let mut nodes = vec![node_with(
        vec![
            port(true, false, 1, "required"),
            port(false, true, 1, "optional"),
        ],
        vec![],
        "mixed",
    )];
    let mut system = connect_callback_nodes(&mut nodes).unwrap();
    let node = &nodes[0];
    let mut enqueue_count = 0;
    if node
        .register_with_executor(&mut system, CallbackNodeId(0))
        .is_some()
    {
        enqueue_count += 1;
    }
    let (readiness, bit) = match system.subscribers[0].readiness_state {
        Some(SubscriberReadiness::Gating(readiness, bit)) => (readiness, bit),
        _ => panic!("gating subscriber should have readiness state"),
    };
    assert!(
        system.subscribers[1].readiness_state.is_none(),
        "optional subscriber should have no readiness state"
    );

    if system.readiness[readiness].set_bit(bit).is_some() {
        enqueue_count += 1;
    }
    assert_eq!(
        enqueue_count, 1,
        "first data arrival should enqueue the node"
    );

    node.drain_subscribers(&mut system);

    if system.readiness[readiness].set_bit(bit).is_some() {
        enqueue_count += 1;
    }
    assert_eq!(
        enqueue_count, 2,
        "node must re-trigger after optional subscriber drains"
    );
}

#[test]
fn test_forwarded_channel_usage_accounts_for_write_and_read_buffers() {
    const FORWARDED: &str = "forwarded";
    let nodes = vec![
        node_with(vec![], vec![output(1, FORWARDED, &[FORWARDED])], "Forwarder"),
        node_with(vec![port(true, true, 4, FORWARDED)], vec![], "Receiver4"),
        node_with(vec![port(true, true, 3, FORWARDED)], vec![], "Receiver3"),
    ];

    let usage = find_forwarded_channel_usage(&nodes);
    assert_eq!(usage.len(), 1);
    assert_eq!(usage[0].channel_name, FORWARDED);
    assert_eq!(
        usage[0].usage,
        2 * 4 + 2 * 3,
        "each subscriber contributes 2 * capacity (write + read buffers)"
    );
}

#[test]
fn ports_are_found_by_channel() {
    let mut node = node_with(
        vec![port(true, false, 1, "a"), port(true, false, 2, "b")],
        vec![output(1, "c", &[])],
        "node",
    );
    node.find_subscriber_mut("b").unwrap().config.capacity = 5;
    assert_eq!(node.subscribers()[1].config.capacity, 5);
    assert_eq!(node.subscribers()[0].config.capacity, 1);
    assert!(node.find_subscriber_mut("c").is_none());
    node.find_publisher_mut("c").unwrap().config.capacity = 7;
    assert_eq!(node.publishers()[0].config.capacity, 7);
    assert!(node.find_publisher_mut("a").is_none());
}

#[test]
fn kinds_of_ports_have_their_configurations() {
    let required = InputKind::Required.subscriber_config("r".to_string());
    assert!(!required.is_optional && required.is_trigger && required.capacity == 1);
    assert_eq!(required.arena_footprint(), 3);
    let optional = InputKind::Optional.subscriber_config("o".to_string());
    assert!(optional.is_optional && optional.capacity == 1);
    let span = InputKind::Span.subscriber_config("s".to_string());
    assert!(span.is_optional && span.capacity == 4);
    assert_eq!(
        OutputKind::Default
            .publisher_config("p".to_string())
            .channel_name,
        "p"
    );
}

struct DummyCallback {
    num_subscribers: usize,
    num_publishers: usize,
}

impl Callback<u64> for DummyCallback {
    fn next_time(&self) -> Option<FrameworkTime> {
        None
    }

    fn wants_stop(&self) -> bool {
        false
    }

    fn run_generic(&mut self, _: &mut PubSub<u64>, _: &NodePorts, _: &Context) -> Run {
        Run::new(1)
    }

    fn register_channels(&self, _: &mut ChannelRegistry) {}

    fn build_subscribers(&self) -> Vec<SubscriberPort> {
        (0..self.num_subscribers)
            .map(|_| port(true, false, 1, ""))
            .collect()
    }

    fn build_publishers(&self) -> Vec<PublisherPort> {
        (0..self.num_publishers).map(|_| output(1, "", &[])).collect()
    }
}

fn make_callback(num_subscribers: usize, num_publishers: usize) -> AnyCallback<u64> {
    AnyCallback {
        inner: Box::new(DummyCallback {
            num_subscribers,
            num_publishers,
        }),
    }
}

fn one_millisecond() -> AnyDuration {
    AnyDuration::fixed(Duration::from_millis(1))
}

#[test]
fn build_succeeds_with_required_components() {
    let callback = CallbackBuilder::new("MyCallback".to_string(), make_callback(1, 1))
        .with_subscriber_channels(&["in"])
        .with_publisher_channels(&["out"])
        .with_execution_duration_callback(one_millisecond())
        .build();

    assert!(callback.is_ok());
    let callback = callback.unwrap();
    assert_eq!(callback.name(), "MyCallback");
    assert_eq!(callback.subscribers()[0].config.channel_name, "in");
    assert_eq!(callback.publishers()[0].config.channel_name, "out");
    assert_eq!(callback.execution_duration(), Duration::from_millis(1));
    assert_eq!(
        callback.next_requested_execution_time(FrameworkTime::from_nanoseconds(0)),
        None
    );
}

#[test]
fn missing_execution_duration_is_an_error() {
    let result = CallbackBuilder::new("NoDuration".to_string(), make_callback(0, 0)).build();
    assert!(matches!(
        result,
        Err(CallbackBuildError::MissingExecutionDurationCallback)
    ));
}

#[test]
fn mismatched_subscriber_count_is_an_error() {
    let result = CallbackBuilder::new("BadSubs".to_string(), make_callback(2, 0))
        .with_subscriber_channels(&["only_one"])
        .with_execution_duration_callback(one_millisecond())
        .build();

    assert!(matches!(
        result,
        Err(CallbackBuildError::MismatchedSubscriberCount(
            ExpectedVsActual {
                expected: 2,
                actual: 1
            }
        ))
    ));
}

#[test]
fn mismatched_publisher_count_is_an_error() {
    let result = CallbackBuilder::new("BadPubs".to_string(), make_callback(0, 2))
        .with_publisher_channels(&["only_one"])
        .with_execution_duration_callback(one_millisecond())
        .build();

    assert!(matches!(
        result,
        Err(CallbackBuildError::MismatchedPublisherCount(
            ExpectedVsActual {
                expected: 2,
                actual: 1
            }
        ))
    ));
}

#[test]
fn next_execution_time_callback_is_optional() {
    let callback = CallbackBuilder::new("Timed".to_string(), make_callback(0, 0))
        .with_execution_duration_callback(AnyDuration::fixed(Duration::from_millis(5)))
        .with_next_execution_time_callback(AnySchedule::periodic(Duration::from_nanos(10)))
        .build()
        .expect("build should succeed");

    let now = FrameworkTime::from_nanoseconds(100);
    assert_eq!(
        callback.next_requested_execution_time(now),
        Some(FrameworkTime::from_nanoseconds(110))
    );
}

#[test]
fn first_error_wins() {
    let result = CallbackBuilder::new("MultiError".to_string(), make_callback(2, 2))
        .with_subscriber_channels(&["x"])
        .with_publisher_channels(&["y"])
        .with_execution_duration_callback(one_millisecond())
        .build();

    assert!(matches!(
        result,
        Err(CallbackBuildError::MismatchedSubscriberCount(
            ExpectedVsActual {
                expected: 2,
                actual: 1
            }
        ))
    ));
}

#[test]
fn build_errors_have_messages() {
    let counts = ExpectedVsActual {
        expected: 2,
        actual: 11,
    };
    assert_eq!(counts.to_string(), "expected: 2, actual: 11");
    assert_eq!(
        CallbackBuildError::MissingExecutionDurationCallback.to_string(),
        "No execution duration callback was added."
    );
    assert_eq!(
        CallbackBuildError::MismatchedPublisherCount(counts).to_string(),
        "Number of configured subscribers doesn't match callback expected: 2, actual: 11"
    );
}

#[test]
fn periodic_execution_follows_the_period() {
    let node = CallbackBuilder::new("Periodic".to_string(), make_callback(0, 0))
        .with_name("Renamed".to_string())
        .with_execution_logging(true)
        .with_periodic_execution(Duration::from_nanos(7))
        .with_execution_duration_callback(one_millisecond())
        .build()
        .unwrap();
    assert_eq!(node.name(), "Renamed");
    assert!(node.log_executions);
    assert_eq!(
        node.next_requested_execution_time(FrameworkTime::from_nanoseconds(3)),
        Some(FrameworkTime::from_nanoseconds(10))
    );
}
