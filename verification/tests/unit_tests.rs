use std::sync::{Arc, Mutex};

use cfw::callback::{
    AnyCallback, Callback, CallbackNode, NodePorts, PublisherPort, Run, SubscriberPort,
};
use cfw::callback_storage::CallbackStorage;
use cfw::channel_registry::ChannelRegistry;
use cfw::context::Context;
use cfw::executor::ThreadPoolConfig;
use cfw::iox2_data::{Iox2Subscriber, Received};
use cfw::iox2_event::{Iox2Event, Iox2EventSubscriber};
use cfw::message::{Message, MessageHeader};
use cfw::pub_sub::PubSub;
use cfw::pub_sub_factory::{EndpointKind, Iox2EndpointInfo};
use cfw::single_pool::build_single_pool;
use cfw::subscriber::SubscriberConfig;
use cfw::task_test::{TaskTest, TaskTestConfig};
use cfw::test_tasks::{
    FizzBuzzCalculator, IncrementingIntegerPublisher, Sample, StringCollector, FIZZ_BUZZ_INDEX,
    INTEGER_PUBLISHER_INDEX, INTEGER_TYPE, STRING_STORE_INDEX, TEXT_TYPE,
};
use cfw::time::{Duration, FrameworkTime};
use cfw::unit_test_builder::UnitTestExecutorBuilder;
use cfw::unit_test_executor::UnitTestExecutor;
use cfw::unit_test_iox2::{Iox2FixtureError, Iox2TestSubscriber};

/// A collector whose texts the test can read.
struct SharedCollector(Arc<Mutex<StringCollector>>);

impl Callback<Sample> for SharedCollector {
    fn next_time(&self) -> Option<FrameworkTime> {
        None
    }

    fn wants_stop(&self) -> bool {
        self.0.lock().unwrap().wants_stop()
    }

    fn run_generic(
        &mut self,
        system: &mut PubSub<Sample>,
        ports: &NodePorts,
        ctx: &Context,
    ) -> Run {
        self.0.lock().unwrap().run_generic(system, ports, ctx)
    }

    fn register_channels(&self, registry: &mut ChannelRegistry) {
        self.0.lock().unwrap().register_channels(registry);
    }

    fn build_subscribers(&self) -> Vec<SubscriberPort> {
        self.0.lock().unwrap().build_subscribers()
    }

    fn build_publishers(&self) -> Vec<PublisherPort> {
        vec![]
    }
}

struct FizzBuzz {
    nodes: CallbackStorage<Sample>,
    system: PubSub<Sample>,
    collector: Arc<Mutex<StringCollector>>,
    durations: Vec<Duration>,
}

fn build_fizz_buzz() -> FizzBuzz {
    let collector = Arc::new(Mutex::new(StringCollector {
        string_store: StringCollector::make_string_store(),
        stop_requested: false,
        target_count: 100,
    }));
    let mut store =
        StringCollector::build_callback_node(StringCollector::make_string_store(), 100);
    store.callback = AnyCallback {
        inner: Box::new(SharedCollector(collector.clone())),
    };
    let nodes: Vec<CallbackNode<Sample>> = vec![
        IncrementingIntegerPublisher::build_callback_node(),
        FizzBuzzCalculator::build_callback_node(),
        store,
    ];
    let durations = nodes.iter().map(|n| n.execution_duration()).collect();
    let mut built = build_single_pool(nodes, 1).unwrap();
    FizzBuzz {
        nodes: built.pools.remove(0).nodes,
        system: built.system,
        collector,
        durations,
    }
}

#[test]
fn step_time_before_after() {
    let under_test = build_fizz_buzz();
    let publisher_runtime = under_test.durations[INTEGER_PUBLISHER_INDEX];

    let mut expected_time = FrameworkTime::from_nanoseconds(0);

    let mut executor = UnitTestExecutor::new(under_test.nodes, under_test.system);

    assert_eq!(
        under_test.collector.lock().unwrap().stored_strings(),
        Vec::<String>::new(),
        "Should be empty on start"
    );

    assert_eq!(executor.current_time(), expected_time);
    let step_result = executor.step();
    assert_eq!(step_result.before, expected_time);

    // We expect just the publisher to run
    expected_time.advance(publisher_runtime);
    assert_eq!(
        executor.current_time(),
        expected_time,
        "We expect just the publisher to have run"
    );
    assert_eq!(step_result.after, expected_time);
    assert_eq!(step_result.to_string(), "Stepped from 0ns to 1000000ns");
    assert_eq!(executor.step_count(), 1);
}

#[test]
fn step_all_callbacks() {
    let under_test = build_fizz_buzz();
    let publisher_runtime = under_test.durations[INTEGER_PUBLISHER_INDEX];
    let fizz_buzz_runtime = under_test.durations[FIZZ_BUZZ_INDEX];
    let string_store_runtime = under_test.durations[STRING_STORE_INDEX];

    let mut expected_time = FrameworkTime::from_nanoseconds(0);

    let mut executor = UnitTestExecutor::new(under_test.nodes, under_test.system);

    let mut step_result = executor.step();

    assert_eq!(step_result.before, expected_time);
    // We expect just the publisher to run
    expected_time.advance(publisher_runtime);
    assert_eq!(step_result.after, expected_time);

    step_result = executor.step();
    // We expect just fizz_buzz to run, since it was the only thing with input
    expected_time.advance(fizz_buzz_runtime);
    assert_eq!(step_result.after, expected_time);

    step_result = executor.step();
    // We expect just the string store to run, since it was the only thing with input
    expected_time.advance(string_store_runtime);
    assert_eq!(step_result.after, expected_time);

    assert_eq!(
        under_test.collector.lock().unwrap().stored_strings(),
        vec!["FizzBuzz"]
    );
}

#[test]
fn test_individual_callback() {
    // test single callback node using test_publisher and test_subscriber
    let calculator = FizzBuzzCalculator::build_callback_node();

    let mut builder = UnitTestExecutorBuilder::new(vec![calculator]);
    let integer_publisher = builder.add_test_publisher("integer", INTEGER_TYPE).unwrap();
    let string_subscriber = builder
        .add_test_subscriber("fizz_buzz_string", TEXT_TYPE)
        .unwrap();
    let mut executor = builder.try_build().unwrap();

    integer_publisher.send(&mut executor, Sample::Integer(15));
    executor.step();

    assert_eq!(string_subscriber.queue_len(&executor), 1);
    let messages = string_subscriber.messages(&mut executor);
    assert_eq!(messages.len(), 1);
    assert!(matches!(messages[0].message, Sample::Text(ref text) if text == "FizzBuzz"));
    assert_eq!(string_subscriber.queue_len(&executor), 0);
}

#[test]
fn messages_can_be_sent_as_copies_or_boxed() {
    let mut builder = UnitTestExecutorBuilder::new(vec![FizzBuzzCalculator::build_callback_node()]);
    let integers = builder.add_test_publisher("integer", INTEGER_TYPE).unwrap();
    let texts = builder
        .add_test_subscriber("fizz_buzz_string", TEXT_TYPE)
        .unwrap();
    let mut executor = builder.try_build().unwrap();
    let three = Sample::Integer(3);
    integers.send_copied(&mut executor, &three);
    executor.step();
    integers.send_boxed(&mut executor, Box::new(Sample::Integer(5)));
    executor.step();
    let captured: Vec<String> = texts
        .messages(&mut executor)
        .into_iter()
        .map(|m| match m.message {
            Sample::Text(text) => text,
            Sample::Integer(_) => panic!("no number is published here"),
        })
        .collect();
    assert_eq!(captured.last().map(String::as_str), Some("Buzz"));
    assert!(matches!(three, Sample::Integer(3)));
}

#[test]
fn a_sample_can_carry_a_chosen_header() {
    let mut builder = iox2_builder();
    let input = builder
        .add_iox2_test_publisher("macro_sensor", INTEGER_TYPE)
        .unwrap();
    let header = MessageHeader::new(FrameworkTime::from_nanoseconds(1234));
    let sample = input.send_with_header(true, header, 8u64);
    assert_eq!(sample.header, header);
    assert_eq!(sample.message, 8);
}

#[test]
fn a_fixture_keeps_the_newest_messages() {
    let mut builder =
        UnitTestExecutorBuilder::new(vec![IncrementingIntegerPublisher::build_callback_node()]);
    let captured = builder
        .add_test_subscriber_with_capacity("integer", INTEGER_TYPE, 2)
        .unwrap();
    let mut executor = builder.try_build().unwrap();
    for _ in 0..3 {
        executor.step();
    }
    let values: Vec<u64> = captured
        .messages(&mut executor)
        .iter()
        .map(|m| match m.message {
            Sample::Integer(value) => value,
            Sample::Text(_) => panic!("no text is published here"),
        })
        .collect();
    assert_eq!(values.len(), 2);
    assert_eq!(values[1], values[0] + 1);
}

fn attach_publisher(channel: &str, value_type: u64) {
    let mut builder = UnitTestExecutorBuilder::new(vec![FizzBuzzCalculator::build_callback_node()]);
    if let Err(error) = builder.add_test_publisher(channel, value_type) {
        panic!("{}", error.to_string());
    }
}

fn attach_subscriber(channel: &str, value_type: u64) {
    let mut builder = UnitTestExecutorBuilder::new(vec![FizzBuzzCalculator::build_callback_node()]);
    if let Err(error) = builder.add_test_subscriber(channel, value_type) {
        panic!("{}", error.to_string());
    }
}

#[test]
#[should_panic(
    expected = "Type mismatch connecting TestPublisher to channel 'integer' on callback node 'FizzBuzzCalculator'"
)]
fn test_publisher_type_mismatch_fails() {
    attach_publisher("integer", TEXT_TYPE);
}

#[test]
#[should_panic(
    expected = "Type mismatch connecting TestSubscriber to channel 'fizz_buzz_string' on callback node 'FizzBuzzCalculator'"
)]
fn test_susbcriber_type_mismatch_fails() {
    attach_subscriber("fizz_buzz_string", INTEGER_TYPE);
}

#[test]
fn fixtures_need_a_counterpart() {
    let mut builder = UnitTestExecutorBuilder::new(vec![FizzBuzzCalculator::build_callback_node()]);
    let error = builder
        .add_test_publisher("nowhere", INTEGER_TYPE)
        .err()
        .unwrap();
    assert_eq!(error.to_string(), "No subscriber for channel 'nowhere'");
    let error = builder
        .add_test_subscriber("nowhere", TEXT_TYPE)
        .err()
        .unwrap();
    assert_eq!(error.to_string(), "No publisher for channel 'nowhere'");
}

/// A builder for a node with a shared-memory data input, data output and event
/// input.
fn iox2_builder() -> UnitTestExecutorBuilder<Sample> {
    let mut builder = UnitTestExecutorBuilder::new(vec![]);
    let endpoint = |channel: &str, kind, payload_type| Iox2EndpointInfo {
        channel: channel.to_string(),
        kind,
        payload_type,
    };
    builder.iox2_endpoints = vec![
        endpoint(
            "macro_sensor",
            EndpointKind::Iox2DataSub { capacity: 1 },
            Some(INTEGER_TYPE),
        ),
        endpoint("macro_events", EndpointKind::Iox2EventSub, None),
        endpoint(
            "macro_output",
            EndpointKind::Iox2DataPub {
                capacity: 1,
                notify_on_send: true,
                event_id: 0,
            },
            Some(INTEGER_TYPE),
        ),
    ];
    builder
}

#[test]
#[should_panic(
    expected = "Type mismatch connecting iox2 test publisher to channel 'macro_sensor'"
)]
fn iox2_publisher_fixture_rejects_wrong_payload_type() {
    let error = iox2_builder()
        .add_iox2_test_publisher("macro_sensor", TEXT_TYPE)
        .err();
    panic!("{}", error.unwrap().to_string());
}

#[test]
#[should_panic(expected = "iox2 capture subscriber is not open until build() completes")]
fn iox2_capture_fixture_rejects_read_before_build() {
    let mut builder = iox2_builder();
    assert!(builder
        .add_iox2_test_subscriber("macro_output", INTEGER_TYPE)
        .is_ok());
    let capture: Iox2TestSubscriber<u64> = Iox2TestSubscriber {
        active: false,
        subscriber: None,
    };
    panic!("{}", capture.try_messages().err().unwrap());
}

#[test]
fn iox2_capture_rejects_native_publisher_on_same_channel() {
    let node = IncrementingIntegerPublisher::build_callback_node();
    let mut builder = UnitTestExecutorBuilder::new(vec![node]);
    assert!(builder
        .add_iox2_test_subscriber("integer", INTEGER_TYPE)
        .is_ok());
    let error = builder
        .try_build()
        .err()
        .expect("mixed transports must fail");
    assert!(
        error.to_string().contains("mixes transports"),
        "unexpected error: {}",
        error.to_string()
    );
}

#[test]
#[should_panic(expected = "No iox2 event subscriber for channel 'missing_event'")]
fn iox2_notifier_fixture_rejects_unknown_channel() {
    let mut builder: UnitTestExecutorBuilder<Sample> = UnitTestExecutorBuilder::new(vec![]);
    let error = builder.add_iox2_test_notifier("missing_event").err();
    panic!("{}", error.unwrap().to_string());
}

#[test]
fn iox2_fixtures_explain_why_they_are_refused() {
    let mut builder = iox2_builder();
    builder.nodes = vec![FizzBuzzCalculator::build_callback_node()];
    let error = builder
        .add_iox2_test_publisher("integer", INTEGER_TYPE)
        .err()
        .unwrap();
    assert!(matches!(error, Iox2FixtureError::NativeSubscriber { .. }));
    assert_eq!(
        error.to_string(),
        "Channel 'integer' has a native subscriber; iox2 and native transports cannot be mixed"
    );
    let error = builder
        .add_iox2_test_publisher("macro_output", INTEGER_TYPE)
        .err()
        .unwrap();
    assert_eq!(
        error.to_string(),
        "No iox2 data subscriber for channel 'macro_output'"
    );
    let error = builder
        .add_iox2_test_subscriber("macro_sensor", INTEGER_TYPE)
        .err()
        .unwrap();
    assert_eq!(
        error.to_string(),
        "No publisher for iox2 capture channel 'macro_sensor'"
    );
    let error = builder
        .add_iox2_test_subscriber("macro_output", TEXT_TYPE)
        .err()
        .unwrap();
    assert_eq!(
        error.to_string(),
        "Type mismatch connecting iox2 test subscriber to channel 'macro_output'"
    );
}

fn config(channel: &str, capacity: usize) -> SubscriberConfig {
    SubscriberConfig {
        is_optional: true,
        capacity,
        is_trigger: true,
        keep_across_runs: true,
        channel_name: channel.to_string(),
    }
}

/// Data and counted events reach their inputs.
#[test]
fn iox2_data_and_counted_event_fixtures_drive_callback() {
    let mut builder = iox2_builder();
    let input = builder
        .add_iox2_test_publisher("macro_sensor", INTEGER_TYPE)
        .unwrap();
    let events = builder.add_iox2_test_notifier("macro_events").unwrap();
    assert_eq!(input.channel(), "macro_sensor");
    assert_eq!(events.channel(), "macro_events");
    let mut data: Iox2Subscriber<u64> =
        Iox2Subscriber::new(config("macro_sensor", 2), INTEGER_TYPE);
    let mut listeners = vec![
        Iox2EventSubscriber::new(config("macro_events", 4)),
        Iox2EventSubscriber::new(config("other_events", 4)),
    ];
    let sample = input.send(true, FrameworkTime::from_nanoseconds(0), 77);
    assert!(data.receive(Received::Sample(sample)));
    events.notify(true, &mut listeners, 9, 5);
    assert_eq!(data.read[0].message, 77);
    assert_eq!(
        data.read[0].header.published_at,
        FrameworkTime::from_nanoseconds(0)
    );
    listeners[0].drain_writer_to_reader();
    listeners[1].drain_writer_to_reader();
    assert_eq!(Iox2Event::new(&listeners[0]).records(), vec![(9, 5)]);
    assert!(Iox2Event::new(&listeners[1]).records().is_empty());
}

#[test]
fn captures_iox2_output_and_header_with_fixture_capacity() {
    let mut subscriber: Iox2Subscriber<u64> =
        Iox2Subscriber::new(config("capture", 2), INTEGER_TYPE);
    for (value, time) in [(42, 0), (43, 100), (44, 200)] {
        let _ = subscriber.receive(Received::Sample(Message {
            header: MessageHeader::new(FrameworkTime::from_nanoseconds(time)),
            message: value,
        }));
    }
    let capture = Iox2TestSubscriber {
        active: true,
        subscriber: Some(subscriber),
    };
    let messages = capture.try_messages().unwrap();
    assert_eq!(messages.len(), 2);
    assert_eq!(messages[0].message, 43);
    assert_eq!(messages[1].message, 44);
    assert_eq!(
        messages[0].header.published_at,
        FrameworkTime::from_nanoseconds(100)
    );
    assert_eq!(
        messages[1].header.published_at,
        FrameworkTime::from_nanoseconds(200)
    );
    let closed: Iox2TestSubscriber<u64> = Iox2TestSubscriber {
        active: true,
        subscriber: None,
    };
    assert_eq!(
        closed.try_messages().err(),
        Some("iox2 capture subscriber is closed")
    );
}

#[test]
fn a_task_test_steps_its_tasks() {
    let under_test = build_fizz_buzz();
    let mut test = TaskTest::new(under_test.nodes, under_test.system);
    assert_eq!(test.get_step_count(), 0);
    let result = test.step();
    assert_eq!(result.after, test.get_current_time());
    assert_eq!(test.get_step_count(), 1);

    let under_test = build_fizz_buzz();
    let mut late = TaskTest::new_with(TaskTestConfig {
        start_time: FrameworkTime::from_nanoseconds(50),
        pools: vec![ThreadPoolConfig::new(1, under_test.nodes)],
        system: under_test.system,
        callback_executor_thread_count: 1,
    });
    assert_eq!(late.step().before, FrameworkTime::from_nanoseconds(50));
}
