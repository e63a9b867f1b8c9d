use cfw::callback::{AnyCallback, AnyDuration, CallbackNode, PublisherPort, SubscriberPort};
use cfw::callback_storage::CallbackStorage;
use cfw::channel_registry::{ChannelRegistry, Probe, SerializerFn};
use cfw::connect_graph::connect_callback_nodes;
use cfw::context::Context;
use cfw::execution_log::EXECUTION_LOG_CHANNEL;
use cfw::executor::{ExecutorParams, ThreadPoolConfig};
use cfw::forwarded_message::ForwardedMessage;
use cfw::input::OptionalInput;
use cfw::json_values::{NUMBER_VALUE_TYPE, TEXT_VALUE_TYPE};
use cfw::log_simulation::{LogEntry, LogSimulationBuildStep, SortedLog};
use cfw::log_types::{
    AnyLogWriter, CallbackExecutionLog, ChannelLogMode, ExecutionLogger, InMemoryLogReader,
    InMemoryLogWriter, LogReader, LogWriter, PublisherLog, StandardExecutionLogger, SubscriberLog,
    ValueSerializer,
};
use cfw::loggable::{
    resolve_forwarded, DeserializeError, ForwardedMessageContext, Loggable, ReplayMessageLog,
};
use cfw::message::{Message, MessageHeader};
use cfw::output::Output;
use cfw::pub_sub::PubSub;
use cfw::publisher::{Publisher, PublisherConfig};
use cfw::simulation::{SimulationConfig, SimulationState};
use cfw::simulation_executor::SimulationExecutor;
use cfw::string_interner::StringInterner;
use cfw::subscriber::{Subscriber, SubscriberConfig};
use cfw::test_tasks::NoOpCallback;
use cfw::time::{Duration, FrameworkTime};

fn at(nanoseconds: i64) -> FrameworkTime {
    FrameworkTime::from_nanoseconds(nanoseconds)
}

fn serialize_u64(val: u64) -> Vec<u8> {
    let mut buf = Vec::new();
    val.serialize(&mut buf).unwrap();
    buf
}

fn entry(channel: &str, time: i64, payload: Vec<u8>) -> LogEntry {
    LogEntry {
        time: at(time),
        channel: channel.to_string(),
        payload,
    }
}

fn number_registry() -> ChannelRegistry {
    let mut registry = ChannelRegistry::new();
    registry.register_channel("integer".to_string(), NUMBER_VALUE_TYPE);
    registry
}

/// A node that never runs and holds the input that a test reads.
fn sink(channel: &str) -> CallbackNode<u64> {
    let mut sink: CallbackNode<u64> = CallbackNode::new_with(
        AnyCallback {
            inner: Box::new(NoOpCallback {}),
        },
        vec![SubscriberPort {
            config: SubscriberConfig {
                is_optional: true,
                capacity: 4,
                is_trigger: false,
                keep_across_runs: true,
                channel_name: channel.to_string(),
            },
            value_type: NUMBER_VALUE_TYPE,
        }],
        vec![],
        "Sink".to_string(),
    );
    sink.set_execution_duration_callback(AnyDuration::fixed(Duration::from_nanos(0)));
    sink
}

/// What replaying a log on one channel gives: the time of each value's step.
fn replayed(entries: Vec<LogEntry>) -> Vec<(i64, u64)> {
    let mut log = SortedLog::new();
    for entry in entries {
        log.insert(entry);
    }
    let step = LogSimulationBuildStep::new(log, vec![]).unwrap();
    let mut nodes: Vec<CallbackNode<u64>> = step.build_step(&number_registry()).unwrap();
    nodes.push(sink("integer"));
    let system = connect_callback_nodes(&mut nodes).unwrap();
    let mut state = SimulationState::new(1, CallbackStorage::from_nodes(nodes), system);
    state.start();
    let mut observed = Vec::new();
    for _ in 0..20 {
        if state.wants_stop() {
            break;
        }
        let time = state.simulation_time().to_nanoseconds();
        state.step().unwrap();
        state.system.drain_writer_to_reader(0);
        let input = OptionalInput::new(0);
        if let Some(val) = input.value(&state.system) {
            observed.push((time, *val));
            input.clear(&mut state.system);
        }
    }
    assert!(state.wants_stop());
    observed
}

#[test]
fn a_second_entry_of_one_time_goes_out_in_the_next_run() {
    let observed = replayed(vec![
        entry("integer", 1_000, serialize_u64(1)),
        entry("integer", 1_000, serialize_u64(2)),
        entry("integer", 4_000, serialize_u64(3)),
    ]);
    assert_eq!(observed, vec![(1_000, 1), (1_000, 2), (4_000, 3)]);
}

#[test]
fn the_same_log_replays_the_same() {
    let log = || {
        vec![
            entry("integer", 10, serialize_u64(5)),
            entry("integer", 10, serialize_u64(6)),
            entry("integer", 25, serialize_u64(7)),
        ]
    };
    assert_eq!(replayed(log()), replayed(log()));
}

#[test]
fn an_executor_stops_at_the_end_of_the_log() {
    let mut log = SortedLog::new();
    log.insert(entry("integer", 10, serialize_u64(5)));
    log.insert(entry("integer", 20, serialize_u64(6)));
    let step = LogSimulationBuildStep::new(log, vec![]).unwrap();
    let mut nodes: Vec<CallbackNode<u64>> = step.build_step(&number_registry()).unwrap();
    let system = connect_callback_nodes(&mut nodes).unwrap();
    let mut executor = SimulationExecutor::new_with(SimulationConfig {
        start_time: at(0),
        executor_params: ExecutorParams::new(vec![ThreadPoolConfig::new(
            1,
            CallbackStorage::from_nodes(nodes),
        )]),
        system,
        node_executor_thread_count: 1,
    });
    executor.start();
    let mut rounds = 0;
    while executor.advance() {
        rounds += 1;
        assert!(rounds < 20);
    }
    assert!(!executor.is_running());
    assert!(executor.join(false).is_ok());
    assert_eq!(executor.simulation_time(), at(20));
}

#[test]
fn test_log_simulation_schedules_by_log_time() {
    let mut log = SortedLog::new();
    log.insert(entry("integer", 1_000, serialize_u64(42)));
    log.insert(entry("integer", 3_000, serialize_u64(7)));
    log.insert(entry("integer", 5_000, serialize_u64(9)));

    let build_step = LogSimulationBuildStep::new(log, vec![]).unwrap();
    assert_eq!(build_step.first_log_time(), at(1_000));
    let nodes: Vec<CallbackNode<u64>> = build_step.build_step(&number_registry()).unwrap();
    assert_eq!(nodes.len(), 1);
    assert_eq!(nodes[0].name(), "LogSimulationTask");
    assert_eq!(nodes[0].publishers.len(), 1);
    assert_eq!(nodes[0].execution_duration().nanoseconds, 0);
    assert_eq!(
        nodes[0].next_requested_execution_time(at(0)),
        Some(at(1_000))
    );
    let node = nodes.into_iter().next().unwrap();

    let mut nodes = vec![node, sink("integer")];
    let system = connect_callback_nodes(&mut nodes).unwrap();
    let mut state = SimulationState::new(1, CallbackStorage::from_nodes(nodes), system);
    state.start();

    let mut observed_values: Vec<u64> = Vec::new();
    for _ in 0..20 {
        if state.wants_stop() {
            break;
        }
        let _executed = state.step().unwrap();
        state.system.drain_writer_to_reader(0);
        let input = OptionalInput::new(0);
        if let Some(val) = input.value(&state.system) {
            observed_values.push(*val);
            input.clear(&mut state.system);
        }
    }

    assert_eq!(observed_values, vec![42u64, 7u64, 9u64]);
    assert_eq!(state.simulation_time(), at(5_000));
    assert!(state.wants_stop());
}

#[test]
fn test_log_simulation_drylists_execution_log() {
    let mut log = SortedLog::new();
    log.insert(entry(EXECUTION_LOG_CHANNEL, 100, serialize_u64(0)));
    log.insert(entry("integer", 500, serialize_u64(100)));
    let build_step = LogSimulationBuildStep::new(log, vec![]).unwrap();
    let nodes: Vec<CallbackNode<u64>> = build_step
        .build_step(&number_registry())
        .unwrap();
    assert_eq!(nodes.len(), 1);
    assert_eq!(nodes[0].publishers.len(), 1);
    assert_eq!(nodes[0].publishers[0].config.channel_name, "integer");
}

#[test]
fn test_log_simulation_denylisted_channels_skipped() {
    let mut log = SortedLog::new();
    log.insert(entry("integer", 100, vec![]));
    let build_step = LogSimulationBuildStep::new(log, vec!["integer".to_string()]).unwrap();
    let nodes: Vec<CallbackNode<u64>> = build_step
        .build_step(&number_registry())
        .unwrap();
    assert!(nodes.is_empty());
}

#[test]
fn iox2_log_replay_names_unregistered_channel() {
    let mut log = SortedLog::new();
    log.insert(entry("unregistered", 100, vec![]));
    let build_step = LogSimulationBuildStep::new(log, vec![]).unwrap();
    let error = build_step
        .build_step::<u64>(&number_registry())
        .err()
        .unwrap();
    assert_eq!(
        error,
        "no registered payload type for logged channel unregistered"
    );
}

#[test]
fn an_empty_log_cannot_be_replayed() {
    assert_eq!(
        LogSimulationBuildStep::new(SortedLog::new(), vec![]).err(),
        Some("Log file is empty")
    );
}

#[test]
fn a_log_is_read_in_the_order_of_its_times() {
    let mut log = SortedLog::new();
    assert!(log.is_empty());
    for (channel, time) in [("b", 5), ("a", 1), ("c", 5), ("d", 9)] {
        log.insert(entry(channel, time, vec![]));
    }
    assert_eq!(log.peek_time(), Some(at(1)));
    let (read, next) = log.read_until(at(5));
    let channels: Vec<&str> = read.iter().map(|e| e.channel.as_str()).collect();
    assert_eq!(channels, vec!["a", "b", "c"]);
    assert_eq!(next, Some(at(9)));
    let (read, next) = log.read_until(at(9));
    assert_eq!(read.len(), 1);
    assert_eq!(next, None);
}

#[test]
fn numbers_and_texts_are_read_back() {
    for number in [0, 7, u64::MAX] {
        assert_eq!(u64::deserialize(&serialize_u64(number)).unwrap(), number);
    }
    assert_eq!(serialize_u64(42), b"42".to_vec());
    let mut buf = vec![1];
    "a \"quoted\" text\n".to_string().serialize(&mut buf).unwrap();
    assert_eq!(buf[0], 1);
    assert_eq!(&buf[1..], b"\"a \\\"quoted\\\" text\\n\"");
    assert_eq!(
        String::deserialize(&buf[1..]).unwrap(),
        "a \"quoted\" text\n"
    );
    assert!(u64::deserialize(b"-1").is_err());
    assert!(String::deserialize(b"17").is_err());
    assert_ne!(u64::value_type(), String::value_type());
    assert_eq!(String::value_type(), TEXT_VALUE_TYPE);
}

#[derive(Clone, Default, Debug, PartialEq)]
struct MyMessage {
    my_string: String,
    my_bool: bool,
}

fn hello() -> MyMessage {
    MyMessage {
        my_bool: true,
        my_string: "Hello".to_owned(),
    }
}

/// A forwarding message as its log holds it: its own data and the header of
/// what it forwards.
fn logged_bytes(forwarded: &ForwardedMessage<bool, MyMessage>) -> Vec<u8> {
    let published_at = forwarded.get_forwarded_message().header.published_at;
    let mut header = serde_json::Map::new();
    header.insert(
        "published_at".to_string(),
        serde_json::Value::from(published_at.to_nanoseconds()),
    );
    let mut envelope = serde_json::Map::new();
    envelope.insert(
        "message".to_string(),
        serde_json::Value::from(*forwarded.get_message()),
    );
    envelope.insert(
        "forwarded_message_header".to_string(),
        serde_json::Value::Object(header),
    );
    serde_json::to_vec(&serde_json::Value::Object(envelope)).unwrap()
}

fn read_logged(bytes: &[u8]) -> (bool, MessageHeader) {
    let json: serde_json::Value = serde_json::from_slice(bytes).unwrap();
    assert!(json.get("forwarded_message").is_none());
    let message = json.get("message").unwrap().as_bool().unwrap();
    let published_at = json
        .get("forwarded_message_header")
        .unwrap()
        .get("published_at")
        .unwrap()
        .as_i64()
        .unwrap();
    (message, MessageHeader::new(at(published_at)))
}

#[test]
fn test_forwarded_message_round_trip_with_log() {
    let original_msg = Message {
        header: MessageHeader::new(at(2)),
        message: hello(),
    };
    let log = ReplayMessageLog::new(vec![original_msg]);

    let forwarded_message = ForwardedMessage::new_boxed_forward(
        false,
        Box::new(Message {
            header: MessageHeader::new(at(2)),
            message: hello(),
        }),
    );
    let buf = logged_bytes(&forwarded_message);
    let (message, logged_header) = read_logged(&buf);

    let deserialized = resolve_forwarded(message, logged_header, &log).unwrap();
    assert!(!(*deserialized.get_message()));

    let fwd = deserialized.get_forwarded_message();
    assert_eq!(fwd.message.my_string, "Hello");
    assert!(fwd.message.my_bool);
    assert_eq!(fwd.header.published_at, at(2));

    let missing = resolve_forwarded(true, MessageHeader::new(at(3)), &log);
    assert!(matches!(
        missing,
        Err(DeserializeError::MissingForwardedMessage)
    ));
}

#[test]
fn a_context_gives_the_log_of_its_type() {
    let context =
        ForwardedMessageContext::new(vec![(MessageHeader::new(at(4)), 9u64)], NUMBER_VALUE_TYPE);
    assert_eq!(context.to_log(NUMBER_VALUE_TYPE).messages.len(), 1);
}

#[test]
fn registered_types_are_read_back() {
    let mut registry = number_registry();
    let number = registry.deserializer_for(NUMBER_VALUE_TYPE).unwrap();
    assert_eq!(number.deserialize::<u64>(b"42").unwrap(), 42);
    assert!(number.deserialize::<u64>(b"nothing").is_err());
    assert!(registry.forwarded_deserializer_for(77).is_none());

    registry.register_forwarded_channel("forwarded".into(), "integer".into(), 77, NUMBER_VALUE_TYPE);
    let forwarded = registry.forwarded_deserializer_for(77).unwrap();
    let context = ForwardedMessageContext::new(
        vec![(MessageHeader::new(at(4)), 9u64), (MessageHeader::new(at(6)), 8u64)],
        NUMBER_VALUE_TYPE,
    );
    let found = forwarded
        .resolve(true, MessageHeader::new(at(6)), &context, NUMBER_VALUE_TYPE)
        .unwrap();
    assert!(found.get_message());
    assert_eq!(found.get_forwarded_message().message, 8);
    assert_eq!(found.get_forwarded_message().header.published_at, at(6));
    assert!(matches!(
        forwarded.resolve(true, MessageHeader::new(at(5)), &context, NUMBER_VALUE_TYPE),
        Err(DeserializeError::MissingForwardedMessage)
    ));
}

#[test]
fn forwarding_types_have_numbers_of_their_own() {
    let types = [
        ForwardedMessage::<u64, u64>::value_type(),
        ForwardedMessage::<u64, String>::value_type(),
        ForwardedMessage::<String, u64>::value_type(),
        ForwardedMessage::<String, String>::value_type(),
        u64::value_type(),
        String::value_type(),
    ];
    for (i, a) in types.iter().enumerate() {
        assert!(types[..i].iter().all(|b| a != b));
    }
    let mut registry = ChannelRegistry::new();
    Probe::<ForwardedMessage<u64, String>>::new().try_register_forwarding(&mut registry);
    assert!(registry.serializer_for(types[1]).is_some());
    assert!(registry.deserializer_for(types[1]).is_none());
}

#[test]
fn inputs_are_serialized_and_drained() {
    let mut system: PubSub<u64> = PubSub::new();
    let p = system.add_publisher(Publisher::new(
        PublisherConfig {
            capacity: 2,
            channel_name: "integer".to_string(),
        },
        NUMBER_VALUE_TYPE,
    ));
    let s = system.add_subscriber(Subscriber::new(
        SubscriberConfig {
            is_optional: true,
            capacity: 2,
            is_trigger: true,
            keep_across_runs: true,
            channel_name: "integer".to_string(),
        },
        NUMBER_VALUE_TYPE,
    ));
    system.add_typed_subscriber(p, s);
    system.allocate_arena(p);
    for value in [3, 4] {
        Output::new_default(&mut system, p, value).send(&mut system);
    }
    system.flush_loaned_values(p, at(6));
    system.drain_writer_to_reader(s);
    let serializer: SerializerFn = number_registry().serializer_for(NUMBER_VALUE_TYPE).unwrap();
    let result = serializer.serialize_inputs(&mut system, s);
    assert!(result.error.is_none());
    assert_eq!(
        result.messages,
        vec![
            (MessageHeader::new(at(6)), b"3".to_vec()),
            (MessageHeader::new(at(6)), b"4".to_vec()),
        ]
    );
    let again = serializer.serialize_inputs(&mut system, s);
    assert!(again.messages.is_empty());
}

fn execution(time: i64) -> CallbackExecutionLog {
    CallbackExecutionLog {
        execution_time: at(time),
        subscribers: vec![SubscriberLog { entries: vec![] }],
        publishers: vec![PublisherLog { entries: vec![] }],
    }
}

#[test]
fn logged_executions_are_read_back_in_order() {
    let mut writer = InMemoryLogWriter::new();
    for time in [1, 2, 3] {
        writer.log_execution(&execution(time));
    }
    let mut reader: InMemoryLogReader = writer.into_reader();
    for time in [1, 2, 3] {
        assert_eq!(reader.peek_next_time(), Some(at(time)));
        assert_eq!(reader.next_execution().unwrap().execution_time, at(time));
    }
    assert_eq!(reader.peek_next_time(), None);
    assert!(reader.next_execution().is_none());
}

/// Writes a number as its eight bytes.
struct Bytes;

impl ValueSerializer<u64> for Bytes {
    fn serialize_value(&self, value: &u64, out: &mut Vec<u8>) {
        out.extend_from_slice(&value.to_le_bytes());
    }
}

fn output_port(channel: &str) -> PublisherPort {
    PublisherPort {
        config: PublisherConfig {
            capacity: 1,
            channel_name: channel.to_string(),
        },
        value_type: NUMBER_VALUE_TYPE,
        forwarded_channels: vec![],
    }
}

#[test]
fn a_standard_logger_keeps_what_its_modes_ask_for() {
    let mut nodes: Vec<CallbackNode<u64>> = vec![CallbackNode::new_with(
        AnyCallback {
            inner: Box::new(NoOpCallback {}),
        },
        vec![],
        vec![output_port("a"), output_port("b"), output_port("c")],
        "Logged".to_string(),
    )];
    let mut system = connect_callback_nodes(&mut nodes).unwrap();
    let ports = &nodes[0].ports;
    let channels = StringInterner::new();
    let callbacks = StringInterner::new();
    let ctx = Context::new(at(8), &channels, &callbacks);
    let mut logger: StandardExecutionLogger<u64> = StandardExecutionLogger::builder(AnyLogWriter {
        inner: Box::new(InMemoryLogWriter::new()),
    })
    .publisher(0, ChannelLogMode::HeaderOnly)
    .publisher(2, ChannelLogMode::HeaderAndValues(Box::new(Bytes)))
    .build(at(0));
    logger.log_before_run(&ctx, &system, ports);
    for p in 0..3 {
        Output::new_default(&mut system, p, 5).send(&mut system);
    }
    logger.log_after_run(&ctx, &system, ports);
    assert_eq!(logger.buffer.execution_time, at(8));
    let logged = &logger.buffer.publishers;
    assert_eq!(logged.len(), 3);
    assert_eq!(logged[0].entries.len(), 1);
    assert_eq!(logged[0].entries[0].serialized, None);
    assert!(logged[1].entries.is_empty());
    assert_eq!(
        logged[2].entries[0].serialized,
        Some(vec![5, 0, 0, 0, 0, 0, 0, 0])
    );
}
