use cfw::callback::{
    AnyCallback, AnyDuration, Callback, CallbackNode, NodePorts, PublisherPort, Run,
    SubscriberPort,
};
use cfw::callback_builder::CallbackBuilder;
use cfw::channel_registry::{
    ChannelRegistry, MaybeRegister, Probe, EXECUTION_LOG_VALUE_TYPE,
};
use cfw::context::Context;
use cfw::dangling::{find_dangling_publishers, find_dangling_subscribers};
use cfw::execution_log::EXECUTION_LOG_CHANNEL;
use cfw::json_values::{NUMBER_VALUE_TYPE, TEXT_VALUE_TYPE};
use cfw::pub_sub::PubSub;
use cfw::publisher::PublisherConfig;
use cfw::single_pool::build_single_pool;
use cfw::subscriber::SubscriberConfig;
use cfw::task_builder::{AnyBuildStep, BuildStep, TaskBuildError, TaskBuilder};
use cfw::task_graph_builder::{
    AnyGraphStep, TaskGraphBuildError, TaskGraphBuildStep, TaskGraphBuilder,
};
use cfw::time::Duration;

const U64_TYPE: u64 = 64;
const I32_TYPE: u64 = 32;

/// A callback with a configurable number of default inputs and outputs.
struct DummyCallback {
    num_subscribers: usize,
    num_publishers: usize,
    input_type: u64,
}

impl Callback<u64> for DummyCallback {
    fn next_time(&self) -> Option<cfw::time::FrameworkTime> {
        None
    }

    fn wants_stop(&self) -> bool {
        false
    }

    fn run_generic(&mut self, _: &mut PubSub<u64>, _: &NodePorts, _: &Context) -> Run {
        Run::new(1)
    }

    fn register_channels(&self, _: &mut ChannelRegistry) {}

    fn build_subscribers(&self) -> Vec<SubscriberPort> {
        (0..self.num_subscribers)
            .map(|_| SubscriberPort {
                config: SubscriberConfig {
                    is_optional: false,
                    capacity: 1,
                    is_trigger: true,
                    keep_across_runs: true,
                    channel_name: String::new(),
                },
                value_type: self.input_type,
            })
            .collect()
    }

    fn build_publishers(&self) -> Vec<PublisherPort> {
        (0..self.num_publishers)
            .map(|_| PublisherPort {
                config: PublisherConfig {
                    capacity: 1,
                    channel_name: String::new(),
                },
                value_type: U64_TYPE,
                forwarded_channels: vec![],
            })
            .collect()
    }
}

fn make_callback(num_subscribers: usize, num_publishers: usize) -> AnyCallback<u64> {
    AnyCallback {
        inner: Box::new(DummyCallback {
            num_subscribers,
            num_publishers,
            input_type: U64_TYPE,
        }),
    }
}

fn one_millisecond() -> AnyDuration {
    AnyDuration::fixed(Duration::from_millis(1))
}

fn make_callback_node(
    name: &str,
    num_subscribers: usize,
    subscriber_channels: &[&str],
    num_publishers: usize,
    publisher_channels: &[&str],
) -> CallbackNode<u64> {
    CallbackBuilder::new(
        name.to_string(),
        make_callback(num_subscribers, num_publishers),
    )
    .with_subscriber_channels(subscriber_channels)
    .with_publisher_channels(publisher_channels)
    .with_execution_duration_callback(one_millisecond())
    .build()
    .unwrap()
}

/// A node with a single `i32` input and no outputs.
fn make_i32_subscriber() -> CallbackNode<u64> {
    let callback = AnyCallback {
        inner: Box::new(DummyCallback {
            num_subscribers: 1,
            num_publishers: 0,
            input_type: I32_TYPE,
        }) as Box<dyn Callback<u64>>,
    };
    CallbackBuilder::new("consumer".to_string(), callback)
        .with_subscriber_channels(&["channel"])
        .with_execution_duration_callback(one_millisecond())
        .build()
        .unwrap()
}

struct AddStep;

impl BuildStep<u64> for AddStep {
    fn build_step(
        &self,
        callbacks: &Vec<CallbackNode<u64>>,
    ) -> Result<Vec<CallbackNode<u64>>, String> {
        let name = format!("extra_{}", callbacks.len());
        Ok(vec![make_callback_node(&name, 0, &[], 0, &[])])
    }
}

impl TaskGraphBuildStep<u64> for AddStep {
    fn name(&self) -> &str {
        "add-step"
    }

    fn build_step(
        &self,
        nodes: &Vec<CallbackNode<u64>>,
        _channel_registry: &mut ChannelRegistry,
    ) -> Result<Vec<CallbackNode<u64>>, String> {
        let name = format!("extra_{}", nodes.len());
        Ok(vec![make_callback_node(&name, 0, &[], 0, &[])])
    }
}

struct FailingStep;

impl BuildStep<u64> for FailingStep {
    fn build_step(&self, _: &Vec<CallbackNode<u64>>) -> Result<Vec<CallbackNode<u64>>, String> {
        Err("intentional failure".to_string())
    }
}

impl TaskGraphBuildStep<u64> for FailingStep {
    fn name(&self) -> &str {
        "failing-step"
    }

    fn build_step(
        &self,
        _nodes: &Vec<CallbackNode<u64>>,
        _channel_registry: &mut ChannelRegistry,
    ) -> Result<Vec<CallbackNode<u64>>, String> {
        Err("intentional failure".to_string())
    }
}

#[test]
fn task_builder_empty_build_succeeds() {
    let result = TaskBuilder::<u64>::new().build();
    assert!(result.is_ok());
    assert!(result.unwrap().callbacks.is_empty());
}

#[test]
fn task_builder_build_with_one_callback() {
    let callback = make_callback_node("single", 0, &[], 0, &[]);
    let result = TaskBuilder::new().add_callback(callback).build();

    assert!(result.is_ok());
    let built = result.unwrap();
    assert_eq!(built.callbacks.len(), 1);
    assert_eq!(built.callbacks[0].name(), "single");
}

#[test]
fn task_builder_build_step_can_add_callbacks() {
    let result = TaskBuilder::new()
        .add_callback(make_callback_node("first", 0, &[], 0, &[]))
        .add_build_step(AnyBuildStep {
            inner: Box::new(AddStep),
        })
        .build();

    assert!(result.is_ok());
    let built = result.unwrap();
    assert_eq!(built.callbacks.len(), 2);
    assert_eq!(built.callbacks[0].name(), "first");
    assert_eq!(built.callbacks[1].name(), "extra_1");
}

#[test]
fn task_builder_build_step_error_is_propagated() {
    let result = TaskBuilder::new()
        .add_build_step(AnyBuildStep {
            inner: Box::new(FailingStep),
        })
        .build();

    assert!(matches!(result, Err(TaskBuildError::BuildStepError(_))));
    assert_eq!(
        result.err().unwrap().to_string(),
        "Build step failed with intentional failure"
    );
}

#[test]
fn task_builder_connected_callbacks_matching_types_connect() {
    let producer = make_callback_node("producer", 0, &[], 1, &["channel"]);
    let consumer = make_callback_node("consumer", 1, &["channel"], 0, &[]);

    let result = TaskBuilder::new()
        .add_callback(producer)
        .add_callback(consumer)
        .build();

    assert!(result.is_ok(), "matching types should connect");
}

#[test]
fn task_builder_mismatched_channel_types_fail_to_connect() {
    let producer = make_callback_node("producer", 0, &[], 1, &["channel"]);
    let result = TaskBuilder::new()
        .add_callback(producer)
        .add_callback(make_i32_subscriber())
        .build();

    assert!(matches!(result, Err(TaskBuildError::ConnectionError(_))));
    assert_eq!(
        result.err().unwrap().to_string(),
        "Callback node 'producer' publishes on 'channel' but subscriber callback node 'consumer' \
         has a different type for that channel"
    );
}

#[test]
fn build_with_debug_info_returns_callbacks() {
    let callback = make_callback_node("debug", 0, &[], 0, &[]);
    let result = TaskBuilder::new()
        .add_callback(callback)
        .build_with_debug_info();

    assert!(result.is_ok());
    let built = result.unwrap();
    assert_eq!(built.callbacks.len(), 1);
    assert_eq!(built.callbacks[0].name(), "debug");
}

#[test]
fn task_graph_builder_empty_build_succeeds() {
    let result = TaskGraphBuilder::<u64>::new().build();
    assert!(result.is_ok());
    assert!(result.unwrap().pools.is_empty());
}

#[test]
fn task_graph_builder_build_with_one_callback() {
    let callback = make_callback_node("single", 0, &[], 0, &[]);
    let result = TaskGraphBuilder::new()
        .add_pool(1, |p| p.add_callback(callback))
        .build();

    assert!(result.is_ok());
    let mut built = result.unwrap();
    assert_eq!(built.pools.len(), 1);
    assert_eq!(built.pools[0].thread_count, 1);
    assert_eq!(built.pools[0].nodes.len(), 1);
    assert_eq!(built.pools[0].nodes.nodes[0].access().name(), "single");
}

#[test]
fn task_graph_builder_build_step_can_add_callbacks() {
    let result = TaskGraphBuilder::new()
        .add_pool(1, |p| {
            p.add_callback(make_callback_node("first", 0, &[], 0, &[]))
        })
        .add_build_step(AnyGraphStep {
            inner: Box::new(AddStep),
        })
        .build();

    assert!(result.is_ok());
    let mut built = result.unwrap();
    assert_eq!(built.pools.len(), 1);
    assert_eq!(built.pools[0].nodes.len(), 2);
    assert_eq!(built.pools[0].nodes.nodes[0].access().name(), "first");
    assert_eq!(built.pools[0].nodes.nodes[1].access().name(), "extra_1");
}

#[test]
fn task_graph_builder_build_step_error_is_propagated() {
    let result = TaskGraphBuilder::new()
        .add_build_step(AnyGraphStep {
            inner: Box::new(FailingStep),
        })
        .build();

    assert!(matches!(
        result,
        Err(TaskGraphBuildError::BuildStepError { .. })
    ));
    let err = result.err().unwrap().to_string();
    assert!(
        err.contains("failing-step"),
        "error should mention step name: {err}"
    );
    assert!(
        err.contains("intentional failure"),
        "error should mention underlying error: {err}"
    );
}

#[test]
fn callback_build_error_is_propagated() {
    let result = TaskGraphBuilder::new()
        .add_pool(1, |p| {
            p.add_callback_builder(CallbackBuilder::new(
                "BadDuration".to_string(),
                make_callback(0, 0),
            ))
        })
        .build();

    assert!(matches!(
        result,
        Err(TaskGraphBuildError::CallbackBuildError { .. })
    ));
    let err = result.err().unwrap().to_string();
    assert!(
        err.contains("BadDuration"),
        "error should mention callback name: {err}"
    );
}

#[test]
fn task_graph_builder_connected_callbacks_matching_types_connect() {
    let producer = make_callback_node("producer", 0, &[], 1, &["channel"]);
    let consumer = make_callback_node("consumer", 1, &["channel"], 0, &[]);

    let result = TaskGraphBuilder::new()
        .add_pool(1, |p| p.add_callback(producer).add_callback(consumer))
        .build();

    assert!(result.is_ok(), "matching types should connect");
}

#[test]
fn task_graph_builder_mismatched_channel_types_fail_to_connect() {
    let producer = make_callback_node("producer", 0, &[], 1, &["channel"]);
    let consumer = make_i32_subscriber();
    let result = TaskGraphBuilder::new()
        .add_pool(1, |p| p.add_callback(producer).add_callback(consumer))
        .build();

    assert!(matches!(
        result,
        Err(TaskGraphBuildError::ConnectionError(_))
    ));
}

#[test]
fn with_debug_info_returns_diagnostics() {
    let callback = make_callback_node("debug", 0, &[], 0, &[]);
    let result = TaskGraphBuilder::new()
        .add_pool(1, |p| p.add_callback(callback))
        .with_debug_info(true)
        .build();

    assert!(result.is_ok());
    let mut built = result.unwrap();
    assert_eq!(built.pools.len(), 1);
    assert_eq!(built.pools[0].nodes.len(), 1);
    assert_eq!(built.pools[0].nodes.nodes[0].access().name(), "debug");
    assert!(built.debug_info.is_some());
}

#[test]
fn without_debug_info_no_diagnostics() {
    let callback = make_callback_node("nodebug", 0, &[], 0, &[]);
    let built = TaskGraphBuilder::new()
        .add_pool(1, |p| p.add_callback(callback))
        .build()
        .expect("build");
    assert!(built.debug_info.is_none());
}

#[test]
fn each_pool_keeps_its_nodes() {
    let built = TaskGraphBuilder::new()
        .add_pool(2, |p| {
            p.add_callback(make_callback_node("a", 0, &[], 0, &[]))
                .add_callback_builder(
                    CallbackBuilder::new("b".to_string(), make_callback(0, 0))
                        .with_execution_duration_callback(one_millisecond()),
                )
        })
        .add_pool(3, |p| {
            p.add_callback(make_callback_node("c", 0, &[], 0, &[]))
        })
        .build()
        .unwrap();
    let names: Vec<Vec<&str>> = built
        .pools
        .iter()
        .map(|pool| pool.nodes.nodes.iter().map(|n| n.node.name()).collect())
        .collect();
    assert_eq!(names, vec![vec!["b", "a"], vec!["c"]]);
    assert_eq!(built.pools[1].thread_count, 3);
}

#[test]
fn the_log_level_is_set_on_every_node() {
    for enabled in [true, false] {
        let mut logged = make_callback_node("logged", 0, &[], 0, &[]);
        logged.set_log_executions(!enabled);
        let built = TaskGraphBuilder::new()
            .add_pool(2, |p| p.add_callback(logged))
            .with_execution_log_level(enabled)
            .build()
            .unwrap();
        assert_eq!(built.pools[0].nodes.nodes[0].node.log_executions, enabled);
        assert_eq!(
            built.execution_log_publishers.len(),
            2,
            "each thread has a log of its own"
        );
    }
}

#[test]
fn a_single_pool_holds_all_nodes() {
    let nodes = vec![
        make_callback_node("producer", 0, &[], 1, &["channel"]),
        make_callback_node("consumer", 1, &["channel"], 0, &[]),
    ];
    let built = build_single_pool(nodes, 4).unwrap();
    assert_eq!(built.pools.len(), 1);
    assert_eq!(built.pools[0].thread_count, 4);
    assert_eq!(built.pools[0].nodes.len(), 2);
    assert_eq!(built.execution_log_publishers.len(), 4);
    assert_eq!(built.system.publishers.len(), 1 + 4);
    assert_eq!(built.system.subscribers.len(), 1);
    let mixed = vec![
        make_callback_node("producer", 0, &[], 1, &["channel"]),
        make_i32_subscriber(),
    ];
    assert!(matches!(
        build_single_pool(mixed, 1),
        Err(TaskGraphBuildError::ConnectionError(_))
    ));
}

/// A type that cannot be logged.
struct NonLoggableType;

#[test]
fn probe_registers_loggable_type() {
    let mut registry = ChannelRegistry::new();
    Probe::<u64>::new().try_register(&mut registry);
    assert!(registry.serializer_for(NUMBER_VALUE_TYPE).is_some());
    assert!(registry.serializer_for(TEXT_VALUE_TYPE).is_none());
}

#[test]
fn probe_silently_skips_non_loggable_type() {
    let mut registry = ChannelRegistry::new();
    let before = registry.serializer_count();
    Probe::<NonLoggableType>::new().try_register(&mut registry);
    assert_eq!(registry.serializer_count(), before);
    assert!(registry.serializer_for(NUMBER_VALUE_TYPE).is_none());
}

#[test]
fn registered_channels_are_found() {
    let mut registry = ChannelRegistry::new();
    Probe::<String>::new().try_register_channel(&mut registry, "text".to_string());
    assert_eq!(registry.channel_type("text"), Some(TEXT_VALUE_TYPE));
    assert_eq!(registry.channel_type("other"), None);
    assert!(registry.deserializer_for(TEXT_VALUE_TYPE).is_some());
    let factory = registry.channel_publisher_factory(TEXT_VALUE_TYPE).unwrap();
    let port = factory.make("replayed".to_string());
    assert_eq!(port.config.channel_name, "replayed");
    assert_eq!(port.value_type, TEXT_VALUE_TYPE);
    registry.register_forwarded_channel(
        "forwarded".to_string(),
        "text".to_string(),
        9,
        TEXT_VALUE_TYPE,
    );
    let info = registry.forwarded_channel_info("forwarded").unwrap();
    assert_eq!(info.source_channel, "text");
    assert_eq!(info.forwarded_data_type_id, TEXT_VALUE_TYPE);
    assert!(registry.forwarded_deserializer_for(9).is_some());
    assert!(registry.forwarded_channel_info("text").is_none());
}

#[test]
fn dangling_channels_are_listed() {
    let built = TaskBuilder::new()
        .add_callback(make_callback_node("a", 1, &["unfed"], 1, &["shared"]))
        .add_callback(make_callback_node("b", 2, &["shared", "unfed"], 1, &["unread"]))
        .build_with_debug_info()
        .ok()
        .expect("build");
    assert_eq!(built.dangling_subscribers, vec!["unfed"]);
    assert_eq!(built.dangling_publishers, vec!["unread"]);
}

#[test]
fn a_graph_lists_its_dangling_channels() {
    let writer = make_callback_node("writer", 0, &[], 1, &["unread"]);
    let built = TaskGraphBuilder::new()
        .add_pool(1, |p| {
            p.add_callback(make_callback_node("a", 1, &["unfed"], 1, &["shared"]))
                .add_callback(make_callback_node("b", 1, &["shared"], 0, &[]))
                .add_callback(writer)
        })
        .with_debug_info(true)
        .build()
        .ok()
        .expect("build");
    let info = built.debug_info.expect("diagnostics");
    assert_eq!(info.dangling_subscribers, vec!["unfed"]);
    assert_eq!(info.dangling_publishers, vec!["unread"]);
}

#[test]
fn execution_logs_feed_their_channel() {
    let node = make_callback_node("logs", 1, &[EXECUTION_LOG_CHANNEL], 0, &[]);
    let nodes = vec![node];
    assert_eq!(
        find_dangling_subscribers(&nodes, false),
        vec![EXECUTION_LOG_CHANNEL]
    );
    assert!(find_dangling_subscribers(&nodes, true).is_empty());
    assert!(find_dangling_publishers(&nodes).is_empty());
}

/// Adds a node that listens to the execution logs for another type.
/// A node that hears the execution logs.
fn make_log_listener(name: &str) -> CallbackNode<u64> {
    let callback = AnyCallback {
        inner: Box::new(DummyCallback {
            num_subscribers: 1,
            num_publishers: 0,
            input_type: EXECUTION_LOG_VALUE_TYPE,
        }) as Box<dyn Callback<u64>>,
    };
    CallbackBuilder::new(name.to_string(), callback)
        .with_subscriber_channels(&[EXECUTION_LOG_CHANNEL])
        .with_execution_duration_callback(one_millisecond())
        .build()
        .unwrap()
}

struct AddLogListener;

impl TaskGraphBuildStep<u64> for AddLogListener {
    fn name(&self) -> &str {
        "add-log-listener"
    }

    fn build_step(
        &self,
        _nodes: &Vec<CallbackNode<u64>>,
        _channel_registry: &mut ChannelRegistry,
    ) -> Result<Vec<CallbackNode<u64>>, String> {
        Ok(vec![make_log_listener("added")])
    }
}

#[test]
fn logs_are_connected_pool_by_pool() {
    let built = TaskGraphBuilder::new()
        .add_pool(1, |pool| pool.add_callback(make_log_listener("first")))
        .add_pool(2, |pool| pool.add_callback(make_log_listener("second")))
        .add_build_step(AnyGraphStep {
            inner: Box::new(AddLogListener),
        })
        .build()
        .unwrap_or_else(|_| panic!("the inputs have the right type"));
    assert_eq!(built.execution_log_publishers.len(), 3);
    let first = &built.pools[0].nodes.nodes[0].node;
    let added = &built.pools[0].nodes.nodes[1].node;
    let second = &built.pools[1].nodes.nodes[0].node;
    assert_eq!(first.name, "first");
    assert_eq!(added.name, "added");
    assert_eq!(second.name, "second");
    assert!(second.ports.first_subscriber < added.ports.first_subscriber);
    for id in &built.execution_log_publishers {
        let publisher = &built.system.publishers[*id];
        let heard: Vec<usize> = publisher.connections.iter().map(|c| c.subscriber).collect();
        assert_eq!(
            heard,
            vec![
                first.ports.first_subscriber,
                added.ports.first_subscriber,
                second.ports.first_subscriber,
            ]
        );
        // One slot for its own loan, and two buffers of one message for each listener.
        assert_eq!(publisher.arena.storage.len(), 7);
    }
}

struct AddListener;

impl TaskGraphBuildStep<u64> for AddListener {
    fn name(&self) -> &str {
        "add-listener"
    }

    fn build_step(
        &self,
        _nodes: &Vec<CallbackNode<u64>>,
        _channel_registry: &mut ChannelRegistry,
    ) -> Result<Vec<CallbackNode<u64>>, String> {
        let listener = make_callback_node("added", 1, &[EXECUTION_LOG_CHANNEL], 0, &[]);
        Ok(vec![listener])
    }
}

#[test]
fn the_first_log_mismatch_is_found_pool_by_pool() {
    let result = TaskGraphBuilder::new()
        .add_pool(1, |pool| {
            pool.add_callback(make_callback_node("first", 0, &[], 0, &[]))
        })
        .add_pool(1, |pool| {
            pool.add_callback(make_callback_node("second", 1, &[EXECUTION_LOG_CHANNEL], 0, &[]))
        })
        .add_build_step(AnyGraphStep {
            inner: Box::new(AddListener),
        })
        .build();
    // What a build step adds goes to the first pool, before the second.
    match result {
        Err(TaskGraphBuildError::ExecutionLogError(error)) => {
            assert_eq!(error.subscriber_node, "added");
            assert_eq!(error.channel_name, EXECUTION_LOG_CHANNEL);
        }
        _ => panic!("the inputs have the wrong type"),
    }
}
