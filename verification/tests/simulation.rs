use std::sync::atomic::{AtomicUsize, Ordering};
use std::sync::{Arc, Mutex};

use cfw::callback::{
    AnyCallback, AnyDuration, AnySchedule, Callback, CallbackNode, NodePorts, PublisherPort, Run,
    SubscriberPort,
};
use cfw::callback_storage::CallbackStorage;
use cfw::channel_registry::ChannelRegistry;
use cfw::connect_graph::connect_callback_nodes;
use cfw::context::Context;
use cfw::executor::{ExecutorParams, ExecutorStopSignal, ThreadPoolConfig};
use cfw::output::Output;
use cfw::pub_sub::PubSub;
use cfw::publisher::PublisherConfig;
use cfw::scheduling::CallbackNodeId;
use cfw::simulation::{SimulationConfig, SimulationExecutorError, SimulationState, StepError};
use cfw::simulation_executor::{shutdown_node_executor_threads, SimulationExecutor};
use cfw::single_pool::build_single_pool;
use cfw::subscriber::SubscriberConfig;
use cfw::test_tasks::{
    build_fizz_buzz_callback_nodes, build_no_op_callback_node, fizz_buzz, FizzBuzzCalculator,
    IncrementingIntegerPublisher, Sample, StringCollector, FIZZ_BUZZ_INDEX,
    INTEGER_PUBLISHER_INDEX, INTEGER_TYPE, STRING_STORE_INDEX, TEXT_TYPE,
};
use cfw::time::{Duration, FrameworkTime};

/// A collector whose texts the test can read.
struct SharedCollector(Arc<Mutex<StringCollector>>);

impl Callback<Sample> for SharedCollector {
    fn next_time(&self) -> Option<FrameworkTime> {
        None
    }

    fn wants_stop(&self) -> bool {
        self.0.lock().unwrap().wants_stop()
    }

    fn run_generic(
        &mut self,
        system: &mut PubSub<Sample>,
        ports: &NodePorts,
        ctx: &Context,
    ) -> Run {
        self.0.lock().unwrap().run_generic(system, ports, ctx)
    }

    fn register_channels(&self, registry: &mut ChannelRegistry) {
        self.0.lock().unwrap().register_channels(registry);
    }

    fn build_subscribers(&self) -> Vec<SubscriberPort> {
        self.0.lock().unwrap().build_subscribers()
    }

    fn build_publishers(&self) -> Vec<PublisherPort> {
        self.0.lock().unwrap().build_publishers()
    }
}

/// The fizz-buzz graph on `threads` threads, and what collects its texts.
fn fizz_buzz_state(
    threads: usize,
    target_count: usize,
) -> (SimulationState<Sample>, Arc<Mutex<StringCollector>>) {
    let collector = Arc::new(Mutex::new(StringCollector {
        string_store: StringCollector::make_string_store(),
        stop_requested: false,
        target_count,
    }));
    let mut store =
        StringCollector::build_callback_node(StringCollector::make_string_store(), target_count);
    store.callback = AnyCallback {
        inner: Box::new(SharedCollector(collector.clone())),
    };
    let nodes = vec![
        IncrementingIntegerPublisher::build_callback_node(),
        FizzBuzzCalculator::build_callback_node(),
        store,
    ];
    let mut built = build_single_pool(nodes, threads).unwrap();
    let pool = built.pools.remove(0);
    (
        SimulationState::new(threads, pool.nodes, built.system),
        collector,
    )
}

#[test]
fn test_simulation_state() {
    let (mut state, collector) = fizz_buzz_state(1, 100);
    state.start();
    let start_time = state.simulation_time();

    assert_eq!(state.nodes.len(), 3);

    let periodic = &state.schedule.periodic_nodes[0];
    assert_eq!(periodic.index, 0);
    assert_eq!(periodic.requested_exec_time, start_time);

    let executed_nodes = state.step().unwrap();
    assert_eq!(executed_nodes, vec![INTEGER_PUBLISHER_INDEX]);

    // After first step, the publisher should want to run in the future
    let periodic = &state.schedule.periodic_nodes[0];
    assert_eq!(periodic.index, 0);
    assert_eq!(
        periodic.requested_exec_time,
        start_time
            .saturating_add(Duration::from_millis(1))
            .saturating_add(Duration::from_millis(500)),
        "Publisher callback node takes 1ms to run and wants to run every 500ms"
    );

    let executed_nodes = state.step().unwrap();
    assert_eq!(
        executed_nodes,
        vec![FIZZ_BUZZ_INDEX],
        "After the second step, the fizz-buzz callback node should have run"
    );

    let executed_nodes = state.step().unwrap();
    assert_eq!(
        executed_nodes,
        vec![STRING_STORE_INDEX],
        "After the third step, the string store callback node should've run"
    );

    assert_eq!(
        collector.lock().unwrap().stored_strings(),
        vec!["FizzBuzz"]
    );
    assert_eq!(state.step_count(), 3);
}

struct CountingCallback(Arc<AtomicUsize>);

impl Callback<u64> for CountingCallback {
    fn next_time(&self) -> Option<FrameworkTime> {
        None
    }

    fn wants_stop(&self) -> bool {
        false
    }

    fn run_generic(&mut self, _: &mut PubSub<u64>, _: &NodePorts, _: &Context) -> Run {
        self.0.fetch_add(1, Ordering::Relaxed);
        Run::new(1)
    }

    fn register_channels(&self, _: &mut ChannelRegistry) {}

    fn build_subscribers(&self) -> Vec<SubscriberPort> {
        vec![]
    }

    fn build_publishers(&self) -> Vec<PublisherPort> {
        vec![]
    }
}

fn zero_duration(node: &mut CallbackNode<u64>) {
    node.set_execution_duration_callback(AnyDuration::fixed(Duration::from_nanos(0)));
}

/// Regression test: a zero-duration node must free its pool's virtual thread
/// as soon as its step completes.
#[test]
fn test_zero_duration_node_frees_pool_thread() {
    let run_count = Arc::new(AtomicUsize::new(0));
    let mut node = CallbackNode::new_named(
        AnyCallback {
            inner: Box::new(CountingCallback(run_count.clone())),
        },
        "zero_duration".to_string(),
    );
    zero_duration(&mut node);
    node.set_execution_time_callback(AnySchedule::periodic(Duration::from_nanos(1)));

    // Single-threaded pool: if the zero-duration node never frees its thread,
    // it runs at most once.
    let mut state = SimulationState::new(1, CallbackStorage::from_nodes(vec![node]), PubSub::new());
    state.start();

    for _ in 0..5 {
        let executed = state.step().unwrap();
        assert_eq!(executed, vec![0], "node should run every step");
    }
    assert_eq!(
        run_count.load(Ordering::Relaxed),
        5,
        "zero-duration node must run once per step, not wedge the pool"
    );
}

fn subscriber_port(channel: &str, is_trigger: bool) -> SubscriberPort {
    SubscriberPort {
        config: SubscriberConfig {
            is_optional: false,
            capacity: 1,
            is_trigger,
            keep_across_runs: true,
            channel_name: channel.to_string(),
        },
        value_type: 1,
    }
}

/// Publishes an incrementing counter, starting at `next`, once per run, up to
/// `max` messages.
struct CounterPublisher {
    channel: &'static str,
    next: u64,
    max: u64,
}

impl Callback<u64> for CounterPublisher {
    fn next_time(&self) -> Option<FrameworkTime> {
        None
    }

    fn wants_stop(&self) -> bool {
        false
    }

    fn run_generic(&mut self, system: &mut PubSub<u64>, ports: &NodePorts, _: &Context) -> Run {
        if self.next < self.max {
            let out = Output::new_default(system, ports.publisher(0), 0);
            *out.value_mut(system) = self.next;
            out.send(system);
            self.next += 1;
        }
        Run::new(1)
    }

    fn register_channels(&self, _: &mut ChannelRegistry) {}

    fn build_subscribers(&self) -> Vec<SubscriberPort> {
        vec![]
    }

    fn build_publishers(&self) -> Vec<PublisherPort> {
        vec![PublisherPort {
            config: PublisherConfig {
                capacity: 1,
                channel_name: self.channel.to_string(),
            },
            value_type: 1,
            forwarded_channels: vec![],
        }]
    }
}

/// Required trigger on "trigger", required non-trigger on "gate". Records
/// every run's observed values; a run missing either value is a gating
/// violation.
struct GatedConsumer {
    runs: Arc<Mutex<Vec<(u64, u64)>>>,
    violations: Arc<AtomicUsize>,
}

impl Callback<u64> for GatedConsumer {
    fn next_time(&self) -> Option<FrameworkTime> {
        None
    }

    fn wants_stop(&self) -> bool {
        false
    }

    fn run_generic(&mut self, system: &mut PubSub<u64>, ports: &NodePorts, _: &Context) -> Run {
        let trigger = system.front(ports.subscriber(0)).map(|m| m.message);
        let gate = system.front(ports.subscriber(1)).map(|m| m.message);
        match (trigger, gate) {
            (Some(a), Some(b)) => self.runs.lock().unwrap().push((a, b)),
            _ => {
                self.violations.fetch_add(1, Ordering::Relaxed);
            }
        }
        Run::new(1)
    }

    fn register_channels(&self, _: &mut ChannelRegistry) {}

    fn build_subscribers(&self) -> Vec<SubscriberPort> {
        vec![
            subscriber_port("trigger", true),
            subscriber_port("gate", false),
        ]
    }

    fn build_publishers(&self) -> Vec<PublisherPort> {
        vec![]
    }
}

/// A node with a required trigger input and a required non-trigger input must
/// only run once BOTH have values, and must re-run on later trigger data while
/// the non-trigger input's value is retained.
#[test]
fn test_required_non_trigger_input_gates_execution() {
    let make_periodic = |callback: CounterPublisher, name: &str| {
        let mut node = CallbackNode::new_named(
            AnyCallback {
                inner: Box::new(callback),
            },
            name.to_string(),
        );
        zero_duration(&mut node);
        node.set_execution_time_callback(AnySchedule::periodic(Duration::from_nanos(1)));
        node
    };

    // The trigger channel gets a steady stream, its gating channel
    // a single value (100) and then nothing: its value must be
    // retained by the consumer's read buffer.
    let trigger_node = make_periodic(
        CounterPublisher {
            channel: "trigger",
            next: 0,
            max: 100,
        },
        "trigger_producer",
    );
    let gate_node = make_periodic(
        CounterPublisher {
            channel: "gate",
            next: 100,
            max: 101,
        },
        "gate_producer",
    );

    let runs = Arc::new(Mutex::new(Vec::new()));
    let violations = Arc::new(AtomicUsize::new(0));
    let mut consumer = CallbackNode::new_named(
        AnyCallback {
            inner: Box::new(GatedConsumer {
                runs: runs.clone(),
                violations: violations.clone(),
            }),
        },
        "consumer".to_string(),
    );
    zero_duration(&mut consumer);

    let mut nodes = vec![trigger_node, gate_node, consumer];
    let system = connect_callback_nodes(&mut nodes).expect("channels connect");

    let mut state = SimulationState::new(1, CallbackStorage::from_nodes(nodes), system);
    state.start();
    for _ in 0..20 {
        state.step().unwrap();
    }

    assert_eq!(
        violations.load(Ordering::Relaxed),
        0,
        "consumer must never run while a required input has no value"
    );
    let observed = runs.lock().unwrap();
    assert!(
        observed.len() >= 2,
        "consumer should re-run on new trigger data while its gating value is retained, got {observed:?}"
    );
    for &(_, gate_value) in observed.iter() {
        assert_eq!(
            gate_value, 100,
            "gating value must be the retained single publish"
        );
    }
    // Every run pairs the newest trigger value with the retained gating value.
    assert!(observed.windows(2).all(|w| w[0].0 < w[1].0));
}

fn config_of<T>(state: SimulationState<T>, threads: usize) -> SimulationConfig<T> {
    SimulationConfig {
        start_time: FrameworkTime::from_nanoseconds(0),
        executor_params: ExecutorParams::new(vec![ThreadPoolConfig::new(threads, state.nodes)]),
        system: state.system,
        node_executor_thread_count: 1,
    }
}

#[test]
fn test_simulation_exec() {
    let (state, collector) = fizz_buzz_state(1, 10);
    let mut exec = SimulationExecutor::new_with(config_of(state, 1));

    assert!(!exec.is_running());
    exec.start();
    assert!(exec.is_running());
    // The collector comes to its end with the tenth text.
    while exec.advance() {}
    exec.finish();
    assert!(exec.join(false).is_ok());
    let stop_result = exec.stop(false, &vec![true]);
    assert!(stop_result.is_ok());

    assert!(!exec.is_running());
    assert_eq!(
        collector.lock().unwrap().stored_strings(),
        vec!["FizzBuzz", "1", "2", "Fizz", "4", "Buzz", "Fizz", "7", "8", "Fizz"]
    );
}

#[derive(PartialEq, Eq, PartialOrd, Ord, Debug)]
struct StepState {
    nodes_executed: Vec<usize>,
    offset_from_start: u128,
    string_store: Vec<String>,
}

fn run_fizz_buzz_for_n_steps(step_count: usize, thread_count: usize) -> Vec<StepState> {
    let (mut state, collector) = fizz_buzz_state(thread_count, 1000);
    let start_time = state.simulation_time();
    state.start();

    let mut step_history = vec![];
    for _ in 0..step_count {
        let maybe_offset = state.simulation_time().checked_duration_since(start_time);
        assert!(maybe_offset.is_some());
        let nodes_executed = state.step().unwrap();
        step_history.push(StepState {
            nodes_executed,
            offset_from_start: maybe_offset.unwrap().nanoseconds,
            string_store: collector.lock().unwrap().stored_strings(),
        });
    }
    step_history
}

#[test]
fn test_determinism() {
    let history_first = run_fizz_buzz_for_n_steps(50, 2);
    let history_second = run_fizz_buzz_for_n_steps(50, 2);
    assert_eq!(history_first, history_second);
}

/// The steps of the fizz-buzz graph with so many threads to execute nodes.
fn history_with_executors(executors: usize) -> Vec<(Vec<usize>, i64, Vec<String>)> {
    let (state, collector) = fizz_buzz_state(2, 1000);
    let mut config = config_of(state, 2);
    config.node_executor_thread_count = executors;
    let mut state = SimulationState::new_with(config);
    state.start();
    (0..30)
        .map(|_| {
            let executed = state.step().unwrap();
            let time = state.simulation_time().to_nanoseconds();
            (executed, time, collector.lock().unwrap().stored_strings())
        })
        .collect()
}

#[test]
fn the_number_of_executing_threads_changes_no_step() {
    let history = history_with_executors(1);
    assert_eq!(history[2].2, vec!["FizzBuzz"]);
    assert_eq!(history, history_with_executors(4));
}

/// Fair (longest-wait-first) scheduling prevents starvation.
///
/// Three callback nodes compete for a single virtual thread. Each node
/// re-schedules itself for the instant it finishes (period = 0), so all three
/// are always simultaneously ready.
#[test]
fn test_no_starvation() {
    let nodes: Vec<CallbackNode<u64>> = (0..3).map(|_| build_no_op_callback_node()).collect();

    // 1 virtual thread, 3 callback nodes
    let mut state = SimulationState::new(1, CallbackStorage::from_nodes(nodes), PubSub::new());
    state.start();

    let mut run_counts = vec![0usize; 3];
    for _ in 0..6 {
        for idx in state.step().unwrap() {
            run_counts[idx] += 1;
        }
    }

    for (i, &count) in run_counts.iter().enumerate() {
        assert!(
            count > 0,
            "callback node {i} never ran: starvation detected"
        );
    }

    // Each callback node should have run roughly equally (within 1 of each
    // other), since they are identical and always simultaneously ready.
    let min = *run_counts.iter().min().unwrap();
    let max = *run_counts.iter().max().unwrap();
    assert!(
        max - min <= 1,
        "callback nodes ran unequally: {run_counts:?}: scheduling is unfair"
    );
}

#[test]
fn no_arena_runs_out_however_long_the_run() {
    let (mut state, _) = fizz_buzz_state(1, 1000);
    state.start();
    for _ in 0..300 {
        state.step().unwrap();
        for publisher in &state.system.publishers {
            assert!(publisher.arena.storage.iter().any(|slot| slot.ref_count == 0));
        }
    }
}

#[test]
fn time_advances_with_the_nodes_that_run() {
    let (mut state, _) = fizz_buzz_state(1, 100);
    state.start();
    let mut last = state.simulation_time();
    for _ in 0..30 {
        state.step().unwrap();
        assert!(last.nanoseconds <= state.simulation_time().nanoseconds);
        last = state.simulation_time();
    }
    assert!(last.nanoseconds > 0);
}

#[test]
fn nothing_runs_without_node_executors() {
    let node: CallbackNode<u64> = build_no_op_callback_node();
    let mut exec = SimulationExecutor::new_with(SimulationConfig {
        start_time: FrameworkTime::from_nanoseconds(5),
        executor_params: ExecutorParams::new(vec![ThreadPoolConfig::new(
            1,
            CallbackStorage::from_nodes(vec![node]),
        )]),
        system: PubSub::new(),
        node_executor_thread_count: 0,
    });
    exec.start();
    assert!(!exec.advance());
    assert!(matches!(
        exec.join(false),
        Err(StepError::NoNodeExecutors)
    ));
    assert!(matches!(
        exec.join(true),
        Err(StepError::StepThreadPanicked)
    ));
    assert_eq!(exec.simulation_time(), FrameworkTime::from_nanoseconds(5));
}

#[test]
fn panicked_threads_are_named() {
    assert!(shutdown_node_executor_threads(&vec![true, true]).is_ok());
    assert_eq!(
        shutdown_node_executor_threads(&vec![false, true, false]),
        Err(vec![0, 2])
    );
    let (state, _) = fizz_buzz_state(1, 1);
    let mut exec = SimulationExecutor::new_with(config_of(state, 1));
    let error = exec.stop(true, &vec![]).err().unwrap();
    assert_eq!(error.to_string(), "step thread panicked");
    let error = exec.stop(false, &vec![true, false]).err().unwrap();
    assert!(matches!(
        error,
        SimulationExecutorError::NodeExecutorThreadsPanicked(_)
    ));
    assert_eq!(error.to_string(), "node executor threads panicked: [1]");
}

#[test]
fn fizz_buzz_of_small_numbers() {
    let texts: Vec<String> = (0..16).map(fizz_buzz).collect();
    assert_eq!(
        texts,
        vec![
            "FizzBuzz", "1", "2", "Fizz", "4", "Buzz", "Fizz", "7", "8", "Fizz", "Buzz", "11",
            "Fizz", "13", "14", "FizzBuzz"
        ]
    );
}

#[test]
fn the_fizz_buzz_graph_builds() {
    let built =
        build_fizz_buzz_callback_nodes(StringCollector::make_string_store(), 3).unwrap();
    assert_eq!(built.pools.len(), 1);
    assert_eq!(built.pools[0].nodes.len(), 3);
    assert_eq!(
        built.pools[0].nodes.node_id_by_name("FizzBuzzCalculator"),
        Some(CallbackNodeId(FIZZ_BUZZ_INDEX))
    );
}

/// Building a graph makes the channels of its tasks known.
#[test]
fn a_built_graph_knows_its_channels() {
    let built = build_fizz_buzz_callback_nodes(StringCollector::make_string_store(), 1).unwrap();
    let registry = &built.channel_registry;
    assert_eq!(registry.channel_type("integer"), Some(INTEGER_TYPE));
    assert_eq!(registry.channel_type("fizz_buzz_string"), Some(TEXT_TYPE));
    assert_eq!(registry.channel_type("other"), None);
    assert!(registry.serializer_for(TEXT_TYPE).is_some());
}

#[test]
fn registering_again_changes_nothing() {
    let mut registry = ChannelRegistry::new();
    let calculator = FizzBuzzCalculator {};
    calculator.register_channels(&mut registry);
    let known = registry.serializer_count();
    calculator.register_channels(&mut registry);
    assert_eq!(registry.serializer_count(), known);
    assert_eq!(known, 3);
    assert_eq!(registry.channel_type("integer"), Some(INTEGER_TYPE));
}
