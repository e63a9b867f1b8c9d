use std::sync::{Arc, Mutex};

use cfw::callback::{
    AnyCallback, AnyDuration, AnySchedule, Callback, CallbackNode, NodePorts, PublisherPort, Run,
    SubscriberPort,
};
use cfw::callback_storage::CallbackStorage;
use cfw::channel_map::ChannelMap;
use cfw::channel_registry::ChannelRegistry;
use cfw::connect_graph::connect_callback_nodes;
use cfw::context::Context;
use cfw::iox2_data::{Iox2OptionalInput, Iox2Subscriber, Received};
use cfw::iox2_event::{
    EventRecord, Iox2Event, Iox2EventSubscriber, Iox2Notifier, Iox2NotifyOutput,
};
use cfw::message::Message;
use cfw::output::Output;
use cfw::pub_sub::PubSub;
use cfw::publisher::PublisherConfig;
use cfw::simulation::{SimulationState, StepError};
use cfw::simulation_iox2::{Iox2InputError, Iox2SimulationState};
use cfw::subscriber::SubscriberConfig;
use cfw::time::{Duration, FrameworkTime};

const U64_TYPE: u64 = 64;
const U32_TYPE: u64 = 32;

type Inputs = Arc<Mutex<Iox2SimulationState<u64>>>;
type Observed = Arc<Mutex<Vec<(Option<(u64, FrameworkTime)>, Vec<(usize, u64)>)>>>;

fn at(nanoseconds: i64) -> FrameworkTime {
    FrameworkTime::from_nanoseconds(nanoseconds)
}

fn input_config(channel: &str, capacity: usize, is_trigger: bool) -> SubscriberConfig {
    SubscriberConfig {
        is_optional: true,
        capacity,
        is_trigger,
        keep_across_runs: true,
        channel_name: channel.to_string(),
    }
}

fn event_input(channel: &str, capacity: usize) -> Iox2EventSubscriber {
    Iox2EventSubscriber::new(input_config(channel, capacity, true))
}

/// A data input of a node, and what its port holds.
struct DataInput {
    node: usize,
    channel: String,
    port: Vec<Message<u64>>,
    input: Arc<Mutex<Iox2Subscriber<u64>>>,
}

impl DataInput {
    fn new(node: usize, channel: &str) -> Self {
        let input = Iox2Subscriber::new(input_config(channel, 4, false), U64_TYPE);
        DataInput {
            node,
            channel: channel.to_string(),
            port: vec![],
            input: Arc::new(Mutex::new(input)),
        }
    }
}

/// A simulation together with the inputs from outside its graph.
struct Simulation {
    state: SimulationState<u64>,
    inputs: Inputs,
    owners: Vec<usize>,
    data: Vec<DataInput>,
}

impl Simulation {
    /// A step; `activations` is what each listener was notified of before it.
    fn step(&mut self, activations: &[Vec<EventRecord>]) -> Vec<usize> {
        let mut inputs = self.inputs.lock().unwrap();
        let now = self.state.simulation_time();
        for (channel, header, message) in inputs.dispatch_due_inputs(now) {
            for data in self.data.iter_mut().filter(|d| d.channel == channel) {
                data.port.push(Message { header, message });
            }
        }
        for (listener, activations) in activations.iter().enumerate() {
            inputs.poll_listener(listener, activations);
        }
        inputs.tell(&self.owners, &mut self.state);
        let runnable = self.state.begin_step();
        inputs.drain_listeners(&self.owners, &runnable);
        drop(inputs);
        for data in &mut self.data {
            if runnable.contains(&data.node) {
                let mut input = data.input.lock().unwrap();
                for message in data.port.drain(..) {
                    assert!(input.receive(Received::Sample(message)));
                }
                assert!(!input.receive(Received::Empty));
            }
        }
        self.state.finish_step(&runnable).unwrap();
        runnable
    }
}

/// Observes what arrives from outside the graph.
struct Consumer {
    inputs: Inputs,
    listener: usize,
    data: Option<Arc<Mutex<Iox2Subscriber<u64>>>>,
    required: Option<SubscriberConfig>,
    observed: Observed,
}

impl Callback<u64> for Consumer {
    fn next_time(&self) -> Option<FrameworkTime> {
        None
    }

    fn wants_stop(&self) -> bool {
        false
    }

    fn run_generic(&mut self, _: &mut PubSub<u64>, _: &NodePorts, _: &Context) -> Run {
        let data = self.data.as_ref().and_then(|data| {
            let mut data = data.lock().unwrap();
            let input = Iox2OptionalInput::new(&mut data);
            input
                .value()
                .copied()
                .zip(input.header().map(|header| header.published_at))
        });
        let inputs = self.inputs.lock().unwrap();
        let events = Iox2Event::new(&inputs.event_listeners[self.listener]).records();
        self.observed.lock().unwrap().push((data, events));
        Run::new(1)
    }

    fn register_channels(&self, _: &mut ChannelRegistry) {}

    fn build_subscribers(&self) -> Vec<SubscriberPort> {
        self.required
            .iter()
            .map(|config| SubscriberPort {
                config: config.clone(),
                value_type: U64_TYPE,
            })
            .collect()
    }

    fn build_publishers(&self) -> Vec<PublisherPort> {
        vec![]
    }
}

struct GatePublisher(String);

impl Callback<u64> for GatePublisher {
    fn next_time(&self) -> Option<FrameworkTime> {
        None
    }

    fn wants_stop(&self) -> bool {
        false
    }

    fn run_generic(&mut self, system: &mut PubSub<u64>, ports: &NodePorts, _: &Context) -> Run {
        let output = Output::new_default(system, ports.publisher(0), 42);
        output.send(system);
        Run::new(1)
    }

    fn register_channels(&self, _: &mut ChannelRegistry) {}

    fn build_subscribers(&self) -> Vec<SubscriberPort> {
        vec![]
    }

    fn build_publishers(&self) -> Vec<PublisherPort> {
        vec![PublisherPort {
            config: PublisherConfig {
                capacity: 1,
                channel_name: self.0.clone(),
            },
            value_type: U64_TYPE,
            forwarded_channels: vec![],
        }]
    }
}

struct EventProducer(Arc<Mutex<Iox2Notifier>>);

impl Callback<u64> for EventProducer {
    fn next_time(&self) -> Option<FrameworkTime> {
        None
    }

    fn wants_stop(&self) -> bool {
        false
    }

    fn run_generic(&mut self, _: &mut PubSub<u64>, _: &NodePorts, _: &Context) -> Run {
        Iox2NotifyOutput::new(&mut self.0.lock().unwrap()).send();
        Run::new(1)
    }

    fn register_channels(&self, _: &mut ChannelRegistry) {}

    fn build_subscribers(&self) -> Vec<SubscriberPort> {
        vec![]
    }

    fn build_publishers(&self) -> Vec<PublisherPort> {
        vec![]
    }
}

fn node(name: &str, callback: impl Callback<u64> + 'static) -> CallbackNode<u64> {
    let mut node = CallbackNode::new_named(
        AnyCallback {
            inner: Box::new(callback),
        },
        name.to_string(),
    );
    node.set_execution_duration_callback(AnyDuration::fixed(Duration::zero()));
    node
}

fn new_inputs(listeners: Vec<Iox2EventSubscriber>, data_channels: &[&str]) -> Inputs {
    let mut data = ChannelMap::new();
    for channel in data_channels {
        data.insert(channel.to_string(), U64_TYPE);
    }
    Arc::new(Mutex::new(Iox2SimulationState::new(listeners, data)))
}

fn new_state(threads: usize, mut nodes: Vec<CallbackNode<u64>>) -> SimulationState<u64> {
    let system = connect_callback_nodes(&mut nodes).unwrap();
    SimulationState::new(threads, CallbackStorage::from_nodes(nodes), system)
}

/// The scheduler sees listener activations only at step boundaries and retains
/// them behind required-input gates.
#[test]
fn event_polling_respects_step_boundaries_and_required_inputs() {
    let observed: Observed = Arc::new(Mutex::new(vec![]));
    let inputs = new_inputs(vec![event_input("gate_event", 4)], &[]);
    let consumer = node(
        "event_consumer",
        Consumer {
            inputs: inputs.clone(),
            listener: 0,
            data: None,
            required: Some(SubscriberConfig {
                is_optional: false,
                capacity: 1,
                is_trigger: false,
                keep_across_runs: true,
                channel_name: "gate_data".to_string(),
            }),
            observed: observed.clone(),
        },
    );
    let gate_publisher = node("gate_publisher", GatePublisher("gate_data".to_string()));
    let mut simulation = Simulation {
        state: new_state(2, vec![consumer, gate_publisher]),
        inputs: inputs.clone(),
        owners: vec![0],
        data: vec![],
    };
    simulation.state.start();
    let notified = vec![vec![
        EventRecord { event_id: 0, count: 1 },
        EventRecord { event_id: 0, count: 1 },
        EventRecord { event_id: 0, count: 1 },
    ]];
    inputs
        .lock()
        .unwrap()
        .schedule_iox2_event(at(0), "gate_event", 1, 4)
        .unwrap();

    assert!(simulation.step(&notified).is_empty());
    assert!(observed.lock().unwrap().is_empty());

    let state = &mut simulation.state;
    let now = state.simulation_time();
    let ctx = Context::new(now, &state.channel_interner, &state.callback_interner);
    let gate = &mut state.nodes.nodes[1].node;
    gate.run(&mut state.system, &ctx);
    gate.flush_publishers(&mut state.system, now);

    assert_eq!(simulation.step(&[]), vec![0]);
    assert_eq!(
        *observed.lock().unwrap(),
        vec![(None, vec![(1, 4), (0, 3)])]
    );
}

/// Notifications emitted by callback output flushes are polled at the following
/// step boundary.
#[test]
fn callback_notification_is_visible_on_next_step() {
    let observed: Observed = Arc::new(Mutex::new(vec![]));
    let inputs = new_inputs(vec![event_input("next_step", 4)], &[]);
    let notifier = Arc::new(Mutex::new(Iox2Notifier::new(PublisherConfig {
        capacity: 1,
        channel_name: "next_step".to_string(),
    })));
    let mut producer = node("event_producer", EventProducer(notifier.clone()));
    producer.set_execution_time_callback(AnySchedule::periodic(Duration::from_millis(1_000)));
    let consumer = node(
        "event_consumer",
        Consumer {
            inputs: inputs.clone(),
            listener: 0,
            data: None,
            required: None,
            observed: observed.clone(),
        },
    );
    let mut simulation = Simulation {
        state: new_state(2, vec![producer, consumer]),
        inputs,
        owners: vec![1],
        data: vec![],
    };
    simulation.state.start();

    assert_eq!(simulation.step(&[]), vec![0]);
    assert!(observed.lock().unwrap().is_empty());
    assert!(notifier.lock().unwrap().flush_loaned_values());
    let notified = vec![vec![EventRecord { event_id: 0, count: 1 }]];
    assert!(simulation.step(&notified).contains(&1));
    assert_eq!(*observed.lock().unwrap(), vec![(None, vec![(0, 1)])]);
}

/// Events fan out in stable order at step boundaries, and data waits for them.
#[test]
fn scheduled_data_and_events_are_deterministic() {
    let first: Observed = Arc::new(Mutex::new(vec![]));
    let second: Observed = Arc::new(Mutex::new(vec![]));
    let inputs = new_inputs(
        vec![
            event_input("synthetic_event", 4),
            event_input("synthetic_event", 4),
        ],
        &["synthetic_data"],
    );
    let data = vec![
        DataInput::new(0, "synthetic_data"),
        DataInput::new(1, "synthetic_data"),
    ];
    let consumer = |name: &str, listener: usize, observed: &Observed| {
        node(
            name,
            Consumer {
                inputs: inputs.clone(),
                listener,
                data: Some(data[listener].input.clone()),
                required: None,
                observed: observed.clone(),
            },
        )
    };
    let nodes = vec![
        consumer("first_consumer", 0, &first),
        consumer("second_consumer", 1, &second),
    ];
    let mut simulation = Simulation {
        state: new_state(2, nodes),
        inputs: inputs.clone(),
        owners: vec![0, 1],
        data,
    };
    let sample_time = at(21);
    {
        let mut inputs = inputs.lock().unwrap();
        assert!(matches!(
            inputs.schedule_iox2_data(sample_time, "synthetic_data", 1, U32_TYPE),
            Err(Iox2InputError::PayloadTypeMismatch(_))
        ));
        assert!(matches!(
            inputs.schedule_iox2_data(sample_time, "not_a_data_channel", 1, U64_TYPE),
            Err(Iox2InputError::UnknownDataChannel(_))
        ));
        inputs
            .schedule_iox2_data(sample_time, "synthetic_data", 99, U64_TYPE)
            .unwrap();
    }
    simulation.state.start();

    assert!(simulation.step(&[]).is_empty());
    assert_eq!(simulation.state.simulation_time(), sample_time);
    assert!(simulation.step(&[]).is_empty());
    assert!(first.lock().unwrap().is_empty());
    assert!(second.lock().unwrap().is_empty());

    {
        let mut inputs = inputs.lock().unwrap();
        inputs
            .schedule_iox2_event(sample_time, "synthetic_event", 6, 9_000_000_000)
            .unwrap();
        inputs
            .schedule_iox2_event(sample_time, "synthetic_event", 3, 2)
            .unwrap();
    }
    assert_eq!(simulation.step(&[]), vec![0, 1]);
    let expected = vec![(
        Some((99, sample_time)),
        vec![(6, 9_000_000_000), (3, 2)],
    )];
    assert_eq!(*first.lock().unwrap(), expected);
    assert_eq!(*second.lock().unwrap(), expected);

    let late_time = at(1);
    {
        let mut inputs = inputs.lock().unwrap();
        inputs
            .schedule_iox2_data(late_time, "synthetic_data", 100, U64_TYPE)
            .unwrap();
        inputs
            .schedule_iox2_event(late_time, "synthetic_event", 1, 4)
            .unwrap();
    }
    assert_eq!(simulation.step(&[]), vec![0, 1]);
    assert_eq!(simulation.state.simulation_time(), sample_time);
    assert_eq!(first.lock().unwrap()[1].0, Some((100, late_time)));
    assert_eq!(first.lock().unwrap()[1].1, vec![(1, 4)]);
}

/// A future event input advances an otherwise idle simulation clock.
#[test]
fn future_event_advances_simulation_time() {
    let observed: Observed = Arc::new(Mutex::new(vec![]));
    let inputs = new_inputs(vec![event_input("future_event", 2)], &[]);
    let consumer = node(
        "event_consumer",
        Consumer {
            inputs: inputs.clone(),
            listener: 0,
            data: None,
            required: None,
            observed: observed.clone(),
        },
    );
    let mut simulation = Simulation {
        state: new_state(1, vec![consumer]),
        inputs: inputs.clone(),
        owners: vec![0],
        data: vec![],
    };
    let scheduled_at = at(44);
    inputs
        .lock()
        .unwrap()
        .schedule_iox2_event(scheduled_at, "future_event", 5, 81)
        .unwrap();
    simulation.state.start();

    assert!(simulation.step(&[]).is_empty());
    assert_eq!(simulation.state.simulation_time(), scheduled_at);
    assert_eq!(simulation.step(&[]), vec![0]);
    assert_eq!(*observed.lock().unwrap(), vec![(None, vec![(5, 81)])]);
}

/// The clock stops at an input before a later periodic run, and a late input
/// does not move it.
#[test]
fn inputs_and_periodic_runs_share_the_clock() {
    let inputs = new_inputs(vec![event_input("ticks", 2)], &[]);
    let mut ticker = node("ticker", GatePublisher("unused".to_string()));
    ticker.set_execution_time_callback(AnySchedule::periodic(Duration::from_nanos(100)));
    let mut simulation = Simulation {
        state: new_state(1, vec![ticker]),
        inputs: inputs.clone(),
        owners: vec![0],
        data: vec![],
    };
    simulation.state.start();
    for time in [30, 140] {
        inputs
            .lock()
            .unwrap()
            .schedule_iox2_event(at(time), "ticks", 0, 1)
            .unwrap();
    }
    assert_eq!(simulation.step(&[]), vec![0]);
    assert_eq!(simulation.state.simulation_time(), at(30));
    assert_eq!(simulation.step(&[]), vec![0]);
    assert_eq!(simulation.state.simulation_time(), at(130));
    inputs
        .lock()
        .unwrap()
        .schedule_iox2_event(at(5), "ticks", 0, 1)
        .unwrap();
    assert_eq!(simulation.step(&[]), vec![0]);
    assert_eq!(simulation.state.simulation_time(), at(140));
}

/// A step that was begun without a thread to run its nodes fails and changes
/// nothing more.
#[test]
fn a_step_without_executors_does_not_finish() {
    let inputs = new_inputs(vec![event_input("ticks", 2)], &[]);
    let ticker = node("ticker", GatePublisher("unused".to_string()));
    let mut state = new_state(1, vec![ticker]);
    state.node_executor_thread_count = 0;
    inputs
        .lock()
        .unwrap()
        .schedule_iox2_event(at(0), "ticks", 0, 1)
        .unwrap();
    inputs.lock().unwrap().dispatch_due_inputs(at(0));
    inputs.lock().unwrap().tell(&vec![0], &mut state);
    let runnable = state.begin_step();
    assert_eq!(runnable, vec![0]);
    assert!(matches!(
        state.finish_step(&runnable),
        Err(StepError::NoNodeExecutors)
    ));
    assert_eq!(state.step_count(), 0);
}
