//! Attaches fixtures to unconnected callback nodes and builds an executor of
//! both.
//!
//! A fixture is a node that never runs: its one output feeds the inputs of a
//! channel, or its one input captures what a channel carries.
use vstd::prelude::*;

use crate::callback::{
    AnyCallback, AnyDuration, CallbackNode, Memory, PublisherPort, SubscriberPort,
};
use crate::message::Message;
use crate::pub_sub::PubSub;
use crate::pub_sub_factory::Iox2EndpointInfo;
use crate::publisher::PublisherConfig;
use crate::callback_storage::CallbackStorage;
use crate::subscriber::SubscriberConfig;
use crate::task_graph_builder::{BuiltTaskGraph, TaskGraphBuildError};
use crate::test_tasks::NoOpCallback;
use crate::time::{Duration, FrameworkTime};
use crate::unit_test_executor::UnitTestExecutor;

verus! {

/// How many messages a capturing fixture keeps, unless a test says otherwise.
pub const DEFAULT_TEST_SUBSCRIBER_CAPACITY: usize = 16;

/// Why a fixture cannot be attached.
#[derive(Debug)]
pub enum FixtureError {
    NoSubscriber { channel: String },
    NoPublisher { channel: String },
    PublisherMismatch { channel: String, node: String },
    SubscriberMismatch { channel: String, node: String },
}

impl FixtureError {
    /// The error as a message.
    pub open spec fn text(self) -> Seq<char> {
        match self {
            FixtureError::NoSubscriber { channel } => "No subscriber for channel '"@ + channel@
                + "'"@,
            FixtureError::NoPublisher { channel } => "No publisher for channel '"@ + channel@
                + "'"@,
            FixtureError::PublisherMismatch { channel, node } =>
            "Type mismatch connecting TestPublisher to channel '"@ + channel@
                + "' on callback node '"@ + node@ + "'"@,
            FixtureError::SubscriberMismatch { channel, node } =>
            "Type mismatch connecting TestSubscriber to channel '"@ + channel@
                + "' on callback node '"@ + node@ + "'"@,
        }
    }

    pub fn to_string(&self) -> (r: String)
        ensures
            r@ == self.text(),
    {
        match self {
            FixtureError::NoSubscriber { channel } => {
                let mut text = "No subscriber for channel '".to_owned();
                text.append(channel.as_str());
                text.append("'");
                text
            },
            FixtureError::NoPublisher { channel } => {
                let mut text = "No publisher for channel '".to_owned();
                text.append(channel.as_str());
                text.append("'");
                text
            },
            FixtureError::PublisherMismatch { channel, node } => {
                let mut text = "Type mismatch connecting TestPublisher to channel '".to_owned();
                text.append(channel.as_str());
                text.append("' on callback node '");
                text.append(node.as_str());
                text.append("'");
                text
            },
            FixtureError::SubscriberMismatch { channel, node } => {
                let mut text = "Type mismatch connecting TestSubscriber to channel '".to_owned();
                text.append(channel.as_str());
                text.append("' on callback node '");
                text.append(node.as_str());
                text.append("'");
                text
            },
        }
    }
}

/// Whether input `i` of node `n` is on `channel`.
pub open spec fn reads<T>(nodes: Seq<CallbackNode<T>>, channel: Seq<char>, n: int, i: int) -> bool {
    &&& 0 <= n < nodes.len()
    &&& 0 <= i < nodes[n].subscribers@.len()
    &&& nodes[n].subscribers@[i].config.channel_name@ == channel
}

/// Whether output `i` of node `n` is on `channel`.
pub open spec fn writes<T>(nodes: Seq<CallbackNode<T>>, channel: Seq<char>, n: int, i: int) -> bool {
    &&& 0 <= n < nodes.len()
    &&& 0 <= i < nodes[n].publishers@.len()
    &&& nodes[n].publishers@[i].config.channel_name@ == channel
}

/// Whether some input is on `channel`.
pub open spec fn has_reader<T>(nodes: Seq<CallbackNode<T>>, channel: Seq<char>) -> bool {
    exists|n: int, i: int| #[trigger] reads(nodes, channel, n, i)
}

/// Whether some output is on `channel`.
pub open spec fn has_writer<T>(nodes: Seq<CallbackNode<T>>, channel: Seq<char>) -> bool {
    exists|n: int, i: int| #[trigger] writes(nodes, channel, n, i)
}

/// Whether input `i` of node `n` is on `channel` and reads another type.
pub open spec fn reads_other<T>(
    nodes: Seq<CallbackNode<T>>,
    channel: Seq<char>,
    value_type: u64,
    n: int,
    i: int,
) -> bool {
    reads(nodes, channel, n, i) && nodes[n].subscribers@[i].value_type != value_type
}

/// Whether output `i` of node `n` is on `channel` and sends another type.
pub open spec fn writes_other<T>(
    nodes: Seq<CallbackNode<T>>,
    channel: Seq<char>,
    value_type: u64,
    n: int,
    i: int,
) -> bool {
    writes(nodes, channel, n, i) && nodes[n].publishers@[i].value_type != value_type
}

/// Whether `n` is the first node with an input on `channel` of another type.
pub open spec fn first_other_reader<T>(
    nodes: Seq<CallbackNode<T>>,
    channel: Seq<char>,
    value_type: u64,
    n: int,
) -> bool {
    &&& exists|i: int| #[trigger] reads_other(nodes, channel, value_type, n, i)
    &&& forall|m: int, i: int|
        m < n ==> !#[trigger] reads_other(nodes, channel, value_type, m, i)
}

/// Whether `n` is the first node with an output on `channel` of another type.
pub open spec fn first_other_writer<T>(
    nodes: Seq<CallbackNode<T>>,
    channel: Seq<char>,
    value_type: u64,
    n: int,
) -> bool {
    &&& exists|i: int| #[trigger] writes_other(nodes, channel, value_type, n, i)
    &&& forall|m: int, i: int|
        m < n ==> !#[trigger] writes_other(nodes, channel, value_type, m, i)
}

/// What is known of the inputs on a channel.
struct Readers {
    found: bool,
    /// The capacities of all inputs on the channel.
    capacity: usize,
    /// The first node with an input of another type.
    other: Option<usize>,
}

proof fn lemma_usage_bounds<T>(nodes: Seq<CallbackNode<T>>, channel: Seq<char>, n: int, i: int)
    requires
        0 <= n < nodes.len(),
        0 <= i <= nodes[n].subscribers@.len(),
    ensures
        0 <= crate::connect::usage_of(nodes.take(n), channel),
        0 <= crate::connect::usage_in(nodes[n].subscribers@.take(i), channel),
        crate::connect::usage_of(nodes.take(n), channel) + crate::connect::usage_in(
            nodes[n].subscribers@.take(i),
            channel,
        ) <= crate::connect::usage_of(nodes, channel),
    decreases nodes.len(),
{
    lemma_usage_in_grows(nodes[n].subscribers@, channel, i);
    if n == nodes.len() - 1 {
        assert(nodes.take(n) =~= nodes.drop_last());
        lemma_usage_nonnegative(nodes.drop_last(), channel);
    } else {
        lemma_usage_bounds(nodes.drop_last(), channel, n, i);
        assert(nodes.drop_last().take(n) =~= nodes.take(n));
        lemma_usage_in_grows(nodes.last().subscribers@, channel, 0);
    }
}

proof fn lemma_usage_nonnegative<T>(nodes: Seq<CallbackNode<T>>, channel: Seq<char>)
    ensures
        crate::connect::usage_of(nodes, channel) >= 0,
    decreases nodes.len(),
{
    if nodes.len() > 0 {
        lemma_usage_nonnegative(nodes.drop_last(), channel);
        lemma_usage_in_grows(nodes.last().subscribers@, channel, 0);
    }
}

proof fn lemma_usage_in_grows(ports: Seq<SubscriberPort>, channel: Seq<char>, i: int)
    requires
        0 <= i <= ports.len(),
    ensures
        0 <= crate::connect::usage_in(ports.take(i), channel) <= crate::connect::usage_in(
            ports,
            channel,
        ),
    decreases ports.len(),
{
    if i == ports.len() {
        assert(ports.take(i) =~= ports);
        if ports.len() > 0 {
            lemma_usage_in_grows(ports.drop_last(), channel, i - 1);
        }
    } else {
        lemma_usage_in_grows(ports.drop_last(), channel, i);
        assert(ports.drop_last().take(i) =~= ports.take(i));
    }
}

/// Looks at every input on a channel.
fn scan_readers<T>(nodes: &Vec<CallbackNode<T>>, channel: &String, value_type: u64) -> (r: Readers)
    requires
        crate::connect::usage_of(nodes@, channel@) <= usize::MAX,
    ensures
        r.found == has_reader(nodes@, channel@),
        2 * r.capacity == crate::connect::usage_of(nodes@, channel@),
        r.other matches Some(n) ==> first_other_reader(nodes@, channel@, value_type, n as int),
        r.other is None ==> forall|n: int, i: int|
            !#[trigger] reads_other(nodes@, channel@, value_type, n, i),
{
    let mut found = false;
    let mut capacity: usize = 0;
    let mut other: Option<usize> = None;
    let mut n: usize = 0;
    assert(nodes@.take(0) =~= Seq::empty());
    while n < nodes.len()
        invariant
            n <= nodes@.len(),
            crate::connect::usage_of(nodes@, channel@) <= usize::MAX,
            found ==> has_reader(nodes@, channel@),
            !found ==> forall|m: int, i: int| m < n ==> !#[trigger] reads(nodes@, channel@, m, i),
            2 * capacity == crate::connect::usage_of(nodes@.take(n as int), channel@),
            other matches Some(k) ==> first_other_reader(nodes@, channel@, value_type, k as int),
            other is None ==> forall|m: int, i: int|
                m < n ==> !#[trigger] reads_other(nodes@, channel@, value_type, m, i),
        decreases nodes@.len() - n,
    {
        let ports = &nodes[n].subscribers;
        let mut i: usize = 0;
        assert(ports@.take(0) =~= Seq::empty());
        while i < ports.len()
            invariant
                n < nodes@.len(),
                ports@ == nodes@[n as int].subscribers@,
                i <= ports@.len(),
                crate::connect::usage_of(nodes@, channel@) <= usize::MAX,
                found ==> has_reader(nodes@, channel@),
                !found ==> forall|m: int, j: int|
                    m < n || m == n && j < i ==> !#[trigger] reads(nodes@, channel@, m, j),
                2 * capacity == crate::connect::usage_of(nodes@.take(n as int), channel@)
                    + crate::connect::usage_in(ports@.take(i as int), channel@),
                other matches Some(k) ==> first_other_reader(
                    nodes@,
                    channel@,
                    value_type,
                    k as int,
                ),
                other is None ==> forall|m: int, j: int|
                    m < n || m == n && j < i ==> !#[trigger] reads_other(
                        nodes@,
                        channel@,
                        value_type,
                        m,
                        j,
                    ),
            decreases ports@.len() - i,
        {
            proof {
                lemma_usage_bounds(nodes@, channel@, n as int, i + 1);
                assert(ports@.take(i + 1).drop_last() =~= ports@.take(i as int));
            }
            if ports[i].config.channel_name == *channel {
                assert(reads(nodes@, channel@, n as int, i as int));
                found = true;
                capacity = capacity + ports[i].config.capacity;
                if ports[i].value_type != value_type && other.is_none() {
                    assert(reads_other(nodes@, channel@, value_type, n as int, i as int));
                    other = Some(n);
                }
            }
            i = i + 1;
        }
        assert(ports@.take(i as int) =~= ports@);
        assert(nodes@.take(n + 1).drop_last() =~= nodes@.take(n as int));
        n = n + 1;
    }
    assert(nodes@.take(n as int) =~= nodes@);
    Readers { found, capacity, other }
}

/// Whether some output is on a channel, and the first node with one of another
/// type.
pub(crate) fn scan_writers<T>(nodes: &Vec<CallbackNode<T>>, channel: &String, value_type: u64) -> (r: (
    bool,
    Option<usize>,
))
    ensures
        r.0 == has_writer(nodes@, channel@),
        r.1 matches Some(n) ==> first_other_writer(nodes@, channel@, value_type, n as int),
        r.1 is None ==> forall|n: int, i: int|
            !#[trigger] writes_other(nodes@, channel@, value_type, n, i),
{
    let mut found = false;
    let mut other: Option<usize> = None;
    let mut n: usize = 0;
    while n < nodes.len()
        invariant
            n <= nodes@.len(),
            found ==> has_writer(nodes@, channel@),
            !found ==> forall|m: int, i: int| m < n ==> !#[trigger] writes(nodes@, channel@, m, i),
            other matches Some(k) ==> first_other_writer(nodes@, channel@, value_type, k as int),
            other is None ==> forall|m: int, i: int|
                m < n ==> !#[trigger] writes_other(nodes@, channel@, value_type, m, i),
        decreases nodes@.len() - n,
    {
        let ports = &nodes[n].publishers;
        let mut i: usize = 0;
        while i < ports.len()
            invariant
                n < nodes@.len(),
                ports@ == nodes@[n as int].publishers@,
                i <= ports@.len(),
                found ==> has_writer(nodes@, channel@),
                !found ==> forall|m: int, j: int|
                    m < n || m == n && j < i ==> !#[trigger] writes(nodes@, channel@, m, j),
                other matches Some(k) ==> first_other_writer(
                    nodes@,
                    channel@,
                    value_type,
                    k as int,
                ),
                other is None ==> forall|m: int, j: int|
                    m < n || m == n && j < i ==> !#[trigger] writes_other(
                        nodes@,
                        channel@,
                        value_type,
                        m,
                        j,
                    ),
            decreases ports@.len() - i,
        {
            if ports[i].config.channel_name == *channel {
                assert(writes(nodes@, channel@, n as int, i as int));
                found = true;
                if ports[i].value_type != value_type && other.is_none() {
                    assert(writes_other(nodes@, channel@, value_type, n as int, i as int));
                    other = Some(n);
                }
            }
            i = i + 1;
        }
        n = n + 1;
    }
    (found, other)
}

/// Whether `node` never runs and has these ports.
pub open spec fn is_fixture<T>(
    node: CallbackNode<T>,
    subscribers: Seq<SubscriberPort>,
    publishers: Seq<PublisherPort>,
) -> bool {
    &&& node.wf()
    &&& node.subscribers@ == subscribers
    &&& node.publishers@ == publishers
    &&& node.name@ == "fixture"@
    &&& node.execution_duration_callback is Some
    &&& forall|duration: Duration| #[trigger]
        node.execution_duration_callback->0.inner.allows(duration) ==> duration.nanoseconds == 0
    &&& forall|memory: Memory, now: FrameworkTime, next: Option<FrameworkTime>| #[trigger]
        node.asks(memory, now, next) ==> next is None
}

/// A node for a fixture.
fn fixture_node<T>(subscribers: Vec<SubscriberPort>, publishers: Vec<PublisherPort>) -> (r:
    CallbackNode<T>)
    requires
        crate::callback::subscriber_ports_valid(subscribers@),
    ensures
        is_fixture(r, subscribers@, publishers@),
{
    let mut node = CallbackNode::new_with(
        AnyCallback { inner: Box::new(NoOpCallback {  }) },
        subscribers,
        publishers,
        "fixture".to_owned(),
    );
    node.set_execution_duration_callback(AnyDuration::fixed(Duration::zero()));
    node
}

/// Builds a `UnitTestExecutor` with fixtures. The builder owns the unconnected
/// callback nodes, lets the test attach fixtures, and only then connects
/// everything.
#[verifier::reject_recursive_types(T)]
pub struct UnitTestExecutorBuilder<T> {
    pub nodes: Vec<CallbackNode<T>>,
    pub fixtures: Vec<CallbackNode<T>>,
    /// The shared-memory endpoints of the nodes.
    pub iox2_endpoints: Vec<Iox2EndpointInfo>,
    /// The shared-memory endpoints of the fixtures.
    pub iox2_fixtures: Vec<Iox2EndpointInfo>,
}

/// Whether each node can be connected and says how long an execution lasts.
pub open spec fn all_timed<T>(nodes: Seq<CallbackNode<T>>) -> bool {
    forall|n: int|
        0 <= n < nodes.len() ==> (#[trigger] nodes[n]).wf()
            && nodes[n].execution_duration_callback is Some
}

impl<T> UnitTestExecutorBuilder<T> {
    pub open spec fn wf(&self) -> bool {
        &&& all_timed(self.nodes@)
        &&& all_timed(self.fixtures@)
    }

    pub fn new(nodes: Vec<CallbackNode<T>>) -> (r: Self)
        ensures
            r.nodes == nodes,
            r.fixtures@.len() == 0,
            r.iox2_endpoints@.len() == 0,
            r.iox2_fixtures@.len() == 0,
            all_timed(nodes@) ==> r.wf(),
    {
        UnitTestExecutorBuilder {
            nodes,
            fixtures: Vec::new(),
            iox2_endpoints: Vec::new(),
            iox2_fixtures: Vec::new(),
        }
    }

    pub fn add_node(self, node: CallbackNode<T>) -> (r: Self)
        ensures
            r.nodes@ == self.nodes@.push(node),
            r.fixtures == self.fixtures,
            r.iox2_endpoints == self.iox2_endpoints,
            r.iox2_fixtures == self.iox2_fixtures,
            self.wf() && node.wf() && node.execution_duration_callback is Some ==> r.wf(),
    {
        let mut builder = self;
        builder.nodes.push(node);
        builder
    }

    /// Attaches a fixture that feeds every input on a channel. Its messages
    /// fit the capacities of all those inputs together.
    pub fn add_test_publisher(&mut self, channel_name: &str, value_type: u64) -> (r: Result<
        TestPublisher,
        FixtureError,
    >)
        requires
            old(self).wf(),
            crate::connect::usage_of(old(self).nodes@, channel_name@) <= usize::MAX,
        ensures
            final(self).wf(),
            final(self).nodes == old(self).nodes,
            final(self).iox2_endpoints == old(self).iox2_endpoints,
            final(self).iox2_fixtures == old(self).iox2_fixtures,
            r is Ok <==> has_reader(old(self).nodes@, channel_name@) && forall|n: int, i: int|
                !#[trigger] reads_other(old(self).nodes@, channel_name@, value_type, n, i),
            r is Err ==> final(self).fixtures == old(self).fixtures,
            r is Err && !has_reader(old(self).nodes@, channel_name@) ==> r->Err_0 is NoSubscriber
                && r->Err_0->NoSubscriber_channel@ == channel_name@,
            r is Err && has_reader(old(self).nodes@, channel_name@) ==> r->Err_0
                is PublisherMismatch && r->Err_0->PublisherMismatch_channel@ == channel_name@
                && exists|n: int| #[trigger]
                first_other_reader(old(self).nodes@, channel_name@, value_type, n)
                    && r->Err_0->PublisherMismatch_node@ == old(self).nodes@[n].name@,
            r matches Ok(publisher) ==> {
                &&& publisher.fixture == old(self).fixtures@.len()
                &&& final(self).fixtures@.len() == old(self).fixtures@.len() + 1
                &&& final(self).fixtures@.drop_last() == old(self).fixtures@
                &&& is_fixture(
                    final(self).fixtures@.last(),
                    Seq::empty(),
                    final(self).fixtures@.last().publishers@,
                )
                &&& final(self).fixtures@.last().publishers@.len() == 1
                &&& is_test_output(
                    final(self).fixtures@.last().publishers@[0],
                    channel_name@,
                    value_type,
                    crate::connect::usage_of(old(self).nodes@, channel_name@),
                )
            },
    {
        let channel = channel_name.to_owned();
        let readers = scan_readers(&self.nodes, &channel, value_type);
        if !readers.found {
            proof {
                assert forall|n: int, i: int|
                    !#[trigger] reads_other(self.nodes@, channel@, value_type, n, i) by {
                    assert(!reads(self.nodes@, channel@, n, i));
                }
            }
            return Err(FixtureError::NoSubscriber { channel });
        }
        if let Some(n) = readers.other {
            let node = self.nodes[n].name.clone();
            assert(first_other_reader(self.nodes@, channel@, value_type, n as int));
            return Err(FixtureError::PublisherMismatch { channel, node });
        }
        let mut publishers: Vec<PublisherPort> = Vec::new();
        publishers.push(
            PublisherPort {
                config: PublisherConfig { capacity: readers.capacity, channel_name: channel },
                value_type,
                forwarded_channels: Vec::new(),
            },
        );
        let fixture: usize = self.fixtures.len();
        assert(crate::callback::gating_count(Seq::<SubscriberPort>::empty()) == 0);
        let node = fixture_node(Vec::new(), publishers);
        self.fixtures.push(node);
        assert(self.fixtures@.drop_last() =~= old(self).fixtures@);
        Ok(TestPublisher { fixture })
    }

    /// Attaches a fixture that captures what a channel carries, with the
    /// default queue depth.
    pub fn add_test_subscriber(&mut self, channel_name: &str, value_type: u64) -> (r: Result<
        TestSubscriber,
        FixtureError,
    >)
        requires
            old(self).wf(),
        ensures
            final(self).wf(),
            final(self).nodes == old(self).nodes,
            final(self).iox2_endpoints == old(self).iox2_endpoints,
            final(self).iox2_fixtures == old(self).iox2_fixtures,
            old(self).captures(
                *final(self),
                channel_name@,
                value_type,
                DEFAULT_TEST_SUBSCRIBER_CAPACITY,
                r,
            ),
    {
        self.add_test_subscriber_with_capacity(
            channel_name,
            value_type,
            DEFAULT_TEST_SUBSCRIBER_CAPACITY,
        )
    }

    /// What attaching a capturing fixture does, and when it fails.
    pub open spec fn captures(
        &self,
        after: UnitTestExecutorBuilder<T>,
        channel: Seq<char>,
        value_type: u64,
        capacity: usize,
        r: Result<TestSubscriber, FixtureError>,
    ) -> bool {
        &&& r is Ok <==> has_writer(self.nodes@, channel) && forall|n: int, i: int|
            !#[trigger] writes_other(self.nodes@, channel, value_type, n, i)
        &&& r is Err ==> after.fixtures == self.fixtures
        &&& r is Err && !has_writer(self.nodes@, channel) ==> r->Err_0 is NoPublisher
            && r->Err_0->NoPublisher_channel@ == channel
        &&& r is Err && has_writer(self.nodes@, channel) ==> r->Err_0 is SubscriberMismatch
            && r->Err_0->SubscriberMismatch_channel@ == channel && exists|n: int| #[trigger]
            first_other_writer(self.nodes@, channel, value_type, n)
                && r->Err_0->SubscriberMismatch_node@ == self.nodes@[n].name@
        &&& r matches Ok(subscriber) ==> {
            &&& subscriber.fixture == self.fixtures@.len()
            &&& after.fixtures@.len() == self.fixtures@.len() + 1
            &&& after.fixtures@.drop_last() == self.fixtures@
            &&& is_fixture(
                after.fixtures@.last(),
                after.fixtures@.last().subscribers@,
                Seq::empty(),
            )
            &&& after.fixtures@.last().subscribers@.len() == 1
            &&& is_test_input(
                after.fixtures@.last().subscribers@[0],
                channel,
                value_type,
                capacity,
            )
        }
    }

    /// Like `add_test_subscriber`, with a chosen queue depth.
    pub fn add_test_subscriber_with_capacity(
        &mut self,
        channel_name: &str,
        value_type: u64,
        capacity: usize,
    ) -> (r: Result<TestSubscriber, FixtureError>)
        requires
            old(self).wf(),
            0 < capacity <= crate::mpsc_queue::MAX_QUEUE_CAPACITY,
        ensures
            final(self).wf(),
            final(self).nodes == old(self).nodes,
            final(self).iox2_endpoints == old(self).iox2_endpoints,
            final(self).iox2_fixtures == old(self).iox2_fixtures,
            old(self).captures(*final(self), channel_name@, value_type, capacity, r),
    {
        let channel = channel_name.to_owned();
        let (found, other) = scan_writers(&self.nodes, &channel, value_type);
        if !found {
            proof {
                assert forall|n: int, i: int|
                    !#[trigger] writes_other(self.nodes@, channel@, value_type, n, i) by {
                    assert(!writes(self.nodes@, channel@, n, i));
                }
            }
            return Err(FixtureError::NoPublisher { channel });
        }
        if let Some(n) = other {
            let node = self.nodes[n].name.clone();
            assert(first_other_writer(self.nodes@, channel@, value_type, n as int));
            return Err(FixtureError::SubscriberMismatch { channel, node });
        }
        let mut subscribers: Vec<SubscriberPort> = Vec::new();
        subscribers.push(
            SubscriberPort {
                config: SubscriberConfig {
                    is_optional: true,
                    capacity,
                    is_trigger: false,
                    keep_across_runs: true,
                    channel_name: channel,
                },
                value_type,
            },
        );
        assert(crate::callback::gating_count(subscribers@) == 0) by {
            reveal_with_fuel(crate::callback::gating_count, 2);
        }
        let fixture: usize = self.fixtures.len();
        let node = fixture_node(subscribers, Vec::new());
        self.fixtures.push(node);
        assert(self.fixtures@.drop_last() =~= old(self).fixtures@);
        Ok(TestSubscriber { fixture })
    }
}

/// Whether the nodes stand in an executor in this order, connected.
pub open spec fn executes<T>(executor: UnitTestExecutor<T>, nodes: Seq<CallbackNode<T>>) -> bool {
    &&& executor.wf()
    &&& executor.simulation_state.nodes.nodes@.len() == nodes.len()
    &&& forall|n: int|
        0 <= n < nodes.len() ==> same_but_place(
            #[trigger] executor.simulation_state.nodes.nodes@[n].node,
            nodes[n],
        )
}

/// Whether the nodes of an executor are these, numbered, in one pool of one
/// thread.
pub open spec fn places<T>(executor: UnitTestExecutor<T>, placed: Seq<CallbackNode<T>>) -> bool {
    let state = executor.simulation_state;
    &&& state.nodes.nodes@.len() == placed.len()
    &&& forall|n: int|
        0 <= n < placed.len() ==> {
            &&& (#[trigger] state.nodes.nodes@[n]).run_state is Idle
            &&& state.nodes.nodes@[n].node == (CallbackNode {
                id: Some(crate::scheduling::CallbackNodeId(n as usize)),
                ..placed[n]
            })
            &&& state.schedule.node_to_pool@[n] == 0
        }
    &&& state.schedule.virtual_pools@.len() == 1
    &&& state.schedule.virtual_pools@[0].virtual_thread_count == 1
}

/// Whether two nodes are the same up to their place in a graph.
pub open spec fn same_but_place<T>(a: CallbackNode<T>, b: CallbackNode<T>) -> bool {
    a == (CallbackNode { id: a.id, ports: a.ports, ..b })
}

/// Connected nodes can be simulated if each says how long it runs.
proof fn lemma_can_simulate<T>(
    nodes: Seq<CallbackNode<T>>,
    placed: Seq<CallbackNode<T>>,
    storage: crate::callback_storage::CallbackStorage<T>,
    system: PubSub<T>,
    log_ids: Seq<usize>,
)
    requires
        all_timed(nodes),
        crate::task_builder::all_same_but_ports(nodes, placed),
        crate::task_graph_builder::wired(system, placed, log_ids),
        storage.holds(placed),
    ensures
        forall|i: int|
            0 <= i < storage.nodes@.len() ==> crate::simulation::can_simulate(
                #[trigger] storage.nodes@[i],
                system,
            ),
{
    let graph = choose|graph: PubSub<T>| #[trigger]
        crate::connect_graph::connected(graph, placed) && crate::task_graph_builder::extends(
            system,
            graph,
            log_ids,
        );
    assert forall|i: int| 0 <= i < storage.nodes@.len() implies crate::simulation::can_simulate(
        #[trigger] storage.nodes@[i],
        system,
    ) by {
        assert(storage.nodes@[i].node == placed[i]);
        assert(crate::connect::same_but_ports(placed[i], nodes[i]));
        assert(nodes[i].execution_duration_callback is Some);
        assert(crate::connect::node_stands(
            graph,
            placed[i],
            crate::connect::subscriber_offset(placed, i),
            crate::connect::publisher_offset(placed, i),
            i,
        ));
    }
}

impl<T> UnitTestExecutorBuilder<T> {
    /// Every endpoint of the graph and its fixtures.
    pub open spec fn endpoints(&self) -> Seq<Iox2EndpointInfo> {
        crate::iox2::all_native_endpoints(self.nodes@ + self.fixtures@, (self.nodes@ + self.fixtures@).len() as int)
            + self.iox2_endpoints@ + self.iox2_fixtures@
    }

    /// Whether the transports or payload types of some channel disagree.
    pub open spec fn conflicting(&self) -> bool {
        exists|i: int, j: int| #[trigger] crate::iox2::conflicts(self.endpoints(), i, j)
    }

    /// Connects the nodes and the fixtures, and makes an executor of both; the
    /// fixtures stand behind the nodes.
    pub fn try_build(self) -> (r: Result<UnitTestExecutor<T>, TaskGraphBuildError>)
        requires
            self.wf(),
            crate::single_pool::nodes_fit(self.nodes@ + self.fixtures@),
        ensures
            r is Err <==> self.conflicting() || crate::single_pool::refused(
                self.nodes@ + self.fixtures@,
                1,
            ),
            r is Err && self.conflicting() ==> crate::iox2::explains_conflict(
                r->Err_0,
                self.endpoints(),
            ),
            r is Err && !self.conflicting() ==> crate::single_pool::explains(
                r->Err_0,
                self.nodes@ + self.fixtures@,
            ),
            r matches Ok(executor) ==> {
                &&& executes(executor, self.nodes@ + self.fixtures@)
                &&& executor.node_count == self.nodes@.len()
                &&& executor.simulation_state.just_started(FrameworkTime { nanoseconds: 0 })
                &&& executor.simulation_state.node_executor_thread_count == 1
                &&& exists|placed: Seq<CallbackNode<T>>, log_ids: Seq<usize>| #[trigger]
                    crate::task_graph_builder::wired(
                        executor.simulation_state.system,
                        placed,
                        log_ids,
                    ) && places(executor, placed)
            },
    {
        let ghost all = self.nodes@ + self.fixtures@;
        let ghost conflict = self.conflicting();
        let ghost listed = self.endpoints();
        let UnitTestExecutorBuilder { nodes, fixtures, iox2_endpoints, iox2_fixtures } = self;
        let mut nodes = nodes;
        let mut fixtures = fixtures;
        let mut iox2_endpoints = iox2_endpoints;
        let mut iox2_fixtures = iox2_fixtures;
        let node_count: usize = nodes.len();
        nodes.append(&mut fixtures);
        assert(nodes@ =~= all);
        let mut endpoints = crate::iox2::list_native_endpoints(&nodes);
        endpoints.append(&mut iox2_endpoints);
        endpoints.append(&mut iox2_fixtures);
        assert(endpoints@ =~= listed);
        match crate::iox2::validate_endpoints(&endpoints) {
            Ok(_) => {},
            Err(error) => {
                return Err(error);
            },
        }
        proof {
            assert forall|n: int| 0 <= n < all.len() implies (#[trigger] all[n]).wf()
                && all[n].execution_duration_callback is Some by {
                if n < self.nodes@.len() {
                    assert(all[n] == self.nodes@[n]);
                } else {
                    assert(all[n] == self.fixtures@[n - self.nodes@.len()]);
                }
            }
        }
        let built = match crate::single_pool::build_single_pool(nodes, 1) {
            Ok(built) => built,
            Err(error) => {
                return Err(error);
            },
        };
        let ghost placed = choose|placed: Seq<CallbackNode<T>>| #[trigger]
            crate::task_builder::all_same_but_ports(all, placed)
                && crate::single_pool::is_graph_of(built, placed, 1);
        let ghost log_ids = built.execution_log_publishers@;
        let BuiltTaskGraph { pools, system, .. } = built;
        let mut pools = pools;
        let storage = match pools.pop() {
            Some(pool) => pool.nodes,
            None => CallbackStorage::new(),
        };
        proof {
            assert(storage.holds(placed));
            lemma_can_simulate(all, placed, storage, system, log_ids);
            assert forall|n: int| 0 <= n < all.len() implies (#[trigger] placed[n]).subscribers
                == all[n].subscribers && placed[n].publishers == all[n].publishers by {
                assert(crate::connect::same_but_ports(placed[n], all[n]));
            }
            crate::graph_pools::lemma_port_total_kept(all, placed);
            crate::graph_pools::lemma_storage_counts(
                storage.nodes@,
                placed,
                placed.len() as int,
            );
            assert(placed.take(placed.len() as int) =~= placed);
        }
        let mut executor = UnitTestExecutor::new(storage, system);
        executor.node_count = node_count;
        proof {
            assert forall|n: int| 0 <= n < all.len() implies same_but_place(
                #[trigger] executor.simulation_state.nodes.nodes@[n].node,
                all[n],
            ) by {
                assert(crate::executor::same_node_but_id(
                    executor.simulation_state.nodes.nodes@[n],
                    storage.nodes@[n],
                ));
                assert(storage.nodes@[n].node == placed[n]);
                assert(crate::connect::same_but_ports(placed[n], all[n]));
            }
            let pools = seq![crate::executor::ThreadPoolConfig { thread_count: 1, nodes: storage }];
            assert(executor.simulation_state.holds_pools(pools));
            assert forall|n: int| 0 <= n < placed.len() implies {
                &&& (#[trigger] executor.simulation_state.nodes.nodes@[n]).run_state is Idle
                &&& executor.simulation_state.nodes.nodes@[n].node == (CallbackNode {
                    id: Some(crate::scheduling::CallbackNodeId(n as usize)),
                    ..placed[n]
                })
                &&& executor.simulation_state.schedule.node_to_pool@[n] == 0
            } by {
                assert(crate::executor::pool_offset(pools, 0) == 0);
                assert(pools[0].nodes.nodes@[n] == storage.nodes@[n]);
                assert(storage.nodes@[n].node == placed[n]);
            }
            assert(places(executor, placed));
            assert(crate::task_graph_builder::wired(
                executor.simulation_state.system,
                placed,
                log_ids,
            ));
        }
        Ok(executor)
    }
}

/// Whether `port` is the output of a feeding fixture; `slots` are those that
/// the fed inputs can fill.
pub open spec fn is_test_output(
    port: PublisherPort,
    channel: Seq<char>,
    value_type: u64,
    slots: int,
) -> bool {
    &&& port.config.channel_name@ == channel
    &&& 2 * port.config.capacity == slots
    &&& port.value_type == value_type
    &&& port.forwarded_channels@.len() == 0
}

/// Whether `port` is the input of a capturing fixture.
pub open spec fn is_test_input(
    port: SubscriberPort,
    channel: Seq<char>,
    value_type: u64,
    capacity: usize,
) -> bool {
    &&& port.config.channel_name@ == channel
    &&& port.config.is_optional
    &&& !port.config.is_trigger
    &&& port.config.keep_across_runs
    &&& port.config.capacity == capacity
    &&& port.value_type == value_type
}

/// Feeds the inputs of a channel.
#[derive(Debug, Clone, Copy, PartialEq, Eq, Structural)]
pub struct TestPublisher {
    pub fixture: usize,
}

/// Captures what a channel carries.
#[derive(Debug, Clone, Copy, PartialEq, Eq, Structural)]
pub struct TestSubscriber {
    pub fixture: usize,
}

/// The node that a fixture is.
pub open spec fn fixture_of<T>(executor: UnitTestExecutor<T>, fixture: usize) -> CallbackNode<T> {
    executor.simulation_state.nodes.nodes@[executor.node_count + fixture].node
}

/// Whether the executor has that fixture.
pub open spec fn has_fixture<T>(executor: UnitTestExecutor<T>, fixture: usize) -> bool {
    executor.node_count + fixture < executor.simulation_state.nodes.nodes@.len()
}

/// Whether the executor is the same up to the pub/sub system.
pub open spec fn same_but_system<T>(a: UnitTestExecutor<T>, b: UnitTestExecutor<T>) -> bool {
    a == (UnitTestExecutor {
        simulation_state: crate::simulation::SimulationState {
            system: a.simulation_state.system,
            ..b.simulation_state
        },
        ..b
    })
}

/// Whether `after` is `before` once `message` was sent through the first output
/// of `ports` and flushed at `now`.
pub open spec fn sends_at<T>(
    ports: crate::callback::NodePorts,
    before: PubSub<T>,
    after: PubSub<T>,
    now: FrameworkTime,
    message: T,
) -> bool {
    exists|marked: PubSub<T>, announced: Seq<crate::scheduling::CallbackNodeId>| #[trigger]
        ports.flushes(marked, after, now, announced) && crate::test_tasks::publishes(
            before,
            marked,
            ports.first_publisher,
            message,
        )
}

/// A system with the same number of ports fits the same nodes.
proof fn lemma_still_fits<T>(before: UnitTestExecutor<T>, after: UnitTestExecutor<T>)
    requires
        before.wf(),
        same_but_system(after, before),
        after.simulation_state.system.wf(),
        after.simulation_state.system.publishers@.len()
            == before.simulation_state.system.publishers@.len(),
        after.simulation_state.system.subscribers@.len()
            == before.simulation_state.system.subscribers@.len(),
        after.simulation_state.system.readiness@.len()
            == before.simulation_state.system.readiness@.len(),
    ensures
        after.wf(),
{
    let nodes = after.simulation_state.nodes.nodes@;
    assert forall|i: int| 0 <= i < nodes.len() implies crate::simulation::can_simulate(
        #[trigger] nodes[i],
        after.simulation_state.system,
    ) by {
        assert(crate::simulation::can_simulate(nodes[i], before.simulation_state.system));
    }
}

impl TestPublisher {
    /// Sends a message and flushes it at once, stamped with the executor's
    /// time. The fixture has to have a loan left.
    pub fn send<T>(&self, executor: &mut UnitTestExecutor<T>, message: T)
        requires
            old(executor).wf(),
            has_fixture(*old(executor), self.fixture),
            fixture_of(*old(executor), self.fixture).publishers@.len() == 1,
            old(executor).simulation_state.system.loan_left(
                fixture_of(*old(executor), self.fixture).ports.first_publisher as int,
            ),
        ensures
            final(executor).wf(),
            same_but_system(*final(executor), *old(executor)),
            sends_at(
                fixture_of(*old(executor), self.fixture).ports,
                old(executor).simulation_state.system,
                final(executor).simulation_state.system,
                old(executor).simulation_state.schedule.time,
                message,
            ),
    {
        assert(executor.simulation_state.nodes.nodes.len()
            == executor.simulation_state.nodes.nodes@.len());
        let index: usize = executor.node_count + self.fixture;
        proof {
            assert(crate::simulation::can_simulate(
                executor.simulation_state.nodes.nodes@[index as int],
                executor.simulation_state.system,
            ));
        }
        let ports = executor.simulation_state.nodes.nodes[index].node.ports;
        assert(ports.owns_publisher(ports.first_publisher as int));
        let now = executor.time_source.get();
        crate::test_tasks::publish(
            &mut executor.simulation_state.system,
            &ports,
            ports.first_publisher,
            message,
        );
        let ghost marked = executor.simulation_state.system;
        let announced = ports.flush_publishers(&mut executor.simulation_state.system, now);
        proof {
            assert(ports.flushes(
                marked,
                executor.simulation_state.system,
                now,
                announced@,
            ));
            lemma_still_fits(*old(executor), *executor);
        }
    }

    /// Sends a copy of a message and flushes it at once.
    pub fn send_copied<T: Clone>(&self, executor: &mut UnitTestExecutor<T>, message: &T)
        requires
            old(executor).wf(),
            has_fixture(*old(executor), self.fixture),
            fixture_of(*old(executor), self.fixture).publishers@.len() == 1,
            old(executor).simulation_state.system.loan_left(
                fixture_of(*old(executor), self.fixture).ports.first_publisher as int,
            ),
        ensures
            final(executor).wf(),
            same_but_system(*final(executor), *old(executor)),
            exists|copy: T| #[trigger]
                cloned(*message, copy) && sends_at(
                    fixture_of(*old(executor), self.fixture).ports,
                    old(executor).simulation_state.system,
                    final(executor).simulation_state.system,
                    old(executor).simulation_state.schedule.time,
                    copy,
                ),
    {
        let copy = message.clone();
        assert(cloned(*message, copy));
        self.send(executor, copy);
    }

    /// Sends a boxed message and flushes it at once.
    pub fn send_boxed<T>(&self, executor: &mut UnitTestExecutor<T>, message: Box<T>)
        requires
            old(executor).wf(),
            has_fixture(*old(executor), self.fixture),
            fixture_of(*old(executor), self.fixture).publishers@.len() == 1,
            old(executor).simulation_state.system.loan_left(
                fixture_of(*old(executor), self.fixture).ports.first_publisher as int,
            ),
        ensures
            final(executor).wf(),
            same_but_system(*final(executor), *old(executor)),
            sends_at(
                fixture_of(*old(executor), self.fixture).ports,
                old(executor).simulation_state.system,
                final(executor).simulation_state.system,
                old(executor).simulation_state.schedule.time,
                *message,
            ),
    {
        self.send(executor, *message);
    }
}

/// What a capturing fixture holds: the newest messages, oldest first.
pub open spec fn captured(subscriber: crate::subscriber::Subscriber) -> Seq<(usize, u64)> {
    crate::mpsc_queue::newest(
        subscriber.buffers.readable() + subscriber.buffers.pending(),
        subscriber.config.capacity as nat,
    )
}

impl TestSubscriber {
    /// How many messages wait to be looked at.
    pub fn queue_len<T>(&self, executor: &UnitTestExecutor<T>) -> (r: usize)
        requires
            executor.wf(),
            has_fixture(*executor, self.fixture),
            fixture_of(*executor, self.fixture).subscribers@.len() == 1,
        ensures
            r == executor.simulation_state.system.subscribers@[fixture_of(
                *executor,
                self.fixture,
            ).ports.first_subscriber as int].buffers.pending().len(),
    {
        assert(executor.simulation_state.nodes.nodes.len()
            == executor.simulation_state.nodes.nodes@.len());
        let index: usize = executor.node_count + self.fixture;
        proof {
            assert(crate::simulation::can_simulate(
                executor.simulation_state.nodes.nodes@[index as int],
                executor.simulation_state.system,
            ));
        }
        let s: usize = executor.simulation_state.nodes.nodes[index].node.ports.first_subscriber;
        executor.simulation_state.system.subscribers[s].buffers.write_queue.len()
    }

    /// Consumes the captured messages and returns copies of them, oldest first.
    pub fn messages<T: Clone>(&self, executor: &mut UnitTestExecutor<T>) -> (r: Vec<Message<T>>)
        requires
            old(executor).wf(),
            has_fixture(*old(executor), self.fixture),
            fixture_of(*old(executor), self.fixture).subscribers@.len() == 1,
        ensures
            final(executor).wf(),
            same_but_system(*final(executor), *old(executor)),
            ({
                let s = fixture_of(*old(executor), self.fixture).ports.first_subscriber as int;
                let before = old(executor).simulation_state.system;
                let refs = captured(before.subscribers@[s]);
                &&& r@.len() == refs.len()
                &&& forall|i: int|
                    0 <= i < refs.len() ==> copies(
                        before.entry(refs[i]).message,
                        #[trigger] r@[i],
                    )
                &&& final(executor).simulation_state.system.subscribers@[s].held().len() == 0
                &&& final(executor).simulation_state.system.only_reader_changed(before, s)
                &&& exists|drained: PubSub<T>| #[trigger]
                    drained.only_reader_changed(before, s)
                        && drained.subscribers@[s].buffers.readable() == refs && final(
                        executor).simulation_state.system.readiness@
                        == crate::pub_sub_io::drained_readiness(
                        before.readiness@,
                        drained.subscribers@[s],
                    )
            }),
    {
        assert(executor.simulation_state.nodes.nodes.len()
            == executor.simulation_state.nodes.nodes@.len());
        let index: usize = executor.node_count + self.fixture;
        proof {
            assert(crate::simulation::can_simulate(
                executor.simulation_state.nodes.nodes@[index as int],
                executor.simulation_state.system,
            ));
        }
        let s: usize = executor.simulation_state.nodes.nodes[index].node.ports.first_subscriber;
        let ghost before = executor.simulation_state.system;
        let ghost refs = captured(before.subscribers@[s as int]);
        executor.simulation_state.system.drain_writer_to_reader(s);
        let ghost drained = executor.simulation_state.system;
        let mut messages: Vec<Message<T>> = Vec::new();
        let count: usize =
            executor.simulation_state.system.subscribers[s].buffers.read_buffer.storage.len();
        let mut i: usize = 0;
        while i < count
            invariant
                i <= count,
                count == refs.len(),
                drained == executor.simulation_state.system,
                drained.wf(),
                s < drained.subscribers@.len(),
                refs == drained.subscribers@[s as int].buffers.readable(),
                drained.keeps_messages_of(before),
                messages@.len() == i,
                forall|j: int|
                    0 <= j < i ==> copies(before.entry(refs[j]).message, #[trigger] messages@[j]),
            decreases count - i,
        {
            proof {
                assert(drained.subscribers@[s as int].held()[i as int] == refs[i as int]);
                drained.lemma_queued_is_live(s as int, i as int);
            }
            let copy = executor.simulation_state.system.read_at(s, i).clone();
            assert(copies(before.entry(refs[i as int]).message, copy));
            messages.push(copy);
            i = i + 1;
        }
        executor.simulation_state.system.drain_inputs(s);
        proof {
            let after = executor.simulation_state.system;
            assert(after.subscribers@[s as int].held() =~= Seq::empty());
            assert(drained.only_reader_changed(before, s as int));
            assert(after.only_reader_changed(drained, s as int));
            assert forall|y: (usize, u64)| #[trigger] after.live(y) implies before.live(y)
                && after.entry(y) == before.entry(y) by {
                assert(drained.live(y));
            }
            assert forall|p: int| 0 <= p < after.publishers@.len() implies crate::pub_sub::same_but_slots(
                #[trigger] after.publishers@[p],
                before.publishers@[p],
            ) by {
                assert(crate::pub_sub::same_but_slots(
                    drained.publishers@[p],
                    before.publishers@[p],
                ));
            }
            assert forall|q: int| 0 <= q < before.subscribers@.len() && q != s implies #[trigger]
            after.subscribers@[q] == before.subscribers@[q] by {
                assert(drained.subscribers@[q] == before.subscribers@[q]);
            }
            lemma_still_fits(*old(executor), *executor);
        }
        messages
    }
}

/// Whether `copy` is a copy of `message`: the same header, and the payload as
/// its type copies it.
pub open spec fn copies<T: Clone>(message: Message<T>, copy: Message<T>) -> bool {
    &&& copy.header == message.header
    &&& call_ensures(T::clone, (&message.message,), copy.message)
}

/// What is sent through a feeding fixture can be captured: a fixture keeps
/// everything as long as it has room for it.
pub proof fn law_fixture_captures_what_fits(subscriber: crate::subscriber::Subscriber)
    requires
        subscriber.wf(),
        subscriber.held().len() <= subscriber.config.capacity,
    ensures
        captured(subscriber) == subscriber.held(),
{
    crate::double_buffer::law_drain_keeps_everything_that_fits(
        subscriber.buffers.readable(),
        subscriber.buffers.pending(),
        subscriber.config.capacity as nat,
    );
}

} // verus!
