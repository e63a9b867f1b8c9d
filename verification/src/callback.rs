//! Callbacks, and the nodes that give them ports, a name and a schedule.
use vstd::prelude::*;

use crate::channel_registry::ChannelRegistry;
use crate::context::Context;
use crate::pub_sub::PubSub;
use crate::publisher::PublisherConfig;
use crate::scheduling::CallbackNodeId;
use crate::subscriber::SubscriberConfig;
use crate::time::{Duration, FrameworkTime};

verus! {

#[derive(Debug, Clone, Copy, PartialEq, Eq, Structural)]
pub enum InputKind {
    Required,
    Optional,
    Span,
}

#[derive(Debug, Clone, Copy, PartialEq, Eq, Structural)]
pub enum OutputKind {
    Default,
    Span,
}

impl InputKind {
    /// The configuration that fits an input of this kind: a required input
    /// gates its node, and a span holds several messages.
    pub fn subscriber_config(self, channel_name: String) -> (r: SubscriberConfig)
        ensures
            r.valid(),
            r.is_optional == !(self is Required),
            r.capacity == if self is Span {
                4usize
            } else {
                1usize
            },
            r.is_trigger,
            r.keep_across_runs,
            r.channel_name == channel_name,
    {
        match self {
            InputKind::Required => SubscriberConfig {
                is_optional: false,
                capacity: 1,
                is_trigger: true,
                keep_across_runs: true,
                channel_name,
            },
            InputKind::Optional => SubscriberConfig {
                is_optional: true,
                capacity: 1,
                is_trigger: true,
                keep_across_runs: true,
                channel_name,
            },
            InputKind::Span => SubscriberConfig {
                is_optional: true,
                capacity: 4,
                is_trigger: true,
                keep_across_runs: true,
                channel_name,
            },
        }
    }
}

impl OutputKind {
    /// The configuration that fits an output of this kind.
    pub fn publisher_config(self, channel_name: String) -> (r: PublisherConfig)
        ensures
            r.capacity == 1,
            r.channel_name == channel_name,
    {
        PublisherConfig { capacity: 1, channel_name }
    }
}

/// The kinds of a callback's inputs and outputs.
#[derive(Debug)]
pub struct CallbackSignature {
    pub inputs: Vec<InputKind>,
    pub outputs: Vec<OutputKind>,
}

/// What came of one call of a callback.
#[derive(Debug, Clone, Copy, PartialEq, Eq, Structural)]
pub struct Run {
    pub num_iterations: usize,
}

impl Run {
    pub fn new(num_iterations: usize) -> (r: Run)
        ensures
            r.num_iterations == num_iterations,
    {
        Run { num_iterations }
    }
}

/// An input of a node: how it is configured and what payload type it reads.
#[derive(Debug)]
pub struct SubscriberPort {
    pub config: SubscriberConfig,
    pub value_type: u64,
}

/// An output of a node: how it is configured, what payload type it sends, and
/// the channels onto which it forwards messages.
#[derive(Debug)]
pub struct PublisherPort {
    pub config: PublisherConfig,
    pub value_type: u64,
    pub forwarded_channels: Vec<String>,
}

/// Where a node's ports stand in the pub/sub system: its subscribers and its
/// publishers have consecutive numbers.
#[derive(Debug, Clone, Copy, PartialEq, Eq, Structural)]
pub struct NodePorts {
    pub first_subscriber: usize,
    pub subscriber_count: usize,
    pub first_publisher: usize,
    pub publisher_count: usize,
    pub readiness: usize,
}

impl NodePorts {
    /// The ports of a node that is not connected yet.
    pub fn unplaced() -> (r: Self)
        ensures
            r == no_ports(),
    {
        NodePorts {
            first_subscriber: 0,
            subscriber_count: 0,
            first_publisher: 0,
            publisher_count: 0,
            readiness: 0,
        }
    }

    /// Whether the ports are there. A node without ports needs no readiness.
    pub open spec fn within<T>(self, system: PubSub<T>) -> bool {
        &&& self.first_subscriber + self.subscriber_count <= system.subscribers@.len()
        &&& self.first_publisher + self.publisher_count <= system.publishers@.len()
        &&& self.subscriber_count == 0 && self.publisher_count == 0 || self.readiness
            < system.readiness@.len()
    }

    pub open spec fn owns_subscriber(self, s: int) -> bool {
        self.first_subscriber <= s < self.first_subscriber + self.subscriber_count
    }

    pub open spec fn owns_publisher(self, p: int) -> bool {
        self.first_publisher <= p < self.first_publisher + self.publisher_count
    }

    /// Whether a run of the node changed nothing but what is the node's: what
    /// its subscribers can read, and its publishers' loans and slots.
    pub open spec fn ran_within<T>(self, before: PubSub<T>, after: PubSub<T>) -> bool {
        &&& after.readiness == before.readiness
        &&& after.publishers@.len() == before.publishers@.len()
        &&& after.subscribers@.len() == before.subscribers@.len()
        &&& forall|p: int|
            0 <= p < before.publishers@.len() ==> crate::pub_sub::same_port(
                #[trigger] after.publishers@[p],
                before.publishers@[p],
            ) && (!self.owns_publisher(p) ==> after.publishers@[p].loaned_values@
                == before.publishers@[p].loaned_values@)
        &&& forall|s: int|
            0 <= s < before.subscribers@.len() ==> same_but_read(
                #[trigger] after.subscribers@[s],
                before.subscribers@[s],
            ) && reads_no_more(
                after.subscribers@[s].buffers.readable(),
                before.subscribers@[s].buffers.readable(),
            ) && (!self.owns_subscriber(s) ==> after.subscribers@[s].buffers.readable()
                == before.subscribers@[s].buffers.readable())
        &&& forall|r: (usize, u64)| #[trigger]
            after.live(r) && !self.owns_publisher(r.0 as int) ==> before.live(r) && after.entry(r)
                == before.entry(r)
    }

    /// The number of the node's `index`-th subscriber.
    pub fn subscriber(&self, index: usize) -> (r: usize)
        requires
            index < self.subscriber_count,
            self.first_subscriber + self.subscriber_count <= usize::MAX,
        ensures
            r == self.first_subscriber + index,
            self.owns_subscriber(r as int),
    {
        self.first_subscriber + index
    }

    /// The number of the node's `index`-th publisher.
    pub fn publisher(&self, index: usize) -> (r: usize)
        requires
            index < self.publisher_count,
            self.first_publisher + self.publisher_count <= usize::MAX,
        ensures
            r == self.first_publisher + index,
            self.owns_publisher(r as int),
    {
        self.first_publisher + index
    }
}

/// The ports of a node that is not connected yet.
pub open spec fn no_ports() -> NodePorts {
    NodePorts {
        first_subscriber: 0,
        subscriber_count: 0,
        first_publisher: 0,
        publisher_count: 0,
        readiness: 0,
    }
}

/// Whether two subscribers are the same up to what can be read.
pub open spec fn same_but_read(
    a: crate::subscriber::Subscriber,
    b: crate::subscriber::Subscriber,
) -> bool {
    &&& a.config == b.config
    &&& a.value_type == b.value_type
    &&& a.readiness_state == b.readiness_state
    &&& a.buffers.pending() == b.buffers.pending()
    &&& a.buffers.write_queue.drops() == b.buffers.write_queue.drops()
    &&& a.buffers.read_buffer.drops == b.buffers.read_buffer.drops
}

/// What a callback remembers from one run to the next.
pub enum Memory {
    Number(int),
    Text(Seq<char>),
    List(Seq<Memory>),
}

/// Whether everything that can be read could be read before.
pub open spec fn reads_no_more(after: Seq<(usize, u64)>, before: Seq<(usize, u64)>) -> bool {
    forall|i: int| 0 <= i < after.len() ==> before.contains(#[trigger] after[i])
}

/// A unit of work that reads inputs and publishes outputs.
pub trait Callback<T>: Send {
    /// What the callback remembers. A callback that does not say so is taken to
    /// remember nothing.
    open spec fn memory(&self) -> Memory {
        Memory::List(Seq::empty())
    }

    /// What a run at `now` may make of the system and of what is remembered, and
    /// what may come of it. A callback that promises nothing more leaves it open.
    open spec fn runs(
        &self,
        memory: Memory,
        ports: NodePorts,
        now: FrameworkTime,
        before: PubSub<T>,
        after: PubSub<T>,
        r: Run,
        next: Memory,
    ) -> bool {
        true
    }

    /// When the callback wants to run next, from what it remembers. A callback
    /// that does not say so wants no time.
    open spec fn wants(&self, memory: Memory) -> Option<FrameworkTime> {
        None
    }

    /// When the callback wants to run next. A node whose schedule leaves it to
    /// its callback asks for that time.
    fn next_time(&self) -> (r: Option<FrameworkTime>)
        ensures
            r == self.wants(self.memory()),
    ;

    /// Whether the callback has come to its end, from what it remembers. A
    /// callback that does not say so never does.
    open spec fn ends(&self, memory: Memory) -> bool {
        false
    }

    /// Whether the callback has come to its end, and the execution with it.
    fn wants_stop(&self) -> (r: bool)
        ensures
            r == self.ends(self.memory()),
    ;

    /// Runs the callback on its ports. Used by the framework to trigger it. A
    /// run changes what the callback remembers, not what it does with that.
    fn run_generic(&mut self, system: &mut PubSub<T>, ports: &NodePorts, ctx: &Context) -> (r: Run)
        requires
            old(system).wf(),
            ports.within(*old(system)),
        ensures
            final(system).wf(),
            ports.ran_within(*old(system), *final(system)),
            old(self).runs(
                old(self).memory(),
                *ports,
                ctx.now,
                *old(system),
                *final(system),
                r,
                final(self).memory(),
            ),
            forall|
                memory: Memory,
                at: NodePorts,
                now: FrameworkTime,
                before: PubSub<T>,
                after: PubSub<T>,
                run: Run,
                next: Memory,
            |
                #![trigger final(self).runs(memory, at, now, before, after, run, next)]
                #![trigger old(self).runs(memory, at, now, before, after, run, next)]
                final(self).runs(memory, at, now, before, after, run, next) == old(self).runs(
                    memory,
                    at,
                    now,
                    before,
                    after,
                    run,
                    next,
                ),
            forall|memory: Memory|
                #![trigger final(self).wants(memory)]
                #![trigger old(self).wants(memory)]
                final(self).wants(memory) == old(self).wants(memory),
            forall|memory: Memory|
                #![trigger final(self).ends(memory)]
                #![trigger old(self).ends(memory)]
                final(self).ends(memory) == old(self).ends(memory),
    ;

    /// Which inputs the callback may ask for.
    open spec fn inputs_are(&self, ports: Seq<SubscriberPort>) -> bool {
        true
    }

    /// Which outputs the callback may ask for.
    open spec fn outputs_are(&self, ports: Seq<PublisherPort>) -> bool {
        true
    }

    /// The inputs, configured as is appropriate for their kinds.
    fn build_subscribers(&self) -> (r: Vec<SubscriberPort>)
        ensures
            subscriber_ports_valid(r@),
            self.inputs_are(r@),
    ;

    /// The outputs, configured as is appropriate for their kinds.
    fn build_publishers(&self) -> (r: Vec<PublisherPort>)
        ensures
            self.outputs_are(r@),
    ;

    /// What making the ports known may make of a registry. A callback that promises nothing more
    /// leaves it open.
    open spec fn registers(&self, before: ChannelRegistry, after: ChannelRegistry) -> bool {
        true
    }

    /// Makes the payload types of the ports known. A callback that has nothing
    /// to make known does nothing.
    fn register_channels(&self, registry: &mut ChannelRegistry)
        requires
            old(registry).wf(),
        ensures
            final(registry).wf(),
            self.registers(*old(registry), *final(registry)),
    ;
}

/// Whether each input can be made, and their gating bits fit a machine word.
pub open spec fn subscriber_ports_valid(ports: Seq<SubscriberPort>) -> bool {
    &&& forall|i: int| 0 <= i < ports.len() ==> (#[trigger] ports[i]).config.valid()
    &&& gating_count(ports) <= usize::BITS
}

/// How many of the inputs gate their node.
pub open spec fn gating_count(ports: Seq<SubscriberPort>) -> nat
    decreases ports.len(),
{
    if ports.len() == 0 {
        0
    } else {
        gating_count(ports.drop_last()) + if ports.last().config.gating() {
            1nat
        } else {
            0nat
        }
    }
}

/// The initial readiness bitmask for a set of inputs. Only gating (trigger +
/// non-optional) inputs take up bits, packed densely from bit 0; their bits
/// start at 0 (they must receive data). All other bits start at 1.
pub fn starting_subscriber_bitmask(subscribers: &Vec<SubscriberPort>) -> (bitmask: usize)
    requires
        gating_count(subscribers@) <= usize::BITS,
    ensures
        forall|j: usize|
            j < usize::BITS ==> (#[trigger] crate::readiness::bit_is_set(bitmask, j) <==> j
                >= gating_count(subscribers@)),
        bitmask == usize::MAX <==> gating_count(subscribers@) == 0,
{
    let mut gating: usize = 0;
    let mut i: usize = 0;
    assert(subscribers@.take(0) =~= Seq::empty());
    while i < subscribers.len()
        invariant
            i <= subscribers@.len(),
            gating == gating_count(subscribers@.take(i as int)),
            gating <= i,
        decreases subscribers@.len() - i,
    {
        assert(subscribers@.take(i + 1).drop_last() =~= subscribers@.take(i as int));
        if subscribers[i].config.is_gating() {
            gating = gating + 1;
        }
        i = i + 1;
    }
    assert(subscribers@.take(i as int) =~= subscribers@);
    crate::readiness::starting_bitmask(gating)
}

/// How long a node's execution is taken to last.
pub trait ExecutionDuration: Send {
    /// Which answers are possible.
    open spec fn allows(&self, duration: Duration) -> bool {
        true
    }

    fn execution_duration(&self) -> (r: Duration)
        ensures
            self.allows(r),
    ;
}

/// When a node wants to run next.
pub trait NextExecutionTime: Send {
    /// Which answers are possible at a given time.
    open spec fn allows(&self, now: FrameworkTime, next: Option<FrameworkTime>) -> bool {
        true
    }

    fn next_execution_time(&self, now: FrameworkTime) -> (r: Option<FrameworkTime>)
        ensures
            self.allows(now, r),
    ;
}

/// An execution that always lasts equally long.
pub struct FixedDuration {
    pub duration: Duration,
}

impl ExecutionDuration for FixedDuration {
    open spec fn allows(&self, duration: Duration) -> bool {
        duration == self.duration
    }

    fn execution_duration(&self) -> (r: Duration) {
        self.duration
    }
}

/// A duration of whatever kind.
pub struct AnyDuration {
    pub inner: Box<dyn ExecutionDuration>,
}

impl AnyDuration {
    /// Every execution lasts for `duration`.
    pub fn fixed(duration: Duration) -> (r: Self)
        ensures
            forall|answer: Duration| #[trigger]
                r.inner.allows(answer) <==> answer.nanoseconds == duration.nanoseconds,
    {
        AnyDuration { inner: Box::new(FixedDuration { duration }) }
    }
}

/// Never: the node runs on data alone.
pub struct OnDataOnly {}

impl NextExecutionTime for OnDataOnly {
    open spec fn allows(&self, now: FrameworkTime, next: Option<FrameworkTime>) -> bool {
        next is None
    }

    fn next_execution_time(&self, now: FrameworkTime) -> (r: Option<FrameworkTime>) {
        None
    }
}

/// One period after the time that is asked about.
pub struct Periodic {
    pub period: Duration,
}

impl NextExecutionTime for Periodic {
    open spec fn allows(&self, now: FrameworkTime, next: Option<FrameworkTime>) -> bool {
        next == Some(crate::time::saturated_time_after(now, self.period))
    }

    fn next_execution_time(&self, now: FrameworkTime) -> (r: Option<FrameworkTime>) {
        Some(now.saturating_add(self.period))
    }
}

/// A schedule of whatever kind.
pub enum AnySchedule {
    /// It answers from the time that is asked about.
    ByTime { inner: Box<dyn NextExecutionTime> },
    /// It leaves the answer to the node's callback.
    ByCallback,
}

impl AnySchedule {
    /// Which answers are possible at a given time for a node whose callback
    /// wants to run at `wanted`.
    pub open spec fn allows(
        &self,
        wanted: Option<FrameworkTime>,
        now: FrameworkTime,
        next: Option<FrameworkTime>,
    ) -> bool {
        match *self {
            AnySchedule::ByTime { inner } => inner.allows(now, next),
            AnySchedule::ByCallback => next == wanted,
        }
    }

    /// No requested times: the node runs on data alone.
    pub fn on_data_only() -> (r: Self)
        ensures
            forall|
                wanted: Option<FrameworkTime>,
                now: FrameworkTime,
                next: Option<FrameworkTime>,
            | #[trigger]
                r.allows(wanted, now, next) <==> next is None,
    {
        AnySchedule::ByTime { inner: Box::new(OnDataOnly {  }) }
    }

    /// One period after the time that is asked about.
    pub fn periodic(period: Duration) -> (r: Self)
        ensures
            forall|
                wanted: Option<FrameworkTime>,
                now: FrameworkTime,
                next: Option<FrameworkTime>,
            | #[trigger]
                r.allows(wanted, now, next) <==> next == Some(
                    crate::time::saturated_time_after(now, period),
                ),
    {
        AnySchedule::ByTime { inner: Box::new(Periodic { period }) }
    }
}

/// A callback of whatever kind.
#[verifier::reject_recursive_types(T)]
pub struct AnyCallback<T> {
    pub inner: Box<dyn Callback<T>>,
}

/// Whether two callbacks do and want the same with what they remember and read.
pub open spec fn behaves_alike<T>(a: AnyCallback<T>, b: AnyCallback<T>) -> bool {
    &&& forall|memory: Memory|
        #![trigger a.inner.wants(memory)]
        #![trigger b.inner.wants(memory)]
        a.inner.wants(memory) == b.inner.wants(memory)
    &&& forall|memory: Memory|
        #![trigger a.inner.ends(memory)]
        #![trigger b.inner.ends(memory)]
        a.inner.ends(memory) == b.inner.ends(memory)
    &&& forall|
        memory: Memory,
        ports: NodePorts,
        now: FrameworkTime,
        before: PubSub<T>,
        after: PubSub<T>,
        run: Run,
        next: Memory,
    |
        #![trigger a.inner.runs(memory, ports, now, before, after, run, next)]
        #![trigger b.inner.runs(memory, ports, now, before, after, run, next)]
        a.inner.runs(memory, ports, now, before, after, run, next) == b.inner.runs(
            memory,
            ports,
            now,
            before,
            after,
            run,
            next,
        )
}

/// A node asks the same whatever its callback holds, as long as the callback
/// behaves the same.
pub proof fn lemma_asks_same<T>(a: CallbackNode<T>, b: CallbackNode<T>)
    requires
        behaves_alike(a.callback, b.callback),
        a.next_execution_time_callback == b.next_execution_time_callback,
    ensures
        forall|memory: Memory, now: FrameworkTime, next: Option<FrameworkTime>|
            #![trigger a.asks(memory, now, next)]
            #![trigger b.asks(memory, now, next)]
            a.asks(memory, now, next) == b.asks(memory, now, next),
{
    assert forall|memory: Memory, now: FrameworkTime, next: Option<FrameworkTime>|
        #![trigger a.asks(memory, now, next)]
        #![trigger b.asks(memory, now, next)]
        a.asks(memory, now, next) == b.asks(memory, now, next) by {
        assert(a.callback.inner.wants(memory) == b.callback.inner.wants(memory));
    }
}

/// A callback with its ports, its name and its schedule.
#[verifier::reject_recursive_types(T)]
pub struct CallbackNode<T> {
    pub subscribers: Vec<SubscriberPort>,
    pub publishers: Vec<PublisherPort>,
    pub callback: AnyCallback<T>,
    pub next_execution_time_callback: AnySchedule,
    pub execution_duration_callback: Option<AnyDuration>,
    pub name: String,
    pub log_executions: bool,
    pub id: Option<CallbackNodeId>,
    /// Where the ports stand, once the node is connected.
    pub ports: NodePorts,
}

impl<T> CallbackNode<T> {
    pub open spec fn wf(&self) -> bool {
        subscriber_ports_valid(self.subscribers@)
    }

    /// Whether the node's ports stand in `system`.
    pub open spec fn placed_in(&self, system: PubSub<T>) -> bool {
        &&& self.ports.within(system)
        &&& self.ports.subscriber_count == self.subscribers@.len()
        &&& self.ports.publisher_count == self.publishers@.len()
    }

    /// Whether the node may ask at `now` to run at `next`, when its callback
    /// remembers `memory`.
    pub open spec fn asks(
        &self,
        memory: Memory,
        now: FrameworkTime,
        next: Option<FrameworkTime>,
    ) -> bool {
        self.next_execution_time_callback.allows(self.callback.inner.wants(memory), now, next)
    }

    pub fn new_named(callback: AnyCallback<T>, name: String) -> (r: Self)
        ensures
            r.wf(),
            r.callback == callback,
            callback.inner.inputs_are(r.subscribers@),
            callback.inner.outputs_are(r.publishers@),
            r.name == name,
            r.execution_duration_callback is None,
            !r.log_executions,
            r.id is None,
            r.ports == no_ports(),
            forall|
                wanted: Option<FrameworkTime>,
                now: FrameworkTime,
                next: Option<FrameworkTime>,
            | #[trigger]
                r.next_execution_time_callback.allows(wanted, now, next) ==> next is None,
    {
        CallbackNode {
            subscribers: callback.inner.build_subscribers(),
            publishers: callback.inner.build_publishers(),
            callback,
            next_execution_time_callback: AnySchedule::on_data_only(),
            execution_duration_callback: None,
            name,
            log_executions: false,
            id: None,
            ports: NodePorts::unplaced(),
        }
    }

    pub fn new_with(
        callback: AnyCallback<T>,
        subscribers: Vec<SubscriberPort>,
        publishers: Vec<PublisherPort>,
        name: String,
    ) -> (r: Self)
        requires
            subscriber_ports_valid(subscribers@),
        ensures
            r.wf(),
            r.callback == callback,
            r.subscribers == subscribers,
            r.publishers == publishers,
            r.name == name,
            r.execution_duration_callback is None,
            !r.log_executions,
            r.id is None,
            r.ports == no_ports(),
            forall|
                wanted: Option<FrameworkTime>,
                now: FrameworkTime,
                next: Option<FrameworkTime>,
            | #[trigger]
                r.next_execution_time_callback.allows(wanted, now, next) ==> next is None,
    {
        CallbackNode {
            subscribers,
            publishers,
            callback,
            next_execution_time_callback: AnySchedule::on_data_only(),
            execution_duration_callback: None,
            name,
            log_executions: false,
            id: None,
            ports: NodePorts::unplaced(),
        }
    }

    pub fn name(&self) -> (r: &str)
        ensures
            r@ == self.name@,
    {
        self.name.as_str()
    }

    pub fn set_execution_duration_callback(&mut self, callback: AnyDuration)
        ensures
            *final(self) == (CallbackNode {
                execution_duration_callback: Some(callback),
                ..*old(self)
            }),
    {
        self.execution_duration_callback = Some(callback);
    }

    /// How long one execution lasts. The node has to have been told.
    pub fn execution_duration(&self) -> (r: Duration)
        requires
            self.execution_duration_callback is Some,
        ensures
            self.execution_duration_callback->0.inner.allows(r),
    {
        match &self.execution_duration_callback {
            Some(callback) => callback.inner.execution_duration(),
            None => Duration::zero(),
        }
    }

    pub fn set_execution_time_callback(&mut self, callback: AnySchedule)
        ensures
            *final(self) == (CallbackNode { next_execution_time_callback: callback, ..*old(self) }),
    {
        self.next_execution_time_callback = callback;
    }

    pub fn set_log_executions(&mut self, enabled: bool)
        ensures
            *final(self) == (CallbackNode { log_executions: enabled, ..*old(self) }),
    {
        self.log_executions = enabled;
    }

    /// The node's identity in its executor.
    pub fn bind_id(&mut self, id: CallbackNodeId)
        ensures
            *final(self) == (CallbackNode { id: Some(id), ..*old(self) }),
    {
        self.id = Some(id);
    }

    /// The next requested execution time relevant to a current execution time.
    pub fn next_requested_execution_time(&self, now: FrameworkTime) -> (r: Option<FrameworkTime>)
        ensures
            self.asks(self.callback.inner.memory(), now, r),
    {
        match &self.next_execution_time_callback {
            AnySchedule::ByTime { inner } => inner.next_execution_time(now),
            AnySchedule::ByCallback => self.callback.inner.next_time(),
        }
    }

    /// Whether the node's callback has come to its end.
    pub fn wants_stop(&self) -> (r: bool)
        ensures
            r == self.callback.inner.ends(self.callback.inner.memory()),
    {
        self.callback.inner.wants_stop()
    }

    pub fn publishers(&self) -> (r: &Vec<PublisherPort>)
        ensures
            *r == self.publishers,
    {
        &self.publishers
    }

    pub fn publishers_mut(&mut self) -> (r: &mut Vec<PublisherPort>)
        ensures
            *r == old(self).publishers,
            *final(self) == (CallbackNode { publishers: *final(r), ..*old(self) }),
    {
        &mut self.publishers
    }

    pub fn subscribers(&self) -> (r: &Vec<SubscriberPort>)
        ensures
            *r == self.subscribers,
    {
        &self.subscribers
    }

    pub fn subscribers_mut(&mut self) -> (r: &mut Vec<SubscriberPort>)
        ensures
            *r == old(self).subscribers,
            *final(self) == (CallbackNode { subscribers: *final(r), ..*old(self) }),
    {
        &mut self.subscribers
    }

    /// Runs the callback on the node's ports.
    pub fn run(&mut self, system: &mut PubSub<T>, ctx: &Context) -> (r: Run)
        requires
            old(system).wf(),
            old(self).placed_in(*old(system)),
        ensures
            final(system).wf(),
            old(self).ports.ran_within(*old(system), *final(system)),
            old(self).callback.inner.runs(
                old(self).callback.inner.memory(),
                old(self).ports,
                ctx.now,
                *old(system),
                *final(system),
                r,
                final(self).callback.inner.memory(),
            ),
            behaves_alike(final(self).callback, old(self).callback),
            final(self).subscribers == old(self).subscribers,
            final(self).publishers == old(self).publishers,
            final(self).next_execution_time_callback == old(self).next_execution_time_callback,
            final(self).execution_duration_callback == old(self).execution_duration_callback,
            final(self).name == old(self).name,
            final(self).log_executions == old(self).log_executions,
            final(self).id == old(self).id,
            final(self).ports == old(self).ports,
    {
        let ports = self.ports;
        self.callback.inner.run_generic(system, &ports, ctx)
    }
}

} // verus!
