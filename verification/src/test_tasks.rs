//! Small callbacks to try graphs and executors with.
use vstd::prelude::*;

use crate::callback::{
    AnyCallback, AnyDuration, AnySchedule, Callback, CallbackNode, InputKind, Memory,
    NodePorts, OutputKind, PublisherPort, Run, SubscriberPort,
};
use crate::channel_registry::ChannelRegistry;
use crate::context::Context;
use crate::input::RequiredInput;
use crate::output::Output;
use crate::pub_sub::PubSub;
use crate::time::{Duration, FrameworkTime};

verus! {

/// What the sample callbacks send.
#[derive(Debug)]
pub enum Sample {
    Integer(u64),
    Text(String),
}

impl Clone for Sample {
    fn clone(&self) -> (r: Self)
        ensures
            r == *self,
    {
        match self {
            Sample::Integer(value) => Sample::Integer(*value),
            Sample::Text(text) => Sample::Text(text.clone()),
        }
    }
}

/// Identifies integers among the payload types.
pub const INTEGER_TYPE: u64 = 1;

/// Identifies texts among the payload types.
pub const TEXT_TYPE: u64 = 2;

/// The channel of the integers.
pub const INTEGER_CHANNEL: &'static str = "integer";

/// The channel of the texts.
pub const FIZZ_BUZZ_STRING_CHANNEL: &'static str = "fizz_buzz_string";

/// Whether `after` is `before` with one message of `publisher` loaned, which
/// holds `payload`, and marked as sent.
pub open spec fn publishes<T>(before: PubSub<T>, after: PubSub<T>, publisher: usize, payload: T) -> bool {
    exists|loaned: PubSub<T>|
        #![trigger loaned.loaned_one_more(before, publisher as int, crate::pub_sub_io::unpublished(payload, None))]
        loaned.loaned_one_more(
            before,
            publisher as int,
            crate::pub_sub_io::unpublished(payload, None),
        ) && loaned.subscribers == before.subscribers && loaned.readiness == before.readiness
            && crate::output::sent(
            loaned,
            after,
            publisher,
            before.publishers@[publisher as int].loaned_values@.len() as usize,
        )
}

/// Loans a message, fills it and lets the next flush publish it.
pub fn publish<T>(system: &mut PubSub<T>, ports: &NodePorts, publisher: usize, payload: T)
    requires
        old(system).wf(),
        ports.within(*old(system)),
        ports.owns_publisher(publisher as int),
        old(system).loan_left(publisher as int),
    ensures
        final(system).wf(),
        ports.ran_within(*old(system), *final(system)),
        publishes(*old(system), *final(system), publisher, payload),
{
    let ghost before = *system;
    let output = Output::new_default(system, publisher, payload);
    let ghost loaned = *system;
    output.send(system);
    proof {
        let p = publisher as int;
        assert(system.publishers@[p].loaned_values.len()
            == system.publishers@[p].loaned_values@.len());
        assert forall|r: (usize, u64)| #[trigger]
            system.live(r) && !ports.owns_publisher(r.0 as int) implies before.live(r)
            && system.entry(r) == before.entry(r) by {
            assert(r.0 != p);
            assert(system.publishers@[r.0 as int] == loaned.publishers@[r.0 as int]);
        }
        assert forall|q: int| 0 <= q < before.publishers@.len() implies crate::pub_sub::same_port(
            #[trigger] system.publishers@[q],
            before.publishers@[q],
        ) && (!ports.owns_publisher(q) ==> system.publishers@[q].loaned_values@
            == before.publishers@[q].loaned_values@) by {
            if q != p {
                assert(system.publishers@[q] == loaned.publishers@[q]);
            }
        }
    }
}

/// Sends 0, 1, 2 and so on, one number in each run.
pub struct IncrementingIntegerPublisher {
    pub value: u64,
}

impl Callback<Sample> for IncrementingIntegerPublisher {
    open spec fn memory(&self) -> Memory {
        Memory::Number(self.value as int)
    }

    open spec fn runs(
        &self,
        memory: Memory,
        ports: NodePorts,
        now: FrameworkTime,
        before: PubSub<Sample>,
        after: PubSub<Sample>,
        r: Run,
        next: Memory,
    ) -> bool {
        &&& r.num_iterations == 1
        &&& if ports.publisher_count > 0 && before.loan_left(ports.first_publisher as int) {
            &&& publishes(
                before,
                after,
                ports.first_publisher,
                Sample::Integer(memory->Number_0 as u64),
            )
            &&& next == Memory::Number((memory->Number_0 as u64).wrapping_add(1) as int)
        } else {
            &&& after == before
            &&& next == memory
        }
    }

    fn next_time(&self) -> (r: Option<FrameworkTime>) {
        None
    }

    fn wants_stop(&self) -> (r: bool) {
        false
    }

    fn run_generic(
        &mut self,
        system: &mut PubSub<Sample>,
        ports: &NodePorts,
        ctx: &Context,
    ) -> (r: Run)
        ensures
            final(self).value == if ports.publisher_count > 0 && old(system).loan_left(
                ports.first_publisher as int,
            ) {
                old(self).value.wrapping_add(1)
            } else {
                old(self).value
            },
    {
        if ports.publisher_count > 0 {
            assert(ports.owns_publisher(ports.first_publisher as int));
            if system.loan_available(ports.first_publisher) {
                publish(system, ports, ports.first_publisher, Sample::Integer(self.value));
                self.value = self.value.wrapping_add(1);
            }
        }
        Run::new(1)
    }

    open spec fn inputs_are(&self, ports: Seq<SubscriberPort>) -> bool {
        ports.len() == 0
    }

    open spec fn outputs_are(&self, ports: Seq<PublisherPort>) -> bool {
        &&& ports.len() == 1
        &&& ports[0].config.channel_name@ == INTEGER_CHANNEL@
        &&& ports[0].config.capacity == 1
        &&& ports[0].value_type == INTEGER_TYPE
        &&& ports[0].forwarded_channels@.len() == 0
    }

    open spec fn registers(&self, before: ChannelRegistry, after: ChannelRegistry) -> bool {
        crate::channel_registry::channel_added(before, after, INTEGER_CHANNEL@, INTEGER_TYPE)
    }

    fn register_channels(&self, registry: &mut ChannelRegistry) {
        registry.register_channel(INTEGER_CHANNEL.to_owned(), INTEGER_TYPE);
    }

    fn build_subscribers(&self) -> (r: Vec<SubscriberPort>) {
        Vec::new()
    }

    fn build_publishers(&self) -> (r: Vec<PublisherPort>) {
        let mut ports: Vec<PublisherPort> = Vec::new();
        ports.push(
            PublisherPort {
                config: OutputKind::Default.publisher_config(INTEGER_CHANNEL.to_owned()),
                value_type: INTEGER_TYPE,
                forwarded_channels: Vec::new(),
            },
        );
        ports
    }
}

/// Whether `node` is a fresh node of `callback` with this name, schedule and
/// duration.
pub open spec fn is_node_of<C: Callback<Sample>>(
    node: CallbackNode<Sample>,
    callback: C,
    name: Seq<char>,
    milliseconds: int,
) -> bool {
    &&& node.wf()
    &&& node.name@ == name
    &&& callback.inputs_are(node.subscribers@)
    &&& callback.outputs_are(node.publishers@)
    &&& node.execution_duration_callback is Some
    &&& forall|duration: Duration| #[trigger]
        node.execution_duration_callback->0.inner.allows(duration) <==> duration.nanoseconds
            == milliseconds * 1_000_000
    &&& node.callback.inner.memory() == callback.memory()
    &&& forall|memory: Memory| #[trigger]
        node.callback.inner.wants(memory) == callback.wants(memory)
    &&& forall|memory: Memory| #[trigger]
        node.callback.inner.ends(memory) == callback.ends(memory)
    &&& forall|
        memory: Memory,
        ports: NodePorts,
        now: FrameworkTime,
        before: PubSub<Sample>,
        after: PubSub<Sample>,
        r: Run,
        next: Memory,
    | #[trigger]
        node.callback.inner.runs(memory, ports, now, before, after, r, next) <==> callback.runs(
            memory,
            ports,
            now,
            before,
            after,
            r,
            next,
        )
    &&& forall|before: ChannelRegistry, after: ChannelRegistry| #[trigger]
        node.callback.inner.registers(before, after) <==> callback.registers(before, after)
    &&& node.id is None
    &&& node.ports == crate::callback::no_ports()
}

/// Whether the node asks to run again after so many milliseconds.
pub open spec fn asks_after<T>(node: CallbackNode<T>, milliseconds: int) -> bool {
    forall|memory: Memory, now: FrameworkTime, next: Option<FrameworkTime>| #[trigger]
        node.asks(memory, now, next) <==> next == Some(
            crate::time::saturated_time_after(
                now,
                Duration { nanoseconds: (milliseconds * 1_000_000) as u128 },
            ),
        )
}

/// Whether the node never asks for a time: it runs on data alone.
pub open spec fn runs_on_data<T>(node: CallbackNode<T>) -> bool {
    forall|memory: Memory, now: FrameworkTime, next: Option<FrameworkTime>| #[trigger]
        node.asks(memory, now, next) ==> next is None
}

impl IncrementingIntegerPublisher {
    /// A node that sends every 500 ms; a run lasts 1 ms.
    pub fn build_callback_node() -> (r: CallbackNode<Sample>)
        ensures
            is_node_of(
                r,
                IncrementingIntegerPublisher { value: 0 },
                "IncrementingIntegerPublisher"@,
                1,
            ),
            asks_after(r, 500),
    {
        let callback = IncrementingIntegerPublisher { value: 0 };
        let mut node = CallbackNode::new_named(
            AnyCallback { inner: Box::new(callback) },
            "IncrementingIntegerPublisher".to_owned(),
        );
        node.set_execution_time_callback(AnySchedule::periodic(Duration::from_millis(500)));
        node.set_execution_duration_callback(AnyDuration::fixed(Duration::from_millis(1)));
        node
    }
}

/// What is sent for a number: "Fizz" for multiples of three, "Buzz" for
/// multiples of five, both for multiples of both, else its decimal text.
pub open spec fn fizz_buzz_text(n: u64) -> Seq<char> {
    if n % 3 == 0 && n % 5 == 0 {
        "FizzBuzz"@
    } else if n % 3 == 0 {
        "Fizz"@
    } else if n % 5 == 0 {
        "Buzz"@
    } else {
        crate::text::decimal(n as nat)
    }
}

/// What is sent for a number.
pub fn fizz_buzz(n: u64) -> (r: String)
    ensures
        r@ == fizz_buzz_text(n),
{
    let is_fizz = n % 3 == 0;
    let is_buzz = n % 5 == 0;
    if is_fizz && is_buzz {
        "FizzBuzz".to_owned()
    } else if is_fizz {
        "Fizz".to_owned()
    } else if is_buzz {
        "Buzz".to_owned()
    } else {
        let mut text = "".to_owned();
        proof {
            reveal_strlit("");
        }
        assert(text@ =~= Seq::empty());
        crate::text::push_decimal(&mut text, n);
        assert(text@ =~= crate::text::decimal(n as nat));
        text
    }
}

/// The number that an input holds, if it has a value and that is a number.
pub open spec fn integer_at(system: PubSub<Sample>, subscriber: usize) -> Option<u64> {
    let inputs = crate::input::inputs_of(system, subscriber);
    if inputs.len() == 0 {
        None
    } else {
        match inputs[0].message {
            Sample::Integer(n) => Some(n),
            Sample::Text(_) => None,
        }
    }
}

/// The text that an input holds, if it has a value and that is a text.
pub open spec fn text_at(system: PubSub<Sample>, subscriber: usize) -> Option<String> {
    let inputs = crate::input::inputs_of(system, subscriber);
    if inputs.len() == 0 {
        None
    } else {
        match inputs[0].message {
            Sample::Integer(_) => None,
            Sample::Text(text) => Some(text),
        }
    }
}

/// Whether `after` is `before` with a message that holds `text` sent.
pub open spec fn publishes_text(
    before: PubSub<Sample>,
    after: PubSub<Sample>,
    publisher: usize,
    text: Seq<char>,
) -> bool {
    exists|sent: String| #[trigger] publishes(before, after, publisher, Sample::Text(sent))
        && sent@ == text
}

/// Sends the text for each number that arrives.
pub struct FizzBuzzCalculator {}

impl Callback<Sample> for FizzBuzzCalculator {
    open spec fn runs(
        &self,
        memory: Memory,
        ports: NodePorts,
        now: FrameworkTime,
        before: PubSub<Sample>,
        after: PubSub<Sample>,
        r: Run,
        next: Memory,
    ) -> bool {
        &&& r.num_iterations == 1
        &&& if ports.subscriber_count > 0 && ports.publisher_count > 0 && integer_at(
            before,
            ports.first_subscriber,
        ) is Some && before.loan_left(ports.first_publisher as int) {
            publishes_text(
                before,
                after,
                ports.first_publisher,
                fizz_buzz_text(integer_at(before, ports.first_subscriber)->0),
            )
        } else {
            after == before
        }
        &&& next == memory
    }

    fn next_time(&self) -> (r: Option<FrameworkTime>) {
        None
    }

    fn wants_stop(&self) -> (r: bool) {
        false
    }

    fn run_generic(
        &mut self,
        system: &mut PubSub<Sample>,
        ports: &NodePorts,
        ctx: &Context,
    ) -> (r: Run) {
        let ghost before = *system;
        if ports.subscriber_count > 0 && ports.publisher_count > 0 {
            let s: usize = ports.first_subscriber;
            let p: usize = ports.first_publisher;
            assert(ports.owns_publisher(p as int));
            let mut integer: Option<u64> = None;
            if system.subscribers[s].buffers.read_buffer.storage.len() > 0 {
                match RequiredInput::new(system, s).value(system) {
                    Sample::Integer(n) => {
                        integer = Some(*n);
                    },
                    Sample::Text(_) => {},
                }
            }
            assert(integer == integer_at(*system, s));
            if let Some(n) = integer {
                if system.loan_available(p) {
                    let text = fizz_buzz(n);
                    let ghost sent = text;
                    publish(system, ports, p, Sample::Text(text));
                    assert(publishes(before, *system, p, Sample::Text(sent)));
                }
            }
        }
        Run::new(1)
    }

    open spec fn inputs_are(&self, ports: Seq<SubscriberPort>) -> bool {
        &&& ports.len() == 1
        &&& required_input_of(ports[0], INTEGER_CHANNEL@, INTEGER_TYPE)
    }

    open spec fn outputs_are(&self, ports: Seq<PublisherPort>) -> bool {
        &&& ports.len() == 1
        &&& ports[0].config.channel_name@ == FIZZ_BUZZ_STRING_CHANNEL@
        &&& ports[0].config.capacity == 1
        &&& ports[0].value_type == TEXT_TYPE
        &&& ports[0].forwarded_channels@.len() == 0
    }

    open spec fn registers(&self, before: ChannelRegistry, after: ChannelRegistry) -> bool {
        exists|between: ChannelRegistry| #[trigger]
            crate::channel_registry::channel_added(
                before,
                between,
                INTEGER_CHANNEL@,
                INTEGER_TYPE,
            ) && crate::channel_registry::channel_added(
                between,
                after,
                FIZZ_BUZZ_STRING_CHANNEL@,
                TEXT_TYPE,
            )
    }

    fn register_channels(&self, registry: &mut ChannelRegistry) {
        registry.register_channel(INTEGER_CHANNEL.to_owned(), INTEGER_TYPE);
        registry.register_channel(FIZZ_BUZZ_STRING_CHANNEL.to_owned(), TEXT_TYPE);
    }

    fn build_subscribers(&self) -> (r: Vec<SubscriberPort>) {
        required_input(INTEGER_CHANNEL, INTEGER_TYPE)
    }

    fn build_publishers(&self) -> (r: Vec<PublisherPort>) {
        let mut ports: Vec<PublisherPort> = Vec::new();
        ports.push(
            PublisherPort {
                config: OutputKind::Default.publisher_config(FIZZ_BUZZ_STRING_CHANNEL.to_owned()),
                value_type: TEXT_TYPE,
                forwarded_channels: Vec::new(),
            },
        );
        ports
    }
}

/// Whether `port` is a required input on `channel`.
pub open spec fn required_input_of(port: SubscriberPort, channel: Seq<char>, value_type: u64) -> bool {
    &&& port.config.channel_name@ == channel
    &&& !port.config.is_optional
    &&& port.config.is_trigger
    &&& port.config.keep_across_runs
    &&& port.config.capacity == 1
    &&& port.value_type == value_type
}

fn required_input(channel: &str, value_type: u64) -> (r: Vec<SubscriberPort>)
    ensures
        r@.len() == 1,
        required_input_of(r@[0], channel@, value_type),
        crate::callback::subscriber_ports_valid(r@),
{
    let mut ports: Vec<SubscriberPort> = Vec::new();
    ports.push(
        SubscriberPort {
            config: InputKind::Required.subscriber_config(channel.to_owned()),
            value_type,
        },
    );
    assert(crate::callback::gating_count(ports@) <= 1) by {
        reveal_with_fuel(crate::callback::gating_count, 2);
    }
    ports
}

impl FizzBuzzCalculator {
    /// A node that runs on data; a run lasts 5 ms.
    pub fn build_callback_node() -> (r: CallbackNode<Sample>)
        ensures
            is_node_of(r, FizzBuzzCalculator {  }, "FizzBuzzCalculator"@, 5),
            runs_on_data(r),
    {
        let mut node = CallbackNode::new_named(
            AnyCallback { inner: Box::new(FizzBuzzCalculator {  }) },
            "FizzBuzzCalculator".to_owned(),
        );
        node.set_execution_duration_callback(AnyDuration::fixed(Duration::from_millis(5)));
        node
    }
}

/// Keeps the texts that arrive, and asks for a stop once there are enough.
pub struct StringCollector {
    pub string_store: Vec<String>,
    pub stop_requested: bool,
    pub target_count: usize,
}

impl StringCollector {
    /// An empty store.
    pub fn make_string_store() -> (r: Vec<String>)
        ensures
            r@.len() == 0,
    {
        Vec::new()
    }

    /// Keeps one more text.
    pub fn collect(&mut self, text: String)
        ensures
            final(self).string_store@ == old(self).string_store@.push(text),
            final(self).target_count == old(self).target_count,
            final(self).stop_requested == (old(self).stop_requested || final(
                self).string_store@.len() >= old(self).target_count),
    {
        self.string_store.push(text);
        if self.string_store.len() >= self.target_count {
            self.stop_requested = true;
        }
    }

    /// The texts that were kept.
    pub fn stored_strings(&self) -> (r: Vec<String>)
        ensures
            r@ == self.string_store@,
    {
        crate::connect::clone_names(&self.string_store)
    }
}

/// What a collector remembers: the texts, and whether it asked for a stop.
pub open spec fn collector_memory(texts: Seq<Memory>, stop: bool) -> Memory {
    Memory::List(
        seq![
            Memory::List(texts),
            Memory::Number(
                if stop {
                    1
                } else {
                    0
                },
            ),
        ],
    )
}

/// The texts that a collector remembers.
pub open spec fn kept_texts(memory: Memory) -> Seq<Memory> {
    memory->List_0[0]->List_0
}

/// Whether a collector remembers that it asked for a stop.
pub open spec fn stop_asked(memory: Memory) -> bool {
    memory->List_0[1] == Memory::Number(1)
}

/// The texts of a store, as they are remembered.
pub open spec fn remembered(store: Seq<String>) -> Seq<Memory> {
    Seq::new(store.len(), |i: int| Memory::Text(store[i]@))
}

impl Callback<Sample> for StringCollector {
    open spec fn memory(&self) -> Memory {
        collector_memory(remembered(self.string_store@), self.stop_requested)
    }

    open spec fn runs(
        &self,
        memory: Memory,
        ports: NodePorts,
        now: FrameworkTime,
        before: PubSub<Sample>,
        after: PubSub<Sample>,
        r: Run,
        next: Memory,
    ) -> bool {
        &&& r.num_iterations == 1
        &&& after == before
        &&& next == if ports.subscriber_count > 0 && text_at(
            before,
            ports.first_subscriber,
        ) is Some {
            collector_memory(
                kept_texts(memory).push(
                    Memory::Text(text_at(before, ports.first_subscriber)->0@),
                ),
                stop_asked(memory) || kept_texts(memory).len() + 1 >= self.target_count,
            )
        } else {
            memory
        }
    }

    open spec fn ends(&self, memory: Memory) -> bool {
        stop_asked(memory)
    }

    fn next_time(&self) -> (r: Option<FrameworkTime>) {
        None
    }

    fn wants_stop(&self) -> (r: bool) {
        self.stop_requested
    }

    fn run_generic(
        &mut self,
        system: &mut PubSub<Sample>,
        ports: &NodePorts,
        ctx: &Context,
    ) -> (r: Run)
        ensures
            final(self).target_count == old(self).target_count,
            ports.subscriber_count > 0 && text_at(*old(system), ports.first_subscriber) is Some
                ==> final(self).string_store@ == old(self).string_store@.push(
                text_at(*old(system), ports.first_subscriber)->0,
            ) && final(self).stop_requested == (old(self).stop_requested || final(
                self).string_store@.len() >= old(self).target_count),
            !(ports.subscriber_count > 0 && text_at(*old(system), ports.first_subscriber) is Some)
                ==> *final(self) == *old(self),
    {
        if ports.subscriber_count > 0 {
            let s: usize = ports.first_subscriber;
            if system.subscribers[s].buffers.read_buffer.storage.len() > 0 {
                match RequiredInput::new(system, s).value(system) {
                    Sample::Integer(_) => {},
                    Sample::Text(text) => {
                        self.collect(text.clone());
                        assert(remembered(self.string_store@) =~= remembered(
                            old(self).string_store@,
                        ).push(Memory::Text(text@)));
                    },
                }
            }
        }
        Run::new(1)
    }

    open spec fn inputs_are(&self, ports: Seq<SubscriberPort>) -> bool {
        &&& ports.len() == 1
        &&& required_input_of(ports[0], FIZZ_BUZZ_STRING_CHANNEL@, TEXT_TYPE)
    }

    open spec fn outputs_are(&self, ports: Seq<PublisherPort>) -> bool {
        ports.len() == 0
    }

    open spec fn registers(&self, before: ChannelRegistry, after: ChannelRegistry) -> bool {
        crate::channel_registry::channel_added(
            before,
            after,
            FIZZ_BUZZ_STRING_CHANNEL@,
            TEXT_TYPE,
        )
    }

    fn register_channels(&self, registry: &mut ChannelRegistry) {
        registry.register_channel(FIZZ_BUZZ_STRING_CHANNEL.to_owned(), TEXT_TYPE);
    }

    fn build_subscribers(&self) -> (r: Vec<SubscriberPort>) {
        required_input(FIZZ_BUZZ_STRING_CHANNEL, TEXT_TYPE)
    }

    fn build_publishers(&self) -> (r: Vec<PublisherPort>) {
        Vec::new()
    }
}

impl StringCollector {
    /// A node that runs on data; a run lasts 2 ms.
    pub fn build_callback_node(string_store: Vec<String>, target_count: usize) -> (r: CallbackNode<
        Sample,
    >)
        ensures
            is_node_of(
                r,
                StringCollector { string_store, stop_requested: false, target_count },
                "StringCollector"@,
                2,
            ),
            runs_on_data(r),
    {
        let callback = StringCollector { string_store, stop_requested: false, target_count };
        let mut node = CallbackNode::new_named(
            AnyCallback { inner: Box::new(callback) },
            "StringCollector".to_owned(),
        );
        node.set_execution_duration_callback(AnyDuration::fixed(Duration::from_millis(2)));
        node
    }

    /// A node with a store of its own that never asks for a stop before the
    /// count of texts runs out.
    pub fn build_callback_node_lite() -> (r: CallbackNode<Sample>)
        ensures
            exists|store: Vec<String>|
                store@.len() == 0 && #[trigger] is_node_of(
                    r,
                    StringCollector {
                        string_store: store,
                        stop_requested: false,
                        target_count: usize::MAX,
                    },
                    "StringCollector"@,
                    2,
                ),
            runs_on_data(r),
    {
        StringCollector::build_callback_node(StringCollector::make_string_store(), usize::MAX)
    }
}

/// Does nothing, without inputs and outputs.
pub struct NoOpCallback {}

impl<T> Callback<T> for NoOpCallback {
    open spec fn runs(
        &self,
        memory: Memory,
        ports: NodePorts,
        now: FrameworkTime,
        before: PubSub<T>,
        after: PubSub<T>,
        r: Run,
        next: Memory,
    ) -> bool {
        &&& r.num_iterations == 1
        &&& after == before
        &&& next == memory
    }

    fn next_time(&self) -> (r: Option<FrameworkTime>) {
        None
    }

    fn wants_stop(&self) -> (r: bool) {
        false
    }

    fn run_generic(&mut self, system: &mut PubSub<T>, ports: &NodePorts, ctx: &Context) -> (r: Run) {
        Run::new(1)
    }

    open spec fn inputs_are(&self, ports: Seq<SubscriberPort>) -> bool {
        ports.len() == 0
    }

    open spec fn outputs_are(&self, ports: Seq<PublisherPort>) -> bool {
        ports.len() == 0
    }

    open spec fn registers(&self, before: ChannelRegistry, after: ChannelRegistry) -> bool {
        after == before
    }

    fn register_channels(&self, registry: &mut ChannelRegistry) {
    }

    fn build_subscribers(&self) -> (r: Vec<SubscriberPort>) {
        Vec::new()
    }

    fn build_publishers(&self) -> (r: Vec<PublisherPort>) {
        Vec::new()
    }
}

/// A node that does nothing for 1 ms and wants to run again at the instant it
/// finishes, so that it is always ready.
pub fn build_no_op_callback_node<T>() -> (r: CallbackNode<T>)
    ensures
        r.wf(),
        r.name@ == "no-op"@,
        r.subscribers@.len() == 0,
        r.publishers@.len() == 0,
        r.execution_duration_callback is Some,
        forall|duration: Duration| #[trigger]
            r.execution_duration_callback->0.inner.allows(duration) <==> duration.nanoseconds
                == 1_000_000,
        forall|memory: Memory, now: FrameworkTime, next: Option<FrameworkTime>| #[trigger]
            r.asks(memory, now, next) <==> next == Some(now),
        forall|
            memory: Memory,
            ports: NodePorts,
            now: FrameworkTime,
            before: PubSub<T>,
            after: PubSub<T>,
            run: Run,
            next: Memory,
        | #[trigger]
            r.callback.inner.runs(memory, ports, now, before, after, run, next)
                <==> run.num_iterations == 1 && after == before && next == memory,
{
    let mut node = CallbackNode::new_named(
        AnyCallback { inner: Box::new(NoOpCallback {  }) },
        "no-op".to_owned(),
    );
    node.set_execution_time_callback(AnySchedule::periodic(Duration::zero()));
    node.set_execution_duration_callback(AnyDuration::fixed(Duration::from_millis(1)));
    node
}

/// The indices of the nodes of the fizz-buzz graph.
pub const INTEGER_PUBLISHER_INDEX: usize = 0;

pub const FIZZ_BUZZ_INDEX: usize = 1;

pub const STRING_STORE_INDEX: usize = 2;

/// Whether these are the nodes of the fizz-buzz graph.
pub open spec fn is_fizz_buzz(nodes: Seq<CallbackNode<Sample>>, store: Vec<String>, target_count: usize) -> bool {
    &&& nodes.len() == 3
    &&& is_node_of(
        nodes[0],
        IncrementingIntegerPublisher { value: 0 },
        "IncrementingIntegerPublisher"@,
        1,
    )
    &&& asks_after(nodes[0], 500)
    &&& is_node_of(nodes[1], FizzBuzzCalculator {  }, "FizzBuzzCalculator"@, 5)
    &&& runs_on_data(nodes[1])
    &&& is_node_of(
        nodes[2],
        StringCollector { string_store: store, stop_requested: false, target_count },
        "StringCollector"@,
        2,
    )
    &&& runs_on_data(nodes[2])
}

/// The fizz-buzz graph can be built.
proof fn lemma_fizz_buzz_builds(
    nodes: Seq<CallbackNode<Sample>>,
    store: Vec<String>,
    target_count: usize,
)
    requires
        is_fizz_buzz(nodes, store, target_count),
    ensures
        crate::task_builder::all_wf(nodes),
        crate::single_pool::nodes_fit(nodes),
        !crate::single_pool::refused(nodes, 1),
{
    reveal_with_fuel(crate::connect::buffered_total, 4);
    reveal_with_fuel(crate::connect::buffered_in, 3);
    reveal_with_fuel(crate::graph_pools::port_total, 4);
    assert(crate::connect::buffered_in(nodes[1].subscribers@) == 2);
    assert(crate::connect::buffered_in(nodes[2].subscribers@) == 2);
    assert(nodes.drop_last().last() == nodes[1]);
    assert(nodes.drop_last().drop_last().last() == nodes[0]);
    assert(crate::connect::buffered_total(nodes) == 4);
    assert(crate::graph_pools::port_total(nodes) == 4);
    reveal_strlit("integer");
    reveal_strlit("fizz_buzz_string");
    reveal_strlit("execution_log");
    assert(INTEGER_CHANNEL@.len() == 7);
    assert(FIZZ_BUZZ_STRING_CHANNEL@.len() == 16);
    assert(crate::execution_log::EXECUTION_LOG_CHANNEL@.len() == 13);
}

/// The fizz-buzz graph: numbers, their texts, and what collects those.
pub fn build_fizz_buzz_callback_nodes(string_store: Vec<String>, target_count: usize) -> (r:
    Result<
        crate::task_graph_builder::BuiltTaskGraph<Sample>,
        crate::task_graph_builder::TaskGraphBuildError,
    >)
    ensures
        r is Ok,
        exists|nodes: Seq<CallbackNode<Sample>>, placed: Seq<CallbackNode<Sample>>|
            #![trigger crate::task_builder::all_same_but_ports(nodes, placed)]
            is_fizz_buzz(nodes, string_store, target_count)
                && crate::task_builder::all_same_but_ports(nodes, placed)
                && crate::single_pool::is_graph_of(r->Ok_0, placed, 1),
{
    let mut nodes: Vec<CallbackNode<Sample>> = Vec::new();
    nodes.push(IncrementingIntegerPublisher::build_callback_node());
    nodes.push(FizzBuzzCalculator::build_callback_node());
    nodes.push(StringCollector::build_callback_node(string_store, target_count));
    proof {
        lemma_fizz_buzz_builds(nodes@, string_store, target_count);
    }
    crate::single_pool::build_single_pool(nodes, 1)
}

} // verus!
