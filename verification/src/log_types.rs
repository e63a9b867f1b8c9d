//! Per-execution logs of what a callback read and sent.
use vstd::prelude::*;

use crate::callback::NodePorts;
use crate::context::Context;
use crate::message::MessageHeader;
use crate::pub_sub::PubSub;
use crate::time::FrameworkTime;

verus! {

/// Pluggable serialization. Users implement it for their message types with
/// whatever backend they prefer.
pub trait LogSerialize {
    /// The type name used to tag serialized bytes in the log.
    fn log_tag() -> &'static str;

    fn serialize_to_log(&self, out: &mut Vec<u8>);
}

/// Deserializes from an already-materialized byte slice.
pub trait LogDeserialize: Sized {
    type Error;

    fn deserialize_from_log(bytes: &[u8]) -> Result<Self, Self::Error>;
}

/// What a log says of one message: its header and, where values are logged,
/// its bytes.
pub type LoggedView = (MessageHeader, Option<Seq<u8>>);

/// One entry per message in the subscriber's read buffer at execution time.
pub struct InputLogEntry {
    pub header: MessageHeader,
    /// `None` unless values are logged for this channel.
    pub serialized: Option<Vec<u8>>,
}

/// One entry per output sent by the publisher during this execution.
pub struct OutputLogEntry {
    pub header: MessageHeader,
    /// `None` unless values are logged for this channel.
    pub serialized: Option<Vec<u8>>,
}

/// The bytes, if there are any.
pub open spec fn bytes_of(serialized: Option<Vec<u8>>) -> Option<Seq<u8>> {
    match serialized {
        Some(bytes) => Some(bytes@),
        None => None,
    }
}

fn clone_bytes(serialized: &Option<Vec<u8>>) -> (r: Option<Vec<u8>>)
    ensures
        bytes_of(r) == bytes_of(*serialized),
{
    match serialized {
        Some(bytes) => {
            let copy = bytes.clone();
            assert(copy@ =~= bytes@);
            Some(copy)
        },
        None => None,
    }
}

impl View for InputLogEntry {
    type V = LoggedView;

    open spec fn view(&self) -> LoggedView {
        (self.header, bytes_of(self.serialized))
    }
}

impl View for OutputLogEntry {
    type V = LoggedView;

    open spec fn view(&self) -> LoggedView {
        (self.header, bytes_of(self.serialized))
    }
}

impl Clone for InputLogEntry {
    fn clone(&self) -> (r: Self)
        ensures
            r@ == self@,
    {
        InputLogEntry { header: self.header, serialized: clone_bytes(&self.serialized) }
    }
}

impl Clone for OutputLogEntry {
    fn clone(&self) -> (r: Self)
        ensures
            r@ == self@,
    {
        OutputLogEntry { header: self.header, serialized: clone_bytes(&self.serialized) }
    }
}

/// All inputs logged for one subscriber slot.
pub struct SubscriberLog {
    pub entries: Vec<InputLogEntry>,
}

/// All outputs logged for one publisher slot.
pub struct PublisherLog {
    pub entries: Vec<OutputLogEntry>,
}

impl View for SubscriberLog {
    type V = Seq<LoggedView>;

    open spec fn view(&self) -> Seq<LoggedView> {
        self.entries@.map_values(|entry: InputLogEntry| entry@)
    }
}

impl View for PublisherLog {
    type V = Seq<LoggedView>;

    open spec fn view(&self) -> Seq<LoggedView> {
        self.entries@.map_values(|entry: OutputLogEntry| entry@)
    }
}

impl Clone for SubscriberLog {
    fn clone(&self) -> (r: Self)
        ensures
            r@ == self@,
    {
        let mut entries: Vec<InputLogEntry> = Vec::new();
        let mut i: usize = 0;
        while i < self.entries.len()
            invariant
                i <= self.entries@.len(),
                entries@.len() == i,
                forall|j: int| 0 <= j < i ==> (#[trigger] entries@[j])@ == self.entries@[j]@,
            decreases self.entries@.len() - i,
        {
            let entry = self.entries[i].clone();
            entries.push(entry);
            i = i + 1;
        }
        let log = SubscriberLog { entries };
        assert(log@ =~= self@);
        log
    }
}

impl Clone for PublisherLog {
    fn clone(&self) -> (r: Self)
        ensures
            r@ == self@,
    {
        let mut entries: Vec<OutputLogEntry> = Vec::new();
        let mut i: usize = 0;
        while i < self.entries.len()
            invariant
                i <= self.entries@.len(),
                entries@.len() == i,
                forall|j: int| 0 <= j < i ==> (#[trigger] entries@[j])@ == self.entries@[j]@,
            decreases self.entries@.len() - i,
        {
            let entry = self.entries[i].clone();
            entries.push(entry);
            i = i + 1;
        }
        let log = PublisherLog { entries };
        assert(log@ =~= self@);
        log
    }
}

/// What a log says of one execution.
#[verifier::ext_equal]
pub struct ExecutionView {
    pub execution_time: FrameworkTime,
    pub subscribers: Seq<Seq<LoggedView>>,
    pub publishers: Seq<Seq<LoggedView>>,
}

/// One record per callback execution. The ports stand in the node's order.
pub struct CallbackExecutionLog {
    pub execution_time: FrameworkTime,
    pub subscribers: Vec<SubscriberLog>,
    pub publishers: Vec<PublisherLog>,
}

impl View for CallbackExecutionLog {
    type V = ExecutionView;

    open spec fn view(&self) -> ExecutionView {
        ExecutionView {
            execution_time: self.execution_time,
            subscribers: self.subscribers@.map_values(|log: SubscriberLog| log@),
            publishers: self.publishers@.map_values(|log: PublisherLog| log@),
        }
    }
}

impl Clone for CallbackExecutionLog {
    fn clone(&self) -> (r: Self)
        ensures
            r@ == self@,
    {
        let mut subscribers: Vec<SubscriberLog> = Vec::new();
        let mut i: usize = 0;
        while i < self.subscribers.len()
            invariant
                i <= self.subscribers@.len(),
                subscribers@.len() == i,
                forall|j: int|
                    0 <= j < i ==> (#[trigger] subscribers@[j])@ == self.subscribers@[j]@,
            decreases self.subscribers@.len() - i,
        {
            let log = self.subscribers[i].clone();
            subscribers.push(log);
            i = i + 1;
        }
        let mut publishers: Vec<PublisherLog> = Vec::new();
        let mut k: usize = 0;
        while k < self.publishers.len()
            invariant
                k <= self.publishers@.len(),
                publishers@.len() == k,
                forall|j: int| 0 <= j < k ==> (#[trigger] publishers@[j])@ == self.publishers@[j]@,
            decreases self.publishers@.len() - k,
        {
            let log = self.publishers[k].clone();
            publishers.push(log);
            k = k + 1;
        }
        let log = CallbackExecutionLog {
            execution_time: self.execution_time,
            subscribers,
            publishers,
        };
        assert(log@.subscribers =~= self@.subscribers);
        assert(log@.publishers =~= self@.publishers);
        log
    }
}

pub trait LogWriter {
    /// What was logged, in order.
    spec fn written(&self) -> Seq<ExecutionView>;

    /// Called once per callback execution. The entry is borrowed; clone it to
    /// own it.
    fn log_execution(&mut self, entry: &CallbackExecutionLog)
        ensures
            final(self).written() == old(self).written().push(entry@),
    ;
}

pub trait LogReader {
    /// What is left to read, in order.
    spec fn unread(&self) -> Seq<ExecutionView>;

    fn next_execution(&mut self) -> (r: Option<CallbackExecutionLog>)
        ensures
            r is Some <==> old(self).unread().len() > 0,
            r matches Some(log) ==> log@ == old(self).unread()[0] && final(self).unread() == old(
                self).unread().skip(1),
            r is None ==> final(self).unread() == old(self).unread(),
    ;

    fn peek_next_time(&self) -> (r: Option<FrameworkTime>)
        ensures
            r == if self.unread().len() > 0 {
                Some(self.unread()[0].execution_time)
            } else {
                None
            },
    ;
}

/// Writes one value of a channel.
pub trait ValueSerializer<T> {
    /// Which bytes a value may be written as.
    open spec fn encodes(&self, value: T, bytes: Seq<u8>) -> bool {
        true
    }

    fn serialize_value(&self, value: &T, out: &mut Vec<u8>)
        requires
            old(out)@.len() == 0,
        ensures
            self.encodes(*value, final(out)@),
    ;
}

/// Per-channel logging mode, configured for each port by itself.
#[verifier::reject_recursive_types(T)]
pub enum ChannelLogMode<T> {
    /// Don't record this channel.
    Skip,
    /// Record each message's header (timestamp) only.
    HeaderOnly,
    /// Record each message's header plus serialized value.
    HeaderAndValues(Box<dyn ValueSerializer<T>>),
}

/// Whether `entry` is what the mode records of a message.
pub open spec fn records<T>(
    mode: ChannelLogMode<T>,
    message: crate::message::Message<T>,
    entry: LoggedView,
) -> bool {
    &&& entry.0 == message.header
    &&& match mode {
        ChannelLogMode::Skip => true,
        ChannelLogMode::HeaderOnly => entry.1 is None,
        ChannelLogMode::HeaderAndValues(serializer) => entry.1 is Some && serializer.encodes(
            message.message,
            entry.1->0,
        ),
    }
}

/// Whether `log` is what the mode records of some messages: nothing where the
/// channel is skipped, else one entry per message, in order.
pub open spec fn records_all<T>(
    mode: ChannelLogMode<T>,
    messages: Seq<crate::message::Message<T>>,
    log: Seq<LoggedView>,
) -> bool {
    if mode is Skip {
        log.len() == 0
    } else {
        &&& log.len() == messages.len()
        &&& forall|i: int| 0 <= i < log.len() ==> records(mode, messages[i], #[trigger] log[i])
    }
}

/// The mode of port `i`: the configured one, or to skip it.
pub open spec fn mode_of<T>(modes: Seq<ChannelLogMode<T>>, i: int) -> ChannelLogMode<T> {
    if i < modes.len() {
        modes[i]
    } else {
        ChannelLogMode::Skip
    }
}

/// The messages that a subscriber can read.
pub open spec fn readable_messages<T>(system: PubSub<T>, s: int) -> Seq<
    crate::message::Message<T>,
> {
    system.subscribers@[s].buffers.readable().map_values(
        |r: (usize, u64)| system.entry(r).message,
    )
}

/// The messages that the first `n` loans of a publisher will publish with the
/// next flush.
pub open spec fn pending_messages<T>(system: PubSub<T>, p: int, n: int) -> Seq<
    crate::message::Message<T>,
>
    decreases n,
{
    if n <= 0 {
        Seq::empty()
    } else {
        let loan = system.publishers@[p].loaned_values@[n - 1];
        let rest = pending_messages(system, p, n - 1);
        if loan.sent {
            rest.push(system.entry((p as usize, loan.ptr.slot as u64)).message)
        } else {
            rest
        }
    }
}

pub trait ExecutionLogger<T> {
    /// Called after the inputs are drained, before the callback runs.
    fn log_before_run(&mut self, ctx: &Context, system: &PubSub<T>, ports: &NodePorts)
        requires
            system.wf(),
            ports.within(*system),
    ;

    /// Called after the callback ran, before the outputs are flushed.
    fn log_after_run(&mut self, ctx: &Context, system: &PubSub<T>, ports: &NodePorts)
        requires
            system.wf(),
            ports.within(*system),
    ;
}

/// A log writer of whatever kind.
pub struct AnyLogWriter {
    pub inner: Box<dyn LogWriter>,
}

/// A ready-to-use logger that covers the most common logging needs.
#[verifier::reject_recursive_types(T)]
pub struct StandardExecutionLogger<T> {
    pub subscriber_modes: Vec<ChannelLogMode<T>>,
    pub publisher_modes: Vec<ChannelLogMode<T>>,
    pub log_writer: AnyLogWriter,
    pub buffer: CallbackExecutionLog,
}

impl<T> StandardExecutionLogger<T> {
    pub fn builder(log_writer: AnyLogWriter) -> (r: StandardExecutionLoggerBuilder<T>)
        ensures
            r.subscriber_modes@.len() == 0,
            r.publisher_modes@.len() == 0,
            r.log_writer == log_writer,
    {
        StandardExecutionLoggerBuilder {
            subscriber_modes: Vec::new(),
            publisher_modes: Vec::new(),
            log_writer,
        }
    }

    /// What the mode records of one message.
    fn record(mode: &ChannelLogMode<T>, message: &crate::message::Message<T>) -> (r: (
        MessageHeader,
        Option<Vec<u8>>,
    ))
        ensures
            records(*mode, *message, (r.0, bytes_of(r.1))),
    {
        match mode {
            ChannelLogMode::HeaderAndValues(serializer) => {
                let mut bytes: Vec<u8> = Vec::new();
                serializer.serialize_value(&message.message, &mut bytes);
                (message.header, Some(bytes))
            },
            _ => (message.header, None),
        }
    }

    /// What the mode records of the messages that a subscriber can read.
    fn record_inputs(mode: &ChannelLogMode<T>, system: &PubSub<T>, subscriber: usize) -> (r:
        SubscriberLog)
        requires
            system.wf(),
            subscriber < system.subscribers@.len(),
        ensures
            records_all(*mode, readable_messages(*system, subscriber as int), r@),
    {
        let ghost messages = readable_messages(*system, subscriber as int);
        let mut entries: Vec<InputLogEntry> = Vec::new();
        if let ChannelLogMode::Skip = mode {
            return SubscriberLog { entries };
        }
        let count: usize = system.subscribers[subscriber].buffers.read_buffer.storage.len();
        let mut i: usize = 0;
        while i < count
            invariant
                i <= count,
                system.wf(),
                subscriber < system.subscribers@.len(),
                count == system.subscribers@[subscriber as int].buffers.readable().len(),
                messages == readable_messages(*system, subscriber as int),
                entries@.len() == i,
                forall|j: int|
                    0 <= j < i ==> records(*mode, messages[j], (#[trigger] entries@[j])@),
            decreases count - i,
        {
            let message = system.read_at(subscriber, i);
            let (header, serialized) = Self::record(mode, message);
            let entry = InputLogEntry { header, serialized };
            assert(records(*mode, messages[i as int], entry@));
            entries.push(entry);
            i = i + 1;
        }
        let log = SubscriberLog { entries };
        assert forall|j: int| 0 <= j < log@.len() implies records(
            *mode,
            messages[j],
            #[trigger] log@[j],
        ) by {
            assert(log@[j] == log.entries@[j]@);
        }
        log
    }

    /// What the mode records of the messages that a publisher will publish.
    fn record_outputs(mode: &ChannelLogMode<T>, system: &PubSub<T>, publisher: usize) -> (r:
        PublisherLog)
        requires
            system.wf(),
            publisher < system.publishers@.len(),
        ensures
            records_all(
                *mode,
                pending_messages(
                    *system,
                    publisher as int,
                    system.publishers@[publisher as int].loaned_values@.len() as int,
                ),
                r@,
            ),
    {
        let ghost p = publisher as int;
        let mut entries: Vec<OutputLogEntry> = Vec::new();
        if let ChannelLogMode::Skip = mode {
            return PublisherLog { entries };
        }
        let count: usize = system.publishers[publisher].loaned_values.len();
        let mut i: usize = 0;
        while i < count
            invariant
                i <= count,
                p == publisher,
                system.wf(),
                publisher < system.publishers@.len(),
                count == system.publishers@[p].loaned_values@.len(),
                entries@.len() == pending_messages(*system, p, i as int).len(),
                forall|j: int|
                    0 <= j < entries@.len() ==> records(
                        *mode,
                        pending_messages(*system, p, i as int)[j],
                        (#[trigger] entries@[j])@,
                    ),
            decreases count - i,
        {
            if system.publishers[publisher].loaned_values[i].sent {
                let message = system.loaned_message(publisher, i);
                let (header, serialized) = Self::record(mode, message);
                let entry = OutputLogEntry { header, serialized };
                assert(records(*mode, *message, entry@));
                entries.push(entry);
            }
            i = i + 1;
        }
        let log = PublisherLog { entries };
        assert forall|j: int| 0 <= j < log@.len() implies records(
            *mode,
            pending_messages(*system, p, count as int)[j],
            #[trigger] log@[j],
        ) by {
            assert(log@[j] == log.entries@[j]@);
        }
        log
    }
}

impl<T> ExecutionLogger<T> for StandardExecutionLogger<T> {
    fn log_before_run(&mut self, ctx: &Context, system: &PubSub<T>, ports: &NodePorts)
        ensures
            final(self).buffer.execution_time == ctx.now,
            final(self).buffer.subscribers@.len() == ports.subscriber_count,
            forall|i: int|
                0 <= i < ports.subscriber_count ==> records_all(
                    mode_of(old(self).subscriber_modes@, i),
                    readable_messages(*system, ports.first_subscriber + i),
                    (#[trigger] final(self).buffer.subscribers@[i])@,
                ),
            final(self).buffer.publishers == old(self).buffer.publishers,
            final(self).subscriber_modes == old(self).subscriber_modes,
            final(self).publisher_modes == old(self).publisher_modes,
            final(self).log_writer == old(self).log_writer,
    {
        let mut logs: Vec<SubscriberLog> = Vec::new();
        let mut i: usize = 0;
        while i < ports.subscriber_count
            invariant
                i <= ports.subscriber_count,
                *self == *old(self),
                system.wf(),
                ports.within(*system),
                logs@.len() == i,
                forall|j: int|
                    0 <= j < i ==> records_all(
                        mode_of(self.subscriber_modes@, j),
                        readable_messages(*system, ports.first_subscriber + j),
                        (#[trigger] logs@[j])@,
                    ),
            decreases ports.subscriber_count - i,
        {
            assert(system.subscribers.len() == system.subscribers@.len());
            let s: usize = ports.first_subscriber + i;
            let log = if i < self.subscriber_modes.len() {
                Self::record_inputs(&self.subscriber_modes[i], system, s)
            } else {
                Self::record_inputs(&ChannelLogMode::Skip, system, s)
            };
            logs.push(log);
            i = i + 1;
        }
        self.buffer.execution_time = ctx.now;
        self.buffer.subscribers = logs;
    }

    fn log_after_run(&mut self, ctx: &Context, system: &PubSub<T>, ports: &NodePorts)
        ensures
            final(self).buffer.execution_time == old(self).buffer.execution_time,
            final(self).buffer.subscribers == old(self).buffer.subscribers,
            final(self).buffer.publishers@.len() == ports.publisher_count,
            forall|i: int|
                0 <= i < ports.publisher_count ==> records_all(
                    mode_of(old(self).publisher_modes@, i),
                    pending_messages(
                        *system,
                        ports.first_publisher + i,
                        system.publishers@[ports.first_publisher + i].loaned_values@.len() as int,
                    ),
                    (#[trigger] final(self).buffer.publishers@[i])@,
                ),
            final(self).log_writer.inner.written() == old(self).log_writer.inner.written().push(
                final(self).buffer@,
            ),
            final(self).subscriber_modes == old(self).subscriber_modes,
            final(self).publisher_modes == old(self).publisher_modes,
    {
        let mut logs: Vec<PublisherLog> = Vec::new();
        let mut i: usize = 0;
        while i < ports.publisher_count
            invariant
                i <= ports.publisher_count,
                *self == *old(self),
                system.wf(),
                ports.within(*system),
                logs@.len() == i,
                forall|j: int|
                    0 <= j < i ==> records_all(
                        mode_of(self.publisher_modes@, j),
                        pending_messages(
                            *system,
                            ports.first_publisher + j,
                            system.publishers@[ports.first_publisher + j].loaned_values@.len() as int,
                        ),
                        (#[trigger] logs@[j])@,
                    ),
            decreases ports.publisher_count - i,
        {
            assert(system.publishers.len() == system.publishers@.len());
            let p: usize = ports.first_publisher + i;
            let log = if i < self.publisher_modes.len() {
                Self::record_outputs(&self.publisher_modes[i], system, p)
            } else {
                Self::record_outputs(&ChannelLogMode::Skip, system, p)
            };
            logs.push(log);
            i = i + 1;
        }
        self.buffer.publishers = logs;
        self.log_writer.inner.log_execution(&self.buffer);
    }
}

#[verifier::reject_recursive_types(T)]
pub struct StandardExecutionLoggerBuilder<T> {
    pub subscriber_modes: Vec<ChannelLogMode<T>>,
    pub publisher_modes: Vec<ChannelLogMode<T>>,
    pub log_writer: AnyLogWriter,
}

/// Whether `after` are the modes `before` with `mode` for port `index`; ports
/// in between that had no mode are skipped.
pub open spec fn mode_set<T>(
    before: Seq<ChannelLogMode<T>>,
    after: Seq<ChannelLogMode<T>>,
    index: int,
    mode: ChannelLogMode<T>,
) -> bool {
    &&& after.len() == if before.len() > index {
        before.len() as int
    } else {
        index + 1
    }
    &&& after[index] == mode
    &&& forall|i: int|
        0 <= i < after.len() && i != index ==> #[trigger] after[i] == mode_of(before, i)
}

fn set_mode<T>(modes: &mut Vec<ChannelLogMode<T>>, index: usize, mode: ChannelLogMode<T>)
    requires
        index < usize::MAX,
    ensures
        mode_set(old(modes)@, final(modes)@, index as int, mode),
{
    while modes.len() <= index
        invariant
            index < usize::MAX,
            modes@.len() >= old(modes)@.len(),
            modes@.len() <= old(modes)@.len() || modes@.len() <= index + 1,
            forall|i: int|
                0 <= i < modes@.len() ==> #[trigger] modes@[i] == mode_of(old(modes)@, i),
        decreases index + 1 - modes@.len(),
    {
        modes.push(ChannelLogMode::Skip);
    }
    modes.set(index, mode);
}

impl<T> StandardExecutionLoggerBuilder<T> {
    /// Set the logging mode for subscriber at `index`.
    pub fn subscriber(self, index: usize, mode: ChannelLogMode<T>) -> (r: Self)
        requires
            index < usize::MAX,
        ensures
            mode_set(self.subscriber_modes@, r.subscriber_modes@, index as int, mode),
            r.publisher_modes == self.publisher_modes,
            r.log_writer == self.log_writer,
    {
        let mut builder = self;
        set_mode(&mut builder.subscriber_modes, index, mode);
        builder
    }

    /// Set the logging mode for publisher at `index`.
    pub fn publisher(self, index: usize, mode: ChannelLogMode<T>) -> (r: Self)
        requires
            index < usize::MAX,
        ensures
            mode_set(self.publisher_modes@, r.publisher_modes@, index as int, mode),
            r.subscriber_modes == self.subscriber_modes,
            r.log_writer == self.log_writer,
    {
        let mut builder = self;
        set_mode(&mut builder.publisher_modes, index, mode);
        builder
    }

    /// The logger, with an empty record as of `now`.
    pub fn build(self, now: FrameworkTime) -> (r: StandardExecutionLogger<T>)
        ensures
            r.subscriber_modes == self.subscriber_modes,
            r.publisher_modes == self.publisher_modes,
            r.log_writer == self.log_writer,
            r.buffer.execution_time == now,
            r.buffer.subscribers@.len() == 0,
            r.buffer.publishers@.len() == 0,
    {
        StandardExecutionLogger {
            subscriber_modes: self.subscriber_modes,
            publisher_modes: self.publisher_modes,
            log_writer: self.log_writer,
            buffer: CallbackExecutionLog {
                execution_time: now,
                subscribers: Vec::new(),
                publishers: Vec::new(),
            },
        }
    }
}

/// Keeps what is logged in memory.
pub struct InMemoryLogWriter {
    pub entries: Vec<CallbackExecutionLog>,
}

/// What the records say, in order.
pub open spec fn views(entries: Seq<CallbackExecutionLog>) -> Seq<ExecutionView> {
    entries.map_values(|entry: CallbackExecutionLog| entry@)
}

impl InMemoryLogWriter {
    pub fn new() -> (r: Self)
        ensures
            r.entries@.len() == 0,
    {
        InMemoryLogWriter { entries: Vec::new() }
    }

    pub fn into_reader(self) -> (r: InMemoryLogReader)
        ensures
            r.entries == self.entries,
            r.unread() == self.written(),
    {
        InMemoryLogReader { entries: self.entries }
    }
}

impl Default for InMemoryLogWriter {
    fn default() -> (r: Self)
        ensures
            r.entries@.len() == 0,
    {
        InMemoryLogWriter::new()
    }
}

impl LogWriter for InMemoryLogWriter {
    open spec fn written(&self) -> Seq<ExecutionView> {
        views(self.entries@)
    }

    fn log_execution(&mut self, entry: &CallbackExecutionLog) {
        let ghost before = self.entries@;
        let copy = entry.clone();
        self.entries.push(copy);
        assert(views(self.entries@) =~= views(before).push(entry@));
    }
}

/// Reads what was logged in memory, oldest first.
pub struct InMemoryLogReader {
    pub entries: Vec<CallbackExecutionLog>,
}

impl LogReader for InMemoryLogReader {
    open spec fn unread(&self) -> Seq<ExecutionView> {
        views(self.entries@)
    }

    fn next_execution(&mut self) -> (r: Option<CallbackExecutionLog>) {
        if self.entries.len() == 0 {
            None
        } else {
            let ghost before = self.entries@;
            let entry = self.entries.remove(0);
            assert(views(self.entries@) =~= views(before).skip(1));
            Some(entry)
        }
    }

    fn peek_next_time(&self) -> (r: Option<FrameworkTime>) {
        if self.entries.len() > 0 {
            Some(self.entries[0].execution_time)
        } else {
            None
        }
    }
}

/// What is logged is read back, in order: a reader of a writer that logged one
/// more execution has that execution behind the others.
pub proof fn law_log_is_read_back_in_order(
    before: InMemoryLogWriter,
    after: InMemoryLogWriter,
    entry: ExecutionView,
    reader: InMemoryLogReader,
)
    requires
        after.written() == before.written().push(entry),
        reader.entries == after.entries,
    ensures
        reader.unread().len() == before.written().len() + 1,
        reader.unread().last() == entry,
        reader.unread().drop_last() == before.written(),
{
    assert(reader.unread().drop_last() =~= before.written());
}

} // verus!
