//! Which payload types can be logged and replayed, and what each channel
//! carries.
use core::marker::PhantomData;
use std::collections::HashSet;

use vstd::prelude::*;

use crate::callback::PublisherPort;
use crate::channel_map::ChannelMap;
use crate::forwarded_message::{ForwardedMessage, Forwards};
use crate::loggable::{DeserializeError, ForwardedMessageContext, Loggable, SerializeError};
use crate::message::MessageHeader;
use crate::pub_sub::PubSub;
use crate::publisher::PublisherConfig;

verus! {

/// Identifies the payload type of execution logs.
pub const EXECUTION_LOG_VALUE_TYPE: u64 = 0xffff_ffff_ffff_ffff;

/// Per-message sink error: either the value failed to serialize, or the writer
/// rejected the bytes.
#[derive(Debug)]
pub enum MessageSinkError {
    Serialize(SerializeError),
    Sink(String),
}

impl MessageSinkError {
    /// The error as a message.
    pub fn to_string(&self) -> (r: String)
        ensures
            r@ == match *self {
                MessageSinkError::Serialize(e) => "serialize: "@ + e.text(),
                MessageSinkError::Sink(e) => "writer: "@ + e@,
            },
    {
        match self {
            MessageSinkError::Serialize(e) => {
                let mut text = "serialize: ".to_owned();
                text.append(e.to_string().as_str());
                text
            },
            MessageSinkError::Sink(e) => {
                let mut text = "writer: ".to_owned();
                text.append(e.as_str());
                text
            },
        }
    }
}

/// The inputs of one channel as bytes, up to the first that could not be
/// written.
pub struct SerializedInputs {
    pub messages: Vec<(MessageHeader, Vec<u8>)>,
    pub error: Option<SerializeError>,
}

/// Writes the inputs of a channel whose payload type is registered.
#[derive(Clone, Copy, Debug, PartialEq, Eq, Structural)]
pub struct SerializerFn {
    pub value_type: u64,
}

impl SerializerFn {
    /// Consumes what a subscriber can read and writes each message, in order,
    /// up to the first that cannot be written. The messages behind it are
    /// consumed too.
    pub fn serialize_inputs<T: Loggable>(&self, system: &mut PubSub<T>, subscriber: usize) -> (r:
        SerializedInputs)
        requires
            old(system).wf(),
            subscriber < old(system).subscribers@.len(),
            old(system).subscribers@[subscriber as int].value_type == self.value_type,
        ensures
            final(system).wf(),
            final(system).only_reader_changed(*old(system), subscriber as int),
            final(system).readiness == old(system).readiness,
            final(system).subscribers@[subscriber as int].buffers.readable().len() == 0,
            final(system).subscribers@[subscriber as int].buffers.pending() == old(
                system).subscribers@[subscriber as int].buffers.pending(),
            r.messages@.len() <= old(
                system).subscribers@[subscriber as int].buffers.readable().len(),
            r.error is None <==> r.messages@.len() == old(
                system).subscribers@[subscriber as int].buffers.readable().len(),
            forall|i: int|
                0 <= i < r.messages@.len() ==> written(
                    old(system).entry(
                        old(system).subscribers@[subscriber as int].buffers.readable()[i],
                    ).message,
                    #[trigger] r.messages@[i],
                ),
            r.error matches Some(error) ==> exists|bytes: Seq<u8>| #[trigger]
                old(system).entry(
                    old(
                        system).subscribers@[subscriber as int].buffers.readable()[r.messages@.len() as int],
                ).message.message.writes(Seq::empty(), bytes, Err(error)),
    {
        let ghost s = subscriber as int;
        let ghost refs = system.subscribers@[s].buffers.readable();
        let mut messages: Vec<(MessageHeader, Vec<u8>)> = Vec::new();
        let mut error: Option<SerializeError> = None;
        let count: usize = system.subscribers[subscriber].buffers.read_buffer.storage.len();
        let mut i: usize = 0;
        while i < count && error.is_none()
            invariant
                i <= count,
                count == refs.len(),
                *system == *old(system),
                system.wf(),
                s == subscriber,
                subscriber < system.subscribers@.len(),
                refs == system.subscribers@[s].buffers.readable(),
                error is None ==> messages@.len() == i,
                error is Some ==> messages@.len() < count,
                forall|j: int|
                    0 <= j < messages@.len() ==> written(
                        old(system).entry(refs[j]).message,
                        #[trigger] messages@[j],
                    ),
                error matches Some(e) ==> exists|bytes: Seq<u8>| #[trigger]
                    old(system).entry(refs[messages@.len() as int]).message.message.writes(
                        Seq::empty(),
                        bytes,
                        Err(e),
                    ),
            decreases count - i,
        {
            let message = system.read_at(subscriber, i);
            let mut scratch: Vec<u8> = Vec::new();
            let ghost empty = scratch@;
            assert(empty =~= Seq::empty());
            match message.message.serialize(&mut scratch) {
                Ok(unit) => {
                    assert(unit == ());
                    assert(message.message.writes(Seq::empty(), scratch@, Ok(())));
                    let entry = (message.header, scratch);
                    assert(written(old(system).entry(refs[i as int]).message, entry));
                    messages.push(entry);
                },
                Err(e) => {
                    assert(old(system).entry(refs[messages@.len() as int]).message.message.writes(
                        Seq::empty(),
                        scratch@,
                        Err(e),
                    ));
                    error = Some(e);
                },
            }
            i = i + 1;
        }
        system.drain_inputs(subscriber);
        SerializedInputs { messages, error }
    }
}

/// Whether `bytes` is `message` as it is written.
pub open spec fn written<T: Loggable>(
    message: crate::message::Message<T>,
    bytes: (MessageHeader, Vec<u8>),
) -> bool {
    &&& bytes.0 == message.header
    &&& message.message.writes(Seq::empty(), bytes.1@, Ok(()))
}

/// Reads values of a registered payload type back.
#[derive(Clone, Copy, Debug, PartialEq, Eq, Structural)]
pub struct DeserializerFn {
    pub value_type: u64,
}

impl DeserializerFn {
    /// Reads a value back from its logged bytes.
    pub fn deserialize<T: Loggable>(&self, bytes: &[u8]) -> (r: Result<T, DeserializeError>)
        requires
            T::tag() == self.value_type,
        ensures
            T::reads(bytes@, r),
    {
        T::deserialize(bytes)
    }
}

/// Reads forwarded messages of a registered payload type back.
#[derive(Clone, Copy, Debug, PartialEq, Eq, Structural)]
pub struct ForwardedDeserializerFn {
    pub value_type: u64,
}

impl ForwardedDeserializerFn {
    /// Puts a forwarded message together again from what is logged of it: its
    /// extra data, and the header of the message that it forwards. That message
    /// is looked up among the messages of its source channel, which have to be
    /// of the forwarded type.
    pub fn resolve<UserData, ForwardedData: Clone>(
        &self,
        message: UserData,
        forwarded_message_header: MessageHeader,
        context: &ForwardedMessageContext<ForwardedData>,
        forwarded_data_type: u64,
    ) -> (r: Result<ForwardedMessage<UserData, ForwardedData>, DeserializeError>)
        requires
            context.value_type == forwarded_data_type,
        ensures
            r is Ok <==> exists|i: int| #[trigger]
                crate::loggable::first_published(
                    context.messages@,
                    forwarded_message_header.published_at,
                    i,
                ),
            r matches Err(error) ==> error is MissingForwardedMessage,
            r matches Ok(forwarded) ==> exists|i: int| #[trigger]
                crate::loggable::first_published(
                    context.messages@,
                    forwarded_message_header.published_at,
                    i,
                ) && forwarded.message == message && forwarded.forwarded_message.header
                    == context.messages@[i].0 && crate::loggable::copied(
                    context.messages@[i].1,
                    forwarded.forwarded_message.message,
                ),
    {
        let log = context.to_log(forwarded_data_type);
        let ghost time = forwarded_message_header.published_at;
        let r = crate::loggable::resolve_forwarded(message, forwarded_message_header, &log);
        proof {
            let at = crate::loggable::lemma_first_at(log.messages@, time);
            assert forall|j: int| 0 <= j < context.messages@.len() implies (#[trigger]
            context.messages@[j]).0 == log.messages@[j].header by {}
            if r is Ok {
                assert(crate::loggable::first_published(context.messages@, time, at));
                assert(cloned(context.messages@[at].1, log.messages@[at].message));
            } else {
                assert forall|i: int| !#[trigger]
                    crate::loggable::first_published(context.messages@, time, i) by {
                    if 0 <= i < context.messages@.len() {
                        assert(log.messages@[i].header.published_at != time);
                    }
                }
            }
        }
        r
    }
}

/// Makes the outputs through which a channel is replayed.
#[derive(Clone, Copy, Debug, PartialEq, Eq, Structural)]
pub struct ChannelPublisherFactory {
    pub value_type: u64,
}

impl ChannelPublisherFactory {
    /// The output for a channel: room for one message, and the payload type.
    pub fn make(&self, channel_name: String) -> (r: PublisherPort)
        ensures
            r.config.capacity == 1,
            r.config.channel_name == channel_name,
            r.value_type == self.value_type,
            r.forwarded_channels@.len() == 0,
    {
        PublisherPort {
            config: PublisherConfig { capacity: 1, channel_name },
            value_type: self.value_type,
            forwarded_channels: Vec::new(),
        }
    }

    /// Publishes a value through a replay output of this type: it is sent with
    /// the next flush. The output has to have a loan left.
    pub fn write<T>(&self, system: &mut PubSub<T>, publisher: usize, value: T)
        requires
            old(system).wf(),
            publisher < old(system).publishers@.len(),
            old(system).publishers@[publisher as int].value_type == self.value_type,
            old(system).publishers@[publisher as int].loaned_values@.len() < old(
                system).publishers@[publisher as int].config.capacity,
            old(system).publishers@[publisher as int].arena.has_free_slot(),
        ensures
            final(system).wf(),
            final(system).subscribers == old(system).subscribers,
            final(system).readiness == old(system).readiness,
            exists|mid: PubSub<T>| #[trigger]
                mid.loaned_one_more(
                    *old(system),
                    publisher as int,
                    crate::pub_sub_io::unpublished(value, None),
                ) && sent_last(mid, *final(system), publisher as int),
    {
        match system.loan_with(publisher, value) {
            Ok(index) => {
                let ghost mid = *system;
                system.mark_loan_sent(publisher, index);
                assert(sent_last(mid, *system, publisher as int));
            },
            Err(_) => {},
        }
    }
}

/// Whether `after` is `before` with the last loan of publisher `p` marked as
/// sent.
pub open spec fn sent_last<T>(before: PubSub<T>, after: PubSub<T>, p: int) -> bool {
    let loans = before.publishers@[p].loaned_values@;
    &&& after.publishers@.len() == before.publishers@.len()
    &&& after.subscribers == before.subscribers
    &&& forall|q: int|
        0 <= q < before.publishers@.len() && q != p ==> #[trigger] after.publishers@[q]
            == before.publishers@[q]
    &&& after.publishers@[p].arena == before.publishers@[p].arena
    &&& after.publishers@[p].loaned_values@ == loans.update(
        loans.len() - 1,
        crate::publisher::LoanedValue { ptr: loans.last().ptr, sent: true },
    )
}

/// How a forwarded channel relates to its source channel.
#[derive(Debug)]
pub struct ForwardedChannelInfo {
    /// The channel that carries the forwarded payload type.
    pub source_channel: String,
    /// Identifies the forwarded payload type.
    pub forwarded_data_type_id: u64,
}

/// Registry of what is known of each payload type and each channel.
pub struct ChannelRegistry {
    pub serializers: HashSet<u64>,
    pub deserializers: HashSet<u64>,
    pub forwarded_deserializers: HashSet<u64>,
    pub publisher_factories: HashSet<u64>,
    pub channels: ChannelMap<u64>,
    pub forwarded_channels: ChannelMap<ForwardedChannelInfo>,
}

/// Whether `after` is `before` once `channel` was registered for a payload
/// type.
pub open spec fn channel_added(
    before: ChannelRegistry,
    after: ChannelRegistry,
    channel: Seq<char>,
    value_type: u64,
) -> bool {
    &&& after.serializers@ == before.serializers@.insert(value_type)
    &&& after.deserializers@ == before.deserializers@.insert(value_type)
    &&& after.publisher_factories@ == before.publisher_factories@.insert(value_type)
    &&& after.forwarded_deserializers == before.forwarded_deserializers
    &&& after.forwarded_channels == before.forwarded_channels
    &&& after.channels.at(channel) == Some(value_type)
    &&& forall|other: Seq<char>|
        other != channel ==> #[trigger] after.channels.at(other) == before.channels.at(other)
}

/// Registering is idempotent: a channel that is registered again for the same
/// payload type changes nothing.
pub proof fn law_registering_again_changes_nothing(
    before: ChannelRegistry,
    once: ChannelRegistry,
    twice: ChannelRegistry,
    channel: Seq<char>,
    value_type: u64,
)
    requires
        channel_added(before, once, channel, value_type),
        channel_added(once, twice, channel, value_type),
    ensures
        twice.serializers@ == once.serializers@,
        twice.deserializers@ == once.deserializers@,
        twice.publisher_factories@ == once.publisher_factories@,
        twice.forwarded_deserializers == once.forwarded_deserializers,
        twice.forwarded_channels == once.forwarded_channels,
        forall|name: Seq<char>| #[trigger] twice.channels.at(name) == once.channels.at(name),
{
    assert(twice.serializers@ =~= once.serializers@);
    assert(twice.deserializers@ =~= once.deserializers@);
    assert(twice.publisher_factories@ =~= once.publisher_factories@);
    assert forall|name: Seq<char>| #[trigger] twice.channels.at(name) == once.channels.at(
        name,
    ) by {
        if name != channel {
            assert(twice.channels.at(name) == once.channels.at(name));
        }
    }
}

impl ChannelRegistry {
    /// Whether nothing is registered but the channel of the execution logs.
    pub open spec fn is_fresh(&self) -> bool {
        &&& self.serializers@ == set![EXECUTION_LOG_VALUE_TYPE]
        &&& self.deserializers@ == set![EXECUTION_LOG_VALUE_TYPE]
        &&& self.publisher_factories@ == set![EXECUTION_LOG_VALUE_TYPE]
        &&& self.forwarded_deserializers@ == Set::<u64>::empty()
        &&& forall|channel: Seq<char>| #[trigger]
            self.channels.at(channel) == if channel == crate::execution_log::EXECUTION_LOG_CHANNEL@ {
                Some(EXECUTION_LOG_VALUE_TYPE)
            } else {
                None
            }
        &&& forall|channel: Seq<char>| #[trigger] self.forwarded_channels.at(channel) is None
    }

    pub open spec fn wf(&self) -> bool {
        &&& self.channels.wf()
        &&& self.forwarded_channels.wf()
    }

    /// A fresh registry, which knows the execution-log channel.
    pub fn new() -> (r: Self)
        ensures
            r.wf(),
            r.is_fresh(),
    {
        broadcast use vstd::std_specs::hash::group_hash_axioms;

        let mut registry = ChannelRegistry {
            serializers: HashSet::new(),
            deserializers: HashSet::new(),
            forwarded_deserializers: HashSet::new(),
            publisher_factories: HashSet::new(),
            channels: ChannelMap::new(),
            forwarded_channels: ChannelMap::new(),
        };
        registry.register_channel(
            crate::execution_log::EXECUTION_LOG_CHANNEL.to_owned(),
            EXECUTION_LOG_VALUE_TYPE,
        );
        assert(registry.serializers@ =~= set![EXECUTION_LOG_VALUE_TYPE]);
        assert(registry.deserializers@ =~= set![EXECUTION_LOG_VALUE_TYPE]);
        assert(registry.publisher_factories@ =~= set![EXECUTION_LOG_VALUE_TYPE]);
        registry
    }

    /// Register a serializer. Registering a type again changes nothing.
    pub fn register_loggable(&mut self, value_type: u64)
        ensures
            final(self).serializers@ == old(self).serializers@.insert(value_type),
            *final(self) == (ChannelRegistry {
                serializers: final(self).serializers,
                ..*old(self)
            }),
    {
        broadcast use vstd::std_specs::hash::group_hash_axioms;

        self.serializers.insert(value_type);
    }

    /// Register what makes the outputs through which a type is replayed.
    pub fn register_publisher_factory(&mut self, value_type: u64)
        ensures
            final(self).publisher_factories@ == old(self).publisher_factories@.insert(value_type),
            *final(self) == (ChannelRegistry {
                publisher_factories: final(self).publisher_factories,
                ..*old(self)
            }),
    {
        broadcast use vstd::std_specs::hash::group_hash_axioms;

        self.publisher_factories.insert(value_type);
    }

    /// Register a channel's payload type: its serializer, its deserializer,
    /// its replay outputs, and that the channel carries it.
    pub fn register_channel(&mut self, channel: String, value_type: u64)
        requires
            old(self).wf(),
        ensures
            final(self).wf(),
            channel_added(*old(self), *final(self), channel@, value_type),
    {
        broadcast use vstd::std_specs::hash::group_hash_axioms;

        self.register_loggable(value_type);
        self.deserializers.insert(value_type);
        self.register_publisher_factory(value_type);
        self.channels.insert(channel, value_type);
    }

    /// Register a forwarded channel: its messages carry extra data and refer to
    /// a message on `source_channel`. The source channel has to be registered
    /// for itself.
    pub fn register_forwarded_channel(
        &mut self,
        forwarded_channel: String,
        source_channel: String,
        forwarded_type_id: u64,
        forwarded_data_type_id: u64,
    )
        requires
            old(self).wf(),
        ensures
            final(self).wf(),
            final(self).serializers@ == old(self).serializers@.insert(forwarded_type_id),
            final(self).deserializers == old(self).deserializers,
            final(self).forwarded_deserializers@ == old(self).forwarded_deserializers@.insert(
                forwarded_type_id,
            ),
            final(self).publisher_factories@ == old(self).publisher_factories@.insert(
                forwarded_type_id,
            ),
            final(self).channels.at(forwarded_channel@) == Some(forwarded_type_id),
            forall|other: Seq<char>|
                other != forwarded_channel@ ==> #[trigger] final(self).channels.at(other) == old(
                    self).channels.at(other),
            final(self).forwarded_channels.at(forwarded_channel@) == Some(
                ForwardedChannelInfo { source_channel, forwarded_data_type_id },
            ),
            forall|other: Seq<char>|
                other != forwarded_channel@ ==> #[trigger] final(self).forwarded_channels.at(other)
                    == old(self).forwarded_channels.at(other),
    {
        broadcast use vstd::std_specs::hash::group_hash_axioms;

        self.register_loggable(forwarded_type_id);
        self.forwarded_deserializers.insert(forwarded_type_id);
        self.register_publisher_factory(forwarded_type_id);
        self.channels.insert(forwarded_channel.clone(), forwarded_type_id);
        self.forwarded_channels.insert(
            forwarded_channel,
            ForwardedChannelInfo { source_channel, forwarded_data_type_id },
        );
    }

    pub fn serializer_for(&self, type_id: u64) -> (r: Option<SerializerFn>)
        ensures
            r == if self.serializers@.contains(type_id) {
                Some(SerializerFn { value_type: type_id })
            } else {
                None
            },
    {
        broadcast use vstd::std_specs::hash::group_hash_axioms;

        if self.serializers.contains(&type_id) {
            Some(SerializerFn { value_type: type_id })
        } else {
            None
        }
    }

    /// The payload type registered for a channel.
    pub fn channel_type(&self, channel: &str) -> (r: Option<u64>)
        requires
            self.wf(),
        ensures
            r == self.channels.at(channel@),
    {
        match self.channels.get(&channel.to_owned()) {
            Some(type_id) => Some(*type_id),
            None => None,
        }
    }

    /// The source of a forwarded channel. `None` for ordinary channels and
    /// unknown ones.
    pub fn forwarded_channel_info(&self, channel: &str) -> (r: Option<&ForwardedChannelInfo>)
        requires
            self.wf(),
        ensures
            r is Some <==> self.forwarded_channels.at(channel@) is Some,
            r matches Some(info) ==> self.forwarded_channels.at(channel@) == Some(*info),
    {
        self.forwarded_channels.get(&channel.to_owned())
    }

    pub fn deserializer_for(&self, type_id: u64) -> (r: Option<DeserializerFn>)
        ensures
            r == if self.deserializers@.contains(type_id) {
                Some(DeserializerFn { value_type: type_id })
            } else {
                None
            },
    {
        broadcast use vstd::std_specs::hash::group_hash_axioms;

        if self.deserializers.contains(&type_id) {
            Some(DeserializerFn { value_type: type_id })
        } else {
            None
        }
    }

    pub fn forwarded_deserializer_for(&self, type_id: u64) -> (r: Option<ForwardedDeserializerFn>)
        ensures
            r == if self.forwarded_deserializers@.contains(type_id) {
                Some(ForwardedDeserializerFn { value_type: type_id })
            } else {
                None
            },
    {
        broadcast use vstd::std_specs::hash::group_hash_axioms;

        if self.forwarded_deserializers.contains(&type_id) {
            Some(ForwardedDeserializerFn { value_type: type_id })
        } else {
            None
        }
    }

    pub fn channel_publisher_factory(&self, type_id: u64) -> (r: Option<ChannelPublisherFactory>)
        ensures
            r == if self.publisher_factories@.contains(type_id) {
                Some(ChannelPublisherFactory { value_type: type_id })
            } else {
                None
            },
    {
        broadcast use vstd::std_specs::hash::group_hash_axioms;

        if self.publisher_factories.contains(&type_id) {
            Some(ChannelPublisherFactory { value_type: type_id })
        } else {
            None
        }
    }

    /// Number of registered serializer types.
    pub fn serializer_count(&self) -> (r: usize)
        ensures
            r == self.serializers@.len(),
    {
        broadcast use vstd::std_specs::hash::group_hash_axioms;

        self.serializers.len()
    }
}

impl Default for ChannelRegistry {
    fn default() -> (r: Self)
        ensures
            r.wf(),
            r.is_fresh(),
    {
        ChannelRegistry::new()
    }
}

/// Registration of any type: by itself it does nothing. A loggable type is
/// registered by its `Probe`.
pub trait MaybeRegister {
    fn try_register(&self, registry: &mut ChannelRegistry)
        ensures
            *final(registry) == *old(registry),
    {
    }

    fn try_register_channel(&self, registry: &mut ChannelRegistry, channel: String)
        ensures
            *final(registry) == *old(registry),
    {
    }
}

impl<T: ?Sized> MaybeRegister for T {

}

/// Stands for a type that may be loggable.
pub struct Probe<T> {
    pub marker: PhantomData<T>,
}

impl<T> Probe<T> {
    pub fn new() -> (r: Self)
        ensures
            r == (Probe::<T> { marker: PhantomData }),
    {
        Probe { marker: PhantomData }
    }
}

impl<T> Default for Probe<T> {
    fn default() -> (r: Self)
        ensures
            r == (Probe::<T> { marker: PhantomData }),
    {
        Probe::new()
    }
}

impl<UserData: Forwards<ForwardedData>, ForwardedData> Probe<
    ForwardedMessage<UserData, ForwardedData>,
> {
    /// Registers what writes forwarding messages to a log. Their channels are
    /// registered together with their source channels.
    pub fn try_register_forwarding(&self, registry: &mut ChannelRegistry)
        ensures
            final(registry).serializers@ == old(registry).serializers@.insert(
                UserData::forwarding_tag(),
            ),
            *final(registry) == (ChannelRegistry {
                serializers: final(registry).serializers,
                ..*old(registry)
            }),
    {
        registry.register_loggable(ForwardedMessage::<UserData, ForwardedData>::value_type());
    }
}

impl<T: Loggable> Probe<T> {
    pub fn try_register(&self, registry: &mut ChannelRegistry)
        ensures
            final(registry).serializers@ == old(registry).serializers@.insert(T::tag()),
            *final(registry) == (ChannelRegistry {
                serializers: final(registry).serializers,
                ..*old(registry)
            }),
    {
        registry.register_loggable(T::value_type());
    }

    pub fn try_register_channel(&self, registry: &mut ChannelRegistry, channel: String)
        requires
            old(registry).wf(),
        ensures
            final(registry).wf(),
            channel_added(*old(registry), *final(registry), channel@, T::tag()),
    {
        registry.register_channel(channel, T::value_type());
    }
}

} // verus!
