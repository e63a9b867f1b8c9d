//! Data inputs and outputs of the shared-memory transport.
use vstd::prelude::*;

use crate::generic_publisher::ConnectionTypeMismatch;
use crate::generic_subscriber::QueueInfo;
use crate::iox2::{EventServiceSettings, Iox2Context, PubSubServiceSettings};
use crate::message::{Message, MessageHeader};
use crate::pub_sub_factory::{EndpointKind, Iox2EndpointInfo};
use crate::publisher::PublisherConfig;
use crate::subscriber::SubscriberConfig;
use crate::task_graph_builder::TaskGraphBuildError;
use crate::time::FrameworkTime;

verus! {

/// The last `capacity` elements of `all`, or all of it where it fits.
pub open spec fn newest_of<A>(all: Seq<A>, capacity: nat) -> Seq<A> {
    if all.len() <= capacity {
        all
    } else {
        all.skip(all.len() - capacity)
    }
}

/// What a port gives when it is asked for a sample.
pub enum Received<T> {
    Sample(Message<T>),
    /// Nothing is left for now.
    Empty,
    /// Receiving failed.
    Failed,
}

/// How to open the service of a data endpoint: its name and settings, how many
/// samples the port holds, and the event service to notify, if there is one.
pub struct DataServicePlan {
    pub service_name: String,
    pub settings: PubSubServiceSettings,
    pub port_capacity: usize,
    pub notifier: Option<NotifierPlan>,
}

/// How to open a notifier.
pub struct NotifierPlan {
    pub service_name: String,
    pub settings: Option<EventServiceSettings>,
    pub event_id: usize,
}

/// Data input of the shared-memory transport.
///
/// Receive failures are counted in `receive_errors`; a failed receive ends
/// that drain attempt and leaves remaining samples for a later call.
pub struct Iox2Subscriber<T> {
    pub config: SubscriberConfig,
    pub value_type: u64,
    pub read: Vec<Message<T>>,
    pub receive_errors: u64,
}

impl<T> Iox2Subscriber<T> {
    pub open spec fn wf(&self) -> bool {
        0 < self.config.capacity && self.read@.len() <= self.config.capacity
    }

    /// A data input; it is always optional and non-triggering.
    pub fn new(config: SubscriberConfig, value_type: u64) -> (r: Self)
        requires
            config.capacity > 0,
        ensures
            r.wf(),
            r.config == (SubscriberConfig { is_optional: true, is_trigger: false, ..config }),
            r.value_type == value_type,
            r.read@.len() == 0,
            r.receive_errors == 0,
    {
        let mut config = config;
        config.is_optional = true;
        config.is_trigger = false;
        Iox2Subscriber { config, value_type, read: Vec::new(), receive_errors: 0 }
    }

    /// Takes what the port gave. Returns whether to ask the port again.
    pub fn receive(&mut self, received: Received<T>) -> (go_on: bool)
        requires
            old(self).wf(),
        ensures
            final(self).wf(),
            final(self).config == old(self).config,
            final(self).value_type == old(self).value_type,
            go_on == (received is Sample),
            final(self).read@ == match received {
                Received::Sample(sample) => newest_of(
                    old(self).read@.push(sample),
                    old(self).config.capacity as nat,
                ),
                _ => old(self).read@,
            },
            final(self).receive_errors == if received is Failed {
                old(self).receive_errors.wrapping_add(1)
            } else {
                old(self).receive_errors
            },
    {
        match received {
            Received::Sample(sample) => {
                let ghost before = self.read@;
                if self.read.len() == self.config.capacity {
                    let _ = self.read.remove(0);
                }
                self.read.push(sample);
                assert(self.read@ =~= newest_of(
                    before.push(sample),
                    self.config.capacity as nat,
                ));
                true
            },
            Received::Empty => false,
            Received::Failed => {
                self.receive_errors = self.receive_errors.wrapping_add(1);
                false
            },
        }
    }

    /// How many samples are retained, and whether the port has more.
    pub fn queue_info(&self, has_samples: bool) -> (r: QueueInfo)
        ensures
            r.reader_size == self.read@.len(),
            r.writer_size == if has_samples {
                1usize
            } else {
                0usize
            },
    {
        QueueInfo {
            reader_size: self.read.len(),
            writer_size: if has_samples {
                1
            } else {
                0
            },
        }
    }

    pub fn cleanup_buffers(&mut self)
        ensures
            final(self).read@.len() == 0,
            final(self).config == old(self).config,
            final(self).value_type == old(self).value_type,
            final(self).receive_errors == old(self).receive_errors,
    {
        self.read.clear();
    }

    /// The endpoint that this input is.
    pub fn endpoint(&self) -> (r: Iox2EndpointInfo)
        ensures
            r.channel@ == self.config.channel_name@,
            r.kind == (EndpointKind::Iox2DataSub { capacity: self.config.capacity }),
            r.payload_type == Some(self.value_type),
    {
        Iox2EndpointInfo {
            channel: self.config.channel_name.clone(),
            kind: EndpointKind::Iox2DataSub { capacity: self.config.capacity },
            payload_type: Some(self.value_type),
        }
    }

    /// How to open this input.
    pub fn iox2_open(&self, ctx: &Iox2Context) -> (r: Result<DataServicePlan, TaskGraphBuildError>)
        requires
            ctx.wf(),
        ensures
            r is Ok <==> opens(*ctx, self.config.channel_name@),
            r matches Ok(plan) ==> {
                &&& plan.service_name@ == crate::iox2::full_name(
                    ctx.namespace,
                    self.config.channel_name@,
                )
                &&& ctx.pubsub_settings.at(self.config.channel_name@) == Some(plan.settings)
                &&& plan.port_capacity == self.config.capacity
                &&& plan.notifier is None
            },
            r matches Err(error) ==> open_error(error, *ctx, self.config.channel_name@),
    {
        plan_data_service(ctx, &self.config.channel_name, self.config.capacity)
    }
}

/// Whether a data endpoint on `channel` can be opened: its name is a service
/// name, and the channel's settings are known.
pub open spec fn opens(ctx: Iox2Context, channel: Seq<char>) -> bool {
    &&& crate::iox2_names::service_name_error(
        crate::iox2::full_name(ctx.namespace, channel),
    ) is None
    &&& ctx.pubsub_settings.at(channel) is Some
}

/// Why a data endpoint on `channel` cannot be opened.
pub open spec fn open_error(error: TaskGraphBuildError, ctx: Iox2Context, channel: Seq<char>) -> bool {
    let name = crate::iox2::full_name(ctx.namespace, channel);
    if crate::iox2_names::service_name_error(name) is Some {
        &&& error is InvalidServiceName
        &&& error->InvalidServiceName_channel@ == channel
        &&& error->InvalidServiceName_reason@ == crate::iox2::service_name_reason(
            crate::iox2_names::service_name_error(name)->0,
        )
    } else {
        &&& error is Iox2ServiceOpen
        &&& error->Iox2ServiceOpen_channel@ == channel
        &&& error->Iox2ServiceOpen_source@
            == "endpoint scan recorded no publish-subscribe settings for this channel"@
    }
}

fn plan_data_service(ctx: &Iox2Context, channel: &String, port_capacity: usize) -> (r: Result<
    DataServicePlan,
    TaskGraphBuildError,
>)
    requires
        ctx.wf(),
    ensures
        r is Ok <==> opens(*ctx, channel@),
        r matches Ok(plan) ==> {
            &&& plan.service_name@ == crate::iox2::full_name(ctx.namespace, channel@)
            &&& ctx.pubsub_settings.at(channel@) == Some(plan.settings)
            &&& plan.port_capacity == port_capacity
            &&& plan.notifier is None
        },
        r matches Err(error) ==> open_error(error, *ctx, channel@),
{
    match ctx.service_name(channel.as_str()) {
        Ok(service_name) => match ctx.pubsub_settings(channel.as_str()) {
            Ok(settings) => Ok(
                DataServicePlan { service_name, settings, port_capacity, notifier: None },
            ),
            Err(error) => Err(error),
        },
        Err(error) => Err(error),
    }
}

/// Read-only queue guard for samples retained by an input.
pub struct Iox2SampleGuard<'a, T> {
    pub samples: &'a mut Vec<Message<T>>,
}

impl<'a, T> Iox2SampleGuard<'a, T> {
    /// The newest retained sample.
    pub fn back(&self) -> (r: Option<&Message<T>>)
        ensures
            r is Some <==> old(self.samples)@.len() > 0,
            r matches Some(sample) ==> *sample == old(self.samples)@.last(),
    {
        if self.samples.len() > 0 {
            Some(&self.samples[self.samples.len() - 1])
        } else {
            None
        }
    }

    /// The oldest retained sample.
    pub fn front(&self) -> (r: Option<&Message<T>>)
        ensures
            r is Some <==> old(self.samples)@.len() > 0,
            r matches Some(sample) ==> *sample == old(self.samples)@[0],
    {
        if self.samples.len() > 0 {
            Some(&self.samples[0])
        } else {
            None
        }
    }

    /// Remove the oldest retained sample.
    pub fn pop_front(&mut self)
        ensures
            final(self).samples@ == if old(self).samples@.len() > 0 {
                old(self).samples@.skip(1)
            } else {
                old(self).samples@
            },
    {
        if self.samples.len() > 0 {
            let ghost before = self.samples@;
            let _ = self.samples.remove(0);
            assert(self.samples@ =~= before.skip(1));
        }
    }

    /// Number of retained samples.
    pub fn len(&self) -> (r: usize)
        ensures
            r == old(self.samples)@.len(),
    {
        self.samples.len()
    }

    /// Whether no samples are retained.
    pub fn is_empty(&self) -> (r: bool)
        ensures
            r == (old(self.samples)@.len() == 0),
    {
        self.samples.len() == 0
    }
}

/// Optional, non-triggering view of an input. With capacity greater than one,
/// `value()` selects the newest sample; use `clear()` to consume the oldest.
pub struct Iox2OptionalInput<'a, T> {
    pub guard: Iox2SampleGuard<'a, T>,
}

impl<'a, T> Iox2OptionalInput<'a, T> {
    /// Borrow a subscriber as an input view.
    pub fn new(subscriber: &'a mut Iox2Subscriber<T>) -> (r: Self)
        ensures
            r.guard.samples@ == old(subscriber).read@,
            *final(subscriber) == (Iox2Subscriber {
                read: *final(r.guard.samples),
                ..*old(subscriber)
            }),
    {
        Iox2OptionalInput { guard: Iox2SampleGuard { samples: &mut subscriber.read } }
    }

    /// The newest payload, if any.
    pub fn value(&self) -> (r: Option<&T>)
        ensures
            r is Some <==> old(self.guard.samples)@.len() > 0,
            r matches Some(value) ==> *value == old(self.guard.samples)@.last().message,
    {
        match self.guard.back() {
            Some(sample) => Some(&sample.message),
            None => None,
        }
    }

    /// The newest message header, if any.
    pub fn header(&self) -> (r: Option<MessageHeader>)
        ensures
            r is Some <==> old(self.guard.samples)@.len() > 0,
            r matches Some(header) ==> header == old(self.guard.samples)@.last().header,
    {
        match self.guard.back() {
            Some(sample) => Some(sample.header),
            None => None,
        }
    }

    /// Remove the oldest retained sample.
    pub fn clear(&mut self)
        ensures
            final(self).guard.samples@ == if old(self).guard.samples@.len() > 0 {
                old(self).guard.samples@.skip(1)
            } else {
                old(self).guard.samples@
            },
    {
        self.guard.pop_front();
    }
}

/// A publisher loan retained until the framework flushes it.
pub struct LoanedIox2Message<T> {
    pub sample: Message<T>,
    pub sent: bool,
}

/// What to do with the ports of an output when it is flushed.
pub enum Iox2SendAction<T> {
    /// Send the sample.
    Send(Message<T>),
    /// Notify the channel's event service.
    Notify,
}

/// What flushing the first `n` loans does, in order: each loan that was sent
/// goes out with the time of the flush, followed by a notification if sends
/// notify. The other loans are dropped.
pub open spec fn send_actions<T>(
    loans: Seq<LoanedIox2Message<T>>,
    timestamp: FrameworkTime,
    notify_on_send: bool,
    n: int,
) -> Seq<Iox2SendAction<T>>
    decreases n,
{
    if n <= 0 {
        Seq::empty()
    } else {
        let rest = send_actions(loans, timestamp, notify_on_send, n - 1);
        if loans[n - 1].sent {
            let sent = rest.push(
                Iox2SendAction::Send(
                    Message {
                        header: MessageHeader { published_at: timestamp },
                        message: loans[n - 1].sample.message,
                    },
                ),
            );
            if notify_on_send {
                sent.push(Iox2SendAction::Notify)
            } else {
                sent
            }
        } else {
            rest
        }
    }
}

/// Data output of the shared-memory transport.
pub struct Iox2Publisher<T> {
    pub config: PublisherConfig,
    pub value_type: u64,
    /// Whether a send also notifies the same-named event service.
    pub notify_on_send: bool,
    /// Event identifier associated with notifications.
    pub event_id: usize,
    pub loans: Vec<LoanedIox2Message<T>>,
}

impl<T> Iox2Publisher<T> {
    pub open spec fn wf(&self) -> bool {
        0 < self.config.capacity && self.loans@.len() <= self.config.capacity
    }

    /// An output declaration.
    pub fn new(config: PublisherConfig, value_type: u64) -> (r: Self)
        requires
            config.capacity > 0,
        ensures
            r.wf(),
            r.config == config,
            r.value_type == value_type,
            r.notify_on_send,
            r.event_id == 0,
            r.loans@.len() == 0,
    {
        Iox2Publisher { config, value_type, notify_on_send: true, event_id: 0, loans: Vec::new() }
    }

    /// Keeps a loan. Returns its place. A port gives no more loans than the
    /// capacity says.
    pub fn loan(&mut self, message: T) -> (index: usize)
        requires
            old(self).wf(),
            old(self).loans@.len() < old(self).config.capacity,
        ensures
            final(self).wf(),
            index == old(self).loans@.len(),
            final(self).loans@.len() == index + 1,
            forall|i: int|
                0 <= i < index ==> #[trigger] final(self).loans@[i] == old(self).loans@[i],
            final(self).loans@[index as int].sample.message == message,
            final(self).loans@[index as int].sample.header.published_at.nanoseconds == i64::MIN,
            !final(self).loans@[index as int].sent,
            *final(self) == (Iox2Publisher { loans: final(self).loans, ..*old(self) }),
    {
        self.loans.push(
            LoanedIox2Message { sample: Message::unpublished(message), sent: false },
        );
        self.loans.len() - 1
    }

    /// Takes all loans and says what to do with them.
    pub fn flush_loaned_values(&mut self, timestamp: FrameworkTime) -> (actions: Vec<
        Iox2SendAction<T>,
    >)
        requires
            old(self).wf(),
        ensures
            final(self).wf(),
            final(self).loans@.len() == 0,
            *final(self) == (Iox2Publisher { loans: final(self).loans, ..*old(self) }),
            actions@ == send_actions(
                old(self).loans@,
                timestamp,
                old(self).notify_on_send,
                old(self).loans@.len() as int,
            ),
    {
        let ghost all = self.loans@;
        let ghost mut k: int = 0;
        let mut actions: Vec<Iox2SendAction<T>> = Vec::new();
        assert(all.skip(0) =~= all);
        while self.loans.len() > 0
            invariant
                self.wf(),
                *self == (Iox2Publisher { loans: self.loans, ..*old(self) }),
                0 <= k <= all.len(),
                self.loans@ == all.skip(k),
                actions@ == send_actions(all, timestamp, self.notify_on_send, k),
            decreases self.loans@.len(),
        {
            let loan = self.loans.remove(0);
            assert(loan == all[k]);
            if loan.sent {
                actions.push(
                    Iox2SendAction::Send(
                        Message {
                            header: MessageHeader::new(timestamp),
                            message: loan.sample.message,
                        },
                    ),
                );
                if self.notify_on_send {
                    actions.push(Iox2SendAction::Notify);
                }
            }
            proof {
                k = k + 1;
                assert(self.loans@ =~= all.skip(k));
            }
        }
        actions
    }

    /// Whether the output can feed the input: their payload types agree. The
    /// transport itself connects them.
    pub fn connect_to_subscriber(&self, subscriber: &Iox2Subscriber<T>) -> (r: Result<
        (),
        ConnectionTypeMismatch,
    >)
        ensures
            r is Ok <==> self.value_type == subscriber.value_type,
    {
        if self.value_type == subscriber.value_type {
            Ok(())
        } else {
            Err(ConnectionTypeMismatch {  })
        }
    }

    /// An input that can be fed by this output.
    pub fn build_matching_subscriber(&self, config: SubscriberConfig) -> (r: Iox2Subscriber<T>)
        requires
            config.capacity > 0,
        ensures
            r.wf(),
            r.value_type == self.value_type,
            r.config == (SubscriberConfig { is_optional: true, is_trigger: false, ..config }),
    {
        Iox2Subscriber::new(config, self.value_type)
    }

    /// The endpoint that this output is.
    pub fn endpoint(&self) -> (r: Iox2EndpointInfo)
        ensures
            r.channel@ == self.config.channel_name@,
            r.kind == (EndpointKind::Iox2DataPub {
                capacity: self.config.capacity,
                notify_on_send: self.notify_on_send,
                event_id: self.event_id,
            }),
            r.payload_type == Some(self.value_type),
    {
        Iox2EndpointInfo {
            channel: self.config.channel_name.clone(),
            kind: EndpointKind::Iox2DataPub {
                capacity: self.config.capacity,
                notify_on_send: self.notify_on_send,
                event_id: self.event_id,
            },
            payload_type: Some(self.value_type),
        }
    }

    /// How to open this output, and its notifier if sends notify.
    pub fn iox2_open(&self, ctx: &Iox2Context) -> (r: Result<DataServicePlan, TaskGraphBuildError>)
        requires
            ctx.wf(),
        ensures
            r is Ok <==> opens(*ctx, self.config.channel_name@),
            r matches Ok(plan) ==> {
                &&& plan.service_name@ == crate::iox2::full_name(
                    ctx.namespace,
                    self.config.channel_name@,
                )
                &&& ctx.pubsub_settings.at(self.config.channel_name@) == Some(plan.settings)
                &&& plan.port_capacity == self.config.capacity
                &&& plan.notifier is Some <==> self.notify_on_send
            },
            r matches Ok(plan) ==> self.notify_on_send ==> {
                &&& plan.notifier->0.service_name@ == plan.service_name@
                &&& plan.notifier->0.settings == ctx.event_settings.at(self.config.channel_name@)
                &&& plan.notifier->0.event_id == self.event_id
            },
            r matches Err(error) ==> open_error(error, *ctx, self.config.channel_name@),
    {
        match plan_data_service(ctx, &self.config.channel_name, self.config.capacity) {
            Ok(plan) => {
                let mut plan = plan;
                if self.notify_on_send {
                    match ctx.event_service(self.config.channel_name.as_str()) {
                        Ok(service) => {
                            plan.notifier = Some(
                                NotifierPlan {
                                    service_name: service.0,
                                    settings: service.1,
                                    event_id: self.event_id,
                                },
                            );
                        },
                        Err(error) => {
                            return Err(error);
                        },
                    }
                }
                Ok(plan)
            },
            Err(error) => Err(error),
        }
    }
}

/// Mutable output view over a single loan.
pub struct Iox2Output<'a, T> {
    pub publisher: &'a mut Iox2Publisher<T>,
    pub index: usize,
}

impl<'a, T: Default> Iox2Output<'a, T> {
    /// Acquire and initialize a default payload loan.
    pub fn new_default(publisher: &'a mut Iox2Publisher<T>) -> (r: Self)
        requires
            old(publisher).wf(),
            old(publisher).loans@.len() < old(publisher).config.capacity,
            call_requires(T::default, ()),
        ensures
            r.index == old(publisher).loans@.len(),
            r.publisher.wf(),
            r.publisher.loans@.len() == r.index + 1,
            call_ensures(T::default, (), r.publisher.loans@[r.index as int].sample.message),
            !r.publisher.loans@[r.index as int].sent,
            *r.publisher == (Iox2Publisher { loans: r.publisher.loans, ..*old(publisher) }),
            *final(publisher) == *final(r.publisher),
    {
        let index: usize = publisher.loan(T::default());
        Iox2Output { publisher, index }
    }
}

impl<'a, T> Iox2Output<'a, T> {
    pub fn value_mut(&mut self) -> (r: &mut T)
        requires
            old(self).index < old(self).publisher.loans@.len(),
        ensures
            *r == old(self).publisher.loans@[old(self).index as int].sample.message,
            final(self).index == old(self).index,
            final(self).publisher.loans@.len() == old(self).publisher.loans@.len(),
            final(self).publisher.loans@[old(self).index as int] == (LoanedIox2Message {
                sample: Message {
                    message: *final(r),
                    ..old(self).publisher.loans@[old(self).index as int].sample
                },
                ..old(self).publisher.loans@[old(self).index as int]
            }),
            forall|i: int|
                0 <= i < old(self).publisher.loans@.len() && i != old(self).index ==> #[trigger] final(self).publisher.loans@[i] == old(self).publisher.loans@[i],
            *final(self).publisher == (Iox2Publisher { loans: final(self).publisher.loans, ..*old(self).publisher }),
    {
        &mut self.publisher.loans[self.index].sample.message
    }

    /// Mark this loan for publication at the next flush.
    pub fn send(self)
        requires
            self.index < old(self.publisher).loans@.len(),
        ensures
            final(self.publisher).loans@.len() == old(self.publisher).loans@.len(),
            final(self.publisher).loans@[self.index as int].sent,
            final(self.publisher).loans@[self.index as int].sample == old(self.publisher).loans@[self.index as int].sample,
            forall|i: int|
                0 <= i < old(self.publisher).loans@.len() && i != self.index ==> #[trigger] final(self.publisher).loans@[i] == old(self.publisher).loans@[i],
            *final(self.publisher) == (Iox2Publisher { loans: final(self.publisher).loans, ..*old(self.publisher) }),
    {
        self.publisher.loans[self.index].sent = true;
    }
}

/// What comes out of an output in one flush is what goes into an input: the
/// input retains the newest of its earlier samples and those that were sent,
/// in order.
pub proof fn law_samples_arrive_in_order<T>(
    read: Seq<Message<T>>,
    samples: Seq<Message<T>>,
    capacity: nat,
)
    requires
        0 < capacity,
        read.len() <= capacity,
    ensures
        received_all(read, samples, capacity) == newest_of(read + samples, capacity),
    decreases samples.len(),
{
    if samples.len() == 0 {
        assert(read + samples =~= read);
    } else {
        law_samples_arrive_in_order(read, samples.drop_last(), capacity);
        let before = read + samples.drop_last();
        assert(read + samples =~= before.push(samples.last()));
        assert(newest_of(newest_of(before, capacity).push(samples.last()), capacity) =~= newest_of(
            before.push(samples.last()),
            capacity,
        ));
    }
}

/// What an input retains after it received the samples one by one.
pub open spec fn received_all<T>(
    read: Seq<Message<T>>,
    samples: Seq<Message<T>>,
    capacity: nat,
) -> Seq<Message<T>>
    decreases samples.len(),
{
    if samples.len() == 0 {
        read
    } else {
        newest_of(received_all(read, samples.drop_last(), capacity).push(samples.last()), capacity)
    }
}

} // verus!
