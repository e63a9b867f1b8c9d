//! Fixtures for the shared-memory inputs and outputs of nodes under test.
use vstd::prelude::*;

use crate::callback::CallbackNode;
use crate::iox2_data::Iox2Subscriber;
use crate::iox2_event::{EventRecord, Iox2EventSubscriber};
use crate::message::{Message, MessageHeader};
use crate::pub_sub_factory::{EndpointKind, Iox2EndpointInfo};
use crate::time::FrameworkTime;
use crate::unit_test_builder::UnitTestExecutorBuilder;

verus! {

/// How many samples a capture keeps, unless a test says otherwise.
pub const DEFAULT_CAPTURE_CAPACITY: usize = 8;

/// Why a fixture cannot be attached.
#[derive(Debug)]
pub enum Iox2FixtureError {
    NativeSubscriber { channel: String },
    NoDataSubscriber { channel: String },
    PublisherMismatch { channel: String },
    NoEventSubscriber { channel: String },
    NoPublisher { channel: String },
    SubscriberMismatch { channel: String },
}

impl Iox2FixtureError {
    /// The error as a message.
    pub open spec fn text(self) -> Seq<char> {
        match self {
            Iox2FixtureError::NativeSubscriber { channel } => "Channel '"@ + channel@
                + "' has a native subscriber; iox2 and native transports cannot be mixed"@,
            Iox2FixtureError::NoDataSubscriber { channel } =>
            "No iox2 data subscriber for channel '"@ + channel@ + "'"@,
            Iox2FixtureError::PublisherMismatch { channel } =>
            "Type mismatch connecting iox2 test publisher to channel '"@ + channel@ + "'"@,
            Iox2FixtureError::NoEventSubscriber { channel } =>
            "No iox2 event subscriber for channel '"@ + channel@ + "'"@,
            Iox2FixtureError::NoPublisher { channel } =>
            "No publisher for iox2 capture channel '"@ + channel@ + "'"@,
            Iox2FixtureError::SubscriberMismatch { channel } =>
            "Type mismatch connecting iox2 test subscriber to channel '"@ + channel@ + "'"@,
        }
    }

    pub fn to_string(&self) -> (r: String)
        ensures
            r@ == self.text(),
    {
        match self {
            Iox2FixtureError::NativeSubscriber { channel } => around(
                "Channel '",
                channel,
                "' has a native subscriber; iox2 and native transports cannot be mixed",
            ),
            Iox2FixtureError::NoDataSubscriber { channel } => around(
                "No iox2 data subscriber for channel '",
                channel,
                "'",
            ),
            Iox2FixtureError::PublisherMismatch { channel } => around(
                "Type mismatch connecting iox2 test publisher to channel '",
                channel,
                "'",
            ),
            Iox2FixtureError::NoEventSubscriber { channel } => around(
                "No iox2 event subscriber for channel '",
                channel,
                "'",
            ),
            Iox2FixtureError::NoPublisher { channel } => around(
                "No publisher for iox2 capture channel '",
                channel,
                "'",
            ),
            Iox2FixtureError::SubscriberMismatch { channel } => around(
                "Type mismatch connecting iox2 test subscriber to channel '",
                channel,
                "'",
            ),
        }
    }
}

fn around(before: &str, channel: &String, after: &str) -> (r: String)
    ensures
        r@ == before@ + channel@ + after@,
{
    let mut text = before.to_owned();
    text.append(channel.as_str());
    text.append(after);
    text
}

/// Whether endpoint `i` is a data input on `channel` of that payload type.
pub open spec fn is_data_input(
    endpoints: Seq<Iox2EndpointInfo>,
    channel: Seq<char>,
    value_type: u64,
    i: int,
) -> bool {
    &&& 0 <= i < endpoints.len()
    &&& endpoints[i].channel@ == channel
    &&& endpoints[i].kind is Iox2DataSub
    &&& endpoints[i].payload_type == Some(value_type)
}

/// Whether endpoint `i` is a data input on `channel` of another payload type.
pub open spec fn is_other_data_input(
    endpoints: Seq<Iox2EndpointInfo>,
    channel: Seq<char>,
    value_type: u64,
    i: int,
) -> bool {
    &&& 0 <= i < endpoints.len()
    &&& endpoints[i].channel@ == channel
    &&& endpoints[i].kind is Iox2DataSub
    &&& endpoints[i].payload_type != Some(value_type)
}

/// Whether endpoint `i` is an event input on `channel`.
pub open spec fn is_event_input(
    endpoints: Seq<Iox2EndpointInfo>,
    channel: Seq<char>,
    i: int,
) -> bool {
    &&& 0 <= i < endpoints.len()
    &&& endpoints[i].channel@ == channel
    &&& endpoints[i].kind is Iox2EventSub
}

/// Whether endpoint `i` is an output on `channel`.
pub open spec fn is_output(endpoints: Seq<Iox2EndpointInfo>, channel: Seq<char>, i: int) -> bool {
    &&& 0 <= i < endpoints.len()
    &&& endpoints[i].channel@ == channel
    &&& endpoints[i].kind is Iox2DataPub || endpoints[i].kind is Iox2Notifier
}

/// Whether endpoint `i` is an output on `channel` of another payload type.
pub open spec fn is_other_output(
    endpoints: Seq<Iox2EndpointInfo>,
    channel: Seq<char>,
    value_type: u64,
    i: int,
) -> bool {
    is_output(endpoints, channel, i) && endpoints[i].payload_type != Some(value_type)
}

/// Whether there is a data input on a channel of that payload type, and one of
/// another.
fn scan_data_inputs(endpoints: &Vec<Iox2EndpointInfo>, channel: &String, value_type: u64) -> (r: (
    bool,
    bool,
))
    ensures
        r.0 == exists|i: int| #[trigger] is_data_input(endpoints@, channel@, value_type, i),
        r.1 == exists|i: int| #[trigger] is_other_data_input(endpoints@, channel@, value_type, i),
{
    let mut found = false;
    let mut other = false;
    let mut i: usize = 0;
    while i < endpoints.len()
        invariant
            i <= endpoints@.len(),
            found ==> exists|j: int| #[trigger]
                is_data_input(endpoints@, channel@, value_type, j),
            !found ==> forall|j: int|
                j < i ==> !#[trigger] is_data_input(endpoints@, channel@, value_type, j),
            other ==> exists|j: int| #[trigger]
                is_other_data_input(endpoints@, channel@, value_type, j),
            !other ==> forall|j: int|
                j < i ==> !#[trigger] is_other_data_input(endpoints@, channel@, value_type, j),
        decreases endpoints@.len() - i,
    {
        if endpoints[i].channel == *channel {
            match endpoints[i].kind {
                EndpointKind::Iox2DataSub { .. } => {
                    let same = match endpoints[i].payload_type {
                        Some(payload_type) => payload_type == value_type,
                        None => false,
                    };
                    if same {
                        assert(is_data_input(endpoints@, channel@, value_type, i as int));
                        found = true;
                    } else {
                        assert(is_other_data_input(endpoints@, channel@, value_type, i as int));
                        other = true;
                    }
                },
                _ => {},
            }
        }
        i = i + 1;
    }
    (found, other)
}

/// Whether there is an event input on a channel.
fn has_event_input(endpoints: &Vec<Iox2EndpointInfo>, channel: &String) -> (r: bool)
    ensures
        r == exists|i: int| #[trigger] is_event_input(endpoints@, channel@, i),
{
    let mut i: usize = 0;
    while i < endpoints.len()
        invariant
            i <= endpoints@.len(),
            forall|j: int| j < i ==> !#[trigger] is_event_input(endpoints@, channel@, j),
        decreases endpoints@.len() - i,
    {
        if endpoints[i].channel == *channel {
            match endpoints[i].kind {
                EndpointKind::Iox2EventSub => {
                    assert(is_event_input(endpoints@, channel@, i as int));
                    return true;
                },
                _ => {},
            }
        }
        i = i + 1;
    }
    false
}

/// Whether there is an output on a channel, and one of another payload type.
fn scan_outputs(endpoints: &Vec<Iox2EndpointInfo>, channel: &String, value_type: u64) -> (r: (
    bool,
    bool,
))
    ensures
        r.0 == exists|i: int| #[trigger] is_output(endpoints@, channel@, i),
        r.1 == exists|i: int| #[trigger] is_other_output(endpoints@, channel@, value_type, i),
{
    let mut found = false;
    let mut other = false;
    let mut i: usize = 0;
    while i < endpoints.len()
        invariant
            i <= endpoints@.len(),
            found ==> exists|j: int| #[trigger] is_output(endpoints@, channel@, j),
            !found ==> forall|j: int| j < i ==> !#[trigger] is_output(endpoints@, channel@, j),
            other ==> exists|j: int| #[trigger]
                is_other_output(endpoints@, channel@, value_type, j),
            !other ==> forall|j: int|
                j < i ==> !#[trigger] is_other_output(endpoints@, channel@, value_type, j),
        decreases endpoints@.len() - i,
    {
        let output = match endpoints[i].kind {
            EndpointKind::Iox2DataPub { .. } => true,
            EndpointKind::Iox2Notifier { .. } => true,
            _ => false,
        };
        if output && endpoints[i].channel == *channel {
            assert(is_output(endpoints@, channel@, i as int));
            found = true;
            let same = match endpoints[i].payload_type {
                Some(payload_type) => payload_type == value_type,
                None => false,
            };
            if !same {
                assert(is_other_output(endpoints@, channel@, value_type, i as int));
                other = true;
            }
        }
        i = i + 1;
    }
    (found, other)
}

/// Whether an input of some node is on a channel.
fn native_reader<T>(nodes: &Vec<CallbackNode<T>>, channel: &String) -> (r: bool)
    ensures
        r == crate::unit_test_builder::has_reader(nodes@, channel@),
{
    let mut n: usize = 0;
    while n < nodes.len()
        invariant
            n <= nodes@.len(),
            forall|m: int, i: int|
                m < n ==> !#[trigger] crate::unit_test_builder::reads(nodes@, channel@, m, i),
        decreases nodes@.len() - n,
    {
        let mut i: usize = 0;
        while i < nodes[n as usize].subscribers.len()
            invariant
                n < nodes@.len(),
                i <= nodes@[n as int].subscribers@.len(),
                forall|m: int, j: int|
                    m < n || m == n && j < i ==> !#[trigger] crate::unit_test_builder::reads(
                        nodes@,
                        channel@,
                        m,
                        j,
                    ),
            decreases nodes@[n as int].subscribers@.len() - i,
        {
            if nodes[n].subscribers[i].config.channel_name == *channel {
                assert(crate::unit_test_builder::reads(nodes@, channel@, n as int, i as int));
                return true;
            }
            i = i + 1;
        }
        n = n + 1;
    }
    false
}

/// Sends data to a channel's inputs.
#[derive(Debug)]
pub struct Iox2TestPublisher {
    pub channel: String,
    pub value_type: u64,
}

impl Iox2TestPublisher {
    /// Channel receiving these samples.
    pub fn channel(&self) -> (r: &str)
        ensures
            r@ == self.channel@,
    {
        self.channel.as_str()
    }

    /// The sample to publish at `now`. `active` says whether the executor was
    /// built and is still there; without one nothing can be sent.
    pub fn send<T>(&self, active: bool, now: FrameworkTime, value: T) -> (r: Message<T>)
        requires
            active,
        ensures
            r.header.published_at == now,
            r.message == value,
    {
        self.send_with_header(active, MessageHeader::new(now), value)
    }

    /// The sample to publish with a chosen header.
    pub fn send_with_header<T>(&self, active: bool, header: MessageHeader, value: T) -> (r: Message<T>)
        requires
            active,
        ensures
            r.header == header,
            r.message == value,
    {
        Message { header, message: value }
    }
}

/// Stages events for a channel's inputs.
#[derive(Debug)]
pub struct Iox2TestNotifier {
    pub channel: String,
}

impl Iox2TestNotifier {
    /// Channel receiving these event activations.
    pub fn channel(&self) -> (r: &str)
        ensures
            r@ == self.channel@,
    {
        self.channel.as_str()
    }

    /// Stages one counted activation for every event input on the channel.
    /// `active` says whether the executor was built and is still there.
    pub fn notify(
        &self,
        active: bool,
        subscribers: &mut Vec<Iox2EventSubscriber>,
        event_id: usize,
        count: u64,
    )
        requires
            active,
            forall|i: int| 0 <= i < old(subscribers)@.len() ==> (#[trigger] old(subscribers)@[i]).wf(),
        ensures
            final(subscribers)@.len() == old(subscribers)@.len(),
            forall|i: int|
                0 <= i < old(subscribers)@.len() ==> staged_at(
                    old(subscribers)@[i],
                    #[trigger] final(subscribers)@[i],
                    self.channel@,
                    EventRecord { event_id, count },
                ),
    {
        let mut i: usize = 0;
        while i < subscribers.len()
            invariant
                i <= subscribers@.len(),
                subscribers@.len() == old(subscribers)@.len(),
                forall|j: int|
                    0 <= j < old(subscribers)@.len() ==> (#[trigger] old(subscribers)@[j]).wf(),
                forall|j: int|
                    0 <= j < i ==> staged_at(
                        old(subscribers)@[j],
                        #[trigger] subscribers@[j],
                        self.channel@,
                        EventRecord { event_id, count },
                    ),
                forall|j: int|
                    i <= j < subscribers@.len() ==> #[trigger] subscribers@[j] == old(
                        subscribers)@[j],
            decreases subscribers@.len() - i,
        {
            assert(old(subscribers)@[i as int].wf());
            if subscribers[i].config.channel_name == self.channel {
                subscribers[i].stage(EventRecord { event_id, count });
            }
            i = i + 1;
        }
    }
}

/// Whether `after` is the input `before` with `record` staged, if it is on
/// `channel`.
pub open spec fn staged_at(
    before: Iox2EventSubscriber,
    after: Iox2EventSubscriber,
    channel: Seq<char>,
    record: EventRecord,
) -> bool {
    if before.config.channel_name@ == channel {
        &&& after.wf()
        &&& after.staging@ == crate::mpsc_queue::pushed(
            before.staging@,
            before.config.capacity as nat,
            record.item(),
        )
        &&& after.config == before.config
        &&& after.read == before.read
        &&& after.readiness_state == before.readiness_state
    } else {
        after == before
    }
}

/// Captures the samples of a channel.
pub struct Iox2TestSubscriber<T> {
    /// Whether the executor was built and is still there.
    pub active: bool,
    /// Gone once the executor is.
    pub subscriber: Option<Iox2Subscriber<T>>,
}

impl<T: Clone> Iox2TestSubscriber<T> {
    /// Copies of the captured samples, with their headers, oldest first.
    pub fn try_messages(&self) -> (r: Result<Vec<Message<T>>, &'static str>)
        ensures
            r is Ok <==> self.active && self.subscriber is Some,
            !self.active ==> r is Err && r->Err_0@
                == "iox2 capture subscriber is not open until build() completes"@,
            self.active && self.subscriber is None ==> r is Err && r->Err_0@
                == "iox2 capture subscriber is closed"@,
            r matches Ok(messages) ==> {
                &&& messages@.len() == self.subscriber->0.read@.len()
                &&& forall|i: int|
                    0 <= i < messages@.len() ==> crate::unit_test_builder::copies(
                        self.subscriber->0.read@[i],
                        #[trigger] messages@[i],
                    )
            },
    {
        if !self.active {
            return Err("iox2 capture subscriber is not open until build() completes");
        }
        match &self.subscriber {
            Some(subscriber) => {
                let mut messages: Vec<Message<T>> = Vec::new();
                let mut i: usize = 0;
                while i < subscriber.read.len()
                    invariant
                        i <= subscriber.read@.len(),
                        messages@.len() == i,
                        forall|j: int|
                            0 <= j < i ==> crate::unit_test_builder::copies(
                                subscriber.read@[j],
                                #[trigger] messages@[j],
                            ),
                    decreases subscriber.read@.len() - i,
                {
                    messages.push(subscriber.read[i].clone());
                    i = i + 1;
                }
                Ok(messages)
            },
            None => Err("iox2 capture subscriber is closed"),
        }
    }
}

impl<T> UnitTestExecutorBuilder<T> {
    /// Attaches a sender for a channel with shared-memory data inputs.
    pub fn add_iox2_test_publisher(&mut self, channel_name: &str, value_type: u64) -> (r: Result<
        Iox2TestPublisher,
        Iox2FixtureError,
    >)
        ensures
            final(self).nodes == old(self).nodes,
            final(self).fixtures == old(self).fixtures,
            final(self).iox2_endpoints == old(self).iox2_endpoints,
            r is Ok <==> !crate::unit_test_builder::has_reader(old(self).nodes@, channel_name@)
                && exists|i: int| #[trigger]
                is_data_input(old(self).iox2_endpoints@, channel_name@, value_type, i),
            r is Err ==> final(self).iox2_fixtures == old(self).iox2_fixtures,
            r is Err && crate::unit_test_builder::has_reader(old(self).nodes@, channel_name@)
                ==> r->Err_0 is NativeSubscriber && r->Err_0->NativeSubscriber_channel@
                == channel_name@,
            r is Err && !crate::unit_test_builder::has_reader(old(self).nodes@, channel_name@)
                ==> if exists|i: int| #[trigger]
                is_other_data_input(old(self).iox2_endpoints@, channel_name@, value_type, i) {
                r->Err_0 is PublisherMismatch && r->Err_0->PublisherMismatch_channel@
                    == channel_name@
            } else {
                r->Err_0 is NoDataSubscriber && r->Err_0->NoDataSubscriber_channel@
                    == channel_name@
            },
            r matches Ok(publisher) ==> {
                &&& publisher.channel@ == channel_name@
                &&& publisher.value_type == value_type
                &&& final(self).iox2_fixtures@.len() == old(self).iox2_fixtures@.len() + 1
                &&& final(self).iox2_fixtures@.drop_last() == old(self).iox2_fixtures@
                &&& final(self).iox2_fixtures@.last().channel@ == channel_name@
                &&& final(self).iox2_fixtures@.last().kind == (EndpointKind::Iox2DataPub {
                    capacity: 1,
                    notify_on_send: false,
                    event_id: 0,
                })
                &&& final(self).iox2_fixtures@.last().payload_type == Some(value_type)
            },
    {
        let channel = channel_name.to_owned();
        let (found, other) = scan_data_inputs(&self.iox2_endpoints, &channel, value_type);
        if native_reader(&self.nodes, &channel) {
            return Err(Iox2FixtureError::NativeSubscriber { channel });
        }
        if !found {
            if other {
                return Err(Iox2FixtureError::PublisherMismatch { channel });
            }
            return Err(Iox2FixtureError::NoDataSubscriber { channel });
        }
        self.iox2_fixtures.push(
            Iox2EndpointInfo {
                channel: channel.clone(),
                kind: EndpointKind::Iox2DataPub { capacity: 1, notify_on_send: false, event_id: 0 },
                payload_type: Some(value_type),
            },
        );
        assert(self.iox2_fixtures@.drop_last() =~= old(self).iox2_fixtures@);
        Ok(Iox2TestPublisher { channel, value_type })
    }

    /// Attaches an injector for a channel with event inputs.
    pub fn add_iox2_test_notifier(&mut self, channel_name: &str) -> (r: Result<
        Iox2TestNotifier,
        Iox2FixtureError,
    >)
        ensures
            *final(self) == *old(self),
            r is Ok <==> !crate::unit_test_builder::has_reader(old(self).nodes@, channel_name@)
                && exists|i: int| #[trigger]
                is_event_input(old(self).iox2_endpoints@, channel_name@, i),
            r is Err && crate::unit_test_builder::has_reader(old(self).nodes@, channel_name@)
                ==> r->Err_0 is NativeSubscriber && r->Err_0->NativeSubscriber_channel@
                == channel_name@,
            r is Err && !crate::unit_test_builder::has_reader(old(self).nodes@, channel_name@)
                ==> r->Err_0 is NoEventSubscriber && r->Err_0->NoEventSubscriber_channel@
                == channel_name@,
            r matches Ok(notifier) ==> notifier.channel@ == channel_name@,
    {
        let channel = channel_name.to_owned();
        if native_reader(&self.nodes, &channel) {
            return Err(Iox2FixtureError::NativeSubscriber { channel });
        }
        if !has_event_input(&self.iox2_endpoints, &channel) {
            return Err(Iox2FixtureError::NoEventSubscriber { channel });
        }
        Ok(Iox2TestNotifier { channel })
    }

    /// Attaches a capture for a channel's samples, with the default depth.
    pub fn add_iox2_test_subscriber(&mut self, channel_name: &str, value_type: u64) -> (r: Result<
        (),
        Iox2FixtureError,
    >)
        ensures
            old(self).captures_samples(
                *final(self),
                channel_name@,
                value_type,
                DEFAULT_CAPTURE_CAPACITY,
                r,
            ),
    {
        self.add_iox2_test_subscriber_with_capacity(
            channel_name,
            value_type,
            DEFAULT_CAPTURE_CAPACITY,
        )
    }

    /// Whether some output, native or not, is on the channel.
    pub open spec fn publishes_on(&self, channel: Seq<char>) -> bool {
        ||| crate::unit_test_builder::has_writer(self.nodes@, channel)
        ||| exists|i: int| #[trigger] is_output(self.iox2_endpoints@, channel, i)
    }

    /// Whether some output on the channel sends another type.
    pub open spec fn publishes_other(&self, channel: Seq<char>, value_type: u64) -> bool {
        ||| exists|n: int, i: int| #[trigger]
            crate::unit_test_builder::writes_other(self.nodes@, channel, value_type, n, i)
        ||| exists|i: int| #[trigger]
            is_other_output(self.iox2_endpoints@, channel, value_type, i)
    }

    /// What attaching a capture does, and when it fails.
    pub open spec fn captures_samples(
        &self,
        after: UnitTestExecutorBuilder<T>,
        channel: Seq<char>,
        value_type: u64,
        capacity: usize,
        r: Result<(), Iox2FixtureError>,
    ) -> bool {
        &&& after.nodes == self.nodes
        &&& after.fixtures == self.fixtures
        &&& after.iox2_endpoints == self.iox2_endpoints
        &&& r is Ok <==> self.publishes_on(channel) && !self.publishes_other(channel, value_type)
        &&& r is Err ==> after.iox2_fixtures == self.iox2_fixtures
        &&& r is Err ==> if self.publishes_on(channel) {
            r->Err_0 is SubscriberMismatch && r->Err_0->SubscriberMismatch_channel@ == channel
        } else {
            r->Err_0 is NoPublisher && r->Err_0->NoPublisher_channel@ == channel
        }
        &&& r is Ok ==> {
            &&& after.iox2_fixtures@.len() == self.iox2_fixtures@.len() + 1
            &&& after.iox2_fixtures@.drop_last() == self.iox2_fixtures@
            &&& after.iox2_fixtures@.last().channel@ == channel
            &&& after.iox2_fixtures@.last().kind == (EndpointKind::Iox2DataSub { capacity })
            &&& after.iox2_fixtures@.last().payload_type == Some(value_type)
        }
    }

    /// Attaches a capture for a channel's samples, with a chosen depth.
    pub fn add_iox2_test_subscriber_with_capacity(
        &mut self,
        channel_name: &str,
        value_type: u64,
        capacity: usize,
    ) -> (r: Result<(), Iox2FixtureError>)
        requires
            capacity > 0,
        ensures
            old(self).captures_samples(*final(self), channel_name@, value_type, capacity, r),
    {
        let channel = channel_name.to_owned();
        let (native, native_other) = crate::unit_test_builder::scan_writers(
            &self.nodes,
            &channel,
            value_type,
        );
        let (found, other) = scan_outputs(&self.iox2_endpoints, &channel, value_type);
        if !native && !found {
            return Err(Iox2FixtureError::NoPublisher { channel });
        }
        if native_other.is_some() || other {
            return Err(Iox2FixtureError::SubscriberMismatch { channel });
        }
        self.iox2_fixtures.push(
            Iox2EndpointInfo {
                channel,
                kind: EndpointKind::Iox2DataSub { capacity },
                payload_type: Some(value_type),
            },
        );
        assert(self.iox2_fixtures@.drop_last() =~= old(self).iox2_fixtures@);
        Ok(())
    }
}

} // verus!
