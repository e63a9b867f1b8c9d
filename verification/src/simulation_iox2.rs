//! Synthetic inputs of a simulation: data and events that arrive over shared
//! memory at given simulation times.
use vstd::prelude::*;

use crate::channel_map::ChannelMap;
use crate::generic_subscriber::GenericSubscriber;
use crate::iox2_event::{EventRecord, Iox2EventSubscriber};
use crate::message::MessageHeader;
use crate::pub_sub_factory::{EndpointKind, Iox2EndpointInfo};
use crate::schedule::Schedule;
use crate::simulation::{SimulationState, StepError};
use crate::time::FrameworkTime;

verus! {

/// Error while adding a synthetic input to a simulation.
#[derive(Debug)]
pub enum Iox2InputError {
    /// The graph has no data subscriber for the requested channel.
    UnknownDataChannel(String),
    /// The requested data channel carries a different payload type.
    PayloadTypeMismatch(String),
    /// The graph has no event subscriber for the requested channel.
    UnknownEventChannel(String),
}

impl Iox2InputError {
    /// The error as a message.
    pub fn to_string(&self) -> (r: String)
        ensures
            r@ == match *self {
                Iox2InputError::UnknownDataChannel(channel) =>
                "no iox2 data input is registered for channel "@ + channel@,
                Iox2InputError::PayloadTypeMismatch(channel) =>
                "iox2 data payload type does not match channel "@ + channel@,
                Iox2InputError::UnknownEventChannel(channel) =>
                "no iox2 event input is registered for channel "@ + channel@,
            },
    {
        match self {
            Iox2InputError::UnknownDataChannel(channel) => {
                let mut text = "no iox2 data input is registered for channel ".to_owned();
                text.append(channel.as_str());
                text
            },
            Iox2InputError::PayloadTypeMismatch(channel) => {
                let mut text = "iox2 data payload type does not match channel ".to_owned();
                text.append(channel.as_str());
                text
            },
            Iox2InputError::UnknownEventChannel(channel) => {
                let mut text = "no iox2 event input is registered for channel ".to_owned();
                text.append(channel.as_str());
                text
            },
        }
    }
}

/// What arrives.
pub enum ScheduledIox2InputKind<T> {
    Data { channel: String, payload: T },
    Event { channel: String, event_id: usize, count: u64 },
}

/// An input that waits for its time.
pub struct ScheduledIox2Input<T> {
    pub at: FrameworkTime,
    pub sequence: u64,
    pub kind: ScheduledIox2InputKind<T>,
}

impl<T> ScheduledIox2Input<T> {
    /// Whether this input comes before `other` or together with it: by time,
    /// then by when it was scheduled.
    pub open spec fn not_after(self, other: Self) -> bool {
        self.at.nanoseconds < other.at.nanoseconds || self.at.nanoseconds == other.at.nanoseconds
            && self.sequence <= other.sequence
    }
}

/// How many of the inputs come no later than `at`.
pub open spec fn due_count<T>(inputs: Seq<ScheduledIox2Input<T>>, at: FrameworkTime) -> nat
    decreases inputs.len(),
{
    if inputs.len() == 0 {
        0
    } else {
        due_count(inputs.drop_last(), at) + if inputs.last().at.nanoseconds <= at.nanoseconds {
            1nat
        } else {
            0nat
        }
    }
}

/// What has to be done with the next due input.
pub enum Dispatch<T> {
    /// No input is due.
    Idle,
    /// An event was staged for its listeners.
    Staged,
    /// A payload has to be published on its channel.
    Publish { channel: String, header: MessageHeader, payload: T },
}

/// The synthetic inputs of a simulation.
pub struct Iox2SimulationState<T> {
    /// The event inputs of the graph.
    pub event_listeners: Vec<Iox2EventSubscriber>,
    /// The payload type of each channel with a data input.
    pub input_publishers: ChannelMap<u64>,
    /// The inputs that wait, in the order in which they arrive.
    pub scheduled_inputs: Vec<ScheduledIox2Input<T>>,
    pub next_input_sequence: u64,
}

/// Whether some event input listens to `channel`.
pub open spec fn listens(listeners: Seq<Iox2EventSubscriber>, channel: Seq<char>) -> bool {
    exists|i: int|
        0 <= i < listeners.len() && (#[trigger] listeners[i]).config.channel_name@ == channel
}

/// Whether `after` is `before` with one record staged for each listener of
/// `channel`.
pub open spec fn staged_for(
    before: Seq<Iox2EventSubscriber>,
    after: Seq<Iox2EventSubscriber>,
    channel: Seq<char>,
    record: EventRecord,
) -> bool {
    &&& after.len() == before.len()
    &&& forall|i: int|
        0 <= i < before.len() ==> {
            &&& (#[trigger] after[i]).config == before[i].config
            &&& after[i].read == before[i].read
            &&& after[i].readiness_state == before[i].readiness_state
            &&& after[i].staging@ == if before[i].config.channel_name@ == channel {
                crate::mpsc_queue::pushed(
                    before[i].staging@,
                    before[i].config.capacity as nat,
                    record.item(),
                )
            } else {
                before[i].staging@
            }
        }
}

impl<T> Iox2SimulationState<T> {
    /// The inputs wait in order, and each has its listeners or its publisher.
    pub open spec fn wf(&self) -> bool {
        &&& self.input_publishers.wf()
        &&& forall|i: int| 0 <= i < self.event_listeners@.len() ==> (#[trigger]
        self.event_listeners@[i]).wf()
        &&& forall|i: int, j: int|
            0 <= i <= j < self.scheduled_inputs@.len() ==> (#[trigger]
            self.scheduled_inputs@[i]).not_after(#[trigger] self.scheduled_inputs@[j])
        &&& forall|i: int|
            0 <= i < self.scheduled_inputs@.len() ==> (#[trigger]
            self.scheduled_inputs@[i]).sequence <= self.next_input_sequence && self.registered(
                self.scheduled_inputs@[i].kind,
            )
    }

    /// Whether the graph has an input for this.
    pub open spec fn registered(&self, kind: ScheduledIox2InputKind<T>) -> bool {
        match kind {
            ScheduledIox2InputKind::Data { channel, payload } => self.input_publishers.has(
                channel@,
            ),
            ScheduledIox2InputKind::Event { channel, event_id, count } => listens(
                self.event_listeners@,
                channel@,
            ),
        }
    }

    pub fn new(event_listeners: Vec<Iox2EventSubscriber>, input_publishers: ChannelMap<u64>) -> (r:
        Self)
        requires
            input_publishers.wf(),
            forall|i: int| 0 <= i < event_listeners@.len() ==> (#[trigger] event_listeners@[i]).wf(),
        ensures
            r.wf(),
            r.event_listeners == event_listeners,
            r.input_publishers == input_publishers,
            r.scheduled_inputs@.len() == 0,
            r.next_input_sequence == 0,
    {
        Iox2SimulationState {
            event_listeners,
            input_publishers,
            scheduled_inputs: Vec::new(),
            next_input_sequence: 0,
        }
    }

    /// Takes the next input that is due at `now`, if there is one. An event is
    /// staged for every listener of its channel; a payload has to be published
    /// by the caller, with the time for which it was scheduled.
    pub fn dispatch_next(&mut self, now: FrameworkTime) -> (r: Dispatch<T>)
        requires
            old(self).wf(),
        ensures
            final(self).wf(),
            final(self).input_publishers == old(self).input_publishers,
            final(self).next_input_sequence == old(self).next_input_sequence,
            r is Idle <==> due_count(old(self).scheduled_inputs@, now) == 0,
            r is Idle ==> *final(self) == *old(self),
            !(r is Idle) ==> {
                let input = old(self).scheduled_inputs@[0];
                &&& final(self).scheduled_inputs@ == old(self).scheduled_inputs@.skip(1)
                &&& input.at.nanoseconds <= now.nanoseconds
                &&& match input.kind {
                    ScheduledIox2InputKind::Data { channel, payload } => r == (Dispatch::Publish {
                        channel,
                        header: MessageHeader { published_at: input.at },
                        payload,
                    }) && final(self).event_listeners == old(self).event_listeners
                        && old(self).input_publishers.has(channel@),
                    ScheduledIox2InputKind::Event { channel, event_id, count } => r is Staged
                        && staged_for(
                        old(self).event_listeners@,
                        final(self).event_listeners@,
                        channel@,
                        EventRecord { event_id, count },
                    ),
                }
            },
    {
        let ghost all = self.scheduled_inputs@;
        proof {
            lemma_first_is_due(all, now);
        }
        if self.scheduled_inputs.len() == 0 || self.scheduled_inputs[0].at.nanoseconds
            > now.nanoseconds {
            return Dispatch::Idle;
        }
        let input = self.scheduled_inputs.remove(0);
        proof {
            assert(self.scheduled_inputs@ =~= all.skip(1));
            assert(input == all[0]);
            assert(old(self).registered(all[0].kind));
        }
        match input.kind {
            ScheduledIox2InputKind::Data { channel, payload } => {
                proof {
                    self.lemma_rest_wf(*old(self));
                }
                Dispatch::Publish { channel, header: MessageHeader::new(input.at), payload }
            },
            ScheduledIox2InputKind::Event { channel, event_id, count } => {
                self.stage_event(&channel, EventRecord { event_id, count });
                proof {
                    self.lemma_rest_wf(*old(self));
                }
                Dispatch::Staged
            },
        }
    }

    proof fn lemma_rest_wf(&self, before: Self)
        requires
            before.wf(),
            before.scheduled_inputs@.len() > 0,
            self.scheduled_inputs@ == before.scheduled_inputs@.skip(1),
            self.input_publishers == before.input_publishers,
            self.next_input_sequence == before.next_input_sequence,
            self.event_listeners@.len() == before.event_listeners@.len(),
            forall|i: int|
                0 <= i < self.event_listeners@.len() ==> (#[trigger]
                self.event_listeners@[i]).wf() && self.event_listeners@[i].config
                    == before.event_listeners@[i].config,
        ensures
            self.wf(),
    {
        assert forall|i: int| 0 <= i < self.scheduled_inputs@.len() implies (#[trigger]
        self.scheduled_inputs@[i]).sequence <= self.next_input_sequence && self.registered(
            self.scheduled_inputs@[i].kind,
        ) by {
            assert(self.scheduled_inputs@[i] == before.scheduled_inputs@[i + 1]);
            let kind = before.scheduled_inputs@[i + 1].kind;
            assert(before.registered(kind));
            if let ScheduledIox2InputKind::Event { channel, event_id, count } = kind {
                let j = choose|j: int|
                    0 <= j < before.event_listeners@.len() && (#[trigger]
                    before.event_listeners@[j]).config.channel_name@ == channel@;
                assert(self.event_listeners@[j].config == before.event_listeners@[j].config);
            }
        }
        assert forall|i: int, j: int| 0 <= i <= j < self.scheduled_inputs@.len() implies (#[trigger]
        self.scheduled_inputs@[i]).not_after(#[trigger] self.scheduled_inputs@[j]) by {
            assert(self.scheduled_inputs@[i] == before.scheduled_inputs@[i + 1]);
            assert(self.scheduled_inputs@[j] == before.scheduled_inputs@[j + 1]);
        }
    }

    /// Stages a record for every listener of a channel.
    fn stage_event(&mut self, channel: &String, record: EventRecord)
        requires
            forall|i: int| 0 <= i < old(self).event_listeners@.len() ==> (#[trigger] old(
                self).event_listeners@[i]).wf(),
        ensures
            *final(self) == (Iox2SimulationState {
                event_listeners: final(self).event_listeners,
                ..*old(self)
            }),
            forall|i: int| 0 <= i < final(self).event_listeners@.len() ==> (#[trigger] final(
                self).event_listeners@[i]).wf(),
            staged_for(
                old(self).event_listeners@,
                final(self).event_listeners@,
                channel@,
                record,
            ),
    {
        let ghost before = self.event_listeners@;
        let mut i: usize = 0;
        while i < self.event_listeners.len()
            invariant
                i <= self.event_listeners@.len(),
                before == old(self).event_listeners@,
                self.event_listeners@.len() == before.len(),
                *self == (Iox2SimulationState {
                    event_listeners: self.event_listeners,
                    ..*old(self)
                }),
                forall|j: int| 0 <= j < self.event_listeners@.len() ==> (#[trigger]
                self.event_listeners@[j]).wf(),
                staged_for(before.take(i as int), self.event_listeners@.take(i as int), channel@, record),
                forall|j: int|
                    i <= j < before.len() ==> #[trigger] self.event_listeners@[j] == before[j],
            decreases before.len() - i,
        {
            let ghost prev = self.event_listeners@;
            assert(self.event_listeners@[i as int] == before[i as int]);
            if self.event_listeners[i].config.channel_name == *channel {
                self.event_listeners[i].stage(record);
            }
            proof {
                let b = before.take(i + 1);
                let a = self.event_listeners@.take(i + 1);
                assert forall|j: int| 0 <= j < b.len() implies {
                    &&& (#[trigger] a[j]).config == b[j].config
                    &&& a[j].read == b[j].read
                    &&& a[j].readiness_state == b[j].readiness_state
                    &&& a[j].staging@ == if b[j].config.channel_name@ == channel@ {
                        crate::mpsc_queue::pushed(
                            b[j].staging@,
                            b[j].config.capacity as nat,
                            record.item(),
                        )
                    } else {
                        b[j].staging@
                    }
                } by {
                    if j < i {
                        assert(a[j] == prev.take(i as int)[j]);
                        assert(b[j] == before.take(i as int)[j]);
                    }
                }
            }
            i = i + 1;
        }
        assert(before.take(i as int) =~= before);
        assert(self.event_listeners@.take(i as int) =~= self.event_listeners@);
    }

    /// Takes every input that is due at `now`, in order. Returns the payloads
    /// to publish.
    pub fn dispatch_due_inputs(&mut self, now: FrameworkTime) -> (publishes: Vec<
        (String, MessageHeader, T),
    >)
        requires
            old(self).wf(),
        ensures
            final(self).wf(),
            final(self).input_publishers == old(self).input_publishers,
            final(self).scheduled_inputs@ == old(self).scheduled_inputs@.skip(
                due_count(old(self).scheduled_inputs@, now) as int,
            ),
            final(self).next_input_sequence == old(self).next_input_sequence,
            publishes@ == payloads(
                old(self).scheduled_inputs@,
                due_count(old(self).scheduled_inputs@, now) as int,
            ),
            all_staged(
                old(self).event_listeners@,
                final(self).event_listeners@,
                old(self).scheduled_inputs@,
                due_count(old(self).scheduled_inputs@, now) as int,
            ),
    {
        let ghost all = self.scheduled_inputs@;
        let ghost total = due_count(all, now) as int;
        let ghost mut k: int = 0;
        let mut publishes: Vec<(String, MessageHeader, T)> = Vec::new();
        let mut idle = false;
        proof {
            lemma_due_bound(all, now);
        }
        assert(all.skip(0) =~= all);
        while !idle
            invariant
                self.wf(),
                0 <= k <= total <= all.len(),
                total == due_count(all, now),
                self.input_publishers == old(self).input_publishers,
                self.next_input_sequence == old(self).next_input_sequence,
                all_staged(old(self).event_listeners@, self.event_listeners@, all, k),
                self.scheduled_inputs@ == all.skip(k),
                due_count(self.scheduled_inputs@, now) == total - k,
                publishes@ == payloads(all, k),
                idle ==> k == total,
            decreases (all.len() - k) + if idle {
                0int
            } else {
                1int
            },
        {
            let ghost rest = self.scheduled_inputs@;
            match self.dispatch_next(now) {
                Dispatch::Idle => {
                    idle = true;
                },
                Dispatch::Staged => {
                    proof {
                        lemma_due_skip(rest, now);
                        assert(all.skip(k).skip(1) =~= all.skip(k + 1));
                        assert(rest[0] == all[k]);
                        k = k + 1;
                    }
                },
                Dispatch::Publish { channel, header, payload } => {
                    proof {
                        lemma_due_skip(rest, now);
                        assert(all.skip(k).skip(1) =~= all.skip(k + 1));
                        assert(rest[0] == all[k]);
                        k = k + 1;
                    }
                    publishes.push((channel, header, payload));
                    assert(publishes@ =~= payloads(all, k));
                },
            }
        }
        publishes
    }

    /// Stages what a listener was notified of since it was asked last, one
    /// record per event id.
    pub fn poll_listener(&mut self, listener: usize, activations: &Vec<EventRecord>)
        requires
            old(self).wf(),
            listener < old(self).event_listeners@.len(),
        ensures
            final(self).wf(),
            final(self).input_publishers == old(self).input_publishers,
            final(self).scheduled_inputs == old(self).scheduled_inputs,
            final(self).next_input_sequence == old(self).next_input_sequence,
            final(self).event_listeners@.len() == old(self).event_listeners@.len(),
            forall|i: int|
                0 <= i < old(self).event_listeners@.len() && i != listener ==> #[trigger] final(
                    self).event_listeners@[i] == old(self).event_listeners@[i],
            final(self).event_listeners@[listener as int].config == old(
                self).event_listeners@[listener as int].config,
            final(self).event_listeners@[listener as int].read == old(
                self).event_listeners@[listener as int].read,
            final(self).event_listeners@[listener as int].readiness_state == old(
                self).event_listeners@[listener as int].readiness_state,
            final(self).event_listeners@[listener as int].staging@ == crate::mpsc_queue::newest(
                old(self).event_listeners@[listener as int].staging@ + crate::iox2_event::items(
                    folded(activations@),
                ),
                old(self).event_listeners@[listener as int].config.capacity as nat,
            ),
    {
        let ghost before = *self;
        let records = fold_activations(activations);
        self.event_listeners[listener].stage_all(&records);
        proof {
            assert forall|i: int| 0 <= i < self.scheduled_inputs@.len() implies (#[trigger]
            self.scheduled_inputs@[i]).sequence <= self.next_input_sequence && self.registered(
                self.scheduled_inputs@[i].kind,
            ) by {
                let kind = before.scheduled_inputs@[i].kind;
                assert(before.registered(kind));
                if let ScheduledIox2InputKind::Event { channel, event_id, count } = kind {
                    let j = choose|j: int|
                        0 <= j < before.event_listeners@.len() && (#[trigger]
                        before.event_listeners@[j]).config.channel_name@ == channel@;
                    assert(self.event_listeners@[j].config == before.event_listeners@[j].config);
                }
            }
        }
    }

    /// When the next input arrives, if that is after `now`.
    pub fn next_input_time(&self, now: FrameworkTime) -> (r: Option<FrameworkTime>)
        ensures
            r == if self.scheduled_inputs@.len() > 0 && self.scheduled_inputs@[0].at.nanoseconds
                > now.nanoseconds {
                Some(self.scheduled_inputs@[0].at)
            } else {
                None
            },
    {
        if self.scheduled_inputs.len() > 0 && self.scheduled_inputs[0].at.nanoseconds
            > now.nanoseconds {
            Some(self.scheduled_inputs[0].at)
        } else {
            None
        }
    }

    /// Puts an input behind all that arrive no later.
    fn push_scheduled_input(&mut self, at: FrameworkTime, kind: ScheduledIox2InputKind<T>)
        requires
            old(self).wf(),
            old(self).registered(kind),
        ensures
            final(self).wf(),
            *final(self) == (Iox2SimulationState {
                scheduled_inputs: final(self).scheduled_inputs,
                next_input_sequence: final(self).next_input_sequence,
                ..*old(self)
            }),
            scheduled_behind(
                old(self).scheduled_inputs@,
                final(self).scheduled_inputs@,
                at,
                kind,
            ),
    {
        let ghost before = *self;
        let ghost inputs = self.scheduled_inputs@;
        let sequence: u64 = self.next_input_sequence;
        self.next_input_sequence = self.next_input_sequence.saturating_add(1);
        let mut place: usize = self.scheduled_inputs.len();
        while place > 0 && self.scheduled_inputs[place - 1].at.nanoseconds > at.nanoseconds
            invariant
                place <= inputs.len(),
                self.scheduled_inputs@ == inputs,
                forall|i: int|
                    place <= i < inputs.len() ==> (#[trigger] inputs[i]).at.nanoseconds
                        > at.nanoseconds,
            decreases place,
        {
            place = place - 1;
        }
        let input = ScheduledIox2Input { at, sequence, kind };
        self.scheduled_inputs.insert(place, input);
        proof {
            let after = self.scheduled_inputs@;
            let k = place as int;
            if k > 0 {
                assert forall|i: int| 0 <= i < k implies (#[trigger] inputs[i]).at.nanoseconds
                    <= at.nanoseconds by {
                    assert(inputs[i].not_after(inputs[k - 1]));
                }
            }
            lemma_due_split(inputs, at, k);
            assert(after =~= inputs.take(k).push(input) + inputs.skip(k));
            assert forall|i: int, j: int| 0 <= i <= j < after.len() implies (#[trigger]
            after[i]).not_after(#[trigger] after[j]) by {
                let a = if i < k {
                    i
                } else {
                    i - 1
                };
                let b = if j < k {
                    j
                } else {
                    j - 1
                };
                if i != k && j != k {
                    assert(inputs[a].not_after(inputs[b]));
                } else if i != k {
                    assert(inputs[a].sequence <= before.next_input_sequence);
                } else if j != k {
                    assert(inputs[b].at.nanoseconds > at.nanoseconds);
                }
            }
            assert forall|i: int| 0 <= i < after.len() implies (#[trigger] after[i]).sequence
                <= self.next_input_sequence && self.registered(after[i].kind) by {
                if i != k {
                    let a = if i < k {
                        i
                    } else {
                        i - 1
                    };
                    assert(after[i] == inputs[a]);
                    assert(before.registered(inputs[a].kind));
                }
                assert(before.registered(after[i].kind));
            }
        }
    }

    /// Schedule a payload for delivery at a simulation-time boundary.
    ///
    /// The message header records `at`; a request scheduled in the past is
    /// delivered at the next step without rewinding simulation time. Data
    /// inputs remain non-triggering.
    pub fn schedule_iox2_data(
        &mut self,
        at: FrameworkTime,
        channel: &str,
        payload: T,
        payload_type: u64,
    ) -> (r: Result<(), Iox2InputError>)
        requires
            old(self).wf(),
        ensures
            final(self).wf(),
            match old(self).input_publishers.at(channel@) {
                None => r is Err && r->Err_0 is UnknownDataChannel
                    && r->Err_0->UnknownDataChannel_0@ == channel@,
                Some(registered_type) => if registered_type != payload_type {
                    r is Err && r->Err_0 is PayloadTypeMismatch && r->Err_0->PayloadTypeMismatch_0@
                        == channel@
                } else {
                    r is Ok
                },
            },
            r is Err ==> *final(self) == *old(self),
            r is Ok ==> *final(self) == (Iox2SimulationState {
                scheduled_inputs: final(self).scheduled_inputs,
                next_input_sequence: final(self).next_input_sequence,
                ..*old(self)
            }),
            r is Ok ==> exists|name: String| #[trigger]
                name@ == channel@ && scheduled_behind(
                    old(self).scheduled_inputs@,
                    final(self).scheduled_inputs@,
                    at,
                    ScheduledIox2InputKind::Data { channel: name, payload },
                ),
    {
        let name = channel.to_owned();
        match self.input_publishers.get(&name) {
            None => Err(Iox2InputError::UnknownDataChannel(name)),
            Some(registered_type) => if *registered_type != payload_type {
                Err(Iox2InputError::PayloadTypeMismatch(name))
            } else {
                assert(name@ == channel@);
                self.push_scheduled_input(
                    at,
                    ScheduledIox2InputKind::Data { channel: name, payload },
                );
                Ok(())
            },
        }
    }

    /// Schedule an event activation for the named channel and simulation time.
    ///
    /// Every event subscriber on the channel receives one staged record
    /// carrying the full `count`; the count is not expanded into individual
    /// notifications. A past timestamp is delivered at the next step without
    /// rewinding simulation time.
    pub fn schedule_iox2_event(
        &mut self,
        at: FrameworkTime,
        channel: &str,
        event_id: usize,
        count: u64,
    ) -> (r: Result<(), Iox2InputError>)
        requires
            old(self).wf(),
        ensures
            final(self).wf(),
            r is Ok <==> listens(old(self).event_listeners@, channel@),
            r matches Err(error) ==> error is UnknownEventChannel && error->UnknownEventChannel_0@
                == channel@ && *final(self) == *old(self),
            r is Ok ==> *final(self) == (Iox2SimulationState {
                scheduled_inputs: final(self).scheduled_inputs,
                next_input_sequence: final(self).next_input_sequence,
                ..*old(self)
            }),
            r is Ok ==> exists|name: String| #[trigger]
                name@ == channel@ && scheduled_behind(
                    old(self).scheduled_inputs@,
                    final(self).scheduled_inputs@,
                    at,
                    ScheduledIox2InputKind::Event { channel: name, event_id, count },
                ),
    {
        let name = channel.to_owned();
        let mut i: usize = 0;
        while i < self.event_listeners.len()
            invariant
                i <= self.event_listeners@.len(),
                *self == *old(self),
                self.wf(),
                name@ == channel@,
                forall|j: int|
                    0 <= j < i ==> (#[trigger] self.event_listeners@[j]).config.channel_name@
                        != channel@,
            decreases self.event_listeners@.len() - i,
        {
            if self.event_listeners[i].config.channel_name == name {
                assert(listens(self.event_listeners@, channel@));
                self.push_scheduled_input(
                    at,
                    ScheduledIox2InputKind::Event { channel: name, event_id, count },
                );
                return Ok(());
            }
            i = i + 1;
        }
        Err(Iox2InputError::UnknownEventChannel(name))
    }
}

/// Whether `after` is `before` with one input more, behind all that arrive no
/// later than `at`.
pub open spec fn scheduled_behind<T>(
    before: Seq<ScheduledIox2Input<T>>,
    after: Seq<ScheduledIox2Input<T>>,
    at: FrameworkTime,
    kind: ScheduledIox2InputKind<T>,
) -> bool {
    let k = due_count(before, at) as int;
    &&& after.len() == before.len() + 1
    &&& k <= before.len()
    &&& after == before.take(k).push(after[k]) + before.skip(k)
    &&& after[k].at == at
    &&& after[k].kind == kind
}

/// What waits for a listener of `channel` once the events among the first `n`
/// inputs were staged behind `waiting`.
pub open spec fn events_staged<T>(
    inputs: Seq<ScheduledIox2Input<T>>,
    n: int,
    channel: Seq<char>,
    capacity: nat,
    waiting: Seq<(usize, u64)>,
) -> Seq<(usize, u64)>
    decreases n,
{
    if n <= 0 {
        waiting
    } else {
        let rest = events_staged(inputs, n - 1, channel, capacity, waiting);
        match inputs[n - 1].kind {
            ScheduledIox2InputKind::Event { channel: at, event_id, count } => if at@ == channel {
                crate::mpsc_queue::pushed(rest, capacity, EventRecord { event_id, count }.item())
            } else {
                rest
            },
            _ => rest,
        }
    }
}

/// Whether `after` is `before` with the events among the first `n` inputs
/// staged for their listeners.
pub open spec fn all_staged<T>(
    before: Seq<Iox2EventSubscriber>,
    after: Seq<Iox2EventSubscriber>,
    inputs: Seq<ScheduledIox2Input<T>>,
    n: int,
) -> bool {
    &&& after.len() == before.len()
    &&& forall|i: int|
        0 <= i < before.len() ==> {
            &&& (#[trigger] after[i]).config == before[i].config
            &&& after[i].read == before[i].read
            &&& after[i].readiness_state == before[i].readiness_state
            &&& after[i].staging@ == events_staged(
                inputs,
                n,
                before[i].config.channel_name@,
                before[i].config.capacity as nat,
                before[i].staging@,
            )
        }
}

/// The payloads among the first `n` inputs, with the time for which each was
/// scheduled.
pub open spec fn payloads<T>(inputs: Seq<ScheduledIox2Input<T>>, n: int) -> Seq<
    (String, MessageHeader, T),
>
    decreases n,
{
    if n <= 0 {
        Seq::empty()
    } else {
        let rest = payloads(inputs, n - 1);
        match inputs[n - 1].kind {
            ScheduledIox2InputKind::Data { channel, payload } => rest.push(
                (channel, MessageHeader { published_at: inputs[n - 1].at }, payload),
            ),
            _ => rest,
        }
    }
}

proof fn lemma_due_bound<T>(inputs: Seq<ScheduledIox2Input<T>>, at: FrameworkTime)
    ensures
        due_count(inputs, at) <= inputs.len(),
    decreases inputs.len(),
{
    if inputs.len() > 0 {
        lemma_due_bound(inputs.drop_last(), at);
    }
}

/// Where the inputs up to `k` are due and the others are not, `k` are due.
proof fn lemma_due_split<T>(inputs: Seq<ScheduledIox2Input<T>>, at: FrameworkTime, k: int)
    requires
        0 <= k <= inputs.len(),
        forall|i: int|
            0 <= i < k ==> (#[trigger] inputs[i]).at.nanoseconds <= at.nanoseconds,
        forall|i: int|
            k <= i < inputs.len() ==> (#[trigger] inputs[i]).at.nanoseconds > at.nanoseconds,
    ensures
        due_count(inputs, at) == k,
    decreases inputs.len(),
{
    if inputs.len() > 0 {
        let rest = inputs.drop_last();
        if k == inputs.len() {
            lemma_due_split(rest, at, k - 1);
        } else {
            lemma_due_split(rest, at, k);
        }
    }
}

/// Of inputs in order, some are due only if the first is.
proof fn lemma_first_is_due<T>(inputs: Seq<ScheduledIox2Input<T>>, at: FrameworkTime)
    requires
        forall|i: int, j: int|
            0 <= i <= j < inputs.len() ==> (#[trigger] inputs[i]).not_after(#[trigger] inputs[j]),
    ensures
        due_count(inputs, at) > 0 <==> inputs.len() > 0 && inputs[0].at.nanoseconds
            <= at.nanoseconds,
    decreases inputs.len(),
{
    if inputs.len() > 0 {
        let rest = inputs.drop_last();
        assert forall|i: int, j: int| 0 <= i <= j < rest.len() implies (#[trigger]
        rest[i]).not_after(#[trigger] rest[j]) by {
            assert(inputs[i].not_after(inputs[j]));
        }
        lemma_first_is_due(rest, at);
        assert(inputs[0].not_after(inputs[inputs.len() - 1]));
    }
}

/// Taking a due input leaves one due input fewer.
proof fn lemma_due_skip<T>(inputs: Seq<ScheduledIox2Input<T>>, at: FrameworkTime)
    requires
        inputs.len() > 0,
        inputs[0].at.nanoseconds <= at.nanoseconds,
    ensures
        due_count(inputs.skip(1), at) == due_count(inputs, at) - 1,
    decreases inputs.len(),
{
    if inputs.len() == 1 {
        assert(inputs.skip(1) =~= Seq::empty());
        assert(inputs.drop_last() =~= Seq::empty());
        assert(due_count(inputs.drop_last(), at) == 0);
    } else {
        lemma_due_skip(inputs.drop_last(), at);
        assert(inputs.skip(1).drop_last() =~= inputs.drop_last().skip(1));
    }
}

/// Whether one of the records has this id.
pub open spec fn has_id(records: Seq<EventRecord>, event_id: usize) -> bool {
    exists|i: int| 0 <= i < records.len() && (#[trigger] records[i]).event_id == event_id
}

/// `a + b`, or the largest value where that is more.
pub open spec fn saturated(a: u64, b: u64) -> u64 {
    if a + b > u64::MAX {
        u64::MAX
    } else {
        (a + b) as u64
    }
}

/// The records with an activation counted to its id.
pub open spec fn with_activation(records: Seq<EventRecord>, activation: EventRecord) -> Seq<
    EventRecord,
> {
    if has_id(records, activation.event_id) {
        records.map_values(
            |record: EventRecord|
                if record.event_id == activation.event_id {
                    EventRecord {
                        event_id: record.event_id,
                        count: saturated(record.count, activation.count),
                    }
                } else {
                    record
                },
        )
    } else {
        records.push(activation)
    }
}

/// One record per event id, in the order in which the ids came first, with
/// the counts of all its activations.
pub open spec fn folded(activations: Seq<EventRecord>) -> Seq<EventRecord>
    decreases activations.len(),
{
    if activations.len() == 0 {
        Seq::empty()
    } else {
        with_activation(folded(activations.drop_last()), activations.last())
    }
}

/// Whether no id occurs twice.
pub open spec fn distinct_ids(records: Seq<EventRecord>) -> bool {
    forall|i: int, j: int|
        0 <= i < records.len() && 0 <= j < records.len() && (#[trigger] records[i]).event_id == (
        #[trigger] records[j]).event_id ==> i == j
}

/// Folding keeps one record per id.
pub proof fn law_folded_ids_are_distinct(activations: Seq<EventRecord>)
    ensures
        distinct_ids(folded(activations)),
    decreases activations.len(),
{
    if activations.len() > 0 {
        let before = folded(activations.drop_last());
        law_folded_ids_are_distinct(activations.drop_last());
        let activation = activations.last();
        let after = with_activation(before, activation);
        assert forall|i: int, j: int|
            0 <= i < after.len() && 0 <= j < after.len() && (#[trigger] after[i]).event_id == (
            #[trigger] after[j]).event_id implies i == j by {
            if has_id(before, activation.event_id) {
                assert(before[i].event_id == before[j].event_id);
            } else if i < before.len() && j < before.len() {
                assert(before[i].event_id == before[j].event_id);
            } else if i < before.len() {
                assert(before[i].event_id == activation.event_id);
            } else if j < before.len() {
                assert(before[j].event_id == activation.event_id);
            }
        }
    }
}

/// The counts of the activations with this id together.
pub open spec fn total_of(activations: Seq<EventRecord>, event_id: usize) -> nat
    decreases activations.len(),
{
    if activations.len() == 0 {
        0
    } else {
        total_of(activations.drop_last(), event_id) + if activations.last().event_id == event_id {
            activations.last().count as nat
        } else {
            0nat
        }
    }
}

/// Folding loses no occurrence: the record of an id counts all its
/// activations, up to the largest count that a record can hold.
pub proof fn law_folding_keeps_totals(activations: Seq<EventRecord>, i: int)
    requires
        0 <= i < folded(activations).len(),
    ensures
        folded(activations)[i].count == if total_of(activations, folded(activations)[i].event_id)
            > u64::MAX {
            u64::MAX as nat
        } else {
            total_of(activations, folded(activations)[i].event_id)
        },
    decreases activations.len(),
{
    if activations.len() > 0 {
        let before = folded(activations.drop_last());
        let activation = activations.last();
        let id = folded(activations)[i].event_id;
        if i < before.len() {
            law_folding_keeps_totals(activations.drop_last(), i);
        } else {
            lemma_no_record_no_total(activations.drop_last(), id);
        }
    }
}

proof fn lemma_no_record_no_total(activations: Seq<EventRecord>, event_id: usize)
    requires
        !has_id(folded(activations), event_id),
    ensures
        total_of(activations, event_id) == 0,
    decreases activations.len(),
{
    if activations.len() > 0 {
        let before = folded(activations.drop_last());
        let activation = activations.last();
        let after = folded(activations);
        if has_id(before, event_id) {
            let i = choose|i: int|
                0 <= i < before.len() && (#[trigger] before[i]).event_id == event_id;
            assert(after[i].event_id == event_id);
        }
        if activation.event_id == event_id {
            assert(!has_id(before, event_id));
            assert(after[before.len() as int] == activation);
        }
        lemma_no_record_no_total(activations.drop_last(), event_id);
    }
}

/// Folds activations by their id.
pub fn fold_activations(activations: &Vec<EventRecord>) -> (records: Vec<EventRecord>)
    ensures
        records@ == folded(activations@),
{
    let mut records: Vec<EventRecord> = Vec::new();
    let mut k: usize = 0;
    assert(activations@.take(0) =~= Seq::empty());
    while k < activations.len()
        invariant
            k <= activations@.len(),
            records@ == folded(activations@.take(k as int)),
        decreases activations@.len() - k,
    {
        let activation = activations[k];
        let ghost before = records@;
        proof {
            assert(activations@.take(k + 1).drop_last() =~= activations@.take(k as int));
            assert(folded(activations@.take(k + 1)) == with_activation(before, activation));
            law_folded_ids_are_distinct(activations@.take(k as int));
        }
        let mut i: usize = 0;
        let mut found = false;
        while i < records.len() && !found
            invariant
                i <= before.len(),
                records@.len() == before.len(),
                distinct_ids(before),
                !found ==> records@ == before && forall|j: int|
                    0 <= j < i ==> (#[trigger] before[j]).event_id != activation.event_id,
                found ==> has_id(before, activation.event_id) && records@ == with_activation(
                    before,
                    activation,
                ),
            decreases before.len() - i + if found {
                0int
            } else {
                1int
            },
        {
            if records[i].event_id == activation.event_id {
                let count: u64 = records[i].count.saturating_add(activation.count);
                records.set(i, EventRecord { event_id: activation.event_id, count });
                found = true;
                proof {
                    assert(before[i as int].event_id == activation.event_id);
                    assert(records@ =~= with_activation(before, activation)) by {
                        assert forall|j: int|
                            0 <= j < before.len() && j != i implies before[j].event_id
                            != activation.event_id by {
                            if before[j].event_id == before[i as int].event_id {
                                assert(j == i);
                            }
                        }
                    }
                }
            } else {
                i = i + 1;
            }
        }
        if !found {
            records.push(activation);
        }
        k = k + 1;
    }
    assert(activations@.take(k as int) =~= activations@);
    records
}

/// A node's name and the endpoints that its inputs are.
pub struct NodeInputs {
    pub name: String,
    pub inputs: Vec<Iox2EndpointInfo>,
}

/// What has to be opened for an input of a simulated graph.
#[derive(Clone, Copy, Debug, PartialEq, Eq, Structural)]
pub enum RegistrationStep {
    /// A listener for input `input` of node `node`.
    Listener { node: usize, input: usize },
    /// A publisher that feeds the channel of input `input` of node `node`.
    Publisher { node: usize, input: usize },
}

/// Whether a data input of the same channel comes before input `i` of node
/// `n`.
pub open spec fn fed_before(nodes: Seq<NodeInputs>, n: int, i: int) -> bool {
    exists|m: int, j: int|
        (0 <= m < n && 0 <= j < nodes[m].inputs@.len() || m == n && 0 <= j < i) && (#[trigger]
        nodes[m].inputs@[j]).kind is Iox2DataSub && nodes[m].inputs@[j].channel@
            == nodes[n].inputs@[i].channel@
}

/// What has to be opened for the first `i` inputs of node `n`, after `steps`.
pub open spec fn node_steps(
    nodes: Seq<NodeInputs>,
    n: int,
    i: int,
    steps: Seq<RegistrationStep>,
) -> Seq<RegistrationStep>
    decreases i,
{
    if i <= 0 {
        steps
    } else {
        let rest = node_steps(nodes, n, i - 1, steps);
        match nodes[n].inputs@[i - 1].kind {
            EndpointKind::Iox2EventSub => rest.push(
                RegistrationStep::Listener { node: n as usize, input: (i - 1) as usize },
            ),
            EndpointKind::Iox2DataSub { capacity } => if fed_before(nodes, n, i - 1) {
                rest
            } else {
                rest.push(
                    RegistrationStep::Publisher { node: n as usize, input: (i - 1) as usize },
                )
            },
            _ => rest,
        }
    }
}

/// What has to be opened for the first `n` nodes: a listener for each event
/// input, and one publisher for each channel with a data input.
pub open spec fn registration_steps(nodes: Seq<NodeInputs>, n: int) -> Seq<RegistrationStep>
    decreases n,
{
    if n <= 0 {
        Seq::empty()
    } else {
        node_steps(
            nodes,
            n - 1,
            nodes[n - 1].inputs@.len() as int,
            registration_steps(nodes, n - 1),
        )
    }
}

fn is_fed_before(nodes: &Vec<NodeInputs>, n: usize, i: usize) -> (r: bool)
    requires
        n < nodes@.len(),
        i < nodes@[n as int].inputs@.len(),
    ensures
        r == fed_before(nodes@, n as int, i as int),
{
    assert(nodes.len() == nodes@.len());
    let mut m: usize = 0;
    while m <= n
        invariant
            m <= n + 1 <= usize::MAX,
            n < nodes@.len(),
            i < nodes@[n as int].inputs@.len(),
            forall|a: int, b: int|
                0 <= a < m && a < n && 0 <= b < nodes@[a].inputs@.len() || a < m && a == n && 0 <= b < i
                    ==> !((#[trigger] nodes@[a].inputs@[b]).kind is Iox2DataSub
                    && nodes@[a].inputs@[b].channel@ == nodes@[n as int].inputs@[i as int].channel@),
        decreases n + 1 - m,
    {
        let count: usize = if m == n {
            i
        } else {
            nodes[m].inputs.len()
        };
        let mut j: usize = 0;
        while j < count
            invariant
                m <= n,
                n < nodes@.len(),
                i < nodes@[n as int].inputs@.len(),
                j <= count <= nodes@[m as int].inputs@.len(),
                count == if m == n {
                    i as nat
                } else {
                    nodes@[m as int].inputs@.len()
                },
                forall|b: int|
                    0 <= b < j ==> !((#[trigger] nodes@[m as int].inputs@[b]).kind is Iox2DataSub
                        && nodes@[m as int].inputs@[b].channel@
                        == nodes@[n as int].inputs@[i as int].channel@),
            decreases count - j,
        {
            if let EndpointKind::Iox2DataSub { .. } = nodes[m].inputs[j].kind {
                if nodes[m].inputs[j].channel == nodes[n].inputs[i].channel {
                    assert(nodes@[m as int].inputs@[j as int].kind is Iox2DataSub);
                    return true;
                }
            }
            j = j + 1;
        }
        m = m + 1;
    }
    false
}

/// What has to be opened for the inputs of a simulated graph, in order.
pub fn register_simulation_iox2_inputs(nodes: &Vec<NodeInputs>) -> (steps: Vec<RegistrationStep>)
    ensures
        steps@ == registration_steps(nodes@, nodes@.len() as int),
{
    let mut steps: Vec<RegistrationStep> = Vec::new();
    let mut n: usize = 0;
    while n < nodes.len()
        invariant
            n <= nodes@.len(),
            steps@ == registration_steps(nodes@, n as int),
        decreases nodes@.len() - n,
    {
        let ghost before = steps@;
        let mut i: usize = 0;
        while i < nodes[n].inputs.len()
            invariant
                n < nodes@.len(),
                i <= nodes@[n as int].inputs@.len(),
                steps@ == node_steps(nodes@, n as int, i as int, before),
            decreases nodes@[n as int].inputs@.len() - i,
        {
            match nodes[n].inputs[i].kind {
                EndpointKind::Iox2EventSub => {
                    steps.push(RegistrationStep::Listener { node: n, input: i });
                },
                EndpointKind::Iox2DataSub { .. } => {
                    if !is_fed_before(nodes, n, i) {
                        steps.push(RegistrationStep::Publisher { node: n, input: i });
                    }
                },
                _ => {},
            }
            i = i + 1;
        }
        n = n + 1;
    }
    steps
}

/// Whether some listener of node `n` has staged events.
pub open spec fn events_ask(
    listeners: Seq<Iox2EventSubscriber>,
    owners: Seq<usize>,
    n: int,
) -> bool {
    exists|i: int|
        0 <= i < listeners.len() && owners[i] == n && (#[trigger] listeners[i]).staging@.len() > 0
}

/// Whether `after` is `before` once the listeners of the nodes of `runnable`
/// were drained. The others keep what is staged for them.
pub open spec fn drained_for(
    before: Seq<Iox2EventSubscriber>,
    after: Seq<Iox2EventSubscriber>,
    owners: Seq<usize>,
    runnable: Seq<usize>,
) -> bool {
    &&& after.len() == before.len()
    &&& forall|i: int|
        0 <= i < before.len() ==> if runnable.contains(owners[i]) {
            &&& (#[trigger] after[i]).config == before[i].config
            &&& after[i].readiness_state == before[i].readiness_state
            &&& after[i].staging@.len() == 0
            &&& crate::iox2_event::items(after[i].read@) == before[i].staging@
        } else {
            after[i] == before[i]
        }
}

impl<T> Iox2SimulationState<T> {
    /// Tells a simulation what comes from outside its graph: the nodes with
    /// staged events are asked to run, and the time stops at the next input.
    /// `owners` says of each listener to which node it belongs.
    pub fn tell<P>(&self, owners: &Vec<usize>, state: &mut SimulationState<P>)
        requires
            self.wf(),
            owners@.len() == self.event_listeners@.len(),
            old(state).wf(),
        ensures
            final(state).wf(),
            *final(state) == (SimulationState {
                event_asks: final(state).event_asks,
                schedule: final(state).schedule,
                ..*old(state)
            }),
            final(state).schedule == (Schedule {
                next_input: final(state).schedule.next_input,
                ..old(state).schedule
            }),
            forall|n: int|
                0 <= n < old(state).nodes.nodes@.len() ==> #[trigger] final(state).event_asks@[n]
                    == events_ask(self.event_listeners@, owners@, n),
            final(state).schedule.next_input == if self.scheduled_inputs@.len() > 0
                && self.scheduled_inputs@[0].at.nanoseconds > old(
                state).schedule.time.nanoseconds {
                Some(self.scheduled_inputs@[0].at)
            } else {
                None
            },
    {
        let mut event_asks: Vec<bool> = Vec::new();
        let mut n: usize = 0;
        while n < state.nodes.nodes.len()
            invariant
                n <= state.nodes.nodes@.len(),
                *state == *old(state),
                owners@.len() == self.event_listeners@.len(),
                self.wf(),
                event_asks@.len() == n,
                forall|m: int|
                    0 <= m < n ==> #[trigger] event_asks@[m] == events_ask(
                        self.event_listeners@,
                        owners@,
                        m,
                    ),
            decreases state.nodes.nodes@.len() - n,
        {
            let asks = self.node_is_asked(owners, n);
            event_asks.push(asks);
            n = n + 1;
        }
        let next_input = self.next_input_time(state.schedule.time);
        state.expect_inputs(event_asks, next_input);
    }

    fn node_is_asked(&self, owners: &Vec<usize>, n: usize) -> (r: bool)
        requires
            self.wf(),
            owners@.len() == self.event_listeners@.len(),
        ensures
            r == events_ask(self.event_listeners@, owners@, n as int),
    {
        let mut i: usize = 0;
        while i < self.event_listeners.len()
            invariant
                i <= self.event_listeners@.len(),
                owners@.len() == self.event_listeners@.len(),
                self.wf(),
                forall|j: int|
                    0 <= j < i && owners@[j] == n ==> (#[trigger]
                    self.event_listeners@[j]).staging@.len() == 0,
            decreases self.event_listeners@.len() - i,
        {
            assert(self.event_listeners@[i as int].wf());
            if owners[i] == n && self.event_listeners[i].requests_execution() {
                assert(self.event_listeners@[i as int].staging@.len() > 0);
                return true;
            }
            i = i + 1;
        }
        false
    }

    /// Makes what is staged readable for the nodes of `runnable`.
    pub fn drain_listeners(&mut self, owners: &Vec<usize>, runnable: &Vec<usize>)
        requires
            old(self).wf(),
            owners@.len() == old(self).event_listeners@.len(),
        ensures
            final(self).wf(),
            *final(self) == (Iox2SimulationState {
                event_listeners: final(self).event_listeners,
                ..*old(self)
            }),
            drained_for(
                old(self).event_listeners@,
                final(self).event_listeners@,
                owners@,
                runnable@,
            ),
    {
        let ghost before = *self;
        let mut i: usize = 0;
        while i < self.event_listeners.len()
            invariant
                i <= self.event_listeners@.len(),
                before == *old(self),
                before.wf(),
                *self == (Iox2SimulationState { event_listeners: self.event_listeners, ..before }),
                owners@.len() == before.event_listeners@.len(),
                self.event_listeners@.len() == before.event_listeners@.len(),
                forall|j: int|
                    0 <= j < before.event_listeners@.len() ==> (#[trigger]
                    self.event_listeners@[j]).wf() && self.event_listeners@[j].config
                        == before.event_listeners@[j].config,
                forall|j: int|
                    i <= j < before.event_listeners@.len() ==> #[trigger] self.event_listeners@[j]
                        == before.event_listeners@[j],
                drained_for(
                    before.event_listeners@.take(i as int),
                    self.event_listeners@.take(i as int),
                    owners@,
                    runnable@,
                ),
            decreases self.event_listeners@.len() - i,
        {
            let ghost passed = self.event_listeners@;
            assert(passed[i as int].wf());
            if crate::schedule::list_contains(runnable, owners[i]) {
                self.event_listeners[i].drain_writer_to_reader();
            }
            proof {
                let a = before.event_listeners@.take(i + 1);
                let b = self.event_listeners@.take(i + 1);
                assert forall|j: int| 0 <= j < a.len() implies if runnable@.contains(owners@[j]) {
                    &&& (#[trigger] b[j]).config == a[j].config
                    &&& b[j].readiness_state == a[j].readiness_state
                    &&& b[j].staging@.len() == 0
                    &&& crate::iox2_event::items(b[j].read@) == a[j].staging@
                } else {
                    b[j] == a[j]
                } by {
                    if j < i {
                        assert(b[j] == passed.take(i as int)[j]);
                        assert(a[j] == before.event_listeners@.take(i as int)[j]);
                    }
                }
            }
            i = i + 1;
        }
        proof {
            assert(before.event_listeners@.take(i as int) =~= before.event_listeners@);
            assert(self.event_listeners@.take(i as int) =~= self.event_listeners@);
            assert forall|k: int| 0 <= k < self.scheduled_inputs@.len() implies (#[trigger]
            self.scheduled_inputs@[k]).sequence <= self.next_input_sequence && self.registered(
                self.scheduled_inputs@[k].kind,
            ) by {
                let kind = before.scheduled_inputs@[k].kind;
                assert(before.registered(kind));
                if let ScheduledIox2InputKind::Event { channel, event_id, count } = kind {
                    let j = choose|j: int|
                        0 <= j < before.event_listeners@.len() && (#[trigger]
                        before.event_listeners@[j]).config.channel_name@ == channel@;
                    assert(self.event_listeners@[j].config == before.event_listeners@[j].config);
                }
            }
        }
    }
}

/// Events wait behind required inputs: a listener whose node does not run keeps
/// what was staged for it, so that the node is still asked to run.
pub proof fn law_events_wait_for_their_node(
    before: Seq<Iox2EventSubscriber>,
    after: Seq<Iox2EventSubscriber>,
    owners: Seq<usize>,
    runnable: Seq<usize>,
    n: usize,
)
    requires
        drained_for(before, after, owners, runnable),
        !runnable.contains(n),
        events_ask(before, owners, n as int),
    ensures
        events_ask(after, owners, n as int),
{
    let i = choose|i: int|
        0 <= i < before.len() && owners[i] == n && (#[trigger] before[i]).staging@.len() > 0;
    assert(after[i] == before[i]);
}

/// A node that runs has taken its events: none of its listeners asks any more.
pub proof fn law_events_are_taken_once(
    before: Seq<Iox2EventSubscriber>,
    after: Seq<Iox2EventSubscriber>,
    owners: Seq<usize>,
    runnable: Seq<usize>,
    n: usize,
)
    requires
        drained_for(before, after, owners, runnable),
        runnable.contains(n),
    ensures
        !events_ask(after, owners, n as int),
{
    assert forall|i: int| 0 <= i < after.len() && owners[i] == n implies (#[trigger]
    after[i]).staging@.len() == 0 by {}
}

/// Whether `error` reports that `step` failed for `reason`: as an event or as
/// an input, with the node's name.
pub open spec fn reports_failure(
    error: StepError,
    step: RegistrationStep,
    node_name: Seq<char>,
    reason: Seq<char>,
) -> bool {
    match step {
        RegistrationStep::Listener { node, input } => error is Iox2Event && error->Iox2Event_0@
            == "node "@ + node_name + ": "@ + reason,
        RegistrationStep::Publisher { node, input } => error is Iox2Input && error->Iox2Input_0@
            == "node "@ + node_name + ": "@ + reason,
    }
}

/// What a failed registration is reported as: the node's name and the reason.
pub fn registration_error(step: RegistrationStep, node_name: &str, reason: &str) -> (r: StepError)
    ensures
        reports_failure(r, step, node_name@, reason@),
{
    let mut text = "node ".to_owned();
    text.append(node_name);
    text.append(": ");
    text.append(reason);
    match step {
        RegistrationStep::Listener { .. } => StepError::Iox2Event(text),
        RegistrationStep::Publisher { .. } => StepError::Iox2Input(text),
    }
}

/// What follows the registration step `done`, which had this outcome for a node
/// of this name: the next step, if there is one. The first failure ends the
/// registration.
pub fn after_registration_step(
    steps: &Vec<RegistrationStep>,
    done: usize,
    outcome: Result<(), String>,
    node_name: &str,
) -> (r: Result<Option<RegistrationStep>, StepError>)
    requires
        done < steps@.len(),
    ensures
        r is Ok <==> outcome is Ok,
        r matches Ok(next) ==> next == if done + 1 < steps@.len() {
            Some(steps@[done + 1])
        } else {
            None
        },
        r matches Err(error) ==> reports_failure(
            error,
            steps@[done as int],
            node_name@,
            outcome->Err_0@,
        ),
{
    match outcome {
        Ok(_) => {
            if done < steps.len() - 1 {
                Ok(Some(steps[done + 1]))
            } else {
                Ok(None)
            }
        },
        Err(reason) => Err(registration_error(steps[done], node_name, reason.as_str())),
    }
}

/// Inputs arrive in the order of their times, and inputs for the same time in
/// the order in which they were scheduled: scheduling one more keeps the order
/// of the others and puts it behind every input that is due at its time.
pub proof fn law_scheduling_keeps_order<T>(
    before: Seq<ScheduledIox2Input<T>>,
    after: Seq<ScheduledIox2Input<T>>,
    at: FrameworkTime,
    kind: ScheduledIox2InputKind<T>,
    i: int,
    j: int,
)
    requires
        scheduled_behind(before, after, at, kind),
        0 <= i < j < before.len(),
    ensures
        exists|a: int, b: int|
            0 <= a < b < after.len() && #[trigger] after[a] == before[i] && #[trigger] after[b]
                == before[j],
{
    let k = due_count(before, at) as int;
    let a = if i < k {
        i
    } else {
        i + 1
    };
    let b = if j < k {
        j
    } else {
        j + 1
    };
    assert(after[a] == before[i]);
    assert(after[b] == before[j]);
}

} // verus!
