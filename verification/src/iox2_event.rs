//! Event inputs and outputs of the shared-memory transport.
use vstd::prelude::*;

use crate::generic_subscriber::{GenericSubscriber, QueueInfo};
use crate::mpsc_queue::MpscQueue;
use crate::pub_sub_factory::{EndpointKind, Iox2EndpointInfo};
use crate::publisher::PublisherConfig;
use crate::readiness::{CallbackNodeReadiness, SubscriberReadiness};
use crate::scheduling::CallbackNodeId;
use crate::subscriber::SubscriberConfig;

verus! {

/// One event-id/count pair deposited for an event-driven callback.
#[derive(Clone, Copy, Debug, PartialEq, Eq, Structural)]
pub struct EventRecord {
    /// Identifier attached to this event.
    pub event_id: usize,
    /// Number of occurrences represented by this record.
    pub count: u64,
}

impl EventRecord {
    /// The record as a queue holds it.
    pub open spec fn item(self) -> (usize, u64) {
        (self.event_id, self.count)
    }
}

/// The records as a queue holds them.
pub open spec fn items(records: Seq<EventRecord>) -> Seq<(usize, u64)> {
    records.map_values(|record: EventRecord| record.item())
}

/// The node that an event for an input with this role makes ready.
pub open spec fn nudged(
    role: Option<SubscriberReadiness>,
    readiness: Seq<CallbackNodeReadiness>,
) -> Option<CallbackNodeId> {
    match role {
        Some(SubscriberReadiness::OptionalTrigger(node)) => if readiness[node as int].all_ready() {
            readiness[node as int].node
        } else {
            None
        },
        _ => None,
    }
}

/// Event input: a queue in which events are staged, and the batch that the
/// current run sees.
pub struct Iox2EventSubscriber {
    pub config: SubscriberConfig,
    pub staging: MpscQueue,
    pub read: Vec<EventRecord>,
    pub readiness_state: Option<SubscriberReadiness>,
}

impl Iox2EventSubscriber {
    pub open spec fn wf(&self) -> bool {
        &&& self.config.valid()
        &&& self.staging.wf()
        &&& self.staging.capacity() == self.config.capacity
    }

    /// Declare an optional-trigger input for events on `config.channel_name`.
    /// `config.capacity` sizes the staging queue (drop-oldest under burst).
    pub fn new(config: SubscriberConfig) -> (r: Self)
        requires
            config.valid(),
        ensures
            r.wf(),
            r.config == (SubscriberConfig { is_optional: true, is_trigger: true, ..config }),
            r.staging@.len() == 0,
            r.read@.len() == 0,
            r.readiness_state is None,
    {
        let mut config = config;
        config.is_optional = true;
        config.is_trigger = true;
        Iox2EventSubscriber {
            staging: MpscQueue::new(config.capacity),
            config,
            read: Vec::new(),
            readiness_state: None,
        }
    }

    /// Stages one record.
    pub fn stage(&mut self, record: EventRecord)
        requires
            old(self).wf(),
        ensures
            final(self).wf(),
            final(self).staging@ == crate::mpsc_queue::pushed(
                old(self).staging@,
                old(self).config.capacity as nat,
                record.item(),
            ),
            final(self).config == old(self).config,
            final(self).read == old(self).read,
            final(self).readiness_state == old(self).readiness_state,
    {
        let _ = self.staging.push((record.event_id, record.count));
    }

    /// Stages the records, in order. Returns the node to enqueue: an event
    /// makes its node ready if every required input of the node has data.
    pub fn inject_events(
        &mut self,
        records: &Vec<EventRecord>,
        readiness: &Vec<CallbackNodeReadiness>,
    ) -> (enqueue: Option<CallbackNodeId>)
        requires
            old(self).wf(),
            crate::pub_sub::role_valid(old(self).readiness_state, readiness@.len()),
        ensures
            final(self).wf(),
            final(self).staging@ == crate::mpsc_queue::newest(
                old(self).staging@ + items(records@),
                old(self).config.capacity as nat,
            ),
            final(self).config == old(self).config,
            final(self).read == old(self).read,
            final(self).readiness_state == old(self).readiness_state,
            enqueue == nudged(old(self).readiness_state, readiness@),
    {
        self.stage_all(records);
        match self.readiness_state {
            Some(SubscriberReadiness::OptionalTrigger(node)) => readiness[node].enqueue_if_ready(),
            _ => None,
        }
    }

    /// Stages the records, in order.
    pub fn stage_all(&mut self, records: &Vec<EventRecord>)
        requires
            old(self).wf(),
        ensures
            final(self).wf(),
            final(self).staging@ == crate::mpsc_queue::newest(
                old(self).staging@ + items(records@),
                old(self).config.capacity as nat,
            ),
            final(self).config == old(self).config,
            final(self).read == old(self).read,
            final(self).readiness_state == old(self).readiness_state,
    {
        let ghost before = self.staging@;
        let ghost capacity = self.config.capacity as nat;
        assert(before + items(records@).take(0) =~= before);
        let mut i: usize = 0;
        while i < records.len()
            invariant
                i <= records@.len(),
                self.wf(),
                capacity == self.config.capacity,
                self.config == old(self).config,
                self.read == old(self).read,
                self.readiness_state == old(self).readiness_state,
                self.staging@ == crate::mpsc_queue::newest(
                    before + items(records@).take(i as int),
                    capacity,
                ),
            decreases records@.len() - i,
        {
            self.stage(records[i]);
            proof {
                let all = before + items(records@).take(i as int);
                crate::mpsc_queue::lemma_push_keeps_newest(
                    all,
                    capacity,
                    records@[i as int].item(),
                );
                assert(before + items(records@).take(i + 1) =~= all.push(
                    records@[i as int].item(),
                ));
            }
            i = i + 1;
        }
        assert(items(records@).take(i as int) =~= items(records@));
    }

    /// Moves every staged record to the current batch; the previous run's
    /// records are gone.
    pub fn drain_writer_to_reader(&mut self)
        requires
            old(self).wf(),
        ensures
            final(self).wf(),
            final(self).staging@.len() == 0,
            items(final(self).read@) == old(self).staging@,
            final(self).config == old(self).config,
            final(self).readiness_state == old(self).readiness_state,
    {
        let ghost all = self.staging@;
        self.read.clear();
        assert(items(self.read@) =~= all.take(0));
        assert(all.skip(0) =~= all);
        while !self.staging.is_empty()
            invariant
                self.wf(),
                self.config == old(self).config,
                self.readiness_state == old(self).readiness_state,
                self.read@.len() <= all.len(),
                items(self.read@) == all.take(self.read@.len() as int),
                self.staging@ == all.skip(self.read@.len() as int),
            decreases self.staging@.len(),
        {
            let ghost k = self.read@.len() as int;
            if let Some(item) = self.staging.pop() {
                self.read.push(EventRecord { event_id: item.0, count: item.1 });
                proof {
                    assert(item == all[k]);
                    assert(items(self.read@) =~= all.take(k).push(all[k]));
                    assert(all.take(k + 1) =~= all.take(k).push(all[k]));
                    assert(all.skip(k).skip(1) =~= all.skip(k + 1));
                }
            }
        }
        assert(items(self.read@) =~= all);
    }

    /// Drops the batch and what is staged.
    pub fn cleanup_buffers(&mut self)
        requires
            old(self).wf(),
        ensures
            final(self).wf(),
            final(self).staging@.len() == 0,
            final(self).read@.len() == 0,
            final(self).config == old(self).config,
            final(self).readiness_state == old(self).readiness_state,
    {
        self.read.clear();
        self.staging.clear();
    }

    pub fn set_readiness_state(&mut self, state: SubscriberReadiness)
        ensures
            *final(self) == (Iox2EventSubscriber { readiness_state: Some(state), ..*old(self) }),
    {
        self.readiness_state = Some(state);
    }

    /// The endpoint that this input is.
    pub fn endpoint(&self) -> (r: Iox2EndpointInfo)
        ensures
            r.channel@ == self.config.channel_name@,
            r.kind is Iox2EventSub,
            r.payload_type is None,
    {
        Iox2EndpointInfo {
            channel: self.config.channel_name.clone(),
            kind: EndpointKind::Iox2EventSub,
            payload_type: None,
        }
    }
}

impl Iox2EventSubscriber {
    /// A handle for tests that stage events without a live executor.
    pub fn injector(&mut self) -> (r: Iox2EventInjector<'_>)
        ensures
            *r.subscriber == *old(self),
            *final(self) == *final(r.subscriber),
    {
        Iox2EventInjector { subscriber: self }
    }
}

/// Injects event records into a graph input.
pub struct Iox2EventInjector<'a> {
    pub subscriber: &'a mut Iox2EventSubscriber,
}

impl<'a> Iox2EventInjector<'a> {
    /// Stages one counted event. Returns the node to enqueue: an event makes
    /// its node ready if every required input of the node has data.
    pub fn notify(
        self,
        event_id: usize,
        count: u64,
        readiness: &Vec<CallbackNodeReadiness>,
    ) -> (enqueue: Option<CallbackNodeId>)
        requires
            old(self.subscriber).wf(),
            crate::pub_sub::role_valid(old(self.subscriber).readiness_state, readiness@.len()),
        ensures
            final(self.subscriber).wf(),
            final(self.subscriber).staging@ == crate::mpsc_queue::pushed(
                old(self.subscriber).staging@,
                old(self.subscriber).config.capacity as nat,
                (event_id, count),
            ),
            final(self.subscriber).config == old(self.subscriber).config,
            final(self.subscriber).read == old(self.subscriber).read,
            final(self.subscriber).readiness_state == old(self.subscriber).readiness_state,
            enqueue == nudged(old(self.subscriber).readiness_state, readiness@),
    {
        self.subscriber.stage(EventRecord { event_id, count });
        match self.subscriber.readiness_state {
            Some(SubscriberReadiness::OptionalTrigger(node)) => readiness[node].enqueue_if_ready(),
            _ => None,
        }
    }
}

impl GenericSubscriber for Iox2EventSubscriber {
    open spec fn config_view(&self) -> SubscriberConfig {
        self.config
    }

    open spec fn reader_len(&self) -> nat {
        self.read@.len()
    }

    open spec fn writer_len(&self) -> nat {
        self.staging@.len()
    }

    open spec fn can_run(&self) -> bool {
        true
    }

    open spec fn asks_to_run(&self) -> bool {
        self.staging@.len() > 0
    }

    fn config(&self) -> (r: &SubscriberConfig) {
        &self.config
    }

    fn able_to_run(&self) -> (r: bool) {
        true
    }

    fn requests_execution(&self) -> (r: bool) {
        !self.staging.is_empty()
    }

    fn queue_info(&self) -> (r: QueueInfo) {
        QueueInfo { reader_size: self.read.len(), writer_size: self.staging.len() }
    }
}

/// The counts of the first `n` records together.
pub open spec fn count_total(records: Seq<EventRecord>, n: int) -> int
    decreases n,
{
    if n <= 0 {
        0
    } else {
        count_total(records, n - 1) + records[n - 1].count
    }
}

proof fn lemma_count_total(records: Seq<EventRecord>, k: int, n: int)
    requires
        0 <= k <= n <= records.len(),
    ensures
        0 <= count_total(records, k) <= count_total(records, n),
    decreases n,
{
    if k < n {
        lemma_count_total(records, k, n - 1);
    } else if k > 0 {
        lemma_count_total(records, k - 1, k - 1);
    }
}

/// Borrowed view of the event records available to one callback run.
pub struct Iox2EventGuard<'a> {
    pub records: &'a mut Vec<EventRecord>,
}

impl<'a> Iox2EventGuard<'a> {
    /// The oldest event record, if any.
    pub fn front(&self) -> (r: Option<EventRecord>)
        ensures
            r == if old(self.records)@.len() > 0 {
                Some(old(self.records)@[0])
            } else {
                None
            },
    {
        if self.records.len() > 0 {
            Some(self.records[0])
        } else {
            None
        }
    }

    /// Number of records in this run's event batch.
    pub fn len(&self) -> (r: usize)
        ensures
            r == old(self.records)@.len(),
    {
        self.records.len()
    }

    /// Whether this run has no event records.
    pub fn is_empty(&self) -> (r: bool)
        ensures
            r == (old(self.records)@.len() == 0),
    {
        self.records.len() == 0
    }

    /// Remove the oldest record.
    pub fn pop_front(&mut self)
        ensures
            final(self).records@ == if old(self).records@.len() > 0 {
                old(self).records@.skip(1)
            } else {
                old(self).records@
            },
    {
        if self.records.len() > 0 {
            let ghost before = self.records@;
            let _ = self.records.remove(0);
            assert(self.records@ =~= before.skip(1));
        }
    }
}

/// Event batch exposed to a callback.
pub struct Iox2Event<'a> {
    pub records: &'a Vec<EventRecord>,
}

impl<'a> Iox2Event<'a> {
    /// Borrow the event batch retained by a subscriber.
    pub fn new(subscriber: &'a Iox2EventSubscriber) -> (r: Self)
        ensures
            *r.records == subscriber.read,
    {
        Iox2Event { records: &subscriber.read }
    }

    /// Sum of all event counts in the batch.
    pub fn count(&self) -> (r: u64)
        requires
            count_total(self.records@, self.records@.len() as int) <= u64::MAX,
        ensures
            r == count_total(self.records@, self.records@.len() as int),
    {
        let mut sum: u64 = 0;
        let mut i: usize = 0;
        while i < self.records.len()
            invariant
                i <= self.records@.len(),
                sum == count_total(self.records@, i as int),
                count_total(self.records@, self.records@.len() as int) <= u64::MAX,
            decreases self.records@.len() - i,
        {
            proof {
                lemma_count_total(self.records@, i + 1, self.records@.len() as int);
            }
            sum = sum + self.records[i].count;
            i = i + 1;
        }
        sum
    }

    /// Event identifiers and their counts in arrival order.
    pub fn records(&self) -> (r: Vec<(usize, u64)>)
        ensures
            r@ == items(self.records@),
    {
        let mut list: Vec<(usize, u64)> = Vec::new();
        let mut i: usize = 0;
        while i < self.records.len()
            invariant
                i <= self.records@.len(),
                list@ == items(self.records@).take(i as int),
            decreases self.records@.len() - i,
        {
            list.push((self.records[i].event_id, self.records[i].count));
            assert(list@ =~= items(self.records@).take(i + 1));
            i = i + 1;
        }
        assert(list@ =~= items(self.records@));
        list
    }
}

/// Event output endpoint that emits a notification when flushed.
pub struct Iox2Notifier {
    pub config: PublisherConfig,
    /// Event identifier; can be overridden before graph construction.
    pub event_id: usize,
    pub notify_pending: bool,
}

impl Iox2Notifier {
    /// Declare an event notifier on the configured channel.
    pub fn new(config: PublisherConfig) -> (r: Self)
        ensures
            r.config == config,
            r.event_id == 0,
            !r.notify_pending,
    {
        Iox2Notifier { config, event_id: 0, notify_pending: false }
    }

    /// Whether the notification has to be emitted now. It is emitted once.
    pub fn flush_loaned_values(&mut self) -> (notify: bool)
        ensures
            notify == old(self).notify_pending,
            *final(self) == (Iox2Notifier { notify_pending: false, ..*old(self) }),
    {
        let notify = self.notify_pending;
        self.notify_pending = false;
        notify
    }

    /// The endpoint that this output is.
    pub fn endpoint(&self) -> (r: Iox2EndpointInfo)
        ensures
            r.channel@ == self.config.channel_name@,
            r.kind == (EndpointKind::Iox2Notifier { event_id: self.event_id }),
            r.payload_type is None,
    {
        Iox2EndpointInfo {
            channel: self.config.channel_name.clone(),
            kind: EndpointKind::Iox2Notifier { event_id: self.event_id },
            payload_type: None,
        }
    }
}

/// Mutable one-shot notification output.
pub struct Iox2NotifyOutput<'a> {
    pub notifier: &'a mut Iox2Notifier,
}

impl<'a> Iox2NotifyOutput<'a> {
    /// Prepare a notification for the next publisher flush.
    pub fn new(notifier: &'a mut Iox2Notifier) -> (r: Self)
        ensures
            *r.notifier == (Iox2Notifier { notify_pending: false, ..*old(notifier) }),
            *final(notifier) == *final(r.notifier),
    {
        notifier.notify_pending = false;
        Iox2NotifyOutput { notifier }
    }

    /// Mark the notification pending.
    pub fn send(self)
        ensures
            *final(self.notifier) == (Iox2Notifier { notify_pending: true, ..*old(self.notifier) }),
    {
        self.notifier.notify_pending = true;
    }
}

} // verus!
