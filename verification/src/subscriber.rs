//! The receiving end of a channel.
use vstd::prelude::*;

use crate::double_buffer::DoubleBuffer;
use crate::generic_subscriber::{GenericSubscriber, QueueInfo};
use crate::mpsc_queue::MAX_QUEUE_CAPACITY;
use crate::readiness::SubscriberReadiness;

verus! {

/// A message could not be published.
#[derive(Debug)]
pub struct PublishError {}

#[derive(Debug)]
pub struct SubscriberConfig {
    pub is_optional: bool,
    /// Capacity of the read buffer. The write queue has the same capacity.
    pub capacity: usize,
    pub is_trigger: bool,
    /// Whether to keep elements across runs. Requires the user to explicitly
    /// consume data.
    pub keep_across_runs: bool,
    pub channel_name: String,
}

impl Clone for SubscriberConfig {
    fn clone(&self) -> (r: Self)
        ensures
            r == *self,
    {
        SubscriberConfig {
            is_optional: self.is_optional,
            capacity: self.capacity,
            is_trigger: self.is_trigger,
            keep_across_runs: self.keep_across_runs,
            channel_name: self.channel_name.clone(),
        }
    }
}

impl SubscriberConfig {
    /// Whether a subscriber with this configuration can be made: a queue holds
    /// at least one element, and the machine bounds how many.
    pub open spec fn valid(self) -> bool {
        0 < self.capacity <= MAX_QUEUE_CAPACITY
    }

    /// Whether a subscriber gates its node's data-triggered execution.
    pub open spec fn gating(self) -> bool {
        self.is_trigger && !self.is_optional
    }

    /// The slots of a publisher that the subscriber's two buffers can fill.
    pub open spec fn buffered(self) -> int {
        2 * self.capacity
    }

    /// Arena slots that a connected subscriber can take at one moment: up to
    /// `capacity` in the write queue, up to `capacity` in the read buffer, and
    /// one for the pointer in flight between the two during a drain.
    pub fn arena_footprint(&self) -> (r: usize)
        requires
            2 * self.capacity + 1 <= usize::MAX,
        ensures
            r == 2 * self.capacity + 1,
    {
        2 * self.capacity + 1
    }

    /// Whether a subscriber gates its node's data-triggered execution: only
    /// trigger + non-optional subscribers must receive data before the node is
    /// enqueued.
    pub fn is_gating(&self) -> (r: bool)
        ensures
            r == self.gating(),
    {
        self.is_trigger && !self.is_optional
    }
}

/// The receiving end of a channel: its queues hold references to messages in
/// the arenas of the publishers that wrote them.
pub struct Subscriber {
    pub buffers: DoubleBuffer,
    pub config: SubscriberConfig,
    /// Identifies the payload type that the subscriber reads.
    pub value_type: u64,
    pub readiness_state: Option<SubscriberReadiness>,
}

impl Subscriber {
    pub open spec fn wf(&self) -> bool {
        &&& self.config.valid()
        &&& self.buffers.wf()
        &&& self.buffers.read_capacity == self.config.capacity
    }

    /// Every reference that the subscriber holds.
    pub open spec fn held(&self) -> Seq<(usize, u64)> {
        self.buffers.readable() + self.buffers.pending()
    }

    pub fn new(config: SubscriberConfig, value_type: u64) -> (r: Self)
        requires
            config.valid(),
        ensures
            r.wf(),
            r.config == config,
            r.value_type == value_type,
            r.readiness_state is None,
            r.buffers.pending().len() == 0,
            r.buffers.readable().len() == 0,
            r.buffers.write_queue.drops() == 0,
            r.buffers.read_buffer.drops == 0,
    {
        Subscriber {
            buffers: DoubleBuffer::new(config.capacity),
            config,
            value_type,
            readiness_state: None,
        }
    }

    /// How many messages have been displaced from the write queue since
    /// creation (the consumer did not drain often enough to keep up).
    pub fn writer_queue_drops(&self) -> (r: usize)
        ensures
            r == self.buffers.write_queue.drops(),
    {
        self.buffers.write_queue.dropped()
    }

    /// How many messages have been displaced from the read buffer since
    /// creation (more arrived than the capacity allows).
    pub fn reader_queue_drops(&self) -> (r: usize)
        ensures
            r == self.buffers.read_buffer.drops,
    {
        self.buffers.read_buffer.drops
    }

    pub fn set_readiness_state(&mut self, state: SubscriberReadiness)
        ensures
            *final(self) == (Subscriber { readiness_state: Some(state), ..*old(self) }),
    {
        self.readiness_state = Some(state);
    }

    pub fn readiness_state(&self) -> (r: Option<SubscriberReadiness>)
        ensures
            r == self.readiness_state,
    {
        self.readiness_state
    }
}

impl GenericSubscriber for Subscriber {
    open spec fn config_view(&self) -> SubscriberConfig {
        self.config
    }

    open spec fn reader_len(&self) -> nat {
        self.buffers.readable().len()
    }

    open spec fn writer_len(&self) -> nat {
        self.buffers.pending().len()
    }

    open spec fn can_run(&self) -> bool {
        self.config.is_optional || self.buffers.readable().len() > 0
    }

    open spec fn asks_to_run(&self) -> bool {
        self.config.is_trigger && self.buffers.pending().len() > 0
    }

    fn config(&self) -> (r: &SubscriberConfig) {
        &self.config
    }

    fn able_to_run(&self) -> (r: bool) {
        if self.config.is_optional {
            true
        } else {
            self.buffers.read_buffer.storage.len() > 0
        }
    }

    fn requests_execution(&self) -> (r: bool) {
        if self.config.is_trigger {
            !self.buffers.write_queue.is_empty()
        } else {
            false
        }
    }

    fn queue_info(&self) -> (r: QueueInfo) {
        QueueInfo {
            reader_size: self.buffers.read_buffer.storage.len(),
            writer_size: self.buffers.write_queue.len(),
        }
    }
}

} // verus!
