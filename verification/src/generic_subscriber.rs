//! What the framework asks of any kind of input.
use vstd::prelude::*;

use crate::subscriber::SubscriberConfig;

verus! {

/// How many messages wait in each of a subscriber's two buffers.
#[derive(Debug, Clone, Copy, PartialEq, Eq, Structural)]
pub struct QueueInfo {
    pub reader_size: usize,
    pub writer_size: usize,
}

pub trait GenericSubscriber {
    spec fn config_view(&self) -> SubscriberConfig;

    /// How many messages the callback can read.
    spec fn reader_len(&self) -> nat;

    /// How many messages wait for the next drain.
    spec fn writer_len(&self) -> nat;

    /// Whether the callback may run as far as this input goes.
    spec fn can_run(&self) -> bool;

    /// Whether this input asks for a run.
    spec fn asks_to_run(&self) -> bool;

    fn config(&self) -> (r: &SubscriberConfig)
        ensures
            *r == self.config_view(),
    ;

    fn able_to_run(&self) -> (r: bool)
        ensures
            r == self.can_run(),
    ;

    fn requests_execution(&self) -> (r: bool)
        ensures
            r == self.asks_to_run(),
    ;

    fn queue_info(&self) -> (r: QueueInfo)
        ensures
            r.reader_size == self.reader_len(),
            r.writer_size == self.writer_len(),
    ;

    /// Whether the callback will see data from this subscriber after the next
    /// drain: data pending in the write queue, or a retained value in the read
    /// buffer. Used to gate nodes on their required inputs.
    fn has_data_available(&self) -> (r: bool)
        ensures
            r == (self.reader_len() > 0 || self.writer_len() > 0),
    {
        let info = self.queue_info();
        info.reader_size > 0 || info.writer_size > 0
    }
}

} // verus!
