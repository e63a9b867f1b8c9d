//! Messages as they pass through the pub/sub system.
use vstd::prelude::*;

use crate::time::FrameworkTime;

verus! {

/// Metadata attached to every message as it passes through the pub/sub system.
/// Set by the executor at flush time: the executor is the sole source of time.
#[derive(Clone, Copy, Debug, PartialEq, Eq, Structural)]
pub struct MessageHeader {
    pub published_at: FrameworkTime,
}

impl MessageHeader {
    pub fn new(published_at: FrameworkTime) -> (r: Self)
        ensures
            r.published_at == published_at,
    {
        MessageHeader { published_at }
    }
}

impl Default for MessageHeader {
    /// A message that was not published yet carries the invalid time.
    fn default() -> (r: Self)
        ensures
            r.published_at.nanoseconds == i64::MIN,
    {
        MessageHeader { published_at: FrameworkTime::invalid() }
    }
}

/// Contiguous message struct for payload and header.
/// Meant for allocation in arenas.
#[derive(Debug)]
pub struct Message<T> {
    pub header: MessageHeader,
    pub message: T,
}

impl<T> Message<T> {
    /// A message that was not published yet.
    pub fn unpublished(message: T) -> (r: Self)
        ensures
            r.message == message,
            r.header.published_at.nanoseconds == i64::MIN,
    {
        Message { header: MessageHeader::default(), message }
    }
}

impl<T: Clone> Clone for Message<T> {
    fn clone(&self) -> (r: Self)
        ensures
            r.header == self.header,
            call_ensures(T::clone, (&self.message,), r.message),
    {
        Message { header: self.header, message: self.message.clone() }
    }
}

/// A payload with a default makes the message have one.
impl<T: Default> Default for Message<T> {
    fn default() -> (r: Self)
        ensures
            r.header.published_at.nanoseconds == i64::MIN,
            call_ensures(T::default, (), r.message),
    {
        Message { header: MessageHeader::default(), message: T::default() }
    }
}

} // verus!
