//! What the framework asks of any kind of output.
use vstd::prelude::*;

use crate::publisher::{Publisher, PublisherConfig};

verus! {

/// A publisher and a subscriber of one channel carry different payload types.
#[derive(Debug)]
pub struct ConnectionTypeMismatch {}

pub trait GenericPublisher {
    spec fn config_view(&self) -> PublisherConfig;

    spec fn forwarded_view(&self) -> Seq<String>;

    spec fn type_view(&self) -> u64;

    fn config(&self) -> (r: &PublisherConfig)
        ensures
            *r == self.config_view(),
    ;

    /// The channels onto which this publisher forwards messages. The graph
    /// builder uses this to size arenas.
    fn forwarded_channels(&self) -> (r: &Vec<String>)
        ensures
            r@ == self.forwarded_view(),
    ;

    /// Identifies the publisher's payload type.
    fn value_type_id(&self) -> (r: u64)
        ensures
            r == self.type_view(),
    ;
}

impl<T> GenericPublisher for Publisher<T> {
    open spec fn config_view(&self) -> PublisherConfig {
        self.config
    }

    open spec fn forwarded_view(&self) -> Seq<String> {
        self.forwarded_channels@
    }

    open spec fn type_view(&self) -> u64 {
        self.value_type
    }

    fn config(&self) -> (r: &PublisherConfig) {
        &self.config
    }

    fn forwarded_channels(&self) -> (r: &Vec<String>) {
        &self.forwarded_channels
    }

    fn value_type_id(&self) -> (r: u64) {
        self.value_type
    }
}

} // verus!
