//! Identities of callback nodes and where ready ones are announced.
use vstd::prelude::*;
use vstd::std_specs::convert::FromSpecImpl;

verus! {

#[derive(Debug, Clone, Copy, PartialEq, Eq, Structural, Hash)]
pub struct CallbackNodeId(pub usize);

impl FromSpecImpl<usize> for CallbackNodeId {
    open spec fn obeys_from_spec() -> bool {
        true
    }

    open spec fn from_spec(value: usize) -> CallbackNodeId {
        CallbackNodeId(value)
    }
}

impl From<usize> for CallbackNodeId {
    fn from(value: usize) -> (r: Self) {
        CallbackNodeId(value)
    }
}

impl FromSpecImpl<CallbackNodeId> for usize {
    open spec fn obeys_from_spec() -> bool {
        true
    }

    open spec fn from_spec(value: CallbackNodeId) -> usize {
        value.0
    }
}

impl From<CallbackNodeId> for usize {
    fn from(value: CallbackNodeId) -> (r: Self) {
        value.0
    }
}

/// Where a flush announces the nodes whose inputs became ready.
pub trait ReadyNodeSink {
    fn schedule(&mut self, node: CallbackNodeId);
}

/// A sink for flushes whose announcements nobody needs.
#[derive(Default)]
pub struct NoopReadyNodeSink;

impl ReadyNodeSink for NoopReadyNodeSink {
    fn schedule(&mut self, node: CallbackNodeId) {
    }
}

} // verus!
