//! Classification of a graph's endpoints for transport validation and service
//! sizing.
use vstd::prelude::*;

verus! {

/// Transport and role of an endpoint.
#[derive(Clone, Copy, Debug, PartialEq, Eq, Structural)]
pub enum EndpointKind {
    /// Native subscriber endpoint.
    NativeSub,
    /// Native publisher endpoint.
    NativePub,
    /// Native forwardable input endpoint.
    NativeForwardedSub,
    /// Native forwarding output endpoint.
    NativeForwardingPub,
    /// Shared-memory data input with its port buffer capacity.
    Iox2DataSub { capacity: usize },
    /// Shared-memory data output with its loan capacity, whether sends also
    /// notify the channel's event service, and the notification event id.
    Iox2DataPub { capacity: usize, notify_on_send: bool, event_id: usize },
    /// Shared-memory event input endpoint.
    Iox2EventSub,
    /// Shared-memory notifier endpoint with an integer event identifier.
    Iox2Notifier { event_id: usize },
}

impl EndpointKind {
    /// Whether the endpoint is served by the shared-memory transport.
    pub open spec fn iox2(self) -> bool {
        self is Iox2DataSub || self is Iox2DataPub || self is Iox2EventSub || self is Iox2Notifier
    }

    pub fn is_iox2(&self) -> (r: bool)
        ensures
            r == self.iox2(),
    {
        match self {
            EndpointKind::Iox2DataSub { .. } => true,
            EndpointKind::Iox2DataPub { .. } => true,
            EndpointKind::Iox2EventSub => true,
            EndpointKind::Iox2Notifier { .. } => true,
            _ => false,
        }
    }
}

/// Plain-data description of a channel endpoint.
#[derive(Debug)]
pub struct Iox2EndpointInfo {
    /// Channel name as declared in the graph.
    pub channel: String,
    /// Endpoint transport and role.
    pub kind: EndpointKind,
    /// Payload type for data endpoints, absent for event-only endpoints.
    pub payload_type: Option<u64>,
}

} // verus!
