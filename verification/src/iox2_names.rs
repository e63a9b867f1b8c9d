//! Names and defaults of the shared-memory transport.
use vstd::prelude::*;

verus! {

/// Why a text is no name.
#[derive(Clone, Copy, Debug, PartialEq, Eq, Structural)]
pub enum NameError {
    InvalidContent,
    ExceedsMaximumLength,
}

/// What the bounds on a name's characters and length say of `name`.
pub open spec fn bounded_name_error(name: Seq<char>, max_len: nat) -> Option<NameError> {
    if vstd::utf8::encode_utf8(name).len() > max_len {
        Some(NameError::ExceedsMaximumLength)
    } else if exists|i: int|
        0 <= i < name.len() && ((#[trigger] name[i]) as u32 == 0 || name[i] as u32 >= 128) {
        Some(NameError::InvalidContent)
    } else {
        None
    }
}

/// Why `name` is no service name, if it is none: it is empty, it has the prefix
/// of internal services, it is longer than 255 bytes, or it holds a null
/// character or one beyond ASCII.
pub open spec fn service_name_error(name: Seq<char>) -> Option<NameError> {
    if "iox2://"@.is_prefix_of(name) || name.len() == 0 {
        Some(NameError::InvalidContent)
    } else {
        bounded_name_error(name, 255)
    }
}

/// Why `name` is no node name, if it is none: it is longer than 128 bytes, or
/// it holds a null character or one beyond ASCII.
pub open spec fn node_name_error(name: Seq<char>) -> Option<NameError> {
    bounded_name_error(name, 128)
}

/// Calls `ServiceName::new` of iceoryx2 and takes the name's text back out.
/// Believed: it refuses exactly the names for which `service_name_error` gives
/// an error, with that error, and keeps the text of the others.
#[verifier::external_body]
pub(crate) fn checked_service_name(name: &str) -> (r: Result<String, NameError>)
    ensures
        r is Ok <==> service_name_error(name@) is None,
        r matches Ok(text) ==> text@ == name@,
        r matches Err(error) ==> service_name_error(name@) == Some(error),
{
    match iceoryx2::service::service_name::ServiceName::new(name) {
        Ok(name) => Ok(name.as_str().to_owned()),
        Err(iceoryx2::service::service_name::ServiceNameError::InvalidContent) => Err(
            NameError::InvalidContent,
        ),
        Err(iceoryx2::service::service_name::ServiceNameError::ExceedsMaximumLength) => Err(
            NameError::ExceedsMaximumLength,
        ),
    }
}

/// Calls `NodeName::new` of iceoryx2 and takes the name's text back out.
/// Believed: it refuses exactly the names for which `node_name_error` gives an
/// error, with that error, and keeps the text of the others.
#[verifier::external_body]
pub(crate) fn checked_node_name(name: &str) -> (r: Result<String, NameError>)
    ensures
        r is Ok <==> node_name_error(name@) is None,
        r matches Ok(text) ==> text@ == name@,
        r matches Err(error) ==> node_name_error(name@) == Some(error),
{
    match iceoryx2::node::node_name::NodeName::new(name) {
        Ok(name) => Ok(name.as_str().to_owned()),
        Err(iceoryx2::prelude::SemanticStringError::InvalidContent) => Err(
            NameError::InvalidContent,
        ),
        Err(iceoryx2::prelude::SemanticStringError::ExceedsMaximumLength) => Err(
            NameError::ExceedsMaximumLength,
        ),
    }
}

/// The limits that the transport gives a service unless it is told otherwise.
#[derive(Clone, Copy, Debug, PartialEq, Eq, Structural)]
pub struct ServiceDefaults {
    pub max_publishers: usize,
    pub max_subscribers: usize,
    pub max_pubsub_nodes: usize,
    pub max_notifiers: usize,
    pub max_listeners: usize,
    pub max_event_nodes: usize,
}

/// Calls `Config::default` of iceoryx2 and reads the limits out of it.
/// Believed: the limits are these numbers.
#[verifier::external_body]
pub(crate) fn service_defaults() -> (r: ServiceDefaults)
    ensures
        r == (ServiceDefaults {
            max_publishers: 2,
            max_subscribers: 8,
            max_pubsub_nodes: 20,
            max_notifiers: 16,
            max_listeners: 16,
            max_event_nodes: 36,
        }),
{
    let defaults = iceoryx2::config::Config::default().defaults;
    ServiceDefaults {
        max_publishers: defaults.publish_subscribe.max_publishers,
        max_subscribers: defaults.publish_subscribe.max_subscribers,
        max_pubsub_nodes: defaults.publish_subscribe.max_nodes,
        max_notifiers: defaults.event.max_notifiers,
        max_listeners: defaults.event.max_listeners,
        max_event_nodes: defaults.event.max_nodes,
    }
}

} // verus!
