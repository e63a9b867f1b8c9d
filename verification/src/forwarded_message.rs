//! Messages that carry another message along.
use vstd::prelude::*;

use crate::message::Message;

verus! {

/// A single forwarded message: extra data, and the message that is forwarded.
///
/// If no extra data is required, use `()` as the extra data type.
pub struct ForwardedMessage<UserData, ForwardedData> {
    pub message: UserData,
    pub forwarded_message: Box<Message<ForwardedData>>,
}

impl<UserData, ForwardedData> ForwardedMessage<UserData, ForwardedData> {
    pub fn new_boxed_forward(
        message: UserData,
        forwarded_message: Box<Message<ForwardedData>>,
    ) -> (r: Self)
        ensures
            r.message == message,
            r.forwarded_message == forwarded_message,
    {
        ForwardedMessage { message, forwarded_message }
    }

    pub fn get_message(&self) -> (r: &UserData)
        ensures
            *r == self.message,
    {
        &self.message
    }

    pub fn get_message_mut(&mut self) -> (r: &mut UserData)
        ensures
            *r == old(self).message,
            *final(self) == (ForwardedMessage { message: *final(r), ..*old(self) }),
    {
        &mut self.message
    }

    pub fn get_forwarded_message(&self) -> (r: &Message<ForwardedData>)
        ensures
            *r == *self.forwarded_message,
    {
        &self.forwarded_message
    }
}

/// Extra data with which messages of a payload type are forwarded.
pub trait Forwards<ForwardedData>: Sized {
    /// The number that identifies the messages that carry both.
    spec fn forwarding_tag() -> u64;

    fn forwarding_value_type() -> (r: u64)
        ensures
            r == Self::forwarding_tag(),
    ;
}

impl<UserData: Forwards<ForwardedData>, ForwardedData> ForwardedMessage<UserData, ForwardedData> {
    /// The number that identifies the type of these messages.
    pub fn value_type() -> (r: u64)
        ensures
            r == UserData::forwarding_tag(),
    {
        UserData::forwarding_value_type()
    }
}

impl<UserData: Default, ForwardedData> ForwardedMessage<UserData, ForwardedData> {
    /// Forwards a message with default extra data.
    pub fn new_with_forward(forwarded_message: Box<Message<ForwardedData>>) -> (r: Self)
        requires
            call_requires(UserData::default, ()),
        ensures
            call_ensures(UserData::default, (), r.message),
            r.forwarded_message == forwarded_message,
    {
        ForwardedMessage { message: UserData::default(), forwarded_message }
    }
}

} // verus!
