//! What a callback is told about the run it is in.
use vstd::prelude::*;

use crate::string_interner::{CallbackNameTag, ChannelNameTag, StringInterner};
use crate::time::FrameworkTime;

verus! {

#[derive(Debug)]
pub struct Context<'a> {
    /// Current framework time, frozen at time of execution.
    pub now: FrameworkTime,
    /// Interned channel names, frozen at graph build time.
    pub channel_names: &'a StringInterner<ChannelNameTag>,
    /// Interned callback names, frozen at graph build time.
    pub callback_names: &'a StringInterner<CallbackNameTag>,
}

impl<'a> Context<'a> {
    pub fn new(
        now: FrameworkTime,
        channel_names: &'a StringInterner<ChannelNameTag>,
        callback_names: &'a StringInterner<CallbackNameTag>,
    ) -> (r: Self)
        ensures
            r.now == now,
            *r.channel_names == *channel_names,
            *r.callback_names == *callback_names,
    {
        Context { now, channel_names, callback_names }
    }

    pub fn now(&self) -> (r: FrameworkTime)
        ensures
            r == self.now,
    {
        self.now
    }

    pub fn channel_names(&self) -> (r: &'a StringInterner<ChannelNameTag>)
        ensures
            *r == *self.channel_names,
    {
        self.channel_names
    }

    pub fn callback_names(&self) -> (r: &'a StringInterner<CallbackNameTag>)
        ensures
            *r == *self.callback_names,
    {
        self.callback_names
    }
}

} // verus!
