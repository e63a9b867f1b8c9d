//! How a callback reads its inputs.
//!
//! A view names one of the callback's subscribers; the messages themselves
//! stay in the pub/sub system.
use vstd::prelude::*;

use crate::message::Message;
use crate::output::{
    ForwardedOutput, ForwardedOutputSpan, ForwardingOutput, Output, OutputSpan,
};
use crate::pub_sub::PubSub;

verus! {

/// The messages that a subscriber's callback can read, oldest first.
pub open spec fn inputs_of<T>(system: PubSub<T>, subscriber: usize) -> Seq<Message<T>> {
    system.subscribers@[subscriber as int].buffers.readable().map_values(
        |r: (usize, u64)| system.entry(r).message,
    )
}

/// An input that has a value.
#[derive(Debug, Clone, Copy, PartialEq, Eq, Structural)]
pub struct RequiredInput {
    pub subscriber: usize,
}

impl RequiredInput {
    /// The input must have a value.
    pub fn new<T>(system: &PubSub<T>, subscriber: usize) -> (r: Self)
        requires
            subscriber < system.subscribers@.len(),
            inputs_of(*system, subscriber).len() > 0,
        ensures
            r.subscriber == subscriber,
    {
        RequiredInput { subscriber }
    }

    /// The oldest message's payload.
    pub fn value<'a, T>(&self, system: &'a PubSub<T>) -> (r: &'a T)
        requires
            system.wf(),
            self.subscriber < system.subscribers@.len(),
            inputs_of(*system, self.subscriber).len() > 0,
        ensures
            *r == inputs_of(*system, self.subscriber)[0].message,
    {
        &system.read_at(self.subscriber, 0).message
    }
}

/// An input that may have a value.
#[derive(Debug, Clone, Copy, PartialEq, Eq, Structural)]
pub struct OptionalInput {
    pub subscriber: usize,
}

impl OptionalInput {
    pub fn new(subscriber: usize) -> (r: Self)
        ensures
            r.subscriber == subscriber,
    {
        OptionalInput { subscriber }
    }

    /// The oldest message's payload, if there is one.
    pub fn value<'a, T>(&self, system: &'a PubSub<T>) -> (r: Option<&'a T>)
        requires
            system.wf(),
            self.subscriber < system.subscribers@.len(),
        ensures
            r is Some <==> inputs_of(*system, self.subscriber).len() > 0,
            r matches Some(value) ==> *value == inputs_of(*system, self.subscriber)[0].message,
    {
        match system.front(self.subscriber) {
            Some(message) => Some(&message.message),
            None => None,
        }
    }

    /// Consumes the oldest message, if there is one.
    pub fn clear<T>(&self, system: &mut PubSub<T>)
        requires
            old(system).wf(),
            self.subscriber < old(system).subscribers@.len(),
        ensures
            final(system).wf(),
            final(system).readiness == old(system).readiness,
            final(system).only_reader_changed(*old(system), self.subscriber as int),
            final(system).subscribers@[self.subscriber as int].buffers.pending() == old(
                system).subscribers@[self.subscriber as int].buffers.pending(),
            inputs_of(*final(system), self.subscriber) == if inputs_of(
                *old(system),
                self.subscriber,
            ).len() > 0 {
                inputs_of(*old(system), self.subscriber).skip(1)
            } else {
                inputs_of(*old(system), self.subscriber)
            },
    {
        let ghost before = *system;
        let _ = system.pop_front(self.subscriber);
        proof {
            let s = self.subscriber as int;
            let kept = system.subscribers@[s].buffers.readable();
            assert forall|i: int| 0 <= i < kept.len() implies system.entry(#[trigger] kept[i])
                == before.entry(kept[i]) by {
                assert(system.subscribers@[s].held()[i] == kept[i]);
                system.lemma_queued_is_live(s, i);
            }
        }
    }
}

/// Every message of an input.
#[derive(Debug, Clone, Copy, PartialEq, Eq, Structural)]
pub struct InputSpan {
    pub subscriber: usize,
}

impl InputSpan {
    pub fn new(subscriber: usize) -> (r: Self)
        ensures
            r.subscriber == subscriber,
    {
        InputSpan { subscriber }
    }

    /// The messages, oldest first.
    pub fn inputs<'a, T>(&self, system: &'a PubSub<T>) -> (r: Vec<&'a Message<T>>)
        requires
            system.wf(),
            self.subscriber < system.subscribers@.len(),
        ensures
            r@.len() == inputs_of(*system, self.subscriber).len(),
            forall|i: int|
                0 <= i < r@.len() ==> *(#[trigger] r@[i]) == inputs_of(
                    *system,
                    self.subscriber,
                )[i],
    {
        let mut messages: Vec<&'a Message<T>> = Vec::new();
        let count: usize =
            system.subscribers[self.subscriber].buffers.read_buffer.storage.len();
        let mut i: usize = 0;
        while i < count
            invariant
                system.wf(),
                self.subscriber < system.subscribers@.len(),
                i <= count,
                count == inputs_of(*system, self.subscriber).len(),
                messages@.len() == i,
                forall|j: int|
                    0 <= j < i ==> *(#[trigger] messages@[j]) == inputs_of(
                        *system,
                        self.subscriber,
                    )[j],
            decreases count - i,
        {
            messages.push(system.read_at(self.subscriber, i));
            i = i + 1;
        }
        messages
    }

    /// Consumes the messages, so that later runs see a fresh buffer.
    pub fn drain_inputs<T>(&self, system: &mut PubSub<T>)
        requires
            old(system).wf(),
            self.subscriber < old(system).subscribers@.len(),
        ensures
            final(system).wf(),
            final(system).readiness == old(system).readiness,
            final(system).only_reader_changed(*old(system), self.subscriber as int),
            inputs_of(*final(system), self.subscriber).len() == 0,
            final(system).subscribers@[self.subscriber as int].buffers.pending() == old(
                system).subscribers@[self.subscriber as int].buffers.pending(),
    {
        system.drain_inputs(self.subscriber);
    }
}

/// Whether `output` is a new loan of `publisher` that holds `payload` and
/// forwards the oldest message that `subscriber` could read, which is consumed
/// and stays alive as long as the loan.
pub open spec fn forwards_oldest<T>(
    before: PubSub<T>,
    after: PubSub<T>,
    subscriber: usize,
    publisher: usize,
    payload: T,
    output: ForwardedOutput,
) -> bool {
    let readable = before.subscribers@[subscriber as int].buffers.readable();
    &&& after.wf()
    &&& after.readiness == before.readiness
    &&& after.subscribers@.len() == before.subscribers@.len()
    &&& forall|q: int|
        0 <= q < before.subscribers@.len() && q != subscriber ==> #[trigger] after.subscribers@[q]
            == before.subscribers@[q]
    &&& crate::callback::same_but_read(
        after.subscribers@[subscriber as int],
        before.subscribers@[subscriber as int],
    )
    &&& after.subscribers@[subscriber as int].buffers.readable() == readable.skip(1)
    &&& after.loaned_one_more(
        before,
        publisher as int,
        crate::pub_sub_io::unpublished(payload, Some(readable[0])),
    )
    &&& after.live(readable[0])
    &&& output.inner.publisher == publisher
    &&& output.inner.loaned_value_idx == before.publishers@[publisher as int].loaned_values@.len()
    &&& output.inner.stands_in(after)
}

/// An input that has a value, which can be forwarded.
#[derive(Debug, Clone, Copy, PartialEq, Eq, Structural)]
pub struct ForwardableRequiredInput {
    pub input: RequiredInput,
}

impl ForwardableRequiredInput {
    /// The input must have a value.
    pub fn new<T>(system: &PubSub<T>, subscriber: usize) -> (r: Self)
        requires
            subscriber < system.subscribers@.len(),
            inputs_of(*system, subscriber).len() > 0,
        ensures
            r.input.subscriber == subscriber,
    {
        ForwardableRequiredInput { input: RequiredInput::new(system, subscriber) }
    }

    pub fn value<'a, T>(&self, system: &'a PubSub<T>) -> (r: &'a T)
        requires
            system.wf(),
            self.input.subscriber < system.subscribers@.len(),
            inputs_of(*system, self.input.subscriber).len() > 0,
        ensures
            *r == inputs_of(*system, self.input.subscriber)[0].message,
    {
        self.input.value(system)
    }

    /// Loans a message that forwards the oldest message.
    pub fn forward<T>(
        self,
        system: &mut PubSub<T>,
        output: &ForwardingOutput,
        payload: T,
    ) -> (r: ForwardedOutput)
        requires
            old(system).wf(),
            self.input.subscriber < old(system).subscribers@.len(),
            inputs_of(*old(system), self.input.subscriber).len() > 0,
            output.publisher < old(system).publishers@.len(),
            old(system).loan_left(output.publisher as int),
        ensures
            forwards_oldest(
                *old(system),
                *final(system),
                self.input.subscriber,
                output.publisher,
                payload,
                r,
            ),
    {
        let index: usize = match system.forward(self.input.subscriber, output.publisher, payload) {
            Some(Ok(index)) => index,
            _ => 0,
        };
        ForwardedOutput {
            inner: Output { publisher: output.publisher, loaned_value_idx: index },
        }
    }
}

/// An input that may have a value, which can be forwarded.
#[derive(Debug, Clone, Copy, PartialEq, Eq, Structural)]
pub struct ForwardableOptionalInput {
    pub input: OptionalInput,
}

impl ForwardableOptionalInput {
    pub fn new(subscriber: usize) -> (r: Self)
        ensures
            r.input.subscriber == subscriber,
    {
        ForwardableOptionalInput { input: OptionalInput::new(subscriber) }
    }

    pub fn value<'a, T>(&self, system: &'a PubSub<T>) -> (r: Option<&'a T>)
        requires
            system.wf(),
            self.input.subscriber < system.subscribers@.len(),
        ensures
            r is Some <==> inputs_of(*system, self.input.subscriber).len() > 0,
            r matches Some(value) ==> *value == inputs_of(
                *system,
                self.input.subscriber,
            )[0].message,
    {
        self.input.value(system)
    }

    /// Consumes the oldest message, if there is one.
    pub fn clear<T>(&self, system: &mut PubSub<T>)
        requires
            old(system).wf(),
            self.input.subscriber < old(system).subscribers@.len(),
        ensures
            final(system).wf(),
            final(system).readiness == old(system).readiness,
            final(system).only_reader_changed(*old(system), self.input.subscriber as int),
            final(system).subscribers@[self.input.subscriber as int].buffers.pending() == old(
                system).subscribers@[self.input.subscriber as int].buffers.pending(),
            inputs_of(*final(system), self.input.subscriber) == if inputs_of(
                *old(system),
                self.input.subscriber,
            ).len() > 0 {
                inputs_of(*old(system), self.input.subscriber).skip(1)
            } else {
                inputs_of(*old(system), self.input.subscriber)
            },
    {
        self.input.clear(system);
    }

    /// Loans a message that forwards the oldest message, if there is one.
    pub fn forward<T>(
        self,
        system: &mut PubSub<T>,
        output: &ForwardingOutput,
        payload: T,
    ) -> (r: Option<ForwardedOutput>)
        requires
            old(system).wf(),
            self.input.subscriber < old(system).subscribers@.len(),
            output.publisher < old(system).publishers@.len(),
            old(system).loan_left(output.publisher as int),
        ensures
            r is Some <==> inputs_of(*old(system), self.input.subscriber).len() > 0,
            r is None ==> *final(system) == *old(system),
            r matches Some(forwarded) ==> forwards_oldest(
                *old(system),
                *final(system),
                self.input.subscriber,
                output.publisher,
                payload,
                forwarded,
            ),
    {
        if system.subscribers[self.input.subscriber].buffers.read_buffer.storage.len() == 0 {
            return None;
        }
        let index: usize = match system.forward(self.input.subscriber, output.publisher, payload) {
            Some(Ok(index)) => index,
            _ => 0,
        };
        Some(
            ForwardedOutput {
                inner: Output { publisher: output.publisher, loaned_value_idx: index },
            },
        )
    }
}

/// Every message of an input, which can be forwarded.
#[derive(Debug, Clone, Copy, PartialEq, Eq, Structural)]
pub struct ForwardableInputSpan {
    pub input: InputSpan,
}

impl ForwardableInputSpan {
    pub fn new(subscriber: usize) -> (r: Self)
        ensures
            r.input.subscriber == subscriber,
    {
        ForwardableInputSpan { input: InputSpan::new(subscriber) }
    }

    /// Loans as many messages as the output's capacity says; each forwards one
    /// message of the input, oldest first. There have to be enough of them;
    /// those that are left over are dropped.
    pub fn drain_forwards<T>(
        &self,
        system: &mut PubSub<T>,
        output: &ForwardingOutput,
        payloads: Vec<T>,
    ) -> (r: ForwardedOutputSpan)
        requires
            old(system).wf(),
            self.input.subscriber < old(system).subscribers@.len(),
            output.publisher < old(system).publishers@.len(),
            old(system).span_left(output.publisher as int),
            0 < payloads@.len() == old(
                system).publishers@[output.publisher as int].config.capacity,
            inputs_of(*old(system), self.input.subscriber).len() >= payloads@.len(),
        ensures
            final(system).wf(),
            final(system).readiness == old(system).readiness,
            inputs_of(*final(system), self.input.subscriber).len() == 0,
            final(system).subscribers@.len() == old(system).subscribers@.len(),
            forall|q: int|
                0 <= q < old(system).subscribers@.len() && q != self.input.subscriber
                    ==> #[trigger] final(system).subscribers@[q] == old(system).subscribers@[q],
            crate::callback::same_but_read(
                final(system).subscribers@[self.input.subscriber as int],
                old(system).subscribers@[self.input.subscriber as int],
            ),
            final(system).publishers@[output.publisher as int].loaned_values@.len()
                == payloads@.len(),
            final(system).same_ports_but_loans(*old(system), output.publisher as int),
            forall|i: int|
                0 <= i < payloads@.len() ==> final(system).loan_is(
                    output.publisher as int,
                    i,
                    crate::pub_sub_io::unpublished(
                        #[trigger] payloads@[i],
                        Some(
                            old(
                                system).subscribers@[self.input.subscriber as int].buffers.readable()[i],
                        ),
                    ),
                ),
            r.inner.publisher == output.publisher,
            r.inner.loaned_value_idx_start == 0,
            r.inner.loaned_value_idx_end == payloads@.len() - 1,
            r.inner.stands_in(*final(system)),
    {
        let count: usize = payloads.len();
        system.forward_span(self.input.subscriber, output.publisher, payloads);
        ForwardedOutputSpan {
            inner: OutputSpan {
                publisher: output.publisher,
                loaned_value_idx_start: 0,
                loaned_value_idx_end: count - 1,
            },
        }
    }
}

/// What was forwarded can be read where the forwarding message arrives: the
/// message behind a live forwarding message is there.
pub proof fn law_forwarded_message_stays_readable<T>(
    system: PubSub<T>,
    r: (usize, u64),
    f: (usize, u64),
)
    requires
        system.wf(),
        system.live(r),
        system.entry(r).forwarded == Some(f),
    ensures
        system.live(f),
{
    system.lemma_forwarded_is_live(r, f);
}

} // verus!
