//! How a callback writes its outputs.
//!
//! A view names a loaned message of one of the callback's publishers; the
//! message itself stays in the pub/sub system until it is flushed.
use vstd::prelude::*;

use crate::pub_sub::PubSub;

verus! {

/// What a callback reads and writes of one loan.
pub open spec fn loaned_payload<T>(system: PubSub<T>, publisher: usize, index: usize) -> T {
    system.entry(system.loan_ref(publisher as int, index as int)).message.message
}

/// One message that is about to be sent.
#[derive(Debug, Clone, Copy, PartialEq, Eq, Structural)]
pub struct Output {
    pub publisher: usize,
    pub loaned_value_idx: usize,
}

impl Output {
    /// Whether the loan is there.
    pub open spec fn stands_in<T>(self, system: PubSub<T>) -> bool {
        &&& self.publisher < system.publishers@.len()
        &&& self.loaned_value_idx < system.publishers@[self.publisher as int].loaned_values@.len()
    }

    /// Loans a message that holds `initial`. There has to be a loan left.
    pub fn new_default<T>(system: &mut PubSub<T>, publisher: usize, initial: T) -> (r: Self)
        requires
            old(system).wf(),
            publisher < old(system).publishers@.len(),
            old(system).loan_left(publisher as int),
        ensures
            final(system).wf(),
            final(system).subscribers == old(system).subscribers,
            final(system).readiness == old(system).readiness,
            final(system).loaned_one_more(
                *old(system),
                publisher as int,
                crate::pub_sub_io::unpublished(initial, None),
            ),
            r.publisher == publisher,
            r.loaned_value_idx == old(system).publishers@[publisher as int].loaned_values@.len(),
            r.stands_in(*final(system)),
            loaned_payload(*final(system), r.publisher, r.loaned_value_idx) == initial,
    {
        match system.loan_with(publisher, initial) {
            Ok(loaned_value_idx) => Output { publisher, loaned_value_idx },
            Err(_) => Output { publisher, loaned_value_idx: 0 },
        }
    }

    pub fn value<'a, T>(&self, system: &'a PubSub<T>) -> (r: &'a T)
        requires
            system.wf(),
            self.stands_in(*system),
        ensures
            *r == loaned_payload(*system, self.publisher, self.loaned_value_idx),
    {
        &system.loaned_message(self.publisher, self.loaned_value_idx).message
    }

    /// The value that will be sent, to be changed in place.
    pub fn value_mut<'a, T>(&self, system: &'a mut PubSub<T>) -> (r: &'a mut T)
        requires
            old(system).wf(),
            self.stands_in(*old(system)),
        ensures
            *r == loaned_payload(*old(system), self.publisher, self.loaned_value_idx),
            rewritten(*old(system), *final(system), *self, *final(r)),
    {
        proof {
            let p = self.publisher as int;
            assert(system.publishers@[p].arena.refs(
                system.publishers@[p].loaned_values@[self.loaned_value_idx as int].ptr.slot as int,
            ) == 1);
        }
        system.loaned_payload_mut(self.publisher, self.loaned_value_idx)
    }

    /// Lets the next flush publish the message.
    pub fn send<T>(self, system: &mut PubSub<T>)
        requires
            old(system).wf(),
            self.stands_in(*old(system)),
        ensures
            final(system).wf(),
            crate::output::sent(*old(system), *final(system), self.publisher, self.loaned_value_idx),
    {
        system.mark_loan_sent(self.publisher, self.loaned_value_idx);
    }
}

/// Whether `after` is `before` with `value` as what the output will send.
pub open spec fn rewritten<T>(before: PubSub<T>, after: PubSub<T>, output: Output, value: T) -> bool {
    &&& after.wf()
    &&& output.stands_in(after)
    &&& loaned_payload(after, output.publisher, output.loaned_value_idx) == value
    &&& after.rewritten(before, output.publisher, output.loaned_value_idx, value)
}

/// Whether `after` is `before` with one loan marked as sent.
pub open spec fn sent<T>(
    before: PubSub<T>,
    after: PubSub<T>,
    publisher: usize,
    index: usize,
) -> bool {
    let p = publisher as int;
    let loans = before.publishers@[p].loaned_values@;
    &&& after.subscribers == before.subscribers
    &&& after.readiness == before.readiness
    &&& after.publishers@.len() == before.publishers@.len()
    &&& forall|q: int|
        0 <= q < before.publishers@.len() && q != p ==> #[trigger] after.publishers@[q]
            == before.publishers@[q]
    &&& crate::pub_sub::same_port(after.publishers@[p], before.publishers@[p])
    &&& after.publishers@[p].arena == before.publishers@[p].arena
    &&& after.publishers@[p].loaned_values@ == loans.update(
        index as int,
        crate::publisher::LoanedValue { ptr: loans[index as int].ptr, sent: true },
    )
}

/// As many messages as the publisher's capacity says.
#[derive(Debug, Clone, Copy, PartialEq, Eq, Structural)]
pub struct OutputSpan {
    pub publisher: usize,
    pub loaned_value_idx_start: usize,
    /// The last loan of the span.
    pub loaned_value_idx_end: usize,
}

impl OutputSpan {
    /// Whether the loans are there.
    pub open spec fn stands_in<T>(self, system: PubSub<T>) -> bool {
        &&& self.publisher < system.publishers@.len()
        &&& self.loaned_value_idx_start <= self.loaned_value_idx_end
        &&& self.loaned_value_idx_end
            < system.publishers@[self.publisher as int].loaned_values@.len()
    }

    /// Loans messages with the given payloads. The publisher has to have all
    /// its loans left.
    pub fn new<T>(system: &mut PubSub<T>, publisher: usize, initial: Vec<T>) -> (r: Self)
        requires
            old(system).wf(),
            publisher < old(system).publishers@.len(),
            old(system).span_left(publisher as int),
            0 < initial@.len() == old(system).publishers@[publisher as int].config.capacity,
        ensures
            final(system).wf(),
            final(system).subscribers == old(system).subscribers,
            final(system).readiness == old(system).readiness,
            final(system).loaned_span(
                *old(system),
                publisher as int,
                initial@.map_values(|payload: T| crate::pub_sub_io::unpublished(payload, None)),
            ),
            r.publisher == publisher,
            r.loaned_value_idx_start == 0,
            r.loaned_value_idx_end == initial@.len() - 1,
            r.stands_in(*final(system)),
    {
        let count: usize = initial.len();
        system.loan_span(publisher, initial);
        OutputSpan { publisher, loaned_value_idx_start: 0, loaned_value_idx_end: count - 1 }
    }

    /// The values that will be sent.
    pub fn outputs<'a, T>(&self, system: &'a PubSub<T>) -> (r: Vec<&'a T>)
        requires
            system.wf(),
            self.stands_in(*system),
        ensures
            r@.len() == self.loaned_value_idx_end - self.loaned_value_idx_start + 1,
            forall|i: int|
                0 <= i < r@.len() ==> *(#[trigger] r@[i]) == loaned_payload(
                    *system,
                    self.publisher,
                    (self.loaned_value_idx_start + i) as usize,
                ),
    {
        let mut values: Vec<&'a T> = Vec::new();
        let mut i: usize = self.loaned_value_idx_start;
        assert(system.publishers@[self.publisher as int].loaned_values.len()
            == system.publishers@[self.publisher as int].loaned_values@.len());
        while i <= self.loaned_value_idx_end
            invariant
                system.wf(),
                self.stands_in(*system),
                self.loaned_value_idx_start <= i <= self.loaned_value_idx_end + 1,
                self.loaned_value_idx_end < usize::MAX,
                values@.len() == i - self.loaned_value_idx_start,
                forall|j: int|
                    0 <= j < values@.len() ==> *(#[trigger] values@[j]) == loaned_payload(
                        *system,
                        self.publisher,
                        (self.loaned_value_idx_start + j) as usize,
                    ),
            decreases self.loaned_value_idx_end + 1 - i,
        {
            values.push(&system.loaned_message(self.publisher, i).message);
            i = i + 1;
        }
        values
    }

    /// One message of the span.
    pub fn output_at<T>(&self, system: &PubSub<T>, index: usize) -> (r: Output)
        requires
            self.stands_in(*system),
            index <= self.loaned_value_idx_end - self.loaned_value_idx_start,
        ensures
            r.publisher == self.publisher,
            r.loaned_value_idx == self.loaned_value_idx_start + index,
            r.stands_in(*system),
    {
        Output {
            publisher: self.publisher,
            loaned_value_idx: self.loaned_value_idx_start + index,
        }
    }
}

/// A publisher whose messages forward messages of an input.
#[derive(Debug, Clone, Copy, PartialEq, Eq, Structural)]
pub struct ForwardingOutput {
    pub publisher: usize,
}

impl ForwardingOutput {
    pub fn new(publisher: usize) -> (r: Self)
        ensures
            r.publisher == publisher,
    {
        ForwardingOutput { publisher }
    }
}

/// A loaned message that forwards another one.
#[derive(Debug, Clone, Copy, PartialEq, Eq, Structural)]
pub struct ForwardedOutput {
    pub inner: Output,
}

impl ForwardedOutput {
    pub fn value<'a, T>(&self, system: &'a PubSub<T>) -> (r: &'a T)
        requires
            system.wf(),
            self.inner.stands_in(*system),
        ensures
            *r == loaned_payload(*system, self.inner.publisher, self.inner.loaned_value_idx),
    {
        self.inner.value(system)
    }

    /// The value that will be sent, to be changed in place.
    pub fn value_mut<'a, T>(&self, system: &'a mut PubSub<T>) -> (r: &'a mut T)
        requires
            old(system).wf(),
            self.inner.stands_in(*old(system)),
        ensures
            *r == loaned_payload(
                *old(system),
                self.inner.publisher,
                self.inner.loaned_value_idx,
            ),
            rewritten(*old(system), *final(system), self.inner, *final(r)),
    {
        self.inner.value_mut(system)
    }

    /// Lets the next flush publish the message.
    pub fn send<T>(self, system: &mut PubSub<T>)
        requires
            old(system).wf(),
            self.inner.stands_in(*old(system)),
        ensures
            final(system).wf(),
            sent(
                *old(system),
                *final(system),
                self.inner.publisher,
                self.inner.loaned_value_idx,
            ),
    {
        self.inner.send(system);
    }
}

/// Loaned messages that forward other ones.
#[derive(Debug, Clone, Copy, PartialEq, Eq, Structural)]
pub struct ForwardedOutputSpan {
    pub inner: OutputSpan,
}

impl ForwardedOutputSpan {
    /// The values that will be sent.
    pub fn outputs<'a, T>(&self, system: &'a PubSub<T>) -> (r: Vec<&'a T>)
        requires
            system.wf(),
            self.inner.stands_in(*system),
        ensures
            r@.len() == self.inner.loaned_value_idx_end - self.inner.loaned_value_idx_start + 1,
            forall|i: int|
                0 <= i < r@.len() ==> *(#[trigger] r@[i]) == loaned_payload(
                    *system,
                    self.inner.publisher,
                    (self.inner.loaned_value_idx_start + i) as usize,
                ),
    {
        self.inner.outputs(system)
    }
}

} // verus!
