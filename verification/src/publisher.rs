//! The sending end of a channel.
use vstd::prelude::*;

use crate::arena::{Arena, ArenaPtr};
use crate::message::Message;
use crate::readiness::SubscriberReadiness;
use crate::refs::MessageRef;

verus! {

#[derive(Debug, Clone, Copy, PartialEq, Eq, Structural)]
pub enum LoanError {
    LoanCapacityReached,
}

#[derive(Debug)]
pub struct SendError;

#[derive(Debug)]
pub struct PublisherConfig {
    pub capacity: usize,
    pub channel_name: String,
}

impl Clone for PublisherConfig {
    fn clone(&self) -> (r: Self)
        ensures
            r == *self,
    {
        PublisherConfig { capacity: self.capacity, channel_name: self.channel_name.clone() }
    }
}

/// A message on loan: its slot, and whether the next flush publishes it.
pub struct LoanedValue {
    pub ptr: ArenaPtr,
    pub sent: bool,
}

/// What an arena slot holds: the message, and the message that it forwards.
pub struct Entry<T> {
    pub message: Message<T>,
    pub forwarded: Option<MessageRef>,
}

/// A connected subscriber as the publisher knows it.
#[derive(Debug, Clone, Copy)]
pub struct SubscriberBuffer {
    pub subscriber: usize,
    /// Readiness role for the target node: a gating bit to set for required
    /// inputs, or a bit-less nudge for optional + trigger inputs.
    pub readiness: Option<SubscriberReadiness>,
}

/// The references that a publisher's loans are.
pub open spec fn loan_refs(publisher: int, loans: Seq<LoanedValue>) -> Seq<(usize, u64)> {
    loans.map_values(|loan: LoanedValue| (publisher as usize, loan.ptr.slot as u64))
}

/// The reference that one slot's message forwards.
pub open spec fn slot_forward<T>(slot: crate::arena::ArenaSlot<Entry<T>>) -> Seq<(usize, u64)> {
    match slot.payload {
        Some(entry) => match entry.forwarded {
            Some(r) => seq![r],
            None => Seq::empty(),
        },
        None => Seq::empty(),
    }
}

/// The references that an arena's messages forward.
pub open spec fn forwards<T>(storage: Seq<crate::arena::ArenaSlot<Entry<T>>>) -> Seq<(usize, u64)>
    decreases storage.len(),
{
    if storage.len() == 0 {
        Seq::empty()
    } else {
        forwards(storage.drop_last()) + slot_forward(storage.last())
    }
}

pub proof fn lemma_forwards_update<T>(
    storage: Seq<crate::arena::ArenaSlot<Entry<T>>>,
    i: int,
    slot: crate::arena::ArenaSlot<Entry<T>>,
    r: (usize, u64),
)
    requires
        0 <= i < storage.len(),
    ensures
        crate::refs::count(forwards(storage.update(i, slot)), r) == crate::refs::count(
            forwards(storage),
            r,
        ) - crate::refs::count(slot_forward(storage[i]), r) + crate::refs::count(
            slot_forward(slot),
            r,
        ),
        forwards(storage.update(i, slot)).len() == forwards(storage).len() - slot_forward(
            storage[i],
        ).len() + slot_forward(slot).len(),
        forwards(storage).len() >= slot_forward(storage[i]).len(),
    decreases storage.len(),
{
    let updated = storage.update(i, slot);
    crate::refs::lemma_count_add(forwards(storage.drop_last()), slot_forward(storage.last()), r);
    crate::refs::lemma_count_add(forwards(updated.drop_last()), slot_forward(updated.last()), r);
    if i == storage.len() - 1 {
        assert(updated.drop_last() =~= storage.drop_last());
    } else {
        lemma_forwards_update(storage.drop_last(), i, slot, r);
        assert(updated.drop_last() =~= storage.drop_last().update(i, slot));
    }
}

/// Slots without a message forward nothing.
pub proof fn lemma_no_forwards<T>(storage: Seq<crate::arena::ArenaSlot<Entry<T>>>)
    requires
        forall|i: int| 0 <= i < storage.len() ==> (#[trigger] storage[i]).payload is None,
    ensures
        forwards(storage).len() == 0,
    decreases storage.len(),
{
    if storage.len() > 0 {
        lemma_no_forwards(storage.drop_last());
    }
}

/// The slots with the payload of the message in slot `i` replaced.
pub open spec fn with_payload<T>(
    storage: Seq<crate::arena::ArenaSlot<Entry<T>>>,
    i: int,
    payload: T,
) -> Seq<crate::arena::ArenaSlot<Entry<T>>> {
    storage.update(
        i,
        crate::arena::ArenaSlot {
            ref_count: storage[i].ref_count,
            payload: Some(
                Entry {
                    message: Message {
                        header: storage[i].payload->0.message.header,
                        message: payload,
                    },
                    forwarded: storage[i].payload->0.forwarded,
                },
            ),
        },
    )
}

/// The sending end of a channel: an arena of messages, those on loan, and the
/// subscribers that a flush reaches.
pub struct Publisher<T> {
    pub config: PublisherConfig,
    /// Identifies the payload type that the publisher sends.
    pub value_type: u64,
    pub loaned_values: Vec<LoanedValue>,
    pub connections: Vec<SubscriberBuffer>,
    pub arena: Arena<Entry<T>>,
    /// The channels onto which this publisher forwards messages.
    pub forwarded_channels: Vec<String>,
}

impl<T> Publisher<T> {
    pub open spec fn wf(&self) -> bool {
        &&& self.arena.wf()
        &&& self.loaned_values@.len() <= self.config.capacity
        &&& self.connections@.len() < crate::arena::MAX_CLONED_REFS
        &&& forall|k: int|
            0 <= k < self.loaned_values@.len() ==> self.arena.refs(
                (#[trigger] self.loaned_values@[k]).ptr.slot as int,
            ) == 1
    }

    /// A publisher that neither sent nor was connected yet.
    pub open spec fn fresh(&self) -> bool {
        &&& self.loaned_values@.len() == 0
        &&& self.connections@.len() == 0
        &&& self.arena.storage@.len() == 0
        &&& self.arena.slot_capacity == self.config.capacity
    }

    /// A publisher whose arena has room for its own loans.
    pub fn new(config: PublisherConfig, value_type: u64) -> (r: Self)
        ensures
            r.wf(),
            r.fresh(),
            r.config == config,
            r.value_type == value_type,
            r.forwarded_channels@.len() == 0,
    {
        Publisher::new_with_forwards(config, value_type, Vec::new())
    }

    /// A publisher that forwards messages onto `forwarded_channels`.
    pub fn new_with_forwards(
        config: PublisherConfig,
        value_type: u64,
        forwarded_channels: Vec<String>,
    ) -> (r: Self)
        ensures
            r.wf(),
            r.fresh(),
            r.config == config,
            r.value_type == value_type,
            r.forwarded_channels == forwarded_channels,
    {
        let capacity: usize = config.capacity;
        Publisher {
            config,
            value_type,
            loaned_values: Vec::new(),
            connections: Vec::new(),
            arena: Arena::new(capacity),
            forwarded_channels,
        }
    }

    pub fn loaned_count(&self) -> (r: usize)
        ensures
            r == self.loaned_values@.len(),
    {
        self.loaned_values.len()
    }

    /// The message of an outstanding loan.
    pub open spec fn loaned(self, index: int) -> Message<T> {
        self.arena.value(self.loaned_values@[index].ptr.slot as int).message
    }

    /// The message of an outstanding loan.
    pub fn loaned_value_at(&self, index: usize) -> (r: &Message<T>)
        requires
            self.wf(),
            index < self.loaned_values@.len(),
        ensures
            *r == self.loaned(index as int),
    {
        &self.arena.get(&self.loaned_values[index].ptr).message
    }

    /// Mutably borrow the payload of an outstanding loan. Lets a long-lived
    /// loan be mutated in place across several writes before being sent.
    pub fn loaned_payload_mut(&mut self, index: usize) -> (r: &mut T)
        requires
            old(self).wf(),
            index < old(self).loaned_values@.len(),
        ensures
            *r == old(self).loaned(index as int).message,
            final(self).loaned(index as int).message == *final(r),
            final(self).wf(),
            final(self).config == old(self).config,
            final(self).value_type == old(self).value_type,
            final(self).loaned_values == old(self).loaned_values,
            final(self).connections == old(self).connections,
            final(self).forwarded_channels == old(self).forwarded_channels,
            final(self).arena.slot_capacity == old(self).arena.slot_capacity,
            final(self).arena.storage@ == with_payload(
                old(self).arena.storage@,
                old(self).loaned_values@[index as int].ptr.slot as int,
                *final(r),
            ),
    {
        &mut self.arena.get_mut(&self.loaned_values[index].ptr).message.message
    }
}

} // verus!
