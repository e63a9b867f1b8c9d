//! Operations on the ports of a pub/sub system: building and connecting them,
//! loaning messages, draining and reading them.
use vstd::prelude::*;

use crate::generic_publisher::ConnectionTypeMismatch;
use crate::pub_sub::PubSub;
use crate::publisher::{Publisher, SubscriberBuffer};
use crate::readiness::CallbackNodeReadiness;
use crate::subscriber::Subscriber;

verus! {

impl<T> PubSub<T> {
    pub fn new() -> (r: Self)
        ensures
            r.wf(),
            r.publishers@.len() == 0,
            r.subscribers@.len() == 0,
            r.readiness@.len() == 0,
    {
        PubSub { publishers: Vec::new(), subscribers: Vec::new(), readiness: Vec::new() }
    }

    /// Adds a publisher. Returns its number.
    pub fn add_publisher(&mut self, publisher: Publisher<T>) -> (id: usize)
        requires
            old(self).wf(),
            publisher.wf(),
            publisher.fresh(),
        ensures
            final(self).wf(),
            id == old(self).publishers@.len(),
            final(self).publishers@ == old(self).publishers@.push(publisher),
            final(self).subscribers == old(self).subscribers,
            final(self).readiness == old(self).readiness,
    {
        let ghost before = *self;
        let id: usize = self.publishers.len();
        self.publishers.push(publisher);
        proof {
            let none = Seq::<(usize, u64)>::empty();
            assert(crate::publisher::loan_refs(id as int, publisher.loaned_values@) =~= none);
            assert(crate::publisher::forwards(publisher.arena.storage@) =~= none);
            assert(self.loan_groups() =~= before.loan_groups().push(none));
            assert(self.forward_groups() =~= before.forward_groups().push(none));
            assert(self.queue_groups() =~= before.queue_groups());
            assert forall|y: (usize, u64)| #[trigger]
                self.refs_of(y) == self.held_count(y) + crate::refs::count(none, y) by {
                crate::refs::lemma_count_all_push(before.loan_groups(), none, y);
                crate::refs::lemma_count_all_push(before.forward_groups(), none, y);
                assert(before.refs_of(y) == before.held_count(y) + crate::refs::count(none, y));
            }
        }
        id
    }

    /// Adds a subscriber with empty buffers. Returns its number.
    pub fn add_subscriber(&mut self, subscriber: Subscriber) -> (id: usize)
        requires
            old(self).wf(),
            subscriber.wf(),
            subscriber.buffers.pending().len() == 0,
            subscriber.buffers.readable().len() == 0,
            crate::pub_sub::role_valid(subscriber.readiness_state, old(self).readiness@.len()),
        ensures
            final(self).wf(),
            id == old(self).subscribers@.len(),
            final(self).subscribers@ == old(self).subscribers@.push(subscriber),
            final(self).publishers == old(self).publishers,
            final(self).readiness == old(self).readiness,
    {
        let ghost before = *self;
        let id: usize = self.subscribers.len();
        self.subscribers.push(subscriber);
        proof {
            let none = Seq::<(usize, u64)>::empty();
            assert(subscriber.held() =~= none);
            assert(self.queue_groups() =~= before.queue_groups().push(none));
            assert(self.loan_groups() =~= before.loan_groups());
            assert(self.forward_groups() =~= before.forward_groups());
            assert forall|y: (usize, u64)| #[trigger]
                self.refs_of(y) == self.held_count(y) + crate::refs::count(none, y) by {
                crate::refs::lemma_count_all_push(before.queue_groups(), none, y);
                assert(before.refs_of(y) == before.held_count(y) + crate::refs::count(none, y));
            }
        }
        id
    }

    /// Adds the readiness of a node. Returns its number.
    pub fn add_readiness(&mut self, readiness: CallbackNodeReadiness) -> (id: usize)
        requires
            old(self).wf(),
        ensures
            final(self).wf(),
            id == old(self).readiness@.len(),
            final(self).readiness@ == old(self).readiness@.push(readiness),
            final(self).publishers == old(self).publishers,
            final(self).subscribers == old(self).subscribers,
    {
        let ghost before = *self;
        let id: usize = self.readiness.len();
        self.readiness.push(readiness);
        proof {
            Self::lemma_same_counts(before, *self);
        }
        id
    }

    /// Equal publishers and subscribers count the same references.
    proof fn lemma_same_counts(before: PubSub<T>, after: PubSub<T>)
        requires
            before.counted_with(Seq::empty()),
            after.publishers@.len() == before.publishers@.len(),
            forall|p: int|
                0 <= p < before.publishers@.len() ==> (#[trigger]
                after.publishers@[p]).loaned_values@ == before.publishers@[p].loaned_values@
                    && after.publishers@[p].arena.storage@ == before.publishers@[p].arena.storage@,
            after.subscribers@.len() == before.subscribers@.len(),
            forall|s: int|
                0 <= s < before.subscribers@.len() ==> (#[trigger] after.subscribers@[s]).held()
                    == before.subscribers@[s].held(),
        ensures
            after.counted_with(Seq::empty()),
            forall|r: (usize, u64)| #[trigger] after.refs_of(r) == before.refs_of(r),
    {
        assert(after.loan_groups() =~= before.loan_groups());
        assert(after.forward_groups() =~= before.forward_groups());
        assert(after.queue_groups() =~= before.queue_groups());
        assert forall|y: (usize, u64)| #[trigger]
            after.refs_of(y) == after.held_count(y) + crate::refs::count(Seq::empty(), y) by {
            assert(before.refs_of(y) == before.held_count(y) + crate::refs::count(Seq::empty(), y));
        }
    }

    /// A publisher without slots is one whose arena can be resized.
    proof fn lemma_resized(before: PubSub<T>, after: PubSub<T>, p: int)
        requires
            before.wf(),
            0 <= p < before.publishers@.len(),
            after.publishers@.len() == before.publishers@.len(),
            after.subscribers == before.subscribers,
            after.readiness == before.readiness,
            forall|q: int|
                0 <= q < before.publishers@.len() && q != p ==> #[trigger] after.publishers@[q]
                    == before.publishers@[q],
            after.publishers@[p].wf(),
            after.publishers@[p].loaned_values@ == before.publishers@[p].loaned_values@,
            forall|c: int|
                0 <= c < after.publishers@[p].connections@.len() ==> before.connection_valid(
                    #[trigger] after.publishers@[p].connections@[c],
                ),
            before.publishers@[p].arena.storage@.len() == 0,
            forall|i: int|
                0 <= i < after.publishers@[p].arena.storage@.len() ==> (#[trigger]
                after.publishers@[p].arena.storage@[i]).ref_count == 0,
        ensures
            after.wf(),
    {
        let none = Seq::<(usize, u64)>::empty();
        crate::publisher::lemma_no_forwards(after.publishers@[p].arena.storage@);
        crate::publisher::lemma_no_forwards(before.publishers@[p].arena.storage@);
        assert(after.forward_groups()[p] =~= none);
        assert(before.forward_groups()[p] =~= none);
        assert(after.forward_groups() =~= before.forward_groups());
        assert(after.loan_groups() =~= before.loan_groups());
        assert(after.queue_groups() =~= before.queue_groups());
        assert forall|y: (usize, u64)| #[trigger]
            after.refs_of(y) == after.held_count(y) + crate::refs::count(none, y) by {
            assert(before.refs_of(y) == before.held_count(y) + crate::refs::count(none, y));
        }
    }

    /// Connects a publisher to a subscriber of its payload type and grows its
    /// arena to cover the messages that the subscriber may hold at one moment:
    /// up to `capacity` in its write queue plus up to `capacity` in its read
    /// buffer (the previous message can still be there when the publisher
    /// publishes again before the next drain). The arena's slots may not be
    /// allocated yet.
    pub fn add_typed_subscriber(&mut self, publisher: usize, subscriber: usize)
        requires
            old(self).wf(),
            publisher < old(self).publishers@.len(),
            subscriber < old(self).subscribers@.len(),
            old(self).publishers@[publisher as int].arena.storage@.len() == 0,
            old(self).publishers@[publisher as int].connections@.len() + 1
                < crate::arena::MAX_CLONED_REFS,
            old(self).publishers@[publisher as int].arena.slot_capacity + old(
                self).subscribers@[subscriber as int].config.buffered() <= usize::MAX,
        ensures
            final(self).wf(),
            final(self).subscribers == old(self).subscribers,
            final(self).readiness == old(self).readiness,
            final(self).publishers@.len() == old(self).publishers@.len(),
            forall|q: int|
                0 <= q < old(self).publishers@.len() && q != publisher ==> #[trigger] final(
                    self).publishers@[q] == old(self).publishers@[q],
            connected_to(
                old(self).publishers@[publisher as int],
                final(self).publishers@[publisher as int],
                subscriber,
                old(self).subscribers@[subscriber as int],
            ),
    {
        let ghost before = *self;
        let readiness = self.subscribers[subscriber].readiness_state();
        let buffered: usize = 2 * self.subscribers[subscriber].config.capacity;
        self.publishers[publisher].connections.push(SubscriberBuffer { subscriber, readiness });
        let starting_capacity: usize = self.publishers[publisher].arena.capacity();
        self.publishers[publisher].arena.update_capacity(starting_capacity + buffered);
        proof {
            let p = publisher as int;
            assert forall|c: int| 0 <= c < self.publishers@[p].connections@.len() implies before.connection_valid(
            #[trigger] self.publishers@[p].connections@[c]) by {
                if c < before.publishers@[p].connections@.len() {
                    assert(before.connection_valid(before.publishers@[p].connections@[c]));
                }
            }
            assert(self.publishers@[p].loaned_values@.len() == 0) by {
                if self.publishers@[p].loaned_values@.len() > 0 {
                    assert(before.publishers@[p].arena.refs(
                        before.publishers@[p].loaned_values@[0].ptr.slot as int,
                    ) == 1);
                }
            }
            Self::lemma_resized(before, *self, p);
        }
    }

    /// Connects a publisher to a subscriber, unless their payload types
    /// differ.
    pub fn connect_to_subscriber(&mut self, publisher: usize, subscriber: usize) -> (r: Result<
        (),
        ConnectionTypeMismatch,
    >)
        requires
            old(self).wf(),
            publisher < old(self).publishers@.len(),
            subscriber < old(self).subscribers@.len(),
            old(self).publishers@[publisher as int].arena.storage@.len() == 0,
            old(self).publishers@[publisher as int].connections@.len() + 1
                < crate::arena::MAX_CLONED_REFS,
            old(self).publishers@[publisher as int].arena.slot_capacity + old(
                self).subscribers@[subscriber as int].config.buffered() <= usize::MAX,
        ensures
            final(self).wf(),
            r is Ok <==> old(self).publishers@[publisher as int].value_type == old(
                self).subscribers@[subscriber as int].value_type,
            r is Err ==> *final(self) == *old(self),
            final(self).subscribers == old(self).subscribers,
            final(self).readiness == old(self).readiness,
            final(self).publishers@.len() == old(self).publishers@.len(),
            forall|q: int|
                0 <= q < old(self).publishers@.len() && q != publisher ==> #[trigger] final(
                    self).publishers@[q] == old(self).publishers@[q],
            r is Ok ==> connected_to(
                old(self).publishers@[publisher as int],
                final(self).publishers@[publisher as int],
                subscriber,
                old(self).subscribers@[subscriber as int],
            ),
    {
        if self.publishers[publisher].value_type == self.subscribers[subscriber].value_type {
            self.add_typed_subscriber(publisher, subscriber);
            Ok(())
        } else {
            Err(ConnectionTypeMismatch {  })
        }
    }

    /// Makes room in a publisher's arena for more messages. Its slots may not
    /// be allocated yet.
    pub fn increase_arena_size(&mut self, publisher: usize, additional_capacity: usize)
        requires
            old(self).wf(),
            publisher < old(self).publishers@.len(),
            old(self).publishers@[publisher as int].arena.storage@.len() == 0,
            old(self).publishers@[publisher as int].arena.slot_capacity + additional_capacity
                <= usize::MAX,
        ensures
            final(self).wf(),
            final(self).subscribers == old(self).subscribers,
            final(self).readiness == old(self).readiness,
            final(self).publishers@.len() == old(self).publishers@.len(),
            forall|q: int|
                0 <= q < old(self).publishers@.len() && q != publisher ==> #[trigger] final(
                    self).publishers@[q] == old(self).publishers@[q],
            grown_by(
                old(self).publishers@[publisher as int],
                final(self).publishers@[publisher as int],
                additional_capacity as int,
            ),
    {
        let ghost before = *self;
        let starting_capacity: usize = self.publishers[publisher].arena.capacity();
        self.publishers[publisher].arena.update_capacity(starting_capacity + additional_capacity);
        proof {
            let p = publisher as int;
            assert forall|c: int| 0 <= c < self.publishers@[p].connections@.len() implies before.connection_valid(
            #[trigger] self.publishers@[p].connections@[c]) by {
                assert(before.connection_valid(before.publishers@[p].connections@[c]));
            }
            assert(self.publishers@[p].loaned_values@.len() == 0) by {
                if self.publishers@[p].loaned_values@.len() > 0 {
                    assert(before.publishers@[p].arena.refs(
                        before.publishers@[p].loaned_values@[0].ptr.slot as int,
                    ) == 1);
                }
            }
            Self::lemma_resized(before, *self, p);
        }
    }

    /// Allocates the slots of a publisher's arena, all of them free.
    pub fn allocate_arena(&mut self, publisher: usize)
        requires
            old(self).wf(),
            publisher < old(self).publishers@.len(),
            old(self).publishers@[publisher as int].arena.storage@.len() == 0,
        ensures
            final(self).wf(),
            final(self).subscribers == old(self).subscribers,
            final(self).readiness == old(self).readiness,
            final(self).publishers@.len() == old(self).publishers@.len(),
            forall|q: int|
                0 <= q < old(self).publishers@.len() && q != publisher ==> #[trigger] final(
                    self).publishers@[q] == old(self).publishers@[q],
            allocated_from(
                old(self).publishers@[publisher as int],
                final(self).publishers@[publisher as int],
            ),
    {
        let ghost before = *self;
        self.publishers[publisher].arena.allocate_slots();
        proof {
            let p = publisher as int;
            assert forall|c: int| 0 <= c < self.publishers@[p].connections@.len() implies before.connection_valid(
            #[trigger] self.publishers@[p].connections@[c]) by {
                assert(before.connection_valid(before.publishers@[p].connections@[c]));
            }
            assert(self.publishers@[p].loaned_values@.len() == 0) by {
                if self.publishers@[p].loaned_values@.len() > 0 {
                    assert(before.publishers@[p].arena.refs(
                        before.publishers@[p].loaned_values@[0].ptr.slot as int,
                    ) == 1);
                }
            }
            Self::lemma_resized(before, *self, p);
        }
    }
}

/// A publisher after it was connected to a subscriber: the connection carries
/// the subscriber's readiness role, and the arena has room for the messages
/// that the subscriber's two buffers can hold.
pub open spec fn connected_to<T>(
    before: Publisher<T>,
    after: Publisher<T>,
    subscriber: usize,
    target: Subscriber,
) -> bool {
    &&& after.config == before.config
    &&& after.value_type == before.value_type
    &&& after.loaned_values == before.loaned_values
    &&& after.forwarded_channels == before.forwarded_channels
    &&& after.connections@ == before.connections@.push(
        SubscriberBuffer { subscriber, readiness: target.readiness_state },
    )
    &&& after.arena.storage@.len() == 0
    &&& after.arena.slot_capacity == before.arena.slot_capacity + target.config.buffered()
}

/// A publisher whose arena got `additional` more slots to allocate.
pub open spec fn grown_by<T>(before: Publisher<T>, after: Publisher<T>, additional: int) -> bool {
    &&& after.config == before.config
    &&& after.value_type == before.value_type
    &&& after.loaned_values == before.loaned_values
    &&& after.forwarded_channels == before.forwarded_channels
    &&& after.connections == before.connections
    &&& after.arena.storage@.len() == 0
    &&& after.arena.slot_capacity == before.arena.slot_capacity + additional
}

/// A publisher whose slots were allocated.
pub open spec fn allocated_from<T>(before: Publisher<T>, after: Publisher<T>) -> bool {
    &&& after.config == before.config
    &&& after.value_type == before.value_type
    &&& after.loaned_values == before.loaned_values
    &&& after.forwarded_channels == before.forwarded_channels
    &&& after.connections == before.connections
    &&& after.arena.slot_capacity == before.arena.slot_capacity
    &&& after.arena.storage@.len() == before.arena.slot_capacity
    &&& forall|i: int|
        0 <= i < after.arena.storage@.len() ==> (#[trigger] after.arena.storage@[i]).ref_count == 0
}

} // verus!
