//! Loaning messages from publishers, and draining and reading them at
//! subscribers.
use vstd::prelude::*;

use crate::message::Message;
use crate::pub_sub::PubSub;
use crate::publisher::{Entry, LoanError, LoanedValue};
use crate::readiness::SubscriberReadiness;
use crate::refs::MessageRef;
use crate::scheduling::CallbackNodeId;

verus! {

/// Whether publisher `p` has a slot for every loan that it may still make.
pub open spec fn can_loan<T>(system: PubSub<T>, p: int) -> bool {
    system.publishers@[p].loaned_values@.len() < system.publishers@[p].config.capacity
        ==> system.publishers@[p].arena.has_free_slot()
}

/// A message that was just loaned: not published yet.
pub open spec fn unpublished<T>(payload: T, forwarded: Option<(usize, u64)>) -> Entry<T> {
    Entry {
        message: Message {
            header: crate::message::MessageHeader {
                published_at: crate::time::FrameworkTime { nanoseconds: i64::MIN },
            },
            message: payload,
        },
        forwarded,
    }
}

impl<T> PubSub<T> {
    /// Whether publisher `p` has one more loan than in `before`, of `entry`,
    /// and nothing else of the publishers changed.
    pub open spec fn loaned_one_more(self, before: PubSub<T>, p: int, entry: Entry<T>) -> bool {
        &&& self.publishers@.len() == before.publishers@.len()
        &&& forall|q: int|
            0 <= q < before.publishers@.len() && q != p ==> #[trigger] self.publishers@[q]
                == before.publishers@[q]
        &&& crate::pub_sub::same_port(self.publishers@[p], before.publishers@[p])
        &&& self.publishers@[p].loaned_values@.len() == before.publishers@[p].loaned_values@.len()
            + 1
        &&& self.publishers@[p].loaned_values@.drop_last() == before.publishers@[p].loaned_values@
        &&& ({
            let loan = self.publishers@[p].loaned_values@.last();
            &&& !loan.sent
            &&& before.publishers@[p].arena.is_first_free(loan.ptr.slot as int)
            &&& self.publishers@[p].arena.storage@ == before.publishers@[p].arena.storage@.update(
                loan.ptr.slot as int,
                crate::arena::ArenaSlot { ref_count: 1, payload: Some(entry) },
            )
        })
    }

    /// Loans a message with `payload` from a publisher. Returns the loan's
    /// index. A publisher has at most as many loans as its capacity says.
    pub fn loan_with(&mut self, publisher: usize, payload: T) -> (r: Result<usize, LoanError>)
        requires
            old(self).wf(),
            publisher < old(self).publishers@.len(),
            can_loan(*old(self), publisher as int),
        ensures
            final(self).wf(),
            final(self).subscribers == old(self).subscribers,
            final(self).readiness == old(self).readiness,
            r is Err <==> old(self).publishers@[publisher as int].loaned_values@.len() >= old(
                self).publishers@[publisher as int].config.capacity,
            r is Err ==> *final(self) == *old(self),
            r matches Ok(index) ==> index == old(
                self).publishers@[publisher as int].loaned_values@.len() && final(
                self).loaned_one_more(*old(self), publisher as int, unpublished(payload, None)),
    {
        self.loan_entry(publisher, payload, None, Ghost(Seq::empty()))
    }

    /// Whether a publisher has a loan left, and a slot for it.
    pub open spec fn loan_left(self, p: int) -> bool {
        &&& self.publishers@[p].loaned_values@.len() < self.publishers@[p].config.capacity
        &&& self.publishers@[p].arena.has_free_slot()
    }

    /// Whether a publisher has a loan left, and a slot for it.
    pub fn loan_available(&self, publisher: usize) -> (r: bool)
        requires
            publisher < self.publishers@.len(),
        ensures
            r == self.loan_left(publisher as int),
    {
        self.publishers[publisher].loaned_values.len() < self.publishers[publisher].config.capacity
            && self.publishers[publisher].arena.has_room()
    }

    /// Loans a message that forwards what is in hand.
    fn loan_entry(
        &mut self,
        publisher: usize,
        payload: T,
        forwarded: Option<MessageRef>,
        Ghost(hand): Ghost<Seq<(usize, u64)>>,
    ) -> (r: Result<usize, LoanError>)
        requires
            old(self).shaped(),
            old(self).counted_with(
                match forwarded {
                    Some(f) => hand.push(f),
                    None => hand,
                },
            ),
            publisher < old(self).publishers@.len(),
            can_loan(*old(self), publisher as int),
        ensures
            final(self).shaped(),
            final(self).subscribers == old(self).subscribers,
            final(self).readiness == old(self).readiness,
            r is Err <==> old(self).publishers@[publisher as int].loaned_values@.len() >= old(
                self).publishers@[publisher as int].config.capacity,
            r is Err ==> *final(self) == *old(self),
            r is Ok ==> final(self).counted_with(hand),
            r matches Ok(index) ==> index == old(
                self).publishers@[publisher as int].loaned_values@.len() && final(
                self).loaned_one_more(*old(self), publisher as int, unpublished(payload, forwarded)),
    {
        if self.publishers[publisher].loaned_values.len()
            >= self.publishers[publisher].config.capacity {
            return Err(LoanError::LoanCapacityReached);
        }
        let ghost before = *self;
        let ghost p = publisher as int;
        let index: usize = self.publishers[publisher].loaned_values.len();
        let entry = Entry { message: Message::unpublished(payload), forwarded };
        match self.publishers[publisher].arena.try_allocate_with(entry) {
            Ok(ptr) => {
                let ghost s = ptr.slot as int;
                let ghost r0 = (publisher, ptr.slot as u64);
                self.publishers[publisher].loaned_values.push(LoanedValue { ptr, sent: false });
                proof {
                    let loan = self.publishers@[p].loaned_values@.last();
                    let a = before.publishers@[p].arena.storage@;
                    let b = self.publishers@[p].arena.storage@;
                    assert(self.publishers@[p].loaned_values@.drop_last()
                        =~= before.publishers@[p].loaned_values@);
                    assert(self.loan_groups()[p] =~= before.loan_groups()[p].push(r0));
                    assert forall|y: (usize, u64)| #[trigger]
                        self.refs_of(y) == self.held_count(y) + crate::refs::count(hand, y) by {
                        Self::lemma_publisher_change(before, *self, p, y);
                        crate::publisher::lemma_forwards_update(a, s, b[s], y);
                        crate::refs::lemma_count_push(before.loan_groups()[p], r0, y);
                        assert(before.refs_of(y) == before.held_count(y) + crate::refs::count(
                            match forwarded {
                                Some(f) => hand.push(f),
                                None => hand,
                            },
                            y,
                        ));
                        assert(crate::publisher::slot_forward(a[s]).len() == 0);
                        if forwarded is Some {
                            let f = forwarded->0;
                            crate::refs::lemma_count_push(hand, f, y);
                            crate::refs::lemma_count_push(Seq::empty(), f, y);
                            assert(crate::publisher::slot_forward(b[s]) =~= Seq::<
                                (usize, u64),
                            >::empty().push(f));
                        } else {
                            assert(crate::publisher::slot_forward(b[s]).len() == 0);
                        }
                        if y.0 == publisher && y.1 != s && (y.1 as int) < b.len() {
                            assert(b[y.1 as int] == a[y.1 as int]);
                        }
                    }
                    assert forall|k: int|
                        0 <= k < self.publishers@[p].loaned_values@.len() implies self.publishers@[p].arena.refs(
                    (#[trigger] self.publishers@[p].loaned_values@[k]).ptr.slot as int) == 1 by {
                        if k < index {
                            assert(before.publishers@[p].arena.refs(
                                before.publishers@[p].loaned_values@[k].ptr.slot as int,
                            ) == 1);
                        }
                    }
                }
                Ok(index)
            },
            Err(_) => Err(LoanError::LoanCapacityReached),
        }
    }

    /// Marks an outstanding loan as sent, so that the next flush publishes it.
    pub fn mark_loan_sent(&mut self, publisher: usize, index: usize)
        requires
            old(self).wf(),
            publisher < old(self).publishers@.len(),
            index < old(self).publishers@[publisher as int].loaned_values@.len(),
        ensures
            final(self).wf(),
            final(self).subscribers == old(self).subscribers,
            final(self).readiness == old(self).readiness,
            final(self).publishers@.len() == old(self).publishers@.len(),
            forall|q: int|
                0 <= q < old(self).publishers@.len() && q != publisher ==> #[trigger] final(
                    self).publishers@[q] == old(self).publishers@[q],
            crate::pub_sub::same_port(
                final(self).publishers@[publisher as int],
                old(self).publishers@[publisher as int],
            ),
            final(self).publishers@[publisher as int].arena == old(
                self).publishers@[publisher as int].arena,
            final(self).publishers@[publisher as int].loaned_values@ == old(
                self).publishers@[publisher as int].loaned_values@.update(
                index as int,
                LoanedValue {
                    ptr: old(self).publishers@[publisher as int].loaned_values@[index as int].ptr,
                    sent: true,
                },
            ),
    {
        let ghost before = *self;
        self.publishers[publisher].loaned_values[index].sent = true;
        proof {
            let p = publisher as int;
            let a = before.publishers@[p].loaned_values@;
            let b = self.publishers@[p].loaned_values@;
            assert(b =~= a.update(index as int, LoanedValue { ptr: a[index as int].ptr, sent: true }));
            assert(self.loan_groups()[p] =~= before.loan_groups()[p]);
            assert forall|y: (usize, u64)| #[trigger]
                self.refs_of(y) == self.held_count(y) + crate::refs::count(Seq::empty(), y) by {
                Self::lemma_publisher_change(before, *self, p, y);
                assert(before.refs_of(y) == before.held_count(y) + crate::refs::count(
                    Seq::empty(),
                    y,
                ));
            }
            assert forall|k: int| 0 <= k < b.len() implies self.publishers@[p].arena.refs(
            (#[trigger] b[k]).ptr.slot as int) == 1 by {
                assert(before.publishers@[p].arena.refs(a[k].ptr.slot as int) == 1);
            }
        }
    }

    /// Whether `self` is `before` with another payload of an outstanding loan.
    pub open spec fn rewritten(
        self,
        before: PubSub<T>,
        publisher: usize,
        index: usize,
        payload: T,
    ) -> bool {
        let p = publisher as int;
        &&& self.subscribers == before.subscribers
        &&& self.readiness == before.readiness
        &&& self.publishers@.len() == before.publishers@.len()
        &&& forall|q: int|
            0 <= q < before.publishers@.len() && q != p ==> #[trigger] self.publishers@[q]
                == before.publishers@[q]
        &&& crate::pub_sub::same_but_slots(self.publishers@[p], before.publishers@[p])
        &&& self.publishers@[p].arena.storage@ == crate::publisher::with_payload(
            before.publishers@[p].arena.storage@,
            before.publishers@[p].loaned_values@[index as int].ptr.slot as int,
            payload,
        )
    }

    /// A system stays sound whatever a loan's payload becomes.
    proof fn lemma_rewritten(
        self,
        before: PubSub<T>,
        publisher: usize,
        index: usize,
        payload: T,
    )
        requires
            before.wf(),
            publisher < before.publishers@.len(),
            index < before.publishers@[publisher as int].loaned_values@.len(),
            self.rewritten(before, publisher, index, payload),
        ensures
            self.wf(),
    {
        let p = publisher as int;
        let s = before.publishers@[p].loaned_values@[index as int].ptr.slot as int;
        let a = before.publishers@[p].arena.storage@;
        let b = self.publishers@[p].arena.storage@;
        assert(before.publishers@[p].wf());
        assert(before.publishers@[p].arena.refs(s) == 1);
        assert forall|i: int| 0 <= i < b.len() implies (#[trigger] b[i]).wf() && b[i].ref_count
            == a[i].ref_count by {
            assert(a[i].wf());
        }
        assert(self.publishers@[p].wf()) by {
            assert forall|k: int| 0 <= k < self.publishers@[p].loaned_values@.len() implies self.publishers@[p].arena.refs(
                (#[trigger] self.publishers@[p].loaned_values@[k]).ptr.slot as int,
            ) == 1 by {
                assert(before.publishers@[p].arena.refs(
                    before.publishers@[p].loaned_values@[k].ptr.slot as int,
                ) == 1);
            }
        }
        assert forall|q: int| 0 <= q < self.publishers@.len() implies (#[trigger]
        self.publishers@[q]).wf() by {
            assert(before.publishers@[q].wf());
        }
        assert forall|q: int, c: int|
            0 <= q < self.publishers@.len() && 0 <= c
                < self.publishers@[q].connections@.len() implies self.connection_valid(
            #[trigger] self.publishers@[q].connections@[c],
        ) by {
            assert(before.connection_valid(before.publishers@[q].connections@[c]));
        }
        assert(self.loan_groups()[p] =~= before.loan_groups()[p]);
        assert forall|y: (usize, u64)| #[trigger]
            self.refs_of(y) == self.held_count(y) + crate::refs::count(Seq::empty(), y) by {
            Self::lemma_publisher_change(before, self, p, y);
            crate::publisher::lemma_forwards_update(a, s, b[s], y);
            assert(before.refs_of(y) == before.held_count(y) + crate::refs::count(
                Seq::empty(),
                y,
            ));
            if y.0 == publisher && y.1 != s && (y.1 as int) < b.len() {
                assert(b[y.1 as int] == a[y.1 as int]);
            }
        }
    }

    /// The payload of an outstanding loan, to be changed in place.
    pub fn loaned_payload_mut(&mut self, publisher: usize, index: usize) -> (r: &mut T)
        requires
            old(self).wf(),
            publisher < old(self).publishers@.len(),
            index < old(self).publishers@[publisher as int].loaned_values@.len(),
        ensures
            *r == crate::output::loaned_payload(*old(self), publisher, index),
            final(self).rewritten(*old(self), publisher, index, *final(r)) && final(self).wf(),
    {
        proof {
            let before = *self;
            let p = publisher as int;
            assert(before.publishers@[p].wf());
            assert(before.publishers@[p].arena.refs(
                before.publishers@[p].loaned_values@[index as int].ptr.slot as int,
            ) == 1);
            assert forall|after: PubSub<T>, payload: T| #[trigger]
                after.rewritten(before, publisher, index, payload) implies after.wf() by {
                after.lemma_rewritten(before, publisher, index, payload);
            }
        }
        self.publishers[publisher].loaned_payload_mut(index)
    }

    /// A queued reference refers to a message that is there.
    pub(crate) proof fn lemma_queued_is_live(self, s: int, i: int)
        requires
            self.wf(),
            0 <= s < self.subscribers@.len(),
            0 <= i < self.subscribers@[s].held().len(),
        ensures
            self.live(self.subscribers@[s].held()[i]),
    {
        let held = self.subscribers@[s].held();
        crate::refs::lemma_count_member(held, i);
        crate::refs::lemma_count_all_update(self.queue_groups(), s, held, held[i]);
        assert(self.queue_groups()[s] == held);
        assert(self.refs_of(held[i]) == self.held_count(held[i]) + crate::refs::count(
            Seq::empty(),
            held[i],
        ));
    }

    /// The `index`-th message that a subscriber's callback can read, oldest
    /// first.
    pub fn read_at(&self, subscriber: usize, index: usize) -> (r: &Message<T>)
        requires
            self.wf(),
            subscriber < self.subscribers@.len(),
            index < self.subscribers@[subscriber as int].buffers.readable().len(),
        ensures
            *r == self.entry(
                self.subscribers@[subscriber as int].buffers.readable()[index as int],
            ).message,
    {
        let item = self.subscribers[subscriber].buffers.read_at(index);
        proof {
            assert(self.subscribers@[subscriber as int].held()[index as int] == item);
            self.lemma_queued_is_live(subscriber as int, index as int);
        }
        &self.publishers[item.0].arena.get(
            &crate::arena::ArenaPtr { slot: item.1 as usize },
        ).message
    }

    /// The oldest message that a subscriber's callback can read.
    pub fn front(&self, subscriber: usize) -> (r: Option<&Message<T>>)
        requires
            self.wf(),
            subscriber < self.subscribers@.len(),
        ensures
            r is Some <==> self.subscribers@[subscriber as int].buffers.readable().len() > 0,
            r matches Some(message) ==> *message == self.entry(
                self.subscribers@[subscriber as int].buffers.readable()[0],
            ).message,
    {
        if self.subscribers[subscriber].buffers.read_buffer.storage.len() > 0 {
            Some(self.read_at(subscriber, 0))
        } else {
            None
        }
    }

    /// Whether only the buffers of subscriber `s` changed, and slots that
    /// nothing refers to any more.
    pub open spec fn only_reader_changed(self, before: PubSub<T>, s: int) -> bool {
        &&& self.publishers@.len() == before.publishers@.len()
        &&& forall|p: int|
            0 <= p < self.publishers@.len() ==> crate::pub_sub::same_but_slots(
                #[trigger] self.publishers@[p],
                before.publishers@[p],
            )
        &&& self.keeps_messages_of(before)
        &&& self.subscribers@.len() == before.subscribers@.len()
        &&& forall|q: int|
            0 <= q < before.subscribers@.len() && q != s ==> #[trigger] self.subscribers@[q]
                == before.subscribers@[q]
        &&& self.subscribers@[s].config == before.subscribers@[s].config
        &&& self.subscribers@[s].value_type == before.subscribers@[s].value_type
        &&& self.subscribers@[s].readiness_state == before.subscribers@[s].readiness_state
        &&& self.subscribers@[s].buffers.write_queue.drops()
            == before.subscribers@[s].buffers.write_queue.drops()
    }

    /// Gives up every reference in `released`.
    fn release_all(&mut self, released: Vec<MessageRef>)
        requires
            old(self).shaped(),
            old(self).counted_with(released@),
        ensures
            final(self).wf(),
            final(self).same_but_all_slots(*old(self)),
            final(self).keeps_messages_of(*old(self)),
    {
        let mut released = released;
        while released.len() > 0
            invariant
                self.shaped(),
                self.counted_with(released@),
                self.same_but_all_slots(*old(self)),
                self.keeps_messages_of(*old(self)),
            decreases released@.len(),
        {
            let ghost all = released@;
            let ghost before = *self;
            match released.pop() {
                Some(r) => {
                    assert(all =~= released@.push(r));
                    self.release_ref(r, Ghost(released@));
                    proof {
                        assert forall|y: (usize, u64)| #[trigger] self.live(y) implies old(
                            self).live(y) && self.entry(y) == old(self).entry(y) by {
                            assert(before.live(y));
                        }
                    }
                },
                None => {},
            }
        }
        assert(released@ =~= Seq::empty());
    }

    /// Moves what arrived for a subscriber into its read buffer, which keeps
    /// the newest messages. A trigger input's readiness bit means "new event
    /// pending": the imminent run consumes it, so it is cleared. The bit of a
    /// gating input that is no trigger means "has a value": it is cleared only
    /// once the read buffer is empty.
    pub fn drain_writer_to_reader(&mut self, subscriber: usize)
        requires
            old(self).wf(),
            subscriber < old(self).subscribers@.len(),
        ensures
            final(self).wf(),
            final(self).only_reader_changed(*old(self), subscriber as int),
            final(self).subscribers@[subscriber as int].buffers.pending().len() == 0,
            final(self).subscribers@[subscriber as int].buffers.readable()
                == crate::mpsc_queue::newest(
                old(self).subscribers@[subscriber as int].buffers.readable() + old(
                    self).subscribers@[subscriber as int].buffers.pending(),
                old(self).subscribers@[subscriber as int].config.capacity as nat,
            ),
            final(self).subscribers@[subscriber as int].buffers.read_buffer.drops
                == crate::double_buffer::counted_up(
                old(self).subscribers@[subscriber as int].buffers.read_buffer.drops,
                crate::mpsc_queue::overflow(
                    old(self).subscribers@[subscriber as int].buffers.readable() + old(
                        self).subscribers@[subscriber as int].buffers.pending(),
                    old(self).subscribers@[subscriber as int].config.capacity as nat,
                ).len(),
            ),
            final(self).readiness@ == drained_readiness(
                old(self).readiness@,
                final(self).subscribers@[subscriber as int],
            ),
    {
        let ghost before = *self;
        let ghost s = subscriber as int;
        let displaced = self.subscribers[subscriber].buffers.drain_writer_to_reader();
        let ghost moved = *self;
        proof {
            let a = before.subscribers@[s].held();
            let b = moved.subscribers@[s].held();
            let kept = moved.subscribers@[s].buffers.readable();
            assert(b =~= kept);
            assert(a =~= displaced@ + kept);
            assert forall|y: (usize, u64)| #[trigger]
                moved.refs_of(y) == moved.held_count(y) + crate::refs::count(displaced@, y) by {
                Self::lemma_subscriber_change(before, moved, s, y);
                crate::refs::lemma_count_add(displaced@, kept, y);
                assert(before.refs_of(y) == before.held_count(y) + crate::refs::count(
                    Seq::empty(),
                    y,
                ));
            }
        }
        self.release_all(displaced);
        let ghost released = *self;
        match self.subscribers[subscriber].readiness_state {
            Some(SubscriberReadiness::Gating(node, bit)) => {
                if self.subscribers[subscriber].config.is_trigger
                    || self.subscribers[subscriber].buffers.read_buffer.storage.len() == 0 {
                    self.readiness[node].clear_bit(bit);
                }
            },
            _ => {},
        }
        proof {
            Self::lemma_readiness_apart(released, *self);
            assert(self.readiness@ =~= drained_readiness(before.readiness@, self.subscribers@[s]));
            assert forall|y: (usize, u64)| #[trigger] self.live(y) implies before.live(y)
                && self.entry(y) == before.entry(y) by {
                assert(released.live(y));
                assert(moved.live(y));
            }
        }
    }

    /// The counts of references do not depend on the readiness bitmasks.
    proof fn lemma_readiness_apart(before: PubSub<T>, after: PubSub<T>)
        requires
            before.wf(),
            after.publishers == before.publishers,
            after.subscribers == before.subscribers,
            after.readiness@.len() == before.readiness@.len(),
        ensures
            after.wf(),
    {
        assert(after.loan_groups() =~= before.loan_groups());
        assert(after.forward_groups() =~= before.forward_groups());
        assert(after.queue_groups() =~= before.queue_groups());
        assert forall|y: (usize, u64)| #[trigger]
            after.refs_of(y) == after.held_count(y) + crate::refs::count(Seq::empty(), y) by {
            assert(before.refs_of(y) == before.held_count(y) + crate::refs::count(Seq::empty(), y));
        }
        assert forall|p: int, c: int|
            0 <= p < after.publishers@.len() && 0 <= c < after.publishers@[p].connections@.len()
            implies after.connection_valid(#[trigger] after.publishers@[p].connections@[c]) by {
            assert(before.connection_valid(before.publishers@[p].connections@[c]));
        }
    }

    /// Tells a node's readiness which node to enqueue; the first that is given
    /// stays. Returns the node to enqueue if it is ready already.
    pub fn register_node(&mut self, readiness: usize, node: CallbackNodeId) -> (enqueue: Option<
        CallbackNodeId,
    >)
        requires
            old(self).wf(),
            readiness < old(self).readiness@.len(),
        ensures
            final(self).wf(),
            final(self).publishers == old(self).publishers,
            final(self).subscribers == old(self).subscribers,
            final(self).readiness@ == old(self).readiness@.update(
                readiness as int,
                registered(old(self).readiness@[readiness as int], node),
            ),
            enqueue == if old(self).readiness@[readiness as int].all_ready() {
                registered(old(self).readiness@[readiness as int], node).node
            } else {
                None
            },
    {
        let ghost before = *self;
        let enqueue = self.readiness[readiness].register(node);
        proof {
            Self::lemma_readiness_apart(before, *self);
            assert(self.readiness@ =~= before.readiness@.update(
                readiness as int,
                registered(before.readiness@[readiness as int], node),
            ));
        }
        enqueue
    }

    /// Takes the oldest readable message of a subscriber into hand.
    fn take_front(&mut self, subscriber: usize) -> (r: Option<MessageRef>)
        requires
            old(self).wf(),
            subscriber < old(self).subscribers@.len(),
        ensures
            final(self).shaped(),
            final(self).readiness == old(self).readiness,
            final(self).publishers == old(self).publishers,
            final(self).only_reader_changed(*old(self), subscriber as int),
            r is Some <==> old(self).subscribers@[subscriber as int].buffers.readable().len() > 0,
            r matches Some(item) ==> item == old(
                self).subscribers@[subscriber as int].buffers.readable()[0] && final(
                self).counted_with(seq![item]),
            r is None ==> final(self).wf() && final(
                self).subscribers@[subscriber as int].buffers.readable() == old(
                self).subscribers@[subscriber as int].buffers.readable(),
            r is Some ==> final(self).subscribers@[subscriber as int].buffers.readable() == old(
                self).subscribers@[subscriber as int].buffers.readable().skip(1),
            final(self).subscribers@[subscriber as int].buffers.pending() == old(
                self).subscribers@[subscriber as int].buffers.pending(),
            final(self).subscribers@[subscriber as int].buffers.read_buffer.drops == old(
                self).subscribers@[subscriber as int].buffers.read_buffer.drops,
    {
        let ghost before = *self;
        let ghost s = subscriber as int;
        let item = self.subscribers[subscriber].buffers.pop_front();
        proof {
            let hand = match item {
                Some(r) => seq![r],
                None => Seq::empty(),
            };
            let a = before.subscribers@[s].held();
            let b = self.subscribers@[s].held();
            assert forall|y: (usize, u64)| #[trigger]
                self.refs_of(y) == self.held_count(y) + crate::refs::count(hand, y) by {
                Self::lemma_subscriber_change(before, *self, s, y);
                assert(before.refs_of(y) == before.held_count(y) + crate::refs::count(
                    Seq::empty(),
                    y,
                ));
                if item is Some {
                    assert(b =~= a.skip(1));
                    crate::refs::lemma_count_skip(a, y);
                    crate::refs::lemma_count_push(Seq::empty(), item->0, y);
                    assert(hand =~= Seq::<(usize, u64)>::empty().push(item->0));
                } else {
                    assert(b =~= a);
                }
            }
        }
        item
    }

    /// Drops the oldest message that a subscriber's callback can read, if
    /// there is one.
    pub fn pop_front(&mut self, subscriber: usize) -> (r: bool)
        requires
            old(self).wf(),
            subscriber < old(self).subscribers@.len(),
        ensures
            final(self).wf(),
            final(self).readiness == old(self).readiness,
            final(self).only_reader_changed(*old(self), subscriber as int),
            r == (old(self).subscribers@[subscriber as int].buffers.readable().len() > 0),
            final(self).subscribers@[subscriber as int].buffers.readable() == if r {
                old(self).subscribers@[subscriber as int].buffers.readable().skip(1)
            } else {
                old(self).subscribers@[subscriber as int].buffers.readable()
            },
            final(self).subscribers@[subscriber as int].buffers.pending() == old(
                self).subscribers@[subscriber as int].buffers.pending(),
            final(self).subscribers@[subscriber as int].buffers.read_buffer.drops == old(
                self).subscribers@[subscriber as int].buffers.read_buffer.drops,
    {
        let ghost before = *self;
        match self.take_front(subscriber) {
            Some(r) => {
                let ghost taken = *self;
                assert(seq![r] =~= Seq::<(usize, u64)>::empty().push(r));
                self.release_ref(r, Ghost(Seq::empty()));
                proof {
                    assert forall|y: (usize, u64)| #[trigger] self.live(y) implies before.live(y)
                        && self.entry(y) == before.entry(y) by {
                        assert(taken.live(y));
                    }
                }
                true
            },
            None => false,
        }
    }

    /// The message of a publisher's loan.
    pub fn loaned_message(&self, publisher: usize, index: usize) -> (r: &Message<T>)
        requires
            self.wf(),
            publisher < self.publishers@.len(),
            index < self.publishers@[publisher as int].loaned_values@.len(),
        ensures
            *r == self.entry(
                (
                    publisher,
                    self.publishers@[publisher as int].loaned_values@[index as int].ptr.slot as u64,
                ),
            ).message,
    {
        let loan = &self.publishers[publisher].loaned_values[index];
        &self.publishers[publisher].arena.get(&loan.ptr).message
    }

    /// Consumes everything that a subscriber can read.
    pub fn drain_inputs(&mut self, subscriber: usize)
        requires
            old(self).wf(),
            subscriber < old(self).subscribers@.len(),
        ensures
            final(self).wf(),
            final(self).readiness == old(self).readiness,
            final(self).only_reader_changed(*old(self), subscriber as int),
            final(self).subscribers@[subscriber as int].buffers.readable().len() == 0,
            final(self).subscribers@[subscriber as int].buffers.pending() == old(
                self).subscribers@[subscriber as int].buffers.pending(),
            final(self).subscribers@[subscriber as int].buffers.read_buffer.drops == old(
                self).subscribers@[subscriber as int].buffers.read_buffer.drops,
    {
        let ghost s = subscriber as int;
        let mut more = true;
        while more
            invariant
                self.wf(),
                s == subscriber,
                subscriber < self.subscribers@.len(),
                self.readiness == old(self).readiness,
                self.only_reader_changed(*old(self), s),
                self.subscribers@[s].buffers.pending() == old(
                    self).subscribers@[s].buffers.pending(),
                self.subscribers@[s].buffers.read_buffer.drops == old(
                    self).subscribers@[s].buffers.read_buffer.drops,
                !more ==> self.subscribers@[s].buffers.readable().len() == 0,
            decreases self.subscribers@[s].buffers.readable().len() + if more {
                1int
            } else {
                0int
            },
        {
            let ghost before = *self;
            more = self.pop_front(subscriber);
            proof {
                assert forall|p: int| 0 <= p < self.publishers@.len() implies crate::pub_sub::same_but_slots(
                    #[trigger] self.publishers@[p],
                    old(self).publishers@[p],
                ) by {
                    assert(crate::pub_sub::same_but_slots(
                        before.publishers@[p],
                        old(self).publishers@[p],
                    ));
                }
                assert forall|r: (usize, u64)| #[trigger] self.live(r) implies old(self).live(r)
                    && self.entry(r) == old(self).entry(r) by {
                    assert(before.live(r));
                }
                assert forall|q: int|
                    0 <= q < old(self).subscribers@.len() && q != s implies #[trigger]
                self.subscribers@[q] == old(self).subscribers@[q] by {
                    assert(before.subscribers@[q] == old(self).subscribers@[q]);
                }
            }
        }
    }

    /// Drops every message that a subscriber holds.
    pub fn cleanup_buffers(&mut self, subscriber: usize)
        requires
            old(self).wf(),
            subscriber < old(self).subscribers@.len(),
        ensures
            final(self).wf(),
            final(self).readiness == old(self).readiness,
            final(self).only_reader_changed(*old(self), subscriber as int),
            final(self).subscribers@[subscriber as int].buffers.pending().len() == 0,
            final(self).subscribers@[subscriber as int].buffers.readable().len() == 0,
            final(self).subscribers@[subscriber as int].buffers.read_buffer.drops == old(
                self).subscribers@[subscriber as int].buffers.read_buffer.drops,
    {
        let ghost s = subscriber as int;
        while !self.subscribers[subscriber].buffers.write_queue.is_empty()
            invariant
                self.wf(),
                s == subscriber,
                subscriber < old(self).subscribers@.len(),
                self.readiness == old(self).readiness,
                self.only_reader_changed(*old(self), s),
                self.subscribers@[s].buffers.read_buffer == old(self).subscribers@[s].buffers.read_buffer,
            decreases self.subscribers@[s].buffers.pending().len(),
        {
            let ghost before = *self;
            match self.subscribers[subscriber].buffers.write_queue.pop() {
                Some(r) => {
                    let ghost taken = *self;
                    proof {
                        let a = before.subscribers@[s];
                        let b = taken.subscribers@[s];
                        assert forall|y: (usize, u64)| #[trigger]
                            taken.refs_of(y) == taken.held_count(y) + crate::refs::count(
                                Seq::<(usize, u64)>::empty().push(r),
                                y,
                            ) by {
                            Self::lemma_subscriber_change(before, taken, s, y);
                            assert(before.refs_of(y) == before.held_count(y) + crate::refs::count(
                                Seq::empty(),
                                y,
                            ));
                            crate::refs::lemma_count_push(Seq::empty(), r, y);
                            crate::refs::lemma_count_skip(a.buffers.pending(), y);
                            crate::refs::lemma_count_add(
                                a.buffers.readable(),
                                a.buffers.pending(),
                                y,
                            );
                            crate::refs::lemma_count_add(
                                b.buffers.readable(),
                                b.buffers.pending(),
                                y,
                            );
                        }
                    }
                    self.release_ref(r, Ghost(Seq::empty()));
                    proof {
                        assert forall|y: (usize, u64)| #[trigger] self.live(y) implies old(
                            self).live(y) && self.entry(y) == old(self).entry(y) by {
                            assert(taken.live(y));
                            assert(before.live(y));
                        }
                    }
                },
                None => {},
            }
        }
        while self.subscribers[subscriber].buffers.read_buffer.storage.len() > 0
            invariant
                self.wf(),
                s == subscriber,
                subscriber < old(self).subscribers@.len(),
                self.readiness == old(self).readiness,
                self.only_reader_changed(*old(self), s),
                self.subscribers@[s].buffers.pending().len() == 0,
                self.subscribers@[s].buffers.read_buffer.drops == old(
                    self).subscribers@[s].buffers.read_buffer.drops,
            decreases self.subscribers@[s].buffers.readable().len(),
        {
            let ghost before = *self;
            let _ = self.pop_front(subscriber);
            proof {
                assert forall|y: (usize, u64)| #[trigger] self.live(y) implies old(self).live(y)
                    && self.entry(y) == old(self).entry(y) by {
                    assert(before.live(y));
                }
            }
        }
    }

    /// Loans a message from `publisher` that forwards the oldest readable
    /// message of `subscriber`. The forwarded message leaves the subscriber's
    /// read buffer and stays alive as long as the message that forwards it.
    pub fn forward(&mut self, subscriber: usize, publisher: usize, payload: T) -> (r: Option<
        Result<usize, LoanError>,
    >)
        requires
            old(self).wf(),
            subscriber < old(self).subscribers@.len(),
            publisher < old(self).publishers@.len(),
            can_loan(*old(self), publisher as int),
        ensures
            final(self).wf(),
            final(self).readiness == old(self).readiness,
            r is None <==> old(self).subscribers@[subscriber as int].buffers.readable().len() == 0,
            r is None ==> final(self).publishers == old(self).publishers && final(
                self).subscribers@[subscriber as int].buffers.readable() == old(
                self).subscribers@[subscriber as int].buffers.readable(),
            final(self).subscribers@.len() == old(self).subscribers@.len(),
            forall|q: int|
                0 <= q < old(self).subscribers@.len() && q != subscriber ==> #[trigger] final(
                    self).subscribers@[q] == old(self).subscribers@[q],
            crate::callback::same_but_read(
                final(self).subscribers@[subscriber as int],
                old(self).subscribers@[subscriber as int],
            ),
            r matches Some(outcome) ==> {
                let f = old(self).subscribers@[subscriber as int].buffers.readable()[0];
                &&& final(self).subscribers@[subscriber as int].buffers.readable() == old(
                    self).subscribers@[subscriber as int].buffers.readable().skip(1)
                &&& outcome is Err ==> final(self).only_reader_changed(
                    *old(self),
                    subscriber as int,
                )
                &&& outcome is Err <==> old(
                    self).publishers@[publisher as int].loaned_values@.len() >= old(
                    self).publishers@[publisher as int].config.capacity
                &&& outcome is Ok ==> final(self).loaned_one_more(
                    *old(self),
                    publisher as int,
                    unpublished(payload, Some(f)),
                )
                &&& outcome is Ok ==> final(self).live(f)
                &&& outcome matches Ok(index) ==> index == old(
                    self).publishers@[publisher as int].loaned_values@.len()
            },
    {
        let ghost before = *self;
        match self.take_front(subscriber) {
            Some(f) => {
                let ghost taken = *self;
                assert(seq![f] =~= Seq::<(usize, u64)>::empty().push(f));
                let outcome = self.loan_entry(publisher, payload, Some(f), Ghost(Seq::empty()));
                if outcome.is_err() {
                    self.release_ref(f, Ghost(Seq::empty()));
                    proof {
                        assert forall|y: (usize, u64)| #[trigger] self.live(y) implies before.live(
                            y,
                        ) && self.entry(y) == before.entry(y) by {
                            assert(taken.live(y));
                        }
                    }
                } else {
                    proof {
                        crate::refs::lemma_count_push(Seq::empty(), f, f);
                        assert(taken.refs_of(f) >= 1);
                        let p = publisher as int;
                        let slot = self.publishers@[p].loaned_values@.last().ptr.slot as int;
                        if f.0 == publisher {
                            assert(f.1 != slot);
                            assert(self.publishers@[p].arena.storage@[f.1 as int]
                                == before.publishers@[p].arena.storage@[f.1 as int]);
                        }
                    }
                }
                Some(outcome)
            },
            None => None,
        }
    }

    /// The message that the `index`-th loan or message forwards, if any.
    pub fn forwarded_message(&self, r: MessageRef) -> (forwarded: Option<&Message<T>>)
        requires
            self.wf(),
            self.live(r),
        ensures
            forwarded is Some <==> self.entry(r).forwarded is Some,
            forwarded matches Some(message) ==> *message == self.entry(
                self.entry(r).forwarded->0,
            ).message,
    {
        match self.publishers[r.0].arena.get(
            &crate::arena::ArenaPtr { slot: r.1 as usize },
        ).forwarded {
            Some(f) => {
                proof {
                    self.lemma_forwarded_is_live(r, f);
                }
                Some(
                    &self.publishers[f.0].arena.get(
                        &crate::arena::ArenaPtr { slot: f.1 as usize },
                    ).message,
                )
            },
            None => None,
        }
    }

    /// A forwarded reference refers to a message that is there.
    pub(crate) proof fn lemma_forwarded_is_live(self, r: (usize, u64), f: (usize, u64))
        requires
            self.wf(),
            self.live(r),
            self.entry(r).forwarded == Some(f),
        ensures
            self.live(f),
    {
        let p = r.0 as int;
        let storage = self.publishers@[p].arena.storage@;
        let s = r.1 as int;
        crate::publisher::lemma_forwards_update(
            storage,
            s,
            crate::arena::ArenaSlot { ref_count: 0, payload: None },
            f,
        );
        let one = Seq::<(usize, u64)>::empty().push(f);
        assert(crate::publisher::slot_forward(storage[s]) =~= one);
        crate::refs::lemma_count_push(Seq::empty(), f, f);
        assert(crate::refs::count(crate::publisher::forwards(storage), f) >= 1);
        crate::refs::lemma_count_all_update(
            self.forward_groups(),
            p,
            self.forward_groups()[p],
            f,
        );
        assert(self.refs_of(f) == self.held_count(f) + crate::refs::count(Seq::empty(), f));
    }
}

/// A readiness that was told which node to enqueue.
pub open spec fn registered(
    readiness: crate::readiness::CallbackNodeReadiness,
    node: CallbackNodeId,
) -> crate::readiness::CallbackNodeReadiness {
    crate::readiness::CallbackNodeReadiness {
        bitmask: readiness.bitmask,
        node: if readiness.node is Some {
            readiness.node
        } else {
            Some(node)
        },
    }
}

/// The readiness bitmasks after a drain of `subscriber`.
pub open spec fn drained_readiness(
    readiness: Seq<crate::readiness::CallbackNodeReadiness>,
    subscriber: crate::subscriber::Subscriber,
) -> Seq<crate::readiness::CallbackNodeReadiness> {
    match subscriber.readiness_state {
        Some(SubscriberReadiness::Gating(node, bit)) => if subscriber.config.is_trigger
            || subscriber.buffers.readable().len() == 0 {
            readiness.update(
                node as int,
                crate::readiness::CallbackNodeReadiness {
                    bitmask: readiness[node as int].bitmask & !(1usize << bit),
                    node: readiness[node as int].node,
                },
            )
        } else {
            readiness
        },
        _ => readiness,
    }
}

} // verus!
