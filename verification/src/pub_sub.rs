//! The pub/sub system: every publisher and subscriber of a graph, and the
//! messages that pass between them.
use vstd::prelude::*;

use crate::arena::ArenaPtr;
use crate::message::{Message, MessageHeader};
use crate::publisher::{Entry, LoanedValue, Publisher, SubscriberBuffer};
use crate::readiness::{CallbackNodeReadiness, SubscriberReadiness};
use crate::refs::MessageRef;
use crate::scheduling::CallbackNodeId;
use crate::subscriber::Subscriber;
use crate::time::FrameworkTime;

verus! {

/// Every publisher and subscriber of a graph, by number, and the readiness of
/// the nodes they belong to.
pub struct PubSub<T> {
    pub publishers: Vec<Publisher<T>>,
    pub subscribers: Vec<Subscriber>,
    pub readiness: Vec<CallbackNodeReadiness>,
}

/// What a flush changes, as values: the write queues with their drop counters,
/// the readiness bitmasks, and the nodes announced so far. The capacities of
/// the queues and the nodes' identities stay.
#[verifier::ext_equal]
pub struct FlushView {
    pub pending: Seq<Seq<(usize, u64)>>,
    pub drops: Seq<usize>,
    pub masks: Seq<usize>,
    pub announced: Seq<CallbackNodeId>,
    pub capacity: Seq<nat>,
    pub nodes: Seq<Option<CallbackNodeId>>,
}

/// `announced` with one more node, where there is one.
pub open spec fn announce(
    announced: Seq<CallbackNodeId>,
    node: Option<CallbackNodeId>,
) -> Seq<CallbackNodeId> {
    match node {
        Some(id) => announced.push(id),
        None => announced,
    }
}

/// One message reaching one subscriber: it is queued, displacing the oldest
/// queued message where the queue is full, and the subscriber's node hears of
/// it: a gating input's bit is set, and the node is announced when that
/// completes its bitmask; an optional trigger announces the node whenever its
/// bitmask is complete.
pub open spec fn delivered(
    view: FlushView,
    connection: SubscriberBuffer,
    r: (usize, u64),
) -> FlushView {
    let s = connection.subscriber as int;
    let queued = FlushView {
        pending: view.pending.update(
            s,
            crate::mpsc_queue::pushed(view.pending[s], view.capacity[s], r),
        ),
        drops: view.drops.update(
            s,
            if view.pending[s].len() == view.capacity[s] {
                view.drops[s].wrapping_add(1)
            } else {
                view.drops[s]
            },
        ),
        ..view
    };
    match connection.readiness {
        Some(SubscriberReadiness::Gating(node, bit)) => {
            let mask = view.masks[node as int] | (1usize << bit);
            FlushView {
                masks: view.masks.update(node as int, mask),
                announced: announce(
                    view.announced,
                    if view.masks[node as int] != usize::MAX && mask == usize::MAX {
                        view.nodes[node as int]
                    } else {
                        None
                    },
                ),
                ..queued
            }
        },
        Some(SubscriberReadiness::OptionalTrigger(node)) => FlushView {
            announced: announce(
                view.announced,
                if view.masks[node as int] == usize::MAX {
                    view.nodes[node as int]
                } else {
                    None
                },
            ),
            ..queued
        },
        None => queued,
    }
}

/// One message reaching every connected subscriber, in the order in which they
/// were connected.
pub open spec fn delivered_to_all(
    view: FlushView,
    connections: Seq<SubscriberBuffer>,
    r: (usize, u64),
) -> FlushView
    decreases connections.len(),
{
    if connections.len() == 0 {
        view
    } else {
        delivered_to_all(delivered(view, connections[0], r), connections.skip(1), r)
    }
}

/// Every message that was sent reaching every connected subscriber, in the
/// order of the loans; loans that were not sent reach nobody.
pub open spec fn flushed(
    view: FlushView,
    connections: Seq<SubscriberBuffer>,
    publisher: int,
    loans: Seq<LoanedValue>,
) -> FlushView
    decreases loans.len(),
{
    if loans.len() == 0 {
        view
    } else {
        let after_first = if loans[0].sent {
            delivered_to_all(view, connections, (publisher as usize, loans[0].ptr.slot as u64))
        } else {
            view
        };
        flushed(after_first, connections, publisher, loans.skip(1))
    }
}

/// How many loans were sent.
pub open spec fn sent_count(loans: Seq<LoanedValue>) -> nat
    decreases loans.len(),
{
    if loans.len() == 0 {
        0
    } else {
        sent_count(loans.skip(1)) + if loans[0].sent {
            1nat
        } else {
            0nat
        }
    }
}

/// The header of a message published at `timestamp`, `n` times.
pub open spec fn same_headers(timestamp: FrameworkTime, n: nat) -> Seq<MessageHeader> {
    Seq::new(n, |i: int| MessageHeader { published_at: timestamp })
}

/// A message with the time at which it is published.
pub open spec fn stamped<T>(entry: Entry<T>, timestamp: FrameworkTime) -> Entry<T> {
    Entry {
        message: Message {
            header: MessageHeader { published_at: timestamp },
            message: entry.message.message,
        },
        forwarded: entry.forwarded,
    }
}

/// Whether a readiness role speaks of a readiness and a bit that are there.
pub open spec fn role_valid(role: Option<SubscriberReadiness>, readiness_count: nat) -> bool {
    match role {
        Some(SubscriberReadiness::Gating(node, bit)) => node < readiness_count && bit < usize::BITS,
        Some(SubscriberReadiness::OptionalTrigger(node)) => node < readiness_count,
        None => true,
    }
}

/// Whether two publishers differ in nothing but what their slots hold.
pub open spec fn same_but_slots<T>(a: Publisher<T>, b: Publisher<T>) -> bool {
    &&& same_port(a, b)
    &&& a.loaned_values@ == b.loaned_values@
}

/// Whether two publishers differ in nothing but their loans and what their
/// slots hold.
pub open spec fn same_port<T>(a: Publisher<T>, b: Publisher<T>) -> bool {
    &&& a.config == b.config
    &&& a.value_type == b.value_type
    &&& a.connections@ == b.connections@
    &&& a.forwarded_channels == b.forwarded_channels
    &&& a.arena.slot_capacity == b.arena.slot_capacity
    &&& a.arena.storage@.len() == b.arena.storage@.len()
}

/// The total length of some groups of references.
pub open spec fn total_len(groups: Seq<Seq<(usize, u64)>>) -> nat
    decreases groups.len(),
{
    if groups.len() == 0 {
        0
    } else {
        total_len(groups.drop_last()) + groups.last().len()
    }
}

proof fn lemma_total_len_update(groups: Seq<Seq<(usize, u64)>>, i: int, group: Seq<(usize, u64)>)
    requires
        0 <= i < groups.len(),
    ensures
        total_len(groups.update(i, group)) == total_len(groups) - groups[i].len() + group.len(),
        total_len(groups) >= groups[i].len(),
    decreases groups.len(),
{
    let updated = groups.update(i, group);
    if i == groups.len() - 1 {
        assert(updated.drop_last() =~= groups.drop_last());
    } else {
        lemma_total_len_update(groups.drop_last(), i, group);
        assert(updated.drop_last() =~= groups.drop_last().update(i, group));
    }
}

impl<T> PubSub<T> {
    /// How many references the slot of `r` counts.
    pub open spec fn refs_of(self, r: (usize, u64)) -> int {
        if r.0 < self.publishers@.len() {
            self.publishers@[r.0 as int].arena.refs(r.1 as int)
        } else {
            0
        }
    }

    /// Whether `r` refers to a message that is there.
    pub open spec fn live(self, r: (usize, u64)) -> bool {
        self.refs_of(r) > 0
    }

    /// The message that `r` refers to, with what it forwards.
    pub open spec fn entry(self, r: (usize, u64)) -> Entry<T> {
        self.publishers@[r.0 as int].arena.value(r.1 as int)
    }

    /// The references that are on loan, by publisher.
    pub open spec fn loan_groups(self) -> Seq<Seq<(usize, u64)>> {
        Seq::new(
            self.publishers@.len(),
            |p: int| crate::publisher::loan_refs(p, self.publishers@[p].loaned_values@),
        )
    }

    /// The references that messages forward, by publisher.
    pub open spec fn forward_groups(self) -> Seq<Seq<(usize, u64)>> {
        Seq::new(
            self.publishers@.len(),
            |p: int| crate::publisher::forwards(self.publishers@[p].arena.storage@),
        )
    }

    /// The references that are queued, by subscriber.
    pub open spec fn queue_groups(self) -> Seq<Seq<(usize, u64)>> {
        Seq::new(self.subscribers@.len(), |s: int| self.subscribers@[s].held())
    }

    /// How often `r` is on loan, queued or forwarded.
    pub open spec fn held_count(self, r: (usize, u64)) -> nat {
        crate::refs::count_all(self.loan_groups(), r) + crate::refs::count_all(
            self.queue_groups(),
            r,
        ) + crate::refs::count_all(self.forward_groups(), r)
    }

    /// Every slot counts exactly the references to it: those that are on loan,
    /// queued or forwarded, and those in `hand`.
    pub open spec fn counted_with(self, hand: Seq<(usize, u64)>) -> bool {
        forall|r: (usize, u64)| #[trigger]
            self.refs_of(r) == self.held_count(r) + crate::refs::count(hand, r)
    }

    /// The parts are sound on their own and speak of parts that are there.
    pub open spec fn shaped(self) -> bool {
        &&& forall|p: int|
            0 <= p < self.publishers@.len() ==> (#[trigger] self.publishers@[p]).wf()
        &&& forall|s: int|
            0 <= s < self.subscribers@.len() ==> (#[trigger] self.subscribers@[s]).wf()
                && role_valid(self.subscribers@[s].readiness_state, self.readiness@.len())
        &&& forall|p: int, c: int|
            0 <= p < self.publishers@.len() && 0 <= c < self.publishers@[p].connections@.len()
                ==> self.connection_valid(#[trigger] self.publishers@[p].connections@[c])
    }

    pub open spec fn connection_valid(self, connection: SubscriberBuffer) -> bool {
        &&& connection.subscriber < self.subscribers@.len()
        &&& role_valid(connection.readiness, self.readiness@.len())
    }

    /// The system's invariant.
    pub open spec fn wf(self) -> bool {
        &&& self.shaped()
        &&& self.counted_with(Seq::empty())
    }

    /// Whether only what slots hold differs: nothing was loaned, queued,
    /// connected or announced.
    pub open spec fn same_but_all_slots(self, other: PubSub<T>) -> bool {
        &&& self.subscribers == other.subscribers
        &&& self.readiness == other.readiness
        &&& self.publishers@.len() == other.publishers@.len()
        &&& forall|p: int|
            0 <= p < self.publishers@.len() ==> same_but_slots(
                #[trigger] self.publishers@[p],
                other.publishers@[p],
            )
    }

    /// Whether every message that is there is the one that was there.
    pub open spec fn keeps_messages_of(self, before: PubSub<T>) -> bool {
        forall|r: (usize, u64)| #[trigger]
            self.live(r) ==> before.live(r) && self.entry(r) == before.entry(r)
    }

    /// How the held references change with one publisher.
    pub(crate) proof fn lemma_publisher_change(before: PubSub<T>, after: PubSub<T>, p: int, r: (usize, u64))
        requires
            0 <= p < before.publishers@.len(),
            after.publishers@.len() == before.publishers@.len(),
            after.subscribers@ == before.subscribers@,
            forall|q: int|
                0 <= q < before.publishers@.len() && q != p ==> #[trigger] after.publishers@[q]
                    == before.publishers@[q],
        ensures
            after.held_count(r) == before.held_count(r) - crate::refs::count(
                before.loan_groups()[p],
                r,
            ) + crate::refs::count(after.loan_groups()[p], r) - crate::refs::count(
                before.forward_groups()[p],
                r,
            ) + crate::refs::count(after.forward_groups()[p], r),
            before.held_count(r) >= crate::refs::count(before.loan_groups()[p], r),
            total_len(after.forward_groups()) == total_len(before.forward_groups())
                - before.forward_groups()[p].len() + after.forward_groups()[p].len(),
    {
        assert(after.loan_groups() =~= before.loan_groups().update(p, after.loan_groups()[p]));
        assert(after.forward_groups() =~= before.forward_groups().update(
            p,
            after.forward_groups()[p],
        ));
        assert(after.queue_groups() =~= before.queue_groups());
        crate::refs::lemma_count_all_update(before.loan_groups(), p, after.loan_groups()[p], r);
        crate::refs::lemma_count_all_update(
            before.forward_groups(),
            p,
            after.forward_groups()[p],
            r,
        );
        lemma_total_len_update(before.forward_groups(), p, after.forward_groups()[p]);
    }

    /// How the held references change with one subscriber.
    pub(crate) proof fn lemma_subscriber_change(before: PubSub<T>, after: PubSub<T>, s: int, r: (usize, u64))
        requires
            0 <= s < before.subscribers@.len(),
            after.subscribers@.len() == before.subscribers@.len(),
            after.publishers@ == before.publishers@,
            forall|q: int|
                0 <= q < before.subscribers@.len() && q != s ==> (#[trigger]
                after.subscribers@[q]).held() == before.subscribers@[q].held(),
        ensures
            after.held_count(r) == before.held_count(r) - crate::refs::count(
                before.subscribers@[s].held(),
                r,
            ) + crate::refs::count(after.subscribers@[s].held(), r),
            before.held_count(r) >= crate::refs::count(before.subscribers@[s].held(), r),
            after.refs_of(r) == before.refs_of(r),
    {
        assert(after.loan_groups() =~= before.loan_groups());
        assert(after.forward_groups() =~= before.forward_groups());
        assert(after.queue_groups() =~= before.queue_groups().update(
            s,
            after.subscribers@[s].held(),
        ));
        crate::refs::lemma_count_all_update(
            before.queue_groups(),
            s,
            after.subscribers@[s].held(),
            r,
        );
    }

    /// A loan is one of the held references.
    pub(crate) proof fn lemma_loan_is_held(self, p: int, k: int)
        requires
            0 <= p < self.publishers@.len(),
            p <= usize::MAX,
            0 <= k < self.publishers@[p].loaned_values@.len(),
        ensures
            self.held_count((p as usize, self.publishers@[p].loaned_values@[k].ptr.slot as u64))
                >= 1,
    {
        let loans = self.loan_groups()[p];
        let r = (p as usize, self.publishers@[p].loaned_values@[k].ptr.slot as u64);
        assert(loans[k] == r);
        crate::refs::lemma_count_member(loans, k);
        crate::refs::lemma_count_all_update(self.loan_groups(), p, loans, r);
    }

    /// Gives up one reference in hand. With the last reference to a message
    /// its slot becomes free, and what the message forwarded is given up too.
    pub(crate) fn release_ref(&mut self, r: MessageRef, Ghost(hand): Ghost<Seq<(usize, u64)>>)
        requires
            old(self).shaped(),
            old(self).counted_with(hand.push(r)),
        ensures
            final(self).shaped(),
            final(self).counted_with(hand),
            final(self).same_but_all_slots(*old(self)),
            final(self).keeps_messages_of(*old(self)),
            forall|x: (usize, u64)| #[trigger] final(self).refs_of(x) <= old(self).refs_of(x),
    {
        let mut next: Option<MessageRef> = Some(r);
        while next.is_some()
            invariant
                self.shaped(),
                self.counted_with(
                    match next {
                        Some(x) => hand.push(x),
                        None => hand,
                    },
                ),
                self.same_but_all_slots(*old(self)),
                self.keeps_messages_of(*old(self)),
                forall|x: (usize, u64)| #[trigger] self.refs_of(x) <= old(self).refs_of(x),
            decreases
                    total_len(self.forward_groups()) + if next is Some {
                        1nat
                    } else {
                        0nat
                    },
        {
            let x: MessageRef = next.unwrap();
            let ghost before = *self;
            let ghost p = x.0 as int;
            proof {
                crate::refs::lemma_count_push(hand, x, x);
                assert(self.refs_of(x) >= 1);
            }
            let freed = self.publishers[x.0].arena.release(ArenaPtr { slot: x.1 as usize });
            next = match freed {
                Some(entry) => entry.forwarded,
                None => None,
            };
            proof {
                let s = x.1 as int;
                let a = before.publishers@[p].arena.storage@;
                let b = self.publishers@[p].arena.storage@;
                assert(b =~= a.update(s, b[s]));
                assert(self.loan_groups()[p] == before.loan_groups()[p]);
                assert forall|y: (usize, u64)| #[trigger]
                    self.refs_of(y) == self.held_count(y) + crate::refs::count(
                        match next {
                            Some(z) => hand.push(z),
                            None => hand,
                        },
                        y,
                    ) by {
                    Self::lemma_publisher_change(before, *self, p, y);
                    crate::publisher::lemma_forwards_update(a, s, b[s], y);
                    crate::refs::lemma_count_push(hand, x, y);
                    assert(before.refs_of(y) == before.held_count(y) + crate::refs::count(
                        hand.push(x),
                        y,
                    ));
                    if next is Some {
                        let z = next->0;
                        crate::refs::lemma_count_push(hand, z, y);
                        crate::refs::lemma_count_push(Seq::empty(), z, y);
                        assert(crate::publisher::slot_forward(a[s]) =~= Seq::<(usize, u64)>::empty().push(z));
                    } else if a[s].ref_count == 1 {
                        assert(crate::publisher::slot_forward(a[s]).len() == 0);
                    } else {
                        assert(crate::publisher::slot_forward(a[s]) == crate::publisher::slot_forward(b[s]));
                    }
                }
                Self::lemma_publisher_change(before, *self, p, x);
                crate::publisher::lemma_forwards_update(a, s, b[s], x);
                assert forall|y: (usize, u64)| #[trigger]
                    self.refs_of(y) <= old(self).refs_of(y) by {
                    assert(before.refs_of(y) <= old(self).refs_of(y));
                    if y.0 == x.0 && y.1 != x.1 && (y.1 as int) < b.len() {
                        assert(b[y.1 as int] == a[y.1 as int]);
                    }
                }
                assert forall|y: (usize, u64)| #[trigger] self.live(y) implies old(self).live(y)
                    && self.entry(y) == old(self).entry(y) by {
                    assert(self.refs_of(y) <= before.refs_of(y)) by {
                        if y.0 == x.0 && y.1 != x.1 && (y.1 as int) < b.len() {
                            assert(b[y.1 as int] == a[y.1 as int]);
                        }
                    }
                    assert(before.live(y));
                    if y.0 == x.0 && y.1 != x.1 {
                        assert(b[y.1 as int] == a[y.1 as int]);
                    }
                }
                assert forall|k: int|
                    0 <= k < self.publishers@[p].loaned_values@.len() implies self.publishers@[p].arena.refs(
                (#[trigger] self.publishers@[p].loaned_values@[k]).ptr.slot as int) == 1 by {
                    self.lemma_loan_is_held(p, k);
                    let y = (p as usize, self.publishers@[p].loaned_values@[k].ptr.slot as u64);
                    assert(self.refs_of(y) >= 1);
                    assert(before.publishers@[p].arena.refs(
                        before.publishers@[p].loaned_values@[k].ptr.slot as int,
                    ) == 1);
                }
            }
        }
    }
}

impl<T> PubSub<T> {
    /// What a flush changes, as values.
    pub open spec fn flush_view(self, announced: Seq<CallbackNodeId>) -> FlushView {
        FlushView {
            pending: Seq::new(
                self.subscribers@.len(),
                |s: int| self.subscribers@[s].buffers.pending(),
            ),
            drops: Seq::new(
                self.subscribers@.len(),
                |s: int| self.subscribers@[s].buffers.write_queue.drops(),
            ),
            masks: Seq::new(self.readiness@.len(), |n: int| self.readiness@[n].bitmask),
            announced,
            capacity: Seq::new(
                self.subscribers@.len(),
                |s: int| self.subscribers@[s].config.capacity as nat,
            ),
            nodes: Seq::new(self.readiness@.len(), |n: int| self.readiness@[n].node),
        }
    }

    /// Whether the subscribers are the same up to their write queues.
    pub open spec fn same_readers(self, other: PubSub<T>) -> bool {
        &&& self.subscribers@.len() == other.subscribers@.len()
        &&& self.readiness@.len() == other.readiness@.len()
        &&& forall|s: int|
            0 <= s < self.subscribers@.len() ==> same_reader(
                #[trigger] self.subscribers@[s],
                other.subscribers@[s],
            )
    }

    /// Whether the publishers are the same up to what their slots hold.
    pub open spec fn same_publishers(self, other: PubSub<T>) -> bool {
        &&& self.publishers@.len() == other.publishers@.len()
        &&& forall|p: int|
            0 <= p < self.publishers@.len() ==> same_but_slots(
                #[trigger] self.publishers@[p],
                other.publishers@[p],
            )
    }

    /// Hands the message in hand to one connected subscriber and its node.
    fn deliver(
        &mut self,
        connection: SubscriberBuffer,
        r: MessageRef,
        announced: &mut Vec<CallbackNodeId>,
    )
        requires
            old(self).shaped(),
            old(self).counted_with(seq![r]),
            old(self).connection_valid(connection),
            old(self).refs_of(r) <= crate::arena::MAX_CLONED_REFS,
            forall|k: int|
                0 <= k < old(self).publishers@[r.0 as int].loaned_values@.len() ==> (#[trigger] old(
                    self).publishers@[r.0 as int].loaned_values@[k]).ptr.slot != r.1,
        ensures
            final(self).shaped(),
            final(self).counted_with(seq![r]),
            final(self).same_publishers(*old(self)),
            final(self).same_readers(*old(self)),
            final(self).keeps_messages_of(*old(self)),
            final(self).refs_of(r) <= old(self).refs_of(r) + 1,
            final(self).flush_view(final(announced)@) == delivered(
                old(self).flush_view(old(announced)@),
                connection,
                r,
            ),
    {
        let s: usize = connection.subscriber;
        let ghost start = *self;
        let ghost kept = seq![r];
        proof {
            assert(seq![r] =~= Seq::<(usize, u64)>::empty().push(r));
            crate::refs::lemma_count_push(Seq::empty(), r, r);
            assert(self.refs_of(r) >= 1);
        }
        let copy = self.publishers[r.0].arena.clone_ptr(&ArenaPtr { slot: r.1 as usize });
        let ghost cloned = *self;
        proof {
            Self::lemma_clone_counts(start, cloned, r);
        }
        let displaced = self.subscribers[s].buffers.write((r.0, copy.slot as u64));
        let ghost written = *self;
        proof {
            let a = cloned.subscribers@[s as int];
            let b = written.subscribers@[s as int];
            let hand = match displaced {
                Some(d) => seq![r].push(d),
                None => seq![r],
            };
            assert forall|y: (usize, u64)| #[trigger]
                written.refs_of(y) == written.held_count(y) + crate::refs::count(hand, y) by {
                Self::lemma_subscriber_change(cloned, written, s as int, y);
                assert(cloned.refs_of(y) == cloned.held_count(y) + crate::refs::count(
                    seq![r].push(r),
                    y,
                ));
                crate::refs::lemma_count_push(seq![r], r, y);
                crate::refs::lemma_count_add(a.buffers.readable(), a.buffers.pending(), y);
                crate::refs::lemma_count_add(b.buffers.readable(), b.buffers.pending(), y);
                if displaced is Some {
                    let d = displaced->0;
                    crate::refs::lemma_count_skip(a.buffers.pending(), y);
                    crate::refs::lemma_count_push(a.buffers.pending().skip(1), r, y);
                    crate::refs::lemma_count_push(seq![r], d, y);
                } else {
                    crate::refs::lemma_count_push(a.buffers.pending(), r, y);
                }
            }
        }
        match displaced {
            Some(oldest) => {
                self.release_ref(oldest, Ghost(kept));
            },
            None => {},
        }
        let ghost released = *self;
        let enqueue = match connection.readiness {
            Some(SubscriberReadiness::Gating(node, bit)) => self.readiness[node].set_bit(bit),
            Some(SubscriberReadiness::OptionalTrigger(node)) => self.readiness[node].enqueue_if_ready(),
            None => None,
        };
        match enqueue {
            Some(id) => announced.push(id),
            None => {},
        }
        proof {
            assert(self.loan_groups() =~= released.loan_groups());
            assert(self.forward_groups() =~= released.forward_groups());
            assert(self.queue_groups() =~= released.queue_groups());
            assert forall|y: (usize, u64)| #[trigger]
                self.refs_of(y) == self.held_count(y) + crate::refs::count(seq![r], y) by {
                assert(released.refs_of(y) == released.held_count(y) + crate::refs::count(
                    seq![r],
                    y,
                ));
            }
            assert forall|y: (usize, u64)| #[trigger] self.live(y) implies start.live(y)
                && self.entry(y) == start.entry(y) by {
                assert(released.live(y));
                assert(written.live(y));
                assert(cloned.live(y));
            }
            assert(self.refs_of(r) == released.refs_of(r));
            assert(released.refs_of(r) <= written.refs_of(r));
            assert(written.refs_of(r) == cloned.refs_of(r));
            assert(self.flush_view(announced@) =~= delivered(
                start.flush_view(old(announced)@),
                connection,
                r,
            ));
        }
    }

    /// Writes the time of publication into the message in hand.
    fn stamp(&mut self, r: MessageRef, timestamp: FrameworkTime, Ghost(hand): Ghost<Seq<(usize, u64)>>)
        requires
            old(self).shaped(),
            old(self).counted_with(hand),
            old(self).live(r),
        ensures
            final(self).shaped(),
            final(self).counted_with(hand),
            final(self).same_but_all_slots(*old(self)),
            forall|x: (usize, u64)| #[trigger] final(self).refs_of(x) == old(self).refs_of(x),
            forall|x: (usize, u64)| #[trigger]
                final(self).live(x) ==> final(self).entry(x) == if x == r {
                    stamped(old(self).entry(x), timestamp)
                } else {
                    old(self).entry(x)
                },
    {
        let ghost before = *self;
        let entry = self.publishers[r.0].arena.get_mut(&ArenaPtr { slot: r.1 as usize });
        entry.message.header = MessageHeader::new(timestamp);
        proof {
            let p = r.0 as int;
            let s = r.1 as int;
            let a = before.publishers@[p].arena.storage@;
            let b = self.publishers@[p].arena.storage@;
            assert(b =~= a.update(s, b[s]));
            assert(self.loan_groups()[p] == before.loan_groups()[p]);
            assert forall|y: (usize, u64)| #[trigger] self.refs_of(y) == before.refs_of(y) by {
                if y.0 == r.0 && (y.1 as int) < b.len() && y.1 != r.1 {
                    assert(b[y.1 as int] == a[y.1 as int]);
                }
            }
            assert forall|y: (usize, u64)| #[trigger]
                self.refs_of(y) == self.held_count(y) + crate::refs::count(hand, y) by {
                Self::lemma_publisher_change(before, *self, p, y);
                crate::publisher::lemma_forwards_update(a, s, b[s], y);
                assert(before.refs_of(y) == before.held_count(y) + crate::refs::count(hand, y));
            }
            assert forall|y: (usize, u64)| #[trigger] self.live(y) implies self.entry(y) == if y
                == r {
                stamped(before.entry(y), timestamp)
            } else {
                before.entry(y)
            } by {
                if y.0 == r.0 && y.1 != r.1 {
                    assert(b[y.1 as int] == a[y.1 as int]);
                }
            }
        }
    }

    /// Publishes what a publisher's sent loans hold: each message gets
    /// `timestamp` and goes to every connected subscriber, in the order of the
    /// loans and of the connections. Every loan ends; a message that was not
    /// sent is dropped. Adds the nodes to enqueue to `announced`, in the order
    /// in which they became ready, and the header of each published message to
    /// `headers`.
    pub fn flush_into(
        &mut self,
        publisher: usize,
        timestamp: FrameworkTime,
        announced: &mut Vec<CallbackNodeId>,
        headers: &mut Vec<MessageHeader>,
    )
        requires
            old(self).wf(),
            publisher < old(self).publishers@.len(),
        ensures
            final(self).wf(),
            final(self).same_readers(*old(self)),
            final(self).same_ports_but_loans(*old(self), publisher as int),
            final(self).publishers@[publisher as int].loaned_values@.len() == 0,
            final(self).flush_view(final(announced)@) == flushed(
                old(self).flush_view(old(announced)@),
                old(self).publishers@[publisher as int].connections@,
                publisher as int,
                old(self).publishers@[publisher as int].loaned_values@,
            ),
            final(self).stamps_sent(
                *old(self),
                publisher as int,
                old(self).publishers@[publisher as int].loaned_values@,
                timestamp,
            ),
            final(headers)@ == old(headers)@ + same_headers(
                timestamp,
                sent_count(old(self).publishers@[publisher as int].loaned_values@),
            ),
    {
        let ghost headers_before = headers@;
        let ghost p = publisher as int;
        let ghost loans = self.publishers@[p].loaned_values@;
        let ghost connections = self.publishers@[p].connections@;
        let ghost mut done: int = 0;
        assert(loans.skip(0) =~= loans);
        assert(loans.take(0) =~= Seq::empty());
        while self.publishers[publisher].loaned_values.len() > 0
            invariant
                self.wf(),
                p == publisher,
                publisher < self.publishers@.len(),
                loans == old(self).publishers@[p].loaned_values@,
                connections == old(self).publishers@[p].connections@,
                0 <= done <= loans.len(),
                self.publishers@[p].loaned_values@ == loans.skip(done),
                self.same_readers(*old(self)),
                self.same_ports_but_loans(*old(self), p),
                flushed(self.flush_view(announced@), connections, p, loans.skip(done)) == flushed(
                    old(self).flush_view(old(announced)@),
                    connections,
                    p,
                    loans,
                ),
                self.stamps_sent(*old(self), p, loans.take(done), timestamp),
                headers@ + same_headers(timestamp, sent_count(loans.skip(done))) == headers_before
                    + same_headers(timestamp, sent_count(loans)),
            decreases loans.len() - done,
        {
            let ghost round = *self;
            let loan = self.publishers[publisher].loaned_values.remove(0);
            let r: MessageRef = (publisher, loan.ptr.slot as u64);
            let ghost hand = seq![r];
            let ghost taken = *self;
            let ghost left = loans.skip(done).skip(1);
            assert(left =~= loans.skip(done + 1));
            assert(self.publishers@[p].loaned_values@ =~= left);
            assert(loan == loans[done]);
            assert(loans.take(done + 1) =~= loans.take(done).push(loan));
            proof {
                Self::lemma_take_loan(round, taken, p, r);
            }
            if loan.sent {
                self.stamp(r, timestamp, Ghost(hand));
                let ghost stamped_state = *self;
                proof {
                    assert(headers@.push(MessageHeader { published_at: timestamp }) + same_headers(
                        timestamp,
                        sent_count(left),
                    ) =~= headers@ + same_headers(timestamp, sent_count(left) + 1));
                }
                headers.push(MessageHeader::new(timestamp));
                let mut c: usize = 0;
                assert(connections.skip(0) =~= connections);
                assert(self.flush_view(announced@) =~= round.flush_view(announced@));
                let ghost view = self.flush_view(announced@);
                while c < self.publishers[publisher].connections.len()
                    invariant
                        self.shaped(),
                        self.counted_with(hand),
                        hand == seq![r],
                        p == publisher,
                        r.0 == publisher,
                        publisher < self.publishers@.len(),
                        c <= connections.len(),
                        self.publishers@[p].connections@ == connections,
                        self.same_publishers(stamped_state),
                        self.same_readers(stamped_state),
                        self.keeps_messages_of(stamped_state),
                        self.refs_of(r) <= c + 1,
                        forall|k: int|
                            0 <= k < self.publishers@[p].loaned_values@.len() ==> (#[trigger]
                            self.publishers@[p].loaned_values@[k]).ptr.slot != r.1,
                        delivered_to_all(
                            self.flush_view(announced@),
                            connections.skip(c as int),
                            r,
                        ) == delivered_to_all(view, connections, r),
                    decreases connections.len() - c,
                {
                    let connection = self.publishers[publisher].connections[c];
                    assert(self.connection_valid(self.publishers@[p].connections@[c as int]));
                    assert(connections.skip(c as int).skip(1) =~= connections.skip(c + 1));
                    let ghost inner = *self;
                    self.deliver(connection, r, announced);
                    proof {
                        assert forall|y: (usize, u64)| #[trigger] self.live(y) implies stamped_state.live(
                            y,
                        ) && self.entry(y) == stamped_state.entry(y) by {
                            assert(inner.live(y));
                        }
                    }
                    c = c + 1;
                }
            } else {
                assert(self.flush_view(announced@) =~= round.flush_view(announced@));
            }
            let ghost holding = *self;
            assert(hand =~= Seq::<(usize, u64)>::empty().push(r));
            self.release_ref(r, Ghost(Seq::empty()));
            proof {
                done = done + 1;
                assert(self.flush_view(announced@) =~= holding.flush_view(announced@));
                assert forall|y: (usize, u64)| #[trigger] self.live(y) implies old(self).live(y)
                    && self.entry(y) == stamped_if_sent(
                    *old(self),
                    p,
                    loans.take(done),
                    timestamp,
                    y,
                ) by {
                    assert(holding.live(y));
                    assert(taken.live(y));
                    assert(round.live(y));
                    lemma_sent_push(p, loans.take(done - 1), loan, y);
                }
            }
        }
        assert(loans.skip(done) =~= Seq::empty());
        assert(loans.take(done) =~= loans);
        assert(headers@ + same_headers(timestamp, 0) =~= headers@);
    }

    /// Publishes what a publisher's sent loans hold. Returns the nodes to
    /// enqueue, in the order in which they became ready, and the header of
    /// each published message.
    pub fn flush_loaned_values_logged(&mut self, publisher: usize, timestamp: FrameworkTime) -> (r: (
        Vec<CallbackNodeId>,
        Vec<MessageHeader>,
    ))
        requires
            old(self).wf(),
            publisher < old(self).publishers@.len(),
        ensures
            final(self).wf(),
            final(self).same_readers(*old(self)),
            final(self).same_ports_but_loans(*old(self), publisher as int),
            final(self).publishers@[publisher as int].loaned_values@.len() == 0,
            final(self).flush_view(r.0@) == flushed(
                old(self).flush_view(Seq::empty()),
                old(self).publishers@[publisher as int].connections@,
                publisher as int,
                old(self).publishers@[publisher as int].loaned_values@,
            ),
            final(self).stamps_sent(
                *old(self),
                publisher as int,
                old(self).publishers@[publisher as int].loaned_values@,
                timestamp,
            ),
            r.1@ == same_headers(
                timestamp,
                sent_count(old(self).publishers@[publisher as int].loaned_values@),
            ),
    {
        let mut announced: Vec<CallbackNodeId> = Vec::new();
        let mut headers: Vec<MessageHeader> = Vec::new();
        self.flush_into(publisher, timestamp, &mut announced, &mut headers);
        assert(headers@ =~= same_headers(
            timestamp,
            sent_count(old(self).publishers@[publisher as int].loaned_values@),
        ));
        (announced, headers)
    }

    /// [`flush_loaned_values_logged`](Self::flush_loaned_values_logged) where
    /// nobody looks at the published headers.
    pub fn flush_loaned_values(&mut self, publisher: usize, timestamp: FrameworkTime) -> (announced:
        Vec<CallbackNodeId>)
        requires
            old(self).wf(),
            publisher < old(self).publishers@.len(),
        ensures
            final(self).wf(),
            final(self).same_readers(*old(self)),
            final(self).same_ports_but_loans(*old(self), publisher as int),
            final(self).publishers@[publisher as int].loaned_values@.len() == 0,
            final(self).flush_view(announced@) == flushed(
                old(self).flush_view(Seq::empty()),
                old(self).publishers@[publisher as int].connections@,
                publisher as int,
                old(self).publishers@[publisher as int].loaned_values@,
            ),
            final(self).stamps_sent(
                *old(self),
                publisher as int,
                old(self).publishers@[publisher as int].loaned_values@,
                timestamp,
            ),
    {
        self.flush_loaned_values_logged(publisher, timestamp).0
    }

    /// Whether the publishers are the same up to what their slots hold and the
    /// loans of publisher `p`.
    pub open spec fn same_ports_but_loans(self, other: PubSub<T>, p: int) -> bool {
        &&& self.publishers@.len() == other.publishers@.len()
        &&& forall|q: int|
            0 <= q < self.publishers@.len() ==> same_port(
                #[trigger] self.publishers@[q],
                other.publishers@[q],
            ) && (q != p ==> self.publishers@[q].loaned_values@
                == other.publishers@[q].loaned_values@)
    }

    /// Whether every message that is there was there before, unchanged but
    /// for the time of publication of the loans that were sent.
    pub open spec fn stamps_sent(
        self,
        before: PubSub<T>,
        p: int,
        loans: Seq<LoanedValue>,
        timestamp: FrameworkTime,
    ) -> bool {
        forall|r: (usize, u64)| #[trigger]
            self.live(r) ==> before.live(r) && self.entry(r) == stamped_if_sent(
                before,
                p,
                loans,
                timestamp,
                r,
            )
    }

    /// Taking a loan into hand leaves its slot referenced once.
    pub(crate) proof fn lemma_take_loan(before: PubSub<T>, after: PubSub<T>, p: int, r: (usize, u64))
        requires
            before.wf(),
            0 <= p < before.publishers@.len(),
            p == r.0,
            before.publishers@[p].loaned_values@.len() > 0,
            r.1 == before.publishers@[p].loaned_values@[0].ptr.slot,
            after.publishers@.len() == before.publishers@.len(),
            after.subscribers == before.subscribers,
            after.readiness == before.readiness,
            forall|q: int|
                0 <= q < before.publishers@.len() && q != p ==> #[trigger] after.publishers@[q]
                    == before.publishers@[q],
            after.publishers@[p].config == before.publishers@[p].config,
            after.publishers@[p].value_type == before.publishers@[p].value_type,
            after.publishers@[p].connections == before.publishers@[p].connections,
            after.publishers@[p].arena == before.publishers@[p].arena,
            after.publishers@[p].forwarded_channels == before.publishers@[p].forwarded_channels,
            after.publishers@[p].loaned_values@ == before.publishers@[p].loaned_values@.skip(1),
        ensures
            after.shaped(),
            after.counted_with(seq![r]),
            after.refs_of(r) == 1,
            forall|x: (usize, u64)| #[trigger] after.refs_of(x) == before.refs_of(x),
            forall|k: int|
                0 <= k < after.publishers@[p].loaned_values@.len() ==> (#[trigger]
                after.publishers@[p].loaned_values@[k]).ptr.slot != r.1,
    {
        let a = before.loan_groups()[p];
        let b = after.loan_groups()[p];
        assert(b =~= a.skip(1));
        assert(before.publishers@[p].loaned_values@[0].ptr.slot == r.1);
        assert forall|y: (usize, u64)| #[trigger]
            after.refs_of(y) == after.held_count(y) + crate::refs::count(seq![r], y) by {
            Self::lemma_publisher_change(before, after, p, y);
            crate::refs::lemma_count_skip(a, y);
            crate::refs::lemma_count_push(Seq::empty(), r, y);
            assert(seq![r] =~= Seq::<(usize, u64)>::empty().push(r));
            assert(before.refs_of(y) == before.held_count(y) + crate::refs::count(Seq::empty(), y));
        }
        assert(before.refs_of(r) == 1);
        assert forall|k: int| 0 <= k < after.publishers@[p].loaned_values@.len() implies (#[trigger]
        after.publishers@[p].loaned_values@[k]).ptr.slot != r.1 by {
            after.lemma_loan_is_held(p, k);
            crate::refs::lemma_count_push(Seq::empty(), r, r);
            assert(seq![r] =~= Seq::<(usize, u64)>::empty().push(r));
            assert(after.refs_of(r) == 1);
        }
        assert forall|k: int| 0 <= k < after.publishers@[p].loaned_values@.len() implies after.publishers@[p].arena.refs(
        (#[trigger] after.publishers@[p].loaned_values@[k]).ptr.slot as int) == 1 by {
            assert(after.publishers@[p].loaned_values@[k]
                == before.publishers@[p].loaned_values@[k + 1]);
        }
    }

    /// Taking one more reference to a slot counts one more.
    proof fn lemma_clone_counts(before: PubSub<T>, after: PubSub<T>, r: (usize, u64))
        requires
            before.shaped(),
            before.counted_with(seq![r]),
            r.0 < before.publishers@.len(),
            after.subscribers == before.subscribers,
            after.readiness == before.readiness,
            after.publishers@.len() == before.publishers@.len(),
            forall|q: int|
                0 <= q < before.publishers@.len() && q != r.0 ==> #[trigger] after.publishers@[q]
                    == before.publishers@[q],
            same_but_slots(after.publishers@[r.0 as int], before.publishers@[r.0 as int]),
            before.refs_of(r) >= 1,
            after.publishers@[r.0 as int].arena.wf(),
            after.refs_of(r) == before.refs_of(r) + 1,
            forall|i: int|
                0 <= i < before.publishers@[r.0 as int].arena.storage@.len() && i != r.1
                    ==> #[trigger] after.publishers@[r.0 as int].arena.storage@[i]
                    == before.publishers@[r.0 as int].arena.storage@[i],
            after.publishers@[r.0 as int].arena.storage@[r.1 as int].payload
                == before.publishers@[r.0 as int].arena.storage@[r.1 as int].payload,
            forall|k: int|
                0 <= k < before.publishers@[r.0 as int].loaned_values@.len() ==> (#[trigger]
                before.publishers@[r.0 as int].loaned_values@[k]).ptr.slot != r.1,
        ensures
            after.shaped(),
            after.counted_with(seq![r].push(r)),
            after.keeps_messages_of(before),
            after.same_but_all_slots(before),
    {
        let p = r.0 as int;
        let s = r.1 as int;
        let a = before.publishers@[p].arena.storage@;
        let b = after.publishers@[p].arena.storage@;
        assert(b =~= a.update(s, b[s]));
        assert(after.loan_groups()[p] == before.loan_groups()[p]);
        assert forall|y: (usize, u64)| #[trigger]
            after.refs_of(y) == after.held_count(y) + crate::refs::count(seq![r].push(r), y) by {
            Self::lemma_publisher_change(before, after, p, y);
            crate::publisher::lemma_forwards_update(a, s, b[s], y);
            crate::refs::lemma_count_push(seq![r], r, y);
            assert(before.refs_of(y) == before.held_count(y) + crate::refs::count(seq![r], y));
            if y.0 == r.0 && y.1 != r.1 && (y.1 as int) < b.len() {
                assert(b[y.1 as int] == a[y.1 as int]);
            }
        }
        assert forall|y: (usize, u64)| #[trigger] after.live(y) implies before.live(y)
            && after.entry(y) == before.entry(y) by {
            if y.0 == r.0 && y.1 != r.1 && (y.1 as int) < b.len() {
                assert(b[y.1 as int] == a[y.1 as int]);
            }
        }
    }
}

/// Whether two subscribers are the same up to their write queues.
pub open spec fn same_reader(a: Subscriber, b: Subscriber) -> bool {
    &&& a.config == b.config
    &&& a.value_type == b.value_type
    &&& a.readiness_state == b.readiness_state
    &&& a.buffers.read_buffer == b.buffers.read_buffer
    &&& a.buffers.read_capacity == b.buffers.read_capacity
    &&& a.buffers.overwrite_reader_buffer_values == b.buffers.overwrite_reader_buffer_values
}

/// Whether `r` is a loan of publisher `p` that was sent.
pub open spec fn is_sent(p: int, loans: Seq<LoanedValue>, r: (usize, u64)) -> bool {
    exists|k: int|
        0 <= k < loans.len() && (#[trigger] loans[k]).sent && r == (
            p as usize,
            loans[k].ptr.slot as u64,
        )
}

/// What `r` referred to before, stamped where it is a loan that was sent.
pub open spec fn stamped_if_sent<T>(
    before: PubSub<T>,
    p: int,
    loans: Seq<LoanedValue>,
    timestamp: FrameworkTime,
    r: (usize, u64),
) -> Entry<T> {
    if is_sent(p, loans, r) {
        stamped(before.entry(r), timestamp)
    } else {
        before.entry(r)
    }
}

proof fn lemma_sent_push(p: int, loans: Seq<LoanedValue>, loan: LoanedValue, r: (usize, u64))
    ensures
        is_sent(p, loans.push(loan), r) <==> is_sent(p, loans, r) || (loan.sent && r == (
            p as usize,
            loan.ptr.slot as u64,
        )),
{
    let more = loans.push(loan);
    if is_sent(p, loans, r) {
        let k = choose|k: int|
            0 <= k < loans.len() && (#[trigger] loans[k]).sent && r == (
                p as usize,
                loans[k].ptr.slot as u64,
            );
        assert(more[k] == loans[k]);
    }
    if loan.sent && r == (p as usize, loan.ptr.slot as u64) {
        assert(more[loans.len() as int] == loan);
    }
    if is_sent(p, more, r) {
        let k = choose|k: int|
            0 <= k < more.len() && (#[trigger] more[k]).sent && r == (
                p as usize,
                more[k].ptr.slot as u64,
            );
        if k < loans.len() {
            assert(loans[k] == more[k]);
        }
    }
}

} // verus!
