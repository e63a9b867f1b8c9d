//! Loaning as many messages as a publisher has room for at once.
use vstd::prelude::*;

use crate::arena::ArenaSlot;
use crate::pub_sub::PubSub;
use crate::publisher::Entry;

verus! {

/// How many of the slots can be claimed.
pub open spec fn free_count<T>(storage: Seq<ArenaSlot<T>>) -> nat
    decreases storage.len(),
{
    if storage.len() == 0 {
        0
    } else {
        free_count(storage.drop_last()) + if storage.last().ref_count == 0 {
            1nat
        } else {
            0nat
        }
    }
}

/// Claiming a free slot leaves one less.
proof fn lemma_claim<T>(storage: Seq<ArenaSlot<T>>, i: int, slot: ArenaSlot<T>)
    requires
        0 <= i < storage.len(),
        storage[i].ref_count == 0,
        slot.ref_count > 0,
    ensures
        free_count(storage.update(i, slot)) + 1 == free_count(storage),
    decreases storage.len(),
{
    let updated = storage.update(i, slot);
    if i < storage.len() - 1 {
        lemma_claim(storage.drop_last(), i, slot);
        assert(updated.drop_last() =~= storage.drop_last().update(i, slot));
    } else {
        assert(updated.drop_last() =~= storage.drop_last());
    }
}

/// Where slots are free, one of them can be found.
proof fn lemma_some_free<T>(storage: Seq<ArenaSlot<T>>) -> (i: int)
    requires
        free_count(storage) > 0,
    ensures
        0 <= i < storage.len(),
        storage[i].ref_count == 0,
    decreases storage.len(),
{
    if storage.last().ref_count == 0 {
        storage.len() - 1
    } else {
        lemma_some_free(storage.drop_last())
    }
}

impl<T> PubSub<T> {
    /// Whether publisher `p` has a free slot for each message of its capacity.
    pub open spec fn span_left(self, p: int) -> bool {
        &&& self.publishers@[p].loaned_values@.len() == 0
        &&& free_count(self.publishers@[p].arena.storage@) >= self.publishers@[p].config.capacity
    }

    /// The reference to the `i`-th loan of publisher `p`.
    pub open spec fn loan_ref(self, p: int, i: int) -> (usize, u64) {
        (p as usize, self.publishers@[p].loaned_values@[i].ptr.slot as u64)
    }

    /// Whether the `i`-th loan of publisher `p` is `entry`, not sent yet.
    pub open spec fn loan_is(self, p: int, i: int, entry: Entry<T>) -> bool {
        &&& !self.publishers@[p].loaned_values@[i].sent
        &&& self.live(self.loan_ref(p, i))
        &&& self.entry(self.loan_ref(p, i)) == entry
    }

    /// Whether publisher `p` loaned `entries`, and nothing else of the
    /// publishers changed.
    pub open spec fn loaned_span(self, before: PubSub<T>, p: int, entries: Seq<Entry<T>>) -> bool {
        &&& self.publishers@.len() == before.publishers@.len()
        &&& forall|q: int|
            0 <= q < before.publishers@.len() && q != p ==> #[trigger] self.publishers@[q]
                == before.publishers@[q]
        &&& crate::pub_sub::same_port(self.publishers@[p], before.publishers@[p])
        &&& self.publishers@[p].loaned_values@.len() == entries.len()
        &&& forall|i: int| 0 <= i < entries.len() ==> self.loan_is(p, i, #[trigger] entries[i])
        &&& forall|r: (usize, u64)| #[trigger]
            before.live(r) ==> self.live(r) && self.entry(r) == before.entry(r)
    }

    /// One more loan extends a span.
    proof fn lemma_span_grows(
        start: PubSub<T>,
        before: PubSub<T>,
        after: PubSub<T>,
        p: int,
        entries: Seq<Entry<T>>,
        entry: Entry<T>,
    )
        requires
            start.publishers@.len() == before.publishers@.len(),
            before.shaped(),
            0 <= p < before.publishers@.len(),
            p <= usize::MAX,
            before.loaned_span(start, p, entries),
            after.loaned_one_more(before, p, entry),
        ensures
            after.loaned_span(start, p, entries.push(entry)),
            free_count(after.publishers@[p].arena.storage@) + 1 == free_count(
                before.publishers@[p].arena.storage@,
            ),
    {
        let loans = before.publishers@[p].loaned_values@;
        let all = after.publishers@[p].loaned_values@;
        let slot = all.last().ptr.slot as int;
        let storage = before.publishers@[p].arena.storage@;
        lemma_claim(storage, slot, ArenaSlot { ref_count: 1, payload: Some(entry) });
        assert forall|q: int| 0 <= q < start.publishers@.len() && q != p implies #[trigger]
        after.publishers@[q] == start.publishers@[q] by {
            assert(before.publishers@[q] == start.publishers@[q]);
        }
        assert forall|r: (usize, u64)| #[trigger] before.live(r) implies after.live(r)
            && after.entry(r) == before.entry(r) by {
            if r.0 == p {
                assert(r.1 != slot);
            } else {
                assert(after.publishers@[r.0 as int] == before.publishers@[r.0 as int]);
            }
        }
        assert forall|i: int| 0 <= i < entries.push(entry).len() implies after.loan_is(
            p,
            i,
            #[trigger] entries.push(entry)[i],
        ) by {
            if i < entries.len() {
                assert(before.loan_is(p, i, entries[i]));
                assert(all.drop_last()[i] == loans[i]);
                assert(before.live(before.loan_ref(p, i)));
                assert(after.loan_ref(p, i) == before.loan_ref(p, i));
            } else {
                assert(all[i] == all.last());
                assert(after.loan_ref(p, i) == (p as usize, slot as u64));
            }
        }
        assert forall|r: (usize, u64)| #[trigger] start.live(r) implies after.live(r)
            && after.entry(r) == start.entry(r) by {
            assert(before.live(r));
        }
    }

    /// Loans as many messages from a publisher as its capacity says, with the
    /// given payloads.
    pub fn loan_span(&mut self, publisher: usize, payloads: Vec<T>)
        requires
            old(self).wf(),
            publisher < old(self).publishers@.len(),
            old(self).span_left(publisher as int),
            payloads@.len() == old(self).publishers@[publisher as int].config.capacity,
        ensures
            final(self).wf(),
            final(self).subscribers == old(self).subscribers,
            final(self).readiness == old(self).readiness,
            final(self).loaned_span(
                *old(self),
                publisher as int,
                payloads@.map_values(|payload: T| crate::pub_sub_io::unpublished(payload, None)),
            ),
    {
        let ghost p = publisher as int;
        let ghost all = payloads@;
        let ghost mut entries: Seq<Entry<T>> = Seq::empty();
        let mut rest = payloads;
        assert(all.skip(0) =~= all);
        while rest.len() > 0
            invariant
                p == publisher,
                publisher < old(self).publishers@.len(),
                self.wf(),
                self.subscribers == old(self).subscribers,
                self.readiness == old(self).readiness,
                self.loaned_span(*old(self), p, entries),
                entries.len() + rest@.len() == all.len(),
                all.len() == old(self).publishers@[p].config.capacity,
                rest@ == all.skip(entries.len() as int),
                entries == all.take(entries.len() as int).map_values(
                    |payload: T| crate::pub_sub_io::unpublished(payload, None),
                ),
                free_count(self.publishers@[p].arena.storage@) >= rest@.len(),
            decreases rest@.len(),
        {
            let ghost before = *self;
            let ghost n = entries.len() as int;
            let payload = rest.remove(0);
            proof {
                assert(payload == all[n]);
                assert(rest@ =~= all.skip(n + 1));
                let free = lemma_some_free(self.publishers@[p].arena.storage@);
                assert(self.publishers@[p].arena.storage@[free].ref_count == 0);
            }
            let _ = self.loan_with(publisher, payload);
            proof {
                let entry = crate::pub_sub_io::unpublished(payload, None);
                Self::lemma_span_grows(*old(self), before, *self, p, entries, entry);
                entries = entries.push(entry);
                assert(entries =~= all.take(n + 1).map_values(
                    |payload: T| crate::pub_sub_io::unpublished(payload, None),
                ));
            }
        }
        assert(all.take(all.len() as int) =~= all);
    }

    /// Loans as many messages from `publisher` as its capacity says, with the
    /// given payloads. Each forwards one of the messages that `subscriber` can
    /// read, oldest first; what is left of them is dropped.
    pub fn forward_span(&mut self, subscriber: usize, publisher: usize, payloads: Vec<T>)
        requires
            old(self).wf(),
            subscriber < old(self).subscribers@.len(),
            publisher < old(self).publishers@.len(),
            old(self).span_left(publisher as int),
            payloads@.len() == old(self).publishers@[publisher as int].config.capacity,
            old(self).subscribers@[subscriber as int].buffers.readable().len() >= payloads@.len(),
        ensures
            final(self).wf(),
            final(self).readiness == old(self).readiness,
            final(self).subscribers@.len() == old(self).subscribers@.len(),
            forall|q: int|
                0 <= q < old(self).subscribers@.len() && q != subscriber ==> #[trigger] final(
                    self).subscribers@[q] == old(self).subscribers@[q],
            crate::callback::same_but_read(
                final(self).subscribers@[subscriber as int],
                old(self).subscribers@[subscriber as int],
            ),
            final(self).subscribers@[subscriber as int].buffers.readable().len() == 0,
            final(self).same_ports_but_loans(*old(self), publisher as int),
            final(self).publishers@[publisher as int].loaned_values@.len() == payloads@.len(),
            forall|i: int|
                0 <= i < payloads@.len() ==> final(self).loan_is(
                    publisher as int,
                    i,
                    crate::pub_sub_io::unpublished(
                        #[trigger] payloads@[i],
                        Some(old(self).subscribers@[subscriber as int].buffers.readable()[i]),
                    ),
                ),
    {
        let ghost p = publisher as int;
        let ghost s = subscriber as int;
        let ghost all = payloads@;
        let ghost readable = self.subscribers@[s].buffers.readable();
        let ghost mut entries: Seq<Entry<T>> = Seq::empty();
        let mut rest = payloads;
        assert(all.skip(0) =~= all);
        assert(readable.skip(0) =~= readable);
        while rest.len() > 0
            invariant
                p == publisher,
                s == subscriber,
                publisher < old(self).publishers@.len(),
                subscriber < old(self).subscribers@.len(),
                readable == old(self).subscribers@[s].buffers.readable(),
                readable.len() >= all.len(),
                self.wf(),
                self.readiness == old(self).readiness,
                self.subscribers@.len() == old(self).subscribers@.len(),
                forall|q: int|
                    0 <= q < old(self).subscribers@.len() && q != s ==> #[trigger]
                    self.subscribers@[q] == old(self).subscribers@[q],
                crate::callback::same_but_read(self.subscribers@[s], old(self).subscribers@[s]),
                self.subscribers@[s].buffers.readable() == readable.skip(entries.len() as int),
                self.loaned_span(*old(self), p, entries),
                entries.len() + rest@.len() == all.len(),
                all.len() == old(self).publishers@[p].config.capacity,
                rest@ == all.skip(entries.len() as int),
                forall|i: int|
                    0 <= i < entries.len() ==> #[trigger] entries[i]
                        == crate::pub_sub_io::unpublished(all[i], Some(readable[i])),
                free_count(self.publishers@[p].arena.storage@) >= rest@.len(),
            decreases rest@.len(),
        {
            let ghost before = *self;
            let ghost n = entries.len() as int;
            let payload = rest.remove(0);
            proof {
                assert(payload == all[n]);
                assert(rest@ =~= all.skip(n + 1));
                let free = lemma_some_free(self.publishers@[p].arena.storage@);
                assert(self.publishers@[p].arena.storage@[free].ref_count == 0);
                assert(readable.skip(n)[0] == readable[n]);
                assert(readable.skip(n).skip(1) =~= readable.skip(n + 1));
            }
            let _ = self.forward(subscriber, publisher, payload);
            proof {
                let entry = crate::pub_sub_io::unpublished(payload, Some(readable[n]));
                Self::lemma_span_grows(*old(self), before, *self, p, entries, entry);
                entries = entries.push(entry);
            }
        }
        let ghost forwarded = *self;
        self.drain_inputs(subscriber);
        proof {
            assert forall|i: int| 0 <= i < all.len() implies self.loan_is(
                p,
                i,
                crate::pub_sub_io::unpublished(#[trigger] all[i], Some(readable[i])),
            ) by {
                assert(forwarded.loan_is(p, i, entries[i]));
                assert(crate::pub_sub::same_but_slots(self.publishers@[p], forwarded.publishers@[p]));
                assert(self.loan_ref(p, i) == forwarded.loan_ref(p, i));
                assert(self.publishers@[p].arena.refs(
                    self.publishers@[p].loaned_values@[i].ptr.slot as int,
                ) == 1);
                assert(self.live(self.loan_ref(p, i)));
            }
            assert forall|q: int| 0 <= q < self.publishers@.len() implies crate::pub_sub::same_port(
                #[trigger] self.publishers@[q],
                old(self).publishers@[q],
            ) && (q != p ==> self.publishers@[q].loaned_values@ == old(
                self).publishers@[q].loaned_values@) by {
                assert(crate::pub_sub::same_but_slots(self.publishers@[q], forwarded.publishers@[q]));
                if q != p {
                    assert(forwarded.publishers@[q] == old(self).publishers@[q]);
                }
            }
        }
    }
}

} // verus!
