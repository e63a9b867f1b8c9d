//! What holds of the pub/sub system as a whole.
use vstd::prelude::*;

use crate::pub_sub::{FlushView, PubSub};
use crate::publisher::{LoanedValue, SubscriberBuffer};

verus! {

/// The slots that the buffers of the connected subscribers can fill.
pub open spec fn buffered_by<T>(system: PubSub<T>, connections: Seq<SubscriberBuffer>) -> int
    decreases connections.len(),
{
    if connections.len() == 0 {
        0
    } else {
        buffered_by(system, connections.drop_last())
            + system.subscribers@[connections.last().subscriber as int].config.buffered()
    }
}

/// Publisher `p` is connected to subscriber `s`.
pub open spec fn connects<T>(system: PubSub<T>, p: int, s: int) -> bool {
    exists|c: int|
        0 <= c < system.publishers@[p].connections@.len() && (#[trigger]
        system.publishers@[p].connections@[c]).subscriber == s
}

/// Messages of publisher `p` are queued only at subscribers it is connected
/// to.
pub open spec fn routed<T>(system: PubSub<T>, p: int) -> bool {
    forall|s: int, i: int|
        0 <= s < system.subscribers@.len() && 0 <= i < system.subscribers@[s].held().len()
            && #[trigger] system.subscribers@[s].held()[i].0 == p ==> connects(system, p, s)
}

/// No message forwards a message of publisher `p`.
pub open spec fn not_forwarded<T>(system: PubSub<T>, p: int) -> bool {
    forall|q: int, i: int|
        0 <= q < system.publishers@.len() && 0 <= i < system.forward_groups()[q].len()
            ==> #[trigger] system.forward_groups()[q][i].0 != p
}

/// The arena of publisher `p` has a slot for each of its own loans and for
/// each message that a connected subscriber can hold.
pub open spec fn sized<T>(system: PubSub<T>, p: int) -> bool {
    system.publishers@[p].arena.storage@.len() >= system.publishers@[p].config.capacity
        + buffered_by(system, system.publishers@[p].connections@)
}

/// The part of `buffered_by` that the first `k` subscribers account for.
spec fn buffered_below<T>(system: PubSub<T>, connections: Seq<SubscriberBuffer>, k: int) -> int
    decreases connections.len(),
{
    if connections.len() == 0 {
        0
    } else {
        buffered_below(system, connections.drop_last(), k) + if connections.last().subscriber < k {
            system.subscribers@[connections.last().subscriber as int].config.buffered()
        } else {
            0
        }
    }
}

proof fn lemma_buffered_step<T>(system: PubSub<T>, connections: Seq<SubscriberBuffer>, k: int)
    requires
        0 <= k < system.subscribers@.len(),
        forall|c: int|
            0 <= c < connections.len() ==> (#[trigger] connections[c]).subscriber
                < system.subscribers@.len(),
    ensures
        buffered_below(system, connections, k + 1) >= buffered_below(system, connections, k),
        (exists|c: int| 0 <= c < connections.len() && (#[trigger] connections[c]).subscriber == k)
            ==> buffered_below(system, connections, k + 1) >= buffered_below(
            system,
            connections,
            k,
        ) + system.subscribers@[k].config.buffered(),
        buffered_below(system, connections, system.subscribers@.len() as int) == buffered_by(
            system,
            connections,
        ),
        buffered_by(system, connections) >= 0,
    decreases connections.len(),
{
    if connections.len() > 0 {
        let rest = connections.drop_last();
        lemma_buffered_step(system, rest, k);
        if exists|c: int| 0 <= c < connections.len() && (#[trigger] connections[c]).subscriber == k {
            let c = choose|c: int|
                0 <= c < connections.len() && (#[trigger] connections[c]).subscriber == k;
            if c < rest.len() {
                assert(rest[c].subscriber == k);
            }
        }
    }
}

proof fn lemma_buffered_from_zero<T>(system: PubSub<T>, connections: Seq<SubscriberBuffer>)
    ensures
        buffered_below(system, connections, 0) == 0,
    decreases connections.len(),
{
    if connections.len() > 0 {
        lemma_buffered_from_zero(system, connections.drop_last());
    }
}

/// The queues hold no more of a publisher's messages than the buffers of its
/// connected subscribers have room for.
proof fn lemma_queued_at_most<T>(system: PubSub<T>, p: usize, n: nat, k: int)
    requires
        system.wf(),
        routed(system, p as int),
        p < system.publishers@.len(),
        0 <= k <= system.subscribers@.len(),
    ensures
        crate::refs::count_all_below(system.queue_groups().take(k), p, n) <= buffered_below(
            system,
            system.publishers@[p as int].connections@,
            k,
        ),
    decreases k,
{
    let connections = system.publishers@[p as int].connections@;
    let groups = system.queue_groups();
    if k == 0 {
        lemma_buffered_from_zero(system, connections);
    } else {
        lemma_queued_at_most(system, p, n, k - 1);
        assert(groups.take(k).drop_last() =~= groups.take(k - 1));
        let held = system.subscribers@[k - 1].held();
        assert(groups.take(k).last() == held);
        assert forall|c: int| 0 <= c < connections.len() implies (#[trigger]
        connections[c]).subscriber < system.subscribers@.len() by {
            assert(system.connection_valid(system.publishers@[p as int].connections@[c]));
        }
        lemma_buffered_step(system, connections, k - 1);
        crate::refs::lemma_count_below_at_most(held, p, n);
        if crate::refs::count_below(held, p, n) > 0 {
            let i = lemma_below_found(held, p, n);
            assert(system.subscribers@[k - 1].held()[i].0 == p);
            assert(connects(system, p as int, k - 1));
        }
    }
}

proof fn lemma_below_found(items: Seq<(usize, u64)>, p: usize, n: nat) -> (i: int)
    requires
        crate::refs::count_below(items, p, n) > 0,
    ensures
        0 <= i < items.len(),
        items[i].0 == p,
    decreases items.len(),
{
    if items.last().0 == p && items.last().1 < n {
        items.len() - 1
    } else {
        lemma_below_found(items.drop_last(), p, n)
    }
}

proof fn lemma_none_below(groups: Seq<Seq<(usize, u64)>>, p: usize, n: nat)
    requires
        forall|q: int, i: int|
            0 <= q < groups.len() && 0 <= i < groups[q].len() ==> #[trigger] groups[q][i].0 != p,
    ensures
        crate::refs::count_all_below(groups, p, n) == 0,
    decreases groups.len(),
{
    if groups.len() > 0 {
        lemma_none_below(groups.drop_last(), p, n);
        let last = groups.last();
        if crate::refs::count_below(last, p, n) > 0 {
            let i = lemma_below_found(last, p, n);
            assert(groups[groups.len() - 1][i].0 != p);
        }
    }
}

/// Loans below slot `n` of publisher `p`, over the first `k` publishers.
proof fn lemma_loans_below<T>(system: PubSub<T>, p: usize, n: nat, k: int)
    requires
        0 <= k <= system.publishers@.len(),
        p < system.publishers@.len(),
    ensures
        crate::refs::count_all_below(system.loan_groups().take(k), p, n) <= if k > p {
            system.publishers@[p as int].loaned_values@.len()
        } else {
            0
        },
    decreases k,
{
    let groups = system.loan_groups();
    assert(system.publishers@.len() == system.publishers.len());
    if k > 0 {
        lemma_loans_below(system, p, n, k - 1);
        assert(groups.take(k).drop_last() =~= groups.take(k - 1));
        let last = groups.take(k).last();
        assert(last == groups[k - 1]);
        crate::refs::lemma_count_below_at_most(last, p, n);
        if crate::refs::count_below(last, p, n) > 0 {
            let i = lemma_below_found(last, p, n);
            assert(last[i].0 == (k - 1) as usize);
        }
    }
}

/// How many of the slots can be claimed.
pub open spec fn free_slots<T>(
    storage: Seq<crate::arena::ArenaSlot<crate::publisher::Entry<T>>>,
) -> nat
    decreases storage.len(),
{
    if storage.len() == 0 {
        0
    } else {
        free_slots(storage.drop_last()) + if storage.last().ref_count == 0 {
            1nat
        } else {
            0nat
        }
    }
}

/// Whether publisher `p` has a slot for each loan that it may still make.
pub open spec fn ample<T>(system: PubSub<T>, p: int) -> bool {
    system.publishers@[p].loaned_values@.len() + free_slots(
        system.publishers@[p].arena.storage@,
    ) >= system.publishers@[p].config.capacity
}

/// Where slots can be claimed, there is one.
proof fn lemma_free_slot_found<T>(
    storage: Seq<crate::arena::ArenaSlot<crate::publisher::Entry<T>>>,
) -> (i: int)
    requires
        free_slots(storage) > 0,
    ensures
        0 <= i < storage.len(),
        storage[i].ref_count == 0,
    decreases storage.len(),
{
    if storage.last().ref_count == 0 {
        storage.len() - 1
    } else {
        lemma_free_slot_found(storage.drop_last())
    }
}

/// A publisher that has a slot for each loan that it may still make can make
/// the next.
pub proof fn lemma_ample_can_loan<T>(system: PubSub<T>, p: int)
    requires
        ample(system, p),
    ensures
        crate::pub_sub_io::can_loan(system, p),
{
    let storage = system.publishers@[p].arena.storage@;
    if free_slots(storage) > 0 {
        let i = lemma_free_slot_found(storage);
        assert(system.publishers@[p].arena.storage@[i].ref_count == 0);
    }
}

/// Claiming a slot leaves one slot less to claim.
pub proof fn lemma_claimed_slot<T>(
    storage: Seq<crate::arena::ArenaSlot<crate::publisher::Entry<T>>>,
    i: int,
    slot: crate::arena::ArenaSlot<crate::publisher::Entry<T>>,
)
    requires
        0 <= i < storage.len(),
        storage[i].ref_count == 0,
        slot.ref_count > 0,
    ensures
        free_slots(storage.update(i, slot)) == free_slots(storage) - 1,
    decreases storage.len(),
{
    let after = storage.update(i, slot);
    if i < storage.len() - 1 {
        assert(after.drop_last() =~= storage.drop_last().update(i, slot));
        lemma_claimed_slot(storage.drop_last(), i, slot);
    } else {
        assert(after.drop_last() =~= storage.drop_last());
    }
}

/// There are at least as many references to the first `n` slots as there are
/// slots among them that cannot be claimed.
proof fn lemma_pigeonhole<T>(system: PubSub<T>, p: usize, n: nat)
    requires
        system.wf(),
        p < system.publishers@.len(),
        n <= system.publishers@[p as int].arena.storage@.len(),
    ensures
        crate::refs::count_all_below(system.loan_groups(), p, n) + crate::refs::count_all_below(
            system.queue_groups(),
            p,
            n,
        ) + crate::refs::count_all_below(system.forward_groups(), p, n) + free_slots(
            system.publishers@[p as int].arena.storage@.take(n as int),
        ) >= n,
    decreases n,
{
    if n > 0 {
        let m = (n - 1) as nat;
        let storage = system.publishers@[p as int].arena.storage@;
        assert(storage.take(n as int).drop_last() =~= storage.take(m as int));
        assert(storage.take(n as int).last() == storage[m as int]);
        lemma_pigeonhole(system, p, m);
        let slot = m as u64;
        crate::refs::lemma_count_all_below_step(system.loan_groups(), p, slot);
        crate::refs::lemma_count_all_below_step(system.queue_groups(), p, slot);
        crate::refs::lemma_count_all_below_step(system.forward_groups(), p, slot);
        assert(system.refs_of((p, slot)) == system.held_count((p, slot)) + crate::refs::count(
            Seq::empty(),
            (p, slot),
        ));
    }
}

/// A publisher whose arena has a slot for each of its own loans and for each
/// message that a connected subscriber can hold never runs out of slots: as
/// long as it has a loan to make, a slot is free.
pub proof fn law_sized_arena_never_runs_out<T>(system: PubSub<T>, p: int)
    requires
        system.wf(),
        0 <= p < system.publishers@.len(),
        routed(system, p),
        not_forwarded(system, p),
        sized(system, p),
    ensures
        ample(system, p),
        crate::pub_sub_io::can_loan(system, p),
{
    let storage = system.publishers@[p].arena.storage@;
    assert(system.publishers@.len() == system.publishers.len());
    if !ample(system, p) {
        let n = storage.len();
        let pu = p as usize;
        assert(storage.take(n as int) =~= storage);
        lemma_pigeonhole(system, pu, n);
        lemma_queued_at_most(system, pu, n, system.subscribers@.len() as int);
        assert(system.queue_groups().take(system.subscribers@.len() as int)
            =~= system.queue_groups());
        lemma_loans_below(system, pu, n, system.publishers@.len() as int);
        assert(system.loan_groups().take(system.publishers@.len() as int)
            =~= system.loan_groups());
        lemma_none_below(system.forward_groups(), pu, n);
        let connections = system.publishers@[p].connections@;
        assert forall|c: int| 0 <= c < connections.len() implies (#[trigger]
        connections[c]).subscriber < system.subscribers@.len() by {
            assert(system.connection_valid(system.publishers@[p].connections@[c]));
        }
        if system.subscribers@.len() > 0 {
            lemma_buffered_step(system, connections, system.subscribers@.len() - 1);
        } else {
            lemma_buffered_from_zero(system, connections);
            if connections.len() > 0 {
                assert(connections[0].subscriber < 0);
            }
        }
    }
    lemma_ample_can_loan(system, p);
}

/// How many of the connections lead to subscriber `s`.
pub open spec fn connection_count(connections: Seq<SubscriberBuffer>, s: int) -> nat
    decreases connections.len(),
{
    if connections.len() == 0 {
        0
    } else {
        connection_count(connections.skip(1), s) + if connections[0].subscriber == s {
            1nat
        } else {
            0nat
        }
    }
}

/// The references of the loans that were sent, in the order of the loans.
pub open spec fn sent_refs(p: int, loans: Seq<LoanedValue>) -> Seq<(usize, u64)>
    decreases loans.len(),
{
    if loans.len() == 0 {
        Seq::empty()
    } else if loans[0].sent {
        seq![(p as usize, loans[0].ptr.slot as u64)] + sent_refs(p, loans.skip(1))
    } else {
        sent_refs(p, loans.skip(1))
    }
}

/// A flush view whose parts fit together, and connections that lead into it.
pub open spec fn view_fits(view: FlushView, connections: Seq<SubscriberBuffer>) -> bool {
    &&& view.drops.len() == view.pending.len()
    &&& view.capacity.len() == view.pending.len()
    &&& forall|s: int|
        0 <= s < view.pending.len() ==> (#[trigger] view.pending[s]).len() <= view.capacity[s]
            && view.capacity[s] > 0
    &&& forall|c: int|
        0 <= c < connections.len() ==> (#[trigger] connections[c]).subscriber < view.pending.len()
}

pub(crate) proof fn lemma_delivered_to_all(
    view: FlushView,
    connections: Seq<SubscriberBuffer>,
    r: (usize, u64),
    s: int,
)
    requires
        view_fits(view, connections),
        0 <= s < view.pending.len(),
    ensures
        ({
            let after = crate::pub_sub::delivered_to_all(view, connections, r);
            &&& after.pending.len() == view.pending.len()
            &&& after.drops.len() == view.drops.len()
            &&& after.capacity == view.capacity
            &&& after.pending[s].len() <= view.capacity[s]
            &&& connection_count(connections, s) == 0 ==> after.pending[s] == view.pending[s]
            &&& connection_count(connections, s) == 1 ==> after.pending[s]
                == crate::mpsc_queue::pushed(view.pending[s], view.capacity[s], r)
            &&& forall|i: int|
                0 <= i < after.pending[s].len() ==> #[trigger] after.pending[s][i] == r
                    || view.pending[s].contains(after.pending[s][i])
        }),
    decreases connections.len(),
{
    if connections.len() > 0 {
        let next = crate::pub_sub::delivered(view, connections[0], r);
        let rest = connections.skip(1);
        assert forall|c: int| 0 <= c < rest.len() implies (#[trigger] rest[c]).subscriber
            < next.pending.len() by {
            assert(rest[c] == connections[c + 1]);
        }
        assert(view_fits(next, rest));
        lemma_delivered_to_all(next, rest, r, s);
        let after = crate::pub_sub::delivered_to_all(view, connections, r);
        assert forall|i: int| 0 <= i < after.pending[s].len() implies #[trigger] after.pending[s][i]
            == r || view.pending[s].contains(after.pending[s][i]) by {
            let x = after.pending[s][i];
            if x != r {
                let j = choose|j: int| 0 <= j < next.pending[s].len() && next.pending[s][j] == x;
                assert(next.pending[s][j] == x);
                if connections[0].subscriber == s {
                    let a = view.pending[s];
                    if a.len() < view.capacity[s] {
                        assert(next.pending[s] == a.push(r));
                        assert(a[j] == x);
                    } else {
                        assert(next.pending[s] == a.skip(1).push(r));
                        assert(a[j + 1] == x);
                    }
                }
            }
        }
    } else {
        let after = crate::pub_sub::delivered_to_all(view, connections, r);
        assert forall|i: int| 0 <= i < after.pending[s].len() implies #[trigger] after.pending[s][i]
            == r || view.pending[s].contains(after.pending[s][i]) by {
            assert(view.pending[s][i] == after.pending[s][i]);
        }
    }
}

pub(crate) proof fn lemma_delivered_fits(
    view: FlushView,
    connections: Seq<SubscriberBuffer>,
    r: (usize, u64),
)
    requires
        view_fits(view, connections),
    ensures
        view_fits(crate::pub_sub::delivered_to_all(view, connections, r), connections),
        crate::pub_sub::delivered_to_all(view, connections, r).pending.len() == view.pending.len(),
        crate::pub_sub::delivered_to_all(view, connections, r).capacity == view.capacity,
{
    let after = crate::pub_sub::delivered_to_all(view, connections, r);
    if view.pending.len() > 0 {
        lemma_delivered_to_all(view, connections, r, 0);
        assert forall|s: int| 0 <= s < after.pending.len() implies (#[trigger]
        after.pending[s]).len() <= after.capacity[s] && after.capacity[s] > 0 by {
            lemma_delivered_to_all(view, connections, r, s);
            assert(view.pending[s].len() <= view.capacity[s]);
        }
    } else if connections.len() > 0 {
        assert(connections[0].subscriber < 0);
    }
}

proof fn lemma_newest_twice(a: Seq<(usize, u64)>, b: Seq<(usize, u64)>, capacity: nat)
    ensures
        crate::mpsc_queue::newest(crate::mpsc_queue::newest(a, capacity) + b, capacity)
            == crate::mpsc_queue::newest(a + b, capacity),
{
    assert(crate::mpsc_queue::newest(crate::mpsc_queue::newest(a, capacity) + b, capacity)
        =~= crate::mpsc_queue::newest(a + b, capacity));
}

/// A flush appends the sent messages, in the order of the loans, to the write
/// queue of every subscriber that is connected once; the queue keeps the
/// newest. A subscriber that is not connected sees nothing of it.
pub proof fn law_flush_reaches_each_connected_subscriber(
    view: FlushView,
    connections: Seq<SubscriberBuffer>,
    p: int,
    loans: Seq<LoanedValue>,
    s: int,
)
    requires
        view_fits(view, connections),
        0 <= s < view.pending.len(),
    ensures
        ({
            let after = crate::pub_sub::flushed(view, connections, p, loans);
            &&& after.pending.len() == view.pending.len()
            &&& connection_count(connections, s) == 0 ==> after.pending[s] == view.pending[s]
            &&& connection_count(connections, s) == 1 ==> after.pending[s]
                == crate::mpsc_queue::newest(
                view.pending[s] + sent_refs(p, loans),
                view.capacity[s],
            )
        }),
    decreases loans.len(),
{
    assert(view.pending[s].len() <= view.capacity[s]);
    if loans.len() == 0 {
        assert(view.pending[s] + sent_refs(p, loans) =~= view.pending[s]);
    } else {
        let r = (p as usize, loans[0].ptr.slot as u64);
        let rest = loans.skip(1);
        if loans[0].sent {
            let next = crate::pub_sub::delivered_to_all(view, connections, r);
            lemma_delivered_to_all(view, connections, r, s);
            lemma_delivered_fits(view, connections, r);
            law_flush_reaches_each_connected_subscriber(next, connections, p, rest, s);
            if connection_count(connections, s) == 1 {
                let a = view.pending[s];
                let tail = sent_refs(p, rest);
                crate::mpsc_queue::lemma_push_keeps_newest(a, view.capacity[s], r);
                lemma_newest_twice(a.push(r), tail, view.capacity[s]);
                assert(a + sent_refs(p, loans) =~= a.push(r) + tail);
            }
        } else {
            law_flush_reaches_each_connected_subscriber(view, connections, p, rest, s);
        }
    }
}

/// What a flush leaves in a write queue was there before or is a message that
/// was sent to that subscriber over a connection.
pub proof fn law_flush_follows_connections(
    view: FlushView,
    connections: Seq<SubscriberBuffer>,
    p: int,
    loans: Seq<LoanedValue>,
    s: int,
    i: int,
)
    requires
        view_fits(view, connections),
        0 <= s < view.pending.len(),
        0 <= i < crate::pub_sub::flushed(view, connections, p, loans).pending[s].len(),
    ensures
        ({
            let item = crate::pub_sub::flushed(view, connections, p, loans).pending[s][i];
            view.pending[s].contains(item) || (connection_count(connections, s) > 0 && sent_refs(
                p,
                loans,
            ).contains(item))
        }),
    decreases loans.len(),
{
    let item = crate::pub_sub::flushed(view, connections, p, loans).pending[s][i];
    if loans.len() == 0 {
        assert(view.pending[s][i] == item);
    } else {
        let r = (p as usize, loans[0].ptr.slot as u64);
        let rest = loans.skip(1);
        let tail = sent_refs(p, rest);
        if loans[0].sent {
            let next = crate::pub_sub::delivered_to_all(view, connections, r);
            lemma_delivered_to_all(view, connections, r, s);
            lemma_delivered_fits(view, connections, r);
            law_flush_follows_connections(next, connections, p, rest, s, i);
            let all = sent_refs(p, loans);
            assert(all =~= seq![r] + tail);
            if tail.contains(item) && connection_count(connections, s) > 0 {
                let k = choose|k: int| 0 <= k < tail.len() && tail[k] == item;
                assert(all[k + 1] == item);
            } else {
                let k = choose|k: int| 0 <= k < next.pending[s].len() && next.pending[s][k] == item;
                assert(next.pending[s][k] == item);
                if item == r && !view.pending[s].contains(item) {
                    assert(all[0] == item);
                }
            }
        } else {
            law_flush_follows_connections(view, connections, p, rest, s, i);
        }
    }
}

/// What was published is what is read: where the buffers have room, a drain
/// after a flush leaves the reader with what it could read before, then what
/// was pending, then the messages that were sent, in the order of the loans.
pub proof fn law_published_is_read(
    readable: Seq<(usize, u64)>,
    view: FlushView,
    connections: Seq<SubscriberBuffer>,
    p: int,
    loans: Seq<LoanedValue>,
    s: int,
)
    requires
        view_fits(view, connections),
        0 <= s < view.pending.len(),
        connection_count(connections, s) == 1,
        readable.len() + view.pending[s].len() + sent_refs(p, loans).len() <= view.capacity[s],
    ensures
        crate::mpsc_queue::newest(
            readable + crate::pub_sub::flushed(view, connections, p, loans).pending[s],
            view.capacity[s],
        ) == readable + view.pending[s] + sent_refs(p, loans),
{
    law_flush_reaches_each_connected_subscriber(view, connections, p, loans, s);
    assert(readable + (view.pending[s] + sent_refs(p, loans)) =~= readable + view.pending[s]
        + sent_refs(p, loans));
}

/// The newest message that was sent is the newest that is read, however full
/// the buffers were.
pub proof fn law_newest_published_is_read(
    readable: Seq<(usize, u64)>,
    view: FlushView,
    connections: Seq<SubscriberBuffer>,
    p: int,
    loans: Seq<LoanedValue>,
    s: int,
)
    requires
        view_fits(view, connections),
        0 <= s < view.pending.len(),
        connection_count(connections, s) == 1,
        sent_refs(p, loans).len() > 0,
    ensures
        ({
            let read = crate::mpsc_queue::newest(
                readable + crate::pub_sub::flushed(view, connections, p, loans).pending[s],
                view.capacity[s],
            );
            read.len() > 0 && read.last() == sent_refs(p, loans).last()
        }),
{
    law_flush_reaches_each_connected_subscriber(view, connections, p, loans, s);
    assert(view.pending[s].len() <= view.capacity[s]);
}

/// A flush keeps every publisher's messages at the subscribers it is connected
/// to.
pub proof fn law_flush_keeps_routes<T>(before: PubSub<T>, after: PubSub<T>, p: int, q: int)
    requires
        before.wf(),
        0 <= p < before.publishers@.len(),
        0 <= q < before.publishers@.len(),
        routed(before, q),
        after.same_readers(before),
        after.same_ports_but_loans(before, p),
        exists|announced: Seq<crate::scheduling::CallbackNodeId>|
            #![trigger after.flush_view(announced)]
            after.flush_view(announced) == crate::pub_sub::flushed(
                before.flush_view(Seq::empty()),
                before.publishers@[p].connections@,
                p,
                before.publishers@[p].loaned_values@,
            ),
    ensures
        routed(after, q),
{
    let announced = choose|announced: Seq<crate::scheduling::CallbackNodeId>|
        #![trigger after.flush_view(announced)]
        after.flush_view(announced) == crate::pub_sub::flushed(
            before.flush_view(Seq::empty()),
            before.publishers@[p].connections@,
            p,
            before.publishers@[p].loaned_values@,
        );
    let view = before.flush_view(Seq::empty());
    let connections = before.publishers@[p].connections@;
    let loans = before.publishers@[p].loaned_values@;
    assert forall|c: int| 0 <= c < connections.len() implies (#[trigger] connections[c]).subscriber
        < view.pending.len() by {
        assert(before.connection_valid(before.publishers@[p].connections@[c]));
    }
    assert forall|s: int| 0 <= s < view.pending.len() implies (#[trigger] view.pending[s]).len()
        <= view.capacity[s] && view.capacity[s] > 0 by {
        assert(before.subscribers@[s].wf());
    }
    assert(view_fits(view, connections));
    assert(before.publishers@.len() == before.publishers.len());
    assert forall|s: int, i: int|
        0 <= s < after.subscribers@.len() && 0 <= i < after.subscribers@[s].held().len()
            && #[trigger] after.subscribers@[s].held()[i].0 == q implies connects(after, q, s) by {
        let a = before.subscribers@[s];
        let b = after.subscribers@[s];
        let item = b.held()[i];
        let n = b.buffers.readable().len();
        assert(crate::pub_sub::same_reader(b, a));
        assert(connects(before, q, s)) by {
            if i < n {
                assert(a.held()[i] == item);
            } else {
                assert(after.flush_view(announced).pending[s] == b.buffers.pending());
                law_flush_follows_connections(view, connections, p, loans, s, i - n);
                if view.pending[s].contains(item) {
                    let k = choose|k: int|
                        0 <= k < view.pending[s].len() && view.pending[s][k] == item;
                    assert(a.held()[n + k] == item);
                } else {
                    let k = choose|k: int|
                        0 <= k < sent_refs(p, loans).len() && sent_refs(p, loans)[k] == item;
                    lemma_sent_refs_owner(p, loans, k);
                    lemma_connection_found(connections, s);
                }
            }
        }
        let c = choose|c: int|
            0 <= c < before.publishers@[q].connections@.len() && (#[trigger]
            before.publishers@[q].connections@[c]).subscriber == s;
        assert(crate::pub_sub::same_port(after.publishers@[q], before.publishers@[q]));
        assert(after.publishers@[q].connections@[c].subscriber == s);
    }
}

proof fn lemma_sent_refs_owner(p: int, loans: Seq<LoanedValue>, k: int)
    requires
        0 <= k < sent_refs(p, loans).len(),
    ensures
        sent_refs(p, loans)[k].0 == p as usize,
    decreases loans.len(),
{
    if loans[0].sent {
        if k > 0 {
            lemma_sent_refs_owner(p, loans.skip(1), k - 1);
        }
    } else {
        lemma_sent_refs_owner(p, loans.skip(1), k);
    }
}

proof fn lemma_connection_found(connections: Seq<SubscriberBuffer>, s: int)
    requires
        connection_count(connections, s) > 0,
    ensures
        exists|c: int| 0 <= c < connections.len() && (#[trigger] connections[c]).subscriber == s,
    decreases connections.len(),
{
    if connections[0].subscriber != s {
        lemma_connection_found(connections.skip(1), s);
        let c = choose|c: int|
            0 <= c < connections.skip(1).len() && (#[trigger] connections.skip(1)[c]).subscriber
                == s;
        assert(connections[c + 1].subscriber == s);
    }
}

/// A drain of a subscriber keeps every publisher's messages at the subscribers
/// it is connected to.
pub proof fn law_drain_keeps_routes<T>(before: PubSub<T>, after: PubSub<T>, s: int, q: int)
    requires
        0 <= s < before.subscribers@.len(),
        0 <= q < before.publishers@.len(),
        routed(before, q),
        after.only_reader_changed(before, s),
        after.subscribers@[s].buffers.pending().len() == 0,
        after.subscribers@[s].buffers.readable() == crate::mpsc_queue::newest(
            before.subscribers@[s].buffers.readable() + before.subscribers@[s].buffers.pending(),
            before.subscribers@[s].config.capacity as nat,
        ),
    ensures
        routed(after, q),
{
    assert forall|t: int, i: int|
        0 <= t < after.subscribers@.len() && 0 <= i < after.subscribers@[t].held().len()
            && #[trigger] after.subscribers@[t].held()[i].0 == q implies connects(after, q, t) by {
        let all = before.subscribers@[t].held();
        let item = after.subscribers@[t].held()[i];
        assert(connects(before, q, t)) by {
            if t == s {
                let capacity = before.subscribers@[s].config.capacity;
                let skipped = if all.len() <= capacity {
                    0
                } else {
                    all.len() - capacity
                };
                assert(all[i + skipped] == item);
            } else {
                assert(all[i] == item);
            }
        }
        let c = choose|c: int|
            0 <= c < before.publishers@[q].connections@.len() && (#[trigger]
            before.publishers@[q].connections@[c]).subscriber == t;
        assert(crate::pub_sub::same_but_slots(after.publishers@[q], before.publishers@[q]));
        assert(after.publishers@[q].connections@[c].subscriber == t);
    }
}

} // verus!
