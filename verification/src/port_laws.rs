//! What the ports of a callback are for: what is loaned waits until it is sent,
//! what is sent keeps its payload, and what is read or forwarded is the oldest
//! message that arrived.
use vstd::prelude::*;

use crate::arena::ArenaSlot;
use crate::callback::{PublisherPort, SubscriberPort};
use crate::output::{ForwardedOutput, Output};
use crate::pub_sub::{FlushView, PubSub};
use crate::publisher::{Publisher, SubscriberBuffer};
use crate::readiness::CallbackNodeReadiness;
use crate::scheduling::CallbackNodeId;
use crate::subscriber::Subscriber;
use crate::time::{Duration, FrameworkTime};

verus! {

/// A loaned message holds its payload in a slot that was free, counts as not
/// published and as not sent, and belongs to nobody else. The earlier loans, the
/// other slots and the other publishers stay as they were.
pub proof fn law_loaned_message_waits<T>(
    before: PubSub<T>,
    after: PubSub<T>,
    p: int,
    payload: T,
    forwarded: Option<(usize, u64)>,
)
    requires
        0 <= p < before.publishers@.len(),
        after.loaned_one_more(before, p, crate::pub_sub_io::unpublished(payload, forwarded)),
    ensures
        ({
            let old_loans = before.publishers@[p].loaned_values@;
            let loans = after.publishers@[p].loaned_values@;
            let slot = loans[old_loans.len() as int].ptr.slot as int;
            let slots = after.publishers@[p].arena.storage@;
            &&& loans.len() == old_loans.len() + 1
            &&& !loans[old_loans.len() as int].sent
            &&& forall|i: int| 0 <= i < old_loans.len() ==> #[trigger] loans[i] == old_loans[i]
            &&& 0 <= slot < before.publishers@[p].arena.storage@.len()
            &&& before.publishers@[p].arena.storage@[slot].ref_count == 0
            &&& slots.len() == before.publishers@[p].arena.storage@.len()
            &&& slots[slot].ref_count == 1
            &&& slots[slot].payload is Some
            &&& slots[slot].payload->0.message.message == payload
            &&& slots[slot].payload->0.message.header.published_at.nanoseconds == i64::MIN
            &&& slots[slot].payload->0.forwarded == forwarded
            &&& forall|i: int|
                0 <= i < slots.len() && i != slot ==> #[trigger] slots[i]
                    == before.publishers@[p].arena.storage@[i]
        }),
        after.publishers@.len() == before.publishers@.len(),
        forall|q: int|
            0 <= q < before.publishers@.len() && q != p ==> #[trigger] after.publishers@[q]
                == before.publishers@[q],
{
    let old_loans = before.publishers@[p].loaned_values@;
    let loans = after.publishers@[p].loaned_values@;
    assert(loans.last() == loans[old_loans.len() as int]);
    assert forall|i: int| 0 <= i < old_loans.len() implies #[trigger] loans[i] == old_loans[i] by {
        assert(loans.drop_last()[i] == loans[i]);
    }
}

/// Sending marks one loan as sent and changes nothing else.
pub proof fn law_sending_marks_one_loan<T>(
    before: PubSub<T>,
    after: PubSub<T>,
    publisher: usize,
    index: usize,
)
    requires
        publisher < before.publishers@.len(),
        index < before.publishers@[publisher as int].loaned_values@.len(),
        crate::output::sent(before, after, publisher, index),
    ensures
        ({
            let old_loans = before.publishers@[publisher as int].loaned_values@;
            let loans = after.publishers@[publisher as int].loaned_values@;
            &&& loans.len() == old_loans.len()
            &&& loans[index as int].sent
            &&& forall|i: int|
                0 <= i < loans.len() ==> (#[trigger] loans[i]).ptr == old_loans[i].ptr && (i
                    != index ==> loans[i].sent == old_loans[i].sent)
        }),
        after.publishers@[publisher as int].arena == before.publishers@[publisher as int].arena,
        after.subscribers == before.subscribers,
        after.readiness == before.readiness,
        after.publishers@.len() == before.publishers@.len(),
        forall|q: int|
            0 <= q < before.publishers@.len() && q != publisher ==> #[trigger] after.publishers@[q]
                == before.publishers@[q],
{
}

/// Writing to a loan changes its payload alone: its header and what it forwards
/// stay, and so do all other messages.
pub proof fn law_writing_changes_one_payload<T>(
    before: PubSub<T>,
    after: PubSub<T>,
    output: Output,
    value: T,
)
    requires
        output.publisher < before.publishers@.len(),
        output.loaned_value_idx
            < before.publishers@[output.publisher as int].loaned_values@.len(),
        before.wf(),
        crate::output::rewritten(before, after, output, value),
    ensures
        ({
            let p = output.publisher as int;
            let slot =
                before.publishers@[p].loaned_values@[output.loaned_value_idx as int].ptr.slot as int;
            let old_slots = before.publishers@[p].arena.storage@;
            let slots = after.publishers@[p].arena.storage@;
            &&& slots.len() == old_slots.len()
            &&& 0 <= slot < slots.len()
            &&& slots[slot].payload is Some
            &&& slots[slot].ref_count == old_slots[slot].ref_count
            &&& slots[slot].payload->0.message.message == value
            &&& slots[slot].payload->0.message.header == old_slots[slot].payload->0.message.header
            &&& slots[slot].payload->0.forwarded == old_slots[slot].payload->0.forwarded
            &&& forall|i: int|
                0 <= i < slots.len() && i != slot ==> #[trigger] slots[i] == old_slots[i]
            &&& after.publishers@[p].loaned_values@ == before.publishers@[p].loaned_values@
        }),
        after.subscribers == before.subscribers,
        after.readiness == before.readiness,
        forall|q: int|
            0 <= q < before.publishers@.len() && q != output.publisher ==> #[trigger]
            after.publishers@[q] == before.publishers@[q],
{
    let p = output.publisher as int;
    let loan = before.publishers@[p].loaned_values@[output.loaned_value_idx as int];
    assert(before.publishers@[p].wf());
    assert(before.publishers@[p].arena.refs(loan.ptr.slot as int) == 1);
}

/// A forwarding message refers to the oldest message of the input, which is
/// taken off it; it holds the new payload and waits to be sent.
pub proof fn law_forwarding_takes_the_oldest<T>(
    before: PubSub<T>,
    after: PubSub<T>,
    subscriber: usize,
    publisher: usize,
    payload: T,
    output: ForwardedOutput,
)
    requires
        subscriber < before.subscribers@.len(),
        publisher < before.publishers@.len(),
        before.subscribers@[subscriber as int].buffers.readable().len() > 0,
        crate::input::forwards_oldest(before, after, subscriber, publisher, payload, output),
    ensures
        ({
            let old_readable = before.subscribers@[subscriber as int].buffers.readable();
            let readable = after.subscribers@[subscriber as int].buffers.readable();
            &&& readable.len() == old_readable.len() - 1
            &&& forall|i: int|
                0 <= i < readable.len() ==> #[trigger] readable[i] == old_readable[i + 1]
        }),
        ({
            let n = before.publishers@[publisher as int].loaned_values@.len() as int;
            let loan = after.publishers@[publisher as int].loaned_values@[n];
            let slot = after.publishers@[publisher as int].arena.storage@[loan.ptr.slot as int];
            &&& output.inner.publisher == publisher
            &&& output.inner.loaned_value_idx == n
            &&& !loan.sent
            &&& slot.payload is Some
            &&& slot.payload->0.message.message == payload
            &&& slot.payload->0.forwarded == Some(
                before.subscribers@[subscriber as int].buffers.readable()[0],
            )
        }),
        forall|s: int|
            0 <= s < before.subscribers@.len() && s != subscriber ==> #[trigger]
            after.subscribers@[s] == before.subscribers@[s],
{
    let readable = before.subscribers@[subscriber as int].buffers.readable();
    law_loaned_message_waits(before, after, publisher as int, payload, Some(readable[0]));
}

/// What a callback can read are the messages in its read buffer, oldest first.
pub proof fn law_inputs_are_what_arrived<T>(system: PubSub<T>, subscriber: usize)
    requires
        subscriber < system.subscribers@.len(),
    ensures
        ({
            let inputs = crate::input::inputs_of(system, subscriber);
            let refs = system.subscribers@[subscriber as int].buffers.read_buffer.storage@;
            &&& inputs.len() == refs.len()
            &&& forall|i: int|
                0 <= i < inputs.len() ==> #[trigger] inputs[i]
                    == system.publishers@[refs[i].0 as int].arena.storage@[refs[i].1 as int].payload->0.message
        }),
{
}

/// Messages that were overwritten are counted, around the end of the counter.
proof fn lemma_counted_up(start: usize, n: nat)
    ensures
        crate::double_buffer::counted_up(start, n) as int == (start + n) % (usize::MAX + 1),
    decreases n,
{
    if n > 0 {
        let before = crate::double_buffer::counted_up(start, (n - 1) as nat);
        lemma_counted_up(start, (n - 1) as nat);
        let size = usize::MAX + 1;
        vstd::arithmetic::div_mod::lemma_add_mod_noop(start + n - 1, 1, size);
        vstd::arithmetic::div_mod::lemma_small_mod(1, size as nat);
        assert((start + n) % size == (before as int + 1) % size);
        if before == usize::MAX {
            vstd::arithmetic::div_mod::lemma_mod_self_0(size);
        } else {
            vstd::arithmetic::div_mod::lemma_small_mod((before + 1) as nat, size as nat);
        }
    } else {
        vstd::arithmetic::div_mod::lemma_small_mod(start as nat, (usize::MAX + 1) as nat);
    }
}

/// Draining an input makes the newest of its messages readable, as many as its
/// capacity says, oldest first; the others are counted as dropped. Nothing
/// waits any more.
pub proof fn law_draining_reads_the_newest(before: Subscriber, after: Subscriber)
    requires
        crate::callback::NodePorts::drained_input(before, after),
    ensures
        ({
            let all = before.buffers.readable() + before.buffers.pending();
            let readable = after.buffers.readable();
            let lost = all.len() - readable.len();
            &&& after.buffers.pending().len() == 0
            &&& readable.len() <= before.config.capacity
            &&& readable.len() == before.config.capacity || readable.len() == all.len()
            &&& readable.len() <= all.len()
            &&& forall|i: int| 0 <= i < readable.len() ==> #[trigger] readable[i] == all[lost + i]
            &&& after.buffers.read_buffer.drops as int == (before.buffers.read_buffer.drops + lost)
                % (usize::MAX + 1)
        }),
{
    let all = before.buffers.readable() + before.buffers.pending();
    lemma_counted_up(
        before.buffers.read_buffer.drops,
        crate::mpsc_queue::overflow(all, before.config.capacity as nat).len(),
    );
}

/// A queue takes every item. While there is room it keeps what it holds; when
/// it is full, the oldest item goes.
pub proof fn law_queue_drops_the_oldest(
    items: Seq<(usize, u64)>,
    capacity: nat,
    item: (usize, u64),
)
    requires
        0 < capacity,
        items.len() <= capacity,
    ensures
        ({
            let after = crate::mpsc_queue::pushed(items, capacity, item);
            let lost = items.len() + 1 - after.len();
            &&& after.len() <= capacity
            &&& items.len() < capacity ==> lost == 0
            &&& items.len() == capacity ==> lost == 1
            &&& after[after.len() - 1] == item
            &&& forall|i: int|
                0 <= i < after.len() - 1 ==> #[trigger] after[i] == items[lost + i]
        }),
{
}

/// Delivering a message counts one dropped message where the queue was full, and
/// none where it was not. The counts of the other subscribers stay.
pub proof fn law_full_queues_count_drops(
    view: FlushView,
    connection: SubscriberBuffer,
    r: (usize, u64),
)
    requires
        connection.subscriber < view.drops.len(),
    ensures
        ({
            let after = crate::pub_sub::delivered(view, connection, r);
            let s = connection.subscriber as int;
            &&& after.drops.len() == view.drops.len()
            &&& after.drops[s] == if view.pending[s].len() == view.capacity[s] {
                if view.drops[s] == usize::MAX {
                    0usize
                } else {
                    (view.drops[s] + 1) as usize
                }
            } else {
                view.drops[s]
            }
            &&& forall|t: int|
                0 <= t < view.drops.len() && t != s ==> #[trigger] after.drops[t] == view.drops[t]
        }),
{
}

/// A time that is added to stays at the last time there is, and is exact below
/// it. A span that does not fit a time leads to the last time.
pub proof fn law_times_add_up(time: FrameworkTime, rhs: Duration)
    ensures
        ({
            let sum = crate::time::saturated_time_after(time, rhs).nanoseconds as int;
            &&& rhs.nanoseconds > i64::MAX ==> sum == i64::MAX
            &&& rhs.nanoseconds <= i64::MAX ==> sum <= time.nanoseconds + rhs.nanoseconds
            &&& sum == time.nanoseconds + rhs.nanoseconds || sum == i64::MAX
        }),
{
}

/// Connecting an output adds one connection, with the bit that makes the reader
/// ready, and room for every message that the reader can hold in both of its
/// buffers.
pub proof fn law_connecting_makes_room<T>(
    before: Publisher<T>,
    after: Publisher<T>,
    subscriber: usize,
    target: Subscriber,
)
    requires
        crate::pub_sub_ops::connected_to(before, after, subscriber, target),
    ensures
        after.connections@.len() == before.connections@.len() + 1,
        after.connections@.last().subscriber == subscriber,
        after.connections@.last().readiness == target.readiness_state,
        forall|c: int|
            0 <= c < before.connections@.len() ==> #[trigger] after.connections@[c]
                == before.connections@[c],
        after.arena.slot_capacity == before.arena.slot_capacity + target.config.capacity
            + target.config.capacity,
{
}

/// The first node that is registered with a readiness is announced, whatever
/// comes later.
pub proof fn law_first_node_is_announced(
    readiness: CallbackNodeReadiness,
    first: CallbackNodeId,
    second: CallbackNodeId,
)
    requires
        readiness.node is None,
    ensures
        ({
            let once = crate::pub_sub_io::registered(readiness, first);
            let twice = crate::pub_sub_io::registered(once, second);
            &&& once.node == Some(first)
            &&& twice.node == Some(first)
            &&& twice.bitmask == readiness.bitmask
        }),
{
}

/// The free slots of an arena are counted.
pub proof fn law_free_slots_are_counted<T>(storage: Seq<ArenaSlot<T>>)
    ensures
        crate::pub_sub_spans::free_count(storage) == storage.filter(
            |slot: ArenaSlot<T>| slot.ref_count == 0,
        ).len(),
    decreases storage.len(),
{
    reveal(Seq::filter);
    if storage.len() > 0 {
        law_free_slots_are_counted(storage.drop_last());
    }
}

/// The inputs that have to be filled before a node may run are counted.
pub proof fn law_gating_inputs_are_counted(ports: Seq<SubscriberPort>)
    ensures
        crate::callback::gating_count(ports) == ports.filter(
            |port: SubscriberPort| port.config.is_trigger && !port.config.is_optional,
        ).len(),
    decreases ports.len(),
{
    reveal(Seq::filter);
    if ports.len() > 0 {
        law_gating_inputs_are_counted(ports.drop_last());
    }
}

/// Loaning a span loans every payload, in order, none of them sent yet.
pub proof fn law_spans_hold_their_payloads<T>(
    before: PubSub<T>,
    after: PubSub<T>,
    p: int,
    payloads: Seq<T>,
)
    requires
        0 <= p < before.publishers@.len(),
        after.loaned_span(
            before,
            p,
            payloads.map_values(|payload: T| crate::pub_sub_io::unpublished(payload, None)),
        ),
        p <= usize::MAX,
        forall|i: int|
            0 <= i < after.publishers@[p].loaned_values@.len() ==> (#[trigger]
            after.publishers@[p].loaned_values@[i]).ptr.slot <= u64::MAX,
    ensures
        after.publishers@[p].loaned_values@.len() == payloads.len(),
        forall|i: int|
            0 <= i < payloads.len() ==> {
                let loan = #[trigger] after.publishers@[p].loaned_values@[i];
                let slot = after.publishers@[p].arena.storage@[loan.ptr.slot as int];
                &&& !loan.sent
                &&& slot.payload->0.message.message == payloads[i]
                &&& slot.payload->0.forwarded is None
            },
{
    let entries = payloads.map_values(
        |payload: T| crate::pub_sub_io::unpublished(payload, None),
    );
    assert forall|i: int| 0 <= i < payloads.len() implies ({
        let loan = #[trigger] after.publishers@[p].loaned_values@[i];
        let slot = after.publishers@[p].arena.storage@[loan.ptr.slot as int];
        &&& !loan.sent
        &&& slot.payload->0.message.message == payloads[i]
        &&& slot.payload->0.forwarded is None
    }) by {
        assert(after.loan_is(p, i, entries[i]));
    }
}

/// The port that is found for a channel is the first one on it.
pub proof fn law_first_port_of_a_channel_is_found(
    inputs: Seq<SubscriberPort>,
    outputs: Seq<PublisherPort>,
    channel: Seq<char>,
    i: int,
)
    ensures
        crate::node_io::first_on(crate::node_io::input_names(inputs), channel, i) <==> {
            &&& 0 <= i < inputs.len()
            &&& inputs[i].config.channel_name@ == channel
            &&& forall|j: int|
                0 <= j < i ==> (#[trigger] inputs[j]).config.channel_name@ != channel
        },
        crate::node_io::first_on(crate::node_io::output_names(outputs), channel, i) <==> {
            &&& 0 <= i < outputs.len()
            &&& outputs[i].config.channel_name@ == channel
            &&& forall|j: int|
                0 <= j < i ==> (#[trigger] outputs[j]).config.channel_name@ != channel
        },
{
    let read = crate::node_io::input_names(inputs);
    let written = crate::node_io::output_names(outputs);
    if crate::node_io::first_on(read, channel, i) {
        assert forall|j: int| 0 <= j < i implies (#[trigger] inputs[j]).config.channel_name@
            != channel by {
            assert(read[j] != channel);
        }
    }
    if crate::node_io::first_on(written, channel, i) {
        assert forall|j: int| 0 <= j < i implies (#[trigger] outputs[j]).config.channel_name@
            != channel by {
            assert(written[j] != channel);
        }
    }
}

/// A value that is replayed is sent: its loan, the newest one, is marked, and no
/// other loan or message changes.
pub proof fn law_newest_loan_is_sent<T>(before: PubSub<T>, after: PubSub<T>, p: int)
    requires
        0 <= p < before.publishers@.len(),
        before.publishers@[p].loaned_values@.len() > 0,
        crate::channel_registry::sent_last(before, after, p),
    ensures
        ({
            let old_loans = before.publishers@[p].loaned_values@;
            let loans = after.publishers@[p].loaned_values@;
            &&& loans.len() == old_loans.len()
            &&& loans[loans.len() - 1].sent
            &&& loans[loans.len() - 1].ptr == old_loans[loans.len() - 1].ptr
            &&& forall|i: int| 0 <= i < loans.len() - 1 ==> #[trigger] loans[i] == old_loans[i]
        }),
        after.publishers@[p].arena == before.publishers@[p].arena,
        after.subscribers == before.subscribers,
        forall|q: int|
            0 <= q < before.publishers@.len() && q != p ==> #[trigger] after.publishers@[q]
                == before.publishers@[q],
{
}

} // verus!
