//! Systems that no callback can tell apart: the same messages wait in the same
//! places, whichever slots hold them. Draining and flushing keep systems alike.
use vstd::prelude::*;

use crate::callback::NodePorts;
use crate::message::{Message, MessageHeader};
use crate::pub_sub::{FlushView, PubSub};
use crate::publisher::{LoanedValue, Publisher, SubscriberBuffer};
use crate::readiness::CallbackNodeReadiness;
use crate::scheduling::CallbackNodeId;
use crate::subscriber::Subscriber;
use crate::time::FrameworkTime;

verus! {

/// The message that `r` refers to, followed by the one it forwards, and so on,
/// up to `depth` messages. Of each, its header and what `see` shows of its
/// payload.
pub open spec fn told<T, V>(system: PubSub<T>, r: (usize, u64), depth: nat, see: spec_fn(T) -> V) -> Seq<(MessageHeader, V)>
    decreases depth, 0int,
{
    if depth == 0 {
        Seq::empty()
    } else {
        told_from(system, system.entry(r).message, system.entry(r).forwarded, (depth - 1) as nat, see)
    }
}

/// `message`, followed by what `forwarded` tells.
pub open spec fn told_from<T, V>(
    system: PubSub<T>,
    message: Message<T>,
    forwarded: Option<(usize, u64)>,
    depth: nat,
    see: spec_fn(T) -> V,
) -> Seq<(MessageHeader, V)>
    decreases depth, 1int,
{
    seq![(message.header, see(message.message))] + match forwarded {
        Some(f) => told(system, f, depth, see),
        None => Seq::empty(),
    }
}

/// Whether two references tell the same, however deep one looks.
pub open spec fn tell_alike<T, V>(
    a: PubSub<T>,
    x: (usize, u64),
    b: PubSub<T>,
    y: (usize, u64),
    see: spec_fn(T) -> V,
) -> bool {
    forall|depth: nat| #[trigger] told(a, x, depth, see) == told(b, y, depth, see)
}

/// Whether two lists of references tell the same, one by one.
pub open spec fn all_tell_alike<T, V>(
    a: PubSub<T>,
    xs: Seq<(usize, u64)>,
    b: PubSub<T>,
    ys: Seq<(usize, u64)>,
    see: spec_fn(T) -> V,
) -> bool {
    &&& xs.len() == ys.len()
    &&& forall|i: int| 0 <= i < xs.len() ==> tell_alike(a, #[trigger] xs[i], b, ys[i], see)
}

/// Whether two publishers are configured alike and have lent alike messages.
pub open spec fn publishers_alike<T, V>(
    a: PubSub<T>,
    x: Publisher<T>,
    b: PubSub<T>,
    y: Publisher<T>,
    p: int,
    see: spec_fn(T) -> V,
) -> bool {
    &&& crate::pub_sub::same_port(x, y)
    &&& loans_alike(a, x.loaned_values@, b, y.loaned_values@, p, see)
}

/// Whether the loans of publisher `p` are alike.
pub open spec fn loans_alike<T, V>(
    a: PubSub<T>,
    xs: Seq<LoanedValue>,
    b: PubSub<T>,
    ys: Seq<LoanedValue>,
    p: int,
    see: spec_fn(T) -> V,
) -> bool {
    &&& xs.len() == ys.len()
    &&& forall|k: int|
        0 <= k < xs.len() ==> (#[trigger] xs[k]).sent == ys[k].sent && tell_alike(
            a,
            loan_ref(p, xs[k]),
            b,
            loan_ref(p, ys[k]),
            see,
        )
}

/// The reference to a loan of publisher `p`.
pub open spec fn loan_ref(p: int, loan: LoanedValue) -> (usize, u64) {
    (p as usize, loan.ptr.slot as u64)
}

/// Whether two subscribers are configured alike and hold alike messages.
pub open spec fn subscribers_alike<T, V>(
    a: PubSub<T>,
    x: Subscriber,
    b: PubSub<T>,
    y: Subscriber,
    see: spec_fn(T) -> V,
) -> bool {
    &&& x.config == y.config
    &&& x.value_type == y.value_type
    &&& x.readiness_state == y.readiness_state
    &&& all_tell_alike(a, x.buffers.readable(), b, y.buffers.readable(), see)
    &&& all_tell_alike(a, x.buffers.pending(), b, y.buffers.pending(), see)
}

/// Whether two systems are alike: their ports are configured alike, alike
/// messages are on loan, queued and readable, and the same inputs are awaited.
/// Which slots hold the messages does not matter, and of the payloads no more
/// than `see` shows.
pub open spec fn alike<T, V>(a: PubSub<T>, b: PubSub<T>, see: spec_fn(T) -> V) -> bool {
    &&& a.publishers@.len() == b.publishers@.len()
    &&& a.subscribers@.len() == b.subscribers@.len()
    &&& a.readiness@ == b.readiness@
    &&& forall|p: int|
        0 <= p < a.publishers@.len() ==> publishers_alike(
            a,
            #[trigger] a.publishers@[p],
            b,
            b.publishers@[p],
            p,
            see,
        )
    &&& forall|s: int|
        0 <= s < a.subscribers@.len() ==> subscribers_alike(
            a,
            #[trigger] a.subscribers@[s],
            b,
            b.subscribers@[s],
            see,
        )
}

/// Whether `r` is a loan of some publisher.
pub open spec fn is_loan<T>(system: PubSub<T>, r: (usize, u64)) -> bool {
    exists|k: int|
        0 <= k < system.publishers@[r.0 as int].loaned_values@.len() && r.0
            < system.publishers@.len() && loan_ref(
            r.0 as int,
            #[trigger] system.publishers@[r.0 as int].loaned_values@[k],
        ) == r
}

/// A loan is referenced by nothing else.
proof fn lemma_loan_stands_alone<T>(system: PubSub<T>, r: (usize, u64))
    requires
        system.wf(),
        is_loan(system, r),
    ensures
        system.live(r),
        crate::refs::count_all(system.queue_groups(), r) == 0,
        crate::refs::count_all(system.forward_groups(), r) == 0,
{
    let p = r.0 as int;
    let k = choose|k: int|
        0 <= k < system.publishers@[r.0 as int].loaned_values@.len() && r.0
            < system.publishers@.len() && loan_ref(
            r.0 as int,
            #[trigger] system.publishers@[r.0 as int].loaned_values@[k],
        ) == r;
    let loans = system.loan_groups()[p];
    assert(loans[k] == r);
    crate::refs::lemma_count_member(loans, k);
    crate::refs::lemma_count_all_update(system.loan_groups(), p, loans, r);
    assert(system.refs_of(r) == system.held_count(r) + crate::refs::count(Seq::empty(), r));
    assert(system.publishers@[p].wf());
}

/// What a message forwards is no loan.
proof fn lemma_forwarded_is_no_loan<T>(system: PubSub<T>, r: (usize, u64), f: (usize, u64))
    requires
        system.wf(),
        system.live(r),
        system.entry(r).forwarded == Some(f),
    ensures
        !is_loan(system, f),
{
    if is_loan(system, f) {
        lemma_loan_stands_alone(system, f);
        let p = r.0 as int;
        let storage = system.publishers@[p].arena.storage@;
        let s = r.1 as int;
        crate::publisher::lemma_forwards_update(
            storage,
            s,
            crate::arena::ArenaSlot { ref_count: 0, payload: None },
            f,
        );
        let one = Seq::<(usize, u64)>::empty().push(f);
        assert(crate::publisher::slot_forward(storage[s]) =~= one);
        crate::refs::lemma_count_push(Seq::empty(), f, f);
        crate::refs::lemma_count_all_update(
            system.forward_groups(),
            p,
            system.forward_groups()[p],
            f,
        );
    }
}

/// What is queued is there and no loan.
proof fn lemma_queued<T>(system: PubSub<T>, s: int, i: int)
    requires
        system.wf(),
        0 <= s < system.subscribers@.len(),
        0 <= i < system.subscribers@[s].held().len(),
    ensures
        system.live(system.subscribers@[s].held()[i]),
        !is_loan(system, system.subscribers@[s].held()[i]),
{
    system.lemma_queued_is_live(s, i);
    let held = system.subscribers@[s].held();
    crate::refs::lemma_count_member(held, i);
    crate::refs::lemma_count_all_update(system.queue_groups(), s, held, held[i]);
    assert(system.queue_groups()[s] == held);
    if is_loan(system, held[i]) {
        lemma_loan_stands_alone(system, held[i]);
    }
}

/// What can be read is there and no loan.
proof fn lemma_readable<T>(system: PubSub<T>, s: int, i: int)
    requires
        system.wf(),
        0 <= s < system.subscribers@.len(),
        0 <= i < system.subscribers@[s].buffers.readable().len(),
    ensures
        system.live(system.subscribers@[s].buffers.readable()[i]),
        !is_loan(system, system.subscribers@[s].buffers.readable()[i]),
{
    lemma_queued(system, s, i);
    assert(system.subscribers@[s].held()[i] == system.subscribers@[s].buffers.readable()[i]);
}

/// What is pending is there and no loan.
proof fn lemma_pending<T>(system: PubSub<T>, s: int, i: int)
    requires
        system.wf(),
        0 <= s < system.subscribers@.len(),
        0 <= i < system.subscribers@[s].buffers.pending().len(),
    ensures
        system.live(system.subscribers@[s].buffers.pending()[i]),
        !is_loan(system, system.subscribers@[s].buffers.pending()[i]),
{
    let j = system.subscribers@[s].buffers.readable().len() + i;
    lemma_queued(system, s, j);
    assert(system.subscribers@[s].held()[j] == system.subscribers@[s].buffers.pending()[i]);
}

/// A message that stays tells what it told.
proof fn lemma_told_kept<T, V>(before: PubSub<T>, after: PubSub<T>, r: (usize, u64), depth: nat, see: spec_fn(T) -> V)
    requires
        after.wf(),
        after.keeps_messages_of(before),
        after.live(r),
    ensures
        told(after, r, depth, see) == told(before, r, depth, see),
    decreases depth,
{
    if depth > 0 {
        assert(after.entry(r) == before.entry(r));
        match after.entry(r).forwarded {
            Some(f) => {
                after.lemma_forwarded_is_live(r, f);
                lemma_told_kept(before, after, f, (depth - 1) as nat, see);
            },
            None => {},
        }
    }
}

/// Messages that stay and told alike tell alike.
proof fn lemma_tell_alike_kept<T, V>(
    a: PubSub<T>,
    a2: PubSub<T>,
    x: (usize, u64),
    b: PubSub<T>,
    b2: PubSub<T>,
    y: (usize, u64),
    see: spec_fn(T) -> V,
)
    requires
        a2.wf(),
        b2.wf(),
        a2.keeps_messages_of(a),
        b2.keeps_messages_of(b),
        a2.live(x),
        b2.live(y),
        tell_alike(a, x, b, y, see),
    ensures
        tell_alike(a2, x, b2, y, see),
{
    assert forall|depth: nat| #[trigger] told(a2, x, depth, see) == told(b2, y, depth, see) by {
        lemma_told_kept(a, a2, x, depth, see);
        lemma_told_kept(b, b2, y, depth, see);
        assert(told(a, x, depth, see) == told(b, y, depth, see));
    }
}

/// The drained readiness depends on how the inputs are configured and on how
/// many messages they hold.
proof fn lemma_drained_masks_alike<T>(
    ports: NodePorts,
    readiness: Seq<CallbackNodeReadiness>,
    a: PubSub<T>,
    b: PubSub<T>,
    k: nat,
)
    requires
        k <= ports.subscriber_count,
        forall|s: int|
            ports.owns_subscriber(s) ==> (#[trigger] a.subscribers@[s]).readiness_state
                == b.subscribers@[s].readiness_state && a.subscribers@[s].config
                == b.subscribers@[s].config && a.subscribers@[s].buffers.readable().len()
                == b.subscribers@[s].buffers.readable().len(),
    ensures
        ports.drained_masks(readiness, a, k) == ports.drained_masks(readiness, b, k),
    decreases k,
{
    if k > 0 {
        lemma_drained_masks_alike(ports, readiness, a, b, (k - 1) as nat);
        assert(ports.owns_subscriber(ports.first_subscriber + k - 1));
        assert(a.subscribers@[ports.first_subscriber + k - 1].config
            == b.subscribers@[ports.first_subscriber + k - 1].config);
    }
}

/// Alike systems are alike after a node's inputs are drained.
pub proof fn lemma_drains_alike<T, V>(
    ports: NodePorts,
    a: PubSub<T>,
    a2: PubSub<T>,
    b: PubSub<T>,
    b2: PubSub<T>,
    see: spec_fn(T) -> V,
)
    requires
        a2.wf(),
        b2.wf(),
        alike(a, b, see),
        ports.within(a),
        ports.drains(a, a2),
        ports.drains(b, b2),
    ensures
        alike(a2, b2, see),
{
    assert forall|p: int| 0 <= p < a2.publishers@.len() implies publishers_alike(
        a2,
        #[trigger] a2.publishers@[p],
        b2,
        b2.publishers@[p],
        p,
        see,
    ) by {
        assert(crate::pub_sub::same_but_slots(a2.publishers@[p], a.publishers@[p]));
        assert(crate::pub_sub::same_but_slots(b2.publishers@[p], b.publishers@[p]));
        assert(publishers_alike(a, a.publishers@[p], b, b.publishers@[p], p, see));
        let xs = a2.publishers@[p].loaned_values@;
        let ys = b2.publishers@[p].loaned_values@;
        assert forall|k: int| 0 <= k < xs.len() implies (#[trigger] xs[k]).sent == ys[k].sent
            && tell_alike(a2, loan_ref(p, xs[k]), b2, loan_ref(p, ys[k]), see) by {
            assert(a2.publishers.len() == a2.publishers@.len());
            lemma_is_loan(a2, p, k);
            lemma_is_loan(b2, p, k);
            lemma_loan_stands_alone(a2, loan_ref(p, xs[k]));
            lemma_loan_stands_alone(b2, loan_ref(p, ys[k]));
            lemma_tell_alike_kept(a, a2, loan_ref(p, xs[k]), b, b2, loan_ref(p, ys[k]), see);
        }
    }
    assert forall|s: int| 0 <= s < a2.subscribers@.len() implies subscribers_alike(
        a2,
        #[trigger] a2.subscribers@[s],
        b2,
        b2.subscribers@[s],
        see,
    ) by {
        let x = a.subscribers@[s];
        let y = b.subscribers@[s];
        let x2 = a2.subscribers@[s];
        let y2 = b2.subscribers@[s];
        assert(subscribers_alike(a, x, b, y, see));
        assert(b2.subscribers@[s] == y2);
        assert forall|i: int| 0 <= i < x2.buffers.readable().len() implies tell_alike(
            a2,
            #[trigger] x2.buffers.readable()[i],
            b2,
            y2.buffers.readable()[i],
            see,
        ) by {
            lemma_readable(a2, s, i);
            lemma_readable(b2, s, i);
            let u = x2.buffers.readable()[i];
            let v = y2.buffers.readable()[i];
            if ports.owns_subscriber(s) {
                let all_a = x.buffers.readable() + x.buffers.pending();
                let all_b = y.buffers.readable() + y.buffers.pending();
                let j = if all_a.len() <= x.config.capacity {
                    i
                } else {
                    all_a.len() - x.config.capacity + i
                };
                assert(u == all_a[j]);
                assert(v == all_b[j]);
                if j < x.buffers.readable().len() {
                    assert(tell_alike(a, x.buffers.readable()[j], b, y.buffers.readable()[j], see));
                } else {
                    let m = j - x.buffers.readable().len();
                    assert(tell_alike(a, x.buffers.pending()[m], b, y.buffers.pending()[m], see));
                }
            } else {
                assert(tell_alike(a, x.buffers.readable()[i], b, y.buffers.readable()[i], see));
            }
            lemma_tell_alike_kept(a, a2, u, b, b2, v, see);
        }
        assert forall|i: int| 0 <= i < x2.buffers.pending().len() implies tell_alike(
            a2,
            #[trigger] x2.buffers.pending()[i],
            b2,
            y2.buffers.pending()[i],
            see,
        ) by {
            assert(!ports.owns_subscriber(s));
            lemma_pending(a2, s, i);
            lemma_pending(b2, s, i);
            assert(tell_alike(a, x.buffers.pending()[i], b, y.buffers.pending()[i], see));
            lemma_tell_alike_kept(
                a,
                a2,
                x2.buffers.pending()[i],
                b,
                b2,
                y2.buffers.pending()[i],
                see,
            );
        }
    }
    assert forall|s: int| ports.owns_subscriber(s) implies (#[trigger]
    a2.subscribers@[s]).readiness_state == b2.subscribers@[s].readiness_state
        && a2.subscribers@[s].config == b2.subscribers@[s].config
        && a2.subscribers@[s].buffers.readable().len()
        == b2.subscribers@[s].buffers.readable().len() by {
        assert(subscribers_alike(a2, a2.subscribers@[s], b2, b2.subscribers@[s], see));
    }
    lemma_drained_masks_alike(ports, a.readiness@, a2, b2, ports.subscriber_count as nat);
}

/// A loan of a publisher is a loan.
proof fn lemma_is_loan<T>(system: PubSub<T>, p: int, k: int)
    requires
        0 <= p < system.publishers@.len(),
        0 <= k < system.publishers@[p].loaned_values@.len(),
    ensures
        is_loan(system, loan_ref(p, system.publishers@[p].loaned_values@[k])),
        loan_ref(p, system.publishers@[p].loaned_values@[k]).0 == p,
{
    assert(system.publishers.len() == system.publishers@.len());
    let r = loan_ref(p, system.publishers@[p].loaned_values@[k]);
    assert(r.0 as int == p);
    assert(loan_ref(r.0 as int, system.publishers@[r.0 as int].loaned_values@[k]) == r);
}

/// What `r` tells once the node's outputs are flushed at `time`.
pub open spec fn told_flushed<T, V>(
    system: PubSub<T>,
    ports: NodePorts,
    time: FrameworkTime,
    r: (usize, u64),
    depth: nat,
    see: spec_fn(T) -> V,
) -> Seq<(MessageHeader, V)> {
    if depth == 0 {
        Seq::empty()
    } else {
        let entry = ports.stamped_up_to(system, ports.publisher_count as int, time, r);
        told_from(system, entry.message, entry.forwarded, (depth - 1) as nat, see)
    }
}

/// A message that is no loan stays as it is in a flush.
proof fn lemma_unstamped<T>(
    before: PubSub<T>,
    ports: NodePorts,
    time: FrameworkTime,
    r: (usize, u64),
)
    requires
        before.live(r),
        !is_loan(before, r),
    ensures
        ports.stamped_up_to(before, ports.publisher_count as int, time, r) == before.entry(r),
{
    let loans = before.publishers@[r.0 as int].loaned_values@;
    if crate::pub_sub::is_sent(r.0 as int, loans, r) {
        let k = choose|k: int|
            0 <= k < loans.len() && (#[trigger] loans[k]).sent && r == (
                (r.0 as int) as usize,
                loans[k].ptr.slot as u64,
            );
        assert(loan_ref(r.0 as int, before.publishers@[r.0 as int].loaned_values@[k]) == r);
    }
}

/// A message that is no loan tells after a flush what it told before.
proof fn lemma_told_unstamped<T, V>(
    ports: NodePorts,
    before: PubSub<T>,
    after: PubSub<T>,
    time: FrameworkTime,
    announced: Seq<CallbackNodeId>,
    r: (usize, u64),
    depth: nat,
    see: spec_fn(T) -> V,
)
    requires
        before.wf(),
        after.wf(),
        ports.flushes(before, after, time, announced),
        after.live(r),
        !is_loan(before, r),
    ensures
        told(after, r, depth, see) == told(before, r, depth, see),
    decreases depth,
{
    if depth > 0 {
        lemma_unstamped(before, ports, time, r);
        assert(after.entry(r) == before.entry(r));
        match after.entry(r).forwarded {
            Some(f) => {
                after.lemma_forwarded_is_live(r, f);
                lemma_forwarded_is_no_loan(before, r, f);
                lemma_told_unstamped(
                    ports,
                    before,
                    after,
                    time,
                    announced,
                    f,
                    (depth - 1) as nat,
                    see,
                );
            },
            None => {},
        }
    }
}

/// What a message tells after a flush.
proof fn lemma_told_flushed<T, V>(
    ports: NodePorts,
    before: PubSub<T>,
    after: PubSub<T>,
    time: FrameworkTime,
    announced: Seq<CallbackNodeId>,
    r: (usize, u64),
    depth: nat,
    see: spec_fn(T) -> V,
)
    requires
        before.wf(),
        after.wf(),
        ports.flushes(before, after, time, announced),
        after.live(r),
    ensures
        told(after, r, depth, see) == told_flushed(before, ports, time, r, depth, see),
{
    if depth > 0 {
        assert(before.live(r));
        assert(after.entry(r).forwarded == before.entry(r).forwarded);
        match after.entry(r).forwarded {
            Some(f) => {
                after.lemma_forwarded_is_live(r, f);
                lemma_forwarded_is_no_loan(before, r, f);
                lemma_told_unstamped(
                    ports,
                    before,
                    after,
                    time,
                    announced,
                    f,
                    (depth - 1) as nat,
                    see,
                );
            },
            None => {},
        }
    }
}

/// Whether two references tell the same once the node's outputs are flushed.
pub open spec fn tell_alike_flushed<T, V>(
    a: PubSub<T>,
    b: PubSub<T>,
    ports: NodePorts,
    time: FrameworkTime,
    see: spec_fn(T) -> V,
) -> spec_fn((usize, u64), (usize, u64)) -> bool {
    |x: (usize, u64), y: (usize, u64)|
        forall|depth: nat| #[trigger]
            told_flushed(a, ports, time, x, depth, see) == told_flushed(b, ports, time, y, depth, see)
}

/// Messages that are no loans and tell alike do so after a flush.
proof fn lemma_other_alike_flushed<T, V>(
    a: PubSub<T>,
    x: (usize, u64),
    b: PubSub<T>,
    y: (usize, u64),
    ports: NodePorts,
    time: FrameworkTime,
    see: spec_fn(T) -> V,
)
    requires
        a.live(x),
        b.live(y),
        !is_loan(a, x),
        !is_loan(b, y),
        tell_alike(a, x, b, y, see),
    ensures
        tell_alike_flushed(a, b, ports, time, see)(x, y),
{
    lemma_unstamped(a, ports, time, x);
    lemma_unstamped(b, ports, time, y);
    assert forall|depth: nat| #[trigger]
        told_flushed(a, ports, time, x, depth, see) == told_flushed(b, ports, time, y, depth, see) by {
        assert(told(a, x, depth, see) == told(b, y, depth, see));
    }
}

/// Loans that tell alike do so after a flush.
proof fn lemma_loan_alike_flushed<T, V>(
    a: PubSub<T>,
    b: PubSub<T>,
    ports: NodePorts,
    time: FrameworkTime,
    p: int,
    k: int,
    see: spec_fn(T) -> V,
)
    requires
        alike(a, b, see),
        0 <= p < a.publishers@.len(),
        0 <= k < a.publishers@[p].loaned_values@.len(),
        a.publishers@[p].loaned_values@[k].sent,
    ensures
        tell_alike_flushed(a, b, ports, time, see)(
            loan_ref(p, a.publishers@[p].loaned_values@[k]),
            loan_ref(p, b.publishers@[p].loaned_values@[k]),
        ),
{
    let xs = a.publishers@[p].loaned_values@;
    let ys = b.publishers@[p].loaned_values@;
    let x = loan_ref(p, xs[k]);
    let y = loan_ref(p, ys[k]);
    assert(publishers_alike(a, a.publishers@[p], b, b.publishers@[p], p, see));
    assert(a.publishers.len() == a.publishers@.len());
    assert(xs[k].sent == ys[k].sent && tell_alike(a, x, b, y, see));
    assert(crate::pub_sub::is_sent(p, xs, x));
    assert(crate::pub_sub::is_sent(p, ys, y)) by {
        assert(ys[k].sent);
    }
    assert forall|depth: nat| #[trigger]
        told_flushed(a, ports, time, x, depth, see) == told_flushed(b, ports, time, y, depth, see) by {
        if depth > 0 {
            let ta = told(a, x, depth, see);
            let tb = told(b, y, depth, see);
            assert(ta == tb);
            assert(ta[0] == (a.entry(x).message.header, see(a.entry(x).message.message)));
            assert(tb[0] == (b.entry(y).message.header, see(b.entry(y).message.message)));
            let rest = (depth - 1) as nat;
            let na = match a.entry(x).forwarded {
                Some(f) => told(a, f, rest, see),
                None => Seq::empty(),
            };
            let nb = match b.entry(y).forwarded {
                Some(f) => told(b, f, rest, see),
                None => Seq::empty(),
            };
            assert(ta.skip(1) =~= na);
            assert(tb.skip(1) =~= nb);
        }
    }
}

/// Whether two flushes have got equally far, with related references queued.
pub open spec fn views_alike(
    a: FlushView,
    b: FlushView,
    related: spec_fn((usize, u64), (usize, u64)) -> bool,
) -> bool {
    &&& a.pending.len() == b.pending.len()
    &&& a.capacity == b.capacity
    &&& a.capacity.len() == a.pending.len()
    &&& forall|s: int| 0 <= s < a.capacity.len() ==> #[trigger] a.capacity[s] > 0
    &&& a.masks == b.masks
    &&& a.announced == b.announced
    &&& a.nodes == b.nodes
    &&& forall|s: int|
        0 <= s < a.pending.len() ==> (#[trigger] a.pending[s]).len() == b.pending[s].len()
    &&& forall|s: int, i: int|
        0 <= s < a.pending.len() && 0 <= i < a.pending[s].len() ==> related(
            #[trigger] a.pending[s][i],
            b.pending[s][i],
        )
}

/// A message that reaches a subscriber keeps flushes alike.
proof fn lemma_delivered_alike(
    a: FlushView,
    b: FlushView,
    related: spec_fn((usize, u64), (usize, u64)) -> bool,
    connection: SubscriberBuffer,
    x: (usize, u64),
    y: (usize, u64),
)
    requires
        views_alike(a, b, related),
        related(x, y),
        connection.subscriber < a.pending.len(),
    ensures
        views_alike(
            crate::pub_sub::delivered(a, connection, x),
            crate::pub_sub::delivered(b, connection, y),
            related,
        ),
        crate::pub_sub::delivered(a, connection, x).pending.len() == a.pending.len(),
{
    let a2 = crate::pub_sub::delivered(a, connection, x);
    let b2 = crate::pub_sub::delivered(b, connection, y);
    let t = connection.subscriber as int;
    assert(a.pending[t].len() == b.pending[t].len());
    assert(a.capacity[t] > 0);
    assert(a2.pending == a.pending.update(
        t,
        crate::mpsc_queue::pushed(a.pending[t], a.capacity[t], x),
    ));
    assert(b2.pending == b.pending.update(
        t,
        crate::mpsc_queue::pushed(b.pending[t], b.capacity[t], y),
    ));
    assert forall|s: int| 0 <= s < a2.pending.len() implies (#[trigger] a2.pending[s]).len()
        == b2.pending[s].len() by {
        assert(a.pending[s].len() == b.pending[s].len());
    }
    assert forall|s: int, i: int|
        0 <= s < a2.pending.len() && 0 <= i < a2.pending[s].len() implies related(
        #[trigger] a2.pending[s][i],
        b2.pending[s][i],
    ) by {
        if s != t {
            assert(related(a.pending[s][i], b.pending[s][i]));
        } else {
            let j = if a.pending[t].len() >= a.capacity[t] {
                i + 1
            } else {
                i
            };
            if 0 <= j < a.pending[t].len() {
                assert(related(a.pending[t][j], b.pending[t][j]));
            }
        }
    }
}

/// A message that reaches every connected subscriber keeps flushes alike.
proof fn lemma_delivered_to_all_alike(
    a: FlushView,
    b: FlushView,
    related: spec_fn((usize, u64), (usize, u64)) -> bool,
    connections: Seq<SubscriberBuffer>,
    x: (usize, u64),
    y: (usize, u64),
)
    requires
        views_alike(a, b, related),
        related(x, y),
        forall|c: int|
            0 <= c < connections.len() ==> (#[trigger] connections[c]).subscriber < a.pending.len(),
    ensures
        views_alike(
            crate::pub_sub::delivered_to_all(a, connections, x),
            crate::pub_sub::delivered_to_all(b, connections, y),
            related,
        ),
        crate::pub_sub::delivered_to_all(a, connections, x).pending.len() == a.pending.len(),
    decreases connections.len(),
{
    if connections.len() > 0 {
        lemma_delivered_alike(a, b, related, connections[0], x, y);
        let rest = connections.skip(1);
        assert forall|c: int| 0 <= c < rest.len() implies (#[trigger] rest[c]).subscriber
            < a.pending.len() by {
            assert(rest[c] == connections[c + 1]);
        }
        lemma_delivered_to_all_alike(
            crate::pub_sub::delivered(a, connections[0], x),
            crate::pub_sub::delivered(b, connections[0], y),
            related,
            rest,
            x,
            y,
        );
    }
}

/// Flushing alike loans keeps flushes alike.
proof fn lemma_flushed_alike(
    a: FlushView,
    b: FlushView,
    related: spec_fn((usize, u64), (usize, u64)) -> bool,
    connections: Seq<SubscriberBuffer>,
    p: int,
    xs: Seq<LoanedValue>,
    ys: Seq<LoanedValue>,
)
    requires
        views_alike(a, b, related),
        xs.len() == ys.len(),
        forall|k: int|
            0 <= k < xs.len() ==> (#[trigger] xs[k]).sent == ys[k].sent && (xs[k].sent ==> related(
                loan_ref(p, xs[k]),
                loan_ref(p, ys[k]),
            )),
        forall|c: int|
            0 <= c < connections.len() ==> (#[trigger] connections[c]).subscriber < a.pending.len(),
    ensures
        views_alike(
            crate::pub_sub::flushed(a, connections, p, xs),
            crate::pub_sub::flushed(b, connections, p, ys),
            related,
        ),
        crate::pub_sub::flushed(a, connections, p, xs).pending.len() == a.pending.len(),
    decreases xs.len(),
{
    if xs.len() > 0 {
        assert(xs[0].sent == ys[0].sent);
        let x = loan_ref(p, xs[0]);
        let y = loan_ref(p, ys[0]);
        if xs[0].sent {
            lemma_delivered_to_all_alike(a, b, related, connections, x, y);
        }
        let a2 = if xs[0].sent {
            crate::pub_sub::delivered_to_all(a, connections, x)
        } else {
            a
        };
        let b2 = if ys[0].sent {
            crate::pub_sub::delivered_to_all(b, connections, y)
        } else {
            b
        };
        let xr = xs.skip(1);
        let yr = ys.skip(1);
        assert forall|k: int| 0 <= k < xr.len() implies (#[trigger] xr[k]).sent == yr[k].sent && (
        xr[k].sent ==> related(loan_ref(p, xr[k]), loan_ref(p, yr[k]))) by {
            assert(xr[k] == xs[k + 1]);
            assert(yr[k] == ys[k + 1]);
        }
        lemma_flushed_alike(a2, b2, related, connections, p, xr, yr);
    }
}

/// Flushing a node's outputs keeps flushes alike.
proof fn lemma_flushed_from_alike<T, V>(
    ports: NodePorts,
    va: FlushView,
    a: PubSub<T>,
    vb: FlushView,
    b: PubSub<T>,
    time: FrameworkTime,
    k: int,
    see: spec_fn(T) -> V,
)
    requires
        0 <= k,
        a.wf(),
        alike(a, b, see),
        ports.within(a),
        va.pending.len() == a.subscribers@.len(),
        views_alike(va, vb, tell_alike_flushed(a, b, ports, time, see)),
    ensures
        views_alike(
            ports.flushed_from(va, a, k),
            ports.flushed_from(vb, b, k),
            tell_alike_flushed(a, b, ports, time, see),
        ),
    decreases ports.publisher_count - k,
{
    let related = tell_alike_flushed(a, b, ports, time, see);
    if k < ports.publisher_count {
        let p = ports.first_publisher + k;
        let xs = a.publishers@[p].loaned_values@;
        let ys = b.publishers@[p].loaned_values@;
        let connections = a.publishers@[p].connections@;
        assert(publishers_alike(a, a.publishers@[p], b, b.publishers@[p], p, see));
        assert forall|c: int| 0 <= c < connections.len() implies (#[trigger]
        connections[c]).subscriber < va.pending.len() by {
            assert(a.connection_valid(a.publishers@[p].connections@[c]));
        }
        assert forall|j: int| 0 <= j < xs.len() implies (#[trigger] xs[j]).sent == ys[j].sent && (
        xs[j].sent ==> related(loan_ref(p, xs[j]), loan_ref(p, ys[j]))) by {
            if xs[j].sent {
                lemma_loan_alike_flushed(a, b, ports, time, p, j, see);
            }
        }
        lemma_flushed_alike(va, vb, related, connections, p, xs, ys);
        lemma_flushed_from_alike(
            ports,
            crate::pub_sub::flushed(va, connections, p, xs),
            a,
            crate::pub_sub::flushed(vb, connections, p, ys),
            b,
            time,
            k + 1,
            see,
        );
    }
}

/// Alike systems are alike after a node's outputs are flushed, and the same
/// nodes are announced.
pub proof fn lemma_flushes_alike<T, V>(
    ports: NodePorts,
    a: PubSub<T>,
    a2: PubSub<T>,
    announced_a: Seq<CallbackNodeId>,
    b: PubSub<T>,
    b2: PubSub<T>,
    announced_b: Seq<CallbackNodeId>,
    time: FrameworkTime,
    see: spec_fn(T) -> V,
)
    requires
        a.wf(),
        b.wf(),
        a2.wf(),
        b2.wf(),
        alike(a, b, see),
        ports.within(a),
        ports.flushes(a, a2, time, announced_a),
        ports.flushes(b, b2, time, announced_b),
    ensures
        alike(a2, b2, see),
        announced_a == announced_b,
{
    let related = tell_alike_flushed(a, b, ports, time, see);
    let va = a.flush_view(Seq::empty());
    let vb = b.flush_view(Seq::empty());
    assert(views_alike(va, vb, related)) by {
        assert forall|s: int| 0 <= s < va.pending.len() implies (#[trigger] va.pending[s]).len()
            == vb.pending[s].len() by {
            assert(subscribers_alike(a, a.subscribers@[s], b, b.subscribers@[s], see));
        }
        assert forall|s: int, i: int|
            0 <= s < va.pending.len() && 0 <= i < va.pending[s].len() implies related(
            #[trigger] va.pending[s][i],
            vb.pending[s][i],
        ) by {
            assert(subscribers_alike(a, a.subscribers@[s], b, b.subscribers@[s], see));
            let x = a.subscribers@[s].buffers.pending()[i];
            let y = b.subscribers@[s].buffers.pending()[i];
            assert(tell_alike(a, x, b, y, see));
            lemma_pending(a, s, i);
            lemma_pending(b, s, i);
            lemma_other_alike_flushed(a, x, b, y, ports, time, see);
        }
        assert(va.capacity =~= vb.capacity) by {
            assert forall|s: int| 0 <= s < va.capacity.len() implies va.capacity[s]
                == vb.capacity[s] by {
                assert(subscribers_alike(a, a.subscribers@[s], b, b.subscribers@[s], see));
            }
        }
        assert forall|s: int| 0 <= s < va.capacity.len() implies #[trigger] va.capacity[s] > 0 by {
            assert(a.subscribers@[s].wf());
        }
        assert(va.masks =~= vb.masks);
        assert(va.nodes =~= vb.nodes);
    }
    lemma_flushed_from_alike(ports, va, a, vb, b, time, 0, see);
    let wa = a2.flush_view(announced_a);
    let wb = b2.flush_view(announced_b);
    assert(views_alike(wa, wb, related));
    assert forall|n: int| 0 <= n < a2.readiness@.len() implies #[trigger] a2.readiness@[n]
        == b2.readiness@[n] by {
        assert(wa.masks[n] == wb.masks[n]);
        assert(wa.nodes[n] == wb.nodes[n]);
    }
    assert(a2.readiness@ =~= b2.readiness@);
    assert forall|p: int| 0 <= p < a2.publishers@.len() implies publishers_alike(
        a2,
        #[trigger] a2.publishers@[p],
        b2,
        b2.publishers@[p],
        p,
        see,
    ) by {
        assert(crate::pub_sub::same_port(a2.publishers@[p], a.publishers@[p]));
        assert(crate::pub_sub::same_port(b2.publishers@[p], b.publishers@[p]));
        assert(publishers_alike(a, a.publishers@[p], b, b.publishers@[p], p, see));
        let xs = a2.publishers@[p].loaned_values@;
        let ys = b2.publishers@[p].loaned_values@;
        assert forall|k: int| 0 <= k < xs.len() implies (#[trigger] xs[k]).sent == ys[k].sent
            && tell_alike(a2, loan_ref(p, xs[k]), b2, loan_ref(p, ys[k]), see) by {
            assert(!ports.owns_publisher(p));
            let x = loan_ref(p, xs[k]);
            let y = loan_ref(p, ys[k]);
            lemma_is_loan(a2, p, k);
            lemma_is_loan(b2, p, k);
            lemma_loan_stands_alone(a2, x);
            lemma_loan_stands_alone(b2, y);
            assert(a.publishers@[p].loaned_values@[k] == xs[k]);
            assert forall|depth: nat| #[trigger] told(a2, x, depth, see) == told(b2, y, depth, see) by {
                lemma_told_flushed(ports, a, a2, time, announced_a, x, depth, see);
                lemma_told_flushed(ports, b, b2, time, announced_b, y, depth, see);
                assert(told(a, x, depth, see) == told(b, y, depth, see));
            }
        }
    }
    assert forall|s: int| 0 <= s < a2.subscribers@.len() implies subscribers_alike(
        a2,
        #[trigger] a2.subscribers@[s],
        b2,
        b2.subscribers@[s],
        see,
    ) by {
        let x = a.subscribers@[s];
        let y = b.subscribers@[s];
        let x2 = a2.subscribers@[s];
        let y2 = b2.subscribers@[s];
        assert(subscribers_alike(a, x, b, y, see));
        assert(crate::pub_sub::same_reader(a2.subscribers@[s], a.subscribers@[s]));
        assert(crate::pub_sub::same_reader(b2.subscribers@[s], b.subscribers@[s]));
        assert forall|i: int| 0 <= i < x2.buffers.readable().len() implies tell_alike(
            a2,
            #[trigger] x2.buffers.readable()[i],
            b2,
            y2.buffers.readable()[i],
            see,
        ) by {
            let u = x2.buffers.readable()[i];
            let v = y2.buffers.readable()[i];
            lemma_readable(a2, s, i);
            lemma_readable(b2, s, i);
            lemma_readable(a, s, i);
            lemma_readable(b, s, i);
            assert(tell_alike(a, x.buffers.readable()[i], b, y.buffers.readable()[i], see));
            assert forall|depth: nat| #[trigger] told(a2, u, depth, see) == told(b2, v, depth, see) by {
                lemma_told_unstamped(ports, a, a2, time, announced_a, u, depth, see);
                lemma_told_unstamped(ports, b, b2, time, announced_b, v, depth, see);
                assert(told(a, u, depth, see) == told(b, v, depth, see));
            }
        }
        assert(wa.pending[s].len() == wb.pending[s].len());
        assert forall|i: int| 0 <= i < x2.buffers.pending().len() implies tell_alike(
            a2,
            #[trigger] x2.buffers.pending()[i],
            b2,
            y2.buffers.pending()[i],
            see,
        ) by {
            let u = x2.buffers.pending()[i];
            let v = y2.buffers.pending()[i];
            lemma_pending(a2, s, i);
            lemma_pending(b2, s, i);
            assert(related(wa.pending[s][i], wb.pending[s][i]));
            assert forall|depth: nat| #[trigger] told(a2, u, depth, see) == told(b2, v, depth, see) by {
                lemma_told_flushed(ports, a, a2, time, announced_a, u, depth, see);
                lemma_told_flushed(ports, b, b2, time, announced_b, v, depth, see);
                assert(told_flushed(a, ports, time, u, depth, see) == told_flushed(
                    b,
                    ports,
                    time,
                    v,
                    depth,
                    see,
                ));
            }
        }
    }
}

} // verus!
