//! Publishing is deterministic, and so are the sample callbacks.
use vstd::prelude::*;

use crate::callback::{Callback, CallbackNode, Memory, NodePorts, Run};
use crate::pub_sub::PubSub;
use crate::test_tasks::{
    FizzBuzzCalculator, IncrementingIntegerPublisher, Sample, StringCollector,
};
use crate::time::{Duration, FrameworkTime};

verus! {

/// Publishing values that show the same keeps systems alike.
pub proof fn law_publishing_is_deterministic<T, V>(
    a: PubSub<T>,
    a2: PubSub<T>,
    b: PubSub<T>,
    b2: PubSub<T>,
    p: usize,
    x: T,
    y: T,
    see: spec_fn(T) -> V,
)
    requires
        a.wf(),
        b.wf(),
        crate::alike::alike(a, b, see),
        p < a.publishers@.len(),
        see(x) == see(y),
        crate::test_tasks::publishes(a, a2, p, x),
        crate::test_tasks::publishes(b, b2, p, y),
    ensures
        crate::alike::alike(a2, b2, see),
{
    lemma_published(a, a2, p, x);
    lemma_published(b, b2, p, y);
    assert forall|q: int| 0 <= q < a2.publishers@.len() implies crate::alike::publishers_alike(
        a2,
        #[trigger] a2.publishers@[q],
        b2,
        b2.publishers@[q],
        q,
        see,
    ) by {
        assert(crate::alike::publishers_alike(a, a.publishers@[q], b, b.publishers@[q], q, see));
        let xs = a2.publishers@[q].loaned_values@;
        let ys = b2.publishers@[q].loaned_values@;
        let n = a.publishers@[q].loaned_values@.len();
        assert forall|k: int| 0 <= k < xs.len() implies (#[trigger] xs[k]).sent == ys[k].sent
            && crate::alike::tell_alike(
            a2,
            crate::alike::loan_ref(q, xs[k]),
            b2,
            crate::alike::loan_ref(q, ys[k]),
            see,
        ) by {
            let x = crate::alike::loan_ref(q, xs[k]);
            let y = crate::alike::loan_ref(q, ys[k]);
            if k < n {
                assert(a.publishers@[q].loaned_values@[k] == xs[k]);
                assert(b.publishers@[q].loaned_values@[k] == ys[k]);
                assert(a.publishers.len() == a.publishers@.len());
                a.lemma_loan_is_held(q, k);
                b.lemma_loan_is_held(q, k);
                assert(a.refs_of(x) == a.held_count(x) + crate::refs::count(Seq::empty(), x));
                assert(b.refs_of(y) == b.held_count(y) + crate::refs::count(Seq::empty(), y));
                lemma_tell_alike_still(a, a2, x, b, b2, y, see);
            } else {
                assert forall|depth: nat| #[trigger]
                    crate::alike::told(a2, x, depth, see) == crate::alike::told(b2, y, depth, see) by {}
            }
        }
    }
    assert forall|s: int| 0 <= s < a2.subscribers@.len() implies crate::alike::subscribers_alike(
        a2,
        #[trigger] a2.subscribers@[s],
        b2,
        b2.subscribers@[s],
        see,
    ) by {
        let x = a.subscribers@[s];
        let y = b.subscribers@[s];
        assert(crate::alike::subscribers_alike(a, x, b, y, see));
        assert forall|i: int|
            0 <= i < x.buffers.readable().len() implies crate::alike::tell_alike(
            a2,
            #[trigger] x.buffers.readable()[i],
            b2,
            y.buffers.readable()[i],
            see,
        ) by {
            assert(x.held()[i] == x.buffers.readable()[i]);
            assert(y.held()[i] == y.buffers.readable()[i]);
            a.lemma_queued_is_live(s, i);
            b.lemma_queued_is_live(s, i);
            lemma_tell_alike_still(
                a,
                a2,
                x.buffers.readable()[i],
                b,
                b2,
                y.buffers.readable()[i],
                see,
            );
        }
        assert forall|i: int|
            0 <= i < x.buffers.pending().len() implies crate::alike::tell_alike(
            a2,
            #[trigger] x.buffers.pending()[i],
            b2,
            y.buffers.pending()[i],
            see,
        ) by {
            let n = x.buffers.readable().len();
            assert(x.held()[n + i] == x.buffers.pending()[i]);
            assert(y.held()[n + i] == y.buffers.pending()[i]);
            a.lemma_queued_is_live(s, n + i);
            b.lemma_queued_is_live(s, n + i);
            lemma_tell_alike_still(
                a,
                a2,
                x.buffers.pending()[i],
                b,
                b2,
                y.buffers.pending()[i],
                see,
            );
        }
    }
}

/// What a sample shows: its number or its text.
pub open spec fn shown() -> spec_fn(Sample) -> Memory {
    |sample: Sample|
        match sample {
            Sample::Integer(n) => Memory::Number(n as int),
            Sample::Text(text) => Memory::Text(text@),
        }
}

/// Whether the node's callback does no other than `callback` does, and its runs
/// last for `duration`.
pub open spec fn does_as<C: Callback<Sample>>(
    node: CallbackNode<Sample>,
    callback: C,
    duration: Duration,
) -> bool {
    &&& forall|
        memory: Memory,
        ports: NodePorts,
        now: FrameworkTime,
        before: PubSub<Sample>,
        after: PubSub<Sample>,
        run: Run,
        next: Memory,
    | #[trigger]
        node.callback.inner.runs(memory, ports, now, before, after, run, next) ==> callback.runs(
            memory,
            ports,
            now,
            before,
            after,
            run,
            next,
        )
    &&& forall|d: Duration| #[trigger]
        node.execution_duration_callback->0.inner.allows(d) ==> d == duration
}

/// Alike inputs of a subscriber show the same.
proof fn lemma_inputs_alike(a: PubSub<Sample>, b: PubSub<Sample>, s: usize)
    requires
        crate::alike::alike(a, b, shown()),
        s < a.subscribers@.len(),
    ensures
        crate::input::inputs_of(a, s).len() == crate::input::inputs_of(b, s).len(),
        crate::test_tasks::integer_at(a, s) == crate::test_tasks::integer_at(b, s),
        crate::test_tasks::text_at(a, s) is Some == crate::test_tasks::text_at(b, s) is Some,
        crate::test_tasks::text_at(a, s) is Some ==> crate::test_tasks::text_at(a, s)->0@
            == crate::test_tasks::text_at(b, s)->0@,
{
    let xs = a.subscribers@[s as int].buffers.readable();
    let ys = b.subscribers@[s as int].buffers.readable();
    assert(crate::alike::subscribers_alike(
        a,
        a.subscribers@[s as int],
        b,
        b.subscribers@[s as int],
        shown(),
    ));
    if xs.len() > 0 {
        assert(crate::alike::tell_alike(a, xs[0], b, ys[0], shown()));
        let ta = crate::alike::told(a, xs[0], 1, shown());
        let tb = crate::alike::told(b, ys[0], 1, shown());
        assert(ta == tb);
        let x = a.entry(xs[0]).message;
        let y = b.entry(ys[0]).message;
        assert(ta[0] == (x.header, shown()(x.message)));
        assert(tb[0] == (y.header, shown()(y.message)));
        assert(crate::input::inputs_of(a, s)[0] == x);
        assert(crate::input::inputs_of(b, s)[0] == y);
    }
}

/// Whether a publisher has a loan left, in alike systems in which no arena has
/// run out.
pub(crate) proof fn lemma_loan_left_alike<T, V>(
    a: PubSub<T>,
    b: PubSub<T>,
    p: usize,
    see: spec_fn(T) -> V,
)
    requires
        crate::alike::alike(a, b, see),
        crate::determinism::none_ran_out(a),
        crate::determinism::none_ran_out(b),
        p < a.publishers@.len(),
    ensures
        a.loan_left(p as int) == b.loan_left(p as int),
{
    assert(crate::alike::publishers_alike(
        a,
        a.publishers@[p as int],
        b,
        b.publishers@[p as int],
        p as int,
        see,
    ));
    crate::pub_sub_laws::lemma_ample_can_loan(a, p as int);
    crate::pub_sub_laws::lemma_ample_can_loan(b, p as int);
}

/// A node that counts is deterministic.
pub proof fn law_counting_is_deterministic(
    node: CallbackNode<Sample>,
    counter: IncrementingIntegerPublisher,
    duration: Duration,
)
    requires
        does_as(node, counter, duration),
    ensures
        crate::determinism::runs_alike(node, shown()),
{
    assert forall|
        now: FrameworkTime,
        memory: Memory,
        a: PubSub<Sample>,
        a2: PubSub<Sample>,
        x: Duration,
        m: Memory,
        b: PubSub<Sample>,
        b2: PubSub<Sample>,
        y: Duration,
        n: Memory,
    |
        crate::determinism::comparable(node, a, a2, b, b2, shown())
            && #[trigger] crate::simulation::run_gives(node, memory, now, a, a2, x, m)
            && #[trigger] crate::simulation::run_gives(node, memory, now, b, b2, y, n) implies x
        == y && m == n && crate::alike::alike(a2, b2, shown()) by {
        let ra = choose|r: Run| #[trigger]
            node.callback.inner.runs(memory, node.ports, now, a, a2, r, m);
        let rb = choose|r: Run| #[trigger]
            node.callback.inner.runs(memory, node.ports, now, b, b2, r, n);
        assert(counter.runs(memory, node.ports, now, a, a2, ra, m));
        assert(counter.runs(memory, node.ports, now, b, b2, rb, n));
        let p = node.ports.first_publisher;
        if node.ports.publisher_count > 0 {
            lemma_loan_left_alike(a, b, p, shown());
            if a.loan_left(p as int) {
                let value = Sample::Integer(memory->Number_0 as u64);
                law_publishing_is_deterministic(a, a2, b, b2, p, value, value, shown());
            }
        }
    }
}

/// A node that sends the texts for the numbers it gets is deterministic.
pub proof fn law_calculating_is_deterministic(
    node: CallbackNode<Sample>,
    calculator: FizzBuzzCalculator,
    duration: Duration,
)
    requires
        does_as(node, calculator, duration),
    ensures
        crate::determinism::runs_alike(node, shown()),
{
    assert forall|
        now: FrameworkTime,
        memory: Memory,
        a: PubSub<Sample>,
        a2: PubSub<Sample>,
        x: Duration,
        m: Memory,
        b: PubSub<Sample>,
        b2: PubSub<Sample>,
        y: Duration,
        n: Memory,
    |
        crate::determinism::comparable(node, a, a2, b, b2, shown())
            && #[trigger] crate::simulation::run_gives(node, memory, now, a, a2, x, m)
            && #[trigger] crate::simulation::run_gives(node, memory, now, b, b2, y, n) implies x
        == y && m == n && crate::alike::alike(a2, b2, shown()) by {
        let ra = choose|r: Run| #[trigger]
            node.callback.inner.runs(memory, node.ports, now, a, a2, r, m);
        let rb = choose|r: Run| #[trigger]
            node.callback.inner.runs(memory, node.ports, now, b, b2, r, n);
        assert(calculator.runs(memory, node.ports, now, a, a2, ra, m));
        assert(calculator.runs(memory, node.ports, now, b, b2, rb, n));
        let s = node.ports.first_subscriber;
        let p = node.ports.first_publisher;
        if node.ports.subscriber_count > 0 && node.ports.publisher_count > 0 {
            lemma_inputs_alike(a, b, s);
            lemma_loan_left_alike(a, b, p, shown());
            if crate::test_tasks::integer_at(a, s) is Some && a.loan_left(p as int) {
                let text = crate::test_tasks::fizz_buzz_text(
                    crate::test_tasks::integer_at(a, s)->0,
                );
                let u = choose|sent: String| #[trigger]
                    crate::test_tasks::publishes(a, a2, p, Sample::Text(sent)) && sent@ == text;
                let v = choose|sent: String| #[trigger]
                    crate::test_tasks::publishes(b, b2, p, Sample::Text(sent)) && sent@ == text;
                law_publishing_is_deterministic(
                    a,
                    a2,
                    b,
                    b2,
                    p,
                    Sample::Text(u),
                    Sample::Text(v),
                    shown(),
                );
            }
        }
    }
}

/// A node that collects texts is deterministic.
pub proof fn law_collecting_is_deterministic(
    node: CallbackNode<Sample>,
    collector: StringCollector,
    duration: Duration,
)
    requires
        does_as(node, collector, duration),
    ensures
        crate::determinism::runs_alike(node, shown()),
{
    assert forall|
        now: FrameworkTime,
        memory: Memory,
        a: PubSub<Sample>,
        a2: PubSub<Sample>,
        x: Duration,
        m: Memory,
        b: PubSub<Sample>,
        b2: PubSub<Sample>,
        y: Duration,
        n: Memory,
    |
        crate::determinism::comparable(node, a, a2, b, b2, shown())
            && #[trigger] crate::simulation::run_gives(node, memory, now, a, a2, x, m)
            && #[trigger] crate::simulation::run_gives(node, memory, now, b, b2, y, n) implies x
        == y && m == n && crate::alike::alike(a2, b2, shown()) by {
        let ra = choose|r: Run| #[trigger]
            node.callback.inner.runs(memory, node.ports, now, a, a2, r, m);
        let rb = choose|r: Run| #[trigger]
            node.callback.inner.runs(memory, node.ports, now, b, b2, r, n);
        assert(collector.runs(memory, node.ports, now, a, a2, ra, m));
        assert(collector.runs(memory, node.ports, now, b, b2, rb, n));
        if node.ports.subscriber_count > 0 {
            lemma_inputs_alike(a, b, node.ports.first_subscriber);
        }
    }
}

/// The fizz-buzz graph is deterministic, wherever its nodes stand and whatever
/// they remember.
pub proof fn law_fizz_buzz_is_deterministic(
    nodes: Seq<CallbackNode<Sample>>,
    store: Vec<String>,
    target_count: usize,
    state: crate::simulation::SimulationState<Sample>,
)
    requires
        crate::test_tasks::is_fizz_buzz(nodes, store, target_count),
        state.nodes.nodes@.len() == nodes.len(),
        forall|i: int|
            0 <= i < nodes.len() ==> (#[trigger] state.nodes.nodes@[i]).node == (CallbackNode {
                callback: state.nodes.nodes@[i].node.callback,
                ports: state.nodes.nodes@[i].node.ports,
                id: state.nodes.nodes@[i].node.id,
                ..nodes[i]
            }) && crate::callback::behaves_alike(
                state.nodes.nodes@[i].node.callback,
                nodes[i].callback,
            ),
    ensures
        crate::determinism::all_deterministic(state, shown()),
{
    let placed = state.nodes.nodes@;
    assert(crate::callback::behaves_alike(placed[0].node.callback, nodes[0].callback));
    assert(crate::callback::behaves_alike(placed[1].node.callback, nodes[1].callback));
    assert(crate::callback::behaves_alike(placed[2].node.callback, nodes[2].callback));
    let counter = IncrementingIntegerPublisher { value: 0 };
    let calculator = FizzBuzzCalculator {  };
    let collector = StringCollector { string_store: store, stop_requested: false, target_count };
    lemma_does_as(nodes[0], placed[0].node, counter, "IncrementingIntegerPublisher"@, 1);
    lemma_does_as(nodes[1], placed[1].node, calculator, "FizzBuzzCalculator"@, 5);
    lemma_does_as(nodes[2], placed[2].node, collector, "StringCollector"@, 2);
    law_counting_is_deterministic(placed[0].node, counter, Duration { nanoseconds: 1_000_000 });
    law_calculating_is_deterministic(
        placed[1].node,
        calculator,
        Duration { nanoseconds: 5_000_000 },
    );
    law_collecting_is_deterministic(placed[2].node, collector, Duration { nanoseconds: 2_000_000 });
    assert forall|i: int| 0 <= i < placed.len() implies crate::determinism::asks_alike(
        (#[trigger] placed[i]).node,
    ) && crate::determinism::runs_alike(placed[i].node, shown()) by {
        assert(i == 0 || i == 1 || i == 2);
        assert(crate::callback::behaves_alike(placed[i].node.callback, nodes[i].callback));
        crate::callback::lemma_asks_same(placed[i].node, nodes[i]);
    }
}

/// A node of a callback does as that callback, also once it has run.
proof fn lemma_does_as<C: Callback<Sample>>(
    node: CallbackNode<Sample>,
    placed: CallbackNode<Sample>,
    callback: C,
    name: Seq<char>,
    milliseconds: int,
)
    requires
        crate::test_tasks::is_node_of(node, callback, name, milliseconds),
        0 <= milliseconds <= 1_000,
        crate::callback::behaves_alike(placed.callback, node.callback),
        placed.execution_duration_callback == node.execution_duration_callback,
    ensures
        does_as(
            placed,
            callback,
            Duration { nanoseconds: (milliseconds * 1_000_000) as u128 },
        ),
{
}

/// Whether every message of `before` is in `after` as it was.
pub open spec fn all_kept<T>(before: PubSub<T>, after: PubSub<T>) -> bool {
    forall|r: (usize, u64)| #[trigger] before.live(r) ==> after.entry(r) == before.entry(r)
}

/// What publishing a value changes.
pub(crate) proof fn lemma_published<T>(before: PubSub<T>, after: PubSub<T>, p: usize, value: T)
    requires
        before.wf(),
        p < before.publishers@.len(),
        crate::test_tasks::publishes(before, after, p, value),
    ensures
        all_kept(before, after),
        after.subscribers@ == before.subscribers@,
        after.readiness@ == before.readiness@,
        after.publishers@.len() == before.publishers@.len(),
        forall|q: int|
            0 <= q < before.publishers@.len() && q != p ==> #[trigger] after.publishers@[q]
                == before.publishers@[q],
        crate::pub_sub::same_port(after.publishers@[p as int], before.publishers@[p as int]),
        ({
            let old_loans = before.publishers@[p as int].loaned_values@;
            let loans = after.publishers@[p as int].loaned_values@;
            &&& loans.len() == old_loans.len() + 1
            &&& forall|k: int| 0 <= k < old_loans.len() ==> #[trigger] loans[k] == old_loans[k]
            &&& loans.last().sent
            &&& after.entry(crate::alike::loan_ref(p as int, loans.last()))
                == crate::pub_sub_io::unpublished(value, None)
        }),
        crate::pub_sub_laws::free_slots(after.publishers@[p as int].arena.storage@)
            == crate::pub_sub_laws::free_slots(before.publishers@[p as int].arena.storage@) - 1,
{
    let loaned = choose|loaned: PubSub<T>|
        #![trigger loaned.loaned_one_more(before, p as int, crate::pub_sub_io::unpublished(value, None))]
        loaned.loaned_one_more(
            before,
            p as int,
            crate::pub_sub_io::unpublished(value, None),
        ) && loaned.subscribers == before.subscribers && loaned.readiness == before.readiness
            && crate::output::sent(
            loaned,
            after,
            p,
            before.publishers@[p as int].loaned_values@.len() as usize,
        );
    let old_loans = before.publishers@[p as int].loaned_values@;
    assert(before.publishers@[p as int].loaned_values.len() == old_loans.len());
    let mid = loaned.publishers@[p as int].loaned_values@;
    crate::pub_sub_laws::lemma_claimed_slot(
        before.publishers@[p as int].arena.storage@,
        mid.last().ptr.slot as int,
        crate::arena::ArenaSlot {
            ref_count: 1,
            payload: Some(crate::pub_sub_io::unpublished(value, None)),
        },
    );
    assert(mid.drop_last() == old_loans);
    assert forall|k: int| 0 <= k < old_loans.len() implies #[trigger] mid[k] == old_loans[k] by {
        assert(mid.drop_last()[k] == mid[k]);
    }
    assert forall|r: (usize, u64)| #[trigger] before.live(r) implies after.entry(r)
        == before.entry(r) by {
        if r.0 == p {
            assert(before.publishers@[p as int].arena.refs(r.1 as int) > 0);
        } else {
            assert(loaned.publishers@[r.0 as int] == before.publishers@[r.0 as int]);
        }
    }
}

/// What was there still tells what it told.
proof fn lemma_told_still<T, V>(before: PubSub<T>, after: PubSub<T>, r: (usize, u64), depth: nat, see: spec_fn(T) -> V)
    requires
        before.wf(),
        all_kept(before, after),
        before.live(r),
    ensures
        crate::alike::told(after, r, depth, see) == crate::alike::told(before, r, depth, see),
    decreases depth,
{
    if depth > 0 {
        assert(after.entry(r) == before.entry(r));
        match before.entry(r).forwarded {
            Some(f) => {
                before.lemma_forwarded_is_live(r, f);
                lemma_told_still(before, after, f, (depth - 1) as nat, see);
            },
            None => {},
        }
    }
}

proof fn lemma_tell_alike_still<T, V>(
    a: PubSub<T>,
    a2: PubSub<T>,
    x: (usize, u64),
    b: PubSub<T>,
    b2: PubSub<T>,
    y: (usize, u64),
    see: spec_fn(T) -> V,
)
    requires
        a.wf(),
        b.wf(),
        all_kept(a, a2),
        all_kept(b, b2),
        a.live(x),
        b.live(y),
        crate::alike::tell_alike(a, x, b, y, see),
    ensures
        crate::alike::tell_alike(a2, x, b2, y, see),
{
    assert forall|depth: nat| #[trigger]
        crate::alike::told(a2, x, depth, see) == crate::alike::told(b2, y, depth, see) by {
        lemma_told_still(a, a2, x, depth, see);
        lemma_told_still(b, b2, y, depth, see);
        assert(crate::alike::told(a, x, depth, see) == crate::alike::told(b, y, depth, see));
    }
}

/// Publishing makes no message forward another.
pub(crate) proof fn lemma_publishing_forwards_nothing<T>(
    before: PubSub<T>,
    after: PubSub<T>,
    p: usize,
    payload: T,
)
    requires
        crate::room::forwards_none(before),
        p < before.publishers@.len(),
        crate::test_tasks::publishes(before, after, p, payload),
    ensures
        crate::room::forwards_none(after),
{
    let entry = crate::pub_sub_io::unpublished(payload, None);
    let loaned = choose|loaned: PubSub<T>|
        #![trigger loaned.loaned_one_more(before, p as int, entry)]
        loaned.loaned_one_more(before, p as int, entry) && crate::output::sent(
            loaned,
            after,
            p,
            before.publishers@[p as int].loaned_values@.len() as usize,
        );
    let slot = loaned.publishers@[p as int].loaned_values@.last().ptr.slot as int;
    assert forall|r: (usize, u64)| #[trigger] after.live(r) implies after.entry(
        r,
    ).forwarded is None by {
        if r.0 == p && r.1 == slot {
            assert(after.entry(r) == entry);
        } else {
            assert(before.live(r));
            assert(after.entry(r) == before.entry(r));
        }
    }
}

/// The fizz-buzz graph forwards nothing, wherever its nodes stand and whatever
/// they remember. So no arena runs out while it is simulated.
pub proof fn law_fizz_buzz_forwards_nothing(
    nodes: Seq<CallbackNode<Sample>>,
    kept: Vec<String>,
    target_count: usize,
    state: crate::simulation::SimulationState<Sample>,
)
    requires
        crate::test_tasks::is_fizz_buzz(nodes, kept, target_count),
        state.nodes.nodes@.len() == nodes.len(),
        forall|i: int|
            0 <= i < nodes.len() ==> (#[trigger] state.nodes.nodes@[i]).node == (CallbackNode {
                callback: state.nodes.nodes@[i].node.callback,
                ports: state.nodes.nodes@[i].node.ports,
                id: state.nodes.nodes@[i].node.id,
                ..nodes[i]
            }) && crate::callback::behaves_alike(
                state.nodes.nodes@[i].node.callback,
                nodes[i].callback,
            ),
    ensures
        crate::room::none_forward(state),
{
    let counter = IncrementingIntegerPublisher { value: 0 };
    let calculator = FizzBuzzCalculator {  };
    let collector = StringCollector { string_store: kept, stop_requested: false, target_count };
    assert forall|i: int| 0 <= i < state.nodes.nodes@.len() implies crate::room::never_forwards(
        (#[trigger] state.nodes.nodes@[i]).node,
    ) by {
        let node = state.nodes.nodes@[i].node;
        assert(crate::callback::behaves_alike(node.callback, nodes[i].callback));
        assert forall|
            memory: Memory,
            now: FrameworkTime,
            before: PubSub<Sample>,
            after: PubSub<Sample>,
            duration: Duration,
            next: Memory,
        |
            before.wf() && after.wf() && node.ports.within(before) && crate::room::forwards_none(
                before,
            ) && #[trigger] crate::simulation::run_gives(
                node,
                memory,
                now,
                before,
                after,
                duration,
                next,
            ) implies crate::room::forwards_none(after) by {
            let r = choose|r: Run| #[trigger]
                node.callback.inner.runs(memory, node.ports, now, before, after, r, next);
            assert(nodes[i].callback.inner.runs(memory, node.ports, now, before, after, r, next));
            let p = node.ports.first_publisher;
            if i == 0 {
                assert(counter.runs(memory, node.ports, now, before, after, r, next));
                if node.ports.publisher_count > 0 && before.loan_left(p as int) {
                    lemma_publishing_forwards_nothing(
                        before,
                        after,
                        p,
                        Sample::Integer(memory->Number_0 as u64),
                    );
                }
            } else if i == 1 {
                assert(calculator.runs(memory, node.ports, now, before, after, r, next));
                let s = node.ports.first_subscriber;
                let number = crate::test_tasks::integer_at(before, s);
                if node.ports.subscriber_count > 0 && node.ports.publisher_count > 0
                    && number is Some && before.loan_left(p as int) {
                    let text = crate::test_tasks::fizz_buzz_text(number->0);
                    let sent = choose|sent: String| #[trigger]
                        crate::test_tasks::publishes(before, after, p, Sample::Text(sent))
                            && sent@ == text;
                    lemma_publishing_forwards_nothing(before, after, p, Sample::Text(sent));
                }
            } else {
                assert(collector.runs(memory, node.ports, now, before, after, r, next));
            }
        }
    }
}

} // verus!
