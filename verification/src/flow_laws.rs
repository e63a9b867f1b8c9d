//! What publishing is for: what is sent reaches every connected input, in
//! order, with the time at which it was published, and asks its node to run.
use vstd::prelude::*;

use crate::callback::NodePorts;
use crate::pub_sub::{FlushView, PubSub};
use crate::publisher::{LoanedValue, SubscriberBuffer};
use crate::readiness::SubscriberReadiness;
use crate::scheduling::CallbackNodeId;
use crate::time::FrameworkTime;

verus! {

/// The loans that were sent, by reference.
proof fn lemma_sent_refs(p: int, loans: Seq<LoanedValue>)
    ensures
        crate::pub_sub_laws::sent_refs(p, loans) == loans.filter(
            |loan: LoanedValue| loan.sent,
        ).map_values(|loan: LoanedValue| (p as usize, loan.ptr.slot as u64)),
    decreases loans.len(),
{
    let sent = |loan: LoanedValue| loan.sent;
    let refer = |loan: LoanedValue| (p as usize, loan.ptr.slot as u64);
    if loans.len() == 0 {
        reveal(Seq::filter);
        assert(loans.filter(sent).map_values(refer) =~= Seq::empty());
    } else {
        let rest = loans.skip(1);
        lemma_sent_refs(p, rest);
        rest.lemma_filter_prepend(loans[0], sent);
        assert(seq![loans[0]] + rest =~= loans);
        if loans[0].sent {
            assert((seq![loans[0]] + rest.filter(sent)).map_values(refer) =~= seq![
                refer(loans[0]),
            ] + rest.filter(sent).map_values(refer));
        } else {
            assert(Seq::<LoanedValue>::empty() + rest.filter(sent) =~= rest.filter(sent));
        }
    }
}

/// A subscriber without a connection, or with a single one.
proof fn lemma_connection_count(connections: Seq<SubscriberBuffer>, s: int)
    ensures
        (forall|c: int| 0 <= c < connections.len() ==> (#[trigger] connections[c]).subscriber != s)
            ==> crate::pub_sub_laws::connection_count(connections, s) == 0,
        (exists|c: int|
            0 <= c < connections.len() && (#[trigger] connections[c]).subscriber == s) && (forall|
            c: int,
            d: int,
        |
            0 <= c < d < connections.len() && (#[trigger] connections[c]).subscriber == s
                ==> (#[trigger] connections[d]).subscriber != s)
            ==> crate::pub_sub_laws::connection_count(connections, s) == 1,
    decreases connections.len(),
{
    if connections.len() > 0 {
        let rest = connections.skip(1);
        lemma_connection_count(rest, s);
        assert forall|c: int| 0 <= c < rest.len() implies #[trigger] rest[c]
            == connections[c + 1] by {}
        if forall|c: int| 0 <= c < connections.len() ==> (#[trigger] connections[c]).subscriber
            != s {
            assert forall|c: int| 0 <= c < rest.len() implies (#[trigger] rest[c]).subscriber
                != s by {
                assert(connections[c + 1].subscriber != s);
            }
        } else if forall|c: int, d: int|
            0 <= c < d < connections.len() && (#[trigger] connections[c]).subscriber == s ==> (
            #[trigger] connections[d]).subscriber != s {
            if connections[0].subscriber == s {
                assert forall|c: int| 0 <= c < rest.len() implies (#[trigger] rest[c]).subscriber
                    != s by {
                    assert(connections[c + 1].subscriber != s);
                }
            } else {
                assert forall|c: int, d: int|
                    0 <= c < d < rest.len() && (#[trigger] rest[c]).subscriber == s implies (
                #[trigger] rest[d]).subscriber != s by {
                    assert(connections[c + 1].subscriber == s);
                    assert(connections[d + 1].subscriber != s);
                }
                if exists|c: int|
                    0 <= c < connections.len() && (#[trigger] connections[c]).subscriber == s {
                    let c = choose|c: int|
                        0 <= c < connections.len() && (#[trigger] connections[c]).subscriber == s;
                    assert(rest[c - 1].subscriber == s);
                }
            }
        }
    }
}

/// The flush view of a sound system fits the connections of its publishers.
proof fn lemma_view_fits<T>(system: PubSub<T>, announced: Seq<CallbackNodeId>, p: int)
    requires
        system.wf(),
        0 <= p < system.publishers@.len(),
    ensures
        crate::pub_sub_laws::view_fits(
            system.flush_view(announced),
            system.publishers@[p].connections@,
        ),
{
    let view = system.flush_view(announced);
    let connections = system.publishers@[p].connections@;
    assert forall|c: int| 0 <= c < connections.len() implies (#[trigger] connections[c]).subscriber
        < view.pending.len() by {
        assert(system.connection_valid(system.publishers@[p].connections@[c]));
    }
    assert forall|s: int| 0 <= s < view.pending.len() implies (#[trigger] view.pending[s]).len()
        <= view.capacity[s] && view.capacity[s] > 0 by {
        assert(system.subscribers@[s].wf());
    }
}

/// A flush appends every message that was sent, in the order of the loans, to
/// what is pending on each input that is connected once; where that is more than
/// the input's capacity, the oldest messages are gone. An input that is not
/// connected, and what inputs can read already, stays as it was.
pub proof fn law_flush_reaches_connected_inputs<T>(
    before: PubSub<T>,
    after: PubSub<T>,
    announced: Seq<CallbackNodeId>,
    p: int,
    s: int,
)
    requires
        before.wf(),
        after.same_readers(before),
        0 <= p < before.publishers@.len(),
        0 <= s < before.subscribers@.len(),
        after.flush_view(announced) == crate::pub_sub::flushed(
            before.flush_view(Seq::empty()),
            before.publishers@[p].connections@,
            p,
            before.publishers@[p].loaned_values@,
        ),
    ensures
        ({
            let connections = before.publishers@[p].connections@;
            let sent = before.publishers@[p].loaned_values@.filter(
                |loan: LoanedValue| loan.sent,
            ).map_values(|loan: LoanedValue| (p as usize, loan.ptr.slot as u64));
            let all = before.subscribers@[s].buffers.pending() + sent;
            let cap = before.subscribers@[s].config.capacity as int;
            let is = after.subscribers@[s].buffers.pending();
            let once = (exists|c: int|
                0 <= c < connections.len() && (#[trigger] connections[c]).subscriber == s) && (
            forall|c: int, d: int|
                0 <= c < d < connections.len() && (#[trigger] connections[c]).subscriber == s ==> (
                #[trigger] connections[d]).subscriber != s);
            let never = forall|c: int|
                0 <= c < connections.len() ==> (#[trigger] connections[c]).subscriber != s;
            &&& once && all.len() <= cap ==> is == all
            &&& once && all.len() > cap ==> is == all.skip(all.len() - cap)
            &&& never ==> is == before.subscribers@[s].buffers.pending()
            &&& after.subscribers@[s].buffers.readable()
                == before.subscribers@[s].buffers.readable()
            &&& after.subscribers@[s].config == before.subscribers@[s].config
        }),
{
    let view = before.flush_view(Seq::empty());
    let connections = before.publishers@[p].connections@;
    let loans = before.publishers@[p].loaned_values@;
    lemma_view_fits(before, Seq::empty(), p);
    lemma_connection_count(connections, s);
    lemma_sent_refs(p, loans);
    crate::pub_sub_laws::law_flush_reaches_each_connected_subscriber(
        view,
        connections,
        p,
        loans,
        s,
    );
    assert(after.flush_view(announced).pending[s] == after.subscribers@[s].buffers.pending());
    assert(crate::pub_sub::same_reader(after.subscribers@[s], before.subscribers@[s]));
}

/// A message that a flush published carries the time of the flush and the payload
/// with which it was sent; every other message stays as it was.
pub proof fn law_flush_stamps_what_was_sent<T>(
    before: PubSub<T>,
    after: PubSub<T>,
    p: int,
    timestamp: FrameworkTime,
    r: (usize, u64),
)
    requires
        after.stamps_sent(
            before,
            p,
            before.publishers@[p].loaned_values@,
            timestamp,
        ),
        after.live(r),
        0 <= p <= usize::MAX,
    ensures
        ({
            let loans = before.publishers@[p].loaned_values@;
            let sent = r.0 == p && exists|k: int|
                0 <= k < loans.len() && (#[trigger] loans[k]).sent && loans[k].ptr.slot as u64
                    == r.1;
            &&& before.live(r)
            &&& after.entry(r).message.message == before.entry(r).message.message
            &&& after.entry(r).forwarded == before.entry(r).forwarded
            &&& sent ==> after.entry(r).message.header.published_at == timestamp
            &&& !sent ==> after.entry(r).message.header == before.entry(r).message.header
        }),
{
    let loans = before.publishers@[p].loaned_values@;
    if exists|k: int|
        0 <= k < loans.len() && (#[trigger] loans[k]).sent && loans[k].ptr.slot as u64 == r.1 {
        let k = choose|k: int|
            0 <= k < loans.len() && (#[trigger] loans[k]).sent && loans[k].ptr.slot as u64 == r.1;
        if r.0 == p {
            assert(loans[k].sent && r == (p as usize, loans[k].ptr.slot as u64));
            assert(crate::pub_sub::is_sent(p, loans, r));
        }
    }
    if crate::pub_sub::is_sent(p, loans, r) {
        let k = choose|k: int|
            0 <= k < loans.len() && (#[trigger] loans[k]).sent && r == (
                p as usize,
                loans[k].ptr.slot as u64,
            );
        assert(loans[k].sent && loans[k].ptr.slot as u64 == r.1);
    }
}

/// A flush reports one header for each message that it published.
pub proof fn law_flush_reports_each_message(loans: Seq<LoanedValue>, timestamp: FrameworkTime)
    ensures
        ({
            let headers = crate::pub_sub::same_headers(
                timestamp,
                crate::pub_sub::sent_count(loans),
            );
            &&& headers.len() == loans.filter(|loan: LoanedValue| loan.sent).len()
            &&& forall|i: int|
                0 <= i < headers.len() ==> (#[trigger] headers[i]).published_at == timestamp
        }),
    decreases loans.len(),
{
    let sent = |loan: LoanedValue| loan.sent;
    if loans.len() == 0 {
        reveal(Seq::filter);
        assert(loans.filter(sent).len() == 0);
    } else {
        let rest = loans.skip(1);
        law_flush_reports_each_message(rest, timestamp);
        rest.lemma_filter_prepend(loans[0], sent);
        assert(seq![loans[0]] + rest =~= loans);
        if !loans[0].sent {
            assert(Seq::<LoanedValue>::empty() + rest.filter(sent) =~= rest.filter(sent));
        }
    }
}

/// What delivering one message to all connections does to the readiness of node
/// `n`.
proof fn lemma_delivered_masks(
    view: FlushView,
    connections: Seq<SubscriberBuffer>,
    r: (usize, u64),
    n: int,
)
    requires
        view.nodes.len() == view.masks.len(),
        0 <= n < view.masks.len(),
        n <= usize::MAX,
        forall|c: int|
            0 <= c < connections.len() ==> crate::pub_sub::role_valid(
                (#[trigger] connections[c]).readiness,
                view.masks.len(),
            ),
    ensures
        ({
            let after = crate::pub_sub::delivered_to_all(view, connections, r);
            &&& after.masks.len() == view.masks.len()
            &&& after.nodes == view.nodes
            &&& forall|j: usize|
                j < usize::BITS && #[trigger] crate::readiness::bit_is_set(view.masks[n], j)
                    ==> crate::readiness::bit_is_set(after.masks[n], j)
            &&& view.announced.is_prefix_of(after.announced)
            &&& forall|c: int|
                0 <= c < connections.len() ==> match (#[trigger] connections[c]).readiness {
                    Some(SubscriberReadiness::Gating(node, bit)) => node == n
                        ==> crate::readiness::bit_is_set(after.masks[n], bit),
                    _ => true,
                }
            &&& view.masks[n] != usize::MAX && after.masks[n] == usize::MAX
                && view.nodes[n] is Some ==> after.announced.contains(view.nodes[n]->0)
            &&& view.masks[n] == usize::MAX && view.nodes[n] is Some && (exists|c: int|
                0 <= c < connections.len() && (#[trigger] connections[c]).readiness == Some(
                    SubscriberReadiness::OptionalTrigger(n as usize),
                )) ==> after.announced.contains(view.nodes[n]->0)
            &&& (forall|c: int|
                0 <= c < connections.len() ==> match (#[trigger] connections[c]).readiness {
                    Some(SubscriberReadiness::Gating(node, _)) => node != n,
                    _ => true,
                }) ==> after.masks[n] == view.masks[n]
        }),
    decreases connections.len(),
{
    if connections.len() > 0 {
        let next = crate::pub_sub::delivered(view, connections[0], r);
        let rest = connections.skip(1);
        assert forall|c: int| 0 <= c < rest.len() implies crate::pub_sub::role_valid(
            (#[trigger] rest[c]).readiness,
            next.masks.len(),
        ) by {
            assert(rest[c] == connections[c + 1]);
        }
        assert(crate::pub_sub::role_valid(connections[0].readiness, view.masks.len()));
        lemma_delivered_masks(next, rest, r, n);
        let after = crate::pub_sub::delivered_to_all(view, connections, r);
        assert(after == crate::pub_sub::delivered_to_all(next, rest, r));
        if let Some(SubscriberReadiness::Gating(node, bit)) = connections[0].readiness {
            if node == n {
                assert forall|j: usize|
                    j < usize::BITS implies (#[trigger] crate::readiness::bit_is_set(
                    next.masks[n],
                    j,
                ) <==> j == bit || crate::readiness::bit_is_set(view.masks[n], j)) by {
                    crate::readiness::lemma_set_bit(view.masks[n], bit, j);
                }
                if view.masks[n] == usize::MAX {
                    crate::readiness::law_complete_means_every_bit(view.masks[n]);
                    crate::readiness::law_complete_means_every_bit(next.masks[n]);
                }
            }
        }
        assert forall|j: usize|
            j < usize::BITS && #[trigger] crate::readiness::bit_is_set(
                view.masks[n],
                j,
            ) implies crate::readiness::bit_is_set(after.masks[n], j) by {
            assert(crate::readiness::bit_is_set(next.masks[n], j));
        }
        assert(view.announced.is_prefix_of(next.announced));
        assert(view.announced.is_prefix_of(after.announced)) by {
            assert(view.announced =~= after.announced.take(view.announced.len() as int));
        }
        assert forall|id: CallbackNodeId| next.announced.contains(id) implies #[trigger]
            after.announced.contains(id) by {
            let k = choose|k: int| 0 <= k < next.announced.len() && next.announced[k] == id;
            assert(after.announced[k] == id);
        }
        assert forall|c: int| 0 <= c < connections.len() implies match (#[trigger]
        connections[c]).readiness {
            Some(SubscriberReadiness::Gating(node, bit)) => node == n
                ==> crate::readiness::bit_is_set(after.masks[n], bit),
            _ => true,
        } by {
            assert(crate::pub_sub::role_valid(connections[c].readiness, view.masks.len()));
            if let Some(SubscriberReadiness::Gating(node, bit)) = connections[c].readiness {
                if node == n {
                    if c == 0 {
                        assert(crate::readiness::bit_is_set(next.masks[n], bit));
                    } else {
                        assert(rest[c - 1] == connections[c]);
                    }
                }
            }
        }
        if view.masks[n] != usize::MAX && after.masks[n] == usize::MAX && view.nodes[n] is Some {
            if next.masks[n] == usize::MAX {
                assert(next.announced[next.announced.len() - 1] == view.nodes[n]->0);
                assert(next.announced.contains(view.nodes[n]->0));
            }
        }
        if view.masks[n] == usize::MAX && view.nodes[n] is Some && exists|c: int|
            0 <= c < connections.len() && (#[trigger] connections[c]).readiness == Some(
                SubscriberReadiness::OptionalTrigger(n as usize),
            ) {
            let c = choose|c: int|
                0 <= c < connections.len() && (#[trigger] connections[c]).readiness == Some(
                    SubscriberReadiness::OptionalTrigger(n as usize),
                );
            if c == 0 {
                assert(next.announced[next.announced.len() - 1] == view.nodes[n]->0);
                assert(next.announced.contains(view.nodes[n]->0));
            } else {
                assert(rest[c - 1].readiness == Some(
                    SubscriberReadiness::OptionalTrigger(n as usize),
                ));
                assert(next.masks[n] == usize::MAX);
            }
        }
        if forall|c: int|
            0 <= c < connections.len() ==> match (#[trigger] connections[c]).readiness {
                Some(SubscriberReadiness::Gating(node, _)) => node != n,
                _ => true,
            } {
            assert forall|c: int| 0 <= c < rest.len() implies match (#[trigger] rest[c]).readiness {
                Some(SubscriberReadiness::Gating(node, _)) => node != n,
                _ => true,
            } by {
                assert(rest[c] == connections[c + 1]);
            }
            assert(next.masks[n] == view.masks[n]) by {
                assert(connections[0] == connections[0]);
            }
        }
    }
}

/// What a flush does to the readiness of node `n`.
proof fn lemma_flushed_masks(
    view: FlushView,
    connections: Seq<SubscriberBuffer>,
    p: int,
    loans: Seq<LoanedValue>,
    n: int,
)
    requires
        view.nodes.len() == view.masks.len(),
        0 <= n < view.masks.len(),
        n <= usize::MAX,
        forall|c: int|
            0 <= c < connections.len() ==> crate::pub_sub::role_valid(
                (#[trigger] connections[c]).readiness,
                view.masks.len(),
            ),
    ensures
        ({
            let after = crate::pub_sub::flushed(view, connections, p, loans);
            let some = exists|k: int| 0 <= k < loans.len() && (#[trigger] loans[k]).sent;
            &&& after.masks.len() == view.masks.len()
            &&& after.nodes == view.nodes
            &&& forall|j: usize|
                j < usize::BITS && #[trigger] crate::readiness::bit_is_set(view.masks[n], j)
                    ==> crate::readiness::bit_is_set(after.masks[n], j)
            &&& view.announced.is_prefix_of(after.announced)
            &&& forall|c: int|
                some && 0 <= c < connections.len() ==> match (#[trigger]
                connections[c]).readiness {
                    Some(SubscriberReadiness::Gating(node, bit)) => node == n
                        ==> crate::readiness::bit_is_set(after.masks[n], bit),
                    _ => true,
                }
            &&& view.masks[n] != usize::MAX && after.masks[n] == usize::MAX
                && view.nodes[n] is Some ==> after.announced.contains(view.nodes[n]->0)
            &&& some && view.masks[n] == usize::MAX && view.nodes[n] is Some && (exists|c: int|
                0 <= c < connections.len() && (#[trigger] connections[c]).readiness == Some(
                    SubscriberReadiness::OptionalTrigger(n as usize),
                )) ==> after.announced.contains(view.nodes[n]->0)
            &&& (!some || forall|c: int|
                0 <= c < connections.len() ==> match (#[trigger] connections[c]).readiness {
                    Some(SubscriberReadiness::Gating(node, _)) => node != n,
                    _ => true,
                }) ==> after.masks[n] == view.masks[n]
            &&& !some ==> after.announced == view.announced
        }),
    decreases loans.len(),
{
    if loans.len() > 0 {
        let rest = loans.skip(1);
        let r = (p as usize, loans[0].ptr.slot as u64);
        let next = if loans[0].sent {
            crate::pub_sub::delivered_to_all(view, connections, r)
        } else {
            view
        };
        if loans[0].sent {
            lemma_delivered_masks(view, connections, r, n);
        }
        lemma_flushed_masks(next, connections, p, rest, n);
        let after = crate::pub_sub::flushed(view, connections, p, loans);
        assert(view.announced.is_prefix_of(after.announced)) by {
            assert(view.announced =~= after.announced.take(view.announced.len() as int));
        }
        assert forall|id: CallbackNodeId| next.announced.contains(id) implies #[trigger]
            after.announced.contains(id) by {
            let k = choose|k: int| 0 <= k < next.announced.len() && next.announced[k] == id;
            assert(after.announced[k] == id);
        }
        if exists|k: int| 0 <= k < loans.len() && (#[trigger] loans[k]).sent {
            let k = choose|k: int| 0 <= k < loans.len() && (#[trigger] loans[k]).sent;
            if k > 0 {
                assert(rest[k - 1].sent);
            }
        } else {
            assert(!loans[0].sent);
            assert forall|k: int| 0 <= k < rest.len() implies !(#[trigger] rest[k]).sent by {
                assert(!loans[k + 1].sent);
            }
        }
        assert forall|j: usize|
            j < usize::BITS && #[trigger] crate::readiness::bit_is_set(
                view.masks[n],
                j,
            ) implies crate::readiness::bit_is_set(after.masks[n], j) by {
            assert(crate::readiness::bit_is_set(next.masks[n], j));
        }
        let some = exists|k: int| 0 <= k < loans.len() && (#[trigger] loans[k]).sent;
        assert forall|c: int| some && 0 <= c < connections.len() implies match (#[trigger]
        connections[c]).readiness {
            Some(SubscriberReadiness::Gating(node, bit)) => node == n
                ==> crate::readiness::bit_is_set(after.masks[n], bit),
            _ => true,
        } by {
            assert(crate::pub_sub::role_valid(connections[c].readiness, view.masks.len()));
            if let Some(SubscriberReadiness::Gating(node, bit)) = connections[c].readiness {
                if node == n && loans[0].sent {
                    assert(crate::readiness::bit_is_set(next.masks[n], bit));
                }
            }
        }
        if view.masks[n] == usize::MAX && loans[0].sent {
            crate::readiness::law_complete_means_every_bit(view.masks[n]);
            crate::readiness::law_complete_means_every_bit(next.masks[n]);
        }
    }
}

/// A message sets the readiness bit of each required trigger input that it
/// reaches. The node of such an input is announced when that was the last bit that
/// was missing, and the node of an optional trigger input is announced if none was
/// missing. Bits are only set, and only by inputs that the publisher is connected
/// to; without a message nothing changes.
pub proof fn law_messages_make_their_nodes_ready<T>(
    before: PubSub<T>,
    after: PubSub<T>,
    announced: Seq<CallbackNodeId>,
    p: int,
    n: int,
)
    requires
        before.wf(),
        after.same_readers(before),
        0 <= p < before.publishers@.len(),
        0 <= n < before.readiness@.len(),
        n <= usize::MAX,
        after.flush_view(announced) == crate::pub_sub::flushed(
            before.flush_view(Seq::empty()),
            before.publishers@[p].connections@,
            p,
            before.publishers@[p].loaned_values@,
        ),
    ensures
        ({
            let connections = before.publishers@[p].connections@;
            let loans = before.publishers@[p].loaned_values@;
            let was = before.readiness@[n];
            let is = after.readiness@[n];
            let some = exists|k: int| 0 <= k < loans.len() && (#[trigger] loans[k]).sent;
            &&& is.node == was.node
            &&& forall|j: usize|
                j < usize::BITS && #[trigger] crate::readiness::bit_is_set(was.bitmask, j)
                    ==> crate::readiness::bit_is_set(is.bitmask, j)
            &&& forall|c: int|
                some && 0 <= c < connections.len() ==> match (#[trigger]
                connections[c]).readiness {
                    Some(SubscriberReadiness::Gating(node, bit)) => node == n
                        ==> crate::readiness::bit_is_set(is.bitmask, bit),
                    _ => true,
                }
            &&& was.bitmask != usize::MAX && is.bitmask == usize::MAX && was.node is Some
                ==> announced.contains(was.node->0)
            &&& some && was.bitmask == usize::MAX && was.node is Some && (exists|c: int|
                0 <= c < connections.len() && (#[trigger] connections[c]).readiness == Some(
                    SubscriberReadiness::OptionalTrigger(n as usize),
                )) ==> announced.contains(was.node->0)
            &&& (!some || forall|c: int|
                0 <= c < connections.len() ==> match (#[trigger] connections[c]).readiness {
                    Some(SubscriberReadiness::Gating(node, _)) => node != n,
                    _ => true,
                }) ==> is.bitmask == was.bitmask
            &&& !some ==> announced.len() == 0
        }),
{
    let view = before.flush_view(Seq::empty());
    let connections = before.publishers@[p].connections@;
    assert forall|c: int| 0 <= c < connections.len() implies crate::pub_sub::role_valid(
        (#[trigger] connections[c]).readiness,
        view.masks.len(),
    ) by {
        assert(before.connection_valid(before.publishers@[p].connections@[c]));
    }
    lemma_flushed_masks(view, connections, p, before.publishers@[p].loaned_values@, n);
    assert(after.flush_view(announced).masks[n] == after.readiness@[n].bitmask);
    assert(after.flush_view(announced).nodes[n] == after.readiness@[n].node);
}

/// What node flushes leave pending on subscriber `s`.
proof fn lemma_node_flushed<T>(
    ports: NodePorts,
    view: FlushView,
    before: PubSub<T>,
    k: int,
    s: int,
    parts: Seq<Seq<(usize, u64)>>,
)
    requires
        before.wf(),
        ports.within(before),
        0 <= k <= ports.publisher_count,
        0 <= s < view.pending.len(),
        view.pending.len() == before.subscribers@.len(),
        view.drops.len() == view.pending.len(),
        view.capacity == before.flush_view(Seq::empty()).capacity,
        forall|t: int|
            0 <= t < view.pending.len() ==> (#[trigger] view.pending[t]).len() <= view.capacity[t],
        forall|j: int|
            0 <= j < ports.publisher_count ==> crate::pub_sub_laws::connection_count(
                (#[trigger] before.publishers@[ports.first_publisher + j]).connections@,
                s,
            ) <= 1,
        parts.len() == ports.publisher_count - k,
        forall|j: int|
            0 <= j < parts.len() ==> #[trigger] parts[j] == if crate::pub_sub_laws::connection_count(
                before.publishers@[ports.first_publisher + k + j].connections@,
                s,
            ) == 0 {
                Seq::empty()
            } else {
                crate::pub_sub_laws::sent_refs(
                    ports.first_publisher + k + j,
                    before.publishers@[ports.first_publisher + k + j].loaned_values@,
                )
            },
    ensures
        ports.flushed_from(view, before, k).pending[s] == crate::mpsc_queue::newest(
            view.pending[s] + parts.flatten(),
            view.capacity[s],
        ),
    decreases ports.publisher_count - k,
{
    assert(view.pending[s].len() <= view.capacity[s]);
    if k >= ports.publisher_count {
        assert(parts.flatten() =~= Seq::empty());
        assert(view.pending[s] + parts.flatten() =~= view.pending[s]);
    } else {
        let p = ports.first_publisher + k;
        let connections = before.publishers@[p].connections@;
        let loans = before.publishers@[p].loaned_values@;
        let next = crate::pub_sub::flushed(view, connections, p, loans);
        lemma_view_fits(before, Seq::empty(), p);
        assert(crate::pub_sub_laws::view_fits(view, connections)) by {
            assert forall|t: int| 0 <= t < view.pending.len() implies (#[trigger]
            view.pending[t]).len() <= view.capacity[t] && view.capacity[t] > 0 by {
                assert(before.subscribers@[t].wf());
            }
            assert forall|c: int| 0 <= c < connections.len() implies (#[trigger]
            connections[c]).subscriber < view.pending.len() by {
                assert(before.connection_valid(before.publishers@[p].connections@[c]));
            }
        }
        crate::pub_sub_laws::law_flush_reaches_each_connected_subscriber(
            view,
            connections,
            p,
            loans,
            s,
        );
        lemma_flushed_shape(view, connections, p, loans);
        assert(crate::pub_sub_laws::connection_count(
            before.publishers@[ports.first_publisher + k].connections@,
            s,
        ) <= 1);
        let rest = parts.drop_first();
        assert forall|j: int| 0 <= j < rest.len() implies #[trigger] rest[j]
            == if crate::pub_sub_laws::connection_count(
            before.publishers@[ports.first_publisher + (k + 1) + j].connections@,
            s,
        ) == 0 {
            Seq::empty()
        } else {
            crate::pub_sub_laws::sent_refs(
                ports.first_publisher + (k + 1) + j,
                before.publishers@[ports.first_publisher + (k + 1) + j].loaned_values@,
            )
        } by {
            assert(rest[j] == parts[j + 1]);
            assert(ports.first_publisher + k + (j + 1) == ports.first_publisher + (k + 1) + j);
        }
        lemma_node_flushed(ports, next, before, k + 1, s, rest);
        let cap = view.capacity[s];
        assert(parts[0] == parts.first());
        assert(ports.first_publisher + k + 0 == p);
        if crate::pub_sub_laws::connection_count(connections, s) == 0 {
            assert(view.pending[s] + parts.flatten() =~= view.pending[s] + rest.flatten());
        } else {
            let sent = crate::pub_sub_laws::sent_refs(p, loans);
            assert(parts[0] == sent);
            assert(crate::mpsc_queue::newest(
                crate::mpsc_queue::newest(view.pending[s] + sent, cap) + rest.flatten(),
                cap,
            ) =~= crate::mpsc_queue::newest((view.pending[s] + sent) + rest.flatten(), cap));
            assert((view.pending[s] + sent) + rest.flatten() =~= view.pending[s]
                + parts.flatten());
        }
    }
}

/// A flush keeps the shape of a view.
proof fn lemma_flushed_shape(
    view: FlushView,
    connections: Seq<SubscriberBuffer>,
    p: int,
    loans: Seq<LoanedValue>,
)
    requires
        crate::pub_sub_laws::view_fits(view, connections),
    ensures
        crate::pub_sub_laws::view_fits(
            crate::pub_sub::flushed(view, connections, p, loans),
            connections,
        ),
        crate::pub_sub::flushed(view, connections, p, loans).pending.len() == view.pending.len(),
        crate::pub_sub::flushed(view, connections, p, loans).capacity == view.capacity,
    decreases loans.len(),
{
    if loans.len() > 0 {
        let r = (p as usize, loans[0].ptr.slot as u64);
        if loans[0].sent {
            crate::pub_sub_laws::lemma_delivered_fits(view, connections, r);
            lemma_flushed_shape(
                crate::pub_sub::delivered_to_all(view, connections, r),
                connections,
                p,
                loans.skip(1),
            );
        } else {
            lemma_flushed_shape(view, connections, p, loans.skip(1));
        }
    }
}

/// After a node's flush, an input has pending what it had and then, output by
/// output, what was sent to it over a connection, in the order of the loans; where
/// that is more than its capacity, the oldest messages are gone. Every output of
/// the node is flushed.
pub proof fn law_node_flush_publishes_every_output<T>(
    ports: NodePorts,
    before: PubSub<T>,
    after: PubSub<T>,
    timestamp: FrameworkTime,
    announced: Seq<CallbackNodeId>,
    s: int,
)
    requires
        before.wf(),
        ports.within(before),
        ports.flushes(before, after, timestamp, announced),
        0 <= s < before.subscribers@.len(),
        forall|j: int, c: int, d: int|
            0 <= j < ports.publisher_count && 0 <= c < d
                < before.publishers@[ports.first_publisher + j].connections@.len() ==> (#[trigger]
            before.publishers@[ports.first_publisher + j].connections@[c]).subscriber != (#[trigger]
            before.publishers@[ports.first_publisher + j].connections@[d]).subscriber,
    ensures
        ({
            let parts = Seq::new(
                ports.publisher_count as nat,
                |j: int|
                    {
                        let p = ports.first_publisher + j;
                        let connections = before.publishers@[p].connections@;
                        if exists|c: int|
                            0 <= c < connections.len() && (#[trigger] connections[c]).subscriber
                                == s {
                            before.publishers@[p].loaned_values@.filter(
                                |loan: LoanedValue| loan.sent,
                            ).map_values(|loan: LoanedValue| (p as usize, loan.ptr.slot as u64))
                        } else {
                            Seq::empty()
                        }
                    },
            );
            let all = before.subscribers@[s].buffers.pending() + parts.flatten();
            let cap = before.subscribers@[s].config.capacity as int;
            let is = after.subscribers@[s].buffers.pending();
            &&& all.len() <= cap ==> is == all
            &&& all.len() > cap ==> is == all.skip(all.len() - cap)
            &&& forall|p: int|
                ports.first_publisher <= p < ports.first_publisher + ports.publisher_count
                    ==> (#[trigger] after.publishers@[p]).loaned_values@.len() == 0
        }),
{
    let view = before.flush_view(Seq::empty());
    let parts = Seq::new(
        ports.publisher_count as nat,
        |j: int|
            {
                let p = ports.first_publisher + j;
                let connections = before.publishers@[p].connections@;
                if exists|c: int|
                    0 <= c < connections.len() && (#[trigger] connections[c]).subscriber == s {
                    before.publishers@[p].loaned_values@.filter(
                        |loan: LoanedValue| loan.sent,
                    ).map_values(|loan: LoanedValue| (p as usize, loan.ptr.slot as u64))
                } else {
                    Seq::empty()
                }
            },
    );
    assert forall|j: int| 0 <= j < ports.publisher_count implies crate::pub_sub_laws::connection_count(
        (#[trigger] before.publishers@[ports.first_publisher + j]).connections@,
        s,
    ) <= 1 && (crate::pub_sub_laws::connection_count(
        before.publishers@[ports.first_publisher + j].connections@,
        s,
    ) == 0 <==> !(exists|c: int|
        0 <= c < before.publishers@[ports.first_publisher + j].connections@.len() && (#[trigger]
        before.publishers@[ports.first_publisher + j].connections@[c]).subscriber == s)) by {
        let connections = before.publishers@[ports.first_publisher + j].connections@;
        assert forall|c: int, d: int|
            0 <= c < d < connections.len() && (#[trigger] connections[c]).subscriber == s implies (
        #[trigger] connections[d]).subscriber != s by {
            assert(before.publishers@[ports.first_publisher + j].connections@[c].subscriber
                != before.publishers@[ports.first_publisher + j].connections@[d].subscriber);
        }
        lemma_connection_count(connections, s);
    }
    assert forall|j: int| 0 <= j < parts.len() implies #[trigger] parts[j]
        == if crate::pub_sub_laws::connection_count(
        before.publishers@[ports.first_publisher + 0 + j].connections@,
        s,
    ) == 0 {
        Seq::empty()
    } else {
        crate::pub_sub_laws::sent_refs(
            ports.first_publisher + 0 + j,
            before.publishers@[ports.first_publisher + 0 + j].loaned_values@,
        )
    } by {
        let p = ports.first_publisher + j;
        assert(ports.first_publisher + 0 + j == p);
        lemma_sent_refs(p, before.publishers@[p].loaned_values@);
    }
    assert forall|t: int| 0 <= t < view.pending.len() implies (#[trigger] view.pending[t]).len()
        <= view.capacity[t] by {
        assert(before.subscribers@[t].wf());
    }
    lemma_node_flushed(ports, view, before, 0, s, parts);
    assert(after.flush_view(announced).pending[s] == after.subscribers@[s].buffers.pending());
    assert forall|p: int|
        ports.first_publisher <= p < ports.first_publisher + ports.publisher_count implies (
    #[trigger] after.publishers@[p]).loaned_values@.len() == 0 by {
        assert(ports.owns_publisher(p));
        assert(crate::pub_sub::same_port(after.publishers@[p], before.publishers@[p]));
    }
}

/// Draining an input clears the readiness bit of a required trigger, so that its
/// node waits for the next message; no other bit of any node changes.
pub proof fn law_drain_waits_for_the_next_message(
    readiness: Seq<crate::readiness::CallbackNodeReadiness>,
    subscriber: crate::subscriber::Subscriber,
    n: int,
    j: usize,
)
    requires
        crate::pub_sub::role_valid(subscriber.readiness_state, readiness.len()),
        subscriber.config.is_trigger,
        0 <= n < readiness.len(),
        j < usize::BITS,
    ensures
        ({
            let after = crate::pub_sub_io::drained_readiness(readiness, subscriber);
            let cleared = subscriber.readiness_state == Some(
                SubscriberReadiness::Gating(n as usize, j),
            );
            &&& after.len() == readiness.len()
            &&& after[n].node == readiness[n].node
            &&& n <= usize::MAX && cleared ==> !crate::readiness::bit_is_set(after[n].bitmask, j)
            &&& n <= usize::MAX && !cleared ==> crate::readiness::bit_is_set(after[n].bitmask, j)
                == crate::readiness::bit_is_set(readiness[n].bitmask, j)
        }),
{
    if let Some(SubscriberReadiness::Gating(node, bit)) = subscriber.readiness_state {
        crate::readiness::lemma_clear_bit(readiness[node as int].bitmask, bit, j);
    }
}

/// A message that is loaned and marked as sent holds the payload that was given,
/// and nothing else that was loaned or queued changes.
pub proof fn law_published_message_holds_its_payload<T>(
    before: PubSub<T>,
    after: PubSub<T>,
    p: usize,
    payload: T,
)
    requires
        before.wf(),
        after.wf(),
        p < before.publishers@.len(),
        crate::test_tasks::publishes(before, after, p, payload),
    ensures
        ({
            let was = before.publishers@[p as int];
            let is = after.publishers@[p as int];
            let loan = is.loaned_values@.last();
            &&& is.loaned_values@.len() == was.loaned_values@.len() + 1
            &&& is.loaned_values@.take(was.loaned_values@.len() as int) == was.loaned_values@
            &&& loan.sent
            &&& is.arena.storage@[loan.ptr.slot as int].payload is Some
            &&& is.arena.storage@[loan.ptr.slot as int].payload->0.message.message == payload
            &&& forall|i: int|
                0 <= i < was.arena.storage@.len() && i != loan.ptr.slot ==> #[trigger]
                is.arena.storage@[i] == was.arena.storage@[i]
            &&& was.arena.storage@[loan.ptr.slot as int].ref_count == 0
            &&& after.subscribers == before.subscribers
            &&& after.readiness == before.readiness
            &&& forall|q: int|
                0 <= q < before.publishers@.len() && q != p ==> #[trigger] after.publishers@[q]
                    == before.publishers@[q]
        }),
{
    let entry = crate::pub_sub_io::unpublished(payload, None);
    let loaned = choose|loaned: PubSub<T>|
        #![trigger loaned.loaned_one_more(before, p as int, entry)]
        loaned.loaned_one_more(before, p as int, entry) && loaned.subscribers == before.subscribers
            && loaned.readiness == before.readiness && crate::output::sent(
            loaned,
            after,
            p,
            before.publishers@[p as int].loaned_values@.len() as usize,
        );
    let was = before.publishers@[p as int];
    let is = after.publishers@[p as int];
    assert(was.loaned_values.len() == was.loaned_values@.len());
    let loan = loaned.publishers@[p as int].loaned_values@.last();
    assert(was.arena.is_first_free(loan.ptr.slot as int));
    assert(is.loaned_values@.last().ptr == loan.ptr);
    assert(is.loaned_values@.take(was.loaned_values@.len() as int)
        =~= loaned.publishers@[p as int].loaned_values@.drop_last());
    assert forall|q: int| 0 <= q < before.publishers@.len() && q != p implies #[trigger]
    after.publishers@[q] == before.publishers@[q] by {
        assert(loaned.publishers@[q] == before.publishers@[q]);
    }
}

/// Whatever a node sent through any of its outputs carries the time of the node's
/// flush and the payload with which it was sent; every other message stays as it
/// was.
pub proof fn law_node_flush_stamps_every_output<T>(
    ports: NodePorts,
    before: PubSub<T>,
    after: PubSub<T>,
    timestamp: FrameworkTime,
    announced: Seq<CallbackNodeId>,
    r: (usize, u64),
)
    requires
        ports.flushes(before, after, timestamp, announced),
        after.live(r),
    ensures
        ({
            let loans = before.publishers@[r.0 as int].loaned_values@;
            let sent = ports.first_publisher <= r.0 < ports.first_publisher + ports.publisher_count
                && exists|k: int|
                0 <= k < loans.len() && (#[trigger] loans[k]).sent && loans[k].ptr.slot as u64
                    == r.1;
            &&& before.live(r)
            &&& after.entry(r).message.message == before.entry(r).message.message
            &&& after.entry(r).forwarded == before.entry(r).forwarded
            &&& sent ==> after.entry(r).message.header.published_at == timestamp
            &&& !sent ==> after.entry(r).message.header == before.entry(r).message.header
        }),
{
    let p = r.0 as int;
    let loans = before.publishers@[p].loaned_values@;
    if exists|k: int|
        0 <= k < loans.len() && (#[trigger] loans[k]).sent && loans[k].ptr.slot as u64 == r.1 {
        let k = choose|k: int|
            0 <= k < loans.len() && (#[trigger] loans[k]).sent && loans[k].ptr.slot as u64 == r.1;
        assert(loans[k].sent && r == (p as usize, loans[k].ptr.slot as u64));
        assert(crate::pub_sub::is_sent(p, loans, r));
    }
    if crate::pub_sub::is_sent(p, loans, r) {
        let k = choose|k: int|
            0 <= k < loans.len() && (#[trigger] loans[k]).sent && r == (
                p as usize,
                loans[k].ptr.slot as u64,
            );
        assert(loans[k].sent && loans[k].ptr.slot as u64 == r.1);
    }
}

} // verus!
