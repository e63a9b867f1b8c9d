//! What the replay of a log is for: every logged message is sent again, on its
//! channel and when its time has come, but for the channels that are left out.
use vstd::prelude::*;

use crate::callback::{CallbackNode, Memory, NodePorts, Run};
use crate::channel_registry::ChannelRegistry;
use crate::log_simulation::{LogEntry, LogSimulationBuildStep, ReplayAction};
use crate::log_simulation_node::log_memory;
use crate::loggable::{DeserializeError, Loggable};
use crate::pub_sub::PubSub;
use crate::time::FrameworkTime;

verus! {

/// Which channels the first `n` entries have replayed.
proof fn lemma_replayed_channel(entries: Seq<LogEntry>, denylist: Seq<String>, n: int, channel: Seq<char>)
    requires
        0 <= n <= entries.len(),
    ensures
        crate::log_simulation::replayed_channels(entries, denylist, n).contains(channel) <==> {
            &&& exists|m: int| 0 <= m < n && (#[trigger] entries[m]).channel@ == channel
            &&& forall|d: int| 0 <= d < denylist.len() ==> (#[trigger] denylist[d])@ != channel
            &&& channel != crate::execution_log::EXECUTION_LOG_CHANNEL@
        },
    decreases n,
{
    if n > 0 {
        lemma_replayed_channel(entries, denylist, n - 1, channel);
        let all = crate::log_simulation::replayed_channels(entries, denylist, n);
        let rest = crate::log_simulation::replayed_channels(entries, denylist, n - 1);
        let texts = crate::log_simulation::name_texts(denylist);
        if texts.contains(channel) {
            let d = choose|d: int| 0 <= d < texts.len() && texts[d] == channel;
            assert(denylist[d]@ == channel);
        } else {
            assert forall|d: int| 0 <= d < denylist.len() implies (#[trigger] denylist[d])@
                != channel by {
                assert(texts[d] == denylist[d]@);
            }
        }
        if rest.contains(channel) {
            let k = choose|k: int| 0 <= k < rest.len() && rest[k] == channel;
            assert(all[k] == channel);
        }
        if all.contains(channel) && !rest.contains(channel) {
            let k = choose|k: int| 0 <= k < all.len() && all[k] == channel;
            if k < rest.len() {
                assert(rest[k] == channel);
            }
            assert(entries[n - 1].channel@ == channel);
        }
        if entries[n - 1].channel@ == channel && !crate::log_simulation::left_out(denylist, channel)
            && !rest.contains(channel) {
            assert(all[all.len() - 1] == channel);
        }
    }
}

/// The channels of a replay are those of the log, each once, but for the denied
/// ones and the framework's own log.
pub proof fn law_logged_channels_are_replayed(step: LogSimulationBuildStep, channel: Seq<char>)
    ensures
        step.channels().contains(channel) <==> {
            &&& exists|m: int|
                0 <= m < step.log.entries@.len() && (#[trigger] step.log.entries@[m]).channel@
                    == channel
            &&& forall|d: int|
                0 <= d < step.denylist@.len() ==> (#[trigger] step.denylist@[d])@ != channel
            &&& channel != crate::execution_log::EXECUTION_LOG_CHANNEL@
        },
        step.channels().no_duplicates(),
{
    let n = step.log.entries@.len() as int;
    lemma_replayed_channel(step.log.entries@, step.denylist@, n, channel);
    crate::log_simulation::law_denied_channels_are_skipped(step.log.entries@, step.denylist@, n);
}

/// The replay node has an output for each channel of the log that is not left
/// out, one for each and none for another, each for the payload type that the
/// registry knows for its channel.
pub proof fn law_replay_node_has_its_outputs<T: Loggable>(
    node: CallbackNode<T>,
    step: LogSimulationBuildStep,
    registry: ChannelRegistry,
    channel: Seq<char>,
)
    requires
        crate::log_simulation_node::is_replay_node(node, step, registry),
    ensures
        (exists|i: int|
            0 <= i < node.publishers@.len() && (#[trigger]
            node.publishers@[i]).config.channel_name@ == channel) <==> {
            &&& exists|m: int|
                0 <= m < step.log.entries@.len() && (#[trigger] step.log.entries@[m]).channel@
                    == channel
            &&& forall|d: int|
                0 <= d < step.denylist@.len() ==> (#[trigger] step.denylist@[d])@ != channel
            &&& channel != crate::execution_log::EXECUTION_LOG_CHANNEL@
        },
        forall|i: int, j: int|
            0 <= i < j < node.publishers@.len() ==> (#[trigger]
            node.publishers@[i]).config.channel_name@ != (#[trigger]
            node.publishers@[j]).config.channel_name@,
        forall|i: int|
            0 <= i < node.publishers@.len() ==> registry.channels.at(
                (#[trigger] node.publishers@[i]).config.channel_name@,
            ) == Some(node.publishers@[i].value_type),
{
    law_logged_channels_are_replayed(step, channel);
    let channels = step.channels();
    assert forall|i: int| 0 <= i < channels.len() implies (#[trigger]
    node.publishers@[i]).config.channel_name@ == channels[i] && registry.channels.at(channels[i])
        == Some(node.publishers@[i].value_type) by {
        assert(crate::log_simulation::is_replay_output(
            node.publishers@[i],
            channels[i],
            crate::log_simulation::sendable_as(registry, channels[i]),
        ));
    }
    if channels.contains(channel) {
        let i = choose|i: int| 0 <= i < channels.len() && channels[i] == channel;
        assert(node.publishers@[i].config.channel_name@ == channel);
    }
    if exists|i: int|
        0 <= i < node.publishers@.len() && (#[trigger] node.publishers@[i]).config.channel_name@
            == channel {
        let i = choose|i: int|
            0 <= i < node.publishers@.len() && (#[trigger] node.publishers@[i]).config.channel_name@
                == channel;
        assert(channels[i] == channel);
    }
}

/// A log cannot be replayed exactly if it has an entry on a channel that is not
/// left out and whose payload type the registry does not know.
pub proof fn law_unknown_channels_are_refused(
    step: LogSimulationBuildStep,
    registry: ChannelRegistry,
    m: int,
)
    ensures
        crate::log_simulation::unreplayable(step.log.entries@, registry, step.denylist@, m) <==> {
            let channel = step.log.entries@[m].channel@;
            &&& 0 <= m < step.log.entries@.len()
            &&& forall|d: int|
                0 <= d < step.denylist@.len() ==> (#[trigger] step.denylist@[d])@ != channel
            &&& channel != crate::execution_log::EXECUTION_LOG_CHANNEL@
            &&& registry.channels.at(channel) is None || !registry.publisher_factories@.contains(
                registry.channels.at(channel)->0,
            )
        },
{
    let channel = step.log.entries@[m].channel@;
    let texts = crate::log_simulation::name_texts(step.denylist@);
    if texts.contains(channel) {
        let d = choose|d: int| 0 <= d < texts.len() && texts[d] == channel;
        assert(step.denylist@[d]@ == channel);
    } else {
        assert forall|d: int| 0 <= d < step.denylist@.len() implies (#[trigger]
        step.denylist@[d])@ != channel by {
            assert(texts[d] == step.denylist@[d]@);
        }
    }
}

/// Filters that agree on the elements give the same.
proof fn lemma_filters_agree<A>(s: Seq<A>, p: spec_fn(A) -> bool, q: spec_fn(A) -> bool)
    requires
        forall|i: int| 0 <= i < s.len() ==> p(#[trigger] s[i]) == q(s[i]),
    ensures
        s.filter(p) == s.filter(q),
    decreases s.len(),
{
    reveal(Seq::filter);
    if s.len() > 0 {
        let rest = s.drop_last();
        assert forall|i: int| 0 <= i < rest.len() implies p(#[trigger] rest[i]) == q(rest[i]) by {
            assert(rest[i] == s[i]);
        }
        lemma_filters_agree(rest, p, q);
        assert(s.last() == s[s.len() - 1]);
    }
}

/// A filter that keeps everything.
proof fn lemma_filter_keeps<A>(s: Seq<A>, p: spec_fn(A) -> bool)
    requires
        forall|i: int| 0 <= i < s.len() ==> p(#[trigger] s[i]),
    ensures
        s.filter(p) == s,
    decreases s.len(),
{
    reveal(Seq::filter);
    if s.len() > 0 {
        let rest = s.drop_last();
        assert forall|i: int| 0 <= i < rest.len() implies p(#[trigger] rest[i]) by {
            assert(rest[i] == s[i]);
        }
        lemma_filter_keeps(rest, p);
        assert(p(s[s.len() - 1]));
        assert(rest.push(s.last()) =~= s);
    }
}

/// A filter that keeps nothing.
proof fn lemma_filter_drops<A>(s: Seq<A>, p: spec_fn(A) -> bool)
    requires
        forall|i: int| 0 <= i < s.len() ==> !p(#[trigger] s[i]),
    ensures
        s.filter(p) == Seq::<A>::empty(),
    decreases s.len(),
{
    reveal(Seq::filter);
    if s.len() > 0 {
        let rest = s.drop_last();
        assert forall|i: int| 0 <= i < rest.len() implies !p(#[trigger] rest[i]) by {
            assert(rest[i] == s[i]);
        }
        lemma_filter_drops(rest, p);
        assert(!p(s[s.len() - 1]));
    } else {
        assert(s =~= Seq::empty());
    }
}

proof fn lemma_replays_filter(entries: Seq<LogEntry>, sinks: Seq<String>, actions: Seq<ReplayAction>)
    requires
        crate::log_simulation::replays(entries, sinks, actions),
    ensures
        actions.map_values(|action: ReplayAction| action.entry) == entries.filter(
            |entry: LogEntry|
                exists|i: int| 0 <= i < sinks.len() && (#[trigger] sinks[i])@ == entry.channel@,
        ),
        forall|k: int|
            0 <= k < actions.len() ==> {
                let action = #[trigger] actions[k];
                &&& action.sink < sinks.len()
                &&& sinks[action.sink as int]@ == action.entry.channel@
                &&& forall|j: int|
                    0 <= j < action.sink ==> (#[trigger] sinks[j])@ != action.entry.channel@
            },
    decreases entries.len(),
{
    reveal(Seq::filter);
    let has = |entry: LogEntry|
        exists|i: int| 0 <= i < sinks.len() && (#[trigger] sinks[i])@ == entry.channel@;
    let take = |action: ReplayAction| action.entry;
    if entries.len() > 0 {
        let texts = crate::log_simulation::name_texts(sinks);
        let last = entries.last();
        if texts.contains(last.channel@) {
            let i = choose|i: int| 0 <= i < texts.len() && texts[i] == last.channel@;
            assert(sinks[i]@ == last.channel@);
            assert(has(last));
            lemma_replays_filter(entries.drop_last(), sinks, actions.drop_last());
            assert(actions.map_values(take) =~= actions.drop_last().map_values(take).push(last));
            assert forall|k: int| 0 <= k < actions.len() implies ({
                let action = #[trigger] actions[k];
                &&& action.sink < sinks.len()
                &&& sinks[action.sink as int]@ == action.entry.channel@
                &&& forall|j: int|
                    0 <= j < action.sink ==> (#[trigger] sinks[j])@ != action.entry.channel@
            }) by {
                if k < actions.len() - 1 {
                    assert(actions.drop_last()[k] == actions[k]);
                }
            }
        } else {
            if has(last) {
                let i = choose|i: int| 0 <= i < sinks.len() && (#[trigger] sinks[i])@
                    == last.channel@;
                assert(texts[i] == last.channel@);
            }
            lemma_replays_filter(entries.drop_last(), sinks, actions);
        }
    } else {
        assert(actions.map_values(take) =~= entries.filter(has));
    }
}

/// A run of the replay sends again every entry whose time has come and whose
/// channel has an output, in the order of the log, each through the first output
/// of its channel; the entries whose time has not come stay in the log.
pub proof fn law_due_entries_are_sent(
    entries: Seq<LogEntry>,
    now: FrameworkTime,
    sinks: Seq<String>,
    actions: Seq<ReplayAction>,
)
    requires
        forall|i: int, j: int|
            0 <= i <= j < entries.len() ==> (#[trigger] entries[i]).time.nanoseconds <= (
            #[trigger] entries[j]).time.nanoseconds,
        crate::log_simulation::replays(
            entries.take(crate::log_simulation::due(entries, now) as int),
            sinks,
            actions,
        ),
    ensures
        actions.map_values(|action: ReplayAction| action.entry) == entries.filter(
            |entry: LogEntry|
                entry.time.nanoseconds <= now.nanoseconds && exists|i: int|
                    0 <= i < sinks.len() && (#[trigger] sinks[i])@ == entry.channel@,
        ),
        forall|k: int|
            0 <= k < actions.len() ==> {
                let action = #[trigger] actions[k];
                &&& action.sink < sinks.len()
                &&& sinks[action.sink as int]@ == action.entry.channel@
                &&& forall|j: int|
                    0 <= j < action.sink ==> (#[trigger] sinks[j])@ != action.entry.channel@
            },
        entries.skip(crate::log_simulation::due(entries, now) as int) == entries.filter(
            |entry: LogEntry| entry.time.nanoseconds > now.nanoseconds,
        ),
{
    let n = crate::log_simulation::due(entries, now) as int;
    crate::log_simulation::lemma_due_bounds(entries, now);
    let head = entries.take(n);
    let tail = entries.skip(n);
    lemma_replays_filter(head, sinks, actions);
    let has = |entry: LogEntry|
        exists|i: int| 0 <= i < sinks.len() && (#[trigger] sinks[i])@ == entry.channel@;
    let sent = |entry: LogEntry|
        entry.time.nanoseconds <= now.nanoseconds && exists|i: int|
            0 <= i < sinks.len() && (#[trigger] sinks[i])@ == entry.channel@;
    let later = |entry: LogEntry| entry.time.nanoseconds > now.nanoseconds;
    assert(head + tail =~= entries);
    Seq::filter_distributes_over_add(head, tail, sent);
    Seq::filter_distributes_over_add(head, tail, later);
    assert forall|i: int| 0 <= i < head.len() implies has(#[trigger] head[i]) == sent(head[i])
        && !later(head[i]) by {
        assert(entries[i].time.nanoseconds <= now.nanoseconds);
    }
    assert forall|i: int| 0 <= i < tail.len() implies !sent(#[trigger] tail[i]) && later(
        tail[i],
    ) by {
        assert(entries[n + i].time.nanoseconds > now.nanoseconds);
    }
    lemma_filters_agree(head, has, sent);
    lemma_filter_drops(tail, sent);
    lemma_filter_drops(head, later);
    lemma_filter_keeps(tail, later);
    assert(head.filter(sent) + Seq::<LogEntry>::empty() =~= head.filter(sent));
    assert(Seq::<LogEntry>::empty() + tail =~= tail);
}

/// Which entries wait.
proof fn lemma_waiting_filter<T>(
    ports: NodePorts,
    actions: Seq<ReplayAction>,
    systems: Seq<PubSub<T>>,
    n: int,
    waits: spec_fn(int) -> bool,
)
    requires
        0 <= n,
        forall|k: int|
            0 <= k < n ==> #[trigger] waits(k) == crate::log_simulation::has_to_wait(
                ports,
                systems[k],
                actions[k],
            ),
    ensures
        crate::log_simulation::waiting(ports, actions, systems, n) == Seq::new(
            n as nat,
            |k: int| k,
        ).filter(waits).map_values(|k: int| actions[k].entry),
    decreases n,
{
    reveal(Seq::filter);
    let all = Seq::new(n as nat, |k: int| k);
    let entry = |k: int| actions[k].entry;
    if n > 0 {
        lemma_waiting_filter(ports, actions, systems, n - 1, waits);
        let rest = Seq::new((n - 1) as nat, |k: int| k);
        assert(all.drop_last() =~= rest);
        assert(all.last() == n - 1);
        assert(waits(n - 1) == crate::log_simulation::has_to_wait(
            ports,
            systems[n - 1],
            actions[n - 1],
        ));
        if waits(n - 1) {
            assert(rest.filter(waits).push(n - 1).map_values(entry) =~= rest.filter(
                waits,
            ).map_values(entry).push(actions[n - 1].entry));
        }
    } else {
        assert(all.filter(waits).map_values(entry) =~= Seq::empty());
    }
}

/// Every entry that is to be sent is published through its output with the
/// payload that was logged, unless that cannot be read; where the output has no
/// loan left, the entry is kept, and nothing else is.
pub proof fn law_entries_are_published_or_kept<T: Loggable>(
    ports: NodePorts,
    actions: Seq<ReplayAction>,
    systems: Seq<PubSub<T>>,
)
    requires
        ports.within(systems[0]),
        crate::log_simulation::sent_in_turn(ports, actions, systems),
    ensures
        systems.len() == actions.len() + 1,
        forall|k: int|
            0 <= k < actions.len() && (#[trigger] actions[k]).sink < ports.publisher_count ==> {
                let p = ports.first_publisher + actions[k].sink;
                let was = systems[k].publishers@[p];
                let is = systems[k + 1].publishers@[p];
                let free = was.loaned_values@.len() < was.config.capacity
                    && was.arena.has_free_slot();
                &&& !free ==> systems[k + 1] == systems[k]
                &&& free ==> {
                    ||| systems[k + 1] == systems[k] && exists|error: DeserializeError| #[trigger]
                        T::reads(actions[k].entry.payload@, Err(error))
                    ||| exists|value: T| #[trigger]
                        T::reads(actions[k].entry.payload@, Ok(value))
                            && is.loaned_values@.len() == was.loaned_values@.len() + 1
                            && is.loaned_values@.last().sent
                            && is.arena.storage@[is.loaned_values@.last().ptr.slot as int].payload is Some
                            && is.arena.storage@[is.loaned_values@.last().ptr.slot as int].payload->0.message.message
                            == value
                }
            },
        crate::log_simulation::waiting(ports, actions, systems, actions.len() as int) == Seq::new(
            actions.len(),
            |k: int| k,
        ).filter(
            |k: int|
                {
                    let p = ports.first_publisher + actions[k].sink;
                    let was = systems[k].publishers@[p];
                    actions[k].sink < ports.publisher_count && !(was.loaned_values@.len()
                        < was.config.capacity && was.arena.has_free_slot())
                },
        ).map_values(|k: int| actions[k].entry),
{
    lemma_systems_within(ports, actions, systems, actions.len() as int);
    let waits = |k: int|
        {
            let p = ports.first_publisher + actions[k].sink;
            let was = systems[k].publishers@[p];
            actions[k].sink < ports.publisher_count && !(was.loaned_values@.len()
                < was.config.capacity && was.arena.has_free_slot())
        };
    lemma_waiting_filter(ports, actions, systems, actions.len() as int, waits);
    assert forall|k: int|
        0 <= k < actions.len() && (#[trigger] actions[k]).sink < ports.publisher_count implies ({
        let p = ports.first_publisher + actions[k].sink;
        let was = systems[k].publishers@[p];
        let is = systems[k + 1].publishers@[p];
        let free = was.loaned_values@.len() < was.config.capacity && was.arena.has_free_slot();
        &&& !free ==> systems[k + 1] == systems[k]
        &&& free ==> {
            ||| systems[k + 1] == systems[k] && exists|error: DeserializeError| #[trigger]
                T::reads(actions[k].entry.payload@, Err(error))
            ||| exists|value: T| #[trigger]
                T::reads(actions[k].entry.payload@, Ok(value)) && is.loaned_values@.len()
                    == was.loaned_values@.len() + 1 && is.loaned_values@.last().sent
                    && is.arena.storage@[is.loaned_values@.last().ptr.slot as int].payload is Some
                    && is.arena.storage@[is.loaned_values@.last().ptr.slot as int].payload->0.message.message
                    == value
        }
    }) by {
        assert(crate::log_simulation::sends_again(ports, systems[k], systems[k + 1], actions[k]));
        assert(ports.within(systems[k]));
        assert(systems[k].publishers.len() == systems[k].publishers@.len());
        let p = (ports.first_publisher + actions[k].sink) as usize;
        if systems[k].loan_left(p as int) && systems[k + 1] != systems[k] {
            let value = choose|value: T| #[trigger]
                T::reads(actions[k].entry.payload@, Ok(value)) && crate::test_tasks::publishes(
                    systems[k],
                    systems[k + 1],
                    p,
                    value,
                );
            lemma_published(systems[k], systems[k + 1], p, value);
        } else if systems[k].loan_left(p as int) && exists|value: T| #[trigger]
            T::reads(actions[k].entry.payload@, Ok(value)) && crate::test_tasks::publishes(
                systems[k],
                systems[k + 1],
                p,
                value,
            ) {
            let value = choose|value: T| #[trigger]
                T::reads(actions[k].entry.payload@, Ok(value)) && crate::test_tasks::publishes(
                    systems[k],
                    systems[k + 1],
                    p,
                    value,
                );
            lemma_published(systems[k], systems[k + 1], p, value);
        }
    }
}

/// What publishing a value leaves in the publisher.
proof fn lemma_published<T>(before: PubSub<T>, after: PubSub<T>, p: usize, value: T)
    requires
        crate::test_tasks::publishes(before, after, p, value),
        before.wf(),
        after.wf(),
        p < before.publishers@.len(),
    ensures
        ({
            let was = before.publishers@[p as int];
            let is = after.publishers@[p as int];
            &&& is.loaned_values@.len() == was.loaned_values@.len() + 1
            &&& is.loaned_values@.last().sent
            &&& is.arena.storage@[is.loaned_values@.last().ptr.slot as int].payload is Some
            &&& is.arena.storage@[is.loaned_values@.last().ptr.slot as int].payload->0.message.message
                == value
            &&& is.arena.storage@.len() == was.arena.storage@.len()
            &&& after.publishers@.len() == before.publishers@.len()
            &&& after.subscribers@ == before.subscribers@
            &&& after.readiness@ == before.readiness@
        }),
{
    let entry = crate::pub_sub_io::unpublished(value, None);
    let loaned = choose|loaned: PubSub<T>|
        #![trigger loaned.loaned_one_more(before, p as int, entry)]
        loaned.loaned_one_more(before, p as int, entry) && loaned.subscribers == before.subscribers
            && loaned.readiness == before.readiness && crate::output::sent(
            loaned,
            after,
            p,
            before.publishers@[p as int].loaned_values@.len() as usize,
        );
    assert(before.publishers@[p as int].loaned_values.len()
        == before.publishers@[p as int].loaned_values@.len());
    let loan = loaned.publishers@[p as int].loaned_values@.last();
    assert(before.publishers@[p as int].arena.is_first_free(loan.ptr.slot as int));
    assert(after.publishers@[p as int].loaned_values@.last().ptr == loan.ptr);
}

/// The ports stay within the systems of a replay.
proof fn lemma_systems_within<T: Loggable>(
    ports: NodePorts,
    actions: Seq<ReplayAction>,
    systems: Seq<PubSub<T>>,
    n: int,
)
    requires
        ports.within(systems[0]),
        crate::log_simulation::sent_in_turn(ports, actions, systems),
        0 <= n <= actions.len(),
    ensures
        forall|k: int| 0 <= k <= n ==> ports.within(#[trigger] systems[k]),
    decreases n,
{
    if n > 0 {
        lemma_systems_within(ports, actions, systems, n - 1);
        let k = n - 1;
        assert(ports.within(systems[k]));
        assert(crate::log_simulation::sends_again(ports, systems[k], systems[k + 1], actions[k]));
        assert(systems[k].publishers.len() == systems[k].publishers@.len());
        if systems[k + 1] != systems[k] {
            let p = (ports.first_publisher + actions[k].sink) as usize;
            let value = choose|value: T| #[trigger]
                T::reads(actions[k].entry.payload@, Ok(value)) && crate::test_tasks::publishes(
                    systems[k],
                    systems[k + 1],
                    p,
                    value,
                );
            lemma_published(systems[k], systems[k + 1], p, value);
        }
    }
}

/// A run of a replay loses no entry: what it remembered is sent if its time has
/// come and its channel has an output, and is remembered where it could not be
/// sent or its time has not come. Entries on channels without an output are
/// passed over.
pub proof fn law_replay_sends_every_entry<T: Loggable>(
    entries: Seq<LogEntry>,
    sinks: Seq<String>,
    ports: NodePorts,
    now: FrameworkTime,
    before: PubSub<T>,
    after: PubSub<T>,
    r: Run,
    next: Memory,
    m: int,
)
    requires
        forall|i: int, j: int|
            0 <= i <= j < entries.len() ==> (#[trigger] entries[i]).time.nanoseconds <= (
            #[trigger] entries[j]).time.nanoseconds,
        ports.within(before),
        crate::log_simulation_node::replay_runs(
            sinks,
            log_memory(entries),
            ports,
            now,
            before,
            after,
            r,
            next,
        ),
        0 <= m < entries.len(),
    ensures
        exists|kept: Seq<LogEntry>|
            {
                let holds = exists|j: int|
                    0 <= j < kept.len() && (#[trigger] kept[j]).time == entries[m].time
                        && kept[j].channel@ == entries[m].channel@ && kept[j].payload@
                        == entries[m].payload@;
                &&& #[trigger] log_memory(kept) == next
                &&& kept.len() <= entries.len()
                &&& entries[m].time.nanoseconds > now.nanoseconds ==> holds
                &&& forall|i: int|
                    entries[m].time.nanoseconds <= now.nanoseconds && 0 <= i
                        < ports.publisher_count && i < sinks.len() && (#[trigger] sinks[i])@
                        == entries[m].channel@ && (forall|j: int|
                        0 <= j < i ==> (#[trigger] sinks[j])@ != entries[m].channel@) ==> {
                        ||| holds
                        ||| exists|error: DeserializeError| #[trigger]
                            T::reads(entries[m].payload@, Err(error))
                        ||| exists|value: T, systems: Seq<PubSub<T>>, k: int|
                            {
                                let p = ports.first_publisher + i;
                                let was = systems[k].publishers@[p].loaned_values@;
                                let is = systems[k + 1].publishers@[p].loaned_values@;
                                let slots = systems[k + 1].publishers@[p].arena.storage@;
                                &&& #[trigger] T::reads(entries[m].payload@, Ok(value))
                                &&& 0 <= k < systems.len() - 1
                                &&& ports.within(#[trigger] systems[k])
                                &&& systems[0] == before
                                &&& systems.last() == after
                                &&& is.len() == was.len() + 1
                                &&& is.last().sent
                                &&& slots[is.last().ptr.slot as int].payload is Some
                                &&& slots[is.last().ptr.slot as int].payload->0.message.message
                                    == value
                            }
                    }
            },
{
    let memory = log_memory(entries);
    let (es, actions, systems) = choose|
        es: Seq<LogEntry>,
        actions: Seq<ReplayAction>,
        systems: Seq<PubSub<T>>,
    |
        #![trigger log_memory(es), crate::log_simulation::sent_in_turn(ports, actions, systems)]
        {
            let count = crate::log_simulation::due(es, now) as int;
            let left = crate::log_simulation::waiting(
                ports,
                actions,
                systems,
                actions.len() as int,
            );
            &&& log_memory(es) == memory
            &&& log_memory(left + es.skip(count)) == next
            &&& crate::log_simulation::replays(es.take(count), sinks, actions)
            &&& crate::log_simulation::sent_in_turn(ports, actions, systems)
            &&& systems[0] == before
            &&& systems.last() == after
        };
    crate::replay_determinism::law_memory_tells_the_entries(es, entries);
    assert forall|i: int, j: int| 0 <= i <= j < es.len() implies (#[trigger] es[i]).time.nanoseconds
        <= (#[trigger] es[j]).time.nanoseconds by {
        assert(crate::replay_determinism::entries_alike(es[i], entries[i]));
        assert(crate::replay_determinism::entries_alike(es[j], entries[j]));
    }
    assert(crate::replay_determinism::entries_alike(es[m], entries[m]));
    let n = crate::log_simulation::due(es, now) as int;
    let left = crate::log_simulation::waiting(ports, actions, systems, actions.len() as int);
    let kept = left + es.skip(n);
    crate::log_simulation::lemma_due_bounds(es, now);
    law_due_entries_are_sent(es, now, sinks, actions);
    law_entries_are_published_or_kept(ports, actions, systems);
    lemma_systems_within(ports, actions, systems, actions.len() as int);
    let holds = exists|j: int|
        0 <= j < kept.len() && (#[trigger] kept[j]).time == entries[m].time && kept[j].channel@
            == entries[m].channel@ && kept[j].payload@ == entries[m].payload@;
    if es[m].time.nanoseconds > now.nanoseconds {
        assert(m >= n);
        assert(kept[left.len() + (m - n)] == es[m]);
    }
    lemma_waiting_len(ports, actions, systems, actions.len() as int);
    let has = |entry: LogEntry|
        exists|i: int| 0 <= i < sinks.len() && (#[trigger] sinks[i])@ == entry.channel@;
    lemma_replays_filter(es.take(n), sinks, actions);
    let took = actions.map_values(|action: ReplayAction| action.entry);
    assert(took == es.take(n).filter(has));
    es.take(n).lemma_filter_len(has);
    assert(took.len() == actions.len());
    assert forall|i: int|
        entries[m].time.nanoseconds <= now.nanoseconds && 0 <= i < ports.publisher_count && i
            < sinks.len() && (#[trigger] sinks[i])@ == entries[m].channel@ && (forall|j: int|
            0 <= j < i ==> (#[trigger] sinks[j])@ != entries[m].channel@) implies holds || (exists|
        error: DeserializeError,
    | #[trigger] T::reads(entries[m].payload@, Err(error))) || (exists|
        value: T,
        systems: Seq<PubSub<T>>,
        k: int,
    |
        {
            let p = ports.first_publisher + i;
            let was = systems[k].publishers@[p].loaned_values@;
            let is = systems[k + 1].publishers@[p].loaned_values@;
            let slots = systems[k + 1].publishers@[p].arena.storage@;
            &&& #[trigger] T::reads(entries[m].payload@, Ok(value))
            &&& 0 <= k < systems.len() - 1
            &&& ports.within(#[trigger] systems[k])
            &&& systems[0] == before
            &&& systems.last() == after
            &&& is.len() == was.len() + 1
            &&& is.last().sent
            &&& slots[is.last().ptr.slot as int].payload is Some
            &&& slots[is.last().ptr.slot as int].payload->0.message.message == value
        }) by {
        assert(m < n);
        assert(es.take(n)[m] == es[m]);
        assert(has(es[m]));
        es.take(n).lemma_filter_contains(has, m);
        let k = choose|k: int| 0 <= k < took.len() && took[k] == es[m];
        assert(actions[k].entry == es[m]);
        let sink = actions[k].sink as int;
        assert(sinks[sink]@ == es[m].channel@);
        assert(sink == i) by {
            if sink < i {
                assert(sinks[sink]@ != entries[m].channel@);
            } else if i < sink {
                assert(sinks[i]@ != actions[k].entry.channel@);
            }
        }
        let p = ports.first_publisher + i;
        let was = systems[k].publishers@[p];
        let is = systems[k + 1].publishers@[p];
        let free = was.loaned_values@.len() < was.config.capacity && was.arena.has_free_slot();
        assert(ports.within(systems[k]));
        assert(systems[k + 1].wf());
        if !free {
            assert(crate::log_simulation::has_to_wait(ports, systems[k], actions[k]));
            let j = lemma_waiting_holds(ports, actions, systems, actions.len() as int, k);
            assert(kept[j] == es[m]);
        } else if exists|value: T| #[trigger]
            T::reads(actions[k].entry.payload@, Ok(value)) && is.loaned_values@.len()
                == was.loaned_values@.len() + 1 && is.loaned_values@.last().sent
                && is.arena.storage@[is.loaned_values@.last().ptr.slot as int].payload is Some
                && is.arena.storage@[is.loaned_values@.last().ptr.slot as int].payload->0.message.message
                == value {
            let value = choose|value: T| #[trigger]
                T::reads(actions[k].entry.payload@, Ok(value)) && is.loaned_values@.len()
                    == was.loaned_values@.len() + 1 && is.loaned_values@.last().sent
                    && is.arena.storage@[is.loaned_values@.last().ptr.slot as int].payload is Some
                    && is.arena.storage@[is.loaned_values@.last().ptr.slot as int].payload->0.message.message
                    == value;
            assert(T::reads(entries[m].payload@, Ok(value)));
            assert(ports.within(systems[k]) && systems[k + 1].wf());
        } else {
            let error = choose|error: DeserializeError| #[trigger]
                T::reads(actions[k].entry.payload@, Err(error));
            assert(T::reads(entries[m].payload@, Err(error)));
        }
    }
    assert(log_memory(kept) == next);
}

proof fn lemma_waiting_len<T>(
    ports: NodePorts,
    actions: Seq<ReplayAction>,
    systems: Seq<PubSub<T>>,
    n: int,
)
    requires
        0 <= n,
    ensures
        crate::log_simulation::waiting(ports, actions, systems, n).len() <= n,
    decreases n,
{
    if n > 0 {
        lemma_waiting_len(ports, actions, systems, n - 1);
    }
}

proof fn lemma_waiting_holds<T>(
    ports: NodePorts,
    actions: Seq<ReplayAction>,
    systems: Seq<PubSub<T>>,
    n: int,
    k: int,
) -> (j: int)
    requires
        0 <= k < n,
        crate::log_simulation::has_to_wait(ports, systems[k], actions[k]),
    ensures
        0 <= j < crate::log_simulation::waiting(ports, actions, systems, n).len(),
        crate::log_simulation::waiting(ports, actions, systems, n)[j] == actions[k].entry,
    decreases n,
{
    let all = crate::log_simulation::waiting(ports, actions, systems, n);
    if k == n - 1 {
        all.len() - 1
    } else {
        lemma_waiting_holds(ports, actions, systems, n - 1, k)
    }
}

} // verus!
