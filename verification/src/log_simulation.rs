//! Replays a log into a simulation: each logged message is sent again at the
//! time at which it was logged.
use vstd::prelude::*;

use crate::callback::{NodePorts, PublisherPort};
use crate::channel_registry::{ChannelPublisherFactory, ChannelRegistry};
use crate::loggable::Loggable;
use crate::pub_sub::PubSub;
use crate::time::FrameworkTime;

verus! {

/// One logged message.
#[derive(Debug)]
pub struct LogEntry {
    pub time: FrameworkTime,
    pub channel: String,
    pub payload: Vec<u8>,
}

/// Whether the entries are in the order of their times.
pub open spec fn in_order(entries: Seq<LogEntry>) -> bool {
    forall|i: int, j: int|
        0 <= i <= j < entries.len() ==> (#[trigger] entries[i]).time.nanoseconds <= (
        #[trigger] entries[j]).time.nanoseconds
}

/// How many entries come before the first that is later than `now`.
pub open spec fn due(entries: Seq<LogEntry>, now: FrameworkTime) -> nat
    decreases entries.len(),
{
    if entries.len() == 0 || entries[0].time.nanoseconds > now.nanoseconds {
        0
    } else {
        1 + due(entries.skip(1), now)
    }
}

/// The entries that are still to be replayed, in the order of their times.
#[derive(Debug)]
pub struct SortedLog {
    pub entries: Vec<LogEntry>,
}

impl SortedLog {
    pub open spec fn wf(&self) -> bool {
        in_order(self.entries@)
    }

    pub fn new() -> (r: Self)
        ensures
            r.wf(),
            r.entries@.len() == 0,
    {
        SortedLog { entries: Vec::new() }
    }

    /// Adds an entry behind those that are not later.
    pub fn insert(&mut self, entry: LogEntry)
        requires
            old(self).wf(),
        ensures
            final(self).wf(),
            final(self).entries@ == old(self).entries@.insert(
                due(old(self).entries@, entry.time) as int,
                entry,
            ),
    {
        let ghost before = self.entries@;
        let now = entry.time;
        let mut at: usize = self.entries.len();
        while at > 0 && self.entries[at - 1].time.nanoseconds > now.nanoseconds
            invariant
                at <= before.len(),
                before == self.entries@,
                in_order(before),
                forall|j: int|
                    at <= j < before.len() ==> (#[trigger] before[j]).time.nanoseconds
                        > now.nanoseconds,
            decreases at,
        {
            at = at - 1;
        }
        self.entries.insert(at, entry);
        proof {
            assert forall|j: int| 0 <= j < at implies (#[trigger] before[j]).time.nanoseconds
                <= now.nanoseconds by {
                assert(before[j].time.nanoseconds <= before[at - 1].time.nanoseconds);
            }
            lemma_due(before, now, at as int);
            assert forall|i: int, j: int| 0 <= i <= j < self.entries@.len() implies (#[trigger]
            self.entries@[i]).time.nanoseconds <= (#[trigger] self.entries@[j]).time.nanoseconds by {
                let a = if i < at {
                    i
                } else {
                    i - 1
                };
                let b = if j < at {
                    j
                } else {
                    j - 1
                };
                if i != at && j != at {
                    assert(before[a].time.nanoseconds <= before[b].time.nanoseconds);
                } else if i < at && j == at {
                    assert(before[i].time.nanoseconds <= before[at - 1].time.nanoseconds);
                } else if i == at && j > at {
                    assert(before[b].time.nanoseconds > now.nanoseconds);
                }
            }
        }
    }

    pub fn is_empty(&self) -> (r: bool)
        ensures
            r == (self.entries@.len() == 0),
    {
        self.entries.len() == 0
    }

    /// The time of the next entry.
    pub fn peek_time(&self) -> (r: Option<FrameworkTime>)
        ensures
            r == if self.entries@.len() > 0 {
                Some(self.entries@[0].time)
            } else {
                None
            },
    {
        if self.entries.len() > 0 {
            Some(self.entries[0].time)
        } else {
            None
        }
    }

    /// Takes the entries that are not later than `now`. Also returns the time
    /// of the next one.
    pub fn read_until(&mut self, now: FrameworkTime) -> (r: (Vec<LogEntry>, Option<FrameworkTime>))
        ensures
            old(self).wf() ==> final(self).wf(),
            r.0@ == old(self).entries@.take(due(old(self).entries@, now) as int),
            final(self).entries@ == old(self).entries@.skip(due(old(self).entries@, now) as int),
            r.1 == if final(self).entries@.len() > 0 {
                Some(final(self).entries@[0].time)
            } else {
                None
            },
            r.1 matches Some(next) ==> next.nanoseconds > now.nanoseconds,
    {
        let ghost before = self.entries@;
        let mut count: usize = 0;
        while count < self.entries.len() && self.entries[count].time.nanoseconds
            <= now.nanoseconds
            invariant
                count <= before.len(),
                before == self.entries@,
                forall|j: int|
                    0 <= j < count ==> (#[trigger] before[j]).time.nanoseconds <= now.nanoseconds,
            decreases before.len() - count,
        {
            count = count + 1;
        }
        proof {
            lemma_due(before, now, count as int);
        }
        let later = self.entries.split_off(count);
        let mut batch: Vec<LogEntry> = Vec::new();
        batch.append(&mut self.entries);
        self.entries = later;
        proof {
            assert(batch@ =~= before.take(count as int));
            assert(self.entries@ =~= before.skip(count as int));
            if in_order(before) {
                assert forall|i: int, j: int| 0 <= i <= j < self.entries@.len() implies (#[trigger]
                self.entries@[i]).time.nanoseconds <= (#[trigger]
                self.entries@[j]).time.nanoseconds by {
                    assert(before[count + i].time.nanoseconds
                        <= before[count + j].time.nanoseconds);
                }
            }
        }
        let next = self.peek_time();
        (batch, next)
    }
}

/// Where the due entries end.
proof fn lemma_due(entries: Seq<LogEntry>, now: FrameworkTime, count: int)
    requires
        0 <= count <= entries.len(),
        forall|j: int|
            0 <= j < count ==> (#[trigger] entries[j]).time.nanoseconds <= now.nanoseconds,
        count < entries.len() ==> entries[count].time.nanoseconds > now.nanoseconds,
    ensures
        due(entries, now) == count,
    decreases entries.len(),
{
    if count > 0 {
        let rest = entries.skip(1);
        assert forall|j: int| 0 <= j < count - 1 implies (#[trigger] rest[j]).time.nanoseconds
            <= now.nanoseconds by {
            assert(entries[j + 1].time.nanoseconds <= now.nanoseconds);
        }
        lemma_due(rest, now, count - 1);
        assert(entries[0].time.nanoseconds <= now.nanoseconds);
    }
}

/// No more entries are due than there are.
pub proof fn lemma_due_at_most(entries: Seq<LogEntry>, now: FrameworkTime)
    ensures
        due(entries, now) <= entries.len(),
    decreases entries.len(),
{
    if entries.len() > 0 && entries[0].time.nanoseconds <= now.nanoseconds {
        lemma_due_at_most(entries.skip(1), now);
    }
}

/// A replay drives time forward: once the entries that are due are sent, it asks
/// for a later time, as long as entries are left.
pub proof fn law_replay_asks_for_later_times(entries: Seq<LogEntry>, now: FrameworkTime)
    ensures
        ({
            let rest = entries.skip(due(entries, now) as int);
            &&& rest.len() > 0 ==> wanted_time(rest) == Some(rest[0].time)
                && rest[0].time.nanoseconds > now.nanoseconds
            &&& rest.len() == 0 ==> wanted_time(rest) is None
        }),
    decreases entries.len(),
{
    lemma_due_at_most(entries, now);
    let n = due(entries, now) as int;
    if n > 0 {
        law_replay_asks_for_later_times(entries.skip(1), now);
        assert(entries.skip(1).skip(n - 1) =~= entries.skip(n));
    } else {
        assert(entries.skip(0) =~= entries);
    }
}

/// Two reads take every entry once: what the second takes starts where the
/// first ended.
pub proof fn law_reads_follow_each_other(
    entries: Seq<LogEntry>,
    first: FrameworkTime,
    second: FrameworkTime,
)
    requires
        in_order(entries),
        first.nanoseconds <= second.nanoseconds,
    ensures
        ({
            let n = due(entries, first) as int;
            let rest = entries.skip(n);
            entries.take(n) + rest.take(due(rest, second) as int) == entries.take(
                due(entries, second) as int,
            )
        }),
{
    lemma_due_bounds(entries, first);
    lemma_due_bounds(entries, second);
    let n = due(entries, first) as int;
    let m = due(entries, second) as int;
    let rest = entries.skip(n);
    if m < n {
        assert(entries[m].time.nanoseconds > second.nanoseconds);
        assert(entries[m].time.nanoseconds <= first.nanoseconds);
    }
    assert(in_order(rest)) by {
        assert forall|i: int, j: int| 0 <= i <= j < rest.len() implies (#[trigger]
        rest[i]).time.nanoseconds <= (#[trigger] rest[j]).time.nanoseconds by {
            assert(entries[n + i].time.nanoseconds <= entries[n + j].time.nanoseconds);
        }
    }
    assert forall|j: int| 0 <= j < m - n implies (#[trigger] rest[j]).time.nanoseconds
        <= second.nanoseconds by {
        assert(entries[n + j].time.nanoseconds <= second.nanoseconds);
    }
    lemma_due(rest, second, m - n);
    assert(entries.take(n) + rest.take(m - n) =~= entries.take(m));
}

/// The due entries are those that are not later.
pub(crate) proof fn lemma_due_bounds(entries: Seq<LogEntry>, now: FrameworkTime)
    requires
        in_order(entries),
    ensures
        due(entries, now) <= entries.len(),
        forall|j: int|
            0 <= j < due(entries, now) ==> (#[trigger] entries[j]).time.nanoseconds
                <= now.nanoseconds,
        forall|j: int|
            due(entries, now) <= j < entries.len() ==> (#[trigger] entries[j]).time.nanoseconds
                > now.nanoseconds,
    decreases entries.len(),
{
    if entries.len() > 0 {
        if entries[0].time.nanoseconds > now.nanoseconds {
            assert forall|j: int| 0 <= j < entries.len() implies (#[trigger]
            entries[j]).time.nanoseconds > now.nanoseconds by {
                assert(entries[0].time.nanoseconds <= entries[j].time.nanoseconds);
            }
        } else {
            let rest = entries.skip(1);
            assert(in_order(rest)) by {
                assert forall|i: int, j: int| 0 <= i <= j < rest.len() implies (#[trigger]
                rest[i]).time.nanoseconds <= (#[trigger] rest[j]).time.nanoseconds by {
                    assert(entries[i + 1].time.nanoseconds <= entries[j + 1].time.nanoseconds);
                }
            }
            lemma_due_bounds(rest, now);
            assert forall|j: int| 0 <= j < due(entries, now) implies (#[trigger]
            entries[j]).time.nanoseconds <= now.nanoseconds by {
                if j > 0 {
                    assert(rest[j - 1].time.nanoseconds <= now.nanoseconds);
                }
            }
            assert forall|j: int| due(entries, now) <= j < entries.len() implies (#[trigger]
            entries[j]).time.nanoseconds > now.nanoseconds by {
                assert(rest[j - 1].time.nanoseconds > now.nanoseconds);
            }
        }
    }
}

/// The texts of the names.
pub open spec fn name_texts(names: Seq<String>) -> Seq<Seq<char>> {
    names.map_values(|name: String| name@)
}

/// Whether `i` is the first place at which `name` stands.
pub open spec fn stands_first(names: Seq<String>, name: Seq<char>, i: int) -> bool {
    &&& 0 <= i < names.len()
    &&& names[i]@ == name
    &&& forall|j: int| 0 <= j < i ==> (#[trigger] names[j])@ != name
}

/// The first place at which `name` stands, if it does.
fn position(names: &Vec<String>, name: &String) -> (r: Option<usize>)
    ensures
        r matches Some(i) ==> stands_first(names@, name@, i as int),
        r is None ==> !name_texts(names@).contains(name@),
{
    let mut i: usize = 0;
    while i < names.len()
        invariant
            i <= names@.len(),
            forall|j: int| 0 <= j < i ==> (#[trigger] names@[j])@ != name@,
        decreases names@.len() - i,
    {
        if names[i] == *name {
            return Some(i);
        }
        i = i + 1;
    }
    proof {
        assert forall|j: int| 0 <= j < name_texts(names@).len() implies name_texts(names@)[j]
            != name@ by {
            assert(names@[j]@ != name@);
        }
    }
    None
}

/// One message to send again, and the output through which it goes.
#[derive(Debug)]
pub struct ReplayAction {
    pub sink: usize,
    pub entry: LogEntry,
}

/// Whether `actions` send the entries on channels that have an output, in
/// order, each through the first output of its channel.
pub open spec fn replays(entries: Seq<LogEntry>, sinks: Seq<String>, actions: Seq<ReplayAction>) -> bool
    decreases entries.len(),
{
    if entries.len() == 0 {
        actions.len() == 0
    } else if name_texts(sinks).contains(entries.last().channel@) {
        &&& actions.len() > 0
        &&& actions.last().entry == entries.last()
        &&& stands_first(sinks, entries.last().channel@, actions.last().sink as int)
        &&& replays(entries.drop_last(), sinks, actions.drop_last())
    } else {
        replays(entries.drop_last(), sinks, actions)
    }
}

/// When a replay of the entries wants to run: at the time of the first of them.
/// The clock's invalid reading is no time.
pub open spec fn wanted_time(entries: Seq<LogEntry>) -> Option<FrameworkTime> {
    if entries.len() == 0 || entries[0].time.nanoseconds == i64::MIN {
        None
    } else {
        Some(entries[0].time)
    }
}

/// Sends what was logged, at the times at which it was logged.
#[derive(Debug)]
pub struct LogSimulationTask {
    pub reader: SortedLog,
    /// The channel of each output.
    pub sinks: Vec<String>,
}

impl LogSimulationTask {
    /// Takes what is due out of the log. Returns what to send for it.
    pub fn run(&mut self, now: FrameworkTime) -> (actions: Vec<ReplayAction>)
        ensures
            old(self).reader.wf() ==> final(self).reader.wf(),
            final(self).sinks == old(self).sinks,
            replays(
                old(self).reader.entries@.take(due(old(self).reader.entries@, now) as int),
                old(self).sinks@,
                actions@,
            ),
            final(self).reader.entries@ == old(self).reader.entries@.skip(
                due(old(self).reader.entries@, now) as int,
            ),
    {
        let (batch, _) = self.reader.read_until(now);
        plan_replay(batch, &self.sinks)
    }

    /// Puts entries back in front of the log.
    pub fn put_back(&mut self, entries: Vec<LogEntry>)
        ensures
            final(self).sinks == old(self).sinks,
            final(self).reader.entries@ == entries@ + old(self).reader.entries@,
    {
        let mut all = entries;
        all.append(&mut self.reader.entries);
        self.reader.entries = all;
    }

    /// When the task wants to run: at the time of the next entry.
    pub fn next_execution_time(&self) -> (r: Option<FrameworkTime>)
        ensures
            r == wanted_time(self.reader.entries@),
    {
        match self.reader.peek_time() {
            Some(time) => if time.nanoseconds == i64::MIN {
                None
            } else {
                Some(time)
            },
            None => None,
        }
    }

    /// Whether the log has come to its end.
    pub fn is_over(&self) -> (r: bool)
        ensures
            r == (self.reader.entries@.len() == 0),
    {
        self.reader.is_empty()
    }
}

/// What to send for the entries.
fn plan_replay(entries: Vec<LogEntry>, sinks: &Vec<String>) -> (actions: Vec<ReplayAction>)
    ensures
        replays(entries@, sinks@, actions@),
{
    let ghost all = entries@;
    let mut rest = entries;
    let mut actions: Vec<ReplayAction> = Vec::new();
    let ghost mut done: int = 0;
    assert(all.skip(0) =~= all);
    assert(all.take(0) =~= Seq::empty());
    while rest.len() > 0
        invariant
            0 <= done <= all.len(),
            rest@ == all.skip(done),
            replays(all.take(done), sinks@, actions@),
        decreases rest@.len(),
    {
        let entry = rest.remove(0);
        proof {
            assert(entry == all[done]);
            assert(rest@ =~= all.skip(done + 1));
            assert(all.take(done + 1).drop_last() =~= all.take(done));
        }
        let ghost before = actions@;
        match position(sinks, &entry.channel) {
            Some(sink) => {
                proof {
                    assert(name_texts(sinks@)[sink as int] == entry.channel@);
                }
                actions.push(ReplayAction { sink, entry });
                assert(actions@.drop_last() =~= before);
            },
            None => {},
        }
        proof {
            done = done + 1;
        }
    }
    assert(all.take(done) =~= all);
    actions
}

/// Whether an entry has to wait: its output is there and has no loan left.
pub open spec fn has_to_wait<T>(ports: NodePorts, system: PubSub<T>, action: ReplayAction) -> bool {
    action.sink < ports.publisher_count && !system.loan_left(ports.first_publisher + action.sink)
}

/// The entries of the first `n` actions that have to wait, in order.
pub open spec fn waiting<T>(
    ports: NodePorts,
    actions: Seq<ReplayAction>,
    systems: Seq<PubSub<T>>,
    n: int,
) -> Seq<LogEntry>
    decreases n,
{
    if n <= 0 {
        Seq::empty()
    } else if has_to_wait(ports, systems[n - 1], actions[n - 1]) {
        waiting(ports, actions, systems, n - 1).push(actions[n - 1].entry)
    } else {
        waiting(ports, actions, systems, n - 1)
    }
}

/// What sending one entry again makes of the system: a payload that can be
/// read is published, if its output has a loan left.
pub open spec fn sends_again<T: Loggable>(
    ports: NodePorts,
    before: PubSub<T>,
    after: PubSub<T>,
    action: ReplayAction,
) -> bool {
    let p = (ports.first_publisher + action.sink) as usize;
    if action.sink < ports.publisher_count && before.loan_left(p as int) {
        ||| exists|value: T| #[trigger]
            T::reads(action.entry.payload@, Ok(value)) && crate::test_tasks::publishes(
                before,
                after,
                p,
                value,
            )
        ||| after == before && exists|error: crate::loggable::DeserializeError| #[trigger]
            T::reads(action.entry.payload@, Err(error))
    } else {
        after == before
    }
}

/// Whether the first `n` actions take `systems[0]` to `systems[n]`.
pub open spec fn sent_in_turn<T: Loggable>(
    ports: NodePorts,
    actions: Seq<ReplayAction>,
    systems: Seq<PubSub<T>>,
) -> bool {
    &&& systems.len() == actions.len() + 1
    &&& forall|k: int| 0 <= k < systems.len() ==> (#[trigger] systems[k]).wf()
    &&& forall|k: int|
        0 <= k < actions.len() ==> sends_again(
            ports,
            systems[k],
            systems[k + 1],
            #[trigger] actions[k],
        )
}

/// Two runs within a node's ports make one.
pub proof fn lemma_ran_within_twice<T>(
    ports: NodePorts,
    a: PubSub<T>,
    b: PubSub<T>,
    c: PubSub<T>,
)
    requires
        ports.ran_within(a, b),
        ports.ran_within(b, c),
    ensures
        ports.ran_within(a, c),
{
    assert forall|p: int| 0 <= p < a.publishers@.len() implies crate::pub_sub::same_port(
        #[trigger] c.publishers@[p],
        a.publishers@[p],
    ) && (!ports.owns_publisher(p) ==> c.publishers@[p].loaned_values@
        == a.publishers@[p].loaned_values@) by {
        assert(crate::pub_sub::same_port(b.publishers@[p], a.publishers@[p]));
    }
    assert forall|s: int| 0 <= s < a.subscribers@.len() implies crate::callback::same_but_read(
        #[trigger] c.subscribers@[s],
        a.subscribers@[s],
    ) && crate::callback::reads_no_more(
        c.subscribers@[s].buffers.readable(),
        a.subscribers@[s].buffers.readable(),
    ) && (!ports.owns_subscriber(s) ==> c.subscribers@[s].buffers.readable()
        == a.subscribers@[s].buffers.readable()) by {
        assert(crate::callback::same_but_read(b.subscribers@[s], a.subscribers@[s]));
    }
    assert forall|r: (usize, u64)| #[trigger]
        c.live(r) && !ports.owns_publisher(r.0 as int) implies a.live(r) && c.entry(r) == a.entry(
        r,
    ) by {
        assert(b.live(r));
    }
}

/// Sends the entries again through the outputs of a node. Returns those that
/// have to wait, since their outputs have no loan left.
pub fn replay<T: Loggable>(
    system: &mut PubSub<T>,
    ports: &NodePorts,
    actions: Vec<ReplayAction>,
) -> (left: Vec<LogEntry>)
    requires
        old(system).wf(),
        ports.within(*old(system)),
    ensures
        final(system).wf(),
        ports.ran_within(*old(system), *final(system)),
        exists|systems: Seq<PubSub<T>>| #[trigger]
            sent_in_turn(*ports, actions@, systems) && systems[0] == *old(system)
                && systems.last() == *final(system) && left@ == waiting(
                *ports,
                actions@,
                systems,
                actions@.len() as int,
            ),
{
    let ghost all = actions@;
    let ghost mut systems: Seq<PubSub<T>> = seq![*system];
    let ghost mut k: int = 0;
    let mut rest = actions;
    let mut left: Vec<LogEntry> = Vec::new();
    assert(all.skip(0) =~= all);
    while rest.len() > 0
        invariant
            0 <= k <= all.len(),
            rest@ == all.skip(k),
            system.wf(),
            ports.within(*system),
            ports.ran_within(*old(system), *system),
            systems.len() == k + 1,
            systems[0] == *old(system),
            systems.last() == *system,
            left@ == waiting(*ports, all, systems, k),
            forall|j: int| 0 <= j < systems.len() ==> (#[trigger] systems[j]).wf(),
            forall|j: int|
                0 <= j < k ==> sends_again(*ports, systems[j], systems[j + 1], #[trigger] all[j]),
        decreases rest@.len(),
    {
        let ghost before = *system;
        let ghost earlier = systems;
        let action = rest.remove(0);
        let ghost sent_action = action;
        proof {
            assert(action == all[k]);
            assert(rest@ =~= all.skip(k + 1));
        }
        let sink: usize = action.sink;
        assert(system.publishers.len() == system.publishers@.len());
        if sink < ports.publisher_count {
            let p: usize = ports.first_publisher + sink;
            assert(ports.owns_publisher(p as int));
            if system.loan_available(p) {
                match T::deserialize(action.entry.payload.as_slice()) {
                    Ok(value) => {
                        let ghost sent = value;
                        crate::test_tasks::publish(system, ports, p, value);
                        proof {
                            assert(T::reads(sent_action.entry.payload@, Ok(sent)));
                            lemma_ran_within_twice(*ports, *old(system), before, *system);
                        }
                    },
                    Err(error) => {
                        assert(T::reads(sent_action.entry.payload@, Err(error)));
                    },
                }
            } else {
                left.push(action.entry);
            }
        }
        proof {
            assert(sends_again(*ports, before, *system, sent_action));
            systems = systems.push(*system);
            assert forall|j: int| 0 <= j < k + 1 implies sends_again(
                *ports,
                systems[j],
                systems[j + 1],
                #[trigger] all[j],
            ) by {
                if j < k {
                    assert(sends_again(*ports, earlier[j], earlier[j + 1], all[j]));
                }
            }
            lemma_waiting_alike(*ports, all, earlier, systems, k);
            k = k + 1;
        }
    }
    proof {
        assert(k == all.len());
        assert(sent_in_turn(*ports, all, systems));
    }
    left
}

/// Which entries wait depends on the systems before them alone.
proof fn lemma_waiting_alike<T>(
    ports: NodePorts,
    actions: Seq<ReplayAction>,
    a: Seq<PubSub<T>>,
    b: Seq<PubSub<T>>,
    n: int,
)
    requires
        forall|j: int| 0 <= j < n ==> #[trigger] a[j] == b[j],
    ensures
        waiting(ports, actions, a, n) == waiting(ports, actions, b, n),
    decreases n,
{
    if n > 0 {
        lemma_waiting_alike(ports, actions, a, b, n - 1);
        assert(a[n - 1] == b[n - 1]);
    }
}

/// Whether a channel is left out of a replay: it is denied, or is the
/// framework's own log.
pub open spec fn left_out(denylist: Seq<String>, channel: Seq<char>) -> bool {
    name_texts(denylist).contains(channel) || channel
        == crate::execution_log::EXECUTION_LOG_CHANNEL@
}

/// The payload type with which a channel can be sent again, if it is known.
pub open spec fn sendable_as(registry: ChannelRegistry, channel: Seq<char>) -> Option<u64> {
    match registry.channels.at(channel) {
        Some(value_type) => if registry.publisher_factories@.contains(value_type) {
            Some(value_type)
        } else {
            None
        },
        None => None,
    }
}

/// Whether entry `n` should be replayed and cannot.
pub open spec fn unreplayable(
    entries: Seq<LogEntry>,
    registry: ChannelRegistry,
    denylist: Seq<String>,
    n: int,
) -> bool {
    &&& 0 <= n < entries.len()
    &&& !left_out(denylist, entries[n].channel@)
    &&& sendable_as(registry, entries[n].channel@) is None
}

/// Whether entry `n` is the first that should be replayed and cannot.
pub open spec fn first_unreplayable(
    entries: Seq<LogEntry>,
    registry: ChannelRegistry,
    denylist: Seq<String>,
    n: int,
) -> bool {
    &&& unreplayable(entries, registry, denylist, n)
    &&& forall|m: int| m < n ==> !#[trigger] unreplayable(entries, registry, denylist, m)
}

/// The replayed channels of the first `n` entries, in the order in which they
/// first appear.
pub open spec fn replayed_channels(
    entries: Seq<LogEntry>,
    denylist: Seq<String>,
    n: int,
) -> Seq<Seq<char>>
    decreases n,
{
    if n <= 0 {
        Seq::empty()
    } else {
        let earlier = replayed_channels(entries, denylist, n - 1);
        let channel = entries[n - 1].channel@;
        if !left_out(denylist, channel) && !earlier.contains(channel) {
            earlier.push(channel)
        } else {
            earlier
        }
    }
}

/// What the replay of a log takes: the task, and what makes the output for each
/// of its channels.
#[derive(Debug)]
pub struct LogSimulationPlan {
    pub task: LogSimulationTask,
    pub factories: Vec<ChannelPublisherFactory>,
}

/// Adds the replay of a log to a graph.
#[derive(Debug)]
pub struct LogSimulationBuildStep {
    pub log: SortedLog,
    pub denylist: Vec<String>,
    pub first_time: FrameworkTime,
}

impl LogSimulationBuildStep {
    /// There are entries, and the first time is that of the first.
    pub open spec fn wf(&self) -> bool {
        &&& self.log.entries@.len() > 0
        &&& self.first_time == self.log.entries@[0].time
    }

    /// Prepares the replay of a log, which has to have entries.
    pub fn new(log: SortedLog, denylist: Vec<String>) -> (r: Result<Self, &'static str>)
        ensures
            r is Err <==> log.entries@.len() == 0,
            r is Err ==> r->Err_0@ == "Log file is empty"@,
            r matches Ok(step) ==> step.wf() && step.log == log && step.denylist == denylist,
    {
        match log.peek_time() {
            Some(first_time) => Ok(LogSimulationBuildStep { log, denylist, first_time }),
            None => Err("Log file is empty"),
        }
    }

    /// Timestamp of the earliest entry in the log.
    pub fn first_log_time(&self) -> (r: FrameworkTime)
        ensures
            r == self.first_time,
    {
        self.first_time
    }

    pub fn name(&self) -> (r: &'static str)
        ensures
            r@ == "LogSimulationBuildStep"@,
    {
        "LogSimulationBuildStep"
    }

    /// The task and what makes its outputs, one for each channel that is
    /// replayed; nothing where none is. It is an error if the payload type of
    /// such a channel is not known.
    pub(crate) fn plan(self, registry: &ChannelRegistry) -> (r: Result<
        Option<LogSimulationPlan>,
        String,
    >)
        requires
            registry.wf(),
        ensures
            r is Err <==> exists|n: int| #[trigger]
                unreplayable(self.log.entries@, *registry, self.denylist@, n),
            r is Err ==> exists|n: int| #[trigger]
                first_unreplayable(self.log.entries@, *registry, self.denylist@, n) && r->Err_0@
                    == "no registered payload type for logged channel "@
                    + self.log.entries@[n].channel@,
            r is Ok ==> self.plans(*registry, r->Ok_0),
    {
        let ghost entries = self.log.entries@;
        let mut sinks: Vec<String> = Vec::new();
        let mut factories: Vec<ChannelPublisherFactory> = Vec::new();
        let mut n: usize = 0;
        assert(name_texts(sinks@) =~= Seq::empty());
        while n < self.log.entries.len()
            invariant
                n <= entries.len(),
                entries == self.log.entries@,
                registry.wf(),
                forall|m: int| m < n ==> !#[trigger] unreplayable(
                    entries,
                    *registry,
                    self.denylist@,
                    m,
                ),
                name_texts(sinks@) == replayed_channels(entries, self.denylist@, n as int),
                factories@.len() == sinks@.len(),
                forall|i: int|
                    0 <= i < sinks@.len() ==> Some((#[trigger] factories@[i]).value_type)
                        == sendable_as(*registry, sinks@[i]@),
            decreases entries.len() - n,
        {
            let channel = self.log.entries[n].channel.clone();
            let skipped = self.leaves_out(&channel);
            if !skipped {
                let known = position(&sinks, &channel);
                proof {
                    if known is Some {
                        assert(name_texts(sinks@)[known->0 as int] == channel@);
                    }
                }
                match replay_factory(registry, &channel) {
                    Some(factory) => {
                        if known.is_none() {
                            let ghost before = sinks@;
                            factories.push(factory);
                            sinks.push(channel);
                            assert(name_texts(sinks@) =~= name_texts(before).push(channel@));
                        }
                    },
                    None => {
                        let mut text = "no registered payload type for logged channel ".to_owned();
                        text.append(channel.as_str());
                        assert(unreplayable(entries, *registry, self.denylist@, n as int));
                        assert(first_unreplayable(entries, *registry, self.denylist@, n as int));
                        return Err(text);
                    },
                }
            }
            n = n + 1;
        }
        if sinks.len() == 0 {
            return Ok(None);
        }
        let ghost this = self;
        let plan = LogSimulationPlan {
            task: LogSimulationTask {
                reader: self.log,
                sinks,
            },
            factories,
        };
        assert(this.plans(*registry, Some(plan)));
        Ok(Some(plan))
    }

    /// The channels that are replayed, in the order in which they first appear.
    pub open spec fn channels(&self) -> Seq<Seq<char>> {
        replayed_channels(self.log.entries@, self.denylist@, self.log.entries@.len() as int)
    }

    /// Whether `plan` is the task and what makes its outputs, one for each
    /// channel that is replayed, if one is.
    pub open spec fn plans(&self, registry: ChannelRegistry, plan: Option<LogSimulationPlan>) -> bool {
        let channels = self.channels();
        &&& plan is None <==> channels.len() == 0
        &&& plan matches Some(plan) ==> {
            &&& plan.task.reader == self.log
            &&& name_texts(plan.task.sinks@) == channels
            &&& plan.factories@.len() == channels.len()
            &&& forall|i: int|
                0 <= i < channels.len() ==> Some((#[trigger] plan.factories@[i]).value_type)
                    == sendable_as(registry, channels[i])
        }
    }

    /// Whether a channel is left out of the replay.
    fn leaves_out(&self, channel: &String) -> (r: bool)
        ensures
            r == left_out(self.denylist@, channel@),
    {
        let denied = position(&self.denylist, channel);
        proof {
            if denied is Some {
                assert(name_texts(self.denylist@)[denied->0 as int] == channel@);
            }
        }
        let own_log = crate::execution_log::EXECUTION_LOG_CHANNEL.to_owned();
        denied.is_some() || *channel == own_log
    }
}

/// What sends messages of a channel again, if its payload type is known.
fn replay_factory(registry: &ChannelRegistry, channel: &String) -> (r: Option<
    ChannelPublisherFactory,
>)
    requires
        registry.wf(),
    ensures
        r is Some <==> sendable_as(*registry, channel@) is Some,
        r matches Some(factory) ==> sendable_as(*registry, channel@) == Some(factory.value_type),
{
    match registry.channel_type(channel.as_str()) {
        Some(value_type) => registry.channel_publisher_factory(value_type),
        None => None,
    }
}

/// Whether `port` is the output through which a channel is replayed.
pub open spec fn is_replay_output(
    port: PublisherPort,
    channel: Seq<char>,
    value_type: Option<u64>,
) -> bool {
    &&& port.config.channel_name@ == channel
    &&& port.config.capacity == 1
    &&& Some(port.value_type) == value_type
    &&& port.forwarded_channels@.len() == 0
}

/// A denied channel is never replayed, and no channel twice.
pub proof fn law_denied_channels_are_skipped(
    entries: Seq<LogEntry>,
    denylist: Seq<String>,
    n: int,
)
    requires
        0 <= n <= entries.len(),
    ensures
        replayed_channels(entries, denylist, n).no_duplicates(),
        forall|i: int|
            0 <= i < replayed_channels(entries, denylist, n).len() ==> !left_out(
                denylist,
                #[trigger] replayed_channels(entries, denylist, n)[i],
            ),
    decreases n,
{
    if n > 0 {
        law_denied_channels_are_skipped(entries, denylist, n - 1);
    }
}

} // verus!
