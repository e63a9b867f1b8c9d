//! Execution logs: what ran when, and which messages went in and out.
use vstd::prelude::*;

use crate::callback::CallbackNode;
use crate::executor::ThreadPoolConfig;
use crate::log_listeners::{connect_listeners, list_listeners};
use crate::message::MessageHeader;
use crate::pub_sub::PubSub;
use crate::publisher::{Publisher, PublisherConfig};
use crate::time::FrameworkTime;
use std::collections::HashMap;

verus! {

/// Channel every execution-log publisher publishes on.
pub const EXECUTION_LOG_CHANNEL: &'static str = "execution_log";

/// Channel of the descriptor of the mapping from indices to channels.
pub const EXECUTION_LOG_DESCRIPTOR_CHANNEL: &'static str = "execution_log_descriptor";

/// Number of logged messages packed into a single entry. An execution with
/// more messages continues in further entries.
pub const MESSAGES_PER_ENTRY: usize = 24;

/// Number of entries packed into a single message.
pub const ENTRIES_PER_MESSAGE: usize = 64;

/// Which pub/sub side a logged message came from.
#[derive(Clone, Copy, Debug, PartialEq, Eq, Structural)]
pub enum Direction {
    Published,
    Received,
}

impl Default for Direction {
    fn default() -> (r: Self)
        ensures
            r is Published,
    {
        Direction::Published
    }
}

/// One logged header and the port that it belongs to, by its place among the
/// node's publishers or subscribers.
#[derive(Clone, Copy, Debug, PartialEq, Eq, Structural)]
pub struct LoggedMessage {
    pub ordinal: u16,
    pub direction: Direction,
    pub header: MessageHeader,
}

impl Default for LoggedMessage {
    fn default() -> (r: Self)
        ensures
            r == unused_message(),
    {
        LoggedMessage {
            ordinal: 0,
            direction: Direction::default(),
            header: MessageHeader::default(),
        }
    }
}

/// What an unused message slot holds.
pub open spec fn unused_message() -> LoggedMessage {
    LoggedMessage {
        ordinal: 0,
        direction: Direction::Published,
        header: MessageHeader { published_at: FrameworkTime { nanoseconds: i64::MIN } },
    }
}

impl LoggedMessage {
    /// Whether the slot is used.
    pub open spec fn valid(self) -> bool {
        self.header.published_at.nanoseconds != i64::MIN
    }

    pub fn is_valid(&self) -> (r: bool)
        ensures
            r == self.valid(),
    {
        self.header.published_at.nanoseconds != FrameworkTime::invalid().nanoseconds
    }
}

/// A fixed-size slice of one execution.
#[derive(Clone, Copy, Debug)]
pub struct ExecutionLogEntry {
    pub callback_node_index: u32,
    pub execution_time: FrameworkTime,
    pub execution_duration_ns: u64,
    pub messages: [LoggedMessage; MESSAGES_PER_ENTRY],
}

impl Default for ExecutionLogEntry {
    fn default() -> (r: Self)
        ensures
            r.unused(),
    {
        ExecutionLogEntry {
            callback_node_index: 0,
            execution_time: FrameworkTime::invalid(),
            execution_duration_ns: 0,
            messages: [LoggedMessage::default();MESSAGES_PER_ENTRY],
        }
    }
}

impl ExecutionLogEntry {
    /// Whether the slot is used.
    pub open spec fn valid(self) -> bool {
        self.execution_time.nanoseconds != i64::MIN
    }

    /// What a slot holds that was never used.
    pub open spec fn unused(self) -> bool {
        &&& self.callback_node_index == 0
        &&& self.execution_duration_ns == 0
        &&& !self.valid()
        &&& forall|i: int|
            0 <= i < MESSAGES_PER_ENTRY ==> #[trigger] self.messages@[i] == unused_message()
    }

    pub fn is_valid(&self) -> (r: bool)
        ensures
            r == self.valid(),
    {
        self.execution_time.nanoseconds != FrameworkTime::invalid().nanoseconds
    }

    /// First unused message slot in this entry, or `None` if full.
    pub fn next_free(&self) -> (r: Option<usize>)
        ensures
            r matches Some(i) ==> i < MESSAGES_PER_ENTRY && !self.messages@[i as int].valid()
                && forall|j: int| 0 <= j < i ==> (#[trigger] self.messages@[j]).valid(),
            r is None ==> forall|j: int|
                0 <= j < MESSAGES_PER_ENTRY ==> (#[trigger] self.messages@[j]).valid(),
    {
        let mut i: usize = 0;
        while i < MESSAGES_PER_ENTRY
            invariant
                i <= MESSAGES_PER_ENTRY,
                forall|j: int| 0 <= j < i ==> (#[trigger] self.messages@[j]).valid(),
            decreases MESSAGES_PER_ENTRY - i,
        {
            if !self.messages[i].is_valid() {
                return Some(i);
            }
            i = i + 1;
        }
        None
    }
}

/// A count that stays at its largest value.
#[derive(Clone, Copy, Debug, PartialEq, Eq, Structural)]
pub struct Saturating(pub usize);

/// One message carrying a batch of entries, and how many execution logs could
/// not be recorded while the batch was being filled.
#[derive(Clone, Copy, Debug)]
pub struct ExecutionLogMessage {
    pub number_of_dropped_entries: Saturating,
    pub entries: [ExecutionLogEntry; ENTRIES_PER_MESSAGE],
}

impl Default for ExecutionLogMessage {
    fn default() -> (r: Self)
        ensures
            r.number_of_dropped_entries == Saturating(0),
            forall|i: int| 0 <= i < ENTRIES_PER_MESSAGE ==> (#[trigger] r.entries@[i]).unused(),
    {
        ExecutionLogMessage {
            number_of_dropped_entries: Saturating(0),
            entries: [ExecutionLogEntry::default();ENTRIES_PER_MESSAGE],
        }
    }
}

impl ExecutionLogMessage {
    /// First unused entry slot in this message, or `None` if full.
    pub fn next_free_entry(&self) -> (r: Option<usize>)
        ensures
            r matches Some(i) ==> i < ENTRIES_PER_MESSAGE && !self.entries@[i as int].valid()
                && forall|j: int| 0 <= j < i ==> (#[trigger] self.entries@[j]).valid(),
            r is None ==> forall|j: int|
                0 <= j < ENTRIES_PER_MESSAGE ==> (#[trigger] self.entries@[j]).valid(),
    {
        let mut i: usize = 0;
        while i < ENTRIES_PER_MESSAGE
            invariant
                i <= ENTRIES_PER_MESSAGE,
                forall|j: int| 0 <= j < i ==> (#[trigger] self.entries@[j]).valid(),
            decreases ENTRIES_PER_MESSAGE - i,
        {
            if !self.entries[i].is_valid() {
                return Some(i);
            }
            i = i + 1;
        }
        None
    }

    /// The message with the given entries, as it is read back from a log:
    /// entries beyond the last slot are left out, and the slots behind the
    /// given entries are unused.
    pub fn from_entries(number_of_dropped_entries: usize, entries: &Vec<ExecutionLogEntry>) -> (r:
        Self)
        ensures
            r.number_of_dropped_entries == Saturating(number_of_dropped_entries),
            forall|i: int|
                0 <= i < ENTRIES_PER_MESSAGE && i < entries@.len() ==> #[trigger] r.entries@[i]
                    == entries@[i],
            forall|i: int|
                entries@.len() <= i < ENTRIES_PER_MESSAGE ==> (#[trigger] r.entries@[i]).unused(),
    {
        let mut message = ExecutionLogMessage::default();
        message.number_of_dropped_entries = Saturating(number_of_dropped_entries);
        let mut i: usize = 0;
        while i < entries.len() && i < ENTRIES_PER_MESSAGE
            invariant
                i <= ENTRIES_PER_MESSAGE,
                i <= entries@.len(),
                message.number_of_dropped_entries == Saturating(number_of_dropped_entries),
                forall|j: int| 0 <= j < i ==> #[trigger] message.entries@[j] == entries@[j],
                forall|j: int|
                    i <= j < ENTRIES_PER_MESSAGE ==> (#[trigger] message.entries@[j]).unused(),
            decreases entries@.len() - i,
        {
            message.entries[i] = entries[i];
            i = i + 1;
        }
        message
    }
}

/// What was written is read back: a message survives being taken apart into
/// its entries and put together again.
pub proof fn law_entries_read_back(message: ExecutionLogMessage, read: ExecutionLogMessage)
    requires
        read.number_of_dropped_entries == message.number_of_dropped_entries,
        forall|i: int|
            0 <= i < ENTRIES_PER_MESSAGE && i < message.entries@.len() ==> #[trigger] read.entries@[i]
                == message.entries@[i],
    ensures
        read.entries@ == message.entries@,
{
    assert(read.entries@ =~= message.entries@);
}

/// A subscriber on the execution-log channel carries another payload type.
#[derive(Debug)]
pub struct ExecutionLogConnectError {
    pub channel_name: String,
    pub subscriber_node: String,
}

impl ExecutionLogConnectError {
    /// The error as a message.
    pub open spec fn text(self) -> Seq<char> {
        "Subscriber on channel '"@ + self.channel_name@ + "' (node '"@ + self.subscriber_node@
            + "') is not a Subscriber<ExecutionLogMessage>"@
    }

    pub fn to_string(&self) -> (r: String)
        ensures
            r@ == self.text(),
    {
        let mut text = "Subscriber on channel '".to_owned();
        text.append(self.channel_name.as_str());
        text.append("' (node '");
        text.append(self.subscriber_node.as_str());
        text.append("') is not a Subscriber<ExecutionLogMessage>");
        text
    }
}

/// Descriptor of per-callback indices to channel names.
#[derive(Debug)]
pub struct CallbackDescriptor {
    pub subscriber_index_to_channel_name: HashMap<usize, String>,
    pub publisher_index_to_channel_name: HashMap<usize, String>,
}

/// Whether `names` gives for each index the name in `list`, and nothing else.
pub open spec fn names_by_index(names: Map<usize, String>, list: Seq<Seq<char>>) -> bool {
    &&& forall|i: usize| #[trigger] names.dom().contains(i) <==> i < list.len()
    &&& forall|i: usize| i < list.len() ==> (#[trigger] names[i])@ == list[i as int]
}

/// The channels of a node's inputs.
pub open spec fn input_names(ports: Seq<crate::callback::SubscriberPort>) -> Seq<Seq<char>> {
    ports.map_values(|port: crate::callback::SubscriberPort| port.config.channel_name@)
}

/// The channels of a node's outputs.
pub open spec fn output_names(ports: Seq<crate::callback::PublisherPort>) -> Seq<Seq<char>> {
    ports.map_values(|port: crate::callback::PublisherPort| port.config.channel_name@)
}

impl CallbackDescriptor {
    /// Whether this describes the channels of `node`.
    pub open spec fn describes<T>(self, node: CallbackNode<T>) -> bool {
        &&& names_by_index(self.subscriber_index_to_channel_name@, input_names(node.subscribers@))
        &&& names_by_index(self.publisher_index_to_channel_name@, output_names(node.publishers@))
    }

    fn of_node<T>(node: &CallbackNode<T>) -> (r: Self)
        ensures
            r.describes(*node),
    {
        broadcast use vstd::std_specs::hash::group_hash_axioms;

        let mut subscribers: HashMap<usize, String> = HashMap::new();
        let mut i: usize = 0;
        while i < node.subscribers.len()
            invariant
                i <= node.subscribers@.len(),
                names_by_index(
                    subscribers@,
                    input_names(node.subscribers@).take(i as int),
                ),
            decreases node.subscribers@.len() - i,
        {
            broadcast use vstd::std_specs::hash::group_hash_axioms;

            subscribers.insert(i, node.subscribers[i].config.channel_name.clone());
            i = i + 1;
        }
        let mut publishers: HashMap<usize, String> = HashMap::new();
        let mut k: usize = 0;
        while k < node.publishers.len()
            invariant
                k <= node.publishers@.len(),
                names_by_index(
                    publishers@,
                    output_names(node.publishers@).take(k as int),
                ),
            decreases node.publishers@.len() - k,
        {
            broadcast use vstd::std_specs::hash::group_hash_axioms;

            publishers.insert(k, node.publishers[k].config.channel_name.clone());
            k = k + 1;
        }
        assert(input_names(node.subscribers@).take(i as int) =~= input_names(node.subscribers@));
        assert(output_names(node.publishers@).take(k as int) =~= output_names(node.publishers@));
        CallbackDescriptor {
            subscriber_index_to_channel_name: subscribers,
            publisher_index_to_channel_name: publishers,
        }
    }
}

/// Descriptor of the nodes by their index.
#[derive(Debug)]
pub struct ExecutionLogDescriptor {
    pub index_to_callbacks: HashMap<usize, CallbackDescriptor>,
}

impl ExecutionLogDescriptor {
    /// Describes the nodes, each under its index. This should be called after
    /// all nodes have been added.
    pub fn new<T>(nodes: &Vec<CallbackNode<T>>) -> (r: Self)
        ensures
            forall|n: usize| #[trigger]
                r.index_to_callbacks@.dom().contains(n) <==> n < nodes@.len(),
            forall|n: usize|
                n < nodes@.len() ==> (#[trigger] r.index_to_callbacks@[n]).describes(
                    nodes@[n as int],
                ),
    {
        broadcast use vstd::std_specs::hash::group_hash_axioms;

        let mut index_to_callbacks: HashMap<usize, CallbackDescriptor> = HashMap::new();
        let mut n: usize = 0;
        while n < nodes.len()
            invariant
                n <= nodes@.len(),
                forall|m: usize| #[trigger] index_to_callbacks@.dom().contains(m) <==> m < n,
                forall|m: usize|
                    m < n ==> (#[trigger] index_to_callbacks@[m]).describes(nodes@[m as int]),
            decreases nodes@.len() - n,
        {
            broadcast use vstd::std_specs::hash::group_hash_axioms;

            let descriptor = CallbackDescriptor::of_node(&nodes[n]);
            index_to_callbacks.insert(n, descriptor);
            n = n + 1;
        }
        ExecutionLogDescriptor { index_to_callbacks }
    }
}

/// How many threads the first `k` pools have.
pub open spec fn thread_total<T>(pools: Seq<ThreadPoolConfig<T>>, k: int) -> int
    decreases k,
{
    if k <= 0 {
        0
    } else {
        thread_total(pools, k - 1) + pools[k - 1].thread_count
    }
}

proof fn lemma_thread_total<T>(pools: Seq<ThreadPoolConfig<T>>, k: int, n: int)
    requires
        0 <= k <= n <= pools.len(),
    ensures
        0 <= thread_total(pools, k) <= thread_total(pools, n),
    decreases n,
{
    if k < n {
        lemma_thread_total(pools, k, n - 1);
    } else if k > 0 {
        lemma_thread_total(pools, k - 1, k - 1);
    }
}

/// A publisher of execution logs that is not connected yet.
pub open spec fn is_log_publisher<T>(publisher: Publisher<T>, value_type: u64) -> bool {
    &&& publisher.wf()
    &&& publisher.fresh()
    &&& publisher.config.capacity == 1
    &&& publisher.config.channel_name@ == EXECUTION_LOG_CHANNEL@
    &&& publisher.value_type == value_type
    &&& publisher.forwarded_channels@.len() == 0
}

/// One execution-log publisher per worker thread across all pools, with room
/// for one outstanding log message each. Pool 0's workers come first.
pub fn log_publishers<T>(pools: &Vec<ThreadPoolConfig<T>>, value_type: u64) -> (r: Vec<Publisher<T>>)
    requires
        thread_total(pools@, pools@.len() as int) <= usize::MAX,
    ensures
        r@.len() == thread_total(pools@, pools@.len() as int),
        forall|i: int| 0 <= i < r@.len() ==> is_log_publisher(#[trigger] r@[i], value_type),
{
    let mut total: usize = 0;
    let mut k: usize = 0;
    while k < pools.len()
        invariant
            k <= pools@.len(),
            total == thread_total(pools@, k as int),
            thread_total(pools@, pools@.len() as int) <= usize::MAX,
        decreases pools@.len() - k,
    {
        proof {
            lemma_thread_total(pools@, k + 1, pools@.len() as int);
        }
        total = total + pools[k].thread_count;
        k = k + 1;
    }
    let mut publishers: Vec<Publisher<T>> = Vec::new();
    let mut i: usize = 0;
    while i < total
        invariant
            i <= total,
            publishers@.len() == i,
            forall|j: int|
                0 <= j < publishers@.len() ==> is_log_publisher(
                    #[trigger] publishers@[j],
                    value_type,
                ),
        decreases total - i,
    {
        publishers.push(
            Publisher::new(
                PublisherConfig { capacity: 1, channel_name: EXECUTION_LOG_CHANNEL.to_owned() },
                value_type,
            ),
        );
        i = i + 1;
    }
    publishers
}

/// Whether subscriber `s` listens to the execution-log channel for another
/// payload type.
pub open spec fn log_mismatch<T>(system: PubSub<T>, s: int, value_type: u64) -> bool {
    &&& 0 <= s < system.subscribers@.len()
    &&& system.subscribers@[s].config.channel_name@ == EXECUTION_LOG_CHANNEL@
    &&& system.subscribers@[s].value_type != value_type
}

/// Whether an input of node `i` of pool `k` listens to the execution-log channel
/// for another payload type.
pub open spec fn node_mismatch<T>(
    pools: Seq<ThreadPoolConfig<T>>,
    system: PubSub<T>,
    value_type: u64,
    k: int,
    i: int,
) -> bool {
    exists|s: int| #[trigger]
        log_mismatch(system, s, value_type) && crate::log_listeners::owner_at(pools, k, i, s)
}

/// Whether node `i` of pool `k` is the first with such an input, pool by pool
/// and node by node.
pub open spec fn first_mismatch<T>(
    pools: Seq<ThreadPoolConfig<T>>,
    system: PubSub<T>,
    value_type: u64,
    k: int,
    i: int,
) -> bool {
    &&& node_mismatch(pools, system, value_type, k, i)
    &&& forall|a: int, b: int|
        a < k || a == k && b < i ==> !#[trigger] node_mismatch(pools, system, value_type, a, b)
}

/// The first node with an input that listens to the execution-log channel for
/// another payload type.
fn find_mismatch<T>(
    pools: &Vec<ThreadPoolConfig<T>>,
    system: &PubSub<T>,
    value_type: u64,
) -> (r: Option<(usize, usize)>)
    requires
        crate::log_listeners::inputs_stand(pools@, *system),
    ensures
        r matches Some(at) ==> first_mismatch(
            pools@,
            *system,
            value_type,
            at.0 as int,
            at.1 as int,
        ),
        r is None ==> forall|k: int, i: int| !#[trigger]
            node_mismatch(pools@, *system, value_type, k, i),
{
    let own_log = EXECUTION_LOG_CHANNEL.to_owned();
    let mut k: usize = 0;
    while k < pools.len()
        invariant
            k <= pools@.len(),
            own_log@ == EXECUTION_LOG_CHANNEL@,
            crate::log_listeners::inputs_stand(pools@, *system),
            forall|a: int, b: int|
                a < k ==> !#[trigger] node_mismatch(pools@, *system, value_type, a, b),
        decreases pools@.len() - k,
    {
        let mut i: usize = 0;
        while i < pools[k].nodes.nodes.len()
            invariant
                k < pools@.len(),
                own_log@ == EXECUTION_LOG_CHANNEL@,
                crate::log_listeners::inputs_stand(pools@, *system),
                i <= pools@[k as int].nodes.nodes@.len(),
                forall|a: int, b: int|
                    a < k || a == k && b < i ==> !#[trigger] node_mismatch(
                        pools@,
                        *system,
                        value_type,
                        a,
                        b,
                    ),
            decreases pools@[k as int].nodes.nodes@.len() - i,
        {
            let ports = &pools[k].nodes.nodes[i].node.ports;
            assert(pools@[k as int].nodes.nodes@[i as int].node.ports == *ports);
            assert(system.subscribers.len() == system.subscribers@.len());
            let mut j: usize = 0;
            while j < ports.subscriber_count
                invariant
                    j <= ports.subscriber_count,
                    k < pools@.len(),
                    i < pools@[k as int].nodes.nodes@.len(),
                    *ports == pools@[k as int].nodes.nodes@[i as int].node.ports,
                    own_log@ == EXECUTION_LOG_CHANNEL@,
                    ports.first_subscriber + ports.subscriber_count <= system.subscribers@.len(),
                    system.subscribers@.len() <= usize::MAX,
                    forall|a: int, b: int|
                        a < k || a == k && b < i ==> !#[trigger] node_mismatch(
                            pools@,
                            *system,
                            value_type,
                            a,
                            b,
                        ),
                    forall|s: int|
                        ports.first_subscriber <= s < ports.first_subscriber + j
                            ==> !#[trigger] log_mismatch(*system, s, value_type),
                decreases ports.subscriber_count - j,
            {
                let s: usize = ports.first_subscriber + j;
                if system.subscribers[s].config.channel_name == own_log
                    && system.subscribers[s].value_type != value_type {
                    assert(log_mismatch(*system, s as int, value_type));
                    assert(crate::log_listeners::owner_at(pools@, k as int, i as int, s as int));
                    return Some((k, i));
                }
                j = j + 1;
            }
            i = i + 1;
        }
        k = k + 1;
    }
    None
}

/// An execution-log publisher that is connected to the subscribers in `order`
/// and whose slots are allocated, all of them free.
pub open spec fn log_ready<T>(
    publisher: Publisher<T>,
    subscribers: Seq<crate::subscriber::Subscriber>,
    order: Seq<usize>,
    value_type: u64,
) -> bool {
    &&& publisher.config.capacity == 1
    &&& publisher.config.channel_name@ == EXECUTION_LOG_CHANNEL@
    &&& publisher.value_type == value_type
    &&& publisher.loaned_values@.len() == 0
    &&& publisher.connections@ == crate::log_listeners::links(subscribers, order)
    &&& publisher.arena.slot_capacity == 1 + crate::log_listeners::slots_of(subscribers, order)
    &&& publisher.arena.storage@.len() == publisher.arena.slot_capacity
    &&& forall|i: int|
        0 <= i < publisher.arena.storage@.len() ==> (#[trigger]
        publisher.arena.storage@[i]).ref_count == 0
}

/// Whether the execution-log publishers with the numbers in `ids` are connected
/// to the subscribers of their channel as these are met, pool by pool and node
/// by node.
pub open spec fn logs_in_turn<T>(
    pools: Seq<ThreadPoolConfig<T>>,
    system: PubSub<T>,
    ids: Seq<usize>,
) -> bool {
    ids.len() > 0 ==> exists|order: Seq<usize>| #[trigger]
        crate::log_listeners::in_turn(order, pools) && crate::log_listeners::lists_all(
            order,
            system.subscribers@,
        ) && forall|i: int|
            0 <= i < ids.len() ==> system.publishers@[#[trigger] ids[i] as int].connections@
                == crate::log_listeners::links(system.subscribers@, order)
}

/// Connects each execution-log publisher to every subscriber on its channel, as
/// these are met pool by pool and node by node, then allocates its arena. A
/// publisher without a subscriber still has its arena allocated so it can loan
/// (and harmlessly discard) log messages. Returns the numbers of the publishers.
pub fn connect<T>(
    pools: &Vec<ThreadPoolConfig<T>>,
    log_pubs: Vec<Publisher<T>>,
    value_type: u64,
    system: &mut PubSub<T>,
) -> (r: Result<Vec<usize>, ExecutionLogConnectError>)
    requires
        old(system).wf(),
        crate::log_listeners::all_owned(pools@, *old(system)),
        crate::log_listeners::owned_once(pools@),
        crate::log_listeners::inputs_stand(pools@, *old(system)),
        forall|i: int| 0 <= i < log_pubs@.len() ==> is_log_publisher(
            #[trigger] log_pubs@[i],
            value_type,
        ),
        1 + 2 * crate::connect_graph::all_slots(
            old(system).subscribers@,
            old(system).subscribers@.len() as int,
        ) <= usize::MAX,
    ensures
        final(system).wf(),
        final(system).subscribers == old(system).subscribers,
        final(system).readiness == old(system).readiness,
        forall|q: int|
            0 <= q < old(system).publishers@.len() ==> #[trigger] final(system).publishers@[q]
                == old(system).publishers@[q],
        r is Err <==> log_pubs@.len() > 0 && exists|s: int| #[trigger]
            log_mismatch(*old(system), s, value_type),
        r is Err ==> *final(system) == *old(system),
        r matches Err(error) ==> error.channel_name@ == EXECUTION_LOG_CHANNEL@ && exists|
            k: int,
            i: int,
        | #[trigger]
            first_mismatch(pools@, *old(system), value_type, k, i) && error.subscriber_node@
                == pools@[k].nodes.nodes@[i].node.name@,
        r matches Ok(ids) ==> {
            &&& ids@.len() == log_pubs@.len()
            &&& final(system).publishers@.len() == old(system).publishers@.len() + ids@.len()
            &&& exists|order: Seq<usize>| #[trigger]
                crate::log_listeners::in_turn(order, pools@) && crate::log_listeners::lists_all(
                    order,
                    old(system).subscribers@,
                ) && forall|i: int|
                    0 <= i < ids@.len() ==> #[trigger] ids@[i] == old(system).publishers@.len() + i
                        && log_ready(
                        final(system).publishers@[ids@[i] as int],
                        old(system).subscribers@,
                        order,
                        value_type,
                    )
        },
{
    if log_pubs.len() > 0 {
        match find_mismatch(pools, system, value_type) {
            Some((k, i)) => {
                let subscriber_node = pools[k].nodes.nodes[i].node.name.clone();
                assert(first_mismatch(pools@, *system, value_type, k as int, i as int));
                return Err(
                    ExecutionLogConnectError {
                        channel_name: EXECUTION_LOG_CHANNEL.to_owned(),
                        subscriber_node,
                    },
                );
            },
            None => {},
        }
    }
    proof {
        if log_pubs@.len() > 0 {
            assert forall|s: int| !#[trigger] log_mismatch(*system, s, value_type) by {
                if log_mismatch(*system, s, value_type) {
                    assert(crate::log_listeners::owned(pools@, s));
                    let (k, i) = choose|k: int, i: int| #[trigger]
                        crate::log_listeners::owner_at(pools@, k, i, s);
                    assert(node_mismatch(pools@, *system, value_type, k, i));
                }
            }
        }
    }
    let ghost base = system.publishers@.len() as int;
    let ghost subs = system.subscribers@;
    let ghost all = log_pubs@;
    let order = list_listeners(pools, system);
    proof {
        if all.len() > 0 {
            assert forall|a: int| 0 <= a < order@.len() implies subs[#[trigger] order@[a] as int].value_type
                == value_type by {
                assert(crate::log_listeners::listens(subs, order@[a] as int));
                assert(!log_mismatch(*system, order@[a] as int, value_type));
            }
        }
    }
    let mut rest = log_pubs;
    let mut ids: Vec<usize> = Vec::new();
    assert(all.skip(0) =~= all);
    while rest.len() > 0
        invariant
            system.wf(),
            base == old(system).publishers@.len(),
            subs == old(system).subscribers@,
            all == log_pubs@,
            system.subscribers == old(system).subscribers,
            system.readiness == old(system).readiness,
            ids@.len() <= all.len(),
            rest@ == all.skip(ids@.len() as int),
            system.publishers@.len() == base + ids@.len(),
            forall|q: int|
                0 <= q < base ==> #[trigger] system.publishers@[q] == old(system).publishers@[q],
            forall|i: int|
                0 <= i < all.len() ==> is_log_publisher(#[trigger] all[i], value_type),
            1 + 2 * crate::connect_graph::all_slots(subs, subs.len() as int) <= usize::MAX,
            forall|i: int|
                0 <= i < ids@.len() ==> #[trigger] ids@[i] == base + i && log_ready(
                    system.publishers@[ids@[i] as int],
                    subs,
                    order@,
                    value_type,
                ),
            crate::log_listeners::lists_all(order@, subs),
            all.len() > 0 ==> forall|a: int|
                0 <= a < order@.len() ==> subs[#[trigger] order@[a] as int].value_type
                    == value_type,
        decreases rest@.len(),
    {
        let publisher = rest.remove(0);
        assert(publisher == all[ids@.len() as int]);
        let ghost before = *system;
        let id: usize = system.add_publisher(publisher);
        let ghost added = *system;
        assert(system.publishers@[id as int] == publisher);
        connect_listeners(system, id, &order);
        let ghost linked_up = *system;
        system.allocate_arena(id);
        ids.push(id);
        proof {
            assert(rest@ =~= all.skip(ids@.len() as int));
            assert forall|q: int| 0 <= q < base implies #[trigger] system.publishers@[q] == old(
                system,
            ).publishers@[q] by {
                assert(added.publishers@[q] == before.publishers@[q]);
                assert(linked_up.publishers@[q] == added.publishers@[q]);
            }
            assert forall|i: int| 0 <= i < ids@.len() implies #[trigger] ids@[i] == base + i
                && log_ready(system.publishers@[ids@[i] as int], subs, order@, value_type) by {
                if i < ids@.len() - 1 {
                    assert(added.publishers@[base + i] == before.publishers@[base + i]);
                    assert(linked_up.publishers@[base + i] == added.publishers@[base + i]);
                }
            }
        }
    }
    assert(crate::log_listeners::in_turn(order@, pools@));
    Ok(ids)
}

/// The capacities of the first `n` inputs together.
pub open spec fn capacity_total(ports: Seq<crate::callback::SubscriberPort>, n: int) -> int
    decreases n,
{
    if n <= 0 {
        0
    } else {
        capacity_total(ports, n - 1) + ports[n - 1].config.capacity
    }
}

proof fn lemma_capacity_total(ports: Seq<crate::callback::SubscriberPort>, k: int, n: int)
    requires
        0 <= k <= n <= ports.len(),
    ensures
        0 <= capacity_total(ports, k) <= capacity_total(ports, n),
    decreases n,
{
    if k < n {
        lemma_capacity_total(ports, k, n - 1);
    } else if k > 0 {
        lemma_capacity_total(ports, k - 1, k - 1);
    }
}

/// Largest possible input this node could hand a single execution: the sum of
/// its inputs' read-buffer capacities.
pub fn worst_case_received_count<T>(node: &CallbackNode<T>) -> (r: usize)
    requires
        capacity_total(node.subscribers@, node.subscribers@.len() as int) <= usize::MAX,
    ensures
        r == capacity_total(node.subscribers@, node.subscribers@.len() as int),
{
    let mut sum: usize = 0;
    let mut i: usize = 0;
    while i < node.subscribers.len()
        invariant
            i <= node.subscribers@.len(),
            sum == capacity_total(node.subscribers@, i as int),
            capacity_total(node.subscribers@, node.subscribers@.len() as int) <= usize::MAX,
        decreases node.subscribers@.len() - i,
    {
        proof {
            lemma_capacity_total(node.subscribers@, i + 1, node.subscribers@.len() as int);
        }
        sum = sum + node.subscribers[i].config.capacity;
        i = i + 1;
    }
    sum
}

} // verus!
