//! Storage for the callback nodes of an executor.
use vstd::prelude::*;

use crate::callback::{CallbackNode, Run};
use crate::context::Context;
use crate::pub_sub::PubSub;
use crate::scheduling::CallbackNodeId;
use crate::time::{AtomicFrameworkTime, FrameworkTime};

verus! {

/// The scheduling state of a [`SharedCallbackNode`]:
///
/// ```text
///            trigger                worker dequeues
///  Idle ---------------> Enqueued -----------------> Running
///   ^                        ^                          | |
///   |                        | worker done, a trigger   | | trigger
///   |                        | arrived mid-run          | v
///   |                        +----------------- RunningTriggered
///   +---------------------------------------------------+
///                        worker done
/// ```
///
/// A node's index is in its pool's work channel exactly while it is
/// `Enqueued`, which is what deduplicates triggers.
#[derive(Debug, Clone, Copy, PartialEq, Eq, Structural)]
pub enum RunState {
    /// Not enqueued and not running.
    Idle,
    /// The node's index is in its pool's work channel (or about to be).
    Enqueued,
    /// A worker is currently executing the node.
    Running,
    /// Running, and a trigger arrived mid-run: re-enqueue when it finishes.
    RunningTriggered,
}

impl RunState {
    /// The state that a stored byte stands for.
    pub fn from_u8(value: u8) -> (r: Self)
        requires
            value <= 3,
        ensures
            value == 0 ==> r is Idle,
            value == 1 ==> r is Enqueued,
            value == 2 ==> r is Running,
            value == 3 ==> r is RunningTriggered,
    {
        if value == 0 {
            RunState::Idle
        } else if value == 1 {
            RunState::Enqueued
        } else if value == 2 {
            RunState::Running
        } else {
            RunState::RunningTriggered
        }
    }

    /// Whether a worker holds the node.
    pub open spec fn held(self) -> bool {
        self is Running || self is RunningTriggered
    }

    /// The state after a trigger.
    pub open spec fn triggered(self) -> RunState {
        match self {
            RunState::Idle => RunState::Enqueued,
            RunState::Enqueued => RunState::Enqueued,
            RunState::Running => RunState::RunningTriggered,
            RunState::RunningTriggered => RunState::RunningTriggered,
        }
    }

    /// The state after the worker is done.
    pub open spec fn released(self) -> RunState {
        match self {
            RunState::RunningTriggered => RunState::Enqueued,
            _ => RunState::Idle,
        }
    }
}

/// A callback node with its scheduling state. Exclusive access to the node is
/// governed by that state: only who moves it into `Running` may run it, until
/// the state is moved back out.
///
/// `next_exec_time` is a snapshot of the node's next requested execution time,
/// refreshed after each run.
#[verifier::reject_recursive_types(T)]
pub struct SharedCallbackNode<T> {
    pub run_state: RunState,
    pub next_exec_time: AtomicFrameworkTime,
    pub node: CallbackNode<T>,
}

/// The next execution time that a stored reading stands for: the invalid time
/// is none at all.
pub open spec fn snapshot_of(time: FrameworkTime) -> Option<FrameworkTime> {
    if time.nanoseconds == i64::MIN {
        None
    } else {
        Some(time)
    }
}

impl<T> SharedCallbackNode<T> {
    pub fn new(node: CallbackNode<T>) -> (r: Self)
        ensures
            r.run_state is Idle,
            snapshot_of(r.next_exec_time.time) is None,
            r.node == node,
    {
        SharedCallbackNode {
            run_state: RunState::Idle,
            next_exec_time: AtomicFrameworkTime::new(FrameworkTime::invalid()),
            node,
        }
    }

    /// Request an execution of this node. Returns `true` on the way from
    /// `Idle` to `Enqueued`: the caller must then send the node's index to its
    /// pool's work channel. Returns `false` if the node is enqueued already
    /// (deduplicated) or currently running (the re-run happens when the
    /// current run ends).
    pub fn trigger(&mut self) -> (r: bool)
        ensures
            final(self).run_state == old(self).run_state.triggered(),
            r == (old(self).run_state is Idle),
            final(self).next_exec_time == old(self).next_exec_time,
            final(self).node == old(self).node,
    {
        match self.run_state {
            RunState::Idle => {
                self.run_state = RunState::Enqueued;
                true
            },
            RunState::Running => {
                self.run_state = RunState::RunningTriggered;
                false
            },
            RunState::Enqueued => false,
            RunState::RunningTriggered => false,
        }
    }

    /// Claim the node for execution, from `Enqueued` or, for direct runs, from
    /// `Idle`. A node that is already running must not be claimed.
    pub fn acquire_running(&mut self)
        requires
            !old(self).run_state.held(),
        ensures
            final(self).run_state is Running,
            final(self).next_exec_time == old(self).next_exec_time,
            final(self).node == old(self).node,
    {
        self.run_state = RunState::Running;
    }

    /// Release the node after a run. Returns `true` if a trigger arrived
    /// mid-run: the caller must send the node's index back to its pool's work
    /// channel.
    pub fn release_running(&mut self) -> (r: bool)
        requires
            old(self).run_state.held(),
        ensures
            final(self).run_state == old(self).run_state.released(),
            r == (old(self).run_state is RunningTriggered),
            final(self).next_exec_time == old(self).next_exec_time,
            final(self).node == old(self).node,
    {
        match self.run_state {
            RunState::RunningTriggered => {
                self.run_state = RunState::Enqueued;
                true
            },
            _ => {
                self.run_state = RunState::Idle;
                false
            },
        }
    }

    /// Whether a worker currently holds the node.
    pub fn is_running(&self) -> (r: bool)
        ensures
            r == self.run_state.held(),
    {
        match self.run_state {
            RunState::Running => true,
            RunState::RunningTriggered => true,
            _ => false,
        }
    }

    /// Read the next-execution-time snapshot (`None` = not periodic).
    pub fn next_exec_time(&self) -> (r: Option<FrameworkTime>)
        ensures
            r == snapshot_of(self.next_exec_time.time),
    {
        let time = self.next_exec_time.time;
        if time == FrameworkTime::invalid() {
            None
        } else {
            Some(time)
        }
    }

    /// Overwrite the next-execution-time snapshot.
    pub fn set_next_exec_time(&mut self, time: Option<FrameworkTime>)
        ensures
            final(self).run_state == old(self).run_state,
            final(self).node == old(self).node,
            time matches Some(t) ==> final(self).next_exec_time.time == t,
            time is None ==> snapshot_of(final(self).next_exec_time.time) is None,
    {
        self.next_exec_time.time =
        match time {
            Some(t) => t,
            None => FrameworkTime::invalid(),
        };
    }

    /// Recompute and store the next-execution-time snapshot. Only valid while
    /// the caller holds the node.
    pub fn refresh_next_exec_time(&mut self, now: FrameworkTime)
        requires
            old(self).run_state.held(),
        ensures
            final(self).run_state == old(self).run_state,
            final(self).node == old(self).node,
            refreshed(*old(self), *final(self), now),
    {
        let next = self.node.next_requested_execution_time(now);
        self.set_next_exec_time(next);
        proof {
            match next {
                Some(t) => {
                    assert(self.node.asks(self.node.callback.inner.memory(), now, Some(t)));
                },
                None => {
                    assert(self.node.asks(self.node.callback.inner.memory(), now, None));
                },
            }
        }
    }

    /// Claim the node, run its callback, refresh the next-execution-time
    /// snapshot, and release. The second result says whether a trigger arrived
    /// mid-run; the caller must then send the node's index back to its pool's
    /// work channel.
    pub fn execute(&mut self, now: FrameworkTime, system: &mut PubSub<T>, ctx: &Context) -> (r: (
        Run,
        bool,
    ))
        requires
            !old(self).run_state.held(),
            old(system).wf(),
            old(self).node.placed_in(*old(system)),
        ensures
            final(self).run_state is Idle,
            !r.1,
            final(system).wf(),
            old(self).node.ports.ran_within(*old(system), *final(system)),
            old(self).node.callback.inner.runs(
                old(self).node.callback.inner.memory(),
                old(self).node.ports,
                ctx.now,
                *old(system),
                *final(system),
                r.0,
                final(self).node.callback.inner.memory(),
            ),
            crate::callback::behaves_alike(final(self).node.callback, old(self).node.callback),
            final(self).node == (CallbackNode {
                callback: final(self).node.callback,
                ..old(self).node
            }),
            refreshed(*final(self), *final(self), now),
    {
        self.acquire_running();
        let run = self.node.run(system, ctx);
        let ghost held = *self;
        self.refresh_next_exec_time(now);
        assert(refreshed(held, *self, now));
        let reenqueue = self.release_running();
        (run, reenqueue)
    }

    /// Moves the node from `Idle` to `Running`. Returns `false`, changing
    /// nothing, if the node is running or enqueued: an enqueued node's index
    /// is in a work channel, and claiming the node would let a later trigger
    /// queue a duplicate index.
    pub fn try_claim_idle(&mut self) -> (r: bool)
        ensures
            r == (old(self).run_state is Idle),
            final(self).run_state == if r {
                RunState::Running
            } else {
                old(self).run_state
            },
            final(self).next_exec_time == old(self).next_exec_time,
            final(self).node == old(self).node,
    {
        match self.run_state {
            RunState::Idle => {
                self.run_state = RunState::Running;
                true
            },
            _ => false,
        }
    }

    /// The node itself, for coordinating threads at setup and teardown. Only
    /// valid on an idle node (not running, not enqueued).
    pub fn access(&mut self) -> (r: &mut CallbackNode<T>)
        requires
            old(self).run_state is Idle,
        ensures
            *r == old(self).node,
            final(self).node == *final(r),
            final(self).run_state is Idle,
            final(self).next_exec_time == old(self).next_exec_time,
    {
        &mut self.node
    }

    /// The node itself, unless it is not idle. Cleanup and diagnostics paths
    /// use this to skip busy nodes.
    pub fn try_access(&self) -> (r: Option<&CallbackNode<T>>)
        ensures
            r is Some <==> self.run_state is Idle,
            r matches Some(node) ==> *node == self.node,
    {
        match self.run_state {
            RunState::Idle => Some(&self.node),
            _ => None,
        }
    }
}

/// Whether the snapshot of `after` is an answer that the node gives for `now`.
pub open spec fn refreshed<T>(
    before: SharedCallbackNode<T>,
    after: SharedCallbackNode<T>,
    now: FrameworkTime,
) -> bool {
    exists|next: Option<FrameworkTime>| #[trigger]
        before.node.asks(before.node.callback.inner.memory(), now, next) && (next matches Some(t)
            ==> after.next_exec_time.time == t) && (next is None ==> snapshot_of(
            after.next_exec_time.time,
        ) is None)
}

/// A node is enqueued once, however many triggers arrive before it runs.
pub proof fn law_triggers_are_deduplicated(state: RunState)
    ensures
        state.triggered().triggered() == state.triggered(),
        !(state.triggered() is Idle),
{
}

/// A trigger that arrives during a run is not lost: when the run ends, the
/// node is enqueued. Without one the node is idle again.
pub proof fn law_mid_run_trigger_runs_again()
    ensures
        RunState::Running.triggered().released() is Enqueued,
        RunState::Running.released() is Idle,
{
}

/// One authoritative collection of [`SharedCallbackNode`]s backing an
/// executor.
#[verifier::reject_recursive_types(T)]
pub struct CallbackStorage<T> {
    pub nodes: Vec<SharedCallbackNode<T>>,
}

/// A worker's view of a [`CallbackStorage`]: the identities of its nodes.
#[derive(Debug)]
pub struct WorkerNodes(pub Vec<CallbackNodeId>);

impl<T> CallbackStorage<T> {
    pub fn new() -> (r: Self)
        ensures
            r.nodes@.len() == 0,
    {
        CallbackStorage { nodes: Vec::new() }
    }

    pub fn with_capacity(capacity: usize) -> (r: Self)
        ensures
            r.nodes@.len() == 0,
    {
        CallbackStorage { nodes: Vec::with_capacity(capacity) }
    }

    /// Whether the storage holds exactly these nodes, in order, all idle.
    pub open spec fn holds(&self, nodes: Seq<CallbackNode<T>>) -> bool {
        &&& self.nodes@.len() == nodes.len()
        &&& forall|i: int|
            0 <= i < nodes.len() ==> (#[trigger] self.nodes@[i]).node == nodes[i]
                && self.nodes@[i].run_state is Idle && snapshot_of(
                self.nodes@[i].next_exec_time.time,
            ) is None
    }

    /// Wrap plain callback nodes (as produced by graph building) into storage.
    pub fn from_nodes(nodes: Vec<CallbackNode<T>>) -> (r: Self)
        ensures
            r.holds(nodes@),
    {
        let mut storage: CallbackStorage<T> = CallbackStorage::with_capacity(nodes.len());
        let mut rest = nodes;
        let ghost all = nodes@;
        let ghost mut done: int = 0;
        assert(all.skip(0) =~= all);
        while rest.len() > 0
            invariant
                all == nodes@,
                0 <= done <= all.len(),
                rest@ == all.skip(done),
                storage.nodes@.len() == done,
                forall|i: int|
                    0 <= i < done ==> (#[trigger] storage.nodes@[i]).node == all[i]
                        && storage.nodes@[i].run_state is Idle && snapshot_of(
                        storage.nodes@[i].next_exec_time.time,
                    ) is None,
            decreases rest@.len(),
        {
            let node = rest.remove(0);
            assert(node == all[done]);
            let ghost before = storage.nodes@;
            let _ = storage.push(node);
            proof {
                assert forall|i: int| 0 <= i < done implies #[trigger] storage.nodes@[i]
                    == before[i] by {
                    assert(storage.nodes@.drop_last()[i] == before[i]);
                }
                done = done + 1;
                assert(rest@ =~= all.skip(done));
            }
        }
        storage
    }

    /// Take ownership of shared nodes directly. Used when several pool
    /// storages are flattened into one authoritative collection.
    pub fn from_shared(nodes: Vec<SharedCallbackNode<T>>) -> (r: Self)
        ensures
            r.nodes == nodes,
    {
        CallbackStorage { nodes }
    }

    pub fn push(&mut self, node: CallbackNode<T>) -> (id: CallbackNodeId)
        ensures
            id.0 == old(self).nodes@.len(),
            final(self).nodes@.len() == old(self).nodes@.len() + 1,
            final(self).nodes@.drop_last() == old(self).nodes@,
            final(self).nodes@.last().node == node,
            final(self).nodes@.last().run_state is Idle,
            snapshot_of(final(self).nodes@.last().next_exec_time.time) is None,
    {
        let index: usize = self.nodes.len();
        self.nodes.push(SharedCallbackNode::new(node));
        assert(self.nodes@.drop_last() =~= old(self).nodes@);
        CallbackNodeId(index)
    }

    pub fn len(&self) -> (r: usize)
        ensures
            r == self.nodes@.len(),
    {
        self.nodes.len()
    }

    pub fn is_empty(&self) -> (r: bool)
        ensures
            r == (self.nodes@.len() == 0),
    {
        self.nodes.len() == 0
    }

    /// The shared nodes themselves, in order.
    pub fn iter_shared(&self) -> (r: &Vec<SharedCallbackNode<T>>)
        ensures
            *r == self.nodes,
    {
        &self.nodes
    }

    pub fn as_shared_slice(&self) -> (r: &[SharedCallbackNode<T>])
        ensures
            r@ == self.nodes@,
    {
        self.nodes.as_slice()
    }

    pub fn get(&self, id: CallbackNodeId) -> (r: Option<&SharedCallbackNode<T>>)
        ensures
            r is Some <==> id.0 < self.nodes@.len(),
            r matches Some(node) ==> *node == self.nodes@[id.0 as int],
    {
        if id.0 < self.nodes.len() {
            Some(&self.nodes[id.0])
        } else {
            None
        }
    }

    /// Whether node `i` is idle and called `name`.
    pub open spec fn idle_named(&self, i: int, name: Seq<char>) -> bool {
        self.nodes@[i].run_state is Idle && self.nodes@[i].node.name@ == name
    }

    /// The first idle node called `name`.
    pub fn get_by_name(&self, name: &str) -> (r: Option<&SharedCallbackNode<T>>)
        ensures
            r is None <==> forall|i: int|
                0 <= i < self.nodes@.len() ==> !#[trigger] self.idle_named(i, name@),
            r matches Some(node) ==> exists|i: int|
                0 <= i < self.nodes@.len() && #[trigger] self.idle_named(i, name@) && *node
                    == self.nodes@[i] && (forall|j: int|
                    0 <= j < i ==> !#[trigger] self.idle_named(j, name@)),
    {
        match self.node_id_by_name(name) {
            Some(id) => {
                assert(self.idle_named(id.0 as int, name@));
                Some(&self.nodes[id.0])
            },
            None => None,
        }
    }

    /// The identity of the first idle node called `name`.
    pub fn node_id_by_name(&self, name: &str) -> (r: Option<CallbackNodeId>)
        ensures
            r is None <==> forall|i: int|
                0 <= i < self.nodes@.len() ==> !#[trigger] self.idle_named(i, name@),
            r matches Some(id) ==> id.0 < self.nodes@.len() && self.idle_named(id.0 as int, name@)
                && (forall|j: int| 0 <= j < id.0 ==> !#[trigger] self.idle_named(j, name@)),
    {
        let wanted: String = name.to_owned();
        let mut i: usize = 0;
        while i < self.nodes.len()
            invariant
                i <= self.nodes@.len(),
                wanted@ == name@,
                forall|j: int| 0 <= j < i ==> !#[trigger] self.idle_named(j, name@),
            decreases self.nodes@.len() - i,
        {
            match self.nodes[i].try_access() {
                Some(node) => {
                    if node.name == wanted {
                        assert(self.idle_named(i as int, name@));
                        return Some(CallbackNodeId(i));
                    }
                },
                None => {},
            }
            i = i + 1;
        }
        None
    }

    /// Hand a worker its own list of the nodes.
    pub fn clone_shared(&self) -> (r: WorkerNodes)
        ensures
            r.0@.len() == self.nodes@.len(),
            forall|i: int| 0 <= i < r.0@.len() ==> (#[trigger] r.0@[i]).0 == i,
    {
        let mut ids: Vec<CallbackNodeId> = Vec::new();
        let mut i: usize = 0;
        while i < self.nodes.len()
            invariant
                i <= self.nodes@.len(),
                ids@.len() == i,
                forall|j: int| 0 <= j < i ==> (#[trigger] ids@[j]).0 == j,
            decreases self.nodes@.len() - i,
        {
            ids.push(CallbackNodeId(i));
            i = i + 1;
        }
        WorkerNodes(ids)
    }

    /// Extract the underlying shared nodes.
    pub fn into_nodes(self) -> (r: Vec<SharedCallbackNode<T>>)
        ensures
            r == self.nodes,
    {
        self.nodes
    }

    /// Whether each node's ports stand in `system`.
    pub open spec fn placed_in(&self, system: PubSub<T>) -> bool {
        forall|i: int|
            0 <= i < self.nodes@.len() ==> (#[trigger] self.nodes@[i]).node.placed_in(system)
    }

    /// Whether one of the first `k` nodes is idle and owns subscriber `s`.
    pub open spec fn idle_owner(&self, k: int, s: int) -> bool {
        exists|i: int|
            0 <= i < k && (#[trigger] self.nodes@[i]).run_state is Idle
                && self.nodes@[i].node.ports.owns_subscriber(s)
    }

    /// Clear every idle node's input buffers. Nodes that are not idle are
    /// skipped. Clearing an already-clear buffer is a no-op.
    pub fn cleanup_subscribers(&self, system: &mut PubSub<T>)
        requires
            old(system).wf(),
            self.placed_in(*old(system)),
        ensures
            final(system).wf(),
            self.placed_in(*final(system)),
            final(system).readiness == old(system).readiness,
            final(system).same_publishers(*old(system)),
            final(system).keeps_messages_of(*old(system)),
            final(system).subscribers@.len() == old(system).subscribers@.len(),
            forall|s: int|
                0 <= s < old(system).subscribers@.len() ==> if self.idle_owner(
                    self.nodes@.len() as int,
                    s,
                ) {
                    emptied(#[trigger] final(system).subscribers@[s], old(system).subscribers@[s])
                } else {
                    final(system).subscribers@[s] == old(system).subscribers@[s]
                },
    {
        let mut i: usize = 0;
        while i < self.nodes.len()
            invariant
                i <= self.nodes@.len(),
                system.wf(),
                self.placed_in(*system),
                system.readiness == old(system).readiness,
                system.same_publishers(*old(system)),
                system.keeps_messages_of(*old(system)),
                system.subscribers@.len() == old(system).subscribers@.len(),
                forall|s: int|
                    0 <= s < old(system).subscribers@.len() ==> if self.idle_owner(i as int, s) {
                        emptied(#[trigger] system.subscribers@[s], old(system).subscribers@[s])
                    } else {
                        system.subscribers@[s] == old(system).subscribers@[s]
                    },
            decreases self.nodes@.len() - i,
        {
            let ghost before = *system;
            assert(self.nodes@[i as int].node.placed_in(*system));
            match self.nodes[i].try_access() {
                Some(node) => {
                    clear_inputs(system, &node.ports);
                },
                None => {},
            }
            proof {
                assert forall|y: (usize, u64)| #[trigger] system.live(y) implies old(system).live(y)
                    && system.entry(y) == old(system).entry(y) by {
                    assert(before.live(y));
                }
                assert forall|s: int| 0 <= s < old(system).subscribers@.len() implies if self.idle_owner(
                    i + 1,
                    s,
                ) {
                    emptied(#[trigger] system.subscribers@[s], old(system).subscribers@[s])
                } else {
                    system.subscribers@[s] == old(system).subscribers@[s]
                } by {
                    self.lemma_idle_owner_step(i as int, s);
                    assert(if self.idle_owner(i as int, s) {
                        emptied(before.subscribers@[s], old(system).subscribers@[s])
                    } else {
                        before.subscribers@[s] == old(system).subscribers@[s]
                    });
                }
                assert forall|j: int| 0 <= j < self.nodes@.len() implies (#[trigger]
                self.nodes@[j]).node.placed_in(*system) by {
                    assert(self.nodes@[j].node.placed_in(before));
                }
            }
            i = i + 1;
        }
    }

    proof fn lemma_idle_owner_step(&self, k: int, s: int)
        requires
            0 <= k < self.nodes@.len(),
        ensures
            self.idle_owner(k + 1, s) <==> self.idle_owner(k, s) || (self.nodes@[k].run_state is Idle
                && self.nodes@[k].node.ports.owns_subscriber(s)),
    {
        if self.idle_owner(k, s) {
            let i = choose|i: int|
                0 <= i < k && (#[trigger] self.nodes@[i]).run_state is Idle
                    && self.nodes@[i].node.ports.owns_subscriber(s);
            assert(self.nodes@[i].run_state is Idle);
        }
        if self.nodes@[k].run_state is Idle && self.nodes@[k].node.ports.owns_subscriber(s) {
            assert(self.idle_owner(k + 1, s));
        }
    }
}

/// Whether `after` is `before` with its buffers cleared.
pub open spec fn emptied(
    after: crate::subscriber::Subscriber,
    before: crate::subscriber::Subscriber,
) -> bool {
    &&& after.config == before.config
    &&& after.value_type == before.value_type
    &&& after.readiness_state == before.readiness_state
    &&& after.buffers.pending().len() == 0
    &&& after.buffers.readable().len() == 0
    &&& after.buffers.write_queue.drops() == before.buffers.write_queue.drops()
    &&& after.buffers.read_buffer.drops == before.buffers.read_buffer.drops
}

/// Clears the buffers of a node's inputs.
fn clear_inputs<T>(system: &mut PubSub<T>, ports: &crate::callback::NodePorts)
    requires
        old(system).wf(),
        ports.within(*old(system)),
    ensures
        final(system).wf(),
        final(system).readiness == old(system).readiness,
        final(system).same_publishers(*old(system)),
        final(system).keeps_messages_of(*old(system)),
        final(system).subscribers@.len() == old(system).subscribers@.len(),
        forall|s: int|
            0 <= s < old(system).subscribers@.len() ==> if ports.owns_subscriber(s) {
                emptied(#[trigger] final(system).subscribers@[s], old(system).subscribers@[s])
            } else {
                final(system).subscribers@[s] == old(system).subscribers@[s]
            },
{
    let mut i: usize = 0;
    while i < ports.subscriber_count
        invariant
            i <= ports.subscriber_count,
            system.wf(),
            ports.within(*system),
            system.readiness == old(system).readiness,
            system.same_publishers(*old(system)),
            system.keeps_messages_of(*old(system)),
            system.subscribers@.len() == old(system).subscribers@.len(),
            forall|s: int|
                0 <= s < old(system).subscribers@.len() ==> if ports.first_subscriber <= s
                    < ports.first_subscriber + i {
                    emptied(#[trigger] system.subscribers@[s], old(system).subscribers@[s])
                } else {
                    system.subscribers@[s] == old(system).subscribers@[s]
                },
        decreases ports.subscriber_count - i,
    {
        let ghost before = *system;
        assert(system.subscribers.len() == system.subscribers@.len());
        system.cleanup_buffers(ports.first_subscriber + i);
        proof {
            assert forall|y: (usize, u64)| #[trigger] system.live(y) implies old(system).live(y)
                && system.entry(y) == old(system).entry(y) by {
                assert(before.live(y));
            }
        }
        i = i + 1;
    }
}

impl<T> Default for CallbackStorage<T> {
    fn default() -> (r: Self)
        ensures
            r.nodes@.len() == 0,
    {
        CallbackStorage::new()
    }
}

} // verus!
