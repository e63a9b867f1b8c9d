//! What a node's ports do together: asking for a run, draining before it and
//! flushing after it.
use vstd::prelude::*;

use crate::callback::{CallbackNode, NodePorts, PublisherPort, SubscriberPort};
use crate::generic_subscriber::GenericSubscriber;
use crate::message::MessageHeader;
use crate::pub_sub::{FlushView, PubSub};
use crate::readiness::CallbackNodeReadiness;
use crate::scheduling::CallbackNodeId;
use crate::time::FrameworkTime;

verus! {

impl NodePorts {
    /// Some input asks for a run.
    pub open spec fn any_asks<T>(self, system: PubSub<T>) -> bool {
        exists|s: int| self.owns_subscriber(s) && (#[trigger] system.subscribers@[s]).asks_to_run()
    }

    /// Every input allows a run.
    pub open spec fn all_can_run<T>(self, system: PubSub<T>) -> bool {
        forall|s: int|
            self.owns_subscriber(s) ==> (#[trigger] system.subscribers@[s]).can_run()
    }

    /// Every required input will have a value after a drain.
    pub open spec fn required_ready<T>(self, system: PubSub<T>) -> bool {
        forall|s: int|
            self.owns_subscriber(s) ==> (#[trigger] system.subscribers@[s]).config.is_optional
                || system.subscribers@[s].held().len() > 0
    }

    /// The readiness after draining the first `k` of the node's inputs.
    pub open spec fn drained_masks<T>(
        self,
        readiness: Seq<CallbackNodeReadiness>,
        after: PubSub<T>,
        k: nat,
    ) -> Seq<CallbackNodeReadiness>
        decreases k,
    {
        if k == 0 {
            readiness
        } else {
            crate::pub_sub_io::drained_readiness(
                self.drained_masks(readiness, after, (k - 1) as nat),
                after.subscribers@[self.first_subscriber + k - 1],
            )
        }
    }

    /// What flushing the node's outputs from the `k`-th on changes.
    pub open spec fn flushed_from<T>(self, view: FlushView, before: PubSub<T>, k: int) -> FlushView
        decreases self.publisher_count - k,
    {
        if k >= self.publisher_count {
            view
        } else {
            let p = self.first_publisher + k;
            self.flushed_from(
                crate::pub_sub::flushed(
                    view,
                    before.publishers@[p].connections@,
                    p,
                    before.publishers@[p].loaned_values@,
                ),
                before,
                k + 1,
            )
        }
    }

    /// What `r` refers to after the first `k` of the node's outputs were
    /// flushed.
    pub open spec fn stamped_up_to<T>(
        self,
        before: PubSub<T>,
        k: int,
        timestamp: FrameworkTime,
        r: (usize, u64),
    ) -> crate::publisher::Entry<T> {
        if self.first_publisher <= r.0 < self.first_publisher + k && crate::pub_sub::is_sent(
            r.0 as int,
            before.publishers@[r.0 as int].loaned_values@,
            r,
        ) {
            crate::pub_sub::stamped(before.entry(r), timestamp)
        } else {
            before.entry(r)
        }
    }

    /// Whether any input asks for a run.
    pub fn subscribers_request_execution<T>(&self, system: &PubSub<T>) -> (r: bool)
        requires
            self.within(*system),
        ensures
            r == self.any_asks(*system),
    {
        let mut i: usize = 0;
        while i < self.subscriber_count
            invariant
                i <= self.subscriber_count,
                self.within(*system),
                forall|s: int|
                    self.first_subscriber <= s < self.first_subscriber + i ==> !(#[trigger]
                    system.subscribers@[s]).asks_to_run(),
            decreases self.subscriber_count - i,
        {
            assert(system.subscribers.len() == system.subscribers@.len());
            let s: usize = self.first_subscriber + i;
            if system.subscribers[s].requests_execution() {
                assert(self.owns_subscriber(s as int));
                return true;
            }
            i = i + 1;
        }
        false
    }

    /// Whether every input allows a run.
    pub fn able_to_run<T>(&self, system: &PubSub<T>) -> (r: bool)
        requires
            self.within(*system),
        ensures
            r == self.all_can_run(*system),
    {
        let mut i: usize = 0;
        while i < self.subscriber_count
            invariant
                i <= self.subscriber_count,
                self.within(*system),
                forall|s: int|
                    self.first_subscriber <= s < self.first_subscriber + i ==> (#[trigger]
                    system.subscribers@[s]).can_run(),
            decreases self.subscriber_count - i,
        {
            assert(system.subscribers.len() == system.subscribers@.len());
            let s: usize = self.first_subscriber + i;
            if !system.subscribers[s].able_to_run() {
                assert(self.owns_subscriber(s as int));
                return false;
            }
            i = i + 1;
        }
        true
    }

    /// Whether every required input will have a value after a drain.
    pub fn required_inputs_ready<T>(&self, system: &PubSub<T>) -> (r: bool)
        requires
            self.within(*system),
        ensures
            r == self.required_ready(*system),
    {
        let mut i: usize = 0;
        while i < self.subscriber_count
            invariant
                i <= self.subscriber_count,
                self.within(*system),
                forall|s: int|
                    self.first_subscriber <= s < self.first_subscriber + i ==> (#[trigger]
                    system.subscribers@[s]).config.is_optional
                        || system.subscribers@[s].held().len() > 0,
            decreases self.subscriber_count - i,
        {
            assert(system.subscribers.len() == system.subscribers@.len());
            let s: usize = self.first_subscriber + i;
            if !system.subscribers[s].config.is_optional
                && !system.subscribers[s].has_data_available() {
                assert(self.owns_subscriber(s as int));
                assert(system.subscribers@[s as int].held().len() == 0);
                return false;
            }
            i = i + 1;
        }
        true
    }

    /// What draining does to one of the node's inputs.
    pub open spec fn drained_input(
        before: crate::subscriber::Subscriber,
        after: crate::subscriber::Subscriber,
    ) -> bool {
        &&& after.config == before.config
        &&& after.value_type == before.value_type
        &&& after.readiness_state == before.readiness_state
        &&& after.buffers.pending().len() == 0
        &&& after.buffers.readable() == crate::mpsc_queue::newest(
            before.buffers.readable() + before.buffers.pending(),
            before.config.capacity as nat,
        )
        &&& after.buffers.write_queue.drops() == before.buffers.write_queue.drops()
        &&& after.buffers.read_buffer.drops == crate::double_buffer::counted_up(
            before.buffers.read_buffer.drops,
            crate::mpsc_queue::overflow(
                before.buffers.readable() + before.buffers.pending(),
                before.config.capacity as nat,
            ).len(),
        )
    }

    /// What draining the node's inputs changes.
    pub open spec fn drains<T>(self, before: PubSub<T>, after: PubSub<T>) -> bool {
        &&& after.same_publishers(before)
        &&& after.keeps_messages_of(before)
        &&& after.subscribers@.len() == before.subscribers@.len()
        &&& after.readiness@.len() == before.readiness@.len()
        &&& forall|s: int|
            0 <= s < before.subscribers@.len() ==> if self.owns_subscriber(s) {
                Self::drained_input(before.subscribers@[s], #[trigger] after.subscribers@[s])
            } else {
                after.subscribers@[s] == before.subscribers@[s]
            }
        &&& after.readiness@ == self.drained_masks(
            before.readiness@,
            after,
            self.subscriber_count as nat,
        )
    }

    /// Moves what arrived for the node's inputs into their read buffers.
    pub fn drain_subscribers<T>(&self, system: &mut PubSub<T>)
        requires
            old(system).wf(),
            self.within(*old(system)),
        ensures
            final(system).wf(),
            self.within(*final(system)),
            self.drains(*old(system), *final(system)),
    {
        let mut i: usize = 0;
        while i < self.subscriber_count
            invariant
                i <= self.subscriber_count,
                system.wf(),
                self.within(*system),
                system.same_publishers(*old(system)),
                system.keeps_messages_of(*old(system)),
                system.subscribers@.len() == old(system).subscribers@.len(),
                system.readiness@.len() == old(system).readiness@.len(),
                forall|s: int|
                    0 <= s < old(system).subscribers@.len() ==> if self.first_subscriber <= s
                        < self.first_subscriber + i {
                        Self::drained_input(
                            old(system).subscribers@[s],
                            #[trigger] system.subscribers@[s],
                        )
                    } else {
                        system.subscribers@[s] == old(system).subscribers@[s]
                    },
                system.readiness@ == self.drained_masks(old(system).readiness@, *system, i as nat),
            decreases self.subscriber_count - i,
        {
            let ghost before = *system;
            assert(system.subscribers.len() == system.subscribers@.len());
            system.drain_writer_to_reader(self.first_subscriber + i);
            proof {
                assert forall|y: (usize, u64)| #[trigger] system.live(y) implies old(system).live(y)
                    && system.entry(y) == old(system).entry(y) by {
                    assert(before.live(y));
                }
                self.lemma_drained_masks(old(system).readiness@, before, *system, i as nat);
            }
            i = i + 1;
        }
    }

    /// The drained readiness depends on the drained inputs alone.
    proof fn lemma_drained_masks<T>(
        self,
        readiness: Seq<CallbackNodeReadiness>,
        a: PubSub<T>,
        b: PubSub<T>,
        k: nat,
    )
        requires
            forall|s: int|
                self.first_subscriber <= s < self.first_subscriber + k ==> #[trigger]
                a.subscribers@[s] == b.subscribers@[s],
        ensures
            self.drained_masks(readiness, a, k) == self.drained_masks(readiness, b, k),
        decreases k,
    {
        if k > 0 {
            self.lemma_drained_masks(readiness, a, b, (k - 1) as nat);
            assert(a.subscribers@[self.first_subscriber + k - 1]
                == b.subscribers@[self.first_subscriber + k - 1]);
        }
    }

    /// What flushing the node's outputs changes, and which nodes it announces.
    pub open spec fn flushes<T>(
        self,
        before: PubSub<T>,
        after: PubSub<T>,
        timestamp: FrameworkTime,
        announced: Seq<CallbackNodeId>,
    ) -> bool {
        &&& after.same_readers(before)
        &&& after.publishers@.len() == before.publishers@.len()
        &&& forall|p: int|
            0 <= p < before.publishers@.len() ==> crate::pub_sub::same_port(
                #[trigger] after.publishers@[p],
                before.publishers@[p],
            ) && if self.owns_publisher(p) {
                after.publishers@[p].loaned_values@.len() == 0
            } else {
                after.publishers@[p].loaned_values@ == before.publishers@[p].loaned_values@
            }
        &&& after.flush_view(announced) == self.flushed_from(
            before.flush_view(Seq::empty()),
            before,
            0,
        )
        &&& forall|r: (usize, u64)| #[trigger]
            after.live(r) ==> before.live(r) && after.entry(r) == self.stamped_up_to(
                before,
                self.publisher_count as int,
                timestamp,
                r,
            )
    }

    /// Publishes what the node's outputs sent, in the order of the outputs.
    /// Returns the nodes to enqueue.
    pub fn flush_publishers<T>(&self, system: &mut PubSub<T>, timestamp: FrameworkTime) -> (announced:
        Vec<CallbackNodeId>)
        requires
            old(system).wf(),
            self.within(*old(system)),
        ensures
            final(system).wf(),
            self.within(*final(system)),
            self.flushes(*old(system), *final(system), timestamp, announced@),
    {
        let mut announced: Vec<CallbackNodeId> = Vec::new();
        let mut headers: Vec<MessageHeader> = Vec::new();
        let mut k: usize = 0;
        while k < self.publisher_count
            invariant
                k <= self.publisher_count,
                system.wf(),
                self.within(*system),
                system.same_readers(*old(system)),
                system.publishers@.len() == old(system).publishers@.len(),
                forall|p: int|
                    0 <= p < old(system).publishers@.len() ==> crate::pub_sub::same_port(
                        #[trigger] system.publishers@[p],
                        old(system).publishers@[p],
                    ) && if self.first_publisher <= p < self.first_publisher + k {
                        system.publishers@[p].loaned_values@.len() == 0
                    } else {
                        system.publishers@[p].loaned_values@ == old(system).publishers@[p].loaned_values@
                    },
                self.flushed_from(system.flush_view(announced@), *old(system), k as int)
                    == self.flushed_from(old(system).flush_view(Seq::empty()), *old(system), 0),
                forall|r: (usize, u64)| #[trigger]
                    system.live(r) ==> old(system).live(r) && system.entry(r)
                        == self.stamped_up_to(*old(system), k as int, timestamp, r),
            decreases self.publisher_count - k,
        {
            let ghost before = *system;
            assert(system.publishers.len() == system.publishers@.len());
            let p: usize = self.first_publisher + k;
            assert(crate::pub_sub::same_port(before.publishers@[p as int], old(system).publishers@[p as int]));
            system.flush_into(p, timestamp, &mut announced, &mut headers);
            proof {
                assert forall|r: (usize, u64)| #[trigger] system.live(r) implies old(system).live(r)
                    && system.entry(r) == self.stamped_up_to(
                    *old(system),
                    k + 1,
                    timestamp,
                    r,
                ) by {
                    assert(before.live(r));
                }
                assert forall|q: int| 0 <= q < old(system).publishers@.len() implies crate::pub_sub::same_port(
                    #[trigger] system.publishers@[q],
                    old(system).publishers@[q],
                ) && if self.first_publisher <= q < self.first_publisher + k + 1 {
                    system.publishers@[q].loaned_values@.len() == 0
                } else {
                    system.publishers@[q].loaned_values@ == old(system).publishers@[q].loaned_values@
                } by {
                    assert(crate::pub_sub::same_port(
                        before.publishers@[q],
                        old(system).publishers@[q],
                    ));
                }
            }
            k = k + 1;
        }
        announced
    }
}

/// Whether port `i` is the first of `names` on `channel`.
pub open spec fn first_on(names: Seq<Seq<char>>, channel: Seq<char>, i: int) -> bool {
    &&& 0 <= i < names.len()
    &&& names[i] == channel
    &&& forall|j: int| 0 <= j < i ==> #[trigger] names[j] != channel
}

/// The channels of inputs.
pub open spec fn input_names(ports: Seq<SubscriberPort>) -> Seq<Seq<char>> {
    ports.map_values(|port: SubscriberPort| port.config.channel_name@)
}

/// The channels of outputs.
pub open spec fn output_names(ports: Seq<PublisherPort>) -> Seq<Seq<char>> {
    ports.map_values(|port: PublisherPort| port.config.channel_name@)
}

impl<T> CallbackNode<T> {
    /// Moves what arrived for the node's inputs into their read buffers.
    pub fn drain_subscribers(&self, system: &mut PubSub<T>)
        requires
            old(system).wf(),
            self.placed_in(*old(system)),
        ensures
            final(system).wf(),
            self.placed_in(*final(system)),
            self.ports.drains(*old(system), *final(system)),
    {
        self.ports.drain_subscribers(system);
    }

    /// Publishes what the node's outputs sent, in the order of the outputs.
    /// Returns the nodes to enqueue.
    pub fn flush_publishers(&self, system: &mut PubSub<T>, timestamp: FrameworkTime) -> (announced:
        Vec<CallbackNodeId>)
        requires
            old(system).wf(),
            self.placed_in(*old(system)),
        ensures
            final(system).wf(),
            self.placed_in(*final(system)),
            self.ports.flushes(*old(system), *final(system), timestamp, announced@),
    {
        self.ports.flush_publishers(system, timestamp)
    }

    /// Whether any input asks for a run.
    pub fn subscribers_request_execution(&self, system: &PubSub<T>) -> (r: bool)
        requires
            self.placed_in(*system),
        ensures
            r == self.ports.any_asks(*system),
    {
        self.ports.subscribers_request_execution(system)
    }

    /// Whether every input allows a run.
    pub fn able_to_run(&self, system: &PubSub<T>) -> (r: bool)
        requires
            self.placed_in(*system),
        ensures
            r == self.ports.all_can_run(*system),
    {
        self.ports.able_to_run(system)
    }

    /// Finds the first input on the given channel, by name.
    pub fn find_subscriber_mut(&mut self, channel_name: &str) -> (r: Option<&mut SubscriberPort>)
        ensures
            r is None ==> *final(self) == *old(self) && forall|i: int|
                0 <= i < old(self).subscribers@.len() ==> (#[trigger] old(
                    self).subscribers@[i]).config.channel_name@ != channel_name@,
            r is Some ==> exists|i: int| #[trigger]
                first_on(input_names(old(self).subscribers@), channel_name@, i) && *r->0 == old(
                    self).subscribers@[i] && final(self).subscribers@ == old(
                    self).subscribers@.update(i, *final(r->0)),
            r is Some ==> *final(self) == (CallbackNode {
                subscribers: final(self).subscribers,
                ..*old(self)
            }),
    {
        let ghost names = input_names(self.subscribers@);
        let wanted = channel_name.to_owned();
        let mut i: usize = 0;
        while i < self.subscribers.len()
            invariant
                i <= self.subscribers@.len(),
                *self == *old(self),
                names == input_names(self.subscribers@),
                wanted@ == channel_name@,
                forall|j: int| 0 <= j < i ==> #[trigger] names[j] != channel_name@,
            decreases self.subscribers@.len() - i,
        {
            assert(names[i as int] == self.subscribers@[i as int].config.channel_name@);
            if self.subscribers[i].config.channel_name == wanted {
                assert(first_on(names, channel_name@, i as int));
                return Some(&mut self.subscribers[i]);
            }
            i = i + 1;
        }
        proof {
            assert forall|j: int| 0 <= j < self.subscribers@.len() implies (#[trigger]
            self.subscribers@[j]).config.channel_name@ != channel_name@ by {
                assert(names[j] == self.subscribers@[j].config.channel_name@);
            }
        }
        None
    }

    /// Finds the first output on the given channel, by name.
    pub fn find_publisher_mut(&mut self, channel_name: &str) -> (r: Option<&mut PublisherPort>)
        ensures
            r is None ==> *final(self) == *old(self) && forall|i: int|
                0 <= i < old(self).publishers@.len() ==> (#[trigger] old(
                    self).publishers@[i]).config.channel_name@ != channel_name@,
            r is Some ==> exists|i: int| #[trigger]
                first_on(output_names(old(self).publishers@), channel_name@, i) && *r->0 == old(
                    self).publishers@[i] && final(self).publishers@ == old(
                    self).publishers@.update(i, *final(r->0)),
            r is Some ==> *final(self) == (CallbackNode {
                publishers: final(self).publishers,
                ..*old(self)
            }),
    {
        let ghost names = output_names(self.publishers@);
        let wanted = channel_name.to_owned();
        let mut i: usize = 0;
        while i < self.publishers.len()
            invariant
                i <= self.publishers@.len(),
                *self == *old(self),
                names == output_names(self.publishers@),
                wanted@ == channel_name@,
                forall|j: int| 0 <= j < i ==> #[trigger] names[j] != channel_name@,
            decreases self.publishers@.len() - i,
        {
            assert(names[i as int] == self.publishers@[i as int].config.channel_name@);
            if self.publishers[i].config.channel_name == wanted {
                assert(first_on(names, channel_name@, i as int));
                return Some(&mut self.publishers[i]);
            }
            i = i + 1;
        }
        proof {
            assert forall|j: int| 0 <= j < self.publishers@.len() implies (#[trigger]
            self.publishers@[j]).config.channel_name@ != channel_name@ by {
                assert(names[j] == self.publishers@[j].config.channel_name@);
            }
        }
        None
    }

    /// Tells the node's readiness which node to enqueue, once the graph is
    /// connected. Returns the node to enqueue if it is ready already.
    pub fn register_with_executor(&self, system: &mut PubSub<T>, node: CallbackNodeId) -> (enqueue:
        Option<CallbackNodeId>)
        requires
            old(system).wf(),
            self.ports.readiness < old(system).readiness@.len(),
        ensures
            final(system).wf(),
            final(system).publishers == old(system).publishers,
            final(system).subscribers == old(system).subscribers,
            final(system).readiness@ == old(system).readiness@.update(
                self.ports.readiness as int,
                crate::pub_sub_io::registered(
                    old(system).readiness@[self.ports.readiness as int],
                    node,
                ),
            ),
            enqueue == if old(system).readiness@[self.ports.readiness as int].all_ready() {
                crate::pub_sub_io::registered(
                    old(system).readiness@[self.ports.readiness as int],
                    node,
                ).node
            } else {
                None
            },
    {
        system.register_node(self.ports.readiness, node)
    }
}

} // verus!
