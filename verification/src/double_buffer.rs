//! A write queue and the read buffer that it is drained into.
use std::collections::VecDeque;

use vstd::prelude::*;

use crate::mpsc_queue::{MpscQueue, QueueItem};

verus! {

/// A machine word that was counted up `n` times, wrapping around at its end.
pub open spec fn counted_up(start: usize, n: nat) -> usize
    decreases n,
{
    if n == 0 {
        start
    } else {
        counted_up(start, (n - 1) as nat).wrapping_add(1)
    }
}

/// What a reader sees: the drained elements, oldest first.
pub struct Buffer {
    pub storage: VecDeque<QueueItem>,
    /// How many elements were displaced from the buffer, counted in a machine
    /// word.
    pub drops: usize,
}

/// Two buffers of one capacity. Writers fill the first; a drain moves what
/// arrived into the second, which displaces its oldest elements for it.
pub struct DoubleBuffer {
    pub write_queue: MpscQueue,
    pub read_buffer: Buffer,
    pub read_capacity: usize,
    pub overwrite_reader_buffer_values: bool,
}

impl DoubleBuffer {
    pub open spec fn wf(&self) -> bool {
        &&& self.write_queue.wf()
        &&& self.write_queue.capacity() == self.read_capacity
        &&& self.read_buffer.storage@.len() <= self.read_capacity
    }

    /// The elements that wait for a drain, oldest first.
    pub open spec fn pending(&self) -> Seq<(usize, u64)> {
        self.write_queue@
    }

    /// The elements that a reader sees, oldest first.
    pub open spec fn readable(&self) -> Seq<(usize, u64)> {
        self.read_buffer.storage@
    }

    pub fn new(capacity: usize) -> (r: Self)
        requires
            0 < capacity <= crate::mpsc_queue::MAX_QUEUE_CAPACITY,
        ensures
            r.wf(),
            r.pending().len() == 0,
            r.readable().len() == 0,
            r.read_capacity == capacity,
            r.read_buffer.drops == 0,
            r.write_queue.drops() == 0,
            r.overwrite_reader_buffer_values,
    {
        DoubleBuffer {
            write_queue: MpscQueue::new(capacity),
            read_buffer: Buffer { storage: VecDeque::with_capacity(capacity), drops: 0 },
            read_capacity: capacity,
            overwrite_reader_buffer_values: true,
        }
    }

    pub fn set_should_overwrite_reader_buffer(&mut self, overwrite_reader_buffer_values: bool)
        requires
            old(self).wf(),
        ensures
            final(self).wf(),
            *final(self) == (DoubleBuffer { overwrite_reader_buffer_values, ..*old(self) }),
    {
        self.overwrite_reader_buffer_values = overwrite_reader_buffer_values;
    }

    /// Queues an element for the next drain. Where the write queue is full,
    /// its oldest element leaves it and is returned.
    pub fn write(&mut self, element: QueueItem) -> (displaced: Option<QueueItem>)
        requires
            old(self).wf(),
        ensures
            final(self).wf(),
            final(self).pending() == crate::mpsc_queue::pushed(
                old(self).pending(),
                old(self).read_capacity as nat,
                element,
            ),
            displaced is Some <==> old(self).pending().len() == old(self).read_capacity,
            displaced matches Some(oldest) ==> oldest == old(self).pending()[0],
            final(self).write_queue.drops() == if displaced is Some {
                old(self).write_queue.drops().wrapping_add(1)
            } else {
                old(self).write_queue.drops()
            },
            final(self).read_buffer == old(self).read_buffer,
            final(self).read_capacity == old(self).read_capacity,
            final(self).overwrite_reader_buffer_values == old(self).overwrite_reader_buffer_values,
    {
        self.write_queue.push(element)
    }

    /// Moves everything that waits into the read buffer, oldest first. The
    /// read buffer keeps the newest elements; what it displaces is returned,
    /// oldest first.
    pub fn drain_writer_to_reader(&mut self) -> (displaced: Vec<QueueItem>)
        requires
            old(self).wf(),
        ensures
            final(self).wf(),
            final(self).pending().len() == 0,
            final(self).readable() == crate::mpsc_queue::newest(
                old(self).readable() + old(self).pending(),
                old(self).read_capacity as nat,
            ),
            displaced@ == crate::mpsc_queue::overflow(
                old(self).readable() + old(self).pending(),
                old(self).read_capacity as nat,
            ),
            final(self).write_queue.drops() == old(self).write_queue.drops(),
            final(self).read_buffer.drops == counted_up(
                old(self).read_buffer.drops,
                displaced@.len(),
            ),
            final(self).read_capacity == old(self).read_capacity,
            final(self).overwrite_reader_buffer_values == old(self).overwrite_reader_buffer_values,
    {
        let mut displaced: Vec<QueueItem> = Vec::new();
        let n: usize = self.write_queue.len();
        let mut moved: usize = 0;
        let ghost all = self.readable() + self.pending();
        let ghost start = self.readable().len();
        assert(all.take(start as int) =~= self.readable());
        assert(displaced@ =~= crate::mpsc_queue::overflow(
            all.take(start as int),
            self.read_capacity as nat,
        ));
        while moved < n
            invariant
                self.wf(),
                moved <= n,
                all == old(self).readable() + old(self).pending(),
                start == old(self).readable().len(),
                n == old(self).pending().len(),
                self.pending() == old(self).pending().skip(moved as int),
                self.readable() == crate::mpsc_queue::newest(
                    all.take(start + moved),
                    self.read_capacity as nat,
                ),
                displaced@ == crate::mpsc_queue::overflow(
                    all.take(start + moved),
                    self.read_capacity as nat,
                ),
                self.write_queue.drops() == old(self).write_queue.drops(),
                self.read_buffer.drops == counted_up(
                    old(self).read_buffer.drops,
                    displaced@.len(),
                ),
                self.read_capacity == old(self).read_capacity,
                self.overwrite_reader_buffer_values == old(self).overwrite_reader_buffer_values,
            decreases n - moved,
        {
            let ghost before = all.take(start + moved);
            let ghost kept = self.readable();
            match self.write_queue.pop() {
                Some(element) => {
                    assert(element == all[start + moved]);
                    assert(all.take(start + moved + 1) =~= before.push(element));
                    if self.read_buffer.storage.len() >= self.read_capacity {
                        self.read_buffer.drops = self.read_buffer.drops.wrapping_add(1);
                        match self.read_buffer.storage.pop_front() {
                            Some(oldest) => {
                                displaced.push(oldest);
                            },
                            None => {},
                        }
                    }
                    self.read_buffer.storage.push_back(element);
                    proof {
                        crate::mpsc_queue::lemma_push_keeps_newest(
                            before,
                            self.read_capacity as nat,
                            element,
                        );
                        assert(displaced@ =~= crate::mpsc_queue::overflow(
                            before.push(element),
                            self.read_capacity as nat,
                        ));
                    }
                },
                None => {},
            }
            moved = moved + 1;
            assert(self.pending() =~= old(self).pending().skip(moved as int));
        }
        assert(all.take(start + n) =~= all);
        displaced
    }

    /// Takes the oldest readable element.
    pub fn pop_front(&mut self) -> (r: Option<QueueItem>)
        requires
            old(self).wf(),
        ensures
            final(self).wf(),
            r is Some <==> old(self).readable().len() > 0,
            r matches Some(item) ==> item == old(self).readable()[0] && final(self).readable()
                == old(self).readable().skip(1),
            r is None ==> final(self).readable() == old(self).readable(),
            final(self).write_queue == old(self).write_queue,
            final(self).read_capacity == old(self).read_capacity,
            final(self).read_buffer.drops == old(self).read_buffer.drops,
            final(self).overwrite_reader_buffer_values == old(self).overwrite_reader_buffer_values,
    {
        let popped = self.read_buffer.storage.pop_front();
        proof {
            if popped is Some {
                assert(self.readable() =~= old(self).readable().skip(1));
            }
        }
        popped
    }

    /// Takes the newest readable element.
    pub fn pop_back(&mut self) -> (r: Option<QueueItem>)
        requires
            old(self).wf(),
        ensures
            final(self).wf(),
            r is Some <==> old(self).readable().len() > 0,
            r matches Some(item) ==> item == old(self).readable().last() && final(self).readable()
                == old(self).readable().drop_last(),
            r is None ==> final(self).readable() == old(self).readable(),
            final(self).write_queue == old(self).write_queue,
            final(self).read_capacity == old(self).read_capacity,
            final(self).read_buffer.drops == old(self).read_buffer.drops,
            final(self).overwrite_reader_buffer_values == old(self).overwrite_reader_buffer_values,
    {
        let popped = self.read_buffer.storage.pop_back();
        proof {
            if popped is Some {
                assert(self.readable() =~= old(self).readable().drop_last());
            }
        }
        popped
    }

    /// Exclusive access to the readable elements.
    pub fn read_buffer(&mut self) -> (r: ReadBufferGuard<'_>)
        ensures
            r.storage@ == old(self).readable(),
            final(self).readable() == final(r.storage)@,
            final(self).read_buffer.drops == old(self).read_buffer.drops,
            final(self).write_queue == old(self).write_queue,
            final(self).read_capacity == old(self).read_capacity,
            final(self).overwrite_reader_buffer_values == old(self).overwrite_reader_buffer_values,
    {
        ReadBufferGuard { storage: &mut self.read_buffer.storage }
    }

    /// The `index`-th readable element, oldest first.
    pub fn read_at(&self, index: usize) -> (r: QueueItem)
        requires
            index < self.readable().len(),
        ensures
            r == self.readable()[index as int],
    {
        self.read_buffer.storage[index]
    }
}

/// Exclusive access to what a reader sees.
pub struct ReadBufferGuard<'a> {
    pub storage: &'a mut VecDeque<QueueItem>,
}

impl<'a> ReadBufferGuard<'a> {
    /// Takes the oldest element.
    pub fn pop_front(&mut self) -> (r: Option<QueueItem>)
        ensures
            r is Some <==> old(self).storage@.len() > 0,
            r matches Some(item) ==> item == old(self).storage@[0] && final(self).storage@ == old(
                self).storage@.skip(1),
            r is None ==> final(self).storage@ == old(self).storage@,
    {
        let ghost before = self.storage@;
        let popped = self.storage.pop_front();
        proof {
            if popped is Some {
                assert(self.storage@ =~= before.skip(1));
            }
        }
        popped
    }

    /// Takes the newest element.
    pub fn pop_back(&mut self) -> (r: Option<QueueItem>)
        ensures
            r is Some <==> old(self).storage@.len() > 0,
            r matches Some(item) ==> item == old(self).storage@.last() && final(self).storage@
                == old(self).storage@.drop_last(),
            r is None ==> final(self).storage@ == old(self).storage@,
    {
        let ghost before = self.storage@;
        let popped = self.storage.pop_back();
        proof {
            if popped is Some {
                assert(self.storage@ =~= before.drop_last());
            }
        }
        popped
    }

    /// The oldest element.
    pub fn front(&self) -> (r: Option<QueueItem>)
        ensures
            r == if old(self.storage)@.len() > 0 {
                Some(old(self.storage)@[0])
            } else {
                None
            },
    {
        if self.storage.len() > 0 {
            Some(self.storage[0])
        } else {
            None
        }
    }

    pub fn len(&self) -> (r: usize)
        ensures
            r == old(self.storage)@.len(),
    {
        self.storage.len()
    }

    /// The elements, oldest first.
    pub fn as_slice(&self) -> (r: Vec<QueueItem>)
        ensures
            r@ == old(self.storage)@,
    {
        let mut items: Vec<QueueItem> = Vec::new();
        let mut i: usize = 0;
        while i < self.storage.len()
            invariant
                i <= self.storage@.len(),
                items@ == self.storage@.take(i as int),
            decreases self.storage@.len() - i,
        {
            items.push(self.storage[i]);
            assert(items@ =~= self.storage@.take(i + 1));
            i = i + 1;
        }
        assert(items@ =~= self.storage@);
        items
    }

    pub fn is_empty(&self) -> (r: bool)
        ensures
            r == (old(self.storage)@.len() == 0),
    {
        self.storage.len() == 0
    }
}

/// A drain moves what was written into what can be read and loses nothing
/// while it fits: after it, the reader sees what it saw before followed by
/// what was pending, in the order of writing.
pub proof fn law_drain_keeps_everything_that_fits(
    readable: Seq<(usize, u64)>,
    pending: Seq<(usize, u64)>,
    capacity: nat,
)
    requires
        readable.len() + pending.len() <= capacity,
    ensures
        crate::mpsc_queue::newest(readable + pending, capacity) == readable + pending,
        crate::mpsc_queue::overflow(readable + pending, capacity).len() == 0,
{
}

} // verus!
