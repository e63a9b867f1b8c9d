//! A bounded queue that displaces its oldest element when it is full.
use crossbeam_queue::ArrayQueue;
use vstd::prelude::*;

verus! {

/// One queued element: an owner's index and a number that means something to
/// that owner (a slot of its arena, a count of its event).
pub type QueueItem = (usize, u64);

/// `crossbeam_queue::ArrayQueue`, a bounded queue.
#[verifier::external_type_specification]
#[verifier::external_body]
#[verifier::reject_recursive_types(T)]
pub struct ExArrayQueue<T>(ArrayQueue<T>);

/// What an `ArrayQueue` holds, oldest element first.
pub uninterp spec fn queue_items(queue: ArrayQueue<(usize, u64)>) -> Seq<(usize, u64)>;

/// The capacity that an `ArrayQueue` was made with.
pub uninterp spec fn queue_limit(queue: ArrayQueue<(usize, u64)>) -> nat;

/// The greatest capacity for which a queue is made. One queued element takes
/// three machine words beside its stamp at the most, and an allocation has to
/// stay below `isize::MAX` bytes.
pub const MAX_QUEUE_CAPACITY: usize = usize::MAX / 128;

/// `ArrayQueue::new`: an empty queue of the given capacity. The outside
/// function panics on a capacity of zero and on one that is too large.
#[verifier::external_body]
fn array_queue_new(capacity: usize) -> (r: ArrayQueue<(usize, u64)>)
    requires
        0 < capacity <= MAX_QUEUE_CAPACITY,
    ensures
        queue_items(r) == Seq::<(usize, u64)>::empty(),
        queue_limit(r) == capacity,
{
    ArrayQueue::new(capacity)
}

/// `ArrayQueue::force_push`, with no other handle on the queue: the element
/// goes to the back; where the queue was full, the oldest element leaves it
/// and is returned.
#[verifier::external_body]
fn array_queue_force_push(queue: &mut ArrayQueue<(usize, u64)>, item: (usize, u64)) -> (r: Option<
    (usize, u64),
>)
    ensures
        queue_limit(*final(queue)) == queue_limit(*old(queue)),
        queue_items(*old(queue)).len() < queue_limit(*old(queue)) ==> r is None && queue_items(*final(queue))
            == queue_items(*old(queue)).push(item),
        queue_items(*old(queue)).len() == queue_limit(*old(queue)) ==> r == Some(
            queue_items(*old(queue))[0],
        ) && queue_items(*final(queue)) == queue_items(*old(queue)).skip(1).push(item),
{
    queue.force_push(item)
}

/// `ArrayQueue::pop`, with no other handle on the queue: the oldest element,
/// if there is one.
#[verifier::external_body]
fn array_queue_pop(queue: &mut ArrayQueue<(usize, u64)>) -> (r: Option<(usize, u64)>)
    ensures
        queue_limit(*final(queue)) == queue_limit(*old(queue)),
        queue_items(*old(queue)).len() == 0 ==> r is None && queue_items(*final(queue))
            == queue_items(*old(queue)),
        queue_items(*old(queue)).len() > 0 ==> r == Some(queue_items(*old(queue))[0])
            && queue_items(*final(queue)) == queue_items(*old(queue)).skip(1),
{
    queue.pop()
}

/// `ArrayQueue::len`: the number of elements, which a queue's capacity bounds.
#[verifier::external_body]
fn array_queue_len(queue: &ArrayQueue<(usize, u64)>) -> (r: usize)
    ensures
        r == queue_items(*queue).len(),
{
    queue.len()
}

/// `ArrayQueue::is_empty`: whether the queue holds nothing.
#[verifier::external_body]
fn array_queue_is_empty(queue: &ArrayQueue<(usize, u64)>) -> (r: bool)
    ensures
        r == (queue_items(*queue).len() == 0),
{
    queue.is_empty()
}

/// A bounded queue backed by `crossbeam_queue::ArrayQueue`. When it is full,
/// `push` displaces the oldest element (front) to make room.
pub struct MpscQueue {
    inner: ArrayQueue<(usize, u64)>,
    /// Cumulative count of elements displaced by `push` due to overflow.
    dropped: usize,
}

/// `items` followed by `item`, without the oldest where that would be more
/// than `capacity`.
pub open spec fn pushed(items: Seq<(usize, u64)>, capacity: nat, item: (usize, u64)) -> Seq<
    (usize, u64),
> {
    if items.len() < capacity {
        items.push(item)
    } else {
        items.skip(1).push(item)
    }
}

impl View for MpscQueue {
    type V = Seq<(usize, u64)>;

    /// The queued elements, oldest first.
    closed spec fn view(&self) -> Seq<(usize, u64)> {
        queue_items(self.inner)
    }
}

impl MpscQueue {
    /// How many elements the queue may hold.
    pub closed spec fn capacity(&self) -> nat {
        queue_limit(self.inner)
    }

    /// How many elements were displaced so far, counted in a machine word.
    pub closed spec fn drops(&self) -> usize {
        self.dropped
    }

    pub open spec fn wf(&self) -> bool {
        &&& 0 < self.capacity() <= MAX_QUEUE_CAPACITY
        &&& self@.len() <= self.capacity()
    }

    pub fn new(capacity: usize) -> (r: Self)
        requires
            0 < capacity <= MAX_QUEUE_CAPACITY,
        ensures
            r.wf(),
            r@ == Seq::<(usize, u64)>::empty(),
            r.capacity() == capacity,
            r.drops() == 0,
    {
        MpscQueue { inner: array_queue_new(capacity), dropped: 0 }
    }

    /// Push a value, displacing the oldest element if the queue is at
    /// capacity. Returns what was displaced (also counted in `dropped()`).
    pub fn push(&mut self, item: QueueItem) -> (displaced: Option<QueueItem>)
        requires
            old(self).wf(),
        ensures
            final(self).wf(),
            final(self).capacity() == old(self).capacity(),
            final(self)@ == pushed(old(self)@, old(self).capacity(), item),
            displaced is Some <==> old(self)@.len() == old(self).capacity(),
            displaced matches Some(oldest) ==> oldest == old(self)@[0],
            final(self).drops() == if displaced is Some {
                old(self).drops().wrapping_add(1)
            } else {
                old(self).drops()
            },
    {
        let displaced = array_queue_force_push(&mut self.inner, item);
        if displaced.is_some() {
            self.dropped = self.dropped.wrapping_add(1);
        }
        displaced
    }

    /// Cumulative number of elements ever displaced by `push` due to overflow.
    pub fn dropped(&self) -> (r: usize)
        ensures
            r == self.drops(),
    {
        self.dropped
    }

    /// Takes the oldest element.
    pub fn pop(&mut self) -> (r: Option<QueueItem>)
        requires
            old(self).wf(),
        ensures
            final(self).wf(),
            final(self).capacity() == old(self).capacity(),
            final(self).drops() == old(self).drops(),
            r is Some <==> old(self)@.len() > 0,
            r matches Some(item) ==> item == old(self)@[0] && final(self)@ == old(self)@.skip(1),
            r is None ==> final(self)@ == old(self)@,
    {
        array_queue_pop(&mut self.inner)
    }

    pub fn is_empty(&self) -> (r: bool)
        ensures
            r == (self@.len() == 0),
    {
        array_queue_is_empty(&self.inner)
    }

    /// Drops every element.
    pub fn clear(&mut self)
        requires
            old(self).wf(),
        ensures
            final(self).wf(),
            final(self)@.len() == 0,
            final(self).capacity() == old(self).capacity(),
            final(self).drops() == old(self).drops(),
    {
        while !self.is_empty()
            invariant
                self.wf(),
                self.capacity() == old(self).capacity(),
                self.drops() == old(self).drops(),
            decreases self@.len(),
        {
            let _ = self.pop();
        }
    }

    pub fn len(&self) -> (r: usize)
        ensures
            r == self@.len(),
    {
        array_queue_len(&self.inner)
    }
}

/// The queue after a run of pushes.
pub open spec fn pushed_all(
    items: Seq<(usize, u64)>,
    capacity: nat,
    pushes: Seq<(usize, u64)>,
) -> Seq<(usize, u64)>
    decreases pushes.len(),
{
    if pushes.len() == 0 {
        items
    } else {
        pushed(pushed_all(items, capacity, pushes.drop_last()), capacity, pushes.last())
    }
}

/// The last `capacity` elements of `all`, or all of it where it fits.
pub open spec fn newest(all: Seq<(usize, u64)>, capacity: nat) -> Seq<(usize, u64)> {
    if all.len() <= capacity {
        all
    } else {
        all.skip(all.len() - capacity)
    }
}

/// What `newest` leaves out.
pub open spec fn overflow(all: Seq<(usize, u64)>, capacity: nat) -> Seq<(usize, u64)> {
    if all.len() <= capacity {
        Seq::empty()
    } else {
        all.take(all.len() - capacity)
    }
}

/// After any run of pushes the queue holds the newest elements in order: the
/// last `capacity` of what it held and what was pushed, or all of that where
/// it fits.
pub proof fn law_queue_keeps_newest_in_order(
    items: Seq<(usize, u64)>,
    capacity: nat,
    pushes: Seq<(usize, u64)>,
)
    requires
        0 < capacity,
        items.len() <= capacity,
    ensures
        pushed_all(items, capacity, pushes) == newest(items + pushes, capacity),
    decreases pushes.len(),
{
    if pushes.len() == 0 {
        assert(items + pushes =~= items);
    } else {
        law_queue_keeps_newest_in_order(items, capacity, pushes.drop_last());
        let before = items + pushes.drop_last();
        assert(items + pushes =~= before.push(pushes.last()));
        lemma_push_keeps_newest(before, capacity, pushes.last());
    }
}

/// Pushing onto the newest of some elements gives the newest of one more.
pub proof fn lemma_push_keeps_newest(
    before: Seq<(usize, u64)>,
    capacity: nat,
    item: (usize, u64),
)
    requires
        0 < capacity,
    ensures
        pushed(newest(before, capacity), capacity, item) == newest(before.push(item), capacity),
{
    assert(pushed(newest(before, capacity), capacity, item) =~= newest(
        before.push(item),
        capacity,
    ));
}

} // verus!
