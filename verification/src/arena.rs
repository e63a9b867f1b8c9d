//! Fixed-size arenas of reference-counted slots.
use vstd::prelude::*;

verus! {

/// Sentinel held in a slot's count while its payload is being destroyed. It
/// keeps the slot from being claimed between the last release and the end of
/// the destruction: the count goes from 1 to `TOMBSTONE` and only then to 0.
pub const TOMBSTONE: usize = usize::MAX;

/// The greatest count from which one more reference may be taken.
pub const MAX_CLONED_REFS: usize = usize::MAX / 2;

/// A reference to a slot of an arena. It is neither `Copy` nor `Clone`: a
/// second reference comes from [`Arena::clone_ptr`], which counts it.
#[derive(Debug)]
pub struct ArenaPtr {
    pub slot: usize,
}

/// What became of a slot that lost one reference.
pub enum SlotRelease<T> {
    /// Other references are left.
    StillReferenced,
    /// That was the last one: the payload is to be destroyed, and the slot
    /// stays closed until [`ArenaSlot::finish_destroy`].
    Destroy(T),
}

/// One entry of an arena: how many references it has and what it holds.
pub struct ArenaSlot<T> {
    pub ref_count: usize,
    pub payload: Option<T>,
}

impl<T> ArenaSlot<T> {
    /// A slot holds a payload exactly while it is referenced.
    pub open spec fn wf(self) -> bool {
        self.payload is Some <==> 0 < self.ref_count < TOMBSTONE
    }

    /// Claims a free slot for `value`: the count goes from 0 to 1. A slot that
    /// is referenced, or whose payload is being destroyed, is left alone and
    /// `value` comes back.
    pub fn try_claim(&mut self, value: T) -> (r: Result<(), T>)
        requires
            old(self).wf(),
        ensures
            final(self).wf(),
            r is Ok <==> old(self).ref_count == 0,
            r is Ok ==> final(self).ref_count == 1 && final(self).payload == Some(value),
            r is Err ==> *final(self) == *old(self) && r->Err_0 == value,
    {
        if self.ref_count == 0 {
            self.ref_count = 1;
            self.payload = Some(value);
            Ok(())
        } else {
            Err(value)
        }
    }

    /// Takes one more reference.
    pub fn add_ref(&mut self)
        requires
            old(self).wf(),
            0 < old(self).ref_count <= MAX_CLONED_REFS,
        ensures
            final(self).wf(),
            final(self).ref_count == old(self).ref_count + 1,
            final(self).payload == old(self).payload,
    {
        self.ref_count = self.ref_count + 1;
    }

    /// Gives one reference up. The last one closes the slot and hands its
    /// payload out for destruction.
    pub fn release(&mut self) -> (r: SlotRelease<T>)
        requires
            old(self).wf(),
            0 < old(self).ref_count < TOMBSTONE,
        ensures
            final(self).wf(),
            old(self).ref_count == 1 ==> final(self).ref_count == TOMBSTONE && r
                == SlotRelease::Destroy(old(self).payload->0),
            old(self).ref_count > 1 ==> final(self).ref_count == old(self).ref_count - 1
                && final(self).payload == old(self).payload && r is StillReferenced,
    {
        if self.ref_count == 1 {
            self.ref_count = TOMBSTONE;
            match self.payload.take() {
                Some(payload) => SlotRelease::Destroy(payload),
                None => SlotRelease::StillReferenced,
            }
        } else {
            self.ref_count = self.ref_count - 1;
            SlotRelease::StillReferenced
        }
    }

    /// Opens a slot again whose payload has been destroyed.
    pub fn finish_destroy(&mut self)
        requires
            old(self).wf(),
            old(self).ref_count == TOMBSTONE,
        ensures
            final(self).wf(),
            final(self).ref_count == 0,
            final(self).payload is None,
    {
        self.ref_count = 0;
    }
}

impl<T> Default for ArenaSlot<T> {
    fn default() -> (r: Self)
        ensures
            r.ref_count == 0,
            r.payload is None,
            r.wf(),
    {
        ArenaSlot { ref_count: 0, payload: None }
    }
}

/// A vector of slots whose number is fixed once they are allocated.
pub struct Arena<T> {
    pub storage: Vec<ArenaSlot<T>>,
    pub slot_capacity: usize,
}

impl<T> Arena<T> {
    /// No slot is half destroyed, and the slots were either not allocated yet
    /// or all are there.
    pub open spec fn wf(self) -> bool {
        &&& self.storage@.len() == 0 || self.storage@.len() == self.slot_capacity
        &&& forall|i: int|
            0 <= i < self.storage@.len() ==> (#[trigger] self.storage@[i]).wf()
                && self.storage@[i].ref_count < TOMBSTONE
    }

    /// The number of references to slot `i`; none to a slot that is not there.
    pub open spec fn refs(self, i: int) -> int {
        if 0 <= i < self.storage@.len() {
            self.storage@[i].ref_count as int
        } else {
            0
        }
    }

    /// Whether slot `i` is there and referenced.
    pub open spec fn live(self, i: int) -> bool {
        self.refs(i) > 0
    }

    /// What a referenced slot holds.
    pub open spec fn value(self, i: int) -> T {
        self.storage@[i].payload->0
    }

    /// Whether some slot can be claimed.
    pub open spec fn has_free_slot(self) -> bool {
        exists|i: int| 0 <= i < self.storage@.len() && (#[trigger] self.storage@[i]).ref_count == 0
    }

    /// Whether `i` is the first slot that can be claimed.
    pub open spec fn is_first_free(self, i: int) -> bool {
        &&& 0 <= i < self.storage@.len()
        &&& self.storage@[i].ref_count == 0
        &&& forall|j: int| 0 <= j < i ==> (#[trigger] self.storage@[j]).ref_count > 0
    }

    /// An arena that will have `capacity` slots; none is allocated yet.
    pub fn new(capacity: usize) -> (r: Self)
        ensures
            r.wf(),
            r.slot_capacity == capacity,
            r.storage@.len() == 0,
    {
        Arena { storage: Vec::new(), slot_capacity: capacity }
    }

    pub fn capacity(&self) -> (r: usize)
        ensures
            r == self.slot_capacity,
    {
        self.slot_capacity
    }

    /// Changes how many slots the arena will have. Every slot goes, so this
    /// invalidates every reference.
    pub fn update_capacity(&mut self, new_capacity: usize)
        ensures
            final(self).wf(),
            final(self).slot_capacity == new_capacity,
            final(self).storage@.len() == 0,
    {
        self.storage = Vec::new();
        self.slot_capacity = new_capacity;
    }

    /// Once the capacity is set, allocates the slots, all of them free. Slots
    /// that are there already stay.
    pub fn allocate_slots(&mut self)
        requires
            old(self).wf(),
        ensures
            final(self).wf(),
            final(self).slot_capacity == old(self).slot_capacity,
            final(self).storage@.len() == old(self).slot_capacity,
            old(self).storage@.len() == 0 ==> forall|i: int|
                0 <= i < final(self).storage@.len() ==> (#[trigger] final(self).storage@[i]).ref_count == 0,
            old(self).storage@.len() > 0 ==> *final(self) == *old(self),
    {
        while self.storage.len() < self.slot_capacity
            invariant
                self.slot_capacity == old(self).slot_capacity,
                self.storage@.len() <= self.slot_capacity,
                old(self).wf(),
                old(self).storage@.len() > 0 ==> *self == *old(self),
                old(self).storage@.len() == 0 ==> forall|i: int|
                    0 <= i < self.storage@.len() ==> (#[trigger] self.storage@[i]).ref_count == 0
                        && self.storage@[i].wf(),
            decreases self.slot_capacity - self.storage@.len(),
        {
            self.storage.push(ArenaSlot::default());
        }
    }

    /// Whether some slot can be claimed.
    pub fn has_room(&self) -> (r: bool)
        ensures
            r == self.has_free_slot(),
    {
        let mut slot: usize = 0;
        while slot < self.storage.len()
            invariant
                slot <= self.storage@.len(),
                forall|j: int| 0 <= j < slot ==> (#[trigger] self.storage@[j]).ref_count > 0,
            decreases self.storage@.len() - slot,
        {
            if self.storage[slot].ref_count == 0 {
                return true;
            }
            slot = slot + 1;
        }
        false
    }

    /// Claims the first free slot for `value`. Where no slot is free, `value`
    /// comes back and nothing changes.
    pub fn try_allocate_with(&mut self, value: T) -> (r: Result<ArenaPtr, T>)
        requires
            old(self).wf(),
        ensures
            final(self).wf(),
            r is Ok <==> old(self).has_free_slot(),
            r matches Ok(ptr) ==> {
                &&& old(self).is_first_free(ptr.slot as int)
                &&& final(self).storage@ == old(self).storage@.update(
                    ptr.slot as int,
                    ArenaSlot { ref_count: 1, payload: Some(value) },
                )
                &&& final(self).slot_capacity == old(self).slot_capacity
            },
            r matches Err(v) ==> v == value && *final(self) == *old(self),
    {
        let mut slot: usize = 0;
        while slot < self.storage.len()
            invariant
                *self == *old(self),
                self.wf(),
                slot <= self.storage@.len(),
                forall|j: int| 0 <= j < slot ==> (#[trigger] self.storage@[j]).ref_count > 0,
            decreases self.storage@.len() - slot,
        {
            if self.storage[slot].ref_count == 0 {
                self.storage.set(slot, ArenaSlot { ref_count: 1, payload: Some(value) });
                return Ok(ArenaPtr { slot });
            }
            slot = slot + 1;
        }
        Err(value)
    }

    /// Takes one more reference to a referenced slot.
    pub fn clone_ptr(&mut self, ptr: &ArenaPtr) -> (r: ArenaPtr)
        requires
            old(self).wf(),
            0 < old(self).refs(ptr.slot as int) <= MAX_CLONED_REFS,
        ensures
            final(self).wf(),
            r.slot == ptr.slot,
            final(self).slot_capacity == old(self).slot_capacity,
            final(self).storage@.len() == old(self).storage@.len(),
            forall|i: int|
                0 <= i < final(self).storage@.len() && i != ptr.slot ==> #[trigger] final(self).storage@[i] == old(self).storage@[i],
            final(self).storage@[ptr.slot as int].payload == old(self).storage@[ptr.slot as int].payload,
            final(self).refs(ptr.slot as int) == old(self).refs(ptr.slot as int) + 1,
    {
        self.storage[ptr.slot].add_ref();
        ArenaPtr { slot: ptr.slot }
    }

    /// Gives one reference up. With the last one the slot becomes free, and
    /// what it held comes back for destruction.
    pub fn release(&mut self, ptr: ArenaPtr) -> (r: Option<T>)
        requires
            old(self).wf(),
            old(self).live(ptr.slot as int),
        ensures
            final(self).wf(),
            final(self).slot_capacity == old(self).slot_capacity,
            final(self).storage@.len() == old(self).storage@.len(),
            forall|i: int|
                0 <= i < final(self).storage@.len() && i != ptr.slot ==> #[trigger] final(self).storage@[i] == old(self).storage@[i],
            final(self).refs(ptr.slot as int) == old(self).refs(ptr.slot as int) - 1,
            old(self).refs(ptr.slot as int) == 1 ==> r == old(self).storage@[ptr.slot as int].payload,
            old(self).refs(ptr.slot as int) > 1 ==> r is None && final(self).storage@[ptr.slot as int].payload == old(self).storage@[ptr.slot as int].payload,
    {
        match self.storage[ptr.slot].release() {
            SlotRelease::StillReferenced => None,
            SlotRelease::Destroy(payload) => {
                self.storage[ptr.slot].finish_destroy();
                Some(payload)
            },
        }
    }

    /// What a referenced slot holds.
    pub fn get(&self, ptr: &ArenaPtr) -> (r: &T)
        requires
            self.wf(),
            self.live(ptr.slot as int),
        ensures
            *r == self.value(ptr.slot as int),
    {
        self.storage[ptr.slot].payload.as_ref().unwrap()
    }

    /// What a referenced slot holds, to be changed in place.
    pub fn get_mut(&mut self, ptr: &ArenaPtr) -> (r: &mut T)
        requires
            old(self).wf(),
            old(self).live(ptr.slot as int),
        ensures
            *r == old(self).value(ptr.slot as int),
            final(self).slot_capacity == old(self).slot_capacity,
            final(self).storage@ == old(self).storage@.update(
                ptr.slot as int,
                ArenaSlot {
                    ref_count: old(self).storage@[ptr.slot as int].ref_count,
                    payload: Some(*final(r)),
                },
            ),
    {
        self.storage[ptr.slot].payload.as_mut().unwrap()
    }

    /// How many references a slot has.
    pub fn ref_count(&self, ptr: &ArenaPtr) -> (r: usize)
        requires
            ptr.slot < self.storage@.len(),
        ensures
            r == self.refs(ptr.slot as int),
    {
        self.storage[ptr.slot].ref_count
    }
}

impl<T: Default> Arena<T> {
    /// Claims the first free slot for a default payload, where one is free.
    pub fn try_allocate_default(&mut self) -> (r: Option<ArenaPtr>)
        requires
            old(self).wf(),
        ensures
            final(self).wf(),
            r is Some <==> old(self).has_free_slot(),
            r matches Some(ptr) ==> {
                &&& old(self).is_first_free(ptr.slot as int)
                &&& final(self).slot_capacity == old(self).slot_capacity
                &&& final(self).storage@.len() == old(self).storage@.len()
                &&& final(self).refs(ptr.slot as int) == 1
                &&& call_ensures(T::default, (), final(self).value(ptr.slot as int))
                &&& forall|i: int|
                    0 <= i < final(self).storage@.len() && i != ptr.slot ==> #[trigger] final(self).storage@[i] == old(self).storage@[i]
            },
            r is None ==> *final(self) == *old(self),
    {
        match self.try_allocate_with(T::default()) {
            Ok(ptr) => Some(ptr),
            Err(_) => None,
        }
    }

    /// Claims the first free slot for a default payload. The arena has to have
    /// a free slot: the pub/sub system sizes arenas so that it does.
    pub fn allocate_default(&mut self) -> (ptr: ArenaPtr)
        requires
            old(self).wf(),
            old(self).has_free_slot(),
        ensures
            final(self).wf(),
            old(self).is_first_free(ptr.slot as int),
            final(self).slot_capacity == old(self).slot_capacity,
            final(self).storage@.len() == old(self).storage@.len(),
            final(self).refs(ptr.slot as int) == 1,
            call_ensures(T::default, (), final(self).value(ptr.slot as int)),
            forall|i: int|
                0 <= i < final(self).storage@.len() && i != ptr.slot ==> #[trigger] final(self).storage@[i] == old(self).storage@[i],
    {
        self.try_allocate_default().unwrap()
    }
}

} // verus!
