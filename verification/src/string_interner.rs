//! Interned names: each distinct string gets one small number.
use core::marker::PhantomData;

use vstd::prelude::*;
use vstd::std_specs::cmp::PartialEqSpecImpl;

verus! {

/// Marker type distinguishing interned callback names from interned channel
/// names, so that lookups stay strongly typed.
#[derive(Clone, Copy, Debug)]
pub struct CallbackNameTag {}

/// Marker type distinguishing interned channel names from interned callback
/// names, so that lookups stay strongly typed.
#[derive(Clone, Copy, Debug)]
pub struct ChannelNameTag {}

/// Strong type for accessing interned names.
#[derive(Debug)]
pub struct InternId<MarkerType> {
    pub id: u32,
    pub marker: PhantomData<MarkerType>,
}

impl<MarkerType> InternId<MarkerType> {
    fn new(id: u32) -> (r: InternId<MarkerType>)
        ensures
            r.id == id,
    {
        InternId { id, marker: PhantomData }
    }
}

impl<MarkerType> Clone for InternId<MarkerType> {
    fn clone(&self) -> (r: Self)
        ensures
            r == *self,
    {
        InternId { id: self.id, marker: self.marker }
    }
}

impl<MarkerType> Copy for InternId<MarkerType> {

}

impl<MarkerType> PartialEqSpecImpl for InternId<MarkerType> {
    open spec fn obeys_eq_spec() -> bool {
        true
    }

    open spec fn eq_spec(&self, other: &Self) -> bool {
        self.id == other.id
    }
}

impl<MarkerType> PartialEq for InternId<MarkerType> {
    fn eq(&self, other: &Self) -> (r: bool) {
        self.id == other.id
    }
}

impl<MarkerType> Eq for InternId<MarkerType> {

}

/// Bidirectional map for looking up a string given its id, or the id given the
/// string. The string with id `i` is the `i`-th one that was interned.
#[derive(Debug)]
pub struct StringInterner<InternType> {
    pub names: Vec<String>,
    pub marker: PhantomData<InternType>,
}

/// Whether `value` is one of `names`.
pub open spec fn has_name(names: Seq<String>, value: Seq<char>) -> bool {
    exists|i: int| 0 <= i < names.len() && (#[trigger] names[i])@ == value
}

/// The names as texts.
pub open spec fn texts(names: Seq<String>) -> Seq<Seq<char>> {
    names.map_values(|name: String| name@)
}

impl<InternType> StringInterner<InternType> {
    /// No string is interned twice, and ids fit their type.
    pub open spec fn wf(&self) -> bool {
        &&& self.names@.len() <= u32::MAX + 1
        &&& forall|i: int, j: int|
            0 <= i < j < self.names@.len() ==> (#[trigger] self.names@[i])@ != (#[trigger]
            self.names@[j])@
    }

    pub fn new() -> (r: Self)
        ensures
            r.wf(),
            r.names@.len() == 0,
    {
        StringInterner { names: Vec::new(), marker: PhantomData }
    }

    /// The id of `value`, which is interned if it was not yet.
    pub fn intern(&mut self, value: &str) -> (r: InternId<InternType>)
        requires
            old(self).wf(),
            old(self).names@.len() <= u32::MAX || has_name(old(self).names@, value@),
        ensures
            final(self).wf(),
            r.id < final(self).names@.len(),
            final(self).names@[r.id as int]@ == value@,
            has_name(old(self).names@, value@) ==> final(self).names@ == old(self).names@,
            !has_name(old(self).names@, value@) ==> r.id == old(self).names@.len() && final(
                self).names@.len() == old(self).names@.len() + 1 && final(
                self).names@.drop_last() == old(self).names@,
            texts(final(self).names@) == interned_all(texts(old(self).names@), seq![value@]),
    {
        proof {
            lemma_interned_one(self.names@, value@);
        }
        match self.lookup_by_value(value) {
            Some(id) => id,
            None => {
                let ghost before = self.names@;
                let id = InternId::new(self.names.len() as u32);
                self.names.push(value.to_owned());
                assert(self.names@.drop_last() =~= before);
                assert(texts(self.names@) =~= texts(before).push(value@));
                assert forall|i: int, j: int| 0 <= i < j < self.names@.len() implies (#[trigger]
                self.names@[i])@ != (#[trigger] self.names@[j])@ by {
                    if j == before.len() {
                        assert(before[i]@ != value@);
                    }
                }
                id
            },
        }
    }

    /// The string with the given id, which has to be one that was handed out.
    pub fn lookup_by_id(&self, intern_id: InternId<InternType>) -> (r: &str)
        requires
            intern_id.id < self.names@.len(),
        ensures
            r@ == self.names@[intern_id.id as int]@,
    {
        self.names[intern_id.id as usize].as_str()
    }

    /// The id of `value`, unless it was never interned.
    pub fn lookup_by_value(&self, value: &str) -> (r: Option<InternId<InternType>>)
        requires
            self.wf(),
        ensures
            r is Some <==> has_name(self.names@, value@),
            r matches Some(id) ==> id.id < self.names@.len() && self.names@[id.id as int]@
                == value@,
    {
        let wanted: String = value.to_owned();
        let mut i: usize = 0;
        while i < self.names.len()
            invariant
                i <= self.names@.len() <= u32::MAX + 1,
                wanted@ == value@,
                forall|j: int| 0 <= j < i ==> (#[trigger] self.names@[j])@ != value@,
            decreases self.names@.len() - i,
        {
            if self.names[i] == wanted {
                return Some(InternId::new(i as u32));
            }
            i = i + 1;
        }
        None
    }

    /// Minimizes the memory in use. What is interned does not change.
    pub fn shrink_to_fit(&mut self)
        requires
            old(self).wf(),
        ensures
            final(self).wf(),
            final(self).names@ == old(self).names@,
    {
        let mut kept: Vec<String> = Vec::with_capacity(self.names.len());
        kept.append(&mut self.names);
        self.names = kept;
    }
}

impl<InternType> Default for StringInterner<InternType> {
    fn default() -> (r: Self)
        ensures
            r.wf(),
            r.names@.len() == 0,
    {
        StringInterner::new()
    }
}

/// Ids and strings are in bijection: two interned strings are equal exactly
/// when their ids are.
pub proof fn law_ids_identify_strings<InternType>(
    interner: StringInterner<InternType>,
    a: InternId<InternType>,
    b: InternId<InternType>,
)
    requires
        interner.wf(),
        a.id < interner.names@.len(),
        b.id < interner.names@.len(),
    ensures
        interner.names@[a.id as int]@ == interner.names@[b.id as int]@ <==> a.id == b.id,
{
    if a.id < b.id {
        assert(interner.names@[a.id as int]@ != interner.names@[b.id as int]@);
    } else if b.id < a.id {
        assert(interner.names@[b.id as int]@ != interner.names@[a.id as int]@);
    }
}

/// The names after interning each of `values` in turn.
pub open spec fn interned_all(names: Seq<Seq<char>>, values: Seq<Seq<char>>) -> Seq<Seq<char>>
    decreases values.len(),
{
    if values.len() == 0 {
        names
    } else {
        let before = interned_all(names, values.drop_last());
        if before.contains(values.last()) {
            before
        } else {
            before.push(values.last())
        }
    }
}

/// Interning one name adds it unless it is there.
proof fn lemma_interned_one(names: Seq<String>, value: Seq<char>)
    ensures
        interned_all(texts(names), seq![value]) == if has_name(names, value) {
            texts(names)
        } else {
            texts(names).push(value)
        },
{
    let one = seq![value];
    assert(one.drop_last() =~= Seq::<Seq<char>>::empty());
    assert(interned_all(texts(names), one.drop_last()) == texts(names));
    if has_name(names, value) {
        let i = choose|i: int| 0 <= i < names.len() && (#[trigger] names[i])@ == value;
        assert(texts(names)[i] == value);
    }
    if texts(names).contains(value) {
        let i = choose|i: int| 0 <= i < texts(names).len() && texts(names)[i] == value;
        assert(names[i]@ == value);
    }
}

/// Interning some names and then more is interning them all.
pub proof fn lemma_interned_in_turn(
    names: Seq<Seq<char>>,
    first: Seq<Seq<char>>,
    second: Seq<Seq<char>>,
)
    ensures
        interned_all(interned_all(names, first), second) == interned_all(names, first + second),
    decreases second.len(),
{
    if second.len() == 0 {
        assert(first + second =~= first);
    } else {
        lemma_interned_in_turn(names, first, second.drop_last());
        assert((first + second).drop_last() =~= first + second.drop_last());
    }
}

/// Interning keeps every id that was handed out: what was interned stays where
/// it was.
pub proof fn law_interning_keeps_ids(names: Seq<Seq<char>>, values: Seq<Seq<char>>)
    ensures
        interned_all(names, values).len() >= names.len(),
        interned_all(names, values).take(names.len() as int) == names,
    decreases values.len(),
{
    if values.len() > 0 {
        law_interning_keeps_ids(names, values.drop_last());
        let before = interned_all(names, values.drop_last());
        assert(before.push(values.last()).take(names.len() as int) =~= before.take(
            names.len() as int,
        ));
    } else {
        assert(names.take(names.len() as int) =~= names);
    }
}

} // verus!
