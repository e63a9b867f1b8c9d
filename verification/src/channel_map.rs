//! A map keyed by channel name.
use vstd::prelude::*;

verus! {

/// What is kept for one channel.
pub struct ChannelEntry<V> {
    pub channel: String,
    pub value: V,
}

/// One value per channel name, in the order in which the channels came.
pub struct ChannelMap<V> {
    pub entries: Vec<ChannelEntry<V>>,
}

impl<V> ChannelMap<V> {
    /// No channel occurs twice.
    pub open spec fn wf(&self) -> bool {
        forall|i: int, j: int|
            0 <= i < self.entries@.len() && 0 <= j < self.entries@.len() && (#[trigger]
            self.entries@[i]).channel@ == (#[trigger] self.entries@[j]).channel@ ==> i == j
    }

    /// Whether `channel` stands at place `i`.
    pub open spec fn stands_at(&self, channel: Seq<char>, i: int) -> bool {
        0 <= i < self.entries@.len() && self.entries@[i].channel@ == channel
    }

    pub open spec fn has(&self, channel: Seq<char>) -> bool {
        exists|i: int| #[trigger] self.stands_at(channel, i)
    }

    /// What is kept for `channel`, if anything is.
    pub open spec fn at(&self, channel: Seq<char>) -> Option<V> {
        if self.has(channel) {
            Some(self.entries@[choose|i: int| #[trigger] self.stands_at(channel, i)].value)
        } else {
            None
        }
    }

    /// What stands at a place is what is kept for the channel there.
    pub proof fn lemma_at(&self, channel: Seq<char>, i: int)
        requires
            self.wf(),
            self.stands_at(channel, i),
        ensures
            self.at(channel) == Some(self.entries@[i].value),
    {
        let j = choose|j: int| #[trigger] self.stands_at(channel, j);
        assert(self.entries@[i].channel@ == self.entries@[j].channel@);
    }

    pub fn new() -> (r: Self)
        ensures
            r.wf(),
            r.entries@.len() == 0,
            forall|channel: Seq<char>| #[trigger] r.at(channel) is None,
    {
        ChannelMap { entries: Vec::new() }
    }

    fn position(&self, channel: &String) -> (r: Option<usize>)
        ensures
            r matches Some(i) ==> self.stands_at(channel@, i as int),
            r is None ==> !self.has(channel@),
    {
        let mut i: usize = 0;
        while i < self.entries.len()
            invariant
                i <= self.entries@.len(),
                forall|j: int| 0 <= j < i ==> (#[trigger] self.entries@[j]).channel@ != channel@,
            decreases self.entries@.len() - i,
        {
            if self.entries[i].channel == *channel {
                return Some(i);
            }
            i = i + 1;
        }
        None
    }

    pub fn contains(&self, channel: &String) -> (r: bool)
        ensures
            r == self.has(channel@),
    {
        self.position(channel).is_some()
    }

    pub fn get(&self, channel: &String) -> (r: Option<&V>)
        requires
            self.wf(),
        ensures
            r is Some <==> self.at(channel@) is Some,
            r matches Some(value) ==> self.at(channel@) == Some(*value),
    {
        match self.position(channel) {
            Some(i) => {
                proof {
                    self.lemma_at(channel@, i as int);
                }
                Some(&self.entries[i].value)
            },
            None => None,
        }
    }

    /// Keeps `value` for `channel`, in place of what was kept for it.
    pub fn insert(&mut self, channel: String, value: V)
        requires
            old(self).wf(),
        ensures
            final(self).wf(),
            final(self).at(channel@) == Some(value),
            forall|other: Seq<char>|
                other != channel@ ==> #[trigger] final(self).at(other) == old(self).at(other),
    {
        let ghost before = *self;
        let ghost text = channel@;
        match self.position(&channel) {
            Some(i) => {
                self.entries.set(i, ChannelEntry { channel, value });
                proof {
                    assert(self.stands_at(text, i as int));
                    self.lemma_at(text, i as int);
                    assert forall|other: Seq<char>| other != text implies #[trigger] self.at(other)
                        == before.at(other) by {
                        if before.has(other) {
                            let j = choose|j: int| #[trigger] before.stands_at(other, j);
                            assert(self.stands_at(other, j));
                            self.lemma_at(other, j);
                            before.lemma_at(other, j);
                        }
                        if self.has(other) {
                            let j = choose|j: int| #[trigger] self.stands_at(other, j);
                            assert(before.stands_at(other, j));
                        }
                    }
                }
            },
            None => {
                self.entries.push(ChannelEntry { channel, value });
                proof {
                    let n = before.entries@.len() as int;
                    assert forall|i: int, j: int|
                        0 <= i < self.entries@.len() && 0 <= j < self.entries@.len() && (#[trigger]
                        self.entries@[i]).channel@ == (#[trigger] self.entries@[j]).channel@ implies i
                        == j by {
                        if i < n && j == n {
                            assert(before.stands_at(text, i));
                        }
                        if j < n && i == n {
                            assert(before.stands_at(text, j));
                        }
                    }
                    assert(self.stands_at(text, n));
                    self.lemma_at(text, n);
                    assert forall|other: Seq<char>| other != text implies #[trigger] self.at(other)
                        == before.at(other) by {
                        if before.has(other) {
                            let j = choose|j: int| #[trigger] before.stands_at(other, j);
                            assert(self.stands_at(other, j));
                            self.lemma_at(other, j);
                            before.lemma_at(other, j);
                        }
                        if self.has(other) {
                            let j = choose|j: int| #[trigger] self.stands_at(other, j);
                            assert(before.stands_at(other, j));
                        }
                    }
                }
            },
        }
    }
}

} // verus!
