//! Counting how often a message slot is referenced.
use vstd::prelude::*;

verus! {

/// A reference to a message: the publisher that owns it and the slot of that
/// publisher's arena.
pub type MessageRef = (usize, u64);

/// How often `r` occurs in `items`.
pub open spec fn count(items: Seq<(usize, u64)>, r: (usize, u64)) -> nat
    decreases items.len(),
{
    if items.len() == 0 {
        0
    } else {
        count(items.drop_last(), r) + if items.last() == r {
            1nat
        } else {
            0nat
        }
    }
}

/// How often `r` occurs in all of `groups` together.
pub open spec fn count_all(groups: Seq<Seq<(usize, u64)>>, r: (usize, u64)) -> nat
    decreases groups.len(),
{
    if groups.len() == 0 {
        0
    } else {
        count_all(groups.drop_last(), r) + count(groups.last(), r)
    }
}

/// How many of `items` refer to one of the first `n` slots of publisher `p`.
pub open spec fn count_below(items: Seq<(usize, u64)>, p: usize, n: nat) -> nat
    decreases items.len(),
{
    if items.len() == 0 {
        0
    } else {
        count_below(items.drop_last(), p, n) + if items.last().0 == p && items.last().1 < n {
            1nat
        } else {
            0nat
        }
    }
}

/// `count_below` over all of `groups` together.
pub open spec fn count_all_below(groups: Seq<Seq<(usize, u64)>>, p: usize, n: nat) -> nat
    decreases groups.len(),
{
    if groups.len() == 0 {
        0
    } else {
        count_all_below(groups.drop_last(), p, n) + count_below(groups.last(), p, n)
    }
}

pub proof fn lemma_count_push(items: Seq<(usize, u64)>, x: (usize, u64), r: (usize, u64))
    ensures
        count(items.push(x), r) == count(items, r) + if x == r {
            1nat
        } else {
            0nat
        },
{
    assert(items.push(x).drop_last() =~= items);
}

pub proof fn lemma_count_skip(items: Seq<(usize, u64)>, r: (usize, u64))
    requires
        items.len() > 0,
    ensures
        count(items, r) == count(items.skip(1), r) + if items[0] == r {
            1nat
        } else {
            0nat
        },
    decreases items.len(),
{
    if items.len() == 1 {
        assert(items.drop_last() =~= Seq::<(usize, u64)>::empty());
        assert(items.skip(1) =~= Seq::<(usize, u64)>::empty());
    } else {
        lemma_count_skip(items.drop_last(), r);
        assert(items.drop_last().skip(1) =~= items.skip(1).drop_last());
    }
}

pub proof fn lemma_count_add(a: Seq<(usize, u64)>, b: Seq<(usize, u64)>, r: (usize, u64))
    ensures
        count(a + b, r) == count(a, r) + count(b, r),
    decreases b.len(),
{
    if b.len() == 0 {
        assert(a + b =~= a);
    } else {
        lemma_count_add(a, b.drop_last(), r);
        assert((a + b).drop_last() =~= a + b.drop_last());
    }
}

pub proof fn lemma_count_member(items: Seq<(usize, u64)>, i: int)
    requires
        0 <= i < items.len(),
    ensures
        count(items, items[i]) > 0,
    decreases items.len(),
{
    if i < items.len() - 1 {
        lemma_count_member(items.drop_last(), i);
    }
}

pub proof fn lemma_count_found(items: Seq<(usize, u64)>, r: (usize, u64)) -> (i: int)
    requires
        count(items, r) > 0,
    ensures
        0 <= i < items.len(),
        items[i] == r,
    decreases items.len(),
{
    if items.last() == r {
        items.len() - 1
    } else {
        lemma_count_found(items.drop_last(), r)
    }
}

pub proof fn lemma_count_all_update(
    groups: Seq<Seq<(usize, u64)>>,
    i: int,
    group: Seq<(usize, u64)>,
    r: (usize, u64),
)
    requires
        0 <= i < groups.len(),
    ensures
        count_all(groups.update(i, group), r) == count_all(groups, r) - count(groups[i], r) + count(
            group,
            r,
        ),
        count_all(groups, r) >= count(groups[i], r),
    decreases groups.len(),
{
    let updated = groups.update(i, group);
    if i == groups.len() - 1 {
        assert(updated.drop_last() =~= groups.drop_last());
    } else {
        lemma_count_all_update(groups.drop_last(), i, group, r);
        assert(updated.drop_last() =~= groups.drop_last().update(i, group));
    }
}

pub proof fn lemma_count_all_push(
    groups: Seq<Seq<(usize, u64)>>,
    group: Seq<(usize, u64)>,
    r: (usize, u64),
)
    ensures
        count_all(groups.push(group), r) == count_all(groups, r) + count(group, r),
{
    assert(groups.push(group).drop_last() =~= groups);
}

/// Groups in which nothing refers to `r` count nothing.
pub proof fn lemma_count_all_none(groups: Seq<Seq<(usize, u64)>>, r: (usize, u64))
    requires
        forall|i: int| 0 <= i < groups.len() ==> count(#[trigger] groups[i], r) == 0,
    ensures
        count_all(groups, r) == 0,
    decreases groups.len(),
{
    if groups.len() > 0 {
        lemma_count_all_none(groups.drop_last(), r);
    }
}

pub proof fn lemma_count_below_step(items: Seq<(usize, u64)>, p: usize, n: u64)
    ensures
        count_below(items, p, (n + 1) as nat) == count_below(items, p, n as nat) + count(
            items,
            (p, n),
        ),
    decreases items.len(),
{
    if items.len() > 0 {
        lemma_count_below_step(items.drop_last(), p, n);
    }
}

pub proof fn lemma_count_all_below_step(groups: Seq<Seq<(usize, u64)>>, p: usize, n: u64)
    ensures
        count_all_below(groups, p, (n + 1) as nat) == count_all_below(groups, p, n as nat)
            + count_all(groups, (p, n)),
    decreases groups.len(),
{
    if groups.len() > 0 {
        lemma_count_all_below_step(groups.drop_last(), p, n);
        lemma_count_below_step(groups.last(), p, n);
    }
}

pub proof fn lemma_count_below_at_most(items: Seq<(usize, u64)>, p: usize, n: nat)
    ensures
        count_below(items, p, n) <= items.len(),
    decreases items.len(),
{
    if items.len() > 0 {
        lemma_count_below_at_most(items.drop_last(), p, n);
    }
}

} // verus!
