//! Which of a callback node's inputs still have to receive data.
use vstd::prelude::*;

use crate::scheduling::CallbackNodeId;

verus! {

/// Whether bit `index` of `mask` is set.
pub open spec fn bit_is_set(mask: usize, index: usize) -> bool {
    mask & (1usize << index) != 0
}

/// Tracks readiness of the gating (trigger + non-optional) subscribers of a
/// callback node in a bitmask. Each gating subscriber's bit is 0 (not ready)
/// or 1 (ready); unused bits are always 1. When the bitmask reaches
/// `usize::MAX`, all gating subscribers have data and the callback node can be
/// enqueued.
#[derive(Debug)]
pub struct CallbackNodeReadiness {
    pub bitmask: usize,
    pub node: Option<CallbackNodeId>,
}

/// A subscriber's part in its node's readiness.
#[derive(Debug, Clone, Copy, PartialEq, Eq, Structural)]
pub enum SubscriberReadiness {
    /// Data for this input sets a bit: the readiness it belongs to, then the
    /// bit's index.
    Gating(usize, usize),
    /// Data for this input nudges the node without owning a bit.
    OptionalTrigger(usize),
}

impl CallbackNodeReadiness {
    pub fn new(initial_bitmask: usize) -> (r: Self)
        ensures
            r.bitmask == initial_bitmask,
            r.node is None,
    {
        CallbackNodeReadiness { bitmask: initial_bitmask, node: None }
    }

    /// Whether every gating input has data.
    pub open spec fn all_ready(self) -> bool {
        self.bitmask == usize::MAX
    }

    /// Set bit `index`. Returns the node to enqueue if this was the transition
    /// to all bits being set; a bitmask that was complete before is not
    /// announced again.
    pub fn set_bit(&mut self, index: usize) -> (enqueue: Option<CallbackNodeId>)
        requires
            index < usize::BITS,
        ensures
            final(self).node == old(self).node,
            final(self).bitmask == old(self).bitmask | (1usize << index),
            forall|j: usize|
                j < usize::BITS ==> (#[trigger] bit_is_set(final(self).bitmask, j) <==> j == index
                    || bit_is_set(old(self).bitmask, j)),
            enqueue == if !old(self).all_ready() && final(self).all_ready() {
                old(self).node
            } else {
                None
            },
    {
        let bit: usize = 1usize << index;
        let prev: usize = self.bitmask;
        self.bitmask = prev | bit;
        proof {
            assert forall|j: usize| j < usize::BITS implies (#[trigger] bit_is_set(self.bitmask, j)
                <==> j == index || bit_is_set(prev, j)) by {
                lemma_set_bit(prev, index, j);
            }
        }
        if prev != usize::MAX && self.bitmask == usize::MAX {
            self.node
        } else {
            None
        }
    }

    /// Clear bit `index` (when the node drains write to read for this
    /// subscriber).
    pub fn clear_bit(&mut self, index: usize)
        requires
            index < usize::BITS,
        ensures
            final(self).node == old(self).node,
            final(self).bitmask == old(self).bitmask & !(1usize << index),
            forall|j: usize|
                j < usize::BITS ==> (#[trigger] bit_is_set(final(self).bitmask, j) <==> j != index
                    && bit_is_set(old(self).bitmask, j)),
    {
        let mask: usize = !(1usize << index);
        let prev: usize = self.bitmask;
        self.bitmask = prev & mask;
        proof {
            assert forall|j: usize| j < usize::BITS implies (#[trigger] bit_is_set(self.bitmask, j)
                <==> j != index && bit_is_set(prev, j)) by {
                lemma_clear_bit(prev, index, j);
            }
        }
    }

    /// Binds the node's identity, the first one that is given. Returns the
    /// node to enqueue if it is ready already (a start with preloaded data).
    pub fn register(&mut self, node: CallbackNodeId) -> (enqueue: Option<CallbackNodeId>)
        ensures
            final(self).bitmask == old(self).bitmask,
            final(self).node == if old(self).node is Some {
                old(self).node
            } else {
                Some(node)
            },
            enqueue == if old(self).all_ready() {
                final(self).node
            } else {
                None
            },
    {
        if self.node.is_none() {
            self.node = Some(node);
        }
        if self.bitmask == usize::MAX {
            self.node
        } else {
            None
        }
    }

    /// The node to enqueue if every gating input has data.
    pub fn enqueue_if_ready(&self) -> (enqueue: Option<CallbackNodeId>)
        ensures
            enqueue == if self.all_ready() {
                self.node
            } else {
                None
            },
    {
        if self.bitmask == usize::MAX {
            self.node
        } else {
            None
        }
    }
}

/// The bitmask with the lowest `gating_count` bits cleared: one for each
/// gating subscriber, packed densely from bit 0.
pub fn starting_bitmask(gating_count: usize) -> (bitmask: usize)
    requires
        gating_count <= usize::BITS,
    ensures
        forall|j: usize|
            j < usize::BITS ==> (#[trigger] bit_is_set(bitmask, j) <==> j >= gating_count),
        bitmask == usize::MAX <==> gating_count == 0,
{
    let mut bitmask: usize = usize::MAX;
    let mut bit_index: usize = 0;
    proof {
        assert forall|j: usize| j < usize::BITS implies #[trigger] bit_is_set(bitmask, j) by {
            lemma_full_mask(j);
        }
    }
    while bit_index < gating_count
        invariant
            bit_index <= gating_count <= usize::BITS,
            forall|j: usize|
                j < usize::BITS ==> (#[trigger] bit_is_set(bitmask, j) <==> j >= bit_index),
            bit_index == 0 ==> bitmask == usize::MAX,
        decreases gating_count - bit_index,
    {
        let ghost prev = bitmask;
        bitmask = bitmask & !(1usize << bit_index);
        proof {
            assert forall|j: usize| j < usize::BITS implies (#[trigger] bit_is_set(bitmask, j)
                <==> j >= bit_index + 1) by {
                lemma_clear_bit(prev, bit_index, j);
            }
        }
        bit_index = bit_index + 1;
    }
    proof {
        if gating_count > 0 {
            lemma_full_mask(0);
            assert(!bit_is_set(bitmask, 0));
        }
    }
    bitmask
}

pub(crate) proof fn lemma_set_bit(prev: usize, index: usize, j: usize)
    requires
        index < usize::BITS,
        j < usize::BITS,
    ensures
        bit_is_set(prev | (1usize << index), j) <==> j == index || bit_is_set(prev, j),
{
    assert((prev | (1usize << index)) & (1usize << j) != 0 <==> j == index || prev & (1usize << j)
        != 0) by (bit_vector)
        requires
            index < usize::BITS,
            j < usize::BITS,
    ;
}

pub(crate) proof fn lemma_clear_bit(prev: usize, index: usize, j: usize)
    requires
        index < usize::BITS,
        j < usize::BITS,
    ensures
        bit_is_set(prev & !(1usize << index), j) <==> j != index && bit_is_set(prev, j),
{
    assert((prev & !(1usize << index)) & (1usize << j) != 0 <==> j != index && prev & (1usize << j)
        != 0) by (bit_vector)
        requires
            index < usize::BITS,
            j < usize::BITS,
    ;
}

/// All bits set is the greatest value.
proof fn lemma_all_ones()
    ensures
        !0usize == usize::MAX,
{
    let full = usize::MAX;
    assert(full <= !0usize) by (bit_vector);
}

proof fn lemma_full_mask(j: usize)
    requires
        j < usize::BITS,
    ensures
        bit_is_set(usize::MAX, j),
{
    lemma_all_ones();
    let full = !0usize;
    assert(full & (1usize << j) != 0) by (bit_vector)
        requires
            full == !0usize,
            j < usize::BITS,
    ;
}

/// A bitmask is complete exactly when each of its bits is set: the node is
/// enqueued when the last gating input that lacked data gets some.
pub proof fn law_complete_means_every_bit(mask: usize)
    ensures
        mask == usize::MAX <==> forall|j: usize| j < usize::BITS ==> #[trigger] bit_is_set(mask, j),
{
    if mask == usize::MAX {
        assert forall|j: usize| j < usize::BITS implies #[trigger] bit_is_set(mask, j) by {
            lemma_full_mask(j);
        }
    }
    if forall|j: usize| j < usize::BITS ==> #[trigger] bit_is_set(mask, j) {
        lemma_low_bits(mask, (usize::BITS - 1) as usize);
        let top = (usize::BITS - 1) as usize;
        assert(bit_is_set(mask, top));
        lemma_all_ones();
        assert(mask == !0usize) by (bit_vector)
            requires
                top == usize::BITS - 1,
                mask & (1usize << top) != 0,
                mask & (((1usize << top) - 1) as usize) == (((1usize << top) - 1) as usize),
        ;
    }
}

proof fn lemma_low_bits(mask: usize, n: usize)
    requires
        n < usize::BITS,
        forall|j: usize| j < usize::BITS ==> #[trigger] bit_is_set(mask, j),
    ensures
        mask & (((1usize << n) - 1) as usize) == (((1usize << n) - 1) as usize),
    decreases n,
{
    if n == 0 {
        assert(mask & (((1usize << n) - 1) as usize) == (((1usize << n) - 1) as usize)) by (bit_vector)
            requires
                n == 0,
        ;
    } else {
        let m = (n - 1) as usize;
        lemma_low_bits(mask, m);
        assert(bit_is_set(mask, m));
        assert(mask & (((1usize << n) - 1) as usize) == (((1usize << n) - 1) as usize)) by (bit_vector)
            requires
                n == m + 1,
                n < usize::BITS,
                mask & (1usize << m) != 0,
                mask & (((1usize << m) - 1) as usize) == (((1usize << m) - 1) as usize),
        ;
    }
}

/// Draining a gating input and then receiving data for it brings its bit back:
/// a node that was complete is announced again.
pub proof fn law_redelivery_completes_again(mask: usize, index: usize)
    requires
        index < usize::BITS,
        mask == usize::MAX,
    ensures
        mask & !(1usize << index) != usize::MAX,
        (mask & !(1usize << index)) | (1usize << index) == usize::MAX,
{
    lemma_all_ones();
    assert(mask & !(1usize << index) != !0usize && (mask & !(1usize << index)) | (1usize << index)
        == !0usize) by (bit_vector)
        requires
            index < usize::BITS,
            mask == !0usize,
    ;
}

} // verus!
