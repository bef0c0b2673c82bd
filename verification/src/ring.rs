//! A position that walks round a ring of fixed size, in either direction.
use vstd::prelude::*;

verus! {

/// A cursor on a ring of `size` positions, numbered from zero. It never runs
/// out: after the last position comes the first one again.
#[derive(Copy, Clone, Debug)]
pub struct RingIterator {
    curr: usize,
    size: usize,
}

/// The position that follows `curr` on a ring of `size` positions.
pub open spec fn ring_succ(curr: int, size: int) -> int {
    (curr + 1) % size
}

/// The position that precedes `curr` on a ring of `size` positions.
pub open spec fn ring_pred(curr: int, size: int) -> int {
    (curr + size - 1) % size
}

impl RingIterator {
    #[verifier::type_invariant]
    spec fn on_ring(self) -> bool {
        self.curr < self.size
    }

    /// The position that the next step hands out.
    pub closed spec fn curr(self) -> usize {
        self.curr
    }

    /// The number of positions on the ring.
    pub closed spec fn size(self) -> usize {
        self.size
    }

    /// A cursor at position `curr` of a ring of `size` positions.
    pub fn new(curr: usize, size: usize) -> (ring: Self)
        requires
            curr < size,
        ensures
            ring.curr() == curr,
            ring.size() == size,
    {
        Self { curr, size }
    }

    /// Hands out the current position and moves one step forward.
    pub fn next(&mut self) -> (out: Option<usize>)
        ensures
            out == Some(old(self).curr()),
            final(self).size() == old(self).size(),
            final(self).curr() == ring_succ(old(self).curr() as int, old(self).size() as int),
    {
        proof {
            use_type_invariant(&*self);
        }
        let curr = self.curr;
        let size = self.size;
        let succ = (curr + 1) % size;
        *self = Self { curr: succ, size };
        Some(curr)
    }

    /// Hands out the current position and moves one step backward.
    pub fn next_back(&mut self) -> (out: Option<usize>)
        ensures
            out == Some(old(self).curr()),
            final(self).size() == old(self).size(),
            final(self).curr() == ring_pred(old(self).curr() as int, old(self).size() as int),
    {
        proof {
            use_type_invariant(&*self);
        }
        let curr = self.curr;
        let size = self.size;
        let pred = if curr == 0 {
            size - 1
        } else {
            curr - 1
        };
        proof {
            lemma_ring_pred(curr as int, size as int);
        }
        *self = Self { curr: pred, size };
        Some(curr)
    }

    /// The number of positions between the current one and the end of the
    /// ring's numbering.
    pub fn len(&self) -> (n: usize)
        ensures
            n == self.size() - (self.curr() + 1),
    {
        proof {
            use_type_invariant(self);
        }
        self.size - (self.curr + 1)
    }
}

/// On a ring, the position before `curr` is `curr - 1`, and the last position
/// where `curr` is the first.
pub proof fn lemma_ring_pred(curr: int, size: int)
    requires
        0 <= curr < size,
    ensures
        ring_pred(curr, size) == if curr == 0 {
            size - 1
        } else {
            curr - 1
        },
{
    if curr == 0 {
        vstd::arithmetic::div_mod::lemma_small_mod((size - 1) as nat, size as nat);
    } else {
        vstd::arithmetic::div_mod::lemma_mod_add_multiples_vanish(curr - 1, size);
        vstd::arithmetic::div_mod::lemma_small_mod((curr - 1) as nat, size as nat);
    }
}

/// On a ring, the position after `curr` is `curr + 1`, and the first position
/// where `curr` is the last.
pub proof fn lemma_ring_succ(curr: int, size: int)
    requires
        0 <= curr < size,
    ensures
        ring_succ(curr, size) == if curr == size - 1 {
            0
        } else {
            curr + 1
        },
{
    if curr == size - 1 {
        vstd::arithmetic::div_mod::lemma_mod_self_0(size);
    } else {
        vstd::arithmetic::div_mod::lemma_small_mod((curr + 1) as nat, size as nat);
    }
}

/// A step backward undoes a step forward, and a step forward undoes a step
/// backward.
pub proof fn lemma_ring_steps_cancel(curr: int, size: int)
    requires
        0 <= curr < size,
    ensures
        ring_pred(ring_succ(curr, size), size) == curr,
        ring_succ(ring_pred(curr, size), size) == curr,
        0 <= ring_succ(curr, size) < size,
        0 <= ring_pred(curr, size) < size,
{
    lemma_ring_succ(curr, size);
    lemma_ring_pred(curr, size);
    lemma_ring_pred(ring_succ(curr, size), size);
    lemma_ring_succ(ring_pred(curr, size), size);
}

} // verus!
