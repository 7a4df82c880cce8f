//! Issuing of jump-target identifiers for loops.

use vstd::prelude::*;

verus! {

/// Hands out loop label ids: odd, positive and strictly increasing. Each id `l`
/// reserves `l + 1` too, as the exit target of the same loop.
pub struct LabelAllocator {
    next: u64,
}

impl LabelAllocator {
    /// The id that the next call of `next` returns.
    pub closed spec fn upcoming(self) -> nat {
        self.next as nat
    }

    pub closed spec fn wf(self) -> bool {
        self.next % 2 == 1
    }

    /// Ids fit in 64 bits.
    pub proof fn lemma_upcoming_bounded(&self)
        ensures
            self.upcoming() <= u64::MAX,
    {
    }

    /// A fresh allocator, whose first id is 1.
    pub fn new() -> (r: LabelAllocator)
        ensures
            r.wf(),
            r.upcoming() == 1,
    {
        LabelAllocator { next: 1 }
    }

    /// Returns a fresh id, greater than every id returned before, and advances by two.
    pub fn next(&mut self) -> (r: u64)
        requires
            old(self).wf(),
            old(self).upcoming() + 2 <= u64::MAX,
        ensures
            final(self).wf(),
            r == old(self).upcoming(),
            r > 0,
            r % 2 == 1,
            final(self).upcoming() == old(self).upcoming() + 2,
    {
        let r = self.next;
        self.next = self.next + 2;
        r
    }
}

} // verus!
