//! Pin allocation: unique, monotonically increasing conductor identifiers.

use vstd::prelude::*;

verus! {

/// Issues pin ids `0, 1, 2, ...`, one per placed conductor. An explicit value
/// owned by the placement operation, so allocation order is part of its
/// contract rather than ambient process state.
pub struct PinAllocator {
    pub next: u16,
}

impl PinAllocator {
    /// A fresh allocator; its first allocation returns pin 0.
    pub fn new() -> (r: Self)
        ensures
            r.next == 0,
    {
        PinAllocator { next: 0 }
    }

    /// Returns a fresh pin id, strictly greater than every id returned
    /// before: the ids of successive calls are `0, 1, 2, ...` in call order.
    pub fn allocate(&mut self) -> (r: u16)
        requires
            old(self).next < u16::MAX,
        ensures
            r == old(self).next,
            final(self).next == old(self).next + 1,
    {
        let r = self.next;
        self.next = self.next + 1;
        r
    }
}

} // verus!
