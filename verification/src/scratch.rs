//! The scratch arena used by the buffer-based merge sort: storage for one
//! merge step, sized exactly to the sub-range being merged, acquired before
//! the merge and released exactly once after it. Acquisitions and releases
//! are counted so the pairing can be both proved and observed by tests.

use vstd::prelude::*;

verus! {

/// Running counts of scratch-buffer acquisitions and releases.
pub struct ScratchStats {
    pub acquired: u64,
    pub released: u64,
}

impl ScratchStats {
    /// Fresh counters, both zero.
    pub fn new() -> (s: ScratchStats)
        ensures
            s.acquired == 0,
            s.released == 0,
    {
        ScratchStats { acquired: 0, released: 0 }
    }
}

/// A scratch buffer for one merge step: room for exactly `capacity`
/// elements, filled front to back.
pub struct ScratchBuffer {
    data: Vec<i32>,
    room: usize,
}

impl View for ScratchBuffer {
    type V = Seq<i32>;

    closed spec fn view(&self) -> Seq<i32> {
        self.data@
    }
}

impl ScratchBuffer {
    /// The fixed element capacity this buffer was acquired with.
    pub closed spec fn capacity(&self) -> usize {
        self.room
    }

    /// Acquire a fresh, empty buffer for `capacity` elements, counting the
    /// acquisition.
    pub fn acquire(stats: &mut ScratchStats, capacity: usize) -> (b: ScratchBuffer)
        requires
            old(stats).acquired < u64::MAX,
        ensures
            final(stats).acquired == old(stats).acquired + 1,
            final(stats).released == old(stats).released,
            b@ == Seq::<i32>::empty(),
            b.capacity() == capacity,
    {
        stats.acquired = stats.acquired + 1;
        ScratchBuffer { data: Vec::with_capacity(capacity), room: capacity }
    }

    /// Release the buffer, counting the release. Consumes the buffer, so no
    /// access after release is possible and no buffer can be released twice.
    pub fn release(self, stats: &mut ScratchStats)
        requires
            old(stats).released < u64::MAX,
        ensures
            final(stats).released == old(stats).released + 1,
            final(stats).acquired == old(stats).acquired,
    {
        stats.released = stats.released + 1;
    }

    /// How many elements have been placed into the buffer so far.
    pub fn len(&self) -> (n: usize)
        ensures
            n == self@.len(),
    {
        self.data.len()
    }

    /// Place one more element at the end of the buffer.
    pub fn append_element(&mut self, x: i32)
        requires
            old(self)@.len() < old(self).capacity(),
        ensures
            final(self)@ == old(self)@.push(x),
            final(self).capacity() == old(self).capacity(),
    {
        self.data.push(x);
    }

    /// Read the element at position `i`.
    pub fn element_at(&self, i: usize) -> (x: i32)
        requires
            i < self@.len(),
        ensures
            x == self@[i as int],
    {
        self.data[i]
    }
}

} // verus!
