//! Monotonic bump allocator backing AST node allocation.

use vstd::prelude::*;

verus! {

/// A bump allocator that reserves a fixed byte budget up front and hands out
/// strictly increasing offsets, each sized to the requested footprint. It
/// never stores or frees data: capacity is consumed monotonically for the
/// lifetime of the value.
pub struct ArenaAllocator {
    size: usize,
    buffer: Vec<u8>,
    offset: usize,
}

impl ArenaAllocator {
    /// The fixed byte budget the allocator was constructed with.
    pub closed spec fn capacity(&self) -> nat {
        self.size as nat
    }

    /// How many bytes have been handed out so far.
    pub closed spec fn used(&self) -> nat {
        self.offset as nat
    }

    /// The reserved backing storage matches the budget and has not been
    /// overrun.
    pub closed spec fn wf(&self) -> bool {
        self.offset <= self.size && self.buffer@.len() == self.size
    }

    /// Reserves `bytes` bytes of backing storage; nothing is allocated yet.
    pub fn new(bytes: usize) -> (a: ArenaAllocator)
        ensures
            a.wf(),
            a.capacity() == bytes,
            a.used() == 0,
    {
        let mut buffer: Vec<u8> = Vec::new();
        while buffer.len() < bytes
            invariant
                buffer@.len() <= bytes,
            decreases bytes - buffer@.len(),
        {
            buffer.push(0u8);
        }
        ArenaAllocator { size: bytes, buffer, offset: 0 }
    }

    /// Returns the current offset and advances it by `size_of` bytes.
    /// Offsets are strictly increasing; nothing is ever reused or freed.
    /// Exhausting the budget is ruled out by the precondition.
    pub fn allocate(&mut self, size_of: usize) -> (off: usize)
        requires
            old(self).used() + size_of <= old(self).capacity(),
        ensures
            off == old(self).used(),
            final(self).used() == old(self).used() + size_of,
            final(self).capacity() == old(self).capacity(),
            old(self).wf() ==> final(self).wf(),
    {
        let old_offset = self.offset;
        self.offset = self.offset + size_of;
        old_offset
    }
}

} // verus!
