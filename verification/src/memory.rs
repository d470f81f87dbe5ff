//! Stack memory bookkeeping: the bounds of a process stack and the reservation
//! of fresh, mutually disjoint virtual-address ranges for new stacks. Mapping
//! physical frames into a reserved range is the caller's concern; this module
//! only computes and tracks the addresses.

pub mod allocator;

use vstd::prelude::*;

verus! {

/// Bytes in one page of the address space.
pub const PAGE_SIZE: u64 = 4096;

/// First virtual address handed out for process stacks.
pub const STACK_REGION_BASE: u64 = 0x5555_5555_0000;

/// The half-open address range `[start, end)` owned by one process stack.
#[derive(Clone, Copy, Debug, PartialEq, Eq, Structural)]
pub struct StackBounds {
    pub start: u64,
    pub end: u64,
}

impl StackBounds {
    pub fn zero() -> (r: StackBounds)
        ensures
            r.start == 0,
            r.end == 0,
    {
        StackBounds { start: 0, end: 0 }
    }

    pub fn start(&self) -> (r: u64)
        ensures
            r == self.start,
    {
        self.start
    }

    pub fn end(&self) -> (r: u64)
        ensures
            r == self.end,
    {
        self.end
    }
}

/// Hands out page-aligned stack address ranges, each preceded by an unmapped
/// guard page, never reusing an address.
pub struct StackAllocator {
    next: u64,
}

impl StackAllocator {
    /// The lowest address not yet reserved.
    pub closed spec fn next_free(&self) -> u64 {
        self.next
    }

    /// The reservation point never leaves page alignment.
    pub closed spec fn wf(&self) -> bool {
        self.next % PAGE_SIZE == 0
    }

    pub fn new() -> (r: StackAllocator)
        ensures
            r.next_free() == STACK_REGION_BASE,
            r.wf(),
    {
        StackAllocator { next: STACK_REGION_BASE }
    }

    /// Reserves `size_in_pages` pages plus one leading guard page. The
    /// returned range starts above the guard page and everything below
    /// `next_free` stays reserved forever, so ranges never overlap.
    pub fn alloc_stack(&mut self, size_in_pages: u64) -> (r: StackBounds)
        requires
            old(self).wf(),
            old(self).next_free() + (size_in_pages + 1) * PAGE_SIZE <= u64::MAX,
        ensures
            r.start == old(self).next_free() + PAGE_SIZE,
            r.end == r.start + size_in_pages * PAGE_SIZE,
            final(self).next_free() == r.end,
            final(self).wf(),
            r.start % PAGE_SIZE == 0,
            r.end % PAGE_SIZE == 0,
    {
        let guard_page = self.next;
        let start = guard_page + PAGE_SIZE;
        let end = start + size_in_pages * PAGE_SIZE;
        self.next = end;
        StackBounds { start, end }
    }
}

} // verus!
