//! A minimal bump allocator backing the guest heap.

use vstd::prelude::*;

use crate::common;
use crate::common::error;
use crate::common::error::ErrorView;
use crate::common::{EmuError, EmuResult, GuestAddr};

verus! {

/// Bump-only arena with alignment.
pub struct BumpAllocator {
    pub base: GuestAddr,
    pub limit: GuestAddr,
    pub cursor: u64,
}

/// Mathematical view of a [`BumpAllocator`].
pub struct HeapView {
    pub base: u64,
    pub limit: u64,
    pub cursor: u64,
}

impl View for BumpAllocator {
    type V = HeapView;

    open spec fn view(&self) -> HeapView {
        HeapView { base: self.base.0, limit: self.limit.0, cursor: self.cursor }
    }
}

impl HeapView {
    /// An arena of `size` bytes at `base` with nothing handed out.
    pub open spec fn fresh(base: u64, size: u64) -> HeapView {
        HeapView { base, limit: base.wrapping_add(size), cursor: base }
    }

    /// The cursor never leaves the arena.
    pub open spec fn wf(self) -> bool {
        &&& self.base <= self.cursor
        &&& self.cursor == self.base || self.cursor <= self.limit
    }

    /// Where a block of alignment `align` starts.
    pub open spec fn next(self, align: u64) -> int {
        common::up_to(
            self.cursor as int,
            if align == 0 {
                1
            } else {
                align as int
            },
        )
    }

    /// Hand out `size` bytes (at least one) at the next multiple of `align`.
    pub open spec fn take(self, size: u64, align: u64) -> (HeapView, Result<u64, ErrorView>) {
        let start = self.next(align);
        let end = start + if size == 0 {
            1
        } else {
            size as int
        };
        if self.cursor + align > u64::MAX + 1 {
            (self, Err(error::memory_error(self.cursor, "heap alloc overflow"@)))
        } else if end > u64::MAX {
            (self, Err(error::memory_error(start as u64, "heap alloc overflow"@)))
        } else if end > self.limit {
            (self, Err(error::memory_error(end as u64, "heap exhausted"@)))
        } else {
            (HeapView { cursor: end as u64, ..self }, Ok(start as u64))
        }
    }
}

impl BumpAllocator {
    /// An empty arena of `size` bytes at `base`.
    pub fn new(base: GuestAddr, size: u64) -> (r: BumpAllocator)
        ensures
            r@ == HeapView::fresh(base.0, size),
            r@.wf(),
    {
        BumpAllocator { base, limit: base + size, cursor: base.raw() }
    }

    /// Allocate `size` bytes aligned to `align` (a power of two; zero counts as
    /// one). Fails if the arena is exhausted.
    pub fn allocate(&mut self, size: u64, align: u64) -> (r: EmuResult<GuestAddr>)
        requires
            old(self)@.wf(),
            align == 0 || vstd::arithmetic::power2::is_pow2(align as int),
        ensures
            (final(self)@, error::outcome(r)) == old(self)@.take(size, align),
            final(self)@.wf(),
    {
        proof {
            vstd::arithmetic::power2::is_pow2_equiv(1);
            reveal(vstd::arithmetic::power::pow);
            assert(vstd::arithmetic::power::pow(2, 0) == 1);
        }
        let align = if align == 0 {
            1
        } else {
            align
        };
        if align - 1 > u64::MAX - self.cursor {
            return Err(EmuError::Memory { addr: self.cursor, reason: "heap alloc overflow" });
        }
        let start = common::align_up(self.cursor, align);
        let size = if size == 0 {
            1
        } else {
            size
        };
        let end = match start.checked_add(size) {
            Some(e) => e,
            None => {
                return Err(EmuError::Memory { addr: start, reason: "heap alloc overflow" });
            },
        };
        if end > self.limit.raw() {
            return Err(EmuError::Memory { addr: end, reason: "heap exhausted" });
        }
        self.cursor = end;
        Ok(GuestAddr(start))
    }

    /// Bytes handed out so far, padding included.
    pub fn used(&self) -> (r: u64)
        requires
            self@.wf(),
        ensures
            r == self@.cursor - self@.base,
    {
        self.cursor - self.base.raw()
    }
}

/// A block that was handed out is aligned, lies in the arena, and lies behind
/// everything handed out before; a failed request changes nothing.
pub proof fn blocks_are_aligned_and_fresh(h: HeapView, size: u64, align: u64)
    requires
        h.wf(),
        align > 0,
    ensures
        match h.take(size, align) {
            (after, Ok(p)) => {
                &&& p % align == 0
                &&& h.cursor <= p
                &&& p + size <= after.cursor <= h.limit
                &&& p < after.cursor
                &&& after.base == h.base && after.limit == h.limit
                &&& after.wf()
            },
            (after, Err(_)) => after == h,
        },
{
    common::rounding_brackets(h.cursor as int, align as int);
}

/// Two blocks handed out one after the other do not overlap.
pub proof fn blocks_are_disjoint(h: HeapView, s1: u64, a1: u64, s2: u64, a2: u64)
    requires
        h.wf(),
        a1 > 0,
        a2 > 0,
    ensures
        h.take(s1, a1).1 matches Ok(p) ==> h.take(s1, a1).0.take(s2, a2).1 matches Ok(q) ==> p
            + s1 <= q && p != q,
{
    blocks_are_aligned_and_fresh(h, s1, a1);
    blocks_are_aligned_and_fresh(h.take(s1, a1).0, s2, a2);
}

} // verus!
