//! Guest address-space manager.
//!
//! [`GuestMemory`] is a sparse, ordered list of regions. Every access is checked
//! against the bounds and the protection of the region it falls in.

pub mod allocator;
pub mod laws;
pub mod region;
pub mod space;

use vstd::prelude::*;

pub use crate::memory::allocator::BumpAllocator;
pub use crate::memory::region::{Region, RegionKind};

use crate::bytes;
use crate::common;
use crate::common::error;
use crate::common::{EmuError, EmuResult, GuestAddr, Protection, PAGE_SIZE};
use crate::memory::region::RegionView;
use crate::memory::space::{MemView, MMAP_TOP};
use crate::text;

verus! {

/// The emulated address space of one process.
pub struct GuestMemory {
    /// The regions by ascending base.
    pub regions: Vec<Region>,
    /// Next free address for anonymous mappings, which grow down.
    pub mmap_cursor: u64,
    /// Managed heap for `malloc`.
    pub heap: BumpAllocator,
}

/// The views of a sequence of regions.
pub open spec fn views(rs: Seq<Region>) -> Seq<RegionView> {
    rs.map_values(|r: Region| r@)
}

impl View for GuestMemory {
    type V = MemView;

    open spec fn view(&self) -> MemView {
        MemView {
            regions: views(self.regions@),
            mmap_cursor: self.mmap_cursor,
            heap: self.heap@,
        }
    }
}

impl GuestMemory {
    /// An address space whose heap arena of `heap_size` bytes is mapped at
    /// `heap_base`.
    pub fn new(heap_base: GuestAddr, heap_size: u64) -> (r: EmuResult<GuestMemory>)
        ensures
            ({
                let (m, o) = MemView::empty(heap_base.0, heap_size).map(
                    heap_base.0,
                    heap_size,
                    Protection(3),
                    RegionKind::Heap,
                    "heap"@,
                );
                match o {
                    Ok(_) => r matches Ok(mem) && mem@ == m && mem@.wf(),
                    Err(e) => r matches Err(x) && x@ == e,
                }
            }),
    {
        let mut mem = GuestMemory {
            regions: Vec::new(),
            mmap_cursor: MMAP_TOP,
            heap: BumpAllocator::new(heap_base, heap_size),
        };
        assert(mem@ =~= MemView::empty(heap_base.0, heap_size));
        mem.map(heap_base, heap_size, Protection::rw(), RegionKind::Heap, "heap")?;
        Ok(mem)
    }

    /// Map a fresh, zero-filled region. Fails if it would overlap an existing
    /// mapping or leave the address space. `size` is rounded up to pages.
    pub fn map(
        &mut self,
        base: GuestAddr,
        size: u64,
        prot: Protection,
        kind: RegionKind,
        name: &str,
    ) -> (r: EmuResult<()>)
        requires
            old(self)@.wf(),
        ensures
            (final(self)@, error::outcome(r)) == old(self)@.map(base.0, size, prot, kind, name@),
            final(self)@.wf(),
    {
        proof {
            space::placing_keeps_order(
                self@,
                base.0,
                space::page_span(size as int),
                Seq::empty(),
                prot,
                kind,
                name@,
            );
        }
        let want = if size == 0 {
            1
        } else {
            size
        };
        let span = self.check_free(base, want)?;
        self.insert(Region::new_zeroed(base, span, prot, kind, name));
        Ok(())
    }

    /// Map a region initialised from `data`; what `size` adds to it is
    /// zero-filled. Data longer than `size` is an error.
    pub fn map_with_data(
        &mut self,
        base: GuestAddr,
        size: u64,
        data: &[u8],
        prot: Protection,
        kind: RegionKind,
        name: &str,
    ) -> (r: EmuResult<()>)
        requires
            old(self)@.wf(),
        ensures
            (final(self)@, error::outcome(r)) == old(self)@.map_with_data(
                base.0,
                size,
                data@,
                prot,
                kind,
                name@,
            ),
            final(self)@.wf(),
    {
        if data.len() as u64 > size {
            return Err(EmuError::Memory { addr: base.0, reason: "init data exceeds region" });
        }
        proof {
            common::rounding_brackets(size as int, PAGE_SIZE as int);
            space::placing_keeps_order(
                self@,
                base.0,
                common::up_to(size as int, PAGE_SIZE as int),
                data@,
                prot,
                kind,
                name@,
            );
        }
        let span = self.check_free(base, size)?;
        let region = Region::new_from(base, span, data, prot, kind, name)?;
        self.insert(region);
        Ok(())
    }

    /// Anonymous mapping at an address of the manager's choice, top-down.
    pub fn mmap_anon(&mut self, size: u64, prot: Protection) -> (r: EmuResult<GuestAddr>)
        requires
            old(self)@.wf(),
        ensures
            (final(self)@, error::outcome(r)) == old(self)@.mmap_anon(size, prot),
            final(self)@.wf(),
    {
        proof {
            common::lemma_page_size();
        }
        let want = if size == 0 {
            1
        } else {
            size
        };
        if want > u64::MAX - (PAGE_SIZE - 1) {
            return Err(EmuError::Memory { addr: size, reason: "mmap arena exhausted" });
        }
        let span = common::align_up(want, PAGE_SIZE);
        let base = match self.mmap_cursor.checked_sub(span) {
            Some(b) => b,
            None => {
                return Err(EmuError::Memory { addr: span, reason: "mmap arena exhausted" });
            },
        };
        let base = GuestAddr(base).align_down(PAGE_SIZE);
        self.map(base, span, prot, RegionKind::Anonymous, "mmap")?;
        self.mmap_cursor = base.raw();
        Ok(base)
    }

    /// Change the protection of the region containing `addr`.
    pub fn protect(&mut self, addr: GuestAddr, prot: Protection) -> (r: EmuResult<()>)
        requires
            old(self)@.wf(),
        ensures
            (final(self)@, error::outcome(r)) == old(self)@.protect(addr.0, prot),
            final(self)@.wf(),
    {
        proof {
            space::lemma_floor_index(self@.regions, addr.0);
        }
        match self.floor(addr) {
            Some(i) => {
                assert(self@.regions[i as int] == self.regions@[i as int]@);
                if self.regions[i].contains(addr) {
                    let ghost before = self.regions@;
                    self.regions[i].prot = prot;
                    proof {
                        let changed = RegionView { prot, ..views(before)[i as int] };
                        assert(views(self.regions@) =~= views(before).update(i as int, changed));
                        assert(old(self)@.wf());
                        assert forall|k: int, l: int| 0 <= k < l < self@.regions.len() implies (
                        #[trigger] self@.regions[k]).base < (#[trigger] self@.regions[l]).base
                            && self@.regions[k].end() <= self@.regions[l].base by {
                            assert(views(before)[k].base < views(before)[l].base);
                        }
                        assert forall|k: int| 0 <= k < self@.regions.len() implies (
                        #[trigger] self@.regions[k]).end() <= u64::MAX by {
                            assert(views(before)[k].end() <= u64::MAX);
                        }
                    }
                    return Ok(());
                }
            },
            None => {},
        }
        Err(EmuError::Memory { addr: addr.raw(), reason: "unmapped" })
    }

    /// Allocate `size` bytes from the managed heap.
    pub fn heap_alloc(&mut self, size: u64, align: u64) -> (r: EmuResult<GuestAddr>)
        requires
            old(self)@.wf(),
            align == 0 || vstd::arithmetic::power2::is_pow2(align as int),
        ensures
            (final(self)@, error::outcome(r)) == old(self)@.heap_alloc(size, align),
            final(self)@.wf(),
    {
        self.heap.allocate(size, align)
    }

    // ---- typed accessors ----------------------------------------------------

    /// Read exactly `buf.len()` bytes starting at `addr`.
    pub fn read(&self, addr: GuestAddr, buf: &mut [u8]) -> (r: EmuResult<()>)
        ensures
            match self@.read(addr.0, old(buf)@.len() as int) {
                Ok(b) => r is Ok && final(buf)@ == b,
                Err(e) => r matches Err(x) && x@ == e && final(buf)@ == old(buf)@,
            },
    {
        let src = self.slice(addr, buf.len() as u64, Protection::read())?;
        bytes::copy(buf, src);
        Ok(())
    }

    /// Read `len` bytes starting at `addr` into a vector of their own.
    pub fn read_vec(&self, addr: GuestAddr, len: u64) -> (r: EmuResult<Vec<u8>>)
        ensures
            error::outcome(r) == self@.read(addr.0, len as int),
    {
        let src = self.slice(addr, len, Protection::read())?;
        let v = vstd::slice::slice_to_vec(src);
        assert(v@ =~= src@);
        Ok(v)
    }

    /// Write `data` starting at `addr`, honouring write protection.
    pub fn write(&mut self, addr: GuestAddr, data: &[u8]) -> (r: EmuResult<()>)
        requires
            old(self)@.wf(),
        ensures
            (final(self)@, error::outcome(r)) == old(self)@.write(addr.0, data@),
            final(self)@.wf(),
    {
        let i = match self.floor(addr) {
            Some(i) => i,
            None => {
                return Err(EmuError::Memory { addr: addr.raw(), reason: "unmapped" });
            },
        };
        let ghost before = self.regions@;
        match self.regions[i].subslice_mut(addr, data.len() as u64, Protection::write()) {
            Ok(dst) => bytes::copy(dst, data),
            Err(e) => {
                assert(self.regions@ =~= before);
                return Err(e);
            },
        }
        proof {
            let at = addr.0 - before[i as int].base.0;
            let changed = before[i as int]@.overwrite(at, data@);
            assert(views(self.regions@) =~= views(before).update(i as int, changed));
            assert(changed.data.len() == before[i as int]@.data.len());
            assert forall|k: int, l: int| 0 <= k < l < self@.regions.len() implies (
            #[trigger] self@.regions[k]).base < (#[trigger] self@.regions[l]).base
                && self@.regions[k].end() <= self@.regions[l].base by {
                assert(views(before)[k].base < views(before)[l].base);
            }
            assert forall|k: int| 0 <= k < self@.regions.len() implies (
            #[trigger] self@.regions[k]).end() <= u64::MAX by {
                assert(views(before)[k].end() <= u64::MAX);
            }
        }
        Ok(())
    }

    /// Write `len` copies of `byte` starting at `addr`.
    pub fn fill(&mut self, addr: GuestAddr, byte: u8, len: u64) -> (r: EmuResult<()>)
        requires
            old(self)@.wf(),
        ensures
            (final(self)@, error::outcome(r)) == old(self)@.write(
                addr.0,
                Seq::new(len as nat, |i: int| byte),
            ),
            final(self)@.wf(),
    {
        let ghost data = Seq::new(len as nat, |i: int| byte);
        let i = match self.floor(addr) {
            Some(i) => i,
            None => {
                return Err(EmuError::Memory { addr: addr.raw(), reason: "unmapped" });
            },
        };
        let ghost before = self.regions@;
        match self.regions[i].subslice_mut(addr, len, Protection::write()) {
            Ok(dst) => bytes::fill(dst, byte),
            Err(e) => {
                assert(self.regions@ =~= before);
                return Err(e);
            },
        }
        proof {
            let at = addr.0 - before[i as int].base.0;
            let changed = before[i as int]@.overwrite(at, data);
            assert(views(self.regions@) =~= views(before).update(i as int, changed));
            assert(changed.data.len() == before[i as int]@.data.len());
            assert forall|k: int, l: int| 0 <= k < l < self@.regions.len() implies (
            #[trigger] self@.regions[k]).base < (#[trigger] self@.regions[l]).base
                && self@.regions[k].end() <= self@.regions[l].base by {
                assert(views(before)[k].base < views(before)[l].base);
            }
            assert forall|k: int| 0 <= k < self@.regions.len() implies (
            #[trigger] self@.regions[k]).end() <= u64::MAX by {
                assert(views(before)[k].end() <= u64::MAX);
            }
        }
        Ok(())
    }

    /// Read one byte.
    pub fn read_u8(&self, addr: GuestAddr) -> (r: EmuResult<u8>)
        ensures
            error::outcome(r) == self@.read_u8(addr.0),
    {
        let b = self.slice(addr, 1, Protection::read())?;
        Ok(b[0])
    }

    /// Read a 32-bit little-endian word.
    pub fn read_u32(&self, addr: GuestAddr) -> (r: EmuResult<u32>)
        ensures
            error::outcome(r) == self@.read_u32(addr.0),
    {
        let b = self.slice(addr, 4, Protection::read())?;
        Ok(bytes::get_le32(b, 0))
    }

    /// Read a 64-bit little-endian word.
    pub fn read_u64(&self, addr: GuestAddr) -> (r: EmuResult<u64>)
        ensures
            error::outcome(r) == self@.read_u64(addr.0),
    {
        let b = self.slice(addr, 8, Protection::read())?;
        Ok(bytes::get_le64(b, 0))
    }

    /// Write a 32-bit little-endian word.
    pub fn write_u32(&mut self, addr: GuestAddr, v: u32) -> (r: EmuResult<()>)
        requires
            old(self)@.wf(),
        ensures
            (final(self)@, error::outcome(r)) == old(self)@.write(addr.0, bytes::le32_bytes(v)),
            final(self)@.wf(),
    {
        let b = bytes::put_le32(v);
        self.write(addr, b.as_slice())
    }

    /// Write a 64-bit little-endian word.
    pub fn write_u64(&mut self, addr: GuestAddr, v: u64) -> (r: EmuResult<()>)
        requires
            old(self)@.wf(),
        ensures
            (final(self)@, error::outcome(r)) == old(self)@.write(addr.0, bytes::le64_bytes(v)),
            final(self)@.wf(),
    {
        let b = bytes::put_le64(v);
        self.write(addr, b.as_slice())
    }

    /// Read a NUL-terminated C string of at most `max` bytes.
    pub fn read_cstr(&self, addr: GuestAddr, max: usize) -> (r: EmuResult<String>)
        ensures
            error::outcome(r) == self@.read_cstr(addr.0, max as nat),
    {
        let mut out: Vec<u8> = Vec::new();
        let mut cur = addr;
        let mut left: usize = max;
        let ghost whole = self@.read_cbytes(addr.0, max as nat);
        while left > 0
            invariant
                whole == self@.read_cbytes(addr.0, max as nat),
                whole == (match self@.read_cbytes(cur.0, left as nat) {
                    Ok(rest) => Ok(out@ + rest),
                    Err(e) => Err(e),
                }),
            ensures
                whole == Ok::<Seq<u8>, error::ErrorView>(out@),
            decreases left,
        {
            let b = self.read_u8(cur)?;
            if b == 0 {
                assert(out@ + Seq::empty() =~= out@);
                break;
            }
            let ghost before = out@;
            out.push(b);
            proof {
                match self@.read_cbytes(cur.0.wrapping_add(1), (left - 1) as nat) {
                    Ok(rest) => {
                        assert(before + (seq![b] + rest) =~= out@ + rest);
                    },
                    Err(_) => {},
                }
            }
            cur = cur + 1;
            left -= 1;
            proof {
                if left == 0 {
                    assert(out@ + Seq::empty() =~= out@);
                }
            }
        }
        Ok(text::from_utf8_lossy(out.as_slice()))
    }

    /// The mapped regions in ascending address order.
    pub fn regions(&self) -> (r: &[Region])
        ensures
            views(r@) == self@.regions,
    {
        self.regions.as_slice()
    }

    // ---- internals ----------------------------------------------------------

    /// The last region that starts at or below `addr`.
    fn floor(&self, addr: GuestAddr) -> (r: Option<usize>)
        ensures
            match r {
                Some(i) => i == space::floor_index(self@.regions, addr.0) && i
                    < self@.regions.len(),
                None => space::floor_index(self@.regions, addr.0) < 0,
            },
    {
        let mut n: usize = self.regions.len();
        let ghost all = self@.regions;
        assert(all.take(n as int) =~= all);
        while n > 0
            invariant
                all == self@.regions,
                n <= self.regions@.len(),
                space::floor_index(all, addr.0) == space::floor_index(all.take(n as int), addr.0),
            decreases n,
        {
            assert(all.take(n as int).drop_last() =~= all.take(n - 1));
            assert(all.take(n as int).last() == self.regions@[n - 1]@);
            if self.regions[n - 1].base.0 <= addr.0 {
                return Some(n - 1);
            }
            n -= 1;
        }
        None
    }

    fn slice(&self, addr: GuestAddr, len: u64, need: Protection) -> (r: EmuResult<&[u8]>)
        ensures
            match self@.locate(addr.0, len as int, need) {
                Ok((i, off)) => r matches Ok(s) && s@ == self@.regions[i].data.subrange(
                    off,
                    off + len,
                ) && s@.len() == len,
                Err(e) => r matches Err(x) && x@ == e,
            },
    {
        match self.floor(addr) {
            Some(i) => self.regions[i].subslice(addr, len, need),
            None => Err(EmuError::Memory { addr: addr.raw(), reason: "unmapped" }),
        }
    }

    /// Round `size` up to pages and verify that nothing is mapped there.
    fn check_free(&self, base: GuestAddr, size: u64) -> (r: EmuResult<usize>)
        requires
            self@.wf(),
        ensures
            ({
                let span = common::up_to(size as int, PAGE_SIZE as int);
                if base.0 + span > u64::MAX || span > usize::MAX {
                    r matches Err(x) && x@ == error::memory_error(base.0, "map overflow"@)
                } else if space::overlaps(self@.regions, base.0 as int, base.0 + span) {
                    r matches Err(x) && x@ == error::memory_error(
                        base.0,
                        "map overlaps existing region"@,
                    )
                } else {
                    r matches Ok(s) && s == span
                }
            }),
    {
        proof {
            common::lemma_page_size();
        }
        let start = base.raw();
        if size > u64::MAX - (PAGE_SIZE - 1) {
            return Err(EmuError::Memory { addr: start, reason: "map overflow" });
        }
        let span = common::align_up(size, PAGE_SIZE);
        if span > usize::MAX as u64 {
            return Err(EmuError::Memory { addr: start, reason: "map overflow" });
        }
        let end = match start.checked_add(span) {
            Some(e) => e,
            None => {
                return Err(EmuError::Memory { addr: start, reason: "map overflow" });
            },
        };
        let mut i: usize = 0;
        while i < self.regions.len()
            invariant
                i <= self.regions@.len(),
                self@.wf(),
                start == base.0,
                span == common::up_to(size as int, PAGE_SIZE as int),
                span <= usize::MAX,
                end == start + span,
                forall|k: int|
                    0 <= k < i ==> !((#[trigger] self@.regions[k]).base < end && start
                        < self@.regions[k].end()),
            decreases self.regions@.len() - i,
        {
            let r = &self.regions[i];
            assert(self@.regions[i as int] == r@);
            if r.base.0 < end && start < r.end().0 {
                return Err(
                    EmuError::Memory { addr: start, reason: "map overlaps existing region" },
                );
            }
            i += 1;
        }
        Ok(span as usize)
    }

    /// Put a region in its place.
    fn insert(&mut self, region: Region)
        ensures
            final(self)@ == (MemView {
                regions: space::put(old(self)@.regions, region@),
                ..old(self)@
            }),
    {
        proof {
            space::lemma_floor_index(self@.regions, region.base.0);
        }
        let ghost before = self.regions@;
        assert(self.regions.len() == before.len());
        let at: usize = match self.floor(region.base) {
            Some(i) => {
                if self.regions[i].base == region.base {
                    self.regions[i] = region;
                    assert(views(self.regions@) =~= views(before).update(i as int, region@));
                    return;
                }
                i + 1
            },
            None => 0,
        };
        self.regions.insert(at, region);
        assert(views(self.regions@) =~= views(before).insert(at as int, region@));
    }
}

} // verus!
