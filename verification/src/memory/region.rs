//! A single mapped region of guest memory.

use vstd::prelude::*;

use crate::common::error;
use crate::common::error::ErrorView;
use crate::common::{EmuError, EmuResult, GuestAddr, Protection};

verus! {

/// Provenance of a region.
#[derive(Clone, Copy, Debug, PartialEq, Eq, Structural)]
pub enum RegionKind {
    /// A Mach-O segment.
    Segment,
    /// A thread stack.
    Stack,
    /// The managed malloc heap.
    Heap,
    /// Anonymous `mmap`.
    Anonymous,
    /// Shared kernel data.
    Commpage,
}

/// A contiguous span of guest memory with a host backing buffer.
pub struct Region {
    pub base: GuestAddr,
    pub prot: Protection,
    pub kind: RegionKind,
    pub name: String,
    /// Host bytes backing the region.
    pub data: Vec<u8>,
}

/// Mathematical view of a [`Region`].
#[verifier::ext_equal]
pub struct RegionView {
    pub base: u64,
    pub prot: Protection,
    pub kind: RegionKind,
    pub name: Seq<char>,
    pub data: Seq<u8>,
}

impl RegionView {
    /// One past the last address.
    pub open spec fn end(self) -> int {
        self.base + self.data.len()
    }

    /// Where in the region `[addr, addr + len)` starts, or why it may not be
    /// accessed with `need`.
    pub open spec fn access(self, addr: u64, len: int, need: Protection) -> Result<int, ErrorView> {
        if addr < self.base {
            Err(error::memory_error(addr, "before region"@))
        } else if addr - self.base + len > u64::MAX {
            Err(error::memory_error(addr, "length overflow"@))
        } else if addr + len > self.end() {
            Err(error::memory_error(addr, "past region end"@))
        } else if !self.prot.grants(need) {
            Err(error::memory_error(addr, "protection violation"@))
        } else {
            Ok(addr - self.base)
        }
    }

    /// The region with `bytes` written at offset `off`.
    pub open spec fn overwrite(self, off: int, bytes: Seq<u8>) -> RegionView {
        RegionView {
            data: self.data.subrange(0, off) + bytes + self.data.subrange(
                off + bytes.len(),
                self.data.len() as int,
            ),
            ..self
        }
    }
}

/// A region's contents: the initial bytes, then zeros.
pub open spec fn zero_extended(init: Seq<u8>, size: int) -> Seq<u8> {
    Seq::new(
        size as nat,
        |i: int|
            if i < init.len() {
                init[i]
            } else {
                0u8
            },
    )
}

impl View for Region {
    type V = RegionView;

    open spec fn view(&self) -> RegionView {
        RegionView {
            base: self.base.0,
            prot: self.prot,
            kind: self.kind,
            name: self.name@,
            data: self.data@,
        }
    }
}

impl Region {
    /// A zero-filled region.
    pub(crate) fn new_zeroed(
        base: GuestAddr,
        size: usize,
        prot: Protection,
        kind: RegionKind,
        name: &str,
    ) -> (r: Region)
        ensures
            r@ == (RegionView {
                base: base.0,
                prot,
                kind,
                name: name@,
                data: zero_extended(Seq::empty(), size as int),
            }),
    {
        let r = Region { base, prot, kind, name: name.to_owned(), data: vec![0u8; size] };
        assert(r@.data =~= zero_extended(Seq::empty(), size as int));
        r
    }

    /// A region that starts with `init` and is zero after it.
    pub(crate) fn new_from(
        base: GuestAddr,
        size: usize,
        init: &[u8],
        prot: Protection,
        kind: RegionKind,
        name: &str,
    ) -> (r: EmuResult<Region>)
        ensures
            error::outcome(r) == (if init@.len() > size {
                Err::<RegionView, ErrorView>(
                    error::memory_error(base.0, "init data exceeds region"@),
                )
            } else {
                Ok(
                    (RegionView {
                        base: base.0,
                        prot,
                        kind,
                        name: name@,
                        data: zero_extended(init@, size as int),
                    }),
                )
            }),
    {
        if init.len() > size {
            return Err(EmuError::Memory { addr: base.raw(), reason: "init data exceeds region" });
        }
        let mut data = vec![0u8; size];
        let mut i: usize = 0;
        while i < init.len()
            invariant
                i <= init@.len() <= size,
                data@.len() == size,
                forall|k: int| 0 <= k < i ==> data@[k] == init@[k],
                forall|k: int| i <= k < size ==> data@[k] == 0,
            decreases init@.len() - i,
        {
            data[i] = init[i];
            i += 1;
        }
        assert(data@ =~= zero_extended(init@, size as int));
        Ok(Region { base, prot, kind, name: name.to_owned(), data })
    }

    /// Size in bytes.
    pub fn size(&self) -> (r: u64)
        ensures
            r == self@.data.len(),
    {
        self.data.len() as u64
    }

    /// One past the last address (wrapping).
    pub fn end(&self) -> (r: GuestAddr)
        ensures
            r.0 == self@.base.wrapping_add(self@.data.len() as u64),
            self@.end() <= u64::MAX ==> r.0 == self@.end(),
    {
        self.base + self.size()
    }

    /// Whether `addr` lies in the region.
    pub fn contains(&self, addr: GuestAddr) -> (r: bool)
        ensures
            r == (self@.base <= addr.0 < self@.base.wrapping_add(self@.data.len() as u64)),
    {
        addr.0 >= self.base.0 && addr.0 < self.end().0
    }

    /// Borrow `[addr, addr+len)`, checking bounds and that the region grants `need`.
    pub fn subslice(&self, addr: GuestAddr, len: u64, need: Protection) -> (r: EmuResult<&[u8]>)
        ensures
            match self@.access(addr.0, len as int, need) {
                Ok(off) => r matches Ok(s) && s@ == self@.data.subrange(off, off + len),
                Err(e) => r matches Err(x) && x@ == e,
            },
    {
        let off = self.range(addr, len, need)?;
        Ok(vstd::slice::slice_subrange(self.data.as_slice(), off, off + len as usize))
    }

    /// Borrow `[addr, addr+len)` mutably, checking bounds and that the region
    /// grants `need`.
    pub fn subslice_mut(&mut self, addr: GuestAddr, len: u64, need: Protection) -> (r: EmuResult<
        &mut [u8],
    >)
        ensures
            match old(self)@.access(addr.0, len as int, need) {
                Ok(off) => r matches Ok(s) && s@ == old(self)@.data.subrange(off, off + len) && (
                final(s)@.len() == len ==> final(self)@ == old(self)@.overwrite(off, final(s)@)),
                Err(e) => r matches Err(x) && x@ == e && *final(self) == *old(self),
            },
    {
        let off = self.range(addr, len, need)?;
        let ghost before = self.data@;
        let (_, tail) = self.data.as_mut_slice().split_at_mut(off);
        let (mid, _) = tail.split_at_mut(len as usize);
        assert(mid@ =~= before.subrange(off as int, off + len));
        Ok(mid)
    }

    /// Raw bytes of the region; callers must respect `prot`.
    pub fn bytes(&self) -> (r: &[u8])
        ensures
            r@ == self@.data,
    {
        self.data.as_slice()
    }

    fn range(&self, addr: GuestAddr, len: u64, need: Protection) -> (r: EmuResult<usize>)
        ensures
            match self@.access(addr.0, len as int, need) {
                Ok(off) => r matches Ok(o) && o == off && o + len <= self@.data.len(),
                Err(e) => r matches Err(x) && x@ == e,
            },
            self@.data.len() <= usize::MAX,
    {
        let size: usize = self.data.len();
        if addr.0 < self.base.0 {
            return Err(EmuError::Memory { addr: addr.raw(), reason: "before region" });
        }
        let off = addr - self.base;
        let end = match off.checked_add(len) {
            Some(e) => e,
            None => {
                return Err(EmuError::Memory { addr: addr.raw(), reason: "length overflow" });
            },
        };
        if end > size as u64 {
            return Err(EmuError::Memory { addr: addr.raw(), reason: "past region end" });
        }
        if !self.prot.contains(need) {
            return Err(EmuError::Memory { addr: addr.raw(), reason: "protection violation" });
        }
        Ok(off as usize)
    }
}

} // verus!
