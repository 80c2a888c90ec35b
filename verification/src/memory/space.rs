//! The mathematical model of the guest address space.

use vstd::prelude::*;

use crate::bytes;
use crate::common;
use crate::common::error;
use crate::common::error::ErrorView;
use crate::common::{Protection, PAGE_SIZE};
use crate::memory::allocator::HeapView;
use crate::memory::region;
use crate::memory::region::{RegionKind, RegionView};
use crate::text;

verus! {

/// The top of the anonymous-mapping arena, which grows downward.
pub const MMAP_TOP: u64 = 0x0000_0002_0000_0000;

/// The address space of one process: its regions by ascending base, the bottom
/// of the anonymous mappings, and the malloc heap.
#[verifier::ext_equal]
pub struct MemView {
    pub regions: Seq<RegionView>,
    pub mmap_cursor: u64,
    pub heap: HeapView,
}

/// Index of the last region that starts at or below `addr`, or -1.
pub open spec fn floor_index(regions: Seq<RegionView>, addr: u64) -> int
    decreases regions.len(),
{
    if regions.len() == 0 {
        -1
    } else if regions.last().base <= addr {
        regions.len() - 1
    } else {
        floor_index(regions.drop_last(), addr)
    }
}

/// `floor_index` is the last index whose region starts at or below `addr`.
pub proof fn lemma_floor_index(regions: Seq<RegionView>, addr: u64)
    ensures
        -1 <= floor_index(regions, addr) < regions.len(),
        floor_index(regions, addr) >= 0 ==> regions[floor_index(regions, addr)].base <= addr,
        forall|k: int|
            floor_index(regions, addr) < k < regions.len() ==> addr < (#[trigger] regions[k]).base,
    decreases regions.len(),
{
    if regions.len() > 0 && regions.last().base > addr {
        lemma_floor_index(regions.drop_last(), addr);
        assert forall|k: int| floor_index(regions, addr) < k < regions.len() implies addr < (
        #[trigger] regions[k]).base by {
            if k < regions.len() - 1 {
                assert(regions.drop_last()[k] == regions[k]);
            }
        }
    }
}

/// Whether some region shares an address with `[start, end)`.
pub open spec fn overlaps(regions: Seq<RegionView>, start: int, end: int) -> bool {
    exists|i: int|
        0 <= i < regions.len() && (#[trigger] regions[i]).base < end && start < regions[i].end()
}

/// The regions with `r` in its place; a region of the same base is replaced.
pub open spec fn put(regions: Seq<RegionView>, r: RegionView) -> Seq<RegionView> {
    let i = floor_index(regions, r.base);
    if i >= 0 && regions[i].base == r.base {
        regions.update(i, r)
    } else {
        regions.insert(i + 1, r)
    }
}

/// `size`, at least one, rounded up to whole pages.
pub open spec fn page_span(size: int) -> int {
    common::up_to(
        if size < 1 {
            1
        } else {
            size
        },
        PAGE_SIZE as int,
    )
}

impl MemView {
    /// Regions are ordered and disjoint and end below the top of the address
    /// space; anonymous mappings stay page-aligned; the heap's cursor is in its
    /// arena.
    pub open spec fn wf(self) -> bool {
        &&& forall|i: int, j: int|
            0 <= i < j < self.regions.len() ==> (#[trigger] self.regions[i]).base < (
            #[trigger] self.regions[j]).base && self.regions[i].end() <= self.regions[j].base
        &&& forall|i: int|
            0 <= i < self.regions.len() ==> (#[trigger] self.regions[i]).end() <= u64::MAX
        &&& self.mmap_cursor % PAGE_SIZE == 0
        &&& self.heap.wf()
    }

    /// An address space with nothing mapped and an arena for the heap.
    pub open spec fn empty(heap_base: u64, heap_size: u64) -> MemView {
        MemView {
            regions: Seq::empty(),
            mmap_cursor: MMAP_TOP,
            heap: HeapView::fresh(heap_base, heap_size),
        }
    }

    /// Map `size` bytes that start with `data`, or say why not.
    pub open spec fn place(
        self,
        base: u64,
        size: int,
        data: Seq<u8>,
        prot: Protection,
        kind: RegionKind,
        name: Seq<char>,
    ) -> (MemView, Result<(), ErrorView>) {
        if base + size > u64::MAX || size > usize::MAX {
            (self, Err(error::memory_error(base, "map overflow"@)))
        } else if overlaps(self.regions, base as int, base + size) {
            (self, Err(error::memory_error(base, "map overlaps existing region"@)))
        } else {
            let r = RegionView { base, prot, kind, name, data: region::zero_extended(data, size) };
            (MemView { regions: put(self.regions, r), ..self }, Ok(()))
        }
    }

    /// Map a zero-filled region of whole pages.
    pub open spec fn map(
        self,
        base: u64,
        size: u64,
        prot: Protection,
        kind: RegionKind,
        name: Seq<char>,
    ) -> (MemView, Result<(), ErrorView>) {
        self.place(base, page_span(size as int), Seq::empty(), prot, kind, name)
    }

    /// Map a region of whole pages that starts with `data`, which may not be longer
    /// than `size`.
    pub open spec fn map_with_data(
        self,
        base: u64,
        size: u64,
        data: Seq<u8>,
        prot: Protection,
        kind: RegionKind,
        name: Seq<char>,
    ) -> (MemView, Result<(), ErrorView>) {
        if data.len() > size {
            (self, Err(error::memory_error(base, "init data exceeds region"@)))
        } else {
            self.place(base, common::up_to(size as int, PAGE_SIZE as int), data, prot, kind, name)
        }
    }

    /// Map anonymous pages below everything mapped this way before.
    pub open spec fn mmap_anon(self, size: u64, prot: Protection) -> (
        MemView,
        Result<u64, ErrorView>,
    ) {
        let span = page_span(size as int);
        if span > u64::MAX {
            (self, Err(error::memory_error(size, "mmap arena exhausted"@)))
        } else if span > self.mmap_cursor {
            (self, Err(error::memory_error(span as u64, "mmap arena exhausted"@)))
        } else {
            let base = (self.mmap_cursor - span) as u64;
            match self.map(base, span as u64, prot, RegionKind::Anonymous, "mmap"@) {
                (after, Ok(_)) => (MemView { mmap_cursor: base, ..after }, Ok(base)),
                (_, Err(e)) => (self, Err(e)),
            }
        }
    }

    /// Change the protection of the region that contains `addr`.
    pub open spec fn protect(self, addr: u64, prot: Protection) -> (
        MemView,
        Result<(), ErrorView>,
    ) {
        let i = floor_index(self.regions, addr);
        if i >= 0 && addr < self.regions[i].end() {
            let r = RegionView { prot, ..self.regions[i] };
            (MemView { regions: self.regions.update(i, r), ..self }, Ok(()))
        } else {
            (self, Err(error::memory_error(addr, "unmapped"@)))
        }
    }

    /// Take a block from the heap.
    pub open spec fn heap_alloc(self, size: u64, align: u64) -> (MemView, Result<u64, ErrorView>) {
        let (heap, r) = self.heap.take(size, align);
        (MemView { heap, ..self }, r)
    }

    /// The region and the offset in it that `[addr, addr + len)` starts at, or
    /// why it may not be accessed with `need`.
    pub open spec fn locate(self, addr: u64, len: int, need: Protection) -> Result<
        (int, int),
        ErrorView,
    > {
        let i = floor_index(self.regions, addr);
        if i < 0 {
            Err(error::memory_error(addr, "unmapped"@))
        } else {
            match self.regions[i].access(addr, len, need) {
                Ok(off) => Ok((i, off)),
                Err(e) => Err(e),
            }
        }
    }

    /// The bytes at `[addr, addr + len)`.
    pub open spec fn read(self, addr: u64, len: int) -> Result<Seq<u8>, ErrorView> {
        match self.locate(addr, len, Protection(1)) {
            Ok((i, off)) => Ok(self.regions[i].data.subrange(off, off + len)),
            Err(e) => Err(e),
        }
    }

    /// Write `bytes` at `addr`.
    pub open spec fn write(self, addr: u64, bytes: Seq<u8>) -> (MemView, Result<(), ErrorView>) {
        match self.locate(addr, bytes.len() as int, Protection(2)) {
            Ok((i, off)) => (
                MemView {
                    regions: self.regions.update(i, self.regions[i].overwrite(off, bytes)),
                    ..self
                },
                Ok(()),
            ),
            Err(e) => (self, Err(e)),
        }
    }

    /// The byte at `addr`.
    pub open spec fn read_u8(self, addr: u64) -> Result<u8, ErrorView> {
        match self.read(addr, 1) {
            Ok(b) => Ok(b[0]),
            Err(e) => Err(e),
        }
    }

    /// The 32-bit little-endian word at `addr`.
    pub open spec fn read_u32(self, addr: u64) -> Result<u32, ErrorView> {
        match self.read(addr, 4) {
            Ok(b) => Ok(bytes::le32(b, 0)),
            Err(e) => Err(e),
        }
    }

    /// The 64-bit little-endian word at `addr`.
    pub open spec fn read_u64(self, addr: u64) -> Result<u64, ErrorView> {
        match self.read(addr, 8) {
            Ok(b) => Ok(bytes::le64(b, 0)),
            Err(e) => Err(e),
        }
    }

    /// The bytes before the first NUL at or after `addr`, `max` at most.
    pub open spec fn read_cbytes(self, addr: u64, max: nat) -> Result<Seq<u8>, ErrorView>
        decreases max,
    {
        if max == 0 {
            Ok(Seq::empty())
        } else {
            match self.read_u8(addr) {
                Err(e) => Err(e),
                Ok(b) => if b == 0 {
                    Ok(Seq::empty())
                } else {
                    match self.read_cbytes(addr.wrapping_add(1), (max - 1) as nat) {
                        Err(e) => Err(e),
                        Ok(rest) => Ok(seq![b] + rest),
                    }
                },
            }
        }
    }

    /// The C string at `addr`, `max` bytes at most.
    pub open spec fn read_cstr(self, addr: u64, max: nat) -> Result<Seq<char>, ErrorView> {
        match self.read_cbytes(addr, max) {
            Ok(b) => Ok(text::utf8_lossy(b)),
            Err(e) => Err(e),
        }
    }
}

// ---- laws -------------------------------------------------------------------

/// Mapping keeps the address space well-formed.
pub proof fn placing_keeps_order(
    m: MemView,
    base: u64,
    size: int,
    data: Seq<u8>,
    prot: Protection,
    kind: RegionKind,
    name: Seq<char>,
)
    requires
        m.wf(),
        size >= 0,
    ensures
        m.place(base, size, data, prot, kind, name).0.wf(),
{
    let after = m.place(base, size, data, prot, kind, name).0;
    if after != m {
        let r = RegionView { base, prot, kind, name, data: region::zero_extended(data, size) };
        assert(r.data.len() == size);
        lemma_floor_index(m.regions, base);
        let f = floor_index(m.regions, base);
        assert forall|k: int| 0 <= k < m.regions.len() implies (#[trigger] m.regions[k]).base >= r.end()
            || m.regions[k].end() <= base by {}
        if f >= 0 && m.regions[f].base == base {
            assert forall|i: int, j: int| 0 <= i < j < after.regions.len() implies (
            #[trigger] after.regions[i]).base < (#[trigger] after.regions[j]).base
                && after.regions[i].end() <= after.regions[j].base by {
                assert(m.regions[i].base < m.regions[j].base);
            }
        } else {
            assert forall|i: int, j: int| 0 <= i < j < after.regions.len() implies (
            #[trigger] after.regions[i]).base < (#[trigger] after.regions[j]).base
                && after.regions[i].end() <= after.regions[j].base by {
                let oi = if i <= f {
                    i
                } else {
                    i - 1
                };
                let oj = if j <= f {
                    j
                } else {
                    j - 1
                };
                if i != f + 1 && j != f + 1 {
                    assert(m.regions[oi].base < m.regions[oj].base);
                } else if i == f + 1 {
                    assert(m.regions[oj].base > base);
                } else {
                    assert(m.regions[oi].base <= m.regions[f].base);
                }
            }
        }
    }
}

/// A successful write is what a read of the same range gives back.
pub proof fn read_after_write(m: MemView, addr: u64, bytes: Seq<u8>)
    requires
        m.wf(),
        m.write(addr, bytes).1 is Ok,
        m.read(addr, bytes.len() as int) is Ok,
    ensures
        m.write(addr, bytes).0.read(addr, bytes.len() as int) == Ok::<Seq<u8>, ErrorView>(bytes),
{
    let after = m.write(addr, bytes).0;
    lemma_same_layout(m, addr, bytes, addr);
    lemma_floor_index(m.regions, addr);
    let i = floor_index(m.regions, addr);
    let off = addr - m.regions[i].base;
    assert(after.regions[i].data.subrange(off, off + bytes.len()) =~= bytes);
}

/// A write moves no region.
pub proof fn lemma_same_layout(m: MemView, addr: u64, bytes: Seq<u8>, other: u64)
    requires
        m.wf(),
    ensures
        ({
            let after = m.write(addr, bytes).0;
            &&& after.regions.len() == m.regions.len()
            &&& floor_index(after.regions, other) == floor_index(m.regions, other)
            &&& forall|k: int|
                0 <= k < m.regions.len() ==> (#[trigger] after.regions[k]).base
                    == m.regions[k].base && after.regions[k].prot == m.regions[k].prot
                    && after.regions[k].data.len() == m.regions[k].data.len()
        }),
{
    let after = m.write(addr, bytes).0;
    lemma_floor_index(m.regions, addr);
    lemma_floor_index(m.regions, other);
    lemma_floor_index(after.regions, other);
    let f = floor_index(m.regions, other);
    let g = floor_index(after.regions, other);
    if f < g {
        assert(after.regions[g].base == m.regions[g].base);
    } else if g < f {
        assert(after.regions[f].base == m.regions[f].base);
    }
}

/// A write changes nothing that lies outside the range written.
pub proof fn write_leaves_the_rest(m: MemView, addr: u64, bytes: Seq<u8>, other: u64, len: int)
    requires
        m.wf(),
        len >= 0,
        other + len <= addr || addr + bytes.len() <= other,
    ensures
        m.write(addr, bytes).0.read(other, len) == m.read(other, len),
        m.write(addr, bytes).0.heap == m.heap,
        m.write(addr, bytes).0.mmap_cursor == m.mmap_cursor,
{
    let after = m.write(addr, bytes).0;
    lemma_same_layout(m, addr, bytes, other);
    lemma_floor_index(m.regions, other);
    lemma_floor_index(m.regions, addr);
    let i = floor_index(m.regions, other);
    if i >= 0 && m.read(other, len) is Ok {
        let off = other - m.regions[i].base;
        assert(after.regions[i].data.subrange(off, off + len) =~= m.regions[i].data.subrange(
            off,
            off + len,
        ));
    }
}

/// Access is granted only inside one region and only as far as its protection
/// allows: a write needs the write bit, a read the read bit.
pub proof fn protection_is_enforced(m: MemView, addr: u64, bytes: Seq<u8>)
    requires
        m.wf(),
    ensures
        m.write(addr, bytes).1 is Ok ==> exists|i: int|
            0 <= i < m.regions.len() && (#[trigger] m.regions[i]).base <= addr && addr
                + bytes.len() <= m.regions[i].end() && m.regions[i].prot.grants(Protection(2)),
        m.read(addr, bytes.len() as int) is Ok ==> exists|i: int|
            0 <= i < m.regions.len() && (#[trigger] m.regions[i]).base <= addr && addr
                + bytes.len() <= m.regions[i].end() && m.regions[i].prot.grants(Protection(1)),
        m.write(addr, bytes).1 is Err ==> m.write(addr, bytes).0 == m,
{
    lemma_floor_index(m.regions, addr);
}

/// A 32-bit word that was written is read back.
pub proof fn word32_roundtrip(m: MemView, addr: u64, v: u32)
    requires
        m.wf(),
        m.write(addr, bytes::le32_bytes(v)).1 is Ok,
        m.read(addr, 4) is Ok,
    ensures
        m.write(addr, bytes::le32_bytes(v)).0.read_u32(addr) == Ok::<u32, ErrorView>(v),
{
    read_after_write(m, addr, bytes::le32_bytes(v));
    bytes::le32_roundtrip(v);
}

/// A 64-bit word that was written is read back.
pub proof fn word64_roundtrip(m: MemView, addr: u64, v: u64)
    requires
        m.wf(),
        m.write(addr, bytes::le64_bytes(v)).1 is Ok,
        m.read(addr, 8) is Ok,
    ensures
        m.write(addr, bytes::le64_bytes(v)).0.read_u64(addr) == Ok::<u64, ErrorView>(v),
{
    bytes::le64_roundtrip(v);
    read_after_write(m, addr, bytes::le64_bytes(v));
}

/// Where an inserted region and the old ones are found afterwards.
pub proof fn lemma_put(regions: Seq<RegionView>, r: RegionView, addr: u64)
    requires
        forall|i: int, j: int|
            0 <= i < j < regions.len() ==> (#[trigger] regions[i]).base < (
            #[trigger] regions[j]).base,
    ensures
        ({
            let after = put(regions, r);
            let f = floor_index(regions, addr);
            let g = floor_index(after, addr);
            &&& r.base <= addr && (f < 0 || regions[f].base <= r.base) ==> g >= 0 && after[g] == r
            &&& (f >= 0 && (r.base > addr || regions[f].base > r.base)) ==> g >= 0 && after[g]
                == regions[f]
        }),
{
    let after = put(regions, r);
    lemma_floor_index(regions, addr);
    lemma_floor_index(regions, r.base);
    lemma_floor_index(after, addr);
    let p = floor_index(regions, r.base);
    let f = floor_index(regions, addr);
    let g = floor_index(after, addr);
    let replaced = p >= 0 && regions[p].base == r.base;
    if r.base <= addr && (f < 0 || regions[f].base <= r.base) {
        let at = if replaced {
            p
        } else {
            p + 1
        };
        assert(after[at] == r);
        if g > at {
            let o = if replaced {
                g
            } else {
                g - 1
            };
            assert(after[g] == regions[o]);
            assert(o > p);
            assert(regions[o].base > r.base);
            assert(regions[o].base <= addr);
            assert(o <= f);
            if o < f {
                assert(regions[o].base < regions[f].base);
            }
        }
    } else if f >= 0 && (r.base > addr || regions[f].base > r.base) {
        let at = if replaced || f <= p {
            f
        } else {
            f + 1
        };
        if r.base > addr {
            assert(f <= p);
            if replaced {
                assert(p != f);
            }
        } else {
            assert(f > p);
        }
        assert(after[at] == regions[f]);
        if g > at {
            if replaced {
                if g != p {
                    assert(after[g] == regions[g]);
                }
            } else if g != p + 1 {
                let o = if g <= p {
                    g
                } else {
                    g - 1
                };
                assert(after[g] == regions[o]);
                assert(o > f);
            }
        }
    }
}

/// A region that was just mapped reads as zeros (where its protection lets it
/// be read), and whatever could be read before still reads the same.
pub proof fn mapping_adds_zeros(
    m: MemView,
    base: u64,
    size: u64,
    prot: Protection,
    kind: RegionKind,
    name: Seq<char>,
    addr: u64,
    len: int,
)
    requires
        m.wf(),
        len >= 0,
        m.map(base, size, prot, kind, name).1 is Ok,
    ensures
        ({
            let after = m.map(base, size, prot, kind, name).0;
            &&& prot.grants(Protection(1)) && base <= addr && addr + len <= base + page_span(
                size as int,
            ) && addr < base + page_span(size as int) ==> after.read(addr, len) == Ok::<
                Seq<u8>,
                ErrorView,
            >(Seq::new(len as nat, |i: int| 0u8))
            &&& m.read(addr, len) is Ok && len > 0 ==> after.read(addr, len) == m.read(addr, len)
        }),
{
    let span = page_span(size as int);
    let after = m.map(base, size, prot, kind, name).0;
    let r = RegionView { base, prot, kind, name, data: region::zero_extended(Seq::empty(), span) };
    lemma_put(m.regions, r, addr);
    lemma_floor_index(m.regions, addr);
    let f = floor_index(m.regions, addr);
    let g = floor_index(after.regions, addr);
    if prot.grants(Protection(1)) && base <= addr && addr + len <= base + span && addr < base + span {
        if f >= 0 && m.regions[f].base > base {
            assert(m.regions[f].base < base + span);
            assert(m.regions[f].end() <= base);
        }
        let off = addr - base;
        assert(after.regions[g].data.subrange(off, off + len) =~= Seq::new(
            len as nat,
            |i: int| 0u8,
        ));
    }
    if m.read(addr, len) is Ok && len > 0 {
        if base <= addr && m.regions[f].base <= base {
            assert(m.regions[f].base < base + span);
            assert(base < m.regions[f].end());
        }
    }
}

/// An anonymous mapping is page-aligned, lies below every earlier one and
/// shares no address with anything mapped; a failed request changes nothing.
pub proof fn anonymous_mappings_are_fresh(m: MemView, size: u64, prot: Protection)
    requires
        m.wf(),
    ensures
        match m.mmap_anon(size, prot) {
            (after, Ok(p)) => {
                &&& p % PAGE_SIZE == 0
                &&& p + size <= m.mmap_cursor
                &&& after.mmap_cursor == p
                &&& !overlaps(m.regions, p as int, p + page_span(size as int))
                &&& after.wf()
            },
            (after, Err(_)) => after == m,
        },
{
    let span = page_span(size as int);
    common::rounding_brackets(
        if size < 1 {
            1
        } else {
            size as int
        },
        PAGE_SIZE as int,
    );
    if m.mmap_anon(size, prot).1 is Ok {
        let base = (m.mmap_cursor - span) as u64;
        placing_keeps_order(m, base, span, Seq::empty(), prot, RegionKind::Anonymous, "mmap"@);
        assert(page_span(span) == span);
    }
}

} // verus!
