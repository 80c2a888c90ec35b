//! What the guest finds in its memory.

use vstd::prelude::*;

use crate::common;
use crate::common::error::ErrorView;
use crate::common::{Protection, PAGE_SIZE};
use crate::digits;
use crate::kernel::process::laws::lemma_fresh_floor;
use crate::memory::allocator::HeapView;
use crate::memory::region;
use crate::memory::region::{RegionKind, RegionView};
use crate::memory::space;
use crate::memory::space::MemView;
use crate::text;

verus! {

/// The three lowest bits of a protection grant reading, writing and executing.
pub proof fn protections_are_bits(p: Protection)
    ensures
        p.grants(Protection(1)) <==> p.0 % 2 == 1,
        p.grants(Protection(2)) <==> p.0 / 2 % 2 == 1,
        p.grants(Protection(4)) <==> p.0 / 4 % 2 == 1,
        p.grants(Protection(0)),
{
    let b = p.0;
    assert(b & 1 == 1 <==> b % 2 == 1) by (bit_vector);
    assert(b & 2 == 2 <==> b / 2 % 2 == 1) by (bit_vector);
    assert(b & 4 == 4 <==> b / 4 % 2 == 1) by (bit_vector);
    assert(b & 0 == 0) by (bit_vector);
}

/// The region that an address lies in is the one that is looked at.
proof fn lemma_region(m: MemView, k: int, addr: u64)
    requires
        m.wf(),
        0 <= k < m.regions.len(),
        m.regions[k].base <= addr < m.regions[k].end(),
    ensures
        space::floor_index(m.regions, addr) == k,
{
    space::lemma_floor_index(m.regions, addr);
    let f = space::floor_index(m.regions, addr);
    if f < k {
        assert(m.regions[k].base <= addr);
    } else if k < f {
        assert(m.regions[k].end() <= m.regions[f].base);
    }
}

/// Memory is what the regions hold: a range inside a region can be read if the
/// region grants it, and is its bytes; it can be written if the region grants
/// that, and then just these bytes change. A range that leaves its region cannot
/// be read or written.
pub proof fn memory_is_what_regions_hold(m: MemView, k: int, addr: u64, n: int, b: Seq<u8>)
    requires
        m.wf(),
        0 <= k < m.regions.len(),
        m.regions[k].base <= addr < m.regions[k].end(),
        0 <= n,
        b.len() == n,
    ensures
        ({
            let r = m.regions[k];
            let off = addr - r.base;
            &&& addr + n <= r.end() && r.prot.grants(Protection(1)) ==> m.read(addr, n) == Ok::<
                Seq<u8>,
                ErrorView,
            >(r.data.subrange(off, off + n))
            &&& addr + n <= r.end() && r.prot.grants(Protection(2)) ==> {
                let (after, w) = m.write(addr, b);
                &&& w is Ok
                &&& after == (MemView { regions: after.regions, ..m })
                &&& after.regions.len() == m.regions.len()
                &&& forall|j: int|
                    0 <= j < m.regions.len() && j != k ==> #[trigger] after.regions[j]
                        == m.regions[j]
                &&& after.regions[k] == (RegionView { data: after.regions[k].data, ..r })
                &&& after.regions[k].data.len() == r.data.len()
                &&& forall|i: int|
                    0 <= i < r.data.len() ==> #[trigger] after.regions[k].data[i] == if off <= i
                        < off + n {
                        b[i - off]
                    } else {
                        r.data[i]
                    }
            }
            &&& addr + n > r.end() || !r.prot.grants(Protection(1)) ==> m.read(addr, n) is Err
            &&& addr + n > r.end() || !r.prot.grants(Protection(2)) ==> m.write(addr, b).1 is Err
                && m.write(addr, b).0 == m
        }),
{
    lemma_region(m, k, addr);
}

/// Where there is no region there is nothing to read or write.
pub proof fn nothing_is_outside_the_regions(m: MemView, addr: u64, n: int, b: Seq<u8>)
    requires
        m.wf(),
        0 < n,
        b.len() == n,
        forall|k: int|
            0 <= k < m.regions.len() ==> addr < (#[trigger] m.regions[k]).base || m.regions[k].end()
                <= addr,
    ensures
        m.read(addr, n) is Err,
        m.write(addr, b).1 is Err,
        m.write(addr, b).0 == m,
{
    space::lemma_floor_index(m.regions, addr);
}

/// Memory is mapped in pages of 16 kilobytes, one at least.
pub proof fn pages_are_whole(size: int)
    requires
        0 <= size,
    ensures
        space::page_span(size) % 0x4000 == 0,
        space::page_span(size) >= 0x4000,
        size <= space::page_span(size),
        size >= 1 ==> space::page_span(size) < size + 0x4000,
        size == 0 ==> space::page_span(size) == 0x4000,
{
    common::rounding_brackets(
        if size < 1 {
            1
        } else {
            size
        },
        0x4000,
    );
}

/// A mapping is made unless it leaves the address space or overlaps another; a
/// refused one changes nothing.
pub proof fn mappings_do_not_overlap(
    m: MemView,
    base: u64,
    size: u64,
    prot: Protection,
    kind: RegionKind,
    name: Seq<char>,
)
    ensures
        ({
            let span = space::page_span(size as int);
            let (after, r) = m.map(base, size, prot, kind, name);
            &&& r is Ok <==> base + span <= u64::MAX && span <= usize::MAX && forall|k: int|
                0 <= k < m.regions.len() ==> (#[trigger] m.regions[k]).end() <= base || base + span
                    <= m.regions[k].base
            &&& r is Err ==> after == m
        }),
{
    let span = space::page_span(size as int);
    if space::overlaps(m.regions, base as int, base + span) {
        let i = choose|i: int|
            0 <= i < m.regions.len() && (#[trigger] m.regions[i]).base < base + span && base
                < m.regions[i].end();
        assert(!(m.regions[i].end() <= base || base + span <= m.regions[i].base));
    }
}

/// Memory that is mapped with contents holds them, and zeros behind them.
pub proof fn mapped_contents_are_found(
    m: MemView,
    base: u64,
    size: u64,
    data: Seq<u8>,
    prot: Protection,
    kind: RegionKind,
    name: Seq<char>,
    i: int,
)
    requires
        m.wf(),
        m.map_with_data(base, size, data, prot, kind, name).1 is Ok,
        0 <= i < size,
    ensures
        data.len() <= size,
        base + size <= u64::MAX,
        prot.grants(Protection(1)) ==> m.map_with_data(base, size, data, prot, kind, name).0.read_u8(
            (base + i) as u64,
        ) == Ok::<u8, ErrorView>(
            if i < data.len() {
                data[i]
            } else {
                0u8
            },
        ),
{
    let span = common::up_to(size as int, PAGE_SIZE as int);
    common::rounding_brackets(size as int, PAGE_SIZE as int);
    let r = RegionView { base, prot, kind, name, data: region::zero_extended(data, span) };
    let addr = (base + i) as u64;
    let after = m.map_with_data(base, size, data, prot, kind, name).0;
    space::placing_keeps_order(m, base, span, data, prot, kind, name);
    lemma_fresh_floor(m, r, addr);
}

/// Contents that are longer than the mapping are refused.
pub proof fn contents_have_to_fit(
    m: MemView,
    base: u64,
    size: u64,
    data: Seq<u8>,
    prot: Protection,
    kind: RegionKind,
    name: Seq<char>,
)
    requires
        data.len() > size,
    ensures
        m.map_with_data(base, size, data, prot, kind, name).1 is Err,
        m.map_with_data(base, size, data, prot, kind, name).0 == m,
{
}

/// Words are numbers whose lowest digit comes first.
pub proof fn words_start_with_their_lowest_byte(m: MemView, addr: u64, b: Seq<u8>)
    ensures
        b.len() == 4 && m.read(addr, 4) == Ok::<Seq<u8>, ErrorView>(b) ==> (m.read_u32(addr)
            matches Ok(v) && v == digits::numeral(b)),
        b.len() == 8 && m.read(addr, 8) == Ok::<Seq<u8>, ErrorView>(b) ==> (m.read_u64(addr)
            matches Ok(v) && v == digits::numeral(b)),
        b.len() == 1 && m.read(addr, 1) == Ok::<Seq<u8>, ErrorView>(b) ==> m.read_u8(addr) == Ok::<
            u8,
            ErrorView,
        >(b[0]),
{
    digits::values_are_numerals(b, 0);
    if b.len() == 4 {
        assert(b.subrange(0, 4) =~= b);
    }
    if b.len() == 8 {
        assert(b.subrange(0, 8) =~= b);
    }
}

/// A C string is the bytes up to the first NUL, and no more of them than were
/// asked for.
pub proof fn c_strings_end_at_the_first_nul(m: MemView, addr: u64, b: Seq<u8>, max: nat)
    requires
        addr + b.len() <= u64::MAX,
        forall|k: int|
            0 <= k < b.len() ==> b[k] != 0 && m.read_u8((addr + k) as u64) == Ok::<u8, ErrorView>(
                #[trigger] b[k],
            ),
        b.len() == max || (b.len() < max && m.read_u8((addr + b.len()) as u64) == Ok::<
            u8,
            ErrorView,
        >(0)),
    ensures
        m.read_cbytes(addr, max) == Ok::<Seq<u8>, ErrorView>(b),
        m.read_cstr(addr, max) == Ok::<Seq<char>, ErrorView>(text::utf8_lossy(b)),
    decreases b.len(),
{
    if b.len() > 0 {
        let rest = b.drop_first();
        let next = (addr + 1) as u64;
        assert(m.read_u8((addr + 0) as u64) == Ok::<u8, ErrorView>(b[0]));
        assert forall|k: int| 0 <= k < rest.len() implies rest[k] != 0 && m.read_u8(
            (next + k) as u64,
        ) == Ok::<u8, ErrorView>(#[trigger] rest[k]) by {
            assert(rest[k] == b[k + 1]);
            assert(next + k == addr + (k + 1));
        }
        c_strings_end_at_the_first_nul(m, next, rest, (max - 1) as nat);
        assert(seq![b[0]] + rest =~= b);
    } else {
        assert(b =~= Seq::empty());
    }
}

// ---- room -------------------------------------------------------------------

/// A fresh heap of `size` bytes hands out any block that fits into it, from its
/// start on, and no larger one.
pub proof fn fresh_heaps_have_their_size(base: u64, size: u64, n: u64)
    requires
        0 < base,
        base % 16 == 0,
        base + size <= u64::MAX - 16,
        n > 0,
    ensures
        n <= size ==> HeapView::fresh(base, size).take(n, 16).1 == Ok::<u64, ErrorView>(base),
        n > size ==> HeapView::fresh(base, size).take(n, 16).1 is Err,
{
    common::rounding_brackets(base as int, 16);
}

/// A block is handed out whenever it fits behind those before it, with no more
/// between them than the alignment needs.
pub proof fn heaps_hand_out_what_fits(h: HeapView, size: u64, align: u64)
    requires
        h.wf(),
        align > 0,
        h.cursor + align + size <= u64::MAX,
    ensures
        h.cursor + align + size <= h.limit ==> h.take(size, align).1 is Ok,
        h.take(size, align).1 matches Ok(p) ==> p < h.cursor + align && (size > 0
            ==> h.take(size, align).0.cursor == p + size),
        h.cursor + size > h.limit ==> h.take(size, align).1 is Err,
{
    common::rounding_brackets(h.cursor as int, align as int);
}

/// An anonymous mapping is made whenever there is room below those before it and
/// nothing is mapped there; it ends where the one before it starts.
pub proof fn anonymous_mappings_are_made_where_there_is_room(
    m: MemView,
    size: u64,
    prot: Protection,
)
    requires
        m.wf(),
        space::page_span(size as int) <= m.mmap_cursor,
        m.mmap_cursor <= usize::MAX,
        !space::overlaps(
            m.regions,
            m.mmap_cursor - space::page_span(size as int),
            m.mmap_cursor as int,
        ),
    ensures
        m.mmap_anon(size, prot).1 == Ok::<u64, ErrorView>(
            (m.mmap_cursor - space::page_span(size as int)) as u64,
        ),
{
    pages_are_whole(size as int);
    let span = space::page_span(size as int);
    common::rounding_brackets(
        if size < 1 {
            1
        } else {
            size as int
        },
        PAGE_SIZE as int,
    );
    assert(space::page_span(span) == span);
}

/// Changing a protection changes just that, of the region that the address lies
/// in; where there is none, nothing changes.
pub proof fn protecting_keeps_the_contents(m: MemView, k: int, addr: u64, prot: Protection)
    requires
        m.wf(),
        0 <= k < m.regions.len(),
        m.regions[k].base <= addr < m.regions[k].end(),
    ensures
        ({
            let (after, r) = m.protect(addr, prot);
            &&& r is Ok
            &&& after == (MemView { regions: after.regions, ..m })
            &&& after.regions.len() == m.regions.len()
            &&& after.regions[k] == (RegionView { prot, ..m.regions[k] })
            &&& forall|j: int|
                0 <= j < m.regions.len() && j != k ==> #[trigger] after.regions[j] == m.regions[j]
        }),
{
    lemma_region(m, k, addr);
}

/// An address space starts empty, with nothing handed out, and its anonymous
/// mappings below 8 gigabytes.
pub proof fn address_spaces_start_empty(base: u64, size: u64)
    requires
        base + size <= u64::MAX,
    ensures
        ({
            let m = MemView::empty(base, size);
            &&& m.regions.len() == 0
            &&& m.mmap_cursor == 0x2_0000_0000
            &&& m.heap.base == base && m.heap.cursor == base && m.heap.limit == base + size
            &&& m.wf()
        }),
{
}

} // verus!
