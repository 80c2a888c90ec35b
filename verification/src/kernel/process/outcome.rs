//! The address space of a process that has been laid out.

use vstd::prelude::*;

use crate::bytes;
use crate::common;
use crate::common::error::ErrorView;
use crate::common::guest;
use crate::common::{Protection, PAGE_SIZE};
use crate::kernel::process::laws;
use crate::kernel::process::model;
use crate::kernel::process::model::{ConfigView, AARCH64_BRK0};
use crate::loader::dyld::bind;
use crate::loader::dyld::bind::BindView;
use crate::loader::dyld::linker::ResolverView;
use crate::loader::macho::model::{ImageView, SegmentView};
use crate::memory::region;
use crate::memory::region::{RegionKind, RegionView};
use crate::memory::space;
use crate::memory::space::MemView;

verus! {

/// Whether a region of `len` bytes with protection `prot` is mapped at `base`.
pub open spec fn has(m: MemView, base: u64, len: int, prot: Protection) -> bool {
    let i = space::floor_index(m.regions, base);
    &&& i >= 0
    &&& m.regions[i].base == base
    &&& m.regions[i].data.len() == len
    &&& m.regions[i].prot == prot
}

/// Whether the region `r` is mapped.
pub open spec fn holds(m: MemView, r: RegionView) -> bool {
    let i = space::floor_index(m.regions, r.base);
    i >= 0 && m.regions[i] == r
}

/// Whether `b` has the regions of `a`, with other contents perhaps.
pub open spec fn alike(a: MemView, b: MemView) -> bool {
    &&& a.regions.len() == b.regions.len()
    &&& a.mmap_cursor == b.mmap_cursor
    &&& a.heap == b.heap
    &&& forall|k: int|
        #![trigger b.regions[k]]
        0 <= k < a.regions.len() ==> b.regions[k].base == a.regions[k].base && b.regions[k].prot
            == a.regions[k].prot && b.regions[k].data.len() == a.regions[k].data.len()
}

/// Where a segment goes.
pub open spec fn place_of(seg: SegmentView, slide: u64) -> u64 {
    seg.vmaddr.wrapping_add(slide)
}

/// How many bytes are mapped for a segment.
pub open spec fn extent(seg: SegmentView) -> int {
    common::up_to(seg.vmsize as int, PAGE_SIZE as int)
}

/// Whether every segment but the guard has a size.
pub open spec fn sized(segments: Seq<SegmentView>) -> bool {
    forall|k: int|
        0 <= k < segments.len() && !model::is_guard(#[trigger] segments[k]) ==> segments[k].vmsize
            > 0
}

pub proof fn lemma_extent(seg: SegmentView)
    requires
        seg.vmsize > 0,
    ensures
        extent(seg) > 0,
{
    common::lemma_page_size();
    common::rounding_brackets(seg.vmsize as int, PAGE_SIZE as int);
}

pub proof fn lemma_alike(a: MemView, b: MemView, addr: u64)
    requires
        alike(a, b),
    ensures
        space::floor_index(a.regions, addr) == space::floor_index(b.regions, addr),
        a.wf() ==> b.wf(),
{
    space::lemma_floor_index(a.regions, addr);
    space::lemma_floor_index(b.regions, addr);
    let f = space::floor_index(a.regions, addr);
    let g = space::floor_index(b.regions, addr);
    if f < g {
        assert(b.regions[g].base == a.regions[g].base);
    } else if g < f {
        assert(b.regions[f].base == a.regions[f].base);
    }
    if a.wf() {
        assert forall|i: int, j: int| 0 <= i < j < b.regions.len() implies (
        #[trigger] b.regions[i]).base < (#[trigger] b.regions[j]).base && b.regions[i].end()
            <= b.regions[j].base by {
            assert(a.regions[i].base < a.regions[j].base);
        }
        assert forall|i: int| 0 <= i < b.regions.len() implies (#[trigger] b.regions[i]).end()
            <= u64::MAX by {
            assert(a.regions[i].end() <= u64::MAX);
        }
    }
}

pub proof fn lemma_write(m: MemView, addr: u64, b: Seq<u8>)
    ensures
        alike(m, m.write(addr, b).0),
{
    space::lemma_floor_index(m.regions, addr);
}

/// A region that cannot be written stays as it is.
proof fn lemma_write_holds(m: MemView, addr: u64, b: Seq<u8>, r: RegionView)
    requires
        holds(m, r),
        !r.prot.grants(Protection(2)),
    ensures
        holds(m.write(addr, b).0, r),
{
    space::lemma_floor_index(m.regions, addr);
    space::lemma_floor_index(m.regions, r.base);
    lemma_write(m, addr, b);
    lemma_alike(m, m.write(addr, b).0, r.base);
}

/// What is mapped stays mapped when something else is.
pub proof fn lemma_place(
    m: MemView,
    base: u64,
    size: int,
    data: Seq<u8>,
    prot: Protection,
    kind: RegionKind,
    name: Seq<char>,
    r: RegionView,
)
    requires
        m.wf(),
        size > 0,
        holds(m, r),
        r.data.len() > 0,
        m.place(base, size, data, prot, kind, name).1 is Ok,
    ensures
        holds(m.place(base, size, data, prot, kind, name).0, r),
        r.base != base,
{
    let new = RegionView { base, prot, kind, name, data: region::zero_extended(data, size) };
    space::lemma_floor_index(m.regions, r.base);
    let f = space::floor_index(m.regions, r.base);
    assert(m.regions[f].base < base + size ==> m.regions[f].end() <= base);
    space::lemma_put(m.regions, new, r.base);
}

/// A region that is placed is mapped.
pub proof fn lemma_placed(
    m: MemView,
    base: u64,
    size: int,
    data: Seq<u8>,
    prot: Protection,
    kind: RegionKind,
    name: Seq<char>,
)
    requires
        m.wf(),
        size > 0,
        m.place(base, size, data, prot, kind, name).1 is Ok,
    ensures
        has(m.place(base, size, data, prot, kind, name).0, base, size, prot),
{
    let new = RegionView { base, prot, kind, name, data: region::zero_extended(data, size) };
    laws::lemma_fresh_floor(m, new, base);
}

/// Changing the protection of one region leaves the others alone.
pub proof fn lemma_protect(m: MemView, base: u64, len: int, old_prot: Protection, prot: Protection)
    requires
        m.wf(),
        len > 0,
        has(m, base, len, old_prot),
    ensures
        m.protect(base, prot).1 is Ok,
        m.protect(base, prot).0.wf(),
        has(m.protect(base, prot).0, base, len, prot),
        forall|r: RegionView|
            #![trigger holds(m.protect(base, prot).0, r)]
            holds(m, r) && r.base != base ==> holds(m.protect(base, prot).0, r),
{
    let after = m.protect(base, prot).0;
    let f = space::floor_index(m.regions, base);
    space::lemma_floor_index(m.regions, base);
    assert forall|addr: u64|
        #![trigger space::floor_index(after.regions, addr)]
        space::floor_index(after.regions, addr) == space::floor_index(m.regions, addr) by {
        space::lemma_floor_index(m.regions, addr);
        space::lemma_floor_index(after.regions, addr);
        let i = space::floor_index(m.regions, addr);
        let j = space::floor_index(after.regions, addr);
        if i < j {
            assert(after.regions[j].base == m.regions[j].base);
        } else if j < i {
            assert(after.regions[i].base == m.regions[i].base);
        }
    }
    assert forall|i: int, j: int| 0 <= i < j < after.regions.len() implies (
    #[trigger] after.regions[i]).base < (#[trigger] after.regions[j]).base
        && after.regions[i].end() <= after.regions[j].base by {
        assert(m.regions[i].base < m.regions[j].base);
    }
    assert forall|i: int| 0 <= i < after.regions.len() implies (#[trigger] after.regions[i]).end()
        <= u64::MAX by {
        assert(m.regions[i].end() <= u64::MAX);
    }
    assert forall|r: RegionView|
        #![trigger holds(after, r)]
        holds(m, r) && r.base != base implies holds(after, r) by {
        space::lemma_floor_index(m.regions, r.base);
        assert(space::floor_index(after.regions, r.base) == space::floor_index(m.regions, r.base));
    }
}

// ---- the stages -------------------------------------------------------------

/// Once the segments are mapped, every one that has a size is where it belongs,
/// readable and writable; no two start at the same address; and what was mapped
/// before still is.
pub proof fn lemma_map_segments(
    segments: Seq<SegmentView>,
    i: int,
    file: Seq<u8>,
    slide: u64,
    mem: MemView,
)
    requires
        mem.wf(),
        sized(segments),
        0 <= i <= segments.len(),
        model::map_segments(segments, i, file, slide, mem).1 is Ok,
    ensures
        ({
            let (m, r) = model::map_segments(segments, i, file, slide, mem);
            let bases = r->Ok_0;
            &&& m.wf()
            &&& bases.len() == segments.len() - i
            &&& forall|k: int|
                #![trigger segments[k]]
                i <= k < segments.len() ==> if model::is_guard(segments[k]) {
                    bases[k - i] is None
                } else {
                    &&& bases[k - i] == Some(place_of(segments[k], slide))
                    &&& has(m, place_of(segments[k], slide), extent(segments[k]), Protection(3))
                }
            &&& forall|k: int, l: int|
                #![trigger segments[k], segments[l]]
                i <= k < l < segments.len() && !model::is_guard(segments[k]) && !model::is_guard(
                    segments[l],
                ) ==> place_of(segments[k], slide) != place_of(segments[l], slide)
            &&& forall|q: RegionView|
                #![trigger holds(m, q)]
                holds(mem, q) && q.data.len() > 0 ==> holds(m, q)
            &&& forall|q: RegionView, k: int|
                #![trigger holds(mem, q), segments[k]]
                holds(mem, q) && q.data.len() > 0 && i <= k < segments.len() && !model::is_guard(
                    segments[k],
                ) ==> place_of(segments[k], slide) != q.base
        }),
    decreases segments.len() - i,
{
    if i < segments.len() {
        let seg = segments[i];
        if model::is_guard(seg) {
            lemma_map_segments(segments, i + 1, file, slide, mem);
            let (m, r) = model::map_segments(segments, i + 1, file, slide, mem);
            let all = model::map_segments(segments, i, file, slide, mem).1->Ok_0;
            assert(all == seq![None::<u64>] + r->Ok_0);
        } else {
            let base = place_of(seg, slide);
            let data = model::segment_data(seg, file);
            lemma_extent(seg);
            let m1 = mem.map_with_data(
                base,
                seg.vmsize,
                data,
                Protection(3),
                RegionKind::Segment,
                seg.name,
            ).0;
            space::placing_keeps_order(
                mem,
                base,
                extent(seg),
                data,
                Protection(3),
                RegionKind::Segment,
                seg.name,
            );
            lemma_placed(
                mem,
                base,
                extent(seg),
                data,
                Protection(3),
                RegionKind::Segment,
                seg.name,
            );
            assert forall|q: RegionView|
                #![trigger holds(m1, q)]
                holds(mem, q) && q.data.len() > 0 implies holds(m1, q) && q.base != base by {
                lemma_place(
                    mem,
                    base,
                    extent(seg),
                    data,
                    Protection(3),
                    RegionKind::Segment,
                    seg.name,
                    q,
                );
            }
            lemma_map_segments(segments, i + 1, file, slide, m1);
            let (m, r) = model::map_segments(segments, i + 1, file, slide, m1);
            let all = model::map_segments(segments, i, file, slide, mem).1->Ok_0;
            assert(all == seq![Some(base)] + r->Ok_0);
            let mine = m1.regions[space::floor_index(m1.regions, base)];
            assert(holds(m1, mine));
            assert(holds(m, mine));
            assert forall|k: int, l: int|
                #![trigger segments[k], segments[l]]
                i <= k < l < segments.len() && !model::is_guard(segments[k]) && !model::is_guard(
                    segments[l],
                ) implies place_of(segments[k], slide) != place_of(segments[l], slide) by {
                if k == i {
                    assert(holds(m1, mine));
                }
            }
            assert forall|q: RegionView, k: int|
                #![trigger holds(mem, q), segments[k]]
                holds(mem, q) && q.data.len() > 0 && i <= k < segments.len() && !model::is_guard(
                    segments[k],
                ) implies place_of(segments[k], slide) != q.base by {
                assert(holds(m1, q));
            }
            assert forall|q: RegionView|
                #![trigger holds(m, q)]
                holds(mem, q) && q.data.len() > 0 implies holds(m, q) by {
                assert(holds(m1, q));
            }
        }
    }
}

proof fn lemma_bind_all(
    records: Seq<BindView>,
    i: int,
    bases: Seq<Option<u64>>,
    mem: MemView,
    res: ResolverView,
)
    ensures
        alike(mem, model::bind_all(records, i, bases, mem, res).0),
    decreases records.len() - i,
{
    if 0 <= i < records.len() {
        let rec = records[i];
        if let Some(base) = model::base_of(bases, rec.seg_index) {
            let target = base.wrapping_add(rec.seg_offset);
            lemma_write(mem, target, bytes::le64_bytes(0));
            if let Some(t) = res.resolve(rec.symbol).1 {
                lemma_write(
                    mem,
                    target,
                    bytes::le64_bytes(crate::loader::dyld::leb::wrapped(t + rec.addend)),
                );
            }
        }
        let (m, r) = model::bind_one(rec, bases, mem, res);
        lemma_bind_all(records, i + 1, bases, m, r);
        let end = model::bind_all(records, i + 1, bases, m, r).0;
        assert forall|k: int| #![trigger end.regions[k]] 0 <= k < mem.regions.len() implies {
            &&& end.regions[k].base == mem.regions[k].base
            &&& end.regions[k].prot == mem.regions[k].prot
            &&& end.regions[k].data.len() == mem.regions[k].data.len()
        } by {
            assert(m.regions[k].base == mem.regions[k].base);
        }
    }
}

proof fn lemma_bind_stream(
    file: Seq<u8>,
    off: u32,
    size: u32,
    bases: Seq<Option<u64>>,
    mem: MemView,
    res: ResolverView,
)
    ensures
        alike(mem, model::bind_stream(file, off, size, bases, mem, res).0),
{
    if let Ok(stream) = model::stream_at(file, off, size) {
        if let Ok(records) = bind::bind_records(stream, 0, bind::initial()) {
            lemma_bind_all(records, 0, bases, mem, res);
        }
    }
}

pub proof fn lemma_bind_image(
    img: ImageView,
    file: Seq<u8>,
    bases: Seq<Option<u64>>,
    mem: MemView,
    res: ResolverView,
)
    ensures
        alike(mem, model::bind_image(img, file, bases, mem, res).0),
{
    if let Some(info) = img.dyld_info {
        lemma_bind_stream(file, info.bind_off, info.bind_size, bases, mem, res);
        let (m, r, _) = model::bind_stream(file, info.bind_off, info.bind_size, bases, mem, res);
        lemma_bind_stream(file, info.lazy_bind_off, info.lazy_bind_size, bases, m, r);
        let end = model::bind_image(img, file, bases, mem, res).0;
        assert forall|k: int| #![trigger end.regions[k]] 0 <= k < mem.regions.len() implies {
            &&& end.regions[k].base == mem.regions[k].base
            &&& end.regions[k].prot == mem.regions[k].prot
            &&& end.regions[k].data.len() == mem.regions[k].data.len()
        } by {
            assert(m.regions[k].base == mem.regions[k].base);
        }
    }
}

/// The trampoline area, once published.
pub open spec fn trampoline_region(base: u64, used: u64) -> RegionView {
    RegionView {
        base,
        prot: Protection(5),
        kind: RegionKind::Segment,
        name: "__stubs"@,
        data: model::sled(space::page_span(model::trampoline_need(used) as int)),
    }
}

pub proof fn lemma_span(need: u64)
    ensures
        space::page_span(need as int) > 0,
{
    common::lemma_page_size();
    let n = if need < 1 {
        1
    } else {
        need as int
    };
    common::rounding_brackets(n, PAGE_SIZE as int);
}

/// Publishing the trampolines maps their area and leaves the rest alone.
pub proof fn lemma_publish(mem: MemView, base: u64, used: u64)
    requires
        mem.wf(),
        model::publish_trampolines(mem, base, used).1 is Ok,
    ensures
        ({
            let m = model::publish_trampolines(mem, base, used).0;
            &&& m.wf()
            &&& holds(m, trampoline_region(base, used))
            &&& forall|b: u64, len: int, prot: Protection|
                #![trigger has(mem, b, len, prot)]
                has(mem, b, len, prot) && len > 0 ==> has(m, b, len, prot) && b != base
        }),
{
    let need = model::trampoline_need(used);
    let span = space::page_span(need as int);
    lemma_span(need);
    let m1 = mem.map(base, need, Protection(3), RegionKind::Segment, "__stubs"@).0;
    let m2 = m1.write(base, model::sled(span)).0;
    let m = m2.protect(base, Protection(5)).0;
    space::placing_keeps_order(
        mem,
        base,
        span,
        Seq::empty(),
        Protection(3),
        RegionKind::Segment,
        "__stubs"@,
    );
    lemma_placed(mem, base, span, Seq::empty(), Protection(3), RegionKind::Segment, "__stubs"@);
    lemma_write(m1, base, model::sled(span));
    lemma_alike(m1, m2, base);
    space::lemma_floor_index(m1.regions, base);
    assert(has(m2, base, span, Protection(3)));
    lemma_protect(m2, base, span, Protection(3), Protection(5));
    let g = laws::lemma_published(mem, base, used, base);
    let placed = RegionView {
        base,
        prot: Protection(3),
        kind: RegionKind::Segment,
        name: "__stubs"@,
        data: region::zero_extended(Seq::empty(), span),
    };
    laws::lemma_fresh_floor(mem, placed, base);
    assert(m1.regions[g] == placed);
    assert(m.regions[g].kind == RegionKind::Segment && m.regions[g].name == "__stubs"@);
    assert(m.regions[g] == trampoline_region(base, used));
    assert forall|b: u64, len: int, prot: Protection|
        #![trigger has(mem, b, len, prot)]
        has(mem, b, len, prot) && len > 0 implies has(m, b, len, prot) && b != base by {
        let r = mem.regions[space::floor_index(mem.regions, b)];
        assert(holds(mem, r));
        lemma_place(
            mem,
            base,
            span,
            Seq::empty(),
            Protection(3),
            RegionKind::Segment,
            "__stubs"@,
            r,
        );
        lemma_alike(m1, m2, b);
        space::lemma_floor_index(m1.regions, b);
        let r2 = m2.regions[space::floor_index(m2.regions, b)];
        assert(holds(m2, r2));
        assert(holds(m, r2));
    }
}

/// Once the segments are protected, each has its protection, and what is mapped
/// elsewhere is as it was.
pub proof fn lemma_protect_segments(
    segments: Seq<SegmentView>,
    bases: Seq<Option<u64>>,
    slide: u64,
    i: int,
    mem: MemView,
)
    requires
        mem.wf(),
        sized(segments),
        0 <= i <= segments.len(),
        bases.len() == segments.len(),
        forall|k: int|
            #![trigger segments[k]]
            0 <= k < segments.len() ==> bases[k] == if model::is_guard(segments[k]) {
                None
            } else {
                Some(place_of(segments[k], slide))
            },
        forall|k: int|
            #![trigger segments[k]]
            i <= k < segments.len() && !model::is_guard(segments[k]) ==> has(
                mem,
                place_of(segments[k], slide),
                extent(segments[k]),
                Protection(3),
            ),
        forall|k: int, l: int|
            #![trigger segments[k], segments[l]]
            0 <= k < l < segments.len() && !model::is_guard(segments[k]) && !model::is_guard(
                segments[l],
            ) ==> place_of(segments[k], slide) != place_of(segments[l], slide),
    ensures
        ({
            let (m, r) = model::protect_segments(segments, bases, i, mem);
            &&& r is Ok
            &&& m.wf()
            &&& forall|k: int|
                #![trigger segments[k]]
                i <= k < segments.len() && !model::is_guard(segments[k]) ==> has(
                    m,
                    place_of(segments[k], slide),
                    extent(segments[k]),
                    model::final_protection(segments[k]),
                )
            &&& forall|q: RegionView|
                #![trigger holds(m, q)]
                holds(mem, q) && (forall|k: int|
                    #![trigger segments[k]]
                    i <= k < segments.len() && !model::is_guard(segments[k]) ==> place_of(
                        segments[k],
                        slide,
                    ) != q.base) ==> holds(m, q)
        }),
    decreases segments.len() - i,
{
    if i < segments.len() {
        let seg = segments[i];
        if model::is_guard(seg) {
            lemma_protect_segments(segments, bases, slide, i + 1, mem);
        } else {
            let base = place_of(seg, slide);
            let prot = model::final_protection(seg);
            lemma_extent(seg);
            lemma_protect(mem, base, extent(seg), Protection(3), prot);
            let m1 = mem.protect(base, prot).0;
            assert forall|k: int|
                #![trigger segments[k]]
                i + 1 <= k < segments.len() && !model::is_guard(segments[k]) implies has(
                m1,
                place_of(segments[k], slide),
                extent(segments[k]),
                Protection(3),
            ) by {
                let b = place_of(segments[k], slide);
                assert(place_of(segments[i], slide) != b);
                let r = mem.regions[space::floor_index(mem.regions, b)];
                assert(holds(mem, r));
                assert(holds(m1, r));
            }
            lemma_protect_segments(segments, bases, slide, i + 1, m1);
            let m = model::protect_segments(segments, bases, i + 1, m1).0;
            let mine = m1.regions[space::floor_index(m1.regions, base)];
            assert(holds(m1, mine));
            assert forall|k: int|
                #![trigger segments[k]]
                i + 1 <= k < segments.len() && !model::is_guard(segments[k]) implies place_of(
                segments[k],
                slide,
            ) != mine.base by {
                assert(place_of(segments[i], slide) != place_of(segments[k], slide));
            }
            assert(holds(m, mine));
            assert forall|q: RegionView|
                #![trigger holds(m, q)]
                holds(mem, q) && (forall|k: int|
                    #![trigger segments[k]]
                    i <= k < segments.len() && !model::is_guard(segments[k]) ==> place_of(
                        segments[k],
                        slide,
                    ) != q.base) implies holds(m, q) by {
                assert(place_of(segments[i], slide) != q.base);
                assert(holds(m1, q));
            }
        }
    }
}

proof fn lemma_write_all(mem: MemView, writes: Seq<(u64, Seq<u8>)>, i: int, r: RegionView)
    requires
        holds(mem, r),
        !r.prot.grants(Protection(2)),
    ensures
        alike(mem, model::write_all(mem, writes, i).0),
        holds(model::write_all(mem, writes, i).0, r),
    decreases writes.len() - i,
{
    if 0 <= i < writes.len() {
        lemma_write(mem, writes[i].0, writes[i].1);
        lemma_write_holds(mem, writes[i].0, writes[i].1, r);
        let m = mem.write(writes[i].0, writes[i].1).0;
        lemma_write_all(m, writes, i + 1, r);
        let end = model::write_all(m, writes, i + 1).0;
        assert forall|k: int| #![trigger end.regions[k]] 0 <= k < mem.regions.len() implies {
            &&& end.regions[k].base == mem.regions[k].base
            &&& end.regions[k].prot == mem.regions[k].prot
            &&& end.regions[k].data.len() == mem.regions[k].data.len()
        } by {
            assert(m.regions[k].base == mem.regions[k].base);
        }
    }
}

/// Building the stack leaves everything else mapped as it is, and a region that
/// cannot be written with its contents.
pub proof fn lemma_build_stack(mem: MemView, cfg: ConfigView, r: RegionView)
    requires
        mem.wf(),
        model::build_stack(mem, cfg).1 is Ok,
        holds(mem, r),
        r.data.len() > 0,
        !r.prot.grants(Protection(2)),
    ensures
        ({
            let m = model::build_stack(mem, cfg).0;
            &&& m.wf()
            &&& holds(m, r)
            &&& forall|b: u64, len: int, prot: Protection|
                #![trigger has(m, b, len, prot)]
                has(mem, b, len, prot) && len > 0 ==> has(m, b, len, prot)
        }),
{
    let base = cfg.stack_top.wrapping_sub(cfg.stack_size);
    let span = space::page_span(cfg.stack_size as int);
    lemma_span(cfg.stack_size);
    let m1 = mem.map(base, cfg.stack_size, Protection(3), RegionKind::Stack, "stack"@).0;
    space::placing_keeps_order(
        mem,
        base,
        span,
        Seq::empty(),
        Protection(3),
        RegionKind::Stack,
        "stack"@,
    );
    lemma_place(mem, base, span, Seq::empty(), Protection(3), RegionKind::Stack, "stack"@, r);
    let path = vstd::utf8::encode_utf8(cfg.argv0);
    let l = model::stack_layout(cfg.stack_top, path.len() as u64);
    lemma_write_all(m1, model::stack_writes(l, path), 0, r);
    let m = model::write_all(m1, model::stack_writes(l, path), 0).0;
    lemma_alike(m1, m, 0);
    assert forall|b: u64, len: int, prot: Protection|
        #![trigger has(m, b, len, prot)]
        has(mem, b, len, prot) && len > 0 implies has(m, b, len, prot) by {
        let q = mem.regions[space::floor_index(mem.regions, b)];
        assert(holds(mem, q));
        lemma_place(mem, base, span, Seq::empty(), Protection(3), RegionKind::Stack, "stack"@, q);
        lemma_alike(m1, m, b);
        space::lemma_floor_index(m1.regions, b);
    }
}

// ---- the law ----------------------------------------------------------------

/// A process that has been laid out has every segment where the slide puts it,
/// in whole pages, with the protection the image asks for (readable, if it asks
/// for none), and a trampoline area that can be read and executed but not
/// written and consists of trap instructions. Segments without a size, which
/// can share their address with something else, are not considered.
pub proof fn processes_are_laid_out_as_asked(
    img: ImageView,
    file: Seq<u8>,
    mem: MemView,
    cfg: ConfigView,
)
    requires
        mem.wf(),
        sized(img.segments),
        model::built(img, file, mem, cfg).1 is Ok,
    ensures
        ({
            let (m, r) = model::built(img, file, mem, cfg);
            let p = r->Ok_0;
            &&& m.wf()
            &&& forall|k: int|
                #![trigger img.segments[k]]
                0 <= k < img.segments.len() && !model::is_guard(img.segments[k]) ==> has(
                    m,
                    place_of(img.segments[k], cfg.slide),
                    extent(img.segments[k]),
                    model::final_protection(img.segments[k]),
                )
            &&& p.trampoline_base == cfg.trampoline_base
            &&& p.trampoline_base < p.trampoline_end
            &&& has(
                m,
                p.trampoline_base,
                p.trampoline_end - p.trampoline_base,
                Protection(5),
            )
            &&& forall|k: int|
                0 <= k && 4 * k + 4 <= p.trampoline_end - p.trampoline_base
                    ==> #[trigger] m.read_u32((p.trampoline_base + 4 * k) as u64) == Ok::<
                    u32,
                    ErrorView,
                >(AARCH64_BRK0)
        }),
{
    let (m1, b) = model::map_segments(img.segments, 0, file, cfg.slide, mem);
    lemma_map_segments(img.segments, 0, file, cfg.slide, mem);
    let bases = b->Ok_0;
    let fresh = ResolverView::fresh(cfg.trampoline_base, cfg.trampoline_stride);
    lemma_bind_image(img, file, bases, m1, fresh);
    let (m2, res, _) = model::bind_image(img, file, bases, m1, fresh);
    lemma_alike(m1, m2, 0);
    let used = (res.next - res.base) as u64;
    let tb = cfg.trampoline_base;
    lemma_publish(m2, tb, used);
    let m3 = model::publish_trampolines(m2, tb, used).0;
    let t = trampoline_region(tb, used);
    let need = model::trampoline_need(used);
    let span = space::page_span(need as int);
    lemma_span(need);
    assert forall|k: int|
        #![trigger img.segments[k]]
        0 <= k < img.segments.len() && !model::is_guard(img.segments[k]) implies has(
        m3,
        place_of(img.segments[k], cfg.slide),
        extent(img.segments[k]),
        Protection(3),
    ) && place_of(img.segments[k], cfg.slide) != tb by {
        lemma_extent(img.segments[k]);
        let at = place_of(img.segments[k], cfg.slide);
        lemma_alike(m1, m2, at);
        space::lemma_floor_index(m1.regions, at);
        assert(has(m2, at, extent(img.segments[k]), Protection(3)));
        assert(has(m3, at, extent(img.segments[k]), Protection(3)));
    }
    assert forall|k: int|
        #![trigger img.segments[k]]
        0 <= k < img.segments.len() implies bases[k] == if model::is_guard(img.segments[k]) {
        None
    } else {
        Some(place_of(img.segments[k], cfg.slide))
    } by {
        assert(bases[k - 0] == bases[k]);
    }
    lemma_protect_segments(img.segments, bases, cfg.slide, 0, m3);
    let m4 = model::protect_segments(img.segments, bases, 0, m3).0;
    assert(holds(m4, t));
    guest::common_protections();
    lemma_build_stack(m4, cfg, t);
    let m = model::build_stack(m4, cfg).0;
    assert(tb + span <= u64::MAX);
    assert forall|k: int|
        #![trigger img.segments[k]]
        0 <= k < img.segments.len() && !model::is_guard(img.segments[k]) implies has(
        m,
        place_of(img.segments[k], cfg.slide),
        extent(img.segments[k]),
        model::final_protection(img.segments[k]),
    ) by {
        lemma_extent(img.segments[k]);
    }
    let g = space::floor_index(m.regions, tb);
    assert(m.regions[g] == t);
    assert forall|k: int| 0 <= k && 4 * k + 4 <= span implies #[trigger] m.read_u32(
        (tb + 4 * k) as u64,
    ) == Ok::<u32, ErrorView>(AARCH64_BRK0) by {
        let addr = (tb + 4 * k) as u64;
        lemma_inside(m, t, addr);
        laws::lemma_sled_word(span, k);
        bytes::le32_roundtrip(AARCH64_BRK0);
        assert(t.access(addr, 4, Protection(1)) == Ok::<int, ErrorView>(4 * k));
    }
}

/// An address in a region leads to it.
pub proof fn lemma_inside(m: MemView, r: RegionView, addr: u64)
    requires
        m.wf(),
        holds(m, r),
        r.base <= addr < r.end(),
    ensures
        ({
            let i = space::floor_index(m.regions, addr);
            i >= 0 && m.regions[i] == r
        }),
{
    let f = space::floor_index(m.regions, r.base);
    let g = space::floor_index(m.regions, addr);
    space::lemma_floor_index(m.regions, r.base);
    space::lemma_floor_index(m.regions, addr);
    if f < g {
        assert(m.regions[f].end() <= m.regions[g].base);
    } else if g < f {
        assert(addr < m.regions[f].base);
    }
}

} // verus!
