//! Write or execute: laying out a process never makes memory that is both
//! writable and executable.

use vstd::prelude::*;

use crate::common::guest;
use crate::common::Protection;
use crate::kernel::process::model;
use crate::kernel::process::model::ConfigView;
use crate::loader::dyld::bind;
use crate::loader::dyld::bind::BindView;
use crate::loader::dyld::linker::ResolverView;
use crate::loader::macho::model::{ImageView, SegmentView};
use crate::memory::region::RegionKind;
use crate::memory::space;
use crate::memory::space::MemView;

verus! {

/// Whether a protection does not grant writing and executing at once.
pub open spec fn exclusive(p: Protection) -> bool {
    !(p.grants(Protection(2)) && p.grants(Protection(4)))
}

/// Whether no region is writable and executable at once.
pub open spec fn all_exclusive(m: MemView) -> bool {
    forall|i: int| 0 <= i < m.regions.len() ==> exclusive((#[trigger] m.regions[i]).prot)
}

proof fn lemma_place(
    m: MemView,
    base: u64,
    size: int,
    data: Seq<u8>,
    prot: Protection,
    kind: RegionKind,
    name: Seq<char>,
)
    requires
        all_exclusive(m),
        exclusive(prot),
    ensures
        all_exclusive(m.place(base, size, data, prot, kind, name).0),
{
    space::lemma_floor_index(m.regions, base);
    let f = space::floor_index(m.regions, base);
    let after = m.place(base, size, data, prot, kind, name).0;
    assert forall|i: int| 0 <= i < after.regions.len() implies exclusive(
        (#[trigger] after.regions[i]).prot,
    ) by {
        if after != m {
            if f >= 0 && m.regions[f].base == base {
                if i != f {
                    assert(after.regions[i] == m.regions[i]);
                }
            } else if i < f + 1 {
                assert(after.regions[i] == m.regions[i]);
            } else if i > f + 1 {
                assert(after.regions[i] == m.regions[i - 1]);
            }
        }
    }
}

proof fn lemma_write(m: MemView, addr: u64, b: Seq<u8>)
    requires
        all_exclusive(m),
    ensures
        all_exclusive(m.write(addr, b).0),
{
    space::lemma_floor_index(m.regions, addr);
    let f = space::floor_index(m.regions, addr);
    let after = m.write(addr, b).0;
    assert forall|i: int| 0 <= i < after.regions.len() implies exclusive(
        (#[trigger] after.regions[i]).prot,
    ) by {
        assert(after.regions[i].prot == m.regions[i].prot);
    }
}

proof fn lemma_protect(m: MemView, addr: u64, prot: Protection)
    requires
        all_exclusive(m),
        exclusive(prot),
    ensures
        all_exclusive(m.protect(addr, prot).0),
{
    space::lemma_floor_index(m.regions, addr);
    let f = space::floor_index(m.regions, addr);
    let after = m.protect(addr, prot).0;
    assert forall|i: int| 0 <= i < after.regions.len() implies exclusive(
        (#[trigger] after.regions[i]).prot,
    ) by {
        if i != f {
            assert(after.regions[i] == m.regions[i]);
        }
    }
}

proof fn lemma_map_segments(
    segments: Seq<SegmentView>,
    i: int,
    file: Seq<u8>,
    slide: u64,
    mem: MemView,
)
    requires
        all_exclusive(mem),
    ensures
        all_exclusive(model::map_segments(segments, i, file, slide, mem).0),
    decreases segments.len() - i,
{
    if 0 <= i < segments.len() {
        let seg = segments[i];
        if model::is_guard(seg) {
            lemma_map_segments(segments, i + 1, file, slide, mem);
        } else {
            guest::common_protections();
            let base = seg.vmaddr.wrapping_add(slide);
            let data = model::segment_data(seg, file);
            lemma_place(
                mem,
                base,
                crate::common::up_to(seg.vmsize as int, crate::common::PAGE_SIZE as int),
                data,
                Protection(3),
                RegionKind::Segment,
                seg.name,
            );
            let m = mem.map_with_data(
                base,
                seg.vmsize,
                data,
                Protection(3),
                RegionKind::Segment,
                seg.name,
            ).0;
            lemma_map_segments(segments, i + 1, file, slide, m);
        }
    }
}

proof fn lemma_bind_all(
    records: Seq<BindView>,
    i: int,
    bases: Seq<Option<u64>>,
    mem: MemView,
    res: ResolverView,
)
    requires
        all_exclusive(mem),
    ensures
        all_exclusive(model::bind_all(records, i, bases, mem, res).0),
    decreases records.len() - i,
{
    if 0 <= i < records.len() {
        let rec = records[i];
        if let Some(base) = model::base_of(bases, rec.seg_index) {
            let target = base.wrapping_add(rec.seg_offset);
            lemma_write(mem, target, crate::bytes::le64_bytes(0));
            if let Some(t) = res.resolve(rec.symbol).1 {
                lemma_write(
                    mem,
                    target,
                    crate::bytes::le64_bytes(crate::loader::dyld::leb::wrapped(t + rec.addend)),
                );
            }
        }
        let (m, r) = model::bind_one(rec, bases, mem, res);
        lemma_bind_all(records, i + 1, bases, m, r);
    }
}

proof fn lemma_bind_stream(
    file: Seq<u8>,
    off: u32,
    size: u32,
    bases: Seq<Option<u64>>,
    mem: MemView,
    res: ResolverView,
)
    requires
        all_exclusive(mem),
    ensures
        all_exclusive(model::bind_stream(file, off, size, bases, mem, res).0),
{
    if let Ok(stream) = model::stream_at(file, off, size) {
        if let Ok(records) = bind::bind_records(stream, 0, bind::initial()) {
            lemma_bind_all(records, 0, bases, mem, res);
        }
    }
}

proof fn lemma_bind_image(
    img: ImageView,
    file: Seq<u8>,
    bases: Seq<Option<u64>>,
    mem: MemView,
    res: ResolverView,
)
    requires
        all_exclusive(mem),
    ensures
        all_exclusive(model::bind_image(img, file, bases, mem, res).0),
{
    if let Some(info) = img.dyld_info {
        lemma_bind_stream(file, info.bind_off, info.bind_size, bases, mem, res);
        let (m, r, _) = model::bind_stream(file, info.bind_off, info.bind_size, bases, mem, res);
        lemma_bind_stream(file, info.lazy_bind_off, info.lazy_bind_size, bases, m, r);
    }
}

proof fn lemma_publish(mem: MemView, base: u64, used: u64)
    requires
        all_exclusive(mem),
    ensures
        all_exclusive(model::publish_trampolines(mem, base, used).0),
{
    guest::common_protections();
    let need = model::trampoline_need(used);
    let span = space::page_span(need as int);
    lemma_place(mem, base, span, Seq::empty(), Protection(3), RegionKind::Segment, "__stubs"@);
    let m = mem.map(base, need, Protection(3), RegionKind::Segment, "__stubs"@).0;
    lemma_write(m, base, model::sled(span));
    let m2 = m.write(base, model::sled(span)).0;
    lemma_protect(m2, base, Protection(5));
}

proof fn lemma_protect_segments(
    segments: Seq<SegmentView>,
    bases: Seq<Option<u64>>,
    i: int,
    mem: MemView,
)
    requires
        all_exclusive(mem),
        forall|k: int| 0 <= k < segments.len() ==> exclusive((#[trigger] segments[k]).initprot),
    ensures
        all_exclusive(model::protect_segments(segments, bases, i, mem).0),
    decreases segments.len() - i,
{
    if 0 <= i < segments.len() && i < bases.len() {
        match bases[i] {
            None => lemma_protect_segments(segments, bases, i + 1, mem),
            Some(base) => {
                let prot = model::final_protection(segments[i]);
                assert(1u8 & 2 == 0) by (bit_vector);
                assert(exclusive(prot));
                lemma_protect(mem, base, prot);
                lemma_protect_segments(segments, bases, i + 1, mem.protect(base, prot).0);
            },
        }
    }
}

proof fn lemma_write_all(mem: MemView, writes: Seq<(u64, Seq<u8>)>, i: int)
    requires
        all_exclusive(mem),
    ensures
        all_exclusive(model::write_all(mem, writes, i).0),
    decreases writes.len() - i,
{
    if 0 <= i < writes.len() {
        lemma_write(mem, writes[i].0, writes[i].1);
        lemma_write_all(mem.write(writes[i].0, writes[i].1).0, writes, i + 1);
    }
}

proof fn lemma_build_stack(mem: MemView, cfg: ConfigView)
    requires
        all_exclusive(mem),
    ensures
        all_exclusive(model::build_stack(mem, cfg).0),
{
    guest::common_protections();
    let base = cfg.stack_top.wrapping_sub(cfg.stack_size);
    lemma_place(
        mem,
        base,
        space::page_span(cfg.stack_size as int),
        Seq::empty(),
        Protection(3),
        RegionKind::Stack,
        "stack"@,
    );
    let m = mem.map(base, cfg.stack_size, Protection(3), RegionKind::Stack, "stack"@).0;
    let path = vstd::utf8::encode_utf8(cfg.argv0);
    let l = model::stack_layout(cfg.stack_top, path.len() as u64);
    lemma_write_all(m, model::stack_writes(l, path), 0);
}

/// Laying out a process, whether it succeeds or fails, leaves no memory that is
/// writable and executable at once, unless the image itself asks for it.
pub proof fn writable_memory_is_not_executable(
    img: ImageView,
    file: Seq<u8>,
    mem: MemView,
    cfg: ConfigView,
)
    requires
        all_exclusive(mem),
        forall|k: int|
            0 <= k < img.segments.len() ==> exclusive((#[trigger] img.segments[k]).initprot),
    ensures
        all_exclusive(model::built(img, file, mem, cfg).0),
{
    lemma_map_segments(img.segments, 0, file, cfg.slide, mem);
    let (m1, b) = model::map_segments(img.segments, 0, file, cfg.slide, mem);
    if let Ok(bases) = b {
        let fresh = ResolverView::fresh(cfg.trampoline_base, cfg.trampoline_stride);
        lemma_bind_image(img, file, bases, m1, fresh);
        let (m2, res, _) = model::bind_image(img, file, bases, m1, fresh);
        let used = (res.next - res.base) as u64;
        lemma_publish(m2, cfg.trampoline_base, used);
        let m3 = model::publish_trampolines(m2, cfg.trampoline_base, used).0;
        lemma_protect_segments(img.segments, bases, 0, m3);
        let m4 = model::protect_segments(img.segments, bases, 0, m3).0;
        lemma_build_stack(m4, cfg);
    }
}

} // verus!
