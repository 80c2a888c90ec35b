//! What is in the memory of a process that has been laid out: the bytes of its
//! file, and the imports it was bound to.

use vstd::prelude::*;

use crate::bytes;
use crate::common::error::ErrorView;
use crate::common::guest;
use crate::common::Protection;
use crate::kernel::process::laws;
use crate::kernel::process::model;
use crate::kernel::process::model::ConfigView;
use crate::kernel::process::outcome;
use crate::loader::dyld::bind;
use crate::loader::dyld::bind::BindView;
use crate::loader::dyld::leb;
use crate::loader::dyld::linker::ResolverView;
use crate::loader::macho::model::{ImageView, SegmentView};
use crate::memory::region;
use crate::memory::region::{RegionKind, RegionView};
use crate::memory::space;
use crate::memory::space::MemView;

verus! {

/// The byte mapped at an address, whatever its protection.
pub open spec fn byte_at(m: MemView, a: u64) -> Option<u8> {
    let i = space::floor_index(m.regions, a);
    if i >= 0 && a < m.regions[i].end() {
        Some(m.regions[i].data[a - m.regions[i].base])
    } else {
        None
    }
}

/// A write changes nothing but the bytes it writes.
pub proof fn lemma_write(m: MemView, addr: u64, b: Seq<u8>, a: u64)
    requires
        m.wf(),
        !(addr <= a < addr + b.len()),
    ensures
        byte_at(m.write(addr, b).0, a) == byte_at(m, a),
{
    let after = m.write(addr, b).0;
    outcome::lemma_write(m, addr, b);
    outcome::lemma_alike(m, after, a);
    space::lemma_floor_index(m.regions, a);
    space::lemma_floor_index(m.regions, addr);
}

/// What has been written is there.
pub proof fn lemma_written(m: MemView, addr: u64, b: Seq<u8>, a: u64)
    requires
        m.wf(),
        m.write(addr, b).1 is Ok,
        addr <= a < addr + b.len(),
    ensures
        byte_at(m.write(addr, b).0, a) == Some(b[a - addr]),
{
    let after = m.write(addr, b).0;
    outcome::lemma_write(m, addr, b);
    outcome::lemma_alike(m, after, a);
    space::lemma_floor_index(m.regions, a);
    space::lemma_floor_index(m.regions, addr);
    let i = space::floor_index(m.regions, addr);
    lemma_own(m, i);
    outcome::lemma_inside(m, m.regions[i], a);
    lemma_same(m, i, space::floor_index(m.regions, a));
}

/// Equal regions have one number.
proof fn lemma_same(m: MemView, i: int, j: int)
    requires
        m.wf(),
        0 <= i < m.regions.len(),
        0 <= j < m.regions.len(),
        m.regions[i] == m.regions[j],
    ensures
        i == j,
{
    if i < j {
        assert(m.regions[i].base < m.regions[j].base);
    } else if j < i {
        assert(m.regions[j].base < m.regions[i].base);
    }
}

/// Mapping something new leaves what is mapped alone, and lies elsewhere.
pub proof fn lemma_place(
    m: MemView,
    base: u64,
    size: int,
    data: Seq<u8>,
    prot: Protection,
    kind: RegionKind,
    name: Seq<char>,
    a: u64,
)
    requires
        m.wf(),
        size > 0,
        m.place(base, size, data, prot, kind, name).1 is Ok,
        byte_at(m, a) is Some,
    ensures
        byte_at(m.place(base, size, data, prot, kind, name).0, a) == byte_at(m, a),
        !(base <= a < base + size),
{
    let after = m.place(base, size, data, prot, kind, name).0;
    space::lemma_floor_index(m.regions, a);
    let i = space::floor_index(m.regions, a);
    let r = m.regions[i];
    lemma_own(m, i);
    assert(r.base < base + size ==> r.end() <= base);
    outcome::lemma_place(m, base, size, data, prot, kind, name, r);
    space::placing_keeps_order(m, base, size, data, prot, kind, name);
    outcome::lemma_inside(after, r, a);
}

/// A region that is not empty is the one found for its base.
proof fn lemma_own(m: MemView, i: int)
    requires
        m.wf(),
        0 <= i < m.regions.len(),
    ensures
        space::floor_index(m.regions, m.regions[i].base) == i,
        outcome::holds(m, m.regions[i]),
{
    space::lemma_floor_index(m.regions, m.regions[i].base);
    let g = space::floor_index(m.regions, m.regions[i].base);
    if g < i {
        assert(m.regions[i].base < m.regions[i].base);
    } else if i < g {
        assert(m.regions[i].base < m.regions[g].base);
    }
}

/// What was just mapped holds its data, then zeros.
pub proof fn lemma_placed(
    m: MemView,
    base: u64,
    size: int,
    data: Seq<u8>,
    prot: Protection,
    kind: RegionKind,
    name: Seq<char>,
    a: u64,
)
    requires
        m.wf(),
        base <= a < base + size,
        m.place(base, size, data, prot, kind, name).1 is Ok,
    ensures
        byte_at(m.place(base, size, data, prot, kind, name).0, a) == Some(
            if a - base < data.len() {
                data[a - base]
            } else {
                0u8
            },
        ),
{
    let new = RegionView { base, prot, kind, name, data: region::zero_extended(data, size) };
    laws::lemma_fresh_floor(m, new, a);
}

/// Protections are not contents.
pub proof fn lemma_protect(m: MemView, base: u64, prot: Protection, a: u64)
    ensures
        byte_at(m.protect(base, prot).0, a) == byte_at(m, a),
{
    let after = m.protect(base, prot).0;
    space::lemma_floor_index(m.regions, base);
    space::lemma_floor_index(m.regions, a);
    space::lemma_floor_index(after.regions, a);
    let f = space::floor_index(m.regions, a);
    let g = space::floor_index(after.regions, a);
    if f < g {
        assert(after.regions[g].base == m.regions[g].base);
    } else if g < f {
        assert(after.regions[f].base == m.regions[f].base);
    }
}

/// Whether all of a segment's contents are in the file.
pub open spec fn in_file(seg: SegmentView, file: Seq<u8>) -> bool {
    seg.fileoff + seg.filesize <= file.len()
}

/// The byte that a segment starts out with at offset `j`: the file's, as far as
/// the segment is in the file, then zeros.
pub open spec fn initial_byte(seg: SegmentView, file: Seq<u8>, j: int) -> u8 {
    if in_file(seg, file) && j < seg.filesize {
        file[seg.fileoff + j]
    } else {
        0
    }
}

/// Once the segments are mapped, each holds what the file says, and whatever
/// was mapped before still does.
pub proof fn mapped_segments_hold_their_file(
    segments: Seq<SegmentView>,
    i: int,
    file: Seq<u8>,
    slide: u64,
    mem: MemView,
    a: u64,
)
    requires
        mem.wf(),
        outcome::sized(segments),
        0 <= i <= segments.len(),
        model::map_segments(segments, i, file, slide, mem).1 is Ok,
    ensures
        ({
            let m = model::map_segments(segments, i, file, slide, mem).0;
            &&& m.wf()
            &&& byte_at(mem, a) is Some ==> byte_at(m, a) == byte_at(mem, a)
            &&& forall|k: int|
                #![trigger segments[k]]
                i <= k < segments.len() && !model::is_guard(segments[k]) && outcome::place_of(
                    segments[k],
                    slide,
                ) <= a < outcome::place_of(segments[k], slide) + outcome::extent(segments[k])
                    ==> byte_at(m, a) == Some(
                    initial_byte(segments[k], file, a - outcome::place_of(segments[k], slide)),
                )
        }),
    decreases segments.len() - i,
{
    if i < segments.len() {
        let seg = segments[i];
        if model::is_guard(seg) {
            mapped_segments_hold_their_file(segments, i + 1, file, slide, mem, a);
        } else {
            let base = outcome::place_of(seg, slide);
            let data = model::segment_data(seg, file);
            let size = outcome::extent(seg);
            outcome::lemma_extent(seg);
            let m1 = mem.map_with_data(
                base,
                seg.vmsize,
                data,
                Protection(3),
                RegionKind::Segment,
                seg.name,
            ).0;
            space::placing_keeps_order(
                mem,
                base,
                size,
                data,
                Protection(3),
                RegionKind::Segment,
                seg.name,
            );
            if byte_at(mem, a) is Some {
                lemma_place(
                    mem,
                    base,
                    size,
                    data,
                    Protection(3),
                    RegionKind::Segment,
                    seg.name,
                    a,
                );
            }
            if base <= a < base + size {
                lemma_placed(
                    mem,
                    base,
                    size,
                    data,
                    Protection(3),
                    RegionKind::Segment,
                    seg.name,
                    a,
                );
                assert(byte_at(m1, a) == Some(initial_byte(seg, file, a - base)));
            }
            mapped_segments_hold_their_file(segments, i + 1, file, slide, m1, a);
        }
    }
}

/// Whether the record `rec` of an image moved by `slide` writes the byte at `a`.
pub open spec fn writes(
    rec: BindView,
    segments: Seq<SegmentView>,
    slide: u64,
    a: u64,
) -> bool {
    &&& rec.seg_index < segments.len()
    &&& !model::is_guard(segments[rec.seg_index as int])
    &&& {
        let target = segments[rec.seg_index as int].vmaddr.wrapping_add(slide).wrapping_add(
            rec.seg_offset,
        );
        target <= a < target + 8
    }
}

/// The records of the bind stream of `size` bytes at `off` of the file.
pub open spec fn stream_records(file: Seq<u8>, off: u32, size: u32) -> Seq<BindView> {
    if off + size > file.len() {
        seq![]
    } else {
        match bind::bind_records(file.subrange(off as int, off + size), 0, bind::initial()) {
            Ok(records) => records,
            Err(_) => seq![],
        }
    }
}

/// Every record of an image: the eager ones, then the lazy ones.
pub open spec fn image_records(img: ImageView, file: Seq<u8>) -> Seq<BindView> {
    match img.dyld_info {
        Some(info) => stream_records(file, info.bind_off, info.bind_size) + stream_records(
            file,
            info.lazy_bind_off,
            info.lazy_bind_size,
        ),
        None => seq![],
    }
}

/// Whether `bases` are the addresses that the segments are mapped at.
pub open spec fn bases_of(segments: Seq<SegmentView>, slide: u64, bases: Seq<Option<u64>>) -> bool {
    &&& bases.len() == segments.len()
    &&& forall|k: int|
        #![trigger segments[k]]
        0 <= k < segments.len() ==> bases[k] == if model::is_guard(segments[k]) {
            None
        } else {
            Some(outcome::place_of(segments[k], slide))
        }
}

/// Binding writes nothing but the locations of its records.
proof fn lemma_bind_all(
    records: Seq<BindView>,
    i: int,
    segments: Seq<SegmentView>,
    slide: u64,
    bases: Seq<Option<u64>>,
    mem: MemView,
    res: ResolverView,
    a: u64,
)
    requires
        mem.wf(),
        bases_of(segments, slide, bases),
        0 <= i <= records.len(),
        forall|k: int| i <= k < records.len() ==> !writes(#[trigger] records[k], segments, slide, a),
    ensures
        byte_at(model::bind_all(records, i, bases, mem, res).0, a) == byte_at(mem, a),
        model::bind_all(records, i, bases, mem, res).0.wf(),
    decreases records.len() - i,
{
    if i < records.len() {
        let rec = records[i];
        let (m, r) = model::bind_one(rec, bases, mem, res);
        assert(!writes(records[i], segments, slide, a));
        if let Some(base) = model::base_of(bases, rec.seg_index) {
            assert(base == outcome::place_of(segments[rec.seg_index as int], slide));
            let target = base.wrapping_add(rec.seg_offset);
            let zero = bytes::le64_bytes(0);
            bytes::le64_roundtrip(0);
            lemma_write(mem, target, zero, a);
            outcome::lemma_write(mem, target, zero);
            outcome::lemma_alike(mem, mem.write(target, zero).0, a);
            if let Some(t) = res.resolve(rec.symbol).1 {
                let v = bytes::le64_bytes(leb::wrapped(t + rec.addend));
                bytes::le64_roundtrip(leb::wrapped(t + rec.addend));
                lemma_write(mem, target, v, a);
                outcome::lemma_write(mem, target, v);
                outcome::lemma_alike(mem, mem.write(target, v).0, a);
            }
        }
        lemma_bind_all(records, i + 1, segments, slide, bases, m, r, a);
    }
}

proof fn lemma_bind_stream(
    file: Seq<u8>,
    off: u32,
    size: u32,
    segments: Seq<SegmentView>,
    slide: u64,
    bases: Seq<Option<u64>>,
    mem: MemView,
    res: ResolverView,
    a: u64,
)
    requires
        mem.wf(),
        bases_of(segments, slide, bases),
        forall|k: int|
            0 <= k < stream_records(file, off, size).len() ==> !writes(
                #[trigger] stream_records(file, off, size)[k],
                segments,
                slide,
                a,
            ),
    ensures
        byte_at(model::bind_stream(file, off, size, bases, mem, res).0, a) == byte_at(mem, a),
        model::bind_stream(file, off, size, bases, mem, res).0.wf(),
{
    if size > 0 {
        if let Ok(stream) = model::stream_at(file, off, size) {
            if let Ok(records) = bind::bind_records(stream, 0, bind::initial()) {
                assert(records == stream_records(file, off, size));
                lemma_bind_all(records, 0, segments, slide, bases, mem, res, a);
            }
        }
    }
}

proof fn lemma_bind_image(
    img: ImageView,
    file: Seq<u8>,
    slide: u64,
    bases: Seq<Option<u64>>,
    mem: MemView,
    res: ResolverView,
    a: u64,
)
    requires
        mem.wf(),
        bases_of(img.segments, slide, bases),
        forall|k: int|
            0 <= k < image_records(img, file).len() ==> !writes(
                #[trigger] image_records(img, file)[k],
                img.segments,
                slide,
                a,
            ),
    ensures
        byte_at(model::bind_image(img, file, bases, mem, res).0, a) == byte_at(mem, a),
        model::bind_image(img, file, bases, mem, res).0.wf(),
{
    if let Some(info) = img.dyld_info {
        let all = image_records(img, file);
        let eager = stream_records(file, info.bind_off, info.bind_size);
        let late = stream_records(file, info.lazy_bind_off, info.lazy_bind_size);
        assert forall|k: int| 0 <= k < eager.len() implies !writes(
            #[trigger] eager[k],
            img.segments,
            slide,
            a,
        ) by {
            assert(all[k] == eager[k]);
        }
        assert forall|k: int| 0 <= k < late.len() implies !writes(
            #[trigger] late[k],
            img.segments,
            slide,
            a,
        ) by {
            assert(all[eager.len() + k] == late[k]);
        }
        lemma_bind_stream(
            file,
            info.bind_off,
            info.bind_size,
            img.segments,
            slide,
            bases,
            mem,
            res,
            a,
        );
        let (m, r, _) = model::bind_stream(file, info.bind_off, info.bind_size, bases, mem, res);
        lemma_bind_stream(
            file,
            info.lazy_bind_off,
            info.lazy_bind_size,
            img.segments,
            slide,
            bases,
            m,
            r,
            a,
        );
    }
}

/// Publishing the trampolines touches nothing that was mapped.
proof fn lemma_publish(mem: MemView, base: u64, used: u64, a: u64)
    requires
        mem.wf(),
        model::publish_trampolines(mem, base, used).1 is Ok,
        byte_at(mem, a) is Some,
    ensures
        byte_at(model::publish_trampolines(mem, base, used).0, a) == byte_at(mem, a),
{
    let need = model::trampoline_need(used);
    let span = space::page_span(need as int);
    outcome::lemma_span(need);
    let m1 = mem.map(base, need, Protection(3), RegionKind::Segment, "__stubs"@).0;
    let m2 = m1.write(base, model::sled(span)).0;
    space::placing_keeps_order(
        mem,
        base,
        span,
        Seq::empty(),
        Protection(3),
        RegionKind::Segment,
        "__stubs"@,
    );
    lemma_place(mem, base, span, Seq::empty(), Protection(3), RegionKind::Segment, "__stubs"@, a);
    lemma_write(m1, base, model::sled(span), a);
    lemma_protect(m2, base, Protection(5), a);
}

/// Protecting the segments touches nothing.
proof fn lemma_protect_segments(
    segments: Seq<SegmentView>,
    bases: Seq<Option<u64>>,
    i: int,
    mem: MemView,
    a: u64,
)
    ensures
        byte_at(model::protect_segments(segments, bases, i, mem).0, a) == byte_at(mem, a),
    decreases segments.len() - i,
{
    if 0 <= i < segments.len() && i < bases.len() {
        match bases[i] {
            None => lemma_protect_segments(segments, bases, i + 1, mem, a),
            Some(base) => {
                let prot = model::final_protection(segments[i]);
                lemma_protect(mem, base, prot, a);
                lemma_protect_segments(segments, bases, i + 1, mem.protect(base, prot).0, a);
            },
        }
    }
}

/// Whether the stack has room for the arguments of `main`.
pub open spec fn stack_has_room(cfg: ConfigView) -> bool {
    &&& cfg.stack_size <= cfg.stack_top
    &&& vstd::utf8::encode_utf8(cfg.argv0).len() + 96 <= cfg.stack_size
}

proof fn lemma_write_all(mem: MemView, writes: Seq<(u64, Seq<u8>)>, i: int, a: u64)
    requires
        mem.wf(),
        forall|k: int|
            0 <= k < writes.len() ==> !((#[trigger] writes[k]).0 <= a < writes[k].0
                + writes[k].1.len()),
    ensures
        byte_at(model::write_all(mem, writes, i).0, a) == byte_at(mem, a),
    decreases writes.len() - i,
{
    if 0 <= i < writes.len() {
        lemma_write(mem, writes[i].0, writes[i].1, a);
        outcome::lemma_write(mem, writes[i].0, writes[i].1);
        let m = mem.write(writes[i].0, writes[i].1).0;
        outcome::lemma_alike(mem, m, a);
        lemma_write_all(m, writes, i + 1, a);
    }
}

/// Building a stack with room touches nothing that was mapped.
proof fn lemma_build_stack(mem: MemView, cfg: ConfigView, a: u64)
    requires
        mem.wf(),
        model::build_stack(mem, cfg).1 is Ok,
        stack_has_room(cfg),
        byte_at(mem, a) is Some,
    ensures
        byte_at(model::build_stack(mem, cfg).0, a) == byte_at(mem, a),
{
    let base = cfg.stack_top.wrapping_sub(cfg.stack_size);
    let span = space::page_span(cfg.stack_size as int);
    outcome::lemma_span(cfg.stack_size);
    crate::common::lemma_page_size();
    crate::common::rounding_brackets(cfg.stack_size as int, crate::common::PAGE_SIZE as int);
    let m1 = mem.map(base, cfg.stack_size, Protection(3), RegionKind::Stack, "stack"@).0;
    space::placing_keeps_order(
        mem,
        base,
        span,
        Seq::empty(),
        Protection(3),
        RegionKind::Stack,
        "stack"@,
    );
    lemma_place(mem, base, span, Seq::empty(), Protection(3), RegionKind::Stack, "stack"@, a);
    let path = vstd::utf8::encode_utf8(cfg.argv0);
    let l = model::stack_layout(cfg.stack_top, path.len() as u64);
    laws::lemma_stack_layout(cfg.stack_top, path.len() as u64);
    bytes::le64_roundtrip(l.path);
    bytes::le64_roundtrip(0);
    let w = model::stack_writes(l, path);
    assert forall|k: int| 0 <= k < w.len() implies !((#[trigger] w[k]).0 <= a < w[k].0
        + w[k].1.len()) by {
        assert(base <= w[k].0 && w[k].0 + w[k].1.len() <= cfg.stack_top);
    }
    lemma_write_all(m1, w, 0, a);
}

/// What is in memory when the imports have been bound stays there.
proof fn lemma_after_binding(
    img: ImageView,
    file: Seq<u8>,
    mem: MemView,
    cfg: ConfigView,
    a: u64,
)
    requires
        mem.wf(),
        outcome::sized(img.segments),
        stack_has_room(cfg),
        model::built(img, file, mem, cfg).1 is Ok,
    ensures
        ({
            let (m1, b) = model::map_segments(img.segments, 0, file, cfg.slide, mem);
            let fresh = ResolverView::fresh(cfg.trampoline_base, cfg.trampoline_stride);
            let m2 = model::bind_image(img, file, b->Ok_0, m1, fresh).0;
            byte_at(m2, a) is Some ==> byte_at(model::built(img, file, mem, cfg).0, a) == byte_at(
                m2,
                a,
            )
        }),
{
    let (m1, b) = model::map_segments(img.segments, 0, file, cfg.slide, mem);
    let bases = b->Ok_0;
    outcome::lemma_map_segments(img.segments, 0, file, cfg.slide, mem);
    let fresh = ResolverView::fresh(cfg.trampoline_base, cfg.trampoline_stride);
    let (m2, res, _) = model::bind_image(img, file, bases, m1, fresh);
    outcome::lemma_bind_image(img, file, bases, m1, fresh);
    outcome::lemma_alike(m1, m2, 0);
    if byte_at(m2, a) is Some {
        let used = (res.next - res.base) as u64;
        lemma_publish(m2, cfg.trampoline_base, used, a);
        let m3 = model::publish_trampolines(m2, cfg.trampoline_base, used).0;
        lemma_protect_segments(img.segments, bases, 0, m3, a);
        let m4 = model::protect_segments(img.segments, bases, 0, m3).0;
        lemma_protected_wf(img, file, mem, cfg);
        lemma_build_stack(m4, cfg, a);
    }
}

/// A process that has been laid out holds its file: every byte of a segment
/// that no import was bound to is the byte at the same offset of the segment's
/// part of the file, or zero behind that part (and everywhere, if the part is
/// not all in the file). Segments without a size, which can share their address
/// with something else, and stacks too small for the arguments are not
/// considered.
pub proof fn processes_hold_their_file(
    img: ImageView,
    file: Seq<u8>,
    mem: MemView,
    cfg: ConfigView,
    k: int,
    j: int,
)
    requires
        mem.wf(),
        outcome::sized(img.segments),
        stack_has_room(cfg),
        model::built(img, file, mem, cfg).1 is Ok,
        0 <= k < img.segments.len(),
        !model::is_guard(img.segments[k]),
        0 <= j < img.segments[k].vmsize,
        ({
            let a = img.segments[k].vmaddr.wrapping_add(cfg.slide) + j;
            forall|r: int|
                0 <= r < image_records(img, file).len() ==> !writes(
                    #[trigger] image_records(img, file)[r],
                    img.segments,
                    cfg.slide,
                    a as u64,
                )
        }),
    ensures
        ({
            let seg = img.segments[k];
            let a = seg.vmaddr.wrapping_add(cfg.slide) + j;
            let m = model::built(img, file, mem, cfg).0;
            let byte = if j < seg.filesize && seg.fileoff + seg.filesize <= file.len() {
                file[seg.fileoff + j]
            } else {
                0
            };
            &&& a <= u64::MAX
            &&& byte_at(m, a as u64) == Some(byte)
            &&& seg.initprot.grants(Protection(1)) ==> m.read_u8(a as u64) == Ok::<u8, ErrorView>(
                byte,
            )
        }),
{
    let seg = img.segments[k];
    let base = outcome::place_of(seg, cfg.slide);
    let (m1, b) = model::map_segments(img.segments, 0, file, cfg.slide, mem);
    let bases = b->Ok_0;
    outcome::processes_are_laid_out_as_asked(img, file, mem, cfg);
    outcome::lemma_map_segments(img.segments, 0, file, cfg.slide, mem);
    outcome::lemma_extent(seg);
    crate::common::lemma_page_size();
    crate::common::rounding_brackets(seg.vmsize as int, crate::common::PAGE_SIZE as int);
    assert(j < outcome::extent(seg));
    let m = model::built(img, file, mem, cfg).0;
    let g = space::floor_index(m.regions, base);
    space::lemma_floor_index(m.regions, base);
    assert(m.regions[g].end() <= u64::MAX);
    let a = (base + j) as u64;
    lemma_bases(img.segments, file, cfg.slide, mem);
    mapped_segments_hold_their_file(img.segments, 0, file, cfg.slide, mem, a);
    let fresh = ResolverView::fresh(cfg.trampoline_base, cfg.trampoline_stride);
    lemma_bind_image(img, file, cfg.slide, bases, m1, fresh, a);
    lemma_after_binding(img, file, mem, cfg, a);
    if seg.initprot.grants(Protection(1)) {
        let r = m.regions[g];
        assert(outcome::holds(m, r));
        outcome::lemma_inside(m, r, a);
        assert(!(Protection(0).grants(Protection(1)))) by {
            assert(0u8 & 1 == 0) by (bit_vector);
        }
        assert(r.prot == seg.initprot);
        assert(r.access(a, 1, Protection(1)) == Ok::<int, ErrorView>(j));
        assert(m.read(a, 1)->Ok_0 =~= r.data.subrange(j, j + 1));
    }
}

/// The address space is well-formed when the segments have been protected.
pub proof fn lemma_protected_wf(img: ImageView, file: Seq<u8>, mem: MemView, cfg: ConfigView)
    requires
        mem.wf(),
        outcome::sized(img.segments),
        model::built(img, file, mem, cfg).1 is Ok,
    ensures
        ({
            let (m1, b) = model::map_segments(img.segments, 0, file, cfg.slide, mem);
            let fresh = ResolverView::fresh(cfg.trampoline_base, cfg.trampoline_stride);
            let (m2, res, _) = model::bind_image(img, file, b->Ok_0, m1, fresh);
            let used = (res.next - res.base) as u64;
            let m3 = model::publish_trampolines(m2, cfg.trampoline_base, used).0;
            model::protect_segments(img.segments, b->Ok_0, 0, m3).0.wf()
        }),
{
    let (m1, b) = model::map_segments(img.segments, 0, file, cfg.slide, mem);
    let bases = b->Ok_0;
    outcome::lemma_map_segments(img.segments, 0, file, cfg.slide, mem);
    let fresh = ResolverView::fresh(cfg.trampoline_base, cfg.trampoline_stride);
    outcome::lemma_bind_image(img, file, bases, m1, fresh);
    let (m2, res, _) = model::bind_image(img, file, bases, m1, fresh);
    outcome::lemma_alike(m1, m2, 0);
    let used = (res.next - res.base) as u64;
    outcome::lemma_publish(m2, cfg.trampoline_base, used);
    let m3 = model::publish_trampolines(m2, cfg.trampoline_base, used).0;
    lemma_protect_keeps_wf(img.segments, bases, 0, m3);
}

proof fn lemma_protect_keeps_wf(
    segments: Seq<SegmentView>,
    bases: Seq<Option<u64>>,
    i: int,
    mem: MemView,
)
    requires
        mem.wf(),
    ensures
        model::protect_segments(segments, bases, i, mem).0.wf(),
    decreases segments.len() - i,
{
    if 0 <= i < segments.len() && i < bases.len() {
        match bases[i] {
            None => lemma_protect_keeps_wf(segments, bases, i + 1, mem),
            Some(base) => {
                let prot = model::final_protection(segments[i]);
                let m = mem.protect(base, prot).0;
                space::lemma_floor_index(mem.regions, base);
                assert forall|x: int, y: int| 0 <= x < y < m.regions.len() implies (
                #[trigger] m.regions[x]).base < (#[trigger] m.regions[y]).base
                    && m.regions[x].end() <= m.regions[y].base by {
                    assert(mem.regions[x].base < mem.regions[y].base);
                }
                assert forall|x: int| 0 <= x < m.regions.len() implies (#[trigger] m.regions[x]).end()
                    <= u64::MAX by {
                    assert(mem.regions[x].end() <= u64::MAX);
                }
                lemma_protect_keeps_wf(segments, bases, i + 1, m);
            },
        }
    }
}

// ---- imports ----------------------------------------------------------------

/// Binding two lists of records one after the other is binding their
/// concatenation.
proof fn lemma_bind_cat(
    x: Seq<BindView>,
    y: Seq<BindView>,
    i: int,
    bases: Seq<Option<u64>>,
    mem: MemView,
    res: ResolverView,
)
    requires
        0 <= i <= x.len(),
    ensures
        ({
            let (m, r) = model::bind_all(x, i, bases, mem, res);
            model::bind_all(x + y, i, bases, mem, res) == model::bind_all(y, 0, bases, m, r)
        }),
    decreases x.len() - i,
{
    if i < x.len() {
        assert((x + y)[i] == x[i]);
        let (m, r) = model::bind_one(x[i], bases, mem, res);
        lemma_bind_cat(x, y, i + 1, bases, m, r);
    } else {
        lemma_bind_shift(x, y, 0, bases, mem, res);
    }
}

proof fn lemma_bind_shift(
    x: Seq<BindView>,
    y: Seq<BindView>,
    j: int,
    bases: Seq<Option<u64>>,
    mem: MemView,
    res: ResolverView,
)
    requires
        0 <= j <= y.len(),
    ensures
        model::bind_all(x + y, x.len() + j, bases, mem, res) == model::bind_all(
            y,
            j,
            bases,
            mem,
            res,
        ),
    decreases y.len() - j,
{
    if j < y.len() {
        assert((x + y)[x.len() + j] == y[j]);
        let (m, r) = model::bind_one(y[j], bases, mem, res);
        lemma_bind_shift(x, y, j + 1, bases, m, r);
    }
}

/// An image that can be bound is bound record by record.
proof fn lemma_image_records(
    img: ImageView,
    file: Seq<u8>,
    bases: Seq<Option<u64>>,
    mem: MemView,
    res: ResolverView,
)
    requires
        model::bind_image(img, file, bases, mem, res).2 is Ok,
    ensures
        ({
            let (m, r, _) = model::bind_image(img, file, bases, mem, res);
            (m, r) == model::bind_all(image_records(img, file), 0, bases, mem, res)
        }),
{
    if let Some(info) = img.dyld_info {
        let x = stream_records(file, info.bind_off, info.bind_size);
        let y = stream_records(file, info.lazy_bind_off, info.lazy_bind_size);
        let (m, r, _) = model::bind_stream(file, info.bind_off, info.bind_size, bases, mem, res);
        lemma_stream_records(file, info.bind_off, info.bind_size, bases, mem, res);
        lemma_stream_records(file, info.lazy_bind_off, info.lazy_bind_size, bases, m, r);
        lemma_bind_cat(x, y, 0, bases, mem, res);
    }
}

proof fn lemma_stream_records(
    file: Seq<u8>,
    off: u32,
    size: u32,
    bases: Seq<Option<u64>>,
    mem: MemView,
    res: ResolverView,
)
    requires
        model::bind_stream(file, off, size, bases, mem, res).2 is Ok,
    ensures
        ({
            let (m, r, _) = model::bind_stream(file, off, size, bases, mem, res);
            (m, r) == model::bind_all(stream_records(file, off, size), 0, bases, mem, res)
        }),
{
}

/// A symbol keeps its trampoline while other records are bound.
proof fn lemma_trampoline_stays(
    records: Seq<BindView>,
    i: int,
    bases: Seq<Option<u64>>,
    mem: MemView,
    res: ResolverView,
    symbol: Seq<char>,
)
    requires
        res.forward.contains_key(symbol),
    ensures
        ({
            let after = model::bind_all(records, i, bases, mem, res).1;
            after.forward.contains_key(symbol) && after.forward[symbol] == res.forward[symbol]
        }),
    decreases records.len() - i,
{
    if 0 <= i < records.len() {
        let (m, r) = model::bind_one(records[i], bases, mem, res);
        lemma_trampoline_stays(records, i + 1, bases, m, r, symbol);
    }
}

/// The resolver runs out of addresses for good.
proof fn lemma_no_trampoline_stays(
    records: Seq<BindView>,
    i: int,
    bases: Seq<Option<u64>>,
    mem: MemView,
    res: ResolverView,
    symbol: Seq<char>,
)
    requires
        !res.forward.contains_key(symbol),
        res.next + res.stride > u64::MAX,
    ensures
        !model::bind_all(records, i, bases, mem, res).1.forward.contains_key(symbol),
    decreases records.len() - i,
{
    if 0 <= i < records.len() {
        let (m, r) = model::bind_one(records[i], bases, mem, res);
        lemma_no_trampoline_stays(records, i + 1, bases, m, r, symbol);
    }
}

/// Whether no record behind number `n` writes the byte at `a`.
pub open spec fn undisturbed(
    records: Seq<BindView>,
    n: int,
    segments: Seq<SegmentView>,
    slide: u64,
    a: int,
) -> bool {
    forall|k: int| n < k < records.len() ==> !writes(#[trigger] records[k], segments, slide, a as u64)
}

/// Record number `n` leaves its pointer where it belongs, unless a later one
/// writes there.
proof fn lemma_bound(
    records: Seq<BindView>,
    i: int,
    n: int,
    segments: Seq<SegmentView>,
    slide: u64,
    bases: Seq<Option<u64>>,
    mem: MemView,
    res: ResolverView,
    x: int,
)
    requires
        mem.wf(),
        bases_of(segments, slide, bases),
        0 <= i <= n < records.len(),
        0 <= x < 8,
        records[n].seg_index < segments.len(),
        ({
            let seg = segments[records[n].seg_index as int];
            &&& !model::is_guard(seg)
            &&& records[n].seg_offset + 8 <= outcome::extent(seg)
            &&& outcome::has(
                mem,
                outcome::place_of(seg, slide),
                outcome::extent(seg),
                Protection(3),
            )
            &&& undisturbed(
                records,
                n,
                segments,
                slide,
                outcome::place_of(seg, slide) + records[n].seg_offset + x,
            )
        }),
        model::bind_all(records, i, bases, mem, res).1.forward.contains_key(records[n].symbol),
    ensures
        ({
            let seg = segments[records[n].seg_index as int];
            let a = outcome::place_of(seg, slide) + records[n].seg_offset + x;
            let (m, r) = model::bind_all(records, i, bases, mem, res);
            &&& a <= u64::MAX
            &&& byte_at(m, a as u64) == Some(
                bytes::le64_bytes(
                    leb::wrapped(r.forward[records[n].symbol] + records[n].addend),
                )[x],
            )
        }),
    decreases n - i,
{
    let rec = records[n];
    let seg = segments[rec.seg_index as int];
    let base = outcome::place_of(seg, slide);
    let a = (base + rec.seg_offset + x) as u64;
    let f = space::floor_index(mem.regions, base);
    space::lemma_floor_index(mem.regions, base);
    assert(mem.regions[f].end() <= u64::MAX);
    let (m1, r1) = model::bind_one(records[i], bases, mem, res);
    lemma_one_alike(records[i], bases, mem, res);
    outcome::lemma_alike(mem, m1, base);
    if i < n {
        lemma_bound(records, i + 1, n, segments, slide, bases, m1, r1, x);
    } else {
        assert(bases[rec.seg_index as int] == Some(base));
        let target = base.wrapping_add(rec.seg_offset);
        assert(target == base + rec.seg_offset);
        if res.resolve(rec.symbol).1 is None {
            lemma_no_trampoline_stays(records, i + 1, bases, m1, r1, rec.symbol);
        }
        let t = res.resolve(rec.symbol).1->0;
        let v = bytes::le64_bytes(leb::wrapped(t + rec.addend));
        bytes::le64_roundtrip(leb::wrapped(t + rec.addend));
        assert(r1.forward[rec.symbol] == t);
        lemma_trampoline_stays(records, i + 1, bases, m1, r1, rec.symbol);
        let q = mem.regions[f];
        assert(outcome::holds(mem, q));
        outcome::lemma_inside(mem, q, target);
        guest::common_protections();
        assert(q.access(target, 8, Protection(2)) == Ok::<int, ErrorView>(rec.seg_offset as int));
        lemma_written(mem, target, v, a);
        lemma_bind_all(records, i + 1, segments, slide, bases, m1, r1, a);
    }
}

proof fn lemma_one_alike(rec: BindView, bases: Seq<Option<u64>>, mem: MemView, res: ResolverView)
    ensures
        outcome::alike(mem, model::bind_one(rec, bases, mem, res).0),
{
    if let Some(base) = model::base_of(bases, rec.seg_index) {
        let target = base.wrapping_add(rec.seg_offset);
        outcome::lemma_write(mem, target, bytes::le64_bytes(0));
        if let Some(t) = res.resolve(rec.symbol).1 {
            outcome::lemma_write(mem, target, bytes::le64_bytes(leb::wrapped(t + rec.addend)));
        }
    }
}

/// Whether record number `n` of the image names eight readable bytes of a
/// segment that no later record writes.
pub open spec fn settled(img: ImageView, file: Seq<u8>, slide: u64, n: int) -> bool {
    let records = image_records(img, file);
    let rec = records[n];
    let seg = img.segments[rec.seg_index as int];
    let target = seg.vmaddr.wrapping_add(slide) + rec.seg_offset;
    &&& 0 <= n < records.len()
    &&& rec.seg_index < img.segments.len()
    &&& !model::is_guard(seg)
    &&& rec.seg_offset + 8 <= seg.vmsize
    &&& seg.initprot.grants(Protection(1))
    &&& forall|x: int|
        0 <= x < 8 ==> #[trigger] undisturbed(records, n, img.segments, slide, target + x)
}

proof fn lemma_bound_byte(
    img: ImageView,
    file: Seq<u8>,
    mem: MemView,
    cfg: ConfigView,
    n: int,
    x: int,
)
    requires
        mem.wf(),
        outcome::sized(img.segments),
        stack_has_room(cfg),
        model::built(img, file, mem, cfg).1 is Ok,
        settled(img, file, cfg.slide, n),
        0 <= x < 8,
        (model::built(img, file, mem, cfg).1->Ok_0).symbol_stubs.contains_key(
            image_records(img, file)[n].symbol,
        ),
    ensures
        ({
            let rec = image_records(img, file)[n];
            let seg = img.segments[rec.seg_index as int];
            let a = outcome::place_of(seg, cfg.slide) + rec.seg_offset + x;
            let (m, r) = model::built(img, file, mem, cfg);
            &&& a <= u64::MAX
            &&& byte_at(m, a as u64) == Some(
                bytes::le64_bytes(
                    leb::wrapped((r->Ok_0).symbol_stubs[rec.symbol] + rec.addend),
                )[x],
            )
        }),
{
    let records = image_records(img, file);
    let rec = records[n];
    let seg = img.segments[rec.seg_index as int];
    let base = outcome::place_of(seg, cfg.slide);
    let (m1, b) = model::map_segments(img.segments, 0, file, cfg.slide, mem);
    let bases = b->Ok_0;
    outcome::lemma_map_segments(img.segments, 0, file, cfg.slide, mem);
    outcome::lemma_extent(seg);
    crate::common::lemma_page_size();
    crate::common::rounding_brackets(seg.vmsize as int, crate::common::PAGE_SIZE as int);
    lemma_bases(img.segments, file, cfg.slide, mem);
    let fresh = ResolverView::fresh(cfg.trampoline_base, cfg.trampoline_stride);
    lemma_image_records(img, file, bases, m1, fresh);
    assert(undisturbed(records, n, img.segments, cfg.slide, base + rec.seg_offset + x));
    lemma_bound(records, 0, n, img.segments, cfg.slide, bases, m1, fresh, x);
    lemma_after_binding(img, file, mem, cfg, (base + rec.seg_offset + x) as u64);
}

/// The segments are mapped where they belong.
proof fn lemma_bases(segments: Seq<SegmentView>, file: Seq<u8>, slide: u64, mem: MemView)
    requires
        mem.wf(),
        outcome::sized(segments),
        model::map_segments(segments, 0, file, slide, mem).1 is Ok,
    ensures
        bases_of(segments, slide, model::map_segments(segments, 0, file, slide, mem).1->Ok_0),
{
    outcome::lemma_map_segments(segments, 0, file, slide, mem);
    let bases = model::map_segments(segments, 0, file, slide, mem).1->Ok_0;
    assert forall|k: int|
        #![trigger segments[k]]
        0 <= k < segments.len() implies bases[k] == if model::is_guard(segments[k]) {
        None
    } else {
        Some(outcome::place_of(segments[k], slide))
    } by {
        assert(bases[k - 0] == bases[k]);
    }
}

/// A process that has been laid out is bound to its imports: the pointer that a
/// record names, eight bytes inside their segment that no later record writes,
/// is the trampoline of the record's symbol plus its addend.
pub proof fn processes_are_bound_to_their_imports(
    img: ImageView,
    file: Seq<u8>,
    mem: MemView,
    cfg: ConfigView,
    n: int,
)
    requires
        mem.wf(),
        outcome::sized(img.segments),
        stack_has_room(cfg),
        model::built(img, file, mem, cfg).1 is Ok,
        settled(img, file, cfg.slide, n),
    ensures
        ({
            let rec = image_records(img, file)[n];
            let seg = img.segments[rec.seg_index as int];
            let target = seg.vmaddr.wrapping_add(cfg.slide) + rec.seg_offset;
            let (m, r) = model::built(img, file, mem, cfg);
            let stubs = (r->Ok_0).symbol_stubs;
            stubs.contains_key(rec.symbol) ==> target <= u64::MAX && m.read_u64(target as u64)
                == Ok::<u64, ErrorView>(leb::wrapped(stubs[rec.symbol] + rec.addend))
        }),
{
    let rec = image_records(img, file)[n];
    let seg = img.segments[rec.seg_index as int];
    let base = outcome::place_of(seg, cfg.slide);
    let (m, p) = model::built(img, file, mem, cfg);
    let stubs = (p->Ok_0).symbol_stubs;
    if stubs.contains_key(rec.symbol) {
        outcome::processes_are_laid_out_as_asked(img, file, mem, cfg);
        outcome::lemma_extent(seg);
        crate::common::lemma_page_size();
        crate::common::rounding_brackets(seg.vmsize as int, crate::common::PAGE_SIZE as int);
        let v = bytes::le64_bytes(leb::wrapped(stubs[rec.symbol] + rec.addend));
        bytes::le64_roundtrip(leb::wrapped(stubs[rec.symbol] + rec.addend));
        lemma_bound_byte(img, file, mem, cfg, n, 0);
        assert forall|x: int| 0 <= x < 8 implies byte_at(
            m,
            #[trigger] ((base + rec.seg_offset + x) as u64),
        ) == Some(v[x]) by {
            lemma_bound_byte(img, file, mem, cfg, n, x);
        }
        lemma_word(m, seg, base, rec.seg_offset, v);
    }
}

/// The bytes of a word that can be read make it up.
proof fn lemma_word(m: MemView, seg: SegmentView, base: u64, off: u64, v: Seq<u8>)
    requires
        m.wf(),
        outcome::has(m, base, outcome::extent(seg), model::final_protection(seg)),
        seg.initprot.grants(Protection(1)),
        off + 8 <= outcome::extent(seg),
        v.len() == 8,
        forall|x: int| 0 <= x < 8 ==> byte_at(m, #[trigger] ((base + off + x) as u64)) == Some(v[x]),
    ensures
        m.read((base + off) as u64, 8) == Ok::<Seq<u8>, ErrorView>(v),
{
    let g = space::floor_index(m.regions, base);
    space::lemma_floor_index(m.regions, base);
    let r = m.regions[g];
    assert(r.end() <= u64::MAX);
    assert(outcome::holds(m, r));
    let target = (base + off) as u64;
    outcome::lemma_inside(m, r, target);
    assert(!(Protection(0).grants(Protection(1)))) by {
        assert(0u8 & 1 == 0) by (bit_vector);
    }
    assert(r.access(target, 8, Protection(1)) == Ok::<int, ErrorView>(off as int));
    assert forall|x: int| 0 <= x < 8 implies #[trigger] r.data[off + x] == v[x] by {
        let a = (base + off + x) as u64;
        outcome::lemma_inside(m, r, a);
        assert(byte_at(m, a) == Some(v[x]));
    }
    let got = r.data.subrange(off as int, off + 8);
    assert forall|x: int| 0 <= x < 8 implies got[x] == v[x] by {
        assert(got[x] == r.data[off + x]);
    }
    assert(got =~= v);
}

} // verus!
