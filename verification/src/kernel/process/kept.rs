//! What laying out a process leaves alone.

use vstd::prelude::*;

use crate::common::Protection;
use crate::kernel::machine;
use crate::kernel::machine::MachineConfig;
use crate::kernel::process::model;
use crate::kernel::process::model::ConfigView;
use crate::kernel::process::outcome;
use crate::loader::dyld::linker::ResolverView;
use crate::loader::macho::model as macho;
use crate::loader::macho::model::{ImageView, SegmentView};
use crate::memory::allocator::HeapView;
use crate::memory::laws::pages_are_whole;
use crate::memory::region;
use crate::memory::region::{RegionKind, RegionView};
use crate::memory::space;
use crate::memory::space::MemView;
use crate::vfs::sandbox::SandboxView;

verus! {

proof fn lemma_map_segments(
    segments: Seq<SegmentView>,
    i: int,
    file: Seq<u8>,
    slide: u64,
    mem: MemView,
)
    ensures
        model::map_segments(segments, i, file, slide, mem).0.heap == mem.heap,
    decreases segments.len() - i,
{
    if 0 <= i < segments.len() {
        if model::is_guard(segments[i]) {
            lemma_map_segments(segments, i + 1, file, slide, mem);
        } else {
            let seg = segments[i];
            let m = mem.map_with_data(
                seg.vmaddr.wrapping_add(slide),
                seg.vmsize,
                model::segment_data(seg, file),
                Protection(3),
                RegionKind::Segment,
                seg.name,
            ).0;
            lemma_map_segments(segments, i + 1, file, slide, m);
        }
    }
}

proof fn lemma_protect_segments(
    segments: Seq<SegmentView>,
    bases: Seq<Option<u64>>,
    i: int,
    mem: MemView,
)
    ensures
        model::protect_segments(segments, bases, i, mem).0.heap == mem.heap,
    decreases segments.len() - i,
{
    if 0 <= i < segments.len() && i < bases.len() {
        match bases[i] {
            None => lemma_protect_segments(segments, bases, i + 1, mem),
            Some(base) => lemma_protect_segments(
                segments,
                bases,
                i + 1,
                mem.protect(base, model::final_protection(segments[i])).0,
            ),
        }
    }
}

proof fn lemma_write_all(mem: MemView, writes: Seq<(u64, Seq<u8>)>, i: int)
    ensures
        model::write_all(mem, writes, i).0.heap == mem.heap,
    decreases writes.len() - i,
{
    if 0 <= i < writes.len() {
        lemma_write_all(mem.write(writes[i].0, writes[i].1).0, writes, i + 1);
    }
}

/// Laying out a process takes nothing from the heap, and what was mapped before
/// is still mapped, where it was, as large as it was and with the same
/// protection.
pub proof fn what_was_mapped_stays(
    img: ImageView,
    file: Seq<u8>,
    mem: MemView,
    cfg: ConfigView,
    q: RegionView,
)
    requires
        mem.wf(),
        outcome::sized(img.segments),
        model::built(img, file, mem, cfg).1 is Ok,
        outcome::holds(mem, q),
        q.data.len() > 0,
    ensures
        ({
            let m = model::built(img, file, mem, cfg).0;
            &&& m.heap == mem.heap
            &&& outcome::has(m, q.base, q.data.len() as int, q.prot)
        }),
{
    let n = q.data.len() as int;
    let (m1, b) = model::map_segments(img.segments, 0, file, cfg.slide, mem);
    let bases = b->Ok_0;
    outcome::lemma_map_segments(img.segments, 0, file, cfg.slide, mem);
    lemma_map_segments(img.segments, 0, file, cfg.slide, mem);
    assert(outcome::holds(m1, q));
    let fresh = ResolverView::fresh(cfg.trampoline_base, cfg.trampoline_stride);
    outcome::lemma_bind_image(img, file, bases, m1, fresh);
    let (m2, res, _) = model::bind_image(img, file, bases, m1, fresh);
    outcome::lemma_alike(m1, m2, q.base);
    space::lemma_floor_index(m1.regions, q.base);
    assert(outcome::has(m2, q.base, n, q.prot));
    let used = (res.next - res.base) as u64;
    let tb = cfg.trampoline_base;
    outcome::lemma_publish(m2, tb, used);
    let m3 = model::publish_trampolines(m2, tb, used).0;
    assert(m3.heap == m2.heap);
    assert(outcome::has(m3, q.base, n, q.prot));
    let t = outcome::trampoline_region(tb, used);
    outcome::lemma_span(model::trampoline_need(used));
    assert forall|k: int|
        #![trigger img.segments[k]]
        0 <= k < img.segments.len() && !model::is_guard(img.segments[k]) implies outcome::has(
        m3,
        outcome::place_of(img.segments[k], cfg.slide),
        outcome::extent(img.segments[k]),
        Protection(3),
    ) && outcome::place_of(img.segments[k], cfg.slide) != tb by {
        outcome::lemma_extent(img.segments[k]);
        let at = outcome::place_of(img.segments[k], cfg.slide);
        outcome::lemma_alike(m1, m2, at);
        space::lemma_floor_index(m1.regions, at);
        assert(outcome::has(m2, at, outcome::extent(img.segments[k]), Protection(3)));
        assert(outcome::has(m3, at, outcome::extent(img.segments[k]), Protection(3)));
    }
    assert forall|k: int|
        #![trigger img.segments[k]]
        0 <= k < img.segments.len() implies bases[k] == if model::is_guard(img.segments[k]) {
        None
    } else {
        Some(outcome::place_of(img.segments[k], cfg.slide))
    } by {
        assert(bases[k - 0] == bases[k]);
    }
    outcome::lemma_protect_segments(img.segments, bases, cfg.slide, 0, m3);
    lemma_protect_segments(img.segments, bases, 0, m3);
    let m4 = model::protect_segments(img.segments, bases, 0, m3).0;
    let q3 = m3.regions[space::floor_index(m3.regions, q.base)];
    assert(outcome::holds(m3, q3));
    assert(outcome::holds(m4, q3));
    assert(outcome::has(m4, q.base, n, q.prot));
    assert(outcome::holds(m4, t));
    crate::common::guest::common_protections();
    outcome::lemma_build_stack(m4, cfg, t);
    let m5 = model::build_stack(m4, cfg).0;
    assert(outcome::has(m5, q.base, n, q.prot));
    let path = vstd::utf8::encode_utf8(cfg.argv0);
    let l = model::stack_layout(cfg.stack_top, path.len() as u64);
    let s = m4.map(
        cfg.stack_top.wrapping_sub(cfg.stack_size),
        cfg.stack_size,
        Protection(3),
        RegionKind::Stack,
        "stack"@,
    ).0;
    lemma_write_all(s, model::stack_writes(l, path), 0);
}

/// A machine has a heap of the configured size where the configuration puts it,
/// which can be read and written, with nothing handed out.
pub proof fn machines_have_a_heap<S>(
    cfg: MachineConfig,
    file: Seq<u8>,
    vfs: SandboxView,
    world: S,
)
    requires
        machine::loaded(cfg, file, vfs, world) is Ok,
        macho::image(file) matches Ok(img) && outcome::sized(img.segments),
        cfg.heap_base.0 + cfg.heap_size <= u64::MAX,
    ensures
        machine::loaded(cfg, file, vfs, world) matches Ok(m) && {
            &&& outcome::has(
                m.mem,
                cfg.heap_base.0,
                space::page_span(cfg.heap_size as int),
                Protection(3),
            )
            &&& m.mem.heap.base == cfg.heap_base.0
            &&& m.mem.heap.cursor == cfg.heap_base.0
            &&& m.mem.heap.limit == cfg.heap_base.0 + cfg.heap_size
        },
{
    let img = macho::image(file)->Ok_0;
    let empty = MemView::empty(cfg.heap_base.0, cfg.heap_size);
    let span = space::page_span(cfg.heap_size as int);
    pages_are_whole(cfg.heap_size as int);
    let m = empty.map(
        cfg.heap_base.0,
        cfg.heap_size,
        Protection(3),
        RegionKind::Heap,
        "heap"@,
    ).0;
    let q = RegionView {
        base: cfg.heap_base.0,
        prot: Protection(3),
        kind: RegionKind::Heap,
        name: "heap"@,
        data: region::zero_extended(Seq::empty(), span),
    };
    space::placing_keeps_order(
        empty,
        cfg.heap_base.0,
        span,
        Seq::empty(),
        Protection(3),
        RegionKind::Heap,
        "heap"@,
    );
    assert(m.regions =~= seq![q]);
    space::lemma_floor_index(m.regions, q.base);
    assert(outcome::holds(m, q));
    assert(m.heap == HeapView::fresh(cfg.heap_base.0, cfg.heap_size));
    what_was_mapped_stays(img, file, m, machine::layout_of(cfg, vfs), q);
}

} // verus!
