//! Where a process starts, and what runs before it.

use vstd::prelude::*;

use crate::bytes;
use crate::common::error::ErrorView;
use crate::common::Protection;
use crate::kernel::process::contents;
use crate::kernel::process::laws;
use crate::kernel::process::model;
use crate::kernel::process::model::ConfigView;
use crate::kernel::process::outcome;
use crate::loader::dyld::bind;
use crate::loader::dyld::bind::{BindView, LazyView};
use crate::loader::dyld::linker::ResolverView;
use crate::loader::macho::image::EntryPoint;
use crate::loader::macho::model::{ImageView, SectionView, SegmentView};
use crate::memory::space;
use crate::memory::space::MemView;

verus! {

/// The address space wraps around.
pub open spec fn around(n: int) -> int {
    n % 0x1_0000_0000_0000_0000
}

/// The entry point of an image is an offset from the start of its text, or an
/// address, moved by the slide.
pub proof fn entries_are_moved_by_the_slide(img: ImageView, slide: u64)
    ensures
        img.entry matches Some(EntryPoint::Main { file_offset, .. }) ==> (model::entry_point(
            img,
            slide,
        ) matches Ok(e) && e == around(img.text_vmaddr() + slide + file_offset)),
        img.entry matches Some(EntryPoint::Thread { vmaddr }) ==> (model::entry_point(img, slide)
            matches Ok(e) && e == around(vmaddr + slide)),
        img.entry is None ==> model::entry_point(img, slide) is Err,
{
}

/// A process that has been laid out starts at the entry point of its image, with
/// one argument, and its stack pointer at the argument array. Without an entry
/// point, or encrypted, it is not laid out.
pub proof fn processes_start_where_asked(
    img: ImageView,
    file: Seq<u8>,
    mem: MemView,
    cfg: ConfigView,
)
    ensures
        model::entry_point(img, cfg.slide) is Err ==> model::built(img, file, mem, cfg).1 is Err,
        img.encryption matches Some(e) && e.cryptid != 0 ==> model::built(img, file, mem, cfg).1
            is Err,
        model::built(img, file, mem, cfg).1 matches Ok(p) ==> {
            &&& model::entry_point(img, cfg.slide) == Ok::<u64, ErrorView>(p.entry)
            &&& p.arg_regs.len() == 4
            &&& p.arg_regs[0] == 1
            &&& p.sp == p.arg_regs[1]
            &&& p.trampoline_base == cfg.trampoline_base
        },
{
}

/// What the argument registers of a process point to: the argument array holds
/// the path of the program and a null, the environment is a null, and the array
/// behind it holds the path and a null; the path ends in a NUL.
pub proof fn programs_find_their_arguments(
    img: ImageView,
    file: Seq<u8>,
    mem: MemView,
    cfg: ConfigView,
)
    requires
        mem.wf(),
        outcome::sized(img.segments),
        contents::stack_has_room(cfg),
        vstd::utf8::encode_utf8(cfg.argv0).len() > 0,
        model::built(img, file, mem, cfg).1 is Ok,
    ensures
        ({
            let (m, r) = model::built(img, file, mem, cfg);
            let p = r->Ok_0;
            let text = vstd::utf8::encode_utf8(cfg.argv0);
            &&& p.sp % 16 == 0
            &&& m.read_u64(p.arg_regs[1]) matches Ok(path) && {
                &&& m.read(path, text.len() as int) == Ok::<Seq<u8>, ErrorView>(text)
                &&& m.read((path + text.len()) as u64, 1) == Ok::<Seq<u8>, ErrorView>(seq![0u8])
                &&& m.read_u64(p.arg_regs[3]) == Ok::<u64, ErrorView>(path)
            }
            &&& m.read_u64((p.arg_regs[1] + 8) as u64) == Ok::<u64, ErrorView>(0)
            &&& m.read_u64(p.arg_regs[2]) == Ok::<u64, ErrorView>(0)
            &&& m.read_u64((p.arg_regs[3] + 8) as u64) == Ok::<u64, ErrorView>(0)
        }),
{
    let (m1, b) = model::map_segments(img.segments, 0, file, cfg.slide, mem);
    let bases = b->Ok_0;
    let fresh = ResolverView::fresh(cfg.trampoline_base, cfg.trampoline_stride);
    let (m2, res, _) = model::bind_image(img, file, bases, m1, fresh);
    let used = (res.next - res.base) as u64;
    let m3 = model::publish_trampolines(m2, cfg.trampoline_base, used).0;
    let m4 = model::protect_segments(img.segments, bases, 0, m3).0;
    contents::lemma_protected_wf(img, file, mem, cfg);
    laws::main_finds_its_arguments(m4, cfg);
}

/// A segment ends up with the protection that it asks for, or readable if it
/// asks for none.
pub proof fn protections_are_those_asked_for(s: SegmentView)
    ensures
        s.initprot.0 != 0 ==> model::final_protection(s) == s.initprot,
        s.initprot.0 == 0 ==> model::final_protection(s) == Protection(1),
{
}

// ---- initializers -----------------------------------------------------------

/// Pointers that can be read are all found, in their order.
pub proof fn pointers_are_found(mem: MemView, addr: u64, ws: Seq<u64>)
    requires
        addr + 8 * ws.len() <= u64::MAX,
        forall|k: int|
            0 <= k < ws.len() ==> mem.read_u64((addr + 8 * k) as u64) == Ok::<u64, ErrorView>(
                #[trigger] ws[k],
            ),
    ensures
        model::pointers_at(mem, addr, ws.len()) == ws,
    decreases ws.len(),
{
    if ws.len() > 0 {
        let rest = ws.drop_first();
        let next = (addr + 8) as u64;
        assert(mem.read_u64((addr + 8 * 0) as u64) == Ok::<u64, ErrorView>(ws[0]));
        assert forall|k: int| 0 <= k < rest.len() implies mem.read_u64((next + 8 * k) as u64)
            == Ok::<u64, ErrorView>(#[trigger] rest[k]) by {
            assert(rest[k] == ws[k + 1]);
            assert(next + 8 * k == addr + 8 * (k + 1));
        }
        pointers_are_found(mem, next, rest);
        assert(seq![ws[0]] + rest =~= ws);
    } else {
        assert(ws =~= Seq::empty());
    }
}

proof fn lemma_sections(
    mem: MemView,
    pre: Seq<SectionView>,
    more: Seq<SectionView>,
    slide: u64,
    j: int,
)
    requires
        0 <= j <= pre.len(),
    ensures
        model::section_inits(mem, pre + more, slide, j) == model::section_inits(mem, pre, slide, j)
            + model::section_inits(mem, more, slide, 0),
    decreases pre.len() - j,
{
    if j < pre.len() {
        assert((pre + more)[j] == pre[j]);
        lemma_sections(mem, pre, more, slide, j + 1);
        let s = pre[j];
        let own = model::pointers_at(mem, s.addr.wrapping_add(slide), (s.size / 8) as nat);
        let a = model::section_inits(mem, pre, slide, j + 1);
        let b = model::section_inits(mem, more, slide, 0);
        assert((own + a) + b =~= own + (a + b));
    } else {
        lemma_shift(mem, pre, more, slide, 0);
        assert(Seq::<u64>::empty() + model::section_inits(mem, more, slide, 0)
            =~= model::section_inits(mem, more, slide, 0));
    }
}

proof fn lemma_shift(
    mem: MemView,
    pre: Seq<SectionView>,
    more: Seq<SectionView>,
    slide: u64,
    j: int,
)
    requires
        0 <= j <= more.len(),
    ensures
        model::section_inits(mem, pre + more, slide, pre.len() + j) == model::section_inits(
            mem,
            more,
            slide,
            j,
        ),
    decreases more.len() - j,
{
    if j < more.len() {
        assert((pre + more)[pre.len() + j] == more[j]);
        lemma_shift(mem, pre, more, slide, j + 1);
    }
}

/// A section of initializers, which is one whose type is 9, contributes the
/// pointers in it, between those of the sections before and behind it; any other
/// section contributes nothing.
pub proof fn initializers_are_collected(
    mem: MemView,
    pre: Seq<SectionView>,
    s: SectionView,
    post: Seq<SectionView>,
    slide: u64,
    ws: Seq<u64>,
)
    requires
        s.addr + slide + s.size <= u64::MAX,
        s.size == 8 * ws.len(),
        forall|k: int|
            0 <= k < ws.len() ==> mem.read_u64((s.addr + slide + 8 * k) as u64) == Ok::<
                u64,
                ErrorView,
            >(#[trigger] ws[k]),
    ensures
        s.flags % 0x100 == 9 ==> model::section_inits(mem, pre + seq![s] + post, slide, 0)
            == model::section_inits(mem, pre, slide, 0) + ws + model::section_inits(
            mem,
            post,
            slide,
            0,
        ),
        s.flags % 0x100 != 9 ==> model::section_inits(mem, pre + seq![s] + post, slide, 0)
            == model::section_inits(mem, pre, slide, 0) + model::section_inits(mem, post, slide, 0),
{
    let f = s.flags;
    assert(f & 0xff == f % 0x100) by (bit_vector);
    lemma_sections(mem, pre + seq![s], post, slide, 0);
    lemma_sections(mem, pre, seq![s], slide, 0);
    assert(s.addr.wrapping_add(slide) == s.addr + slide);
    assert forall|k: int| 0 <= k < ws.len() implies mem.read_u64(
        (s.addr.wrapping_add(slide) + 8 * k) as u64,
    ) == Ok::<u64, ErrorView>(#[trigger] ws[k]) by {}
    pointers_are_found(mem, s.addr.wrapping_add(slide), ws);
    assert((s.size / 8) as nat == ws.len());
    reveal_with_fuel(model::section_inits, 2);
    let a = model::section_inits(mem, pre, slide, 0);
    let one = model::section_inits(mem, seq![s], slide, 0);
    if f % 0x100 == 9 {
        assert(one =~= ws);
    } else {
        assert(one =~= Seq::empty());
        assert(a + one =~= a);
    }
}

/// The initializers of an image are those of its segments, in their order.
pub proof fn initializers_follow_the_segments(
    mem: MemView,
    pre: Seq<SegmentView>,
    s: SegmentView,
    slide: u64,
)
    ensures
        model::image_inits(mem, pre.push(s), slide, 0) == model::image_inits(mem, pre, slide, 0)
            + model::section_inits(mem, s.sections, slide, 0),
{
    lemma_segments(mem, pre, s, slide, 0);
}

proof fn lemma_segments(
    mem: MemView,
    pre: Seq<SegmentView>,
    s: SegmentView,
    slide: u64,
    i: int,
)
    requires
        0 <= i <= pre.len(),
    ensures
        model::image_inits(mem, pre.push(s), slide, i) == model::image_inits(mem, pre, slide, i)
            + model::section_inits(mem, s.sections, slide, 0),
    decreases pre.len() - i,
{
    let all = pre.push(s);
    let last = model::section_inits(mem, s.sections, slide, 0);
    if i < pre.len() {
        assert(all[i] == pre[i]);
        lemma_segments(mem, pre, s, slide, i + 1);
        let own = model::section_inits(mem, pre[i].sections, slide, 0);
        let a = model::image_inits(mem, pre, slide, i + 1);
        assert((own + a) + last =~= own + (a + last));
    } else {
        assert(all[i] == s);
        assert(model::image_inits(mem, all, slide, i + 1) =~= Seq::empty());
        assert(last + Seq::<u64>::empty() =~= last);
        assert(Seq::<u64>::empty() + last =~= last);
    }
}

// ---- lazy bindings ----------------------------------------------------------

/// A lazy binding is found under its place in the stream: its symbol, and its
/// pointer's place in the mapped segment.
pub proof fn lazy_bindings_are_found_by_place(
    pre: Seq<LazyView>,
    e: LazyView,
    post: Seq<LazyView>,
    bases: Seq<Option<u64>>,
    base: u64,
)
    requires
        e.seg_index < bases.len(),
        bases[e.seg_index as int] == Some(base),
        forall|k: int| 0 <= k < post.len() ==> (#[trigger] post[k]).offset != e.offset,
    ensures
        ({
            let t = model::lazy_table(pre + seq![e] + post, 0, bases, Map::empty());
            &&& t.contains_key(e.offset)
            &&& t[e.offset].0 == e.symbol
            &&& t[e.offset].1 == around(base + e.seg_offset)
        }),
{
    lemma_lazy(pre, e, post, bases, base, 0, Map::empty());
}

proof fn lemma_lazy(
    pre: Seq<LazyView>,
    e: LazyView,
    post: Seq<LazyView>,
    bases: Seq<Option<u64>>,
    base: u64,
    i: int,
    table: Map<u64, (Seq<char>, u64)>,
)
    requires
        e.seg_index < bases.len(),
        bases[e.seg_index as int] == Some(base),
        forall|k: int| 0 <= k < post.len() ==> (#[trigger] post[k]).offset != e.offset,
        0 <= i <= pre.len() + 1 + post.len(),
        i > pre.len() ==> table.contains_key(e.offset) && table[e.offset] == (
            e.symbol,
            base.wrapping_add(e.seg_offset),
        ),
    ensures
        ({
            let t = model::lazy_table(pre + seq![e] + post, i, bases, table);
            &&& t.contains_key(e.offset)
            &&& t[e.offset] == (e.symbol, base.wrapping_add(e.seg_offset))
        }),
    decreases pre.len() + 1 + post.len() - i,
{
    let all = pre + seq![e] + post;
    if i < all.len() {
        let x = all[i];
        if i == pre.len() {
            assert(x == e);
        } else if i > pre.len() {
            assert(x == post[i - pre.len() - 1]);
        }
        match model::base_of(bases, x.seg_index) {
            None => lemma_lazy(pre, e, post, bases, base, i + 1, table),
            Some(b) => lemma_lazy(
                pre,
                e,
                post,
                bases,
                base,
                i + 1,
                table.insert(x.offset, (x.symbol, b.wrapping_add(x.seg_offset))),
            ),
        }
    }
}

/// The lazy table of an image is that of its lazy stream, which stands where the
/// image's linking information says; one without such information has none.
pub proof fn images_have_the_lazy_table_of_their_stream(
    img: ImageView,
    file: Seq<u8>,
    bases: Seq<Option<u64>>,
    mem: MemView,
    res: ResolverView,
    entries: Seq<LazyView>,
)
    ensures
        img.dyld_info is None ==> model::bind_image(img, file, bases, mem, res).2 == Ok::<
            Map<u64, (Seq<char>, u64)>,
            ErrorView,
        >(Map::empty()),
        img.dyld_info matches Some(i) && i.lazy_bind_off + i.lazy_bind_size <= file.len()
            && bind::lazy_entries(
            file.subrange(i.lazy_bind_off as int, i.lazy_bind_off + i.lazy_bind_size),
            0,
            bind::lazy_initial(),
        ) == Ok::<Seq<LazyView>, ErrorView>(entries) && model::bind_image(
            img,
            file,
            bases,
            mem,
            res,
        ).2 is Ok ==> model::bind_image(img, file, bases, mem, res).2 == Ok::<
            Map<u64, (Seq<char>, u64)>,
            ErrorView,
        >(model::lazy_table(entries, 0, bases, Map::empty())),
{
}

/// Bind information that does not lie in the file is refused.
pub proof fn bind_streams_lie_in_the_file(
    img: ImageView,
    file: Seq<u8>,
    bases: Seq<Option<u64>>,
    mem: MemView,
    res: ResolverView,
)
    ensures
        img.dyld_info matches Some(i) && i.bind_size > 0 && i.bind_off + i.bind_size > file.len()
            ==> model::bind_image(img, file, bases, mem, res).2 is Err,
        img.dyld_info matches Some(i) && i.lazy_bind_size > 0 && i.lazy_bind_off
            + i.lazy_bind_size > file.len() ==> model::bind_image(img, file, bases, mem, res).2
            is Err,
{
}

/// A binding in a segment that is not mapped changes nothing and is warned of;
/// one that is made is not.
pub proof fn bindings_that_cannot_be_made_are_warned_of(
    rec: BindView,
    bases: Seq<Option<u64>>,
    mem: MemView,
    res: ResolverView,
    base: u64,
    stub: u64,
)
    ensures
        rec.seg_index >= bases.len() || bases[rec.seg_index as int] is None ==> {
            &&& model::bind_one(rec, bases, mem, res) == (mem, res)
            &&& model::bind_warning(rec, bases, mem, res).len() == 1
        },
        rec.seg_index < bases.len() && bases[rec.seg_index as int] == Some(base) && res.resolve(
            rec.symbol,
        ).1 == Some(stub) ==> ({
            let target = base.wrapping_add(rec.seg_offset);
            let word = bytes::le64_bytes(around(stub + rec.addend) as u64);
            &&& mem.write(target, word).1 is Ok ==> model::bind_warning(
                rec,
                bases,
                mem,
                res,
            ).len() == 0 && model::bind_one(rec, bases, mem, res).0 == mem.write(target, word).0
            &&& mem.write(target, word).1 is Err ==> model::bind_warning(
                rec,
                bases,
                mem,
                res,
            ).len() == 1
        }),
{
}

// ---- the extent of an image -------------------------------------------------

/// An image reaches to the end of its highest segment: no segment but the guard
/// ends behind that, and one of them ends there, unless none ends behind the
/// start.
pub proof fn images_reach_to_their_highest_segment(
    segments: Seq<SegmentView>,
    i: int,
    low: u64,
    k: int,
)
    requires
        0 <= i <= segments.len(),
    ensures
        ({
            let high = model::high_end(segments, i, low);
            &&& low <= high
            &&& i <= k < segments.len() && segments[k].name != "__PAGEZERO"@ && segments[k].vmaddr
                + segments[k].vmsize <= u64::MAX ==> segments[k].vmaddr + segments[k].vmsize <= high
            &&& high == low || high == u64::MAX || exists|j: int|
                i <= j < segments.len() && (#[trigger] segments[j]).name != "__PAGEZERO"@
                    && segments[j].vmaddr + segments[j].vmsize == high
        }),
    decreases segments.len() - i,
{
    if i < segments.len() {
        let seg = segments[i];
        let end = if seg.vmaddr + seg.vmsize > u64::MAX {
            u64::MAX
        } else {
            (seg.vmaddr + seg.vmsize) as u64
        };
        let next = if model::is_guard(seg) || end <= low {
            low
        } else {
            end
        };
        images_reach_to_their_highest_segment(segments, i + 1, next, k);
        let high = model::high_end(segments, i, low);
        if high == next && next != low && high != u64::MAX {
            assert(segments[i].vmaddr + segments[i].vmsize == high);
        }
    }
}

/// A symbol for which there is no trampoline left is warned of and its location
/// left alone, unless it is weak: then it is bound to null.
pub proof fn symbols_without_a_trampoline_are_null_if_weak(
    rec: BindView,
    bases: Seq<Option<u64>>,
    mem: MemView,
    res: ResolverView,
    base: u64,
)
    requires
        mem.wf(),
        rec.seg_index < bases.len(),
        bases[rec.seg_index as int] == Some(base),
        res.resolve(rec.symbol).1 is None,
    ensures
        ({
            let target = base.wrapping_add(rec.seg_offset);
            let after = model::bind_one(rec, bases, mem, res).0;
            &&& !rec.weak ==> after == mem && model::bind_warning(rec, bases, mem, res).len() == 1
            &&& rec.weak && mem.read(target, 8) is Ok && mem.write(
                target,
                bytes::le64_bytes(0),
            ).1 is Ok ==> after.read_u64(target) == Ok::<u64, ErrorView>(0)
        }),
{
    let target = base.wrapping_add(rec.seg_offset);
    if mem.read(target, 8) is Ok && mem.write(target, bytes::le64_bytes(0)).1 is Ok {
        space::word64_roundtrip(mem, target, 0);
    }
}

} // verus!
