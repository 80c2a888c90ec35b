//! Laws of process construction.

use vstd::prelude::*;

use crate::bytes;
use crate::common::error::ErrorView;
use crate::common::{Protection, PAGE_SIZE};
use crate::kernel::process::model;
use crate::kernel::process::model::{ConfigView, AARCH64_BRK0};
use crate::loader::dyld::bind;
use crate::loader::dyld::bind::BindView;
use crate::loader::dyld::leb;
use crate::loader::dyld::linker;
use crate::loader::dyld::linker::ResolverView;
use crate::loader::macho::model::ImageView;
use crate::memory::region::{RegionKind, RegionView};
use crate::memory::space;
use crate::memory::space::MemView;

verus! {

/// An encrypted image is refused and nothing is mapped for it.
pub proof fn encrypted_images_are_refused(
    img: ImageView,
    file: Seq<u8>,
    mem: MemView,
    cfg: ConfigView,
)
    requires
        model::encrypted(img),
    ensures
        model::built(img, file, mem, cfg).0 == mem,
        model::built(img, file, mem, cfg).1 is Err,
{
}

/// Sliding an image moves its entry point by the slide, whichever way the entry
/// is given, and an image without an entry has none at any slide.
pub proof fn slide_moves_the_entry(img: ImageView, slide: u64)
    ensures
        match model::entry_point(img, 0) {
            Ok(e) => model::entry_point(img, slide) == Ok::<u64, ErrorView>(e.wrapping_add(slide)),
            Err(e) => model::entry_point(img, slide) == Err::<u64, ErrorView>(e),
        },
{
}

/// A bound location holds its symbol's trampoline plus the addend, and the
/// trampoline leads back to the symbol.
pub proof fn bound_locations_hold_their_trampoline(
    rec: BindView,
    bases: Seq<Option<u64>>,
    mem: MemView,
    res: ResolverView,
)
    requires
        mem.wf(),
        res.wf(),
        res.stride > 0,
        model::base_of(bases, rec.seg_index) is Some,
        res.resolve(rec.symbol).1 is Some,
        ({
            let at = model::base_of(bases, rec.seg_index)->0.wrapping_add(rec.seg_offset);
            let t = res.resolve(rec.symbol).1->0;
            let word = bytes::le64_bytes(leb::wrapped(t + rec.addend));
            mem.write(at, word).1 is Ok && mem.read(at, 8) is Ok
        }),
    ensures
        ({
            let at = model::base_of(bases, rec.seg_index)->0.wrapping_add(rec.seg_offset);
            let t = res.resolve(rec.symbol).1->0;
            let (m, r) = model::bind_one(rec, bases, mem, res);
            &&& m.read_u64(at) == Ok::<u64, ErrorView>(leb::wrapped(t + rec.addend))
            &&& r.reverse.contains_key(t) && r.reverse[t] == rec.symbol
        }),
{
    let at = model::base_of(bases, rec.seg_index)->0.wrapping_add(rec.seg_offset);
    let t = res.resolve(rec.symbol).1->0;
    space::word64_roundtrip(mem, at, leb::wrapped(t + rec.addend));
    linker::addresses_are_stable(res, rec.symbol, rec.symbol);
    linker::resolving_keeps_tables_inverse(res, rec.symbol);
}

/// Binding keeps the resolver's tables inverse to each other and its area in
/// place.
proof fn lemma_bind_all_resolver(
    records: Seq<BindView>,
    i: int,
    bases: Seq<Option<u64>>,
    mem: MemView,
    res: ResolverView,
)
    requires
        res.wf(),
    ensures
        model::bind_all(records, i, bases, mem, res).1.wf(),
        model::bind_all(records, i, bases, mem, res).1.base == res.base,
        model::bind_all(records, i, bases, mem, res).1.stride == res.stride,
    decreases records.len() - i,
{
    if 0 <= i < records.len() {
        linker::resolving_keeps_tables_inverse(res, records[i].symbol);
        let (m, r) = model::bind_one(records[i], bases, mem, res);
        lemma_bind_all_resolver(records, i + 1, bases, m, r);
    }
}

proof fn lemma_bind_image_resolver(
    img: ImageView,
    file: Seq<u8>,
    bases: Seq<Option<u64>>,
    mem: MemView,
    res: ResolverView,
)
    requires
        res.wf(),
    ensures
        model::bind_image(img, file, bases, mem, res).1.wf(),
        model::bind_image(img, file, bases, mem, res).1.base == res.base,
        model::bind_image(img, file, bases, mem, res).1.stride == res.stride,
{
    if let Some(info) = img.dyld_info {
        if let Ok(stream) = model::stream_at(file, info.bind_off, info.bind_size) {
            if let Ok(records) = bind::bind_records(stream, 0, bind::initial()) {
                lemma_bind_all_resolver(records, 0, bases, mem, res);
            }
        }
        let (m, r, _) = model::bind_stream(file, info.bind_off, info.bind_size, bases, mem, res);
        if let Ok(stream) = model::stream_at(file, info.lazy_bind_off, info.lazy_bind_size) {
            if let Ok(records) = bind::bind_records(stream, 0, bind::initial()) {
                lemma_bind_all_resolver(records, 0, bases, m, r);
            }
        }
    }
}

/// Every trampoline of a process lies in its trampoline area, so a branch to an
/// import is recognised by its address, and the symbol's trampoline and the
/// trampoline's symbol agree.
pub proof fn trampolines_lie_in_their_area(
    img: ImageView,
    file: Seq<u8>,
    mem: MemView,
    cfg: ConfigView,
    addr: u64,
)
    requires
        cfg.trampoline_stride > 0,
    ensures
        model::built(img, file, mem, cfg).1 matches Ok(p) ==> p.trampolines.contains_key(addr) ==> {
            &&& p.trampoline_base <= addr < p.trampoline_end
            &&& p.symbol_stubs.contains_key(p.trampolines[addr])
            &&& p.symbol_stubs[p.trampolines[addr]] == addr
        },
{
    let (m1, b) = model::map_segments(img.segments, 0, file, cfg.slide, mem);
    if let Ok(bases) = b {
        let fresh = ResolverView::fresh(cfg.trampoline_base, cfg.trampoline_stride);
        lemma_bind_image_resolver(img, file, bases, m1, fresh);
        let (m2, res, _) = model::bind_image(img, file, bases, m1, fresh);
        if res.reverse.contains_key(addr) {
            assert(res.forward.contains_key(res.reverse[addr]));
            let need = model::trampoline_need((res.next - res.base) as u64);
            crate::common::lemma_page_size();
            crate::common::rounding_brackets(need as int, PAGE_SIZE as int);
        }
    }
}

/// The word at a multiple of four in a sled is the trap instruction.
pub proof fn lemma_sled_word(n: int, k: int)
    requires
        0 <= k,
        4 * k + 4 <= n,
    ensures
        model::sled(n).subrange(4 * k, 4 * k + 4) == bytes::le32_bytes(AARCH64_BRK0),
{
    let w = bytes::le32_bytes(AARCH64_BRK0);
    let s = model::sled(n).subrange(4 * k, 4 * k + 4);
    assert forall|i: int| 0 <= i < 4 implies s[i] == w[i] by {
        assert((4 * k + i) % 4 == i);
    }
    assert(s =~= w);
}

/// The region found for an address in the published trampoline area.
pub proof fn lemma_published(mem: MemView, base: u64, used: u64, addr: u64) -> (g: int)
    requires
        mem.wf(),
        model::publish_trampolines(mem, base, used).1 is Ok,
        base <= addr < base + space::page_span(model::trampoline_need(used) as int),
    ensures
        ({
            let m = model::publish_trampolines(mem, base, used).0;
            &&& g == space::floor_index(m.regions, addr)
            &&& 0 <= g < m.regions.len()
            &&& m.regions[g].base == base
            &&& m.regions[g].prot == Protection(5)
            &&& m.regions[g].data == model::sled(
                space::page_span(model::trampoline_need(used) as int),
            )
        }),
{
    let need = model::trampoline_need(used);
    let span = space::page_span(need as int);
    let m1 = mem.map(base, need, Protection(3), RegionKind::Segment, "__stubs"@).0;
    let m2 = m1.write(base, model::sled(span)).0;
    let m3 = m2.protect(base, Protection(5)).0;
    let r = RegionView {
        base,
        prot: Protection(3),
        kind: RegionKind::Segment,
        name: "__stubs"@,
        data: crate::memory::region::zero_extended(Seq::empty(), span),
    };
    space::placing_keeps_order(
        mem,
        base,
        span,
        Seq::empty(),
        Protection(3),
        RegionKind::Segment,
        "__stubs"@,
    );
    lemma_fresh_floor(mem, r, base);
    lemma_fresh_floor(mem, r, addr);
    let g = space::floor_index(m1.regions, base);
    space::lemma_floor_index(m1.regions, base);
    lemma_same_region(m1, base, addr);
    space::lemma_same_layout(m1, base, model::sled(span), base);
    space::lemma_same_layout(m1, base, model::sled(span), addr);
    assert(m2.regions[g].data =~= model::sled(span));
    lemma_protect_layout(m2, base, Protection(5), addr);
    assert(m3.regions[g] == (RegionView { prot: Protection(5), ..m2.regions[g] }));
    g
}

/// The published trampoline area consists of trap instructions from its base to
/// its end, and nothing can be written to it: a stray branch into it always
/// traps.
pub proof fn trampolines_are_traps(mem: MemView, base: u64, used: u64, k: int, b: Seq<u8>, at: u64)
    requires
        mem.wf(),
        model::publish_trampolines(mem, base, used).1 is Ok,
        0 <= k,
        4 * k + 4 <= space::page_span(model::trampoline_need(used) as int),
        base <= at < base + space::page_span(model::trampoline_need(used) as int),
    ensures
        model::publish_trampolines(mem, base, used).0.read_u32((base + 4 * k) as u64) == Ok::<
            u32,
            ErrorView,
        >(AARCH64_BRK0),
        model::publish_trampolines(mem, base, used).0.write(at, b).1 is Err,
{
    let span = space::page_span(model::trampoline_need(used) as int);
    let m = model::publish_trampolines(mem, base, used).0;
    assert(base + span <= u64::MAX);
    let addr = (base + 4 * k) as u64;
    let g = lemma_published(mem, base, used, addr);
    lemma_published(mem, base, used, at);
    crate::common::guest::common_protections();
    lemma_sled_word(span, k);
    bytes::le32_roundtrip(AARCH64_BRK0);
    assert(m.regions[g].access(addr, 4, Protection(1)) == Ok::<int, ErrorView>(4 * k));
}

/// A region that was just placed is found for the addresses in it.
pub proof fn lemma_fresh_floor(m: MemView, r: RegionView, addr: u64)
    requires
        m.wf(),
        !space::overlaps(m.regions, r.base as int, r.end()),
        r.base <= addr < r.end(),
    ensures
        ({
            let after = space::put(m.regions, r);
            let g = space::floor_index(after, addr);
            g >= 0 && after[g] == r
        }),
{
    space::lemma_floor_index(m.regions, addr);
    let f = space::floor_index(m.regions, addr);
    if f >= 0 && m.regions[f].base > r.base {
        assert(m.regions[f].base < r.end());
        assert(m.regions[f].end() <= r.base);
    }
    space::lemma_put(m.regions, r, addr);
}

/// Two addresses whose region is the same have the same region index.
proof fn lemma_same_region(m: MemView, a: u64, b: u64)
    requires
        m.wf(),
        space::floor_index(m.regions, a) >= 0,
        space::floor_index(m.regions, b) >= 0,
        m.regions[space::floor_index(m.regions, a)] == m.regions[space::floor_index(m.regions, b)],
    ensures
        space::floor_index(m.regions, a) == space::floor_index(m.regions, b),
{
    let i = space::floor_index(m.regions, a);
    let j = space::floor_index(m.regions, b);
    space::lemma_floor_index(m.regions, a);
    space::lemma_floor_index(m.regions, b);
    if i < j {
        assert(m.regions[i].base < m.regions[j].base);
    } else if j < i {
        assert(m.regions[j].base < m.regions[i].base);
    }
}

/// Changing a protection moves no region.
proof fn lemma_protect_layout(m: MemView, addr: u64, prot: Protection, other: u64)
    ensures
        space::floor_index(m.protect(addr, prot).0.regions, other) == space::floor_index(
            m.regions,
            other,
        ),
{
    let after = m.protect(addr, prot).0;
    space::lemma_floor_index(m.regions, addr);
    space::lemma_floor_index(m.regions, other);
    space::lemma_floor_index(after.regions, other);
    let f = space::floor_index(m.regions, other);
    let g = space::floor_index(after.regions, other);
    if f < g {
        assert(after.regions[g].base == m.regions[g].base);
    } else if g < f {
        assert(after.regions[f].base == m.regions[f].base);
    }
}

// ---- the initial stack ------------------------------------------------------

/// One region holds all of `[lo, hi)` and may be read and written.
pub open spec fn rw_window(m: MemView, lo: int, hi: int) -> bool {
    m.wf() && exists|i: int|
        0 <= i < m.regions.len() && (#[trigger] m.regions[i]).base <= lo && hi
            <= m.regions[i].end() && m.regions[i].prot == Protection(3)
}

/// In such a window every access succeeds.
proof fn lemma_window_access(m: MemView, lo: int, hi: int, addr: u64, len: int)
    requires
        rw_window(m, lo, hi),
        len > 0,
        lo <= addr,
        addr + len <= hi,
    ensures
        m.read(addr, len) is Ok,
        forall|b: Seq<u8>| b.len() == len ==> (#[trigger] m.write(addr, b)).1 is Ok,
{
    let i = choose|i: int|
        0 <= i < m.regions.len() && (#[trigger] m.regions[i]).base <= lo && hi
            <= m.regions[i].end() && m.regions[i].prot == Protection(3);
    space::lemma_floor_index(m.regions, addr);
    let f = space::floor_index(m.regions, addr);
    if f < i {
        assert(addr < m.regions[i].base);
    } else if i < f {
        assert(m.regions[i].end() <= m.regions[f].base);
    }
    crate::common::guest::common_protections();
}

/// Writing keeps the window, is read back, and leaves the rest of it alone.
proof fn lemma_window_write(m: MemView, lo: int, hi: int, addr: u64, b: Seq<u8>)
    requires
        rw_window(m, lo, hi),
        b.len() > 0,
        lo <= addr,
        addr + b.len() <= hi,
    ensures
        m.write(addr, b).1 is Ok,
        rw_window(m.write(addr, b).0, lo, hi),
        m.write(addr, b).0.read(addr, b.len() as int) == Ok::<Seq<u8>, ErrorView>(b),
        forall|other: u64, len: int|
            #![trigger m.write(addr, b).0.read(other, len)]
            len >= 0 && (other + len <= addr || addr + b.len() <= other) ==> m.write(
                addr,
                b,
            ).0.read(other, len) == m.read(other, len),
{
    lemma_window_access(m, lo, hi, addr, b.len() as int);
    space::read_after_write(m, addr, b);
    let after = m.write(addr, b).0;
    let i = choose|i: int|
        0 <= i < m.regions.len() && (#[trigger] m.regions[i]).base <= lo && hi
            <= m.regions[i].end() && m.regions[i].prot == Protection(3);
    space::lemma_same_layout(m, addr, b, addr);
    assert(after.regions[i].base == m.regions[i].base);
    assert forall|k: int, l: int| 0 <= k < l < after.regions.len() implies (
    #[trigger] after.regions[k]).base < (#[trigger] after.regions[l]).base
        && after.regions[k].end() <= after.regions[l].base by {
        assert(m.regions[k].base < m.regions[l].base);
    }
    assert forall|k: int| 0 <= k < after.regions.len() implies (#[trigger] after.regions[k]).end()
        <= u64::MAX by {
        assert(m.regions[k].end() <= u64::MAX);
    }
    assert forall|other: u64, len: int|
        #![trigger m.write(addr, b).0.read(other, len)]
        len >= 0 && (other + len <= addr || addr + b.len() <= other) implies m.write(
        addr,
        b,
    ).0.read(other, len) == m.read(other, len) by {
        space::write_leaves_the_rest(m, addr, b, other, len);
    }
}

/// Where the parts of the initial stack are when it is large enough.
pub proof fn lemma_stack_layout(top: u64, len: u64)
    requires
        len + 96 <= top,
    ensures
        ({
            let l = model::stack_layout(top, len);
            &&& top - len - 96 <= l.argv
            &&& l.argv + 16 <= l.envp
            &&& l.envp + 8 <= l.apple
            &&& l.apple + 16 <= l.path
            &&& l.path + len + 1 <= top - 16
            &&& l.argv % 16 == 0
        }),
{
}

/// A stack with room for the arguments is always built, and `main` finds on it
/// what its registers point to: `argv` holds the path and a null, `envp` a
/// null, `apple` the path and a null, and the path is there, NUL-terminated.
/// The stack pointer is a multiple of sixteen.
#[verifier::rlimit(60)]
#[verifier::spinoff_prover]
pub proof fn main_finds_its_arguments(mem: MemView, cfg: ConfigView)
    requires
        mem.wf(),
        cfg.stack_size <= cfg.stack_top,
        vstd::utf8::encode_utf8(cfg.argv0).len() + 96 <= cfg.stack_size,
        vstd::utf8::encode_utf8(cfg.argv0).len() > 0,
        mem.map(
            (cfg.stack_top - cfg.stack_size) as u64,
            cfg.stack_size,
            Protection(3),
            RegionKind::Stack,
            "stack"@,
        ).1 is Ok,
    ensures
        ({
            let path = vstd::utf8::encode_utf8(cfg.argv0);
            match model::build_stack(mem, cfg) {
                (_, Err(_)) => false,
                (m, Ok(l)) => {
                    &&& l.argv % 16 == 0
                    &&& m.read_u64(l.argv) == Ok::<u64, ErrorView>(l.path)
                    &&& m.read_u64((l.argv + 8) as u64) == Ok::<u64, ErrorView>(0)
                    &&& m.read_u64(l.envp) == Ok::<u64, ErrorView>(0)
                    &&& m.read_u64(l.apple) == Ok::<u64, ErrorView>(l.path)
                    &&& m.read_u64((l.apple + 8) as u64) == Ok::<u64, ErrorView>(0)
                    &&& m.read(l.path, path.len() as int) == Ok::<Seq<u8>, ErrorView>(path)
                    &&& m.read((l.path + path.len()) as u64, 1) == Ok::<Seq<u8>, ErrorView>(
                        seq![0u8],
                    )
                },
            }
        }),
{
    let path = vstd::utf8::encode_utf8(cfg.argv0);
    let n = path.len() as u64;
    let l = model::stack_layout(cfg.stack_top, n);
    lemma_stack_layout(cfg.stack_top, n);
    let base = (cfg.stack_top - cfg.stack_size) as u64;
    let span = space::page_span(cfg.stack_size as int);
    crate::common::rounding_brackets(cfg.stack_size as int, PAGE_SIZE as int);
    let m0 = mem.map(base, cfg.stack_size, Protection(3), RegionKind::Stack, "stack"@).0;
    let r = RegionView {
        base,
        prot: Protection(3),
        kind: RegionKind::Stack,
        name: "stack"@,
        data: crate::memory::region::zero_extended(Seq::empty(), span),
    };
    space::placing_keeps_order(
        mem,
        base,
        span,
        Seq::empty(),
        Protection(3),
        RegionKind::Stack,
        "stack"@,
    );
    lemma_fresh_floor(mem, r, base);
    let g = space::floor_index(m0.regions, base);
    space::lemma_floor_index(m0.regions, base);
    assert(m0.regions[g] == r);
    let lo = base as int;
    let hi = cfg.stack_top as int;
    assert(rw_window(m0, lo, hi));
    let w = model::stack_writes(l, path);
    bytes::le64_roundtrip(l.path);
    bytes::le64_roundtrip(0);
    reveal_with_fuel(model::write_all, 8);
    lemma_window_write(m0, lo, hi, w[0].0, w[0].1);
    let m1 = m0.write(w[0].0, w[0].1).0;
    lemma_window_write(m1, lo, hi, w[1].0, w[1].1);
    let m2 = m1.write(w[1].0, w[1].1).0;
    lemma_window_write(m2, lo, hi, w[2].0, w[2].1);
    let m3 = m2.write(w[2].0, w[2].1).0;
    lemma_window_write(m3, lo, hi, w[3].0, w[3].1);
    let m4 = m3.write(w[3].0, w[3].1).0;
    lemma_window_write(m4, lo, hi, w[4].0, w[4].1);
    let m5 = m4.write(w[4].0, w[4].1).0;
    lemma_window_write(m5, lo, hi, w[5].0, w[5].1);
    let m6 = m5.write(w[5].0, w[5].1).0;
    lemma_window_write(m6, lo, hi, w[6].0, w[6].1);
    let m7 = m6.write(w[6].0, w[6].1).0;
    // What is read in the end is what was last written there.
    assert(m7.read(l.path, n as int) == Ok::<Seq<u8>, ErrorView>(path));
    assert(m7.read(w[1].0, 1) == Ok::<Seq<u8>, ErrorView>(seq![0u8]));
    assert(m7.read(l.apple, 8) == Ok::<Seq<u8>, ErrorView>(w[2].1));
    assert(m7.read(w[3].0, 8) == Ok::<Seq<u8>, ErrorView>(w[3].1));
    assert(m7.read(l.envp, 8) == Ok::<Seq<u8>, ErrorView>(w[4].1));
    assert(m7.read(l.argv, 8) == Ok::<Seq<u8>, ErrorView>(w[5].1));
    assert(m7.read(w[6].0, 8) == Ok::<Seq<u8>, ErrorView>(w[6].1));
}

} // verus!
