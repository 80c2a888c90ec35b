//! What laying out a process means: each step as a function on the address
//! space.

use vstd::prelude::*;

use crate::bytes;
use crate::common::error::ErrorView;
use crate::common::{Protection, PAGE_SIZE};
use crate::kernel::host::{LogLevel, LogTarget, LogView};
use crate::loader::dyld::bind;
use crate::loader::dyld::bind::{BindView, LazyView};
use crate::loader::dyld::leb;
use crate::loader::dyld::linker::ResolverView;
use crate::loader::macho::consts::{SECTION_TYPE, S_MOD_INIT_FUNC_POINTERS};
use crate::loader::macho::image::EntryPoint;
use crate::loader::macho::model::{ImageView, SectionView, SegmentView};
use crate::memory::region::RegionKind;
use crate::memory::space;
use crate::memory::space::MemView;
use crate::text;

verus! {

/// View of the layout configuration.
#[verifier::ext_equal]
pub struct ConfigView {
    pub slide: u64,
    pub stack_top: u64,
    pub stack_size: u64,
    pub trampoline_base: u64,
    pub trampoline_stride: u64,
    pub argv0: Seq<char>,
}

/// View of a process that has been laid out.
#[verifier::ext_equal]
pub struct ProcessView {
    pub entry: u64,
    pub sp: u64,
    pub arg_regs: Seq<u64>,
    pub trampolines: Map<u64, Seq<char>>,
    pub trampoline_base: u64,
    pub trampoline_end: u64,
    pub init_funcs: Seq<u64>,
    pub symbol_stubs: Map<Seq<char>, u64>,
    pub lazy_binds: Map<u64, (Seq<char>, u64)>,
}

/// The trap instruction that fills the trampoline area.
pub const AARCH64_BRK0: u32 = 0xD420_0000;

// ---- segments ---------------------------------------------------------------

/// The file contents of a segment: none if they are not all in the file.
pub open spec fn segment_data(seg: SegmentView, file: Seq<u8>) -> Seq<u8> {
    if seg.filesize > 0 && seg.fileoff + seg.filesize <= file.len() {
        file.subrange(seg.fileoff as int, seg.fileoff + seg.filesize)
    } else {
        Seq::empty()
    }
}

/// Whether a segment is the unmapped guard.
pub open spec fn is_guard(seg: SegmentView) -> bool {
    seg.name == "__PAGEZERO"@
}

/// Map the segments from number `i` on, readable and writable; the address each
/// is mapped at, or `None` for the guard.
pub open spec fn map_segments(
    segments: Seq<SegmentView>,
    i: int,
    file: Seq<u8>,
    slide: u64,
    mem: MemView,
) -> (MemView, Result<Seq<Option<u64>>, ErrorView>)
    decreases segments.len() - i,
{
    if i < 0 || i >= segments.len() {
        (mem, Ok(Seq::empty()))
    } else if is_guard(segments[i]) {
        match map_segments(segments, i + 1, file, slide, mem) {
            (m, Ok(rest)) => (m, Ok(seq![None::<u64>] + rest)),
            (m, Err(e)) => (m, Err(e)),
        }
    } else {
        let seg = segments[i];
        let base = seg.vmaddr.wrapping_add(slide);
        match mem.map_with_data(
            base,
            seg.vmsize,
            segment_data(seg, file),
            Protection(3),
            RegionKind::Segment,
            seg.name,
        ) {
            (m, Err(e)) => (m, Err(e)),
            (m, Ok(_)) => match map_segments(segments, i + 1, file, slide, m) {
                (m2, Ok(rest)) => (m2, Ok(seq![Some(base)] + rest)),
                (m2, Err(e)) => (m2, Err(e)),
            },
        }
    }
}

// ---- binding ----------------------------------------------------------------

/// The address a segment is mapped at, if it is.
pub open spec fn base_of(bases: Seq<Option<u64>>, index: u8) -> Option<u64> {
    if index < bases.len() {
        bases[index as int]
    } else {
        None
    }
}

/// Point one location at its symbol's trampoline. A location in an unmapped
/// segment is passed over, as is one that cannot be written; a weak symbol
/// without a trampoline is bound to null.
pub open spec fn bind_one(
    rec: BindView,
    bases: Seq<Option<u64>>,
    mem: MemView,
    res: ResolverView,
) -> (MemView, ResolverView) {
    match base_of(bases, rec.seg_index) {
        None => (mem, res),
        Some(base) => {
            let target = base.wrapping_add(rec.seg_offset);
            match res.resolve(rec.symbol) {
                (after, Some(t)) => (
                    mem.write(target, bytes::le64_bytes(leb::wrapped(t + rec.addend))).0,
                    after,
                ),
                (after, None) => if rec.weak {
                    (mem.write(target, bytes::le64_bytes(0)).0, after)
                } else {
                    (mem, after)
                },
            }
        },
    }
}

/// Bind the records from number `i` on.
pub open spec fn bind_all(
    records: Seq<BindView>,
    i: int,
    bases: Seq<Option<u64>>,
    mem: MemView,
    res: ResolverView,
) -> (MemView, ResolverView)
    decreases records.len() - i,
{
    if i < 0 || i >= records.len() {
        (mem, res)
    } else {
        let (m, r) = bind_one(records[i], bases, mem, res);
        bind_all(records, i + 1, bases, m, r)
    }
}

/// The `size` bytes at `off` of the file.
pub open spec fn stream_at(file: Seq<u8>, off: u32, size: u32) -> Result<Seq<u8>, ErrorView> {
    if off + size > file.len() {
        Err(ErrorView::Dyld("bind stream out of range"@))
    } else {
        Ok(file.subrange(off as int, off + size))
    }
}

/// Process one bind stream; an empty one is passed over.
pub open spec fn bind_stream(
    file: Seq<u8>,
    off: u32,
    size: u32,
    bases: Seq<Option<u64>>,
    mem: MemView,
    res: ResolverView,
) -> (MemView, ResolverView, Result<(), ErrorView>) {
    if size == 0 {
        (mem, res, Ok(()))
    } else {
        match stream_at(file, off, size) {
            Err(e) => (mem, res, Err(e)),
            Ok(stream) => match bind::bind_records(stream, 0, bind::initial()) {
                Err(e) => (mem, res, Err(e)),
                Ok(records) => {
                    let (m, r) = bind_all(records, 0, bases, mem, res);
                    (m, r, Ok(()))
                },
            },
        }
    }
}

/// The lazy bindings from number `i` on, added to `table`: stream offset to
/// symbol and pointer location, for the mapped segments.
pub open spec fn lazy_table(
    entries: Seq<LazyView>,
    i: int,
    bases: Seq<Option<u64>>,
    table: Map<u64, (Seq<char>, u64)>,
) -> Map<u64, (Seq<char>, u64)>
    decreases entries.len() - i,
{
    if i < 0 || i >= entries.len() {
        table
    } else {
        let e = entries[i];
        match base_of(bases, e.seg_index) {
            None => lazy_table(entries, i + 1, bases, table),
            Some(base) => lazy_table(
                entries,
                i + 1,
                bases,
                table.insert(e.offset, (e.symbol, base.wrapping_add(e.seg_offset))),
            ),
        }
    }
}

/// What the binder needs to know of the lazy stream: nothing, if it cannot be
/// decoded.
pub open spec fn lazy_stream(
    file: Seq<u8>,
    off: u32,
    size: u32,
    bases: Seq<Option<u64>>,
) -> Map<u64, (Seq<char>, u64)> {
    match stream_at(file, off, size) {
        Err(_) => Map::empty(),
        Ok(stream) => match bind::lazy_entries(stream, 0, bind::lazy_initial()) {
            Err(_) => Map::empty(),
            Ok(entries) => lazy_table(entries, 0, bases, Map::empty()),
        },
    }
}

/// Process the eager and the lazy bind stream of an image.
pub open spec fn bind_image(
    img: ImageView,
    file: Seq<u8>,
    bases: Seq<Option<u64>>,
    mem: MemView,
    res: ResolverView,
) -> (MemView, ResolverView, Result<Map<u64, (Seq<char>, u64)>, ErrorView>) {
    match img.dyld_info {
        None => (mem, res, Ok(Map::empty())),
        Some(info) => match bind_stream(file, info.bind_off, info.bind_size, bases, mem, res) {
            (m, r, Err(e)) => (m, r, Err(e)),
            (m, r, Ok(_)) => match bind_stream(
                file,
                info.lazy_bind_off,
                info.lazy_bind_size,
                bases,
                m,
                r,
            ) {
                (m2, r2, Err(e)) => (m2, r2, Err(e)),
                (m2, r2, Ok(_)) => (
                    m2,
                    r2,
                    Ok(lazy_stream(file, info.lazy_bind_off, info.lazy_bind_size, bases)),
                ),
            },
        },
    }
}

/// A warning about a binding.
pub open spec fn warning(text: Seq<char>) -> LogView {
    LogView { level: LogLevel::Warn, target: LogTarget::Emulator, text }
}

/// What is logged of one binding: that its segment is not mapped, that its
/// location cannot be written, or that its symbol has no trampoline.
pub open spec fn bind_warning(
    rec: BindView,
    bases: Seq<Option<u64>>,
    mem: MemView,
    res: ResolverView,
) -> Seq<LogView> {
    match base_of(bases, rec.seg_index) {
        None => seq![
            warning("bind targets unmapped segment "@ + text::dec(rec.seg_index as nat)),
        ],
        Some(base) => {
            let target = base.wrapping_add(rec.seg_offset);
            match res.resolve(rec.symbol).1 {
                Some(t) => if mem.write(
                    target,
                    bytes::le64_bytes(leb::wrapped(t + rec.addend)),
                ).1 is Ok {
                    seq![]
                } else {
                    seq![
                        warning(
                            "failed to write bind for "@ + rec.symbol + " @ "@
                                + text::address_text(target),
                        ),
                    ]
                },
                None => if rec.weak {
                    seq![]
                } else {
                    seq![warning("unresolved symbol "@ + rec.symbol)]
                },
            }
        },
    }
}

/// What is logged of the records from number `i` on.
pub open spec fn bind_warnings(
    records: Seq<BindView>,
    i: int,
    bases: Seq<Option<u64>>,
    mem: MemView,
    res: ResolverView,
) -> Seq<LogView>
    decreases records.len() - i,
{
    if i < 0 || i >= records.len() {
        seq![]
    } else {
        let (m, r) = bind_one(records[i], bases, mem, res);
        bind_warning(records[i], bases, mem, res) + bind_warnings(records, i + 1, bases, m, r)
    }
}

/// What is logged of one bind stream.
pub open spec fn stream_warnings(
    file: Seq<u8>,
    off: u32,
    size: u32,
    bases: Seq<Option<u64>>,
    mem: MemView,
    res: ResolverView,
) -> Seq<LogView> {
    if size == 0 {
        seq![]
    } else {
        match stream_at(file, off, size) {
            Err(_) => seq![],
            Ok(stream) => match bind::bind_records(stream, 0, bind::initial()) {
                Err(_) => seq![],
                Ok(records) => bind_warnings(records, 0, bases, mem, res),
            },
        }
    }
}

/// What is logged of the bind streams of an image.
pub open spec fn image_warnings(
    img: ImageView,
    file: Seq<u8>,
    bases: Seq<Option<u64>>,
    mem: MemView,
    res: ResolverView,
) -> Seq<LogView> {
    match img.dyld_info {
        None => seq![],
        Some(info) => {
            let eager = stream_warnings(file, info.bind_off, info.bind_size, bases, mem, res);
            match bind_stream(file, info.bind_off, info.bind_size, bases, mem, res) {
                (_, _, Err(_)) => eager,
                (m, r, Ok(_)) => eager + stream_warnings(
                    file,
                    info.lazy_bind_off,
                    info.lazy_bind_size,
                    bases,
                    m,
                    r,
                ),
            }
        },
    }
}

// ---- trampolines and protections --------------------------------------------

/// `n` bytes of trap instructions.
pub open spec fn sled(n: int) -> Seq<u8> {
    Seq::new(n as nat, |i: int| bytes::le32_bytes(AARCH64_BRK0)[i % 4])
}

/// The trampoline space to map: a page at least.
pub open spec fn trampoline_need(used: u64) -> u64 {
    if used < PAGE_SIZE {
        PAGE_SIZE
    } else {
        used
    }
}

/// Map the trampoline area, fill it with traps, and make it executable instead
/// of writable.
pub open spec fn publish_trampolines(mem: MemView, base: u64, used: u64) -> (
    MemView,
    Result<u64, ErrorView>,
) {
    let need = trampoline_need(used);
    let span = space::page_span(need as int);
    match mem.map(base, need, Protection(3), RegionKind::Segment, "__stubs"@) {
        (m, Err(e)) => (m, Err(e)),
        (m, Ok(_)) => match m.write(base, sled(span)) {
            (m2, Err(e)) => (m2, Err(e)),
            (m2, Ok(_)) => match m2.protect(base, Protection(5)) {
                (m3, Err(e)) => (m3, Err(e)),
                (m3, Ok(_)) => (m3, Ok(base.wrapping_add(span as u64))),
            },
        },
    }
}

/// The protection a segment ends up with.
pub open spec fn final_protection(seg: SegmentView) -> Protection {
    if seg.initprot == Protection(0) {
        Protection(1)
    } else {
        seg.initprot
    }
}

/// Give the mapped segments from number `i` on their protections.
pub open spec fn protect_segments(
    segments: Seq<SegmentView>,
    bases: Seq<Option<u64>>,
    i: int,
    mem: MemView,
) -> (MemView, Result<(), ErrorView>)
    decreases segments.len() - i,
{
    if i < 0 || i >= segments.len() || i >= bases.len() {
        (mem, Ok(()))
    } else {
        match bases[i] {
            None => protect_segments(segments, bases, i + 1, mem),
            Some(base) => match mem.protect(base, final_protection(segments[i])) {
                (m, Err(e)) => (m, Err(e)),
                (m, Ok(_)) => protect_segments(segments, bases, i + 1, m),
            },
        }
    }
}

// ---- initializers -----------------------------------------------------------

/// The `n` pointers from `addr` on, without those that cannot be read.
pub open spec fn pointers_at(mem: MemView, addr: u64, n: nat) -> Seq<u64>
    decreases n,
{
    if n == 0 {
        Seq::empty()
    } else {
        let rest = pointers_at(mem, addr.wrapping_add(8), (n - 1) as nat);
        match mem.read_u64(addr) {
            Ok(p) => seq![p] + rest,
            Err(_) => rest,
        }
    }
}

/// The initializers of the sections from number `j` on.
pub open spec fn section_inits(
    mem: MemView,
    sections: Seq<SectionView>,
    slide: u64,
    j: int,
) -> Seq<u64>
    decreases sections.len() - j,
{
    if j < 0 || j >= sections.len() {
        Seq::empty()
    } else {
        let s = sections[j];
        let rest = section_inits(mem, sections, slide, j + 1);
        if s.flags & SECTION_TYPE == S_MOD_INIT_FUNC_POINTERS {
            pointers_at(mem, s.addr.wrapping_add(slide), (s.size / 8) as nat) + rest
        } else {
            rest
        }
    }
}

/// The initializers of the segments from number `i` on.
pub open spec fn image_inits(
    mem: MemView,
    segments: Seq<SegmentView>,
    slide: u64,
    i: int,
) -> Seq<u64>
    decreases segments.len() - i,
{
    if i < 0 || i >= segments.len() {
        Seq::empty()
    } else {
        section_inits(mem, segments[i].sections, slide, 0) + image_inits(
            mem,
            segments,
            slide,
            i + 1,
        )
    }
}

// ---- stack ------------------------------------------------------------------

/// `n` bytes below `x`, rounded down to a multiple of sixteen.
pub open spec fn below16(x: u64, n: u64) -> u64 {
    let y = x.wrapping_sub(n);
    (y - y % 16) as u64
}

/// Where things are on the initial stack.
pub struct StackLayout {
    pub path: u64,
    pub apple: u64,
    pub envp: u64,
    pub argv: u64,
}

/// The initial stack for a path of `len` bytes: the path on top, below it the
/// `apple`, `envp` and `argv` arrays.
pub open spec fn stack_layout(stack_top: u64, len: u64) -> StackLayout {
    let path = below16(stack_top.wrapping_sub(16), len.wrapping_add(1));
    let apple = below16(path, 16);
    let envp = below16(apple, 8);
    let argv = below16(envp, 16);
    StackLayout { path, apple, envp, argv }
}

/// The contents of the initial stack.
pub open spec fn stack_writes(l: StackLayout, path: Seq<u8>) -> Seq<(u64, Seq<u8>)> {
    seq![
        (l.path, path),
        (l.path.wrapping_add(path.len() as u64), seq![0u8]),
        (l.apple, bytes::le64_bytes(l.path)),
        (l.apple.wrapping_add(8), bytes::le64_bytes(0)),
        (l.envp, bytes::le64_bytes(0)),
        (l.argv, bytes::le64_bytes(l.path)),
        (l.argv.wrapping_add(8), bytes::le64_bytes(0)),
    ]
}

/// Perform the writes from number `i` on, up to the first that fails.
pub open spec fn write_all(mem: MemView, writes: Seq<(u64, Seq<u8>)>, i: int) -> (
    MemView,
    Result<(), ErrorView>,
)
    decreases writes.len() - i,
{
    if i < 0 || i >= writes.len() {
        (mem, Ok(()))
    } else {
        match mem.write(writes[i].0, writes[i].1) {
            (m, Err(e)) => (m, Err(e)),
            (m, Ok(_)) => write_all(m, writes, i + 1),
        }
    }
}

/// Map the stack and write the program's arguments to it.
pub open spec fn build_stack(mem: MemView, cfg: ConfigView) -> (
    MemView,
    Result<StackLayout, ErrorView>,
) {
    let path = vstd::utf8::encode_utf8(cfg.argv0);
    let l = stack_layout(cfg.stack_top, path.len() as u64);
    match mem.map(
        cfg.stack_top.wrapping_sub(cfg.stack_size),
        cfg.stack_size,
        Protection(3),
        RegionKind::Stack,
        "stack"@,
    ) {
        (m, Err(e)) => (m, Err(e)),
        (m, Ok(_)) => match write_all(m, stack_writes(l, path), 0) {
            (m2, Err(e)) => (m2, Err(e)),
            (m2, Ok(_)) => (m2, Ok(l)),
        },
    }
}

// ---- the image as a whole ---------------------------------------------------

/// The end of the highest segment from number `i` on, `high` at least; the
/// guard does not count.
pub open spec fn high_end(segments: Seq<SegmentView>, i: int, high: u64) -> u64
    decreases segments.len() - i,
{
    if i < 0 || i >= segments.len() {
        high
    } else {
        let seg = segments[i];
        let end = if seg.vmaddr + seg.vmsize > u64::MAX {
            u64::MAX
        } else {
            (seg.vmaddr + seg.vmsize) as u64
        };
        high_end(
            segments,
            i + 1,
            if is_guard(seg) || end <= high {
                high
            } else {
                end
            },
        )
    }
}

/// The entry point of an image moved by `slide`.
pub open spec fn entry_point(img: ImageView, slide: u64) -> Result<u64, ErrorView> {
    match img.entry {
        Some(EntryPoint::Main { file_offset, .. }) => Ok(
            img.text_vmaddr().wrapping_add(slide).wrapping_add(file_offset),
        ),
        Some(EntryPoint::Thread { vmaddr }) => Ok(vmaddr.wrapping_add(slide)),
        None => Err(ErrorView::MachO("image has no entry point"@)),
    }
}

/// Whether an image is still encrypted.
pub open spec fn encrypted(img: ImageView) -> bool {
    img.encryption matches Some(e) && e.cryptid != 0
}

/// Lay out a process: segments, bindings, trampolines, protections,
/// initializers, stack, entry point, in that order.
pub open spec fn built(img: ImageView, file: Seq<u8>, mem: MemView, cfg: ConfigView) -> (
    MemView,
    Result<ProcessView, ErrorView>,
) {
    if encrypted(img) {
        (
            mem,
            Err(ErrorView::Dyld("executable is FairPlay-encrypted; supply a decrypted binary"@)),
        )
    } else {
        match map_segments(img.segments, 0, file, cfg.slide, mem) {
            (m1, Err(e)) => (m1, Err(e)),
            (m1, Ok(bases)) => {
                let fresh = ResolverView::fresh(cfg.trampoline_base, cfg.trampoline_stride);
                match bind_image(img, file, bases, m1, fresh) {
                    (m2, _, Err(e)) => (m2, Err(e)),
                    (m2, res, Ok(lazy_binds)) => {
                        let used = (res.next - res.base) as u64;
                        match publish_trampolines(m2, cfg.trampoline_base, used) {
                            (m3, Err(e)) => (m3, Err(e)),
                            (m3, Ok(trampoline_end)) => match protect_segments(
                                img.segments,
                                bases,
                                0,
                                m3,
                            ) {
                                (m4, Err(e)) => (m4, Err(e)),
                                (m4, Ok(_)) => match build_stack(m4, cfg) {
                                    (m5, Err(e)) => (m5, Err(e)),
                                    (m5, Ok(l)) => match entry_point(img, cfg.slide) {
                                        Err(e) => (m5, Err(e)),
                                        Ok(entry) => (
                                            m5,
                                            Ok(
                                                ProcessView {
                                                    entry,
                                                    sp: l.argv,
                                                    arg_regs: seq![1u64, l.argv, l.envp, l.apple],
                                                    trampolines: res.reverse,
                                                    trampoline_base: cfg.trampoline_base,
                                                    trampoline_end,
                                                    init_funcs: image_inits(
                                                        m4,
                                                        img.segments,
                                                        cfg.slide,
                                                        0,
                                                    ),
                                                    symbol_stubs: res.forward,
                                                    lazy_binds,
                                                },
                                            ),
                                        ),
                                    },
                                },
                            },
                        }
                    },
                }
            },
        }
    }
}

/// What is logged while a process is laid out.
pub open spec fn build_lines(
    img: ImageView,
    file: Seq<u8>,
    mem: MemView,
    cfg: ConfigView,
) -> Seq<LogView> {
    if encrypted(img) {
        seq![]
    } else {
        match map_segments(img.segments, 0, file, cfg.slide, mem) {
            (_, Err(_)) => seq![],
            (m, Ok(bases)) => image_warnings(
                img,
                file,
                bases,
                m,
                ResolverView::fresh(cfg.trampoline_base, cfg.trampoline_stride),
            ),
        }
    }
}

} // verus!
