//! Turns a parsed image into a live process inside a guest address space: maps
//! segments, binds imports to trampolines, lays out the initial stack, and
//! computes the entry point.
//!
//! Segments are writable while the image is loaded and get their real
//! protections afterwards; nothing is ever writable and executable on the way.

pub mod contents;
pub mod kept;
pub mod laws;
pub mod model;
pub mod outcome;
pub mod start;
pub mod wx;

use vstd::hash_map::StringHashMap;
use vstd::prelude::*;

use crate::bytes;
use crate::common;
use crate::common::error;
use crate::common::{EmuError, EmuResult, GuestAddr, Protection, PAGE_SIZE};
use crate::kernel::host;
use crate::kernel::host::{LogLevel, LogLine, LogTarget};
use crate::kernel::process::model::{ConfigView, ProcessView, StackLayout, AARCH64_BRK0};
use crate::loader::dyld::bind;
use crate::loader::dyld::bind::BindRecord;
use crate::loader::dyld::leb;
use crate::loader::dyld::linker;
use crate::loader::dyld::{StubResolver, SymbolResolver, TrampolineTable};
use crate::loader::macho::image::{EntryPoint, MachOImage, Section, Segment};
use crate::memory::{GuestMemory, RegionKind};
use crate::text;

verus! {

/// Addresses and sizes governing where the process is laid out.
pub struct LayoutConfig {
    pub slide: u64,
    pub stack_top: GuestAddr,
    pub stack_size: u64,
    pub trampoline_base: GuestAddr,
    pub trampoline_stride: u64,
    /// The guest-visible path of the executable.
    pub argv0: String,
}

/// Lazy-bind stream offset to symbol and pointer location.
pub type LazyTable = std::collections::HashMap<u64, (String, GuestAddr)>;

/// Everything needed to start executing a process.
pub struct ProcessImage {
    pub entry: GuestAddr,
    /// Initial stack pointer.
    pub sp: GuestAddr,
    /// Argument registers for entry into `main`.
    pub arg_regs: [u64; 4],
    pub trampolines: TrampolineTable,
    pub trampoline_base: GuestAddr,
    pub trampoline_end: GuestAddr,
    /// Initializers to run before `main`.
    pub init_funcs: Vec<GuestAddr>,
    /// Imported symbol to trampoline.
    pub symbol_stubs: StringHashMap<u64>,
    pub lazy_binds: LazyTable,
}

/// The numbers of a sequence of addresses.
pub open spec fn raws(v: Seq<GuestAddr>) -> Seq<u64> {
    v.map_values(|a: GuestAddr| a.0)
}

/// The view of a lazy-bind table.
pub open spec fn lazy_view(t: Map<u64, (String, GuestAddr)>) -> Map<u64, (Seq<char>, u64)> {
    t.map_values(|e: (String, GuestAddr)| (e.0@, e.1.0))
}

impl View for LayoutConfig {
    type V = ConfigView;

    open spec fn view(&self) -> ConfigView {
        ConfigView {
            slide: self.slide,
            stack_top: self.stack_top.0,
            stack_size: self.stack_size,
            trampoline_base: self.trampoline_base.0,
            trampoline_stride: self.trampoline_stride,
            argv0: self.argv0@,
        }
    }
}

impl View for ProcessImage {
    type V = ProcessView;

    open spec fn view(&self) -> ProcessView {
        ProcessView {
            entry: self.entry.0,
            sp: self.sp.0,
            arg_regs: self.arg_regs@,
            trampolines: linker::names(self.trampolines@),
            trampoline_base: self.trampoline_base.0,
            trampoline_end: self.trampoline_end.0,
            init_funcs: raws(self.init_funcs@),
            symbol_stubs: self.symbol_stubs@,
            lazy_binds: lazy_view(self.lazy_binds@),
        }
    }
}

/// The views of the segments of an image.
pub open spec fn seg_views(s: Seq<Segment>) -> Seq<crate::loader::macho::model::SegmentView> {
    s.map_values(|s: Segment| s@)
}

// ---- segments ---------------------------------------------------------------

/// The file contents of a segment.
fn segment_data<'a>(seg: &Segment, file: &'a [u8]) -> (r: &'a [u8])
    ensures
        r@ == model::segment_data(seg@, file@),
{
    assert(file.len() == file@.len());
    if seg.filesize > 0 {
        if let Some(end) = seg.fileoff.checked_add(seg.filesize) {
            if end <= file.len() as u64 {
                return vstd::slice::slice_subrange(file, seg.fileoff as usize, end as usize);
            }
        }
    }
    let r = vstd::slice::slice_subrange(file, 0, 0);
    assert(r@ =~= Seq::empty());
    r
}

/// Map the segments of an image, readable and writable.
fn map_segments(segments: &[Segment], file: &[u8], slide: u64, mem: &mut GuestMemory) -> (r:
    EmuResult<Vec<Option<u64>>>)
    requires
        old(mem)@.wf(),
    ensures
        (final(mem)@, error::outcome(r)) == model::map_segments(
            seg_views(segments@),
            0,
            file@,
            slide,
            old(mem)@,
        ),
        final(mem)@.wf(),
{
    let mut bases: Vec<Option<u64>> = Vec::new();
    let mut i: usize = 0;
    let ghost segs = seg_views(segments@);
    let ghost whole = model::map_segments(segs, 0, file@, slide, mem@);
    proof {
        match whole.1 {
            Ok(b) => {
                assert(bases@ + b =~= b);
            },
            Err(_) => {},
        }
    }
    while i < segments.len()
        invariant
            i <= segments@.len(),
            mem@.wf(),
            segs == seg_views(segments@),
            whole == model::map_segments(segs, 0, file@, slide, old(mem)@),
            whole == (match model::map_segments(segs, i as int, file@, slide, mem@) {
                (m, Ok(rest)) => (m, Ok(bases@ + rest)),
                (m, Err(e)) => (m, Err(e)),
            }),
        decreases segments@.len() - i,
    {
        let seg = &segments[i];
        assert(seg@ == segs[i as int]);
        let ghost before = bases@;
        if text::same(seg.name.as_str(), "__PAGEZERO") {
            bases.push(None);
            proof {
                match model::map_segments(segs, i + 1, file@, slide, mem@).1 {
                    Ok(rest) => {
                        assert(before + (seq![None::<u64>] + rest) =~= bases@ + rest);
                    },
                    Err(_) => {},
                }
            }
        } else {
            let base = seg.vmaddr.wrapping_add(slide);
            let data = segment_data(seg, file);
            mem.map_with_data(
                GuestAddr(base),
                seg.vmsize,
                data,
                Protection::rw(),
                RegionKind::Segment,
                seg.name.as_str(),
            )?;
            bases.push(Some(base));
            proof {
                match model::map_segments(segs, i + 1, file@, slide, mem@).1 {
                    Ok(rest) => {
                        assert(before + (seq![Some(base)] + rest) =~= bases@ + rest);
                    },
                    Err(_) => {},
                }
            }
        }
        i += 1;
    }
    assert(bases@ + Seq::empty() =~= bases@);
    Ok(bases)
}

// ---- binding ----------------------------------------------------------------

fn base_of(bases: &[Option<u64>], index: u8) -> (r: Option<u64>)
    ensures
        r == model::base_of(bases@, index),
{
    if (index as usize) < bases.len() {
        bases[index as usize]
    } else {
        None
    }
}

/// Add a signed number, modulo 2^64.
fn add_signed(t: u64, addend: i64) -> (r: u64)
    ensures
        r == leb::wrapped(t + addend),
{
    t.wrapping_add_signed(addend)
}

/// Log a warning about a binding.
fn warn(text: String, log: &mut Vec<LogLine>)
    ensures
        host::log_views(final(log)@) == host::log_views(old(log)@) + seq![model::warning(text@)],
{
    let ghost before = host::log_views(log@);
    host::log_line(log, LogLevel::Warn, LogTarget::Emulator, text);
    assert(host::log_views(log@) =~= before + seq![model::warning(text@)]);
}

/// Point one location at its symbol's trampoline.
fn bind_one(
    rec: &BindRecord,
    bases: &[Option<u64>],
    mem: &mut GuestMemory,
    resolver: &mut StubResolver,
    log: &mut Vec<LogLine>,
)
    requires
        old(mem)@.wf(),
        old(resolver)@.wf(),
    ensures
        (final(mem)@, final(resolver)@) == model::bind_one(
            rec@,
            bases@,
            old(mem)@,
            old(resolver)@,
        ),
        host::log_views(final(log)@) == host::log_views(old(log)@) + model::bind_warning(
            rec@,
            bases@,
            old(mem)@,
            old(resolver)@,
        ),
        final(mem)@.wf(),
        final(resolver)@.wf(),
{
    assert(host::log_views(log@) + seq![] =~= host::log_views(log@));
    proof {
        linker::resolving_keeps_tables_inverse(resolver@, rec.symbol@);
    }
    let base = match base_of(bases, rec.seg_index) {
        Some(b) => b,
        None => {
            let index = text::dec_string(rec.seg_index as u64);
            warn(text::cat("bind targets unmapped segment ", index.as_str()), log);
            return;
        },
    };
    let target = GuestAddr(base) + rec.seg_offset;
    match resolver.resolve(rec.symbol.as_str(), rec.lib_ordinal, rec.weak) {
        Some(t) => {
            let value = add_signed(t.raw(), rec.addend);
            if mem.write_u64(target, value).is_err() {
                let mut m = text::cat3("failed to write bind for ", rec.symbol.as_str(), " @ ");
                m.append(text::address_string(target.raw()).as_str());
                warn(m, log);
            }
        },
        None => {
            if rec.weak {
                let _ = mem.write_u64(target, 0);
            } else {
                warn(text::cat("unresolved symbol ", rec.symbol.as_str()), log);
            }
        },
    }
}

/// Bind every record.
fn bind_all(
    records: &[BindRecord],
    bases: &[Option<u64>],
    mem: &mut GuestMemory,
    resolver: &mut StubResolver,
    log: &mut Vec<LogLine>,
)
    requires
        old(mem)@.wf(),
        old(resolver)@.wf(),
    ensures
        (final(mem)@, final(resolver)@) == model::bind_all(
            bind::records(records@),
            0,
            bases@,
            old(mem)@,
            old(resolver)@,
        ),
        host::log_views(final(log)@) == host::log_views(old(log)@) + model::bind_warnings(
            bind::records(records@),
            0,
            bases@,
            old(mem)@,
            old(resolver)@,
        ),
        final(mem)@.wf(),
        final(resolver)@.wf(),
{
    let ghost told = host::log_views(log@);
    let ghost views = bind::records(records@);
    let mut i: usize = 0;
    while i < records.len()
        invariant
            i <= records@.len(),
            mem@.wf(),
            resolver@.wf(),
            views == bind::records(records@),
            model::bind_all(views, 0, bases@, old(mem)@, old(resolver)@) == model::bind_all(
                views,
                i as int,
                bases@,
                mem@,
                resolver@,
            ),
            told == host::log_views(old(log)@),
            told + model::bind_warnings(views, 0, bases@, old(mem)@, old(resolver)@)
                == host::log_views(log@) + model::bind_warnings(
                views,
                i as int,
                bases@,
                mem@,
                resolver@,
            ),
        decreases records@.len() - i,
    {
        assert(views[i as int] == records@[i as int]@);
        let ghost so_far = host::log_views(log@);
        let ghost line = model::bind_warning(views[i as int], bases@, mem@, resolver@);
        bind_one(&records[i], bases, mem, resolver, log);
        proof {
            let rest = model::bind_warnings(views, i + 1, bases@, mem@, resolver@);
            assert(so_far + (line + rest) =~= so_far + line + rest);
        }
        i += 1;
    }
    assert(host::log_views(log@) + seq![] =~= host::log_views(log@));
}

fn stream_at(file: &[u8], off: u32, size: u32) -> (r: EmuResult<&[u8]>)
    ensures
        match model::stream_at(file@, off, size) {
            Ok(s) => r matches Ok(x) && x@ == s,
            Err(e) => r matches Err(x) && x@ == e,
        },
{
    let end: u64 = off as u64 + size as u64;
    if end > file.len() as u64 {
        return Err(EmuError::Dyld("bind stream out of range".to_owned()));
    }
    Ok(vstd::slice::slice_subrange(file, off as usize, end as usize))
}

/// Process one bind stream.
fn bind_stream(
    file: &[u8],
    off: u32,
    size: u32,
    bases: &[Option<u64>],
    mem: &mut GuestMemory,
    resolver: &mut StubResolver,
    log: &mut Vec<LogLine>,
) -> (r: EmuResult<()>)
    requires
        old(mem)@.wf(),
        old(resolver)@.wf(),
    ensures
        (final(mem)@, final(resolver)@, error::outcome(r)) == model::bind_stream(
            file@,
            off,
            size,
            bases@,
            old(mem)@,
            old(resolver)@,
        ),
        host::log_views(final(log)@) == host::log_views(old(log)@) + model::stream_warnings(
            file@,
            off,
            size,
            bases@,
            old(mem)@,
            old(resolver)@,
        ),
        final(mem)@.wf(),
        final(resolver)@.wf(),
{
    assert(host::log_views(log@) + seq![] =~= host::log_views(log@));
    if size == 0 {
        return Ok(());
    }
    let stream = stream_at(file, off, size)?;
    let records = bind::parse_bind_info(stream)?;
    bind_all(records.as_slice(), bases, mem, resolver, log);
    Ok(())
}

/// What the binder needs to know of the lazy stream.
fn lazy_stream(file: &[u8], off: u32, size: u32, bases: &[Option<u64>]) -> (r: LazyTable)
    ensures
        lazy_view(r@) == model::lazy_stream(file@, off, size, bases@),
{
    broadcast use vstd::std_specs::hash::group_hash_axioms;

    let mut table: LazyTable = std::collections::HashMap::new();
    assert(lazy_view(table@) =~= Map::empty());
    let stream = match stream_at(file, off, size) {
        Ok(s) => s,
        Err(_) => {
            return table;
        },
    };
    let entries = match bind::parse_lazy_bind_info(stream) {
        Ok(e) => e,
        Err(_) => {
            return table;
        },
    };
    let ghost views = bind::lazy_views(entries@);
    let mut i: usize = 0;
    while i < entries.len()
        invariant
            i <= entries@.len(),
            views == bind::lazy_views(entries@),
            model::lazy_table(views, 0, bases@, Map::empty()) == model::lazy_table(
                views,
                i as int,
                bases@,
                lazy_view(table@),
            ),
        decreases entries@.len() - i,
    {
        let e = &entries[i];
        assert(views[i as int] == e@);
        if let Some(base) = base_of(bases, e.seg_index) {
            let slot = GuestAddr(base) + e.seg_offset;
            let ghost before = lazy_view(table@);
            table.insert(e.offset, (e.symbol.clone(), slot));
            assert(lazy_view(table@) =~= before.insert(e.offset, (e.symbol@, slot.0)));
        }
        i += 1;
    }
    table
}

/// Process the eager and the lazy bind stream of an image.
fn bind_image(
    image: &MachOImage,
    file: &[u8],
    bases: &[Option<u64>],
    mem: &mut GuestMemory,
    resolver: &mut StubResolver,
    log: &mut Vec<LogLine>,
) -> (r: EmuResult<LazyTable>)
    requires
        old(mem)@.wf(),
        old(resolver)@.wf(),
    ensures
        ({
            let (m, s, t) = model::bind_image(
                image@,
                file@,
                bases@,
                old(mem)@,
                old(resolver)@,
            );
            &&& final(mem)@ == m
            &&& final(resolver)@ == s
            &&& match t {
                Ok(v) => r matches Ok(x) && lazy_view(x@) == v,
                Err(e) => r matches Err(x) && x@ == e,
            }
        }),
        host::log_views(final(log)@) == host::log_views(old(log)@) + model::image_warnings(
            image@,
            file@,
            bases@,
            old(mem)@,
            old(resolver)@,
        ),
        final(mem)@.wf(),
        final(resolver)@.wf(),
{
    broadcast use vstd::std_specs::hash::group_hash_axioms;

    let ghost told = host::log_views(log@);
    assert(told + seq![] =~= told);

    match image.dyld_info {
        Some(info) => {
            bind_stream(file, info.bind_off, info.bind_size, bases, mem, resolver, log)?;
            let ghost eager = model::stream_warnings(
                file@,
                info.bind_off,
                info.bind_size,
                bases@,
                old(mem)@,
                old(resolver)@,
            );
            proof {
                let late = model::stream_warnings(
                    file@,
                    info.lazy_bind_off,
                    info.lazy_bind_size,
                    bases@,
                    mem@,
                    resolver@,
                );
                assert(told + eager + late =~= told + (eager + late));
            }
            bind_stream(file, info.lazy_bind_off, info.lazy_bind_size, bases, mem, resolver, log)?;
            Ok(lazy_stream(file, info.lazy_bind_off, info.lazy_bind_size, bases))
        },
        None => {
            let table: LazyTable = std::collections::HashMap::new();
            assert(lazy_view(table@) =~= Map::empty());
            Ok(table)
        },
    }
}

// ---- trampolines and protections --------------------------------------------

/// Trap instructions to fill `n` bytes.
fn trap_sled(n: usize) -> (r: Vec<u8>)
    ensures
        r@ == model::sled(n as int),
{
    let word = bytes::put_le32(AARCH64_BRK0);
    let mut out: Vec<u8> = Vec::new();
    let mut i: usize = 0;
    while i < n
        invariant
            i <= n,
            word@ == bytes::le32_bytes(AARCH64_BRK0),
            out@ == model::sled(i as int),
        decreases n - i,
    {
        out.push(word[i % 4]);
        assert(out@ =~= model::sled(i + 1));
        i += 1;
    }
    out
}

/// Map and fill the trampoline area; where it ends.
fn publish_trampolines(mem: &mut GuestMemory, base: GuestAddr, used: u64) -> (r: EmuResult<u64>)
    requires
        old(mem)@.wf(),
    ensures
        (final(mem)@, error::outcome(r)) == model::publish_trampolines(old(mem)@, base.0, used),
        final(mem)@.wf(),
{
    let need = if used < PAGE_SIZE {
        PAGE_SIZE
    } else {
        used
    };
    mem.map(base, need, Protection::rw(), RegionKind::Segment, "__stubs")?;
    proof {
        common::lemma_page_size();
    }
    let span = common::align_up(need, PAGE_SIZE);
    let traps = trap_sled(span as usize);
    mem.write(base, traps.as_slice())?;
    mem.protect(base, Protection::rx())?;
    Ok((base + span).raw())
}

/// Give the mapped segments their protections.
fn protect_segments(segments: &[Segment], bases: &[Option<u64>], mem: &mut GuestMemory) -> (r:
    EmuResult<()>)
    requires
        old(mem)@.wf(),
    ensures
        (final(mem)@, error::outcome(r)) == model::protect_segments(
            seg_views(segments@),
            bases@,
            0,
            old(mem)@,
        ),
        final(mem)@.wf(),
{
    let ghost segs = seg_views(segments@);
    let mut i: usize = 0;
    while i < segments.len() && i < bases.len()
        invariant
            i <= segments@.len(),
            i <= bases@.len(),
            mem@.wf(),
            segs == seg_views(segments@),
            model::protect_segments(segs, bases@, 0, old(mem)@) == model::protect_segments(
                segs,
                bases@,
                i as int,
                mem@,
            ),
        decreases segments@.len() - i,
    {
        let seg = &segments[i];
        assert(segs[i as int] == seg@);
        if let Some(base) = bases[i] {
            let prot = if seg.initprot == Protection::none() {
                Protection::read()
            } else {
                seg.initprot
            };
            mem.protect(GuestAddr(base), prot)?;
        }
        i += 1;
    }
    Ok(())
}

// ---- initializers -----------------------------------------------------------

/// Collect `n` pointers, passing over those that cannot be read.
fn collect_pointers(mem: &GuestMemory, addr: u64, n: u64, out: &mut Vec<GuestAddr>)
    ensures
        raws(final(out)@) == raws(old(out)@) + model::pointers_at(mem@, addr, n as nat),
{
    let ghost first = raws(out@);
    let ghost whole = model::pointers_at(mem@, addr, n as nat);
    let mut cur: u64 = addr;
    let mut left: u64 = n;
    while left > 0
        invariant
            first == raws(old(out)@),
            whole == model::pointers_at(mem@, addr, n as nat),
            first + whole == raws(out@) + model::pointers_at(mem@, cur, left as nat),
        decreases left,
    {
        let ghost before = raws(out@);
        let ghost rest = model::pointers_at(mem@, cur.wrapping_add(8), (left - 1) as nat);
        if let Ok(p) = mem.read_u64(GuestAddr(cur)) {
            out.push(GuestAddr(p));
            assert(raws(out@) =~= before.push(p));
            assert(before + (seq![p] + rest) =~= raws(out@) + rest);
        }
        cur = cur.wrapping_add(8);
        left -= 1;
    }
    assert(raws(out@) + Seq::empty() =~= raws(out@));
}

/// Collect the initializers of some sections.
fn collect_sections(mem: &GuestMemory, sections: &[Section], slide: u64, out: &mut Vec<GuestAddr>)
    ensures
        raws(final(out)@) == raws(old(out)@) + model::section_inits(
            mem@,
            sections@.map_values(|s: Section| s@),
            slide,
            0,
        ),
{
    let ghost views = sections@.map_values(|s: Section| s@);
    let ghost first = raws(out@);
    let ghost whole = model::section_inits(mem@, views, slide, 0);
    let mut j: usize = 0;
    while j < sections.len()
        invariant
            j <= sections@.len(),
            first == raws(old(out)@),
            views == sections@.map_values(|s: Section| s@),
            whole == model::section_inits(mem@, views, slide, 0),
            first + whole == raws(out@) + model::section_inits(mem@, views, slide, j as int),
        decreases sections@.len() - j,
    {
        let s = &sections[j];
        assert(views[j as int] == s@);
        let ghost before = raws(out@);
        let ghost rest = model::section_inits(mem@, views, slide, j + 1);
        if s.is_mod_init() {
            let ghost these = model::pointers_at(
                mem@,
                s.addr.wrapping_add(slide),
                (s.size / 8) as nat,
            );
            collect_pointers(mem, s.addr.wrapping_add(slide), s.size / 8, out);
            assert(before + (these + rest) =~= raws(out@) + rest);
        }
        j += 1;
    }
    assert(raws(out@) + Seq::empty() =~= raws(out@));
}

/// Collect the initializers of an image.
fn collect_inits(mem: &GuestMemory, segments: &[Segment], slide: u64) -> (r: Vec<GuestAddr>)
    ensures
        raws(r@) == model::image_inits(mem@, seg_views(segments@), slide, 0),
{
    let ghost views = seg_views(segments@);
    let ghost whole = model::image_inits(mem@, views, slide, 0);
    let mut out: Vec<GuestAddr> = Vec::new();
    let mut i: usize = 0;
    assert(raws(out@) + whole =~= whole);
    while i < segments.len()
        invariant
            i <= segments@.len(),
            views == seg_views(segments@),
            whole == model::image_inits(mem@, views, slide, 0),
            whole == raws(out@) + model::image_inits(mem@, views, slide, i as int),
        decreases segments@.len() - i,
    {
        let ghost before = raws(out@);
        let seg = &segments[i];
        assert(views[i as int] == seg@);
        let ghost these = model::section_inits(mem@, seg@.sections, slide, 0);
        let ghost rest = model::image_inits(mem@, views, slide, i + 1);
        collect_sections(mem, seg.sections.as_slice(), slide, &mut out);
        assert(before + (these + rest) =~= raws(out@) + rest);
        i += 1;
    }
    assert(raws(out@) + Seq::empty() =~= raws(out@));
    out
}

// ---- stack ------------------------------------------------------------------

fn below16(x: u64, n: u64) -> (r: u64)
    ensures
        r == model::below16(x, n),
{
    let y = x.wrapping_sub(n);
    y - y % 16
}

fn stack_layout(stack_top: u64, len: u64) -> (r: StackLayout)
    ensures
        r == model::stack_layout(stack_top, len),
{
    let path = below16(stack_top.wrapping_sub(16), len.wrapping_add(1));
    let apple = below16(path, 16);
    let envp = below16(apple, 8);
    let argv = below16(envp, 16);
    StackLayout { path, apple, envp, argv }
}

/// Map the stack and write the arguments of `main` to it.
fn build_stack(mem: &mut GuestMemory, cfg: &LayoutConfig) -> (r: EmuResult<StackLayout>)
    requires
        old(mem)@.wf(),
    ensures
        match model::build_stack(old(mem)@, cfg@) {
            (m, Ok(l)) => final(mem)@ == m && (r matches Ok(x) && x == l),
            (m, Err(e)) => final(mem)@ == m && (r matches Err(x) && x@ == e),
        },
        final(mem)@.wf(),
{
    let path = cfg.argv0.as_str().as_bytes();
    let l = stack_layout(cfg.stack_top.raw(), path.len() as u64);
    let stack_base = GuestAddr(cfg.stack_top.raw().wrapping_sub(cfg.stack_size));
    mem.map(stack_base, cfg.stack_size, Protection::rw(), RegionKind::Stack, "stack")?;
    let nul = [0u8];
    proof {
        assert(nul@ =~= seq![0u8]);
        reveal_with_fuel(model::write_all, 8);
    }
    mem.write(GuestAddr(l.path), path)?;
    mem.write(GuestAddr(l.path) + path.len() as u64, &nul)?;
    mem.write_u64(GuestAddr(l.apple), l.path)?;
    mem.write_u64(GuestAddr(l.apple) + 8, 0)?;
    mem.write_u64(GuestAddr(l.envp), 0)?;
    mem.write_u64(GuestAddr(l.argv), l.path)?;
    mem.write_u64(GuestAddr(l.argv) + 8, 0)?;
    Ok(l)
}

// ---- the image as a whole ---------------------------------------------------

/// The end of the highest segment of an image, its `__TEXT` base at least.
pub fn image_end(image: &MachOImage) -> (r: u64)
    ensures
        r == model::high_end(image@.segments, 0, image@.text_vmaddr()),
{
    let mut high: u64 = image.text_vmaddr();
    let ghost segs = image@.segments;
    let mut i: usize = 0;
    while i < image.segments.len()
        invariant
            i <= segs.len(),
            segs == image@.segments,
            model::high_end(segs, 0, image@.text_vmaddr()) == model::high_end(
                segs,
                i as int,
                high,
            ),
        decreases segs.len() - i,
    {
        let seg = &image.segments[i];
        assert(segs[i as int] == seg@);
        if !text::same(seg.name.as_str(), "__PAGEZERO") {
            let end = seg.vmaddr.saturating_add(seg.vmsize);
            if end > high {
                high = end;
            }
        }
        i += 1;
    }
    high
}

/// The image's preferred base and the bytes to reserve for all its segments;
/// the unmapped guard is not counted.
pub fn image_span(image: &MachOImage) -> (r: (u64, u64))
    requires
        model::high_end(image@.segments, 0, image@.text_vmaddr()) - image@.text_vmaddr() + PAGE_SIZE
            - 1 <= u64::MAX,
    ensures
        r.0 == image@.text_vmaddr(),
        r.1 == common::up_to(
            model::high_end(image@.segments, 0, image@.text_vmaddr()) - image@.text_vmaddr(),
            PAGE_SIZE as int,
        ),
{
    let base = image.text_vmaddr();
    let high = image_end(image);
    proof {
        common::lemma_page_size();
        lemma_high_end(image@.segments, 0, base);
    }
    (base, common::align_up(high - base, PAGE_SIZE))
}

/// The end of the highest segment is not below where the search starts.
proof fn lemma_high_end(
    segments: Seq<crate::loader::macho::model::SegmentView>,
    i: int,
    high: u64,
)
    ensures
        model::high_end(segments, i, high) >= high,
    decreases segments.len() - i,
{
    if 0 <= i < segments.len() {
        let seg = segments[i];
        let end = if seg.vmaddr + seg.vmsize > u64::MAX {
            u64::MAX
        } else {
            (seg.vmaddr + seg.vmsize) as u64
        };
        lemma_high_end(
            segments,
            i + 1,
            if model::is_guard(seg) || end <= high {
                high
            } else {
                end
            },
        );
    }
}

/// The slide of an image whose reservation starts at `base`.
pub fn image_slide(image: &MachOImage, base: GuestAddr) -> (r: u64)
    ensures
        r == base.0.wrapping_sub(image@.text_vmaddr()),
{
    base - GuestAddr(image.text_vmaddr())
}

/// The image's entry point, moved by `slide`.
pub fn resolve_entry(image: &MachOImage, slide: u64) -> (r: EmuResult<GuestAddr>)
    ensures
        error::outcome(r) == model::entry_point(image@, slide),
{
    match image.entry {
        Some(EntryPoint::Main { file_offset, .. }) => {
            let header = image.text_vmaddr().wrapping_add(slide);
            Ok(GuestAddr(header.wrapping_add(file_offset)))
        },
        Some(EntryPoint::Thread { vmaddr }) => Ok(GuestAddr(vmaddr.wrapping_add(slide))),
        None => Err(EmuError::MachO("image has no entry point".to_owned())),
    }
}

/// Lay out a process from an image and the file it was parsed from.
pub fn build_process(
    image: &MachOImage,
    file: &[u8],
    mem: &mut GuestMemory,
    cfg: &LayoutConfig,
    log: &mut Vec<LogLine>,
) -> (r: EmuResult<ProcessImage>)
    requires
        old(mem)@.wf(),
    ensures
        (final(mem)@, error::outcome(r)) == model::built(image@, file@, old(mem)@, cfg@),
        host::log_views(final(log)@) == host::log_views(old(log)@) + model::build_lines(
            image@,
            file@,
            old(mem)@,
            cfg@,
        ),
        final(mem)@.wf(),
{
    assert(host::log_views(log@) + seq![] =~= host::log_views(log@));
    if image.is_encrypted() {
        return Err(
            EmuError::Dyld(
                "executable is FairPlay-encrypted; supply a decrypted binary".to_owned(),
            ),
        );
    }
    let bases = map_segments(image.segments.as_slice(), file, cfg.slide, mem)?;
    let mut resolver = StubResolver::new(cfg.trampoline_base, cfg.trampoline_stride);
    let lazy_binds = bind_image(image, file, bases.as_slice(), mem, &mut resolver, log)?;
    let used = resolver.next.wrapping_sub(resolver.base);
    let trampoline_end = publish_trampolines(mem, cfg.trampoline_base, used)?;
    protect_segments(image.segments.as_slice(), bases.as_slice(), mem)?;
    let init_funcs = collect_inits(mem, image.segments.as_slice(), cfg.slide);
    let l = build_stack(mem, cfg)?;
    let entry = resolve_entry(image, cfg.slide)?;
    let arg_regs = [1u64, l.argv, l.envp, l.apple];
    assert(arg_regs@ =~= seq![1u64, l.argv, l.envp, l.apple]);
    Ok(
        ProcessImage {
            entry,
            sp: GuestAddr(l.argv),
            arg_regs,
            trampolines: resolver.reverse,
            trampoline_base: cfg.trampoline_base,
            trampoline_end: GuestAddr(trampoline_end),
            init_funcs,
            symbol_stubs: resolver.forward,
            lazy_binds,
        },
    )
}

} // verus!
