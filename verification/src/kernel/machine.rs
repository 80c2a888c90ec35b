//! The machine: owns the guest process and drives the execute/dispatch loop.

use vstd::hash_map::StringHashMap;
use vstd::prelude::*;

use crate::bytes;
use crate::common::error;
use crate::common::error::ErrorView;
use crate::common::{EmuError, EmuResult, GuestAddr, Protection};
use crate::kernel::cpu::{CpuContext, CpuView, EventView, ExecEvent, Executor};
use crate::kernel::env::{CallContext, Dispatch, GuestView, HostEnvironment, NullEnvironment};
use crate::kernel::fd;
use crate::kernel::fd::{FdObject, FdTable};
use crate::kernel::host;
use crate::kernel::host::{
    HostReply, HostRequest, LogLevel, LogLine, LogTarget, LogView, RequestView,
};
use crate::kernel::process;
use crate::kernel::process::model::ConfigView;
use crate::kernel::process::{LayoutConfig, LazyTable};
use crate::kernel::syscall::model as calls;
use crate::kernel::syscall::model::KernelView;
use crate::kernel::syscall::unix;
use crate::kernel::syscall::{SyscallCtx, SyscallDispatcher};
use crate::loader::dyld::linker;
use crate::loader::dyld::TrampolineTable;
use crate::loader::macho::consts::MH_PIE;
use crate::loader::macho::image::MachOImage;
use crate::loader::macho::model as macho;
use crate::memory::region::RegionKind;
use crate::memory::space::MemView;
use crate::memory::GuestMemory;
use crate::text;
use crate::vfs::sandbox::SandboxView;
use crate::vfs::Sandbox;

verus! {

/// Tunables for the process address-space layout.
#[derive(Clone, Copy)]
pub struct MachineConfig {
    pub heap_base: GuestAddr,
    pub heap_size: u64,
    pub stack_top: GuestAddr,
    pub stack_size: u64,
    pub trampoline_base: GuestAddr,
    pub slide: u64,
}

/// The layout that keeps image, heap, stack, anonymous arena and trampolines in
/// disjoint ranges.
pub open spec fn default_config() -> MachineConfig {
    MachineConfig {
        heap_base: GuestAddr(0x0000_0001_2000_0000),
        heap_size: 0x0400_0000,
        stack_top: GuestAddr(0x0000_0001_C000_0000),
        stack_size: 0x0080_0000,
        trampoline_base: GuestAddr(0x0000_0005_0000_0000),
        slide: 0,
    }
}

impl Default for MachineConfig {
    fn default() -> (r: MachineConfig)
        ensures
            r == default_config(),
    {
        MachineConfig {
            heap_base: GuestAddr(0x0000_0001_2000_0000),
            heap_size: 0x0400_0000,
            stack_top: GuestAddr(0x0000_0001_C000_0000),
            stack_size: 0x0080_0000,
            trampoline_base: GuestAddr(0x0000_0005_0000_0000),
            slide: 0,
        }
    }
}

/// Bytes between two trampolines.
pub const TRAMPOLINE_STRIDE: u64 = 16;

/// Exit code of a process that hit a breakpoint.
pub const BREAKPOINT_EXIT: i32 = 133;

/// Why the process stopped.
#[derive(Clone, Copy, Debug, PartialEq, Eq, Structural)]
pub struct ProcessExit {
    pub code: i32,
}

/// Why the run loop stopped: the process ended, or the host has to do something
/// before it can go on.
#[derive(Debug)]
pub enum Stop {
    Exit(ProcessExit),
    Host(HostRequest),
}

/// View of a [`Stop`].
#[verifier::ext_equal]
pub enum StopView {
    Exit(ProcessExit),
    Host(RequestView),
}

impl View for Stop {
    type V = StopView;

    open spec fn view(&self) -> StopView {
        match *self {
            Stop::Exit(e) => StopView::Exit(e),
            Stop::Host(r) => StopView::Host(r@),
        }
    }
}

/// A fully-constructed guest process ready to run.
pub struct Machine<W: HostEnvironment> {
    pub cpu: CpuContext,
    pub mem: GuestMemory,
    pub vfs: Sandbox,
    pub fds: FdTable,
    pub dispatcher: SyscallDispatcher,
    pub world: W,
    pub trampolines: TrampolineTable,
    /// The trampoline area: first address and the one behind the last.
    pub tramp_range: (u64, u64),
    /// Imported symbol to trampoline, for the lazy binder.
    pub symbol_stubs: StringHashMap<u64>,
    /// Lazy-bind offset to symbol and pointer location, for the lazy binder.
    pub lazy_binds: LazyTable,
    pub exit: Option<i32>,
    /// Initializers to run before `main`, in registration order.
    pub init_funcs: Vec<GuestAddr>,
    pub entry: GuestAddr,
    /// Argument registers for entry into `main`.
    pub arg_regs: [u64; 4],
    pub sp: u64,
    /// Output of the guest that the host has yet to log.
    pub log: Vec<LogLine>,
}

/// View of a [`Machine`] whose environment has states `S`.
#[verifier::ext_equal]
#[verifier::reject_recursive_types(S)]
pub struct MachineView<S> {
    pub cpu: CpuView,
    pub mem: MemView,
    pub vfs: SandboxView,
    pub fds: Map<i32, FdObject>,
    pub dispatcher: SyscallDispatcher,
    pub world: S,
    pub trampolines: Map<u64, Seq<char>>,
    pub tramp_range: (u64, u64),
    pub symbol_stubs: Map<Seq<char>, u64>,
    pub lazy_binds: Map<u64, (Seq<char>, u64)>,
    pub exit: Option<i32>,
    pub init_funcs: Seq<u64>,
    pub entry: u64,
    pub arg_regs: Seq<u64>,
    pub sp: u64,
    pub log: Seq<LogView>,
}

impl<W: HostEnvironment> View for Machine<W> {
    type V = MachineView<W::State>;

    open spec fn view(&self) -> MachineView<W::State> {
        MachineView {
            cpu: self.cpu@,
            mem: self.mem@,
            vfs: self.vfs@,
            fds: self.fds@,
            dispatcher: self.dispatcher,
            world: self.world.state(),
            trampolines: linker::names(self.trampolines@),
            tramp_range: self.tramp_range,
            symbol_stubs: self.symbol_stubs@,
            lazy_binds: process::lazy_view(self.lazy_binds@),
            exit: self.exit,
            init_funcs: process::raws(self.init_funcs@),
            entry: self.entry.0,
            arg_regs: self.arg_regs@,
            sp: self.sp,
            log: host::log_views(self.log@),
        }
    }
}

impl<S> MachineView<S> {
    /// The part a syscall may touch.
    pub open spec fn kernel(self) -> KernelView {
        KernelView {
            cpu: self.cpu,
            mem: self.mem,
            vfs: self.vfs,
            fds: self.fds,
            exit: self.exit,
            log: self.log,
        }
    }

    /// The machine with that part replaced.
    pub open spec fn with_kernel(self, k: KernelView) -> MachineView<S> {
        MachineView { cpu: k.cpu, mem: k.mem, fds: k.fds, exit: k.exit, log: k.log, ..self }
    }

    /// The part a library call may touch.
    pub open spec fn guest(self) -> GuestView {
        GuestView { cpu: self.cpu, mem: self.mem, vfs: self.vfs, log: self.log }
    }

    /// The machine with that part replaced.
    pub open spec fn with_guest(self, g: GuestView) -> MachineView<S> {
        MachineView { cpu: g.cpu, mem: g.mem, log: g.log, ..self }
    }

    /// The machine back at the caller of the current function.
    pub open spec fn returned(self) -> MachineView<S> {
        MachineView { cpu: self.cpu.returned(), ..self }
    }

    /// Service the syscall in the register file.
    pub open spec fn after_syscall(self) -> (MachineView<S>, Option<RequestView>) {
        let (d, k, q) = self.dispatcher.dispatched(self.kernel());
        (MachineView { dispatcher: d, ..self.with_kernel(k) }, q)
    }

    /// The lazy binding named by the word on top of the stack: symbol, pointer
    /// location and trampoline, if all three are known; else what is logged of
    /// it.
    pub open spec fn lookup_bind(self) -> Result<(Seq<char>, u64, u64), LogView> {
        match self.mem.read_u64(self.cpu.sp) {
            Err(_) => Err(binder_error("unreadable sp "@ + text::address_text(self.cpu.sp))),
            Ok(word) => {
                let offset = (word % 0x1_0000_0000) as u64;
                if !self.lazy_binds.contains_key(offset) {
                    Err(binder_error("no lazy bind at offset 0x"@ + text::hex(offset as nat)))
                } else {
                    let (symbol, slot) = self.lazy_binds[offset];
                    if !self.symbol_stubs.contains_key(symbol) {
                        Err(binder_error("unresolved lazy symbol "@ + symbol))
                    } else {
                        Ok((symbol, slot, self.symbol_stubs[symbol]))
                    }
                }
            },
        }
    }

    /// Pointer location and trampoline of the lazy binding named by the word on
    /// top of the stack, if it is known.
    pub open spec fn pending_bind(self) -> Option<(u64, u64)> {
        match self.lookup_bind() {
            Err(_) => None,
            Ok((_, slot, stub)) => Some((slot, stub)),
        }
    }

    /// The lazy binder: point the lazy pointer at the trampoline (if it can be
    /// written), pop the helper's frame and jump to the trampoline. If the
    /// binding is not known, return to the caller. Either way it is logged.
    pub open spec fn lazily_bound(self) -> MachineView<S> {
        match self.lookup_bind() {
            Err(line) => MachineView { log: self.log.push(line), ..self.returned() },
            Ok((symbol, slot, stub)) => {
                let bound = self.log.push(lazy_line(symbol, slot, stub));
                let (mem, written) = self.mem.write(slot, bytes::le64_bytes(stub));
                MachineView {
                    mem,
                    cpu: CpuView { sp: self.cpu.sp.wrapping_add(16), pc: stub, ..self.cpu },
                    log: if written is Ok {
                        bound
                    } else {
                        bound.push(unpatched_line(slot))
                    },
                    ..self
                }
            },
        }
    }

    /// The machine as it enters its process.
    pub open spec fn at_entry(self) -> MachineView<S> {
        MachineView { cpu: CpuView::entry(self.entry, self.sp, self.arg_regs), ..self }
    }
}

/// What is logged of a lazy binding that is not known.
pub open spec fn binder_error(what: Seq<char>) -> LogView {
    LogView {
        level: LogLevel::Error,
        target: LogTarget::Emulator,
        text: "dyld_stub_binder: "@ + what,
    }
}

/// What is logged of a lazy binding.
pub open spec fn lazy_line(symbol: Seq<char>, slot: u64, stub: u64) -> LogView {
    LogView {
        level: LogLevel::Info,
        target: LogTarget::Import,
        text: "lazy-bind "@ + symbol + ": la_ptr "@ + text::address_text(slot) + " -> stub "@
            + text::address_text(stub),
    }
}

/// What is logged of a lazy pointer that cannot be written.
pub open spec fn unpatched_line(slot: u64) -> LogView {
    LogView {
        level: LogLevel::Warn,
        target: LogTarget::Emulator,
        text: "dyld_stub_binder: could not patch la_ptr "@ + text::address_text(slot),
    }
}

/// What is logged of a breakpoint in the guest.
pub open spec fn breakpoint_line(imm: u16, pc: u64) -> LogView {
    LogView {
        level: LogLevel::Error,
        target: LogTarget::Emulator,
        text: "guest BRK #"@ + text::dec(imm as nat) + " at "@ + text::address_text(pc),
    }
}

/// What is logged of a call into the trampoline area that belongs to no symbol.
pub open spec fn unmapped_line(addr: u64, lr: u64) -> LogView {
    LogView {
        level: LogLevel::Warn,
        target: LogTarget::Emulator,
        text: "call into unmapped trampoline "@ + text::address_text(addr) + " (lr "@
            + text::address_text(lr) + ")"@,
    }
}

/// What is logged of an image that has been parsed.
pub open spec fn loaded_line(img: macho::ImageView) -> LogView {
    let pie = if img.flags & MH_PIE != 0 {
        "true"@
    } else {
        "false"@
    };
    LogView {
        level: LogLevel::Info,
        target: LogTarget::Emulator,
        text: "loaded Mach-O: "@ + text::dec(img.segments.len()) + " segments, "@
            + text::dec(img.dylibs.len()) + " dylibs, pie="@ + pie,
    }
}

/// What is logged of a call to an imported symbol.
pub open spec fn import_line(symbol: Seq<char>, addr: u64, lr: u64) -> LogView {
    LogView {
        level: LogLevel::Info,
        target: LogTarget::Import,
        text: "call "@ + symbol + " (stub "@ + text::address_text(addr) + ", from lr "@
            + text::address_text(lr) + ")"@,
    }
}

/// What is logged of an imported symbol that nothing implements.
pub open spec fn missing_line(symbol: Seq<char>) -> LogView {
    LogView {
        level: LogLevel::Warn,
        target: LogTarget::Stub,
        text: "unimplemented import "@ + symbol + "; returning 0"@,
    }
}

/// Service a call into the trampoline area: the lazy binder, or a logged call to
/// the environment that answers zero if nothing implements it; then return to
/// the caller. An address that belongs to no symbol is logged.
pub open spec fn after_trampoline<W: HostEnvironment>(
    m: MachineView<W::State>,
    addr: u64,
) -> MachineView<W::State> {
    if !m.trampolines.contains_key(addr) {
        MachineView { log: m.log.push(unmapped_line(addr, m.cpu.lr)), ..m.returned() }
    } else if m.trampolines[addr] == "dyld_stub_binder"@ {
        m.lazily_bound()
    } else {
        let symbol = m.trampolines[addr];
        let log = m.log.push(import_line(symbol, addr, m.cpu.lr));
        let (world, g, d) = W::called(m.world, symbol, GuestView { log, ..m.guest() });
        let g2 = if d == Dispatch::Unhandled {
            GuestView { log: g.log.push(missing_line(symbol)), ..g.returning(0) }
        } else {
            g
        };
        MachineView { world, ..m.with_guest(g2) }.returned()
    }
}

/// Service one event: the machine after it, and why to stop, if so.
pub open spec fn after_event<W: HostEnvironment>(m: MachineView<W::State>, e: EventView) -> (
    MachineView<W::State>,
    Option<Result<StopView, ErrorView>>,
) {
    match e {
        EventView::Syscall { .. } => {
            let (after, q) = m.after_syscall();
            match (q, after.exit) {
                (Some(request), _) => (after, Some(Ok(StopView::Host(request)))),
                (None, Some(code)) => (after, Some(Ok(StopView::Exit(ProcessExit { code })))),
                (None, None) => (after, None),
            }
        },
        EventView::TrampolineCall { addr } => (after_trampoline::<W>(m, addr), None),
        EventView::Exited { code } => (m, Some(Ok(StopView::Exit(ProcessExit { code })))),
        EventView::Breakpoint { imm } => (
            MachineView { log: m.log.push(breakpoint_line(imm, m.cpu.pc)), ..m },
            Some(Ok(StopView::Exit(ProcessExit { code: BREAKPOINT_EXIT }))),
        ),
        EventView::Fault { pc, reason } => (m, Some(Err(error::memory_error(pc, reason)))),
    }
}

/// Run until something stops the loop: the machine and the executor then, and
/// why.
pub open spec fn after_run<W: HostEnvironment, E: Executor>(
    m: MachineView<W::State>,
    s: E::State,
) -> (MachineView<W::State>, E::State, Result<StopView, ErrorView>)
    decreases E::budget(s),
{
    let next = E::after(s, m.cpu);
    match after_event::<W>(
        MachineView { cpu: E::resumed(s, m.cpu), ..m },
        E::event(s, m.cpu),
    ) {
        (after, Some(stop)) => (after, next, stop),
        (after, None) => if E::budget(next) < E::budget(s) {
            after_run::<W, E>(after, next)
        } else {
            arbitrary()
        },
    }
}

/// One round of the loop: it stops there, or goes on from there.
proof fn lemma_run_step<W: HostEnvironment, E: Executor>(m: MachineView<W::State>, s: E::State)
    ensures
        ({
            let next = E::after(s, m.cpu);
            let (after, stop) = after_event::<W>(
                MachineView { cpu: E::resumed(s, m.cpu), ..m },
                E::event(s, m.cpu),
            );
            match stop {
                Some(r) => after_run::<W, E>(m, s) == (after, next, r),
                None => E::budget(next) < E::budget(s) ==> after_run::<W, E>(m, s) == after_run::<
                    W,
                    E,
                >(after, next),
            }
        }),
{
}

/// The process configuration for a machine.
pub open spec fn layout_of(cfg: MachineConfig, vfs: SandboxView) -> ConfigView {
    ConfigView {
        slide: cfg.slide,
        stack_top: cfg.stack_top.0,
        stack_size: cfg.stack_size,
        trampoline_base: cfg.trampoline_base.0,
        trampoline_stride: TRAMPOLINE_STRIDE,
        argv0: vfs.bundle_ios_path() + "/Executable"@,
    }
}

/// The machine that a Mach-O file makes, with nothing in its log.
pub open spec fn loaded<S>(cfg: MachineConfig, file: Seq<u8>, vfs: SandboxView, world: S) -> Result<
    MachineView<S>,
    ErrorView,
> {
    match macho::image(file) {
        Err(e) => Err(e),
        Ok(img) => match MemView::empty(cfg.heap_base.0, cfg.heap_size).map(
            cfg.heap_base.0,
            cfg.heap_size,
            Protection(3),
            RegionKind::Heap,
            "heap"@,
        ) {
            (_, Err(e)) => Err(e),
            (m, Ok(_)) => match process::model::built(img, file, m, layout_of(cfg, vfs)) {
                (_, Err(e)) => Err(e),
                (mem, Ok(p)) => Ok(
                    MachineView {
                        cpu: CpuView::entry(p.entry, p.sp, p.arg_regs),
                        mem,
                        vfs,
                        fds: fd::standard_streams(),
                        dispatcher: SyscallDispatcher { serviced: 0, stubbed: 0 },
                        world,
                        trampolines: p.trampolines,
                        tramp_range: (p.trampoline_base, p.trampoline_end),
                        symbol_stubs: p.symbol_stubs,
                        lazy_binds: p.lazy_binds,
                        exit: None,
                        init_funcs: p.init_funcs,
                        entry: p.entry,
                        arg_regs: p.arg_regs,
                        sp: p.sp,
                        log: Seq::empty(),
                    },
                ),
            },
        },
    }
}

/// What is logged while a Mach-O file is made into a machine.
pub open spec fn load_lines(cfg: MachineConfig, file: Seq<u8>, vfs: SandboxView) -> Seq<LogView> {
    match macho::image(file) {
        Err(_) => seq![],
        Ok(img) => match MemView::empty(cfg.heap_base.0, cfg.heap_size).map(
            cfg.heap_base.0,
            cfg.heap_size,
            Protection(3),
            RegionKind::Heap,
            "heap"@,
        ) {
            (_, Err(_)) => seq![loaded_line(img)],
            (m, Ok(_)) => seq![loaded_line(img)] + process::model::build_lines(
                img,
                file,
                m,
                layout_of(cfg, vfs),
            ),
        },
    }
}

/// Log an image that has been parsed.
fn log_loaded(image: &MachOImage, log: &mut Vec<LogLine>)
    ensures
        host::log_views(final(log)@) == host::log_views(old(log)@).push(loaded_line(image@)),
{
    let mut m = text::cat3(
        "loaded Mach-O: ",
        text::dec_string(image.segments.len() as u64).as_str(),
        " segments, ",
    );
    m.append(text::dec_string(image.dylibs.len() as u64).as_str());
    m.append(" dylibs, pie=");
    if image.is_pie() {
        m.append("true");
    } else {
        m.append("false");
    }
    host::log_line(log, LogLevel::Info, LogTarget::Emulator, m);
}

/// Log a lazy binding that is not known.
fn log_binder_error(what: &str, log: &mut Vec<LogLine>)
    ensures
        host::log_views(final(log)@) == host::log_views(old(log)@).push(binder_error(what@)),
{
    let m = text::cat("dyld_stub_binder: ", what);
    host::log_line(log, LogLevel::Error, LogTarget::Emulator, m);
}

/// Log a lazy binding.
fn log_lazy(symbol: &str, slot: u64, stub: u64, log: &mut Vec<LogLine>)
    ensures
        host::log_views(final(log)@) == host::log_views(old(log)@).push(
            lazy_line(symbol@, slot, stub),
        ),
{
    let mut m = text::cat3("lazy-bind ", symbol, ": la_ptr ");
    m.append(text::address_string(slot).as_str());
    m.append(" -> stub ");
    m.append(text::address_string(stub).as_str());
    host::log_line(log, LogLevel::Info, LogTarget::Import, m);
}

/// Log a breakpoint in the guest.
fn log_breakpoint(imm: u16, pc: u64, log: &mut Vec<LogLine>)
    ensures
        host::log_views(final(log)@) == host::log_views(old(log)@).push(breakpoint_line(imm, pc)),
{
    let mut m = text::cat3("guest BRK #", text::dec_string(imm as u64).as_str(), " at ");
    m.append(text::address_string(pc).as_str());
    host::log_line(log, LogLevel::Error, LogTarget::Emulator, m);
}

/// Log a call into the trampoline area that belongs to no symbol.
fn log_unmapped(addr: u64, lr: u64, log: &mut Vec<LogLine>)
    ensures
        host::log_views(final(log)@) == host::log_views(old(log)@).push(unmapped_line(addr, lr)),
{
    let mut m = text::cat3(
        "call into unmapped trampoline ",
        text::address_string(addr).as_str(),
        " (lr ",
    );
    m.append(text::address_string(lr).as_str());
    m.append(")");
    host::log_line(log, LogLevel::Warn, LogTarget::Emulator, m);
}

/// Log a call to an imported symbol.
fn log_import(symbol: &str, addr: u64, lr: u64, log: &mut Vec<LogLine>)
    ensures
        host::log_views(final(log)@) == host::log_views(old(log)@).push(
            import_line(symbol@, addr, lr),
        ),
{
    let mut m = text::cat3("call ", symbol, " (stub ");
    m.append(text::address_string(addr).as_str());
    m.append(", from lr ");
    m.append(text::address_string(lr).as_str());
    m.append(")");
    host::log_line(log, LogLevel::Info, LogTarget::Import, m);
}

impl<W: HostEnvironment> Machine<W> {
    /// The address space and the environment are in a state they can be in.
    pub open spec fn wf(&self) -> bool {
        self@.mem.wf() && W::valid(self@.world)
    }

    /// Construct a process from a Mach-O file inside `vfs`, servicing library
    /// calls through `world`. The machine's log starts with what there is to
    /// tell of the file.
    pub fn load(cfg: &MachineConfig, file: &[u8], vfs: Sandbox, world: W) -> (r: EmuResult<
        Machine<W>,
    >)
        requires
            W::valid(world.state()),
        ensures
            error::outcome(r) == (match loaded(*cfg, file@, vfs@, world.state()) {
                Ok(m) => Ok(MachineView { log: load_lines(*cfg, file@, vfs@), ..m }),
                Err(e) => Err(e),
            }),
            r matches Ok(m) ==> m.wf(),
    {
        let mut log: Vec<LogLine> = Vec::new();
        let ghost lines = load_lines(*cfg, file@, vfs@);
        let mut m = Machine::load_telling(cfg, file, vfs, world, &mut log)?;
        assert(host::log_views(log@) =~= lines);
        m.log = log;
        Ok(m)
    }

    /// Construct a process as [`Machine::load`] does, but tell `log` of the file,
    /// whether or not a process comes of it.
    pub fn load_telling(
        cfg: &MachineConfig,
        file: &[u8],
        vfs: Sandbox,
        world: W,
        log: &mut Vec<LogLine>,
    ) -> (r: EmuResult<Machine<W>>)
        requires
            W::valid(world.state()),
        ensures
            error::outcome(r) == loaded(*cfg, file@, vfs@, world.state()),
            r matches Ok(m) ==> m.wf(),
            host::log_views(final(log)@) == host::log_views(old(log)@) + load_lines(
                *cfg,
                file@,
                vfs@,
            ),
    {
        let ghost told = host::log_views(log@);
        assert(told + seq![] =~= told);
        let image = MachOImage::parse(file)?;
        log_loaded(&image, log);
        assert(host::log_views(log@) =~= told + seq![loaded_line(image@)]);
        let mut mem = GuestMemory::new(cfg.heap_base, cfg.heap_size)?;
        let bundle = vfs.bundle_ios_path();
        let layout = LayoutConfig {
            slide: cfg.slide,
            stack_top: cfg.stack_top,
            stack_size: cfg.stack_size,
            trampoline_base: cfg.trampoline_base,
            trampoline_stride: TRAMPOLINE_STRIDE,
            argv0: text::cat(bundle.as_str(), "/Executable"),
        };
        proof {
            let rest = process::model::build_lines(image@, file@, mem@, layout@);
            assert(told + seq![loaded_line(image@)] + rest =~= told + (seq![loaded_line(image@)]
                + rest));
        }
        let p = process::build_process(&image, file, &mut mem, &layout, log)?;
        let cpu = CpuContext::entry(p.entry.raw(), p.sp.raw(), p.arg_regs);
        let log: Vec<LogLine> = Vec::new();
        assert(host::log_views(log@) =~= Seq::empty());
        Ok(
            Machine {
                cpu,
                mem,
                vfs,
                fds: FdTable::default(),
                dispatcher: SyscallDispatcher::new(),
                world,
                trampolines: p.trampolines,
                tramp_range: (p.trampoline_base.raw(), p.trampoline_end.raw()),
                symbol_stubs: p.symbol_stubs,
                lazy_binds: p.lazy_binds,
                exit: None,
                init_funcs: p.init_funcs,
                entry: p.entry,
                arg_regs: p.arg_regs,
                sp: p.sp.raw(),
                log,
            },
        )
    }

    /// Whether `addr` lies in the trampoline area.
    pub fn is_trampoline(&self, addr: GuestAddr) -> (r: bool)
        ensures
            r == (self@.tramp_range.0 <= addr.0 < self@.tramp_range.1),
    {
        self.tramp_range.0 <= addr.0 && addr.0 < self.tramp_range.1
    }

    /// Tell the environment that the image is mapped.
    pub fn start_environment(&mut self)
        requires
            old(self).wf(),
        ensures
            ({
                let (world, g) = W::started(old(self)@.world, old(self)@.guest());
                final(self)@ == (MachineView { world, ..old(self)@.with_guest(g) })
            }),
            final(self).wf(),
    {
        let mut ctx = CallContext {
            cpu: &mut self.cpu,
            mem: &mut self.mem,
            vfs: &self.vfs,
            log: &mut self.log,
        };
        self.world.on_process_start(&mut ctx);
    }

    /// Run the execute/dispatch loop until the process exits or faults, or the
    /// host has to be asked for something.
    #[verifier::spinoff_prover]
    #[verifier::rlimit(40)]
    pub fn run<E: Executor>(&mut self, exec: &mut E) -> (r: EmuResult<Stop>)
        requires
            old(self).wf(),
        ensures
            (final(self)@, final(exec).state(), error::outcome(r)) == after_run::<W, E>(
                old(self)@,
                old(exec).state(),
            ),
            final(self).wf(),
    {
        loop
            invariant
                self.wf(),
                after_run::<W, E>(old(self)@, old(exec).state()) == after_run::<W, E>(
                    self@,
                    exec.state(),
                ),
            decreases E::budget(exec.state()),
        {
            let ghost m0 = self@;
            let ghost s0 = exec.state();
            let event = exec.resume(&mut self.cpu);
            proof {
                assert(self@ =~= (MachineView { cpu: E::resumed(s0, m0.cpu), ..m0 }));
                lemma_run_step::<W, E>(m0, s0);
            }
            if let Some(stop) = self.step(event) {
                return stop;
            }
        }
    }

    /// Service one event; `Some` if the loop has to stop.
    pub fn step(&mut self, event: ExecEvent) -> (r: Option<EmuResult<Stop>>)
        requires
            old(self).wf(),
        ensures
            ({
                let (m, s) = after_event::<W>(old(self)@, event@);
                &&& final(self)@ == m
                &&& match s {
                    Some(stop) => r matches Some(x) && error::outcome(x) == stop,
                    None => r is None,
                }
            }),
            final(self).wf(),
    {
        match event {
            ExecEvent::Syscall { .. } => {
                if let Some(request) = self.service_syscall() {
                    return Some(Ok(Stop::Host(request)));
                }
                match self.exit {
                    Some(code) => Some(Ok(Stop::Exit(ProcessExit { code }))),
                    None => None,
                }
            },
            ExecEvent::TrampolineCall { addr } => {
                self.service_trampoline(addr);
                None
            },
            ExecEvent::Exited { code } => Some(Ok(Stop::Exit(ProcessExit { code }))),
            ExecEvent::Breakpoint { imm } => {
                log_breakpoint(imm, self.cpu.pc, &mut self.log);
                Some(Ok(Stop::Exit(ProcessExit { code: BREAKPOINT_EXIT })))
            },
            ExecEvent::Fault { pc, reason } => Some(
                Err(EmuError::Memory { addr: pc.raw(), reason }),
            ),
        }
    }

    fn service_syscall(&mut self) -> (r: Option<HostRequest>)
        requires
            old(self).wf(),
        ensures
            ({
                let (m, q) = old(self)@.after_syscall();
                &&& final(self)@ == m
                &&& match q {
                    Some(request) => r matches Some(x) && x@ == request,
                    None => r is None,
                }
            }),
            final(self).wf(),
    {
        let mut ctx = SyscallCtx {
            cpu: &mut self.cpu,
            mem: &mut self.mem,
            vfs: &self.vfs,
            fds: &mut self.fds,
            exit: &mut self.exit,
            log: &mut self.log,
        };
        self.dispatcher.dispatch(&mut ctx)
    }

    /// Finish a syscall with the host's answer to its request: the result goes
    /// to the register file.
    pub fn complete(&mut self, request: &HostRequest, reply: HostReply)
        requires
            old(self).wf(),
        ensures
            ({
                let (k, r) = calls::complete(old(self)@.kernel(), request@, reply@);
                final(self)@ == old(self)@.with_kernel(
                    KernelView { cpu: k.cpu.with_result(r), ..k },
                )
            }),
            final(self).wf(),
    {
        let ghost k0 = self@.kernel();
        let r = unix::complete(&mut self.mem, &mut self.fds, request, reply);
        proof {
            let model = calls::complete(k0, request@, reply@);
            assert(model.0 =~= (KernelView { mem: self.mem@, fds: self.fds@, ..k0 }));
        }
        self.cpu.set_syscall_result(r);
    }

    /// Service a call that branched into the trampoline area.
    fn service_trampoline(&mut self, addr: GuestAddr)
        requires
            old(self).wf(),
        ensures
            final(self)@ == after_trampoline::<W>(old(self)@, addr.0),
            final(self).wf(),
    {
        broadcast use vstd::std_specs::hash::group_hash_axioms;

        let symbol = match self.trampolines.get(&addr.0) {
            Some(s) => s.clone(),
            None => {
                log_unmapped(addr.0, self.cpu.lr, &mut self.log);
                self.cpu.pc = self.cpu.lr;
                return;
            },
        };
        if text::same(symbol.as_str(), "dyld_stub_binder") {
            self.dyld_stub_binder();
            return;
        }
        log_import(symbol.as_str(), addr.0, self.cpu.lr, &mut self.log);
        let mut ctx = CallContext {
            cpu: &mut self.cpu,
            mem: &mut self.mem,
            vfs: &self.vfs,
            log: &mut self.log,
        };
        let disp = self.world.call(symbol.as_str(), &mut ctx);
        if disp == Dispatch::Unhandled {
            let line = text::cat3("unimplemented import ", symbol.as_str(), "; returning 0");
            host::log_line(&mut self.log, LogLevel::Warn, LogTarget::Stub, line);
            self.cpu.set_ret(0);
        }
        self.cpu.pc = self.cpu.lr;
    }

    /// The lazy-binding trampoline. The word on top of the stack is the offset
    /// of the symbol's lazy-bind sequence; the lazy pointer is patched so that
    /// later calls bypass the binder, the helper's two words are popped, and
    /// control moves on to the symbol's trampoline. Argument registers are not
    /// touched.
    pub fn dyld_stub_binder(&mut self)
        requires
            old(self).wf(),
        ensures
            final(self)@ == old(self)@.lazily_bound(),
            final(self).wf(),
    {
        broadcast use vstd::std_specs::hash::group_hash_axioms;

        let sp = self.cpu.sp;
        let offset = match self.mem.read_u64(GuestAddr(sp)) {
            Ok(v) => v % 0x1_0000_0000,
            Err(_) => {
                let what = text::cat("unreadable sp ", text::address_string(sp).as_str());
                log_binder_error(what.as_str(), &mut self.log);
                self.cpu.pc = self.cpu.lr;
                return;
            },
        };
        let (symbol, slot) = match self.lazy_binds.get(&offset) {
            Some(e) => (e.0.clone(), e.1),
            None => {
                let what = text::cat("no lazy bind at offset 0x", text::hex_string(offset).as_str());
                log_binder_error(what.as_str(), &mut self.log);
                self.cpu.pc = self.cpu.lr;
                return;
            },
        };
        let stub = match self.symbol_stubs.get(symbol.as_str()) {
            Some(a) => *a,
            None => {
                let what = text::cat("unresolved lazy symbol ", symbol.as_str());
                log_binder_error(what.as_str(), &mut self.log);
                self.cpu.pc = self.cpu.lr;
                return;
            },
        };
        log_lazy(symbol.as_str(), slot.0, stub, &mut self.log);
        if self.mem.write_u64(slot, stub).is_err() {
            let m = text::cat(
                "dyld_stub_binder: could not patch la_ptr ",
                text::address_string(slot.0).as_str(),
            );
            host::log_line(&mut self.log, LogLevel::Warn, LogTarget::Emulator, m);
        }
        self.cpu.sp = sp.wrapping_add(16);
        self.cpu.pc = stub;
    }

    /// Reset the register file to the process entry state.
    pub fn reset_to_entry(&mut self)
        ensures
            final(self)@ == old(self)@.at_entry(),
    {
        self.cpu = CpuContext::entry(self.entry.raw(), self.sp, self.arg_regs);
    }
}

impl Machine<NullEnvironment> {
    /// Construct a process with no library environment.
    pub fn load_bare(cfg: &MachineConfig, file: &[u8], vfs: Sandbox) -> (r: EmuResult<
        Machine<NullEnvironment>,
    >)
        ensures
            error::outcome(r) == (match loaded(*cfg, file@, vfs@, ()) {
                Ok(m) => Ok(MachineView { log: load_lines(*cfg, file@, vfs@), ..m }),
                Err(e) => Err(e),
            }),
            r matches Ok(m) ==> m.wf(),
    {
        Machine::load(cfg, file, vfs, NullEnvironment)
    }
}

// ---- laws -------------------------------------------------------------------

/// The lazy binder touches no argument register. When the binding is known it
/// jumps to the symbol's trampoline with the helper's frame popped, and the
/// lazy pointer leads there from then on.
pub proof fn lazy_binding_patches_and_jumps<S>(m: MachineView<S>)
    requires
        m.mem.wf(),
    ensures
        m.lazily_bound().cpu.x == m.cpu.x,
        m.lazily_bound().cpu.lr == m.cpu.lr,
        m.lazily_bound().cpu.fp == m.cpu.fp,
        match m.pending_bind() {
            None => m.lazily_bound().cpu.pc == m.cpu.lr && m.lazily_bound().mem == m.mem,
            Some((slot, stub)) => {
                &&& m.lazily_bound().cpu.pc == stub
                &&& m.lazily_bound().cpu.sp == m.cpu.sp.wrapping_add(16)
                &&& m.mem.write(slot, bytes::le64_bytes(stub)).1 is Ok && m.mem.read(slot, 8) is Ok
                    ==> m.lazily_bound().mem.read_u64(slot) == Ok::<u64, ErrorView>(stub)
            },
        },
{
    match m.pending_bind() {
        None => {},
        Some((slot, stub)) => {
            if m.mem.write(slot, bytes::le64_bytes(stub)).1 is Ok && m.mem.read(slot, 8) is Ok {
                crate::memory::space::word64_roundtrip(m.mem, slot, stub);
            }
        },
    }
}

/// An `exit` syscall ends the run with the code in `x0`, whatever else the
/// machine is doing.
pub proof fn exit_ends_the_run<W: HostEnvironment>(m: MachineView<W::State>, imm: u16)
    requires
        crate::kernel::syscall::decoded(m.cpu.x[16]) == (
            crate::common::SyscallClass::Unix,
            crate::kernel::syscall::numbers::SYS_EXIT,
        ),
    ensures
        after_event::<W>(m, EventView::Syscall { imm }).1 == Some(
            Ok::<StopView, ErrorView>(
                StopView::Exit(ProcessExit { code: calls::low32(m.cpu.x[0]) }),
            ),
        ),
{
}

/// A call to an import that nothing implements is logged, returns zero to its
/// caller and changes nothing else of the guest.
pub proof fn unimplemented_imports_return_zero(m: MachineView<()>, addr: u64)
    requires
        m.cpu.x.len() == 29,
        m.trampolines.contains_key(addr),
        m.trampolines[addr] != "dyld_stub_binder"@,
    ensures
        ({
            let after = after_trampoline::<NullEnvironment>(m, addr);
            &&& after.cpu.x[0] == 0
            &&& after.cpu.pc == m.cpu.lr
            &&& after.log == m.log.push(import_line(m.trampolines[addr], addr, m.cpu.lr)).push(
                missing_line(m.trampolines[addr]),
            )
            &&& after == (MachineView { cpu: after.cpu, log: after.log, ..m })
            &&& forall|i: int| 1 <= i < 29 ==> after.cpu.x[i] == m.cpu.x[i]
        }),
{
}

} // verus!
