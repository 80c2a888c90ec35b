//! What the machine does for its guest.

use vstd::prelude::*;

use crate::common::error::ErrorView;
use crate::kernel::cpu::{CpuView, EventView, Executor, NativeExecutor, ScriptedExecutor};
use crate::kernel::env::{Dispatch, GuestView, HostEnvironment, NullEnvironment};
use crate::kernel::fd::FdObject;
use crate::kernel::host::{LogLevel, LogTarget, OutcomeView};
use crate::kernel::machine;
use crate::kernel::machine::{MachineConfig, MachineView, ProcessExit, StopView};
use crate::kernel::syscall;
use crate::kernel::syscall::model;
use crate::kernel::syscall::model::KernelView;
use crate::kernel::syscall::{mach, SyscallDispatcher};
use crate::vfs::sandbox::SandboxView;

verus! {

// ---- registers --------------------------------------------------------------

/// A function is entered with its arguments in the first registers, with the
/// stack pointer and the program counter as given, and with everything else
/// zero.
pub proof fn functions_are_entered_with_their_arguments(
    pc: u64,
    sp: u64,
    args: Seq<u64>,
    i: int,
)
    requires
        args.len() <= 29,
        0 <= i < 29,
    ensures
        ({
            let c = CpuView::entry(pc, sp, args);
            &&& c.x.len() == 29
            &&& i < args.len() ==> c.x[i] == args[i]
            &&& i >= args.len() ==> c.x[i] == 0
            &&& c.pc == pc && c.sp == sp
            &&& c.lr == 0 && c.fp == 0 && c.nzcv == 0 && c.tpidrro_el0 == 0
        }),
{
}

/// Returning goes to the address in the link register and changes nothing else.
pub proof fn returns_go_to_the_link_register(c: CpuView)
    ensures
        c.returned() == (CpuView { pc: c.lr, ..c }),
{
}

/// Whether the result `r` of a syscall is in the registers `d` of a guest that
/// had `c`: the value in `x0` with the carry flag clear, or the error number
/// with the carry flag set, and nothing else changed.
pub open spec fn reported(c: CpuView, d: CpuView, r: Result<u64, u32>) -> bool {
    &&& d.x == c.x.update(
        0,
        match r {
            Ok(v) => v,
            Err(e) => e as u64,
        },
    )
    &&& r is Ok ==> d.nzcv & 0x2000_0000 == 0
    &&& r is Err ==> d.nzcv & 0x2000_0000 == 0x2000_0000
    &&& d.nzcv & !0x2000_0000u64 == c.nzcv & !0x2000_0000u64
    &&& d == (CpuView { x: d.x, nzcv: d.nzcv, ..c })
}

/// The result of a syscall is reported in `x0` and the carry flag, which is bit
/// 29 of the flags.
pub proof fn results_are_reported(c: CpuView, r: Result<u64, u32>)
    ensures
        reported(c, c.with_result(r), r),
{
    let n = c.nzcv;
    assert((n & !0x2000_0000u64) & 0x2000_0000u64 == 0 && (n & !0x2000_0000u64) & !0x2000_0000u64
        == n & !0x2000_0000u64) by (bit_vector);
    assert((n | 0x2000_0000u64) & 0x2000_0000u64 == 0x2000_0000u64 && (n | 0x2000_0000u64)
        & !0x2000_0000u64 == n & !0x2000_0000u64) by (bit_vector);
}

// ---- syscalls ---------------------------------------------------------------

/// The number in `x16` decides what a supervisor call does: the BSD call of that
/// number answers as it is defined, or asks the host; one that does not exist
/// fails as such.
pub proof fn bsd_calls_answer(d: SyscallDispatcher, k: KernelView, number: u32)
    requires
        0 < number < 0x100_0000,
        k.cpu.x[16] == number,
    ensures
        ({
            let (after, l, q) = d.dispatched(k);
            match model::unix(number, k) {
                Some((m, OutcomeView::Done(r))) => {
                    &&& q is None
                    &&& reported(m.cpu, l.cpu, r)
                    &&& l == (KernelView { cpu: l.cpu, ..m })
                    &&& after.stubbed == d.stubbed
                },
                Some((m, OutcomeView::Host(request))) => {
                    &&& q == Some(request)
                    &&& l == m
                    &&& after.stubbed == d.stubbed
                },
                None => {
                    &&& q is None
                    &&& reported(k.cpu, l.cpu, Err::<u64, u32>(78))
                    &&& l == (KernelView { cpu: l.cpu, log: l.log, ..k })
                    &&& after.stubbed == d.stubbed.wrapping_add(1)
                },
            }
        }),
{
    syscall::selector_forms_agree(number);
    if let Some((m, OutcomeView::Done(r))) = model::unix(number, k) {
        results_are_reported(m.cpu, r);
    }
    results_are_reported(k.cpu, Err::<u64, u32>(78));
}

/// A negative number in `x16` is a Mach trap, which always succeeds; one that
/// does not exist answers zero.
pub proof fn mach_traps_answer(d: SyscallDispatcher, k: KernelView, number: u32)
    requires
        0 < number < 0x100_0000,
        k.cpu.x[16] == 0x1_0000_0000_0000_0000 - number,
    ensures
        ({
            let (after, l, q) = d.dispatched(k);
            &&& q is None
            &&& match mach::trap(number, k.cpu, k.mem) {
                Some((mem, v)) => {
                    &&& reported(k.cpu, l.cpu, Ok::<u64, u32>(v))
                    &&& l == (KernelView { cpu: l.cpu, mem, ..k })
                },
                None => {
                    &&& reported(k.cpu, l.cpu, Ok::<u64, u32>(0))
                    &&& l == (KernelView { cpu: l.cpu, log: l.log, ..k })
                    &&& after.stubbed == d.stubbed.wrapping_add(1)
                },
            }
        }),
{
    syscall::selector_forms_agree(number);
    if let Some((_, v)) = mach::trap(number, k.cpu, k.mem) {
        results_are_reported(k.cpu, Ok::<u64, u32>(v));
    }
    results_are_reported(k.cpu, Ok::<u64, u32>(0));
}

// ---- events -----------------------------------------------------------------

/// The guest's own end gives its code; a breakpoint ends the run with 133; a
/// fault is an error at its address; and none of them changes the guest.
pub proof fn events_end_the_run<W: HostEnvironment>(
    m: MachineView<W::State>,
    code: i32,
    imm: u16,
    pc: u64,
    reason: Seq<char>,
)
    ensures
        machine::after_event::<W>(m, EventView::Exited { code }) == (
            m,
            Some(Ok::<StopView, ErrorView>(StopView::Exit(ProcessExit { code }))),
        ),
        ({
            let (after, stop) = machine::after_event::<W>(m, EventView::Breakpoint { imm });
            &&& stop == Some(
                Ok::<StopView, ErrorView>(StopView::Exit(ProcessExit { code: 133 })),
            )
            &&& after == (MachineView { log: after.log, ..m })
            &&& after.log.len() == m.log.len() + 1
        }),
        ({
            let (after, stop) = machine::after_event::<W>(m, EventView::Fault { pc, reason });
            &&& after == m
            &&& stop matches Some(Err(e)) && e == crate::common::error::memory_error(pc, reason)
        }),
{
}

/// A call to an imported symbol is the environment's: what it does to the guest
/// is what the guest finds, and it goes on behind its call. What the environment
/// does not know answers zero.
pub proof fn imports_are_called<W: HostEnvironment>(
    m: MachineView<W::State>,
    addr: u64,
    symbol: Seq<char>,
)
    requires
        m.trampolines.contains_key(addr),
        m.trampolines[addr] == symbol,
        symbol != "dyld_stub_binder"@,
    ensures
        ({
            let (after, stop) = machine::after_event::<W>(m, EventView::TrampolineCall { addr });
            let log = m.log.push(machine::import_line(symbol, addr, m.cpu.lr));
            let (world, g, d) = W::called(m.world, symbol, GuestView { log, ..m.guest() });
            &&& stop is None
            &&& after.world == world
            &&& after.mem == g.mem
            &&& after.cpu.pc == g.cpu.lr
            &&& d != Dispatch::Unhandled ==> after.cpu == (CpuView { pc: g.cpu.lr, ..g.cpu })
                && after.log == g.log
            &&& d == Dispatch::Unhandled ==> after.cpu == (CpuView {
                pc: g.cpu.lr,
                x: g.cpu.x.update(0, 0),
                ..g.cpu
            }) && after.log.len() == g.log.len() + 1
            &&& after == (MachineView {
                cpu: after.cpu,
                mem: after.mem,
                world: after.world,
                log: after.log,
                ..m
            })
        }),
{
}

/// The lazy binding that is due is the one that the low half of the word on top
/// of the stack numbers: its pointer, and the trampoline of its symbol. Without
/// such a word, number or symbol there is none.
pub proof fn lazy_bindings_are_found_by_number<S>(
    m: MachineView<S>,
    word: u64,
    symbol: Seq<char>,
    slot: u64,
)
    requires
        m.mem.read_u64(m.cpu.sp) == Ok::<u64, ErrorView>(word),
    ensures
        ({
            let number = (word % 0x1_0000_0000) as u64;
            &&& m.lazy_binds.contains_key(number) && m.lazy_binds[number] == (symbol, slot)
                && m.symbol_stubs.contains_key(symbol) ==> m.pending_bind() == Some(
                (slot, m.symbol_stubs[symbol]),
            )
            &&& !m.lazy_binds.contains_key(number) ==> m.pending_bind() is None
            &&& m.lazy_binds.contains_key(number) && m.lazy_binds[number] == (symbol, slot)
                && !m.symbol_stubs.contains_key(symbol) ==> m.pending_bind() is None
        }),
{
}

/// The lazy binder is what runs at its own trampoline.
pub proof fn the_lazy_binder_has_a_trampoline<W: HostEnvironment>(
    m: MachineView<W::State>,
    addr: u64,
)
    requires
        m.trampolines.contains_key(addr),
        m.trampolines[addr] == "dyld_stub_binder"@,
    ensures
        machine::after_event::<W>(m, EventView::TrampolineCall { addr }) == (
            m.lazily_bound(),
            None::<Result<StopView, ErrorView>>,
        ),
{
}

/// A call to an address that is no trampoline goes back to its caller.
pub proof fn stray_calls_go_back<W: HostEnvironment>(m: MachineView<W::State>, addr: u64)
    requires
        !m.trampolines.contains_key(addr),
    ensures
        ({
            let (after, stop) = machine::after_event::<W>(m, EventView::TrampolineCall { addr });
            &&& stop is None
            &&& after == (MachineView {
                cpu: CpuView { pc: m.cpu.lr, ..m.cpu },
                log: after.log,
                ..m
            })
            &&& after.log.len() == m.log.len() + 1
        }),
{
}

/// What a syscall asks of the host stops the run with the request, and an exit
/// stops it with the code.
pub proof fn requests_stop_the_run<W: HostEnvironment>(m: MachineView<W::State>, imm: u16)
    ensures
        ({
            let (after, stop) = machine::after_event::<W>(m, EventView::Syscall { imm });
            let (d, k, q) = m.dispatcher.dispatched(m.kernel());
            &&& after.dispatcher == d
            &&& after.kernel() == (KernelView { vfs: m.vfs, ..k })
            &&& match q {
                Some(request) => stop == Some(
                    Ok::<StopView, ErrorView>(StopView::Host(request)),
                ),
                None => match k.exit {
                    Some(code) => stop == Some(
                        Ok::<StopView, ErrorView>(StopView::Exit(ProcessExit { code })),
                    ),
                    None => stop is None,
                },
            }
        }),
{
}

// ---- loading ----------------------------------------------------------------

/// A machine starts at the entry point of its process with the standard streams
/// open, nothing else open and nothing serviced.
pub proof fn machines_start_at_their_entry<S>(
    cfg: MachineConfig,
    file: Seq<u8>,
    vfs: SandboxView,
    world: S,
    d: i32,
)
    ensures
        machine::loaded(cfg, file, vfs, world) matches Ok(m) ==> {
            &&& m.cpu == CpuView::entry(m.entry, m.sp, m.arg_regs)
            &&& m.at_entry().cpu == m.cpu
            &&& m.vfs == vfs && m.world == world
            &&& m.exit is None
            &&& m.dispatcher.serviced == 0 && m.dispatcher.stubbed == 0
            &&& m.fds.contains_key(d) <==> 0 <= d <= 2
            &&& m.fds[0] == FdObject::Stdin && m.fds[1] == FdObject::Stdout && m.fds[2]
                == FdObject::Stderr
        },
{
}

/// The program is told that it is the executable of its bundle; its trampolines
/// are sixteen bytes apart; and the areas of the usual layout do not touch: a
/// heap of 64 megabytes, a stack of 8 that ends at its top, and the trampolines.
pub proof fn layouts_are_apart(cfg: MachineConfig, vfs: SandboxView)
    ensures
        machine::layout_of(cfg, vfs).argv0 == vfs.ios_prefix + seq!['/'] + vfs.bundle_name
            + "/Executable"@,
        machine::layout_of(cfg, vfs).trampoline_stride == 16,
        machine::layout_of(cfg, vfs).slide == cfg.slide,
        machine::layout_of(cfg, vfs).stack_top == cfg.stack_top.0,
        machine::layout_of(cfg, vfs).stack_size == cfg.stack_size,
        machine::layout_of(cfg, vfs).trampoline_base == cfg.trampoline_base.0,
        ({
            let c = machine::default_config();
            &&& c.heap_size == 64 * 0x10_0000
            &&& c.stack_size == 8 * 0x10_0000
            &&& c.slide == 0
            &&& c.heap_base.0 + c.heap_size <= c.stack_top.0 - c.stack_size
            &&& c.stack_top.0 <= c.trampoline_base.0
            &&& c.heap_base.0 > 0x1_0000_0000
        }),
{
    reveal_strlit("/");
    assert("/"@ =~= seq!['/']);
}

// ---- scripts ----------------------------------------------------------------

/// A scripted executor reports its events one after the other, without touching
/// the registers, and faults when there are none left; the native one always
/// faults, where the guest is.
pub proof fn scripts_are_replayed(e: EventView, rest: Seq<EventView>, c: CpuView)
    ensures
        ScriptedExecutor::event(seq![e] + rest, c) == e,
        ScriptedExecutor::after(seq![e] + rest, c) == rest,
        ScriptedExecutor::resumed(seq![e] + rest, c) == c,
        ScriptedExecutor::event(seq![], c) matches EventView::Fault { pc, .. } && pc == c.pc,
        NativeExecutor::event((), c) matches EventView::Fault { pc, .. } && pc == c.pc,
        NativeExecutor::resumed((), c) == c,
{
    assert((seq![e] + rest).drop_first() =~= rest);
}

/// A run goes from event to event: one that does not stop it is serviced and the
/// run goes on from there with the rest of the script; one that does ends it.
pub proof fn runs_service_every_event<W: HostEnvironment>(
    m: MachineView<W::State>,
    e: EventView,
    rest: Seq<EventView>,
)
    ensures
        ({
            let (after, stop) = machine::after_event::<W>(m, e);
            let run = machine::after_run::<W, ScriptedExecutor>(m, seq![e] + rest);
            match stop {
                Some(r) => run == (after, rest, r),
                None => run == machine::after_run::<W, ScriptedExecutor>(after, rest),
            }
        }),
        machine::after_run::<W, ScriptedExecutor>(m, seq![]).2 is Err,
{
    scripts_are_replayed(e, rest, m.cpu);
    let resumed = MachineView { cpu: m.cpu, ..m };
    assert(resumed == m);
}

// ---- the log ----------------------------------------------------------------

/// What is logged of a call, of an import that nothing implements and of a lazy
/// binding names the symbol.
pub proof fn log_lines_name_their_symbol(symbol: Seq<char>, a: u64, b: u64)
    ensures
        ({
            let call = machine::import_line(symbol, a, b);
            let missing = machine::missing_line(symbol);
            let lazy = machine::lazy_line(symbol, a, b);
            let n = symbol.len() as int;
            &&& call.text.take(5) == "call "@ && call.text.subrange(5, 5 + n) == symbol
            &&& call.level == LogLevel::Info && call.target == LogTarget::Import
            &&& missing.text.take(21) == "unimplemented import "@ && missing.text.subrange(
                21,
                21 + n,
            ) == symbol
            &&& missing.level == LogLevel::Warn && missing.target == LogTarget::Stub
            &&& lazy.text.take(10) == "lazy-bind "@ && lazy.text.subrange(10, 10 + n) == symbol
            &&& lazy.level == LogLevel::Info && lazy.target == LogTarget::Import
        }),
{
    reveal_strlit("call ");
    reveal_strlit("unimplemented import ");
    reveal_strlit("lazy-bind ");
    let n = symbol.len() as int;
    let call = machine::import_line(symbol, a, b).text;
    let missing = machine::missing_line(symbol).text;
    let lazy = machine::lazy_line(symbol, a, b).text;
    assert(call.take(5) =~= "call "@ && call.subrange(5, 5 + n) =~= symbol);
    assert(missing.take(21) =~= "unimplemented import "@ && missing.subrange(21, 21 + n)
        =~= symbol);
    assert(lazy.take(10) =~= "lazy-bind "@ && lazy.subrange(10, 10 + n) =~= symbol);
}

/// A null environment knows no symbol and does nothing.
pub proof fn null_environments_do_nothing(symbol: Seq<char>, g: GuestView)
    ensures
        NullEnvironment::called((), symbol, g) == ((), g, Dispatch::Unhandled),
        NullEnvironment::started((), g) == ((), g),
{
}

} // verus!
