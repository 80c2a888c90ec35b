//! Darwin syscall translation layer.
//!
//! The selector in `x16` names a BSD syscall (positive), a Mach trap (negative),
//! or carries an explicit class in bits 24..31. What is not implemented is
//! counted, logged and given a safe default.

pub mod errno;
pub mod laws;
pub mod mach;
pub mod meaning;
pub mod model;
pub mod numbers;
pub mod unix;

use vstd::prelude::*;

use crate::common::SyscallClass;
use crate::kernel::cpu::CpuContext;
use crate::kernel::fd::FdTable;
use crate::kernel::host;
use crate::kernel::host::{
    HostRequest, LogLevel, LogLine, LogTarget, LogView, Outcome, OutcomeView, RequestView,
};
use crate::kernel::syscall::errno::ENOSYS;
use crate::kernel::syscall::model::KernelView;
use crate::memory::GuestMemory;
use crate::text;
use crate::vfs::Sandbox;

verus! {

/// Everything a syscall handler may touch.
pub struct SyscallCtx<'a> {
    pub cpu: &'a mut CpuContext,
    pub mem: &'a mut GuestMemory,
    pub vfs: &'a Sandbox,
    pub fds: &'a mut FdTable,
    /// Set by `exit` to end the run loop.
    pub exit: &'a mut Option<i32>,
    /// What the guest wrote to its standard streams, and what it asked in vain.
    pub log: &'a mut Vec<LogLine>,
}

impl<'a> SyscallCtx<'a> {
    /// The state the handlers work on.
    pub open spec fn kernel(&self) -> KernelView {
        KernelView {
            cpu: (*self.cpu)@,
            mem: (*self.mem)@,
            vfs: (*self.vfs)@,
            fds: (*self.fds)@,
            exit: *self.exit,
            log: host::log_views((*self.log)@),
        }
    }
}

/// The class a class byte stands for.
pub open spec fn class_of(byte: u32) -> SyscallClass {
    if byte == 1 {
        SyscallClass::Mach
    } else if byte == 3 {
        SyscallClass::MachDep
    } else if byte == 4 {
        SyscallClass::Diag
    } else {
        SyscallClass::Unix
    }
}

/// The class and number a selector stands for.
pub open spec fn decoded(x16: u64) -> (SyscallClass, u32) {
    let raw = (x16 % 0x1_0000_0000) as u32;
    if x16 >= 0x8000_0000_0000_0000 {
        (SyscallClass::Mach, ((0x1_0000_0000_0000_0000 - x16) % 0x1_0000_0000) as u32)
    } else if raw >= 0x100_0000 {
        (class_of(raw / 0x100_0000), raw % 0x100_0000)
    } else {
        (SyscallClass::Unix, raw)
    }
}

/// Normalise a selector into a class and a number.
pub fn decode(x16: u64) -> (r: (SyscallClass, u32))
    ensures
        r == decoded(x16),
{
    if x16 >= 0x8000_0000_0000_0000 {
        let magnitude = u64::MAX - x16 + 1;
        return (SyscallClass::Mach, (magnitude % 0x1_0000_0000) as u32);
    }
    let raw = (x16 % 0x1_0000_0000) as u32;
    if raw >= 0x100_0000 {
        let byte = raw / 0x100_0000;
        let class = if byte == 1 {
            SyscallClass::Mach
        } else if byte == 3 {
            SyscallClass::MachDep
        } else if byte == 4 {
            SyscallClass::Diag
        } else {
            SyscallClass::Unix
        };
        (class, raw % 0x100_0000)
    } else {
        (SyscallClass::Unix, raw)
    }
}

/// What is logged of a syscall that nothing implements.
pub open spec fn stub_line(class: SyscallClass, number: u32) -> LogView {
    LogView {
        level: LogLevel::Trace,
        target: LogTarget::Stub,
        text: "STUB syscall "@ + class.spec_name() + "#"@ + text::dec(number as nat),
    }
}

/// Log a syscall that nothing implements.
fn stub_syscall(class: SyscallClass, number: u32, log: &mut Vec<LogLine>)
    ensures
        host::log_views(final(log)@) == host::log_views(old(log)@).push(stub_line(class, number)),
{
    let mut m = text::cat3("STUB syscall ", class.name(), "#");
    m.append(text::dec_string(number as u64).as_str());
    host::log_line(log, LogLevel::Trace, LogTarget::Stub, m);
}

/// Routes decoded syscalls to their handlers and counts them.
pub struct SyscallDispatcher {
    /// Syscalls serviced.
    pub serviced: u64,
    /// Syscalls that fell through to the generic stub.
    pub stubbed: u64,
}

impl SyscallDispatcher {
    /// What servicing one syscall does to the counters and to the kernel, and
    /// what it asks of the host. Without a request the result is in the
    /// register file.
    pub open spec fn dispatched(self, k: KernelView) -> (
        SyscallDispatcher,
        KernelView,
        Option<RequestView>,
    ) {
        let serviced = self.serviced.wrapping_add(1);
        let known = SyscallDispatcher { serviced, ..self };
        let unknown = SyscallDispatcher { serviced, stubbed: self.stubbed.wrapping_add(1) };
        let (class, number) = decoded(k.cpu.x[16]);
        let log = k.log.push(stub_line(class, number));
        match class {
            SyscallClass::Unix => match model::unix(number, k) {
                Some((after, OutcomeView::Done(r))) => (
                    known,
                    KernelView { cpu: after.cpu.with_result(r), ..after },
                    None,
                ),
                Some((after, OutcomeView::Host(request))) => (known, after, Some(request)),
                None => (
                    unknown,
                    KernelView { cpu: k.cpu.with_result(Err(ENOSYS)), log, ..k },
                    None,
                ),
            },
            SyscallClass::Mach => match mach::trap(number, k.cpu, k.mem) {
                Some((mem, v)) => (
                    known,
                    KernelView { cpu: k.cpu.with_result(Ok(v)), mem, ..k },
                    None,
                ),
                None => (unknown, KernelView { cpu: k.cpu.with_result(Ok(0)), log, ..k }, None),
            },
            _ => (unknown, KernelView { cpu: k.cpu.with_result(Ok(0)), log, ..k }, None),
        }
    }

    /// A dispatcher that has serviced nothing.
    pub fn new() -> (r: SyscallDispatcher)
        ensures
            r == (SyscallDispatcher { serviced: 0, stubbed: 0 }),
    {
        SyscallDispatcher { serviced: 0, stubbed: 0 }
    }

    /// Service one syscall, taking the selector from `x16`. The result is
    /// written back to the register file, unless the host has to be asked
    /// first.
    pub fn dispatch(&mut self, ctx: &mut SyscallCtx<'_>) -> (r: Option<HostRequest>)
        requires
            old(ctx).kernel().mem.wf(),
        ensures
            ({
                let (d, k, q) = old(self).dispatched(old(ctx).kernel());
                &&& *final(self) == d
                &&& final(ctx).kernel() == k
                &&& match q {
                    Some(request) => r matches Some(x) && x@ == request,
                    None => r is None,
                }
            }),
            final(ctx).kernel().mem.wf(),
            *final(final(ctx).cpu) == *final(old(ctx).cpu),
            *final(final(ctx).mem) == *final(old(ctx).mem),
            *final(final(ctx).fds) == *final(old(ctx).fds),
            *final(final(ctx).exit) == *final(old(ctx).exit),
            *final(final(ctx).log) == *final(old(ctx).log),
    {
        self.serviced = self.serviced.wrapping_add(1);
        let (class, number) = decode(ctx.cpu.x[16]);
        let result: Result<u64, u32> = match class {
            SyscallClass::Unix => match unix::handle(number, ctx) {
                Some(Outcome::Done(r)) => r,
                Some(Outcome::Host(request)) => {
                    return Some(request);
                },
                None => {
                    self.stubbed = self.stubbed.wrapping_add(1);
                    stub_syscall(class, number, ctx.log);
                    Err(ENOSYS)
                },
            },
            SyscallClass::Mach => match mach::handle(number, ctx) {
                Some(r) => r,
                None => {
                    self.stubbed = self.stubbed.wrapping_add(1);
                    stub_syscall(class, number, ctx.log);
                    Ok(0)
                },
            },
            _ => {
                self.stubbed = self.stubbed.wrapping_add(1);
                stub_syscall(class, number, ctx.log);
                Ok(0)
            },
        };
        ctx.cpu.set_syscall_result(result);
        None
    }
}

impl Default for SyscallDispatcher {
    fn default() -> (r: SyscallDispatcher)
        ensures
            r == (SyscallDispatcher { serviced: 0, stubbed: 0 }),
    {
        SyscallDispatcher::new()
    }
}

// ---- laws -------------------------------------------------------------------

/// Whatever a guest asks, every syscall is answered: it either leaves a result
/// in the register file or asks the host for something, it is counted, and it
/// is counted as stubbed exactly when nothing implements it; a stubbed syscall
/// is logged and changes nothing but the result.
pub proof fn unknown_syscalls_are_harmless(d: SyscallDispatcher, k: KernelView)
    ensures
        ({
            let (after, k2, q) = d.dispatched(k);
            &&& after.serviced == d.serviced.wrapping_add(1)
            &&& after.stubbed != d.stubbed ==> {
                &&& q is None
                &&& k2.log == k.log.push(
                    stub_line(decoded(k.cpu.x[16]).0, decoded(k.cpu.x[16]).1),
                )
                &&& k2 == (KernelView { cpu: k2.cpu, log: k2.log, ..k })
                &&& k2.cpu == k.cpu.with_result(Err(ENOSYS)) || k2.cpu == k.cpu.with_result(Ok(0))
            }
        }),
{
}

/// The three ways to name a BSD syscall or a Mach trap agree: a plain number
/// and one tagged with the BSD class, a negative number and one tagged with the
/// Mach class.
pub proof fn selector_forms_agree(number: u32)
    requires
        0 < number < 0x100_0000,
    ensures
        decoded(number as u64) == (SyscallClass::Unix, number),
        decoded((0x200_0000 + number) as u64) == (SyscallClass::Unix, number),
        decoded((0x1_0000_0000_0000_0000 - number) as u64) == (SyscallClass::Mach, number),
        decoded((0x100_0000 + number) as u64) == (SyscallClass::Mach, number),
        decoded((0x300_0000 + number) as u64) == (SyscallClass::MachDep, number),
        decoded((0x400_0000 + number) as u64) == (SyscallClass::Diag, number),
{
}

} // verus!
