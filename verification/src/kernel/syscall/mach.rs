//! Mach trap handlers.
//!
//! Most traps are serviced with plausible constants; allocation is wired to the
//! guest memory manager.

use vstd::prelude::*;

use crate::bytes;
use crate::common::{GuestAddr, Protection};
use crate::kernel::cpu::{CpuContext, CpuView};
use crate::kernel::syscall::model::KernelView;
use crate::kernel::syscall::SyscallCtx;
use crate::memory::space::MemView;
use crate::memory::GuestMemory;

verus! {

pub const MACH_VM_ALLOCATE_TRAP: u32 = 10;

pub const MACH_VM_DEALLOCATE_TRAP: u32 = 12;

pub const MACH_REPLY_PORT: u32 = 26;

pub const THREAD_SELF_TRAP: u32 = 27;

pub const TASK_SELF_TRAP: u32 = 28;

pub const HOST_SELF_TRAP: u32 = 29;

pub const MACH_MSG_TRAP: u32 = 31;

pub const MACH_MSG_OVERWRITE_TRAP: u32 = 32;

pub const SEMAPHORE_SIGNAL_TRAP: u32 = 33;

pub const SEMAPHORE_WAIT_TRAP: u32 = 36;

/// Port names handed to the guest, which only compares them.
pub const FAKE_TASK_PORT: u64 = 0x0000_0103;

pub const FAKE_HOST_PORT: u64 = 0x0000_0203;

pub const FAKE_THREAD_PORT: u64 = 0x0000_0303;

pub const FAKE_REPLY_PORT: u64 = 0x0000_0403;

pub const KERN_SUCCESS: u64 = 0;

pub const KERN_NO_SPACE: u64 = 3;

pub const KERN_INVALID_ADDRESS: u64 = 4;

/// Allocate anonymous memory of the size in `x2` and store its address where
/// `x1` points.
pub open spec fn allocated(cpu: CpuView, mem: MemView) -> (MemView, u64) {
    match mem.mmap_anon(cpu.x[2], Protection(3)) {
        (_, Err(_)) => (mem, KERN_NO_SPACE),
        (mapped, Ok(base)) => match mapped.write(cpu.x[1], bytes::le64_bytes(base)) {
            (_, Err(_)) => (mapped, KERN_INVALID_ADDRESS),
            (after, Ok(_)) => (after, KERN_SUCCESS),
        },
    }
}

/// A Mach trap by magnitude; `None` if it is not implemented.
pub open spec fn trap(number: u32, cpu: CpuView, mem: MemView) -> Option<(MemView, u64)> {
    if number == TASK_SELF_TRAP {
        Some((mem, FAKE_TASK_PORT))
    } else if number == HOST_SELF_TRAP {
        Some((mem, FAKE_HOST_PORT))
    } else if number == THREAD_SELF_TRAP {
        Some((mem, FAKE_THREAD_PORT))
    } else if number == MACH_REPLY_PORT {
        Some((mem, FAKE_REPLY_PORT))
    } else if number == MACH_MSG_TRAP || number == MACH_MSG_OVERWRITE_TRAP || number
        == SEMAPHORE_SIGNAL_TRAP || number == SEMAPHORE_WAIT_TRAP || number
        == MACH_VM_DEALLOCATE_TRAP {
        Some((mem, KERN_SUCCESS))
    } else if number == MACH_VM_ALLOCATE_TRAP {
        Some(allocated(cpu, mem))
    } else {
        None
    }
}

/// Dispatch a Mach trap by magnitude; `None` if it is not implemented. A trap
/// reports failure in its value, never as an error number.
pub fn handle(number: u32, ctx: &mut SyscallCtx<'_>) -> (r: Option<Result<u64, u32>>)
    requires
        old(ctx).kernel().mem.wf(),
    ensures
        match trap(number, old(ctx).kernel().cpu, old(ctx).kernel().mem) {
            Some((mem, v)) => r == Some(Ok::<u64, u32>(v)) && final(ctx).kernel() == (KernelView {
                mem,
                ..old(ctx).kernel()
            }),
            None => r is None && final(ctx).kernel() == old(ctx).kernel(),
        },
        final(ctx).kernel().mem.wf(),
        *final(final(ctx).cpu) == *final(old(ctx).cpu),
        *final(final(ctx).mem) == *final(old(ctx).mem),
        *final(final(ctx).fds) == *final(old(ctx).fds),
        *final(final(ctx).exit) == *final(old(ctx).exit),
        *final(final(ctx).log) == *final(old(ctx).log),
{
    if number == TASK_SELF_TRAP {
        Some(Ok(FAKE_TASK_PORT))
    } else if number == HOST_SELF_TRAP {
        Some(Ok(FAKE_HOST_PORT))
    } else if number == THREAD_SELF_TRAP {
        Some(Ok(FAKE_THREAD_PORT))
    } else if number == MACH_REPLY_PORT {
        Some(Ok(FAKE_REPLY_PORT))
    } else if number == MACH_MSG_TRAP || number == MACH_MSG_OVERWRITE_TRAP || number
        == SEMAPHORE_SIGNAL_TRAP || number == SEMAPHORE_WAIT_TRAP || number
        == MACH_VM_DEALLOCATE_TRAP {
        Some(Ok(KERN_SUCCESS))
    } else if number == MACH_VM_ALLOCATE_TRAP {
        Some(Ok(vm_allocate(ctx.cpu, ctx.mem)))
    } else {
        None
    }
}

fn vm_allocate(cpu: &CpuContext, mem: &mut GuestMemory) -> (r: u64)
    requires
        old(mem)@.wf(),
    ensures
        (final(mem)@, r) == allocated(cpu@, old(mem)@),
        final(mem)@.wf(),
{
    let addr_out = GuestAddr(cpu.arg(1));
    let size = cpu.arg(2);
    proof {
        crate::memory::space::anonymous_mappings_are_fresh(mem@, size, Protection(3));
    }
    match mem.mmap_anon(size, Protection::rw()) {
        Ok(base) => match mem.write_u64(addr_out, base.raw()) {
            Ok(_) => KERN_SUCCESS,
            Err(_) => KERN_INVALID_ADDRESS,
        },
        Err(_) => KERN_NO_SPACE,
    }
}

} // verus!
