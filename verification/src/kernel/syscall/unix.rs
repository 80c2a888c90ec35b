//! BSD syscall handlers.
//!
//! Each handler pulls its arguments from the register file, performs the effect
//! on guest memory or the descriptor table, and comes to a result or to a
//! request for the host.

use vstd::prelude::*;

use crate::bytes;
use crate::common::{GuestAddr, Protection};
use crate::kernel::cpu::CpuContext;
use crate::kernel::fd::{FdObject, FdTable};
use crate::kernel::host;
use crate::kernel::host::{
    HostReply, HostRequest, LogLevel, LogLine, LogTarget, OpenOptions, Outcome, SeekPos,
};
use crate::kernel::syscall::errno;
use crate::kernel::syscall::errno::{
    EBADF, EFAULT, EINVAL, EIO, EMFILE, ENOENT, ENOMEM, ENOSYS, EROFS, ESPIPE,
};
use crate::kernel::syscall::model;
use crate::kernel::syscall::numbers::{
    MAP_ANON, O_ACCMODE, O_APPEND, O_CREAT, O_EXCL, O_RDONLY, O_TRUNC, O_WRONLY, SYS_ACCESS,
    SYS_CLOSE, SYS_CLOSE_NOCANCEL, SYS_EXIT, SYS_FCNTL, SYS_GETEGID, SYS_GETENTROPY, SYS_GETEUID,
    SYS_GETGID, SYS_GETPID, SYS_GETTIMEOFDAY, SYS_GETUID, SYS_ISSETUGID, SYS_LSEEK, SYS_MADVISE,
    SYS_MMAP, SYS_MPROTECT, SYS_MUNMAP, SYS_OPEN, SYS_OPEN_NOCANCEL, SYS_READ, SYS_READ_NOCANCEL,
    SYS_WRITE, SYS_WRITEV, SYS_WRITE_NOCANCEL,
};
use crate::kernel::syscall::SyscallCtx;
use crate::loader::dyld::leb;
use crate::memory::GuestMemory;
use crate::text;
use crate::vfs::Sandbox;

verus! {

/// The low 32 bits of a register as a signed number.
pub fn low32(x: u64) -> (r: i32)
    ensures
        r == model::low32(x),
{
    assert(x as u32 == x % 0x1_0000_0000) by (bit_vector);
    let m = x as u32;
    assert(m < 0x8000_0000u32 ==> m as i32 == m) by (bit_vector);
    assert(m >= 0x8000_0000u32 ==> (m as i32) + 0x1_0000_0000 == m) by (bit_vector);
    m as i32
}

/// `read(fd, buf, count)`.
fn sys_read(cpu: &CpuContext, mem: &mut GuestMemory, fds: &FdTable) -> (r: Outcome)
    requires
        old(mem)@.wf(),
    ensures
        (final(mem)@, r@) == model::sys_read(cpu@, old(mem)@, fds@),
        final(mem)@.wf(),
{
    match fds.get(low32(cpu.arg(0))) {
        Some(FdObject::File(file)) => {
            let buf = cpu.arg(1);
            let count = cpu.arg(2);
            Outcome::Host(HostRequest::Read { file, buf, count })
        },
        Some(FdObject::Stdin) => {
            let none: Vec<u8> = Vec::new();
            assert(none@ =~= Seq::empty());
            match mem.write(GuestAddr(cpu.arg(1)), none.as_slice()) {
                Ok(_) => Outcome::Done(Ok(0)),
                Err(_) => Outcome::Done(Err(EFAULT)),
            }
        },
        Some(_) => Outcome::Done(Err(EINVAL)),
        None => Outcome::Done(Err(EBADF)),
    }
}

/// Deliver chunks to a descriptor: standard streams go to the log, files to the
/// host.
fn deliver(
    fds: &FdTable,
    fd: i32,
    chunks: Vec<Vec<u8>>,
    result: Result<u64, u32>,
    log: &mut Vec<LogLine>,
) -> (r: Outcome)
    ensures
        ({
            let (lines, o) = model::deliver(fds@, fd, host::chunk_views(chunks@), result);
            r@ == o && host::log_views(final(log)@) == host::log_views(old(log)@) + lines
        }),
{
    let ghost first = host::log_views(log@);
    let ghost all = host::chunk_views(chunks@);
    assert(first + Seq::empty() =~= first);
    if chunks.len() == 0 {
        return Outcome::Done(result);
    }
    match fds.get(fd) {
        Some(FdObject::Stdout) | Some(FdObject::Stderr) => {
            let mut i: usize = 0;
            assert(first + all.take(0).map_values(|c: Seq<u8>| model::guest_line(c)) =~= first);
            while i < chunks.len()
                invariant
                    i <= chunks@.len(),
                    all == host::chunk_views(chunks@),
                    host::log_views(log@) == first + all.take(i as int).map_values(
                        |c: Seq<u8>| model::guest_line(c),
                    ),
                decreases chunks@.len() - i,
            {
                let s = text::from_utf8_lossy(chunks[i].as_slice());
                let line = text::end_trimmed(s.as_str());
                assert(all[i as int] == chunks@[i as int]@);
                host::log_line(log, LogLevel::Info, LogTarget::Guest, line);
                assert(host::log_views(log@) =~= first + all.take(i + 1).map_values(
                    |c: Seq<u8>| model::guest_line(c),
                ));
                i += 1;
            }
            assert(all.take(i as int) =~= all);
            Outcome::Done(result)
        },
        Some(FdObject::File(file)) => Outcome::Host(HostRequest::Write { file, chunks, result }),
        Some(_) => Outcome::Done(Err(EINVAL)),
        None => Outcome::Done(Err(EBADF)),
    }
}

/// `write(fd, buf, count)`.
fn sys_write(cpu: &CpuContext, mem: &GuestMemory, fds: &FdTable, log: &mut Vec<LogLine>) -> (r:
    Outcome)
    ensures
        ({
            let (lines, o) = model::sys_write(cpu@, mem@, fds@);
            r@ == o && host::log_views(final(log)@) == host::log_views(old(log)@) + lines
        }),
{
    let count = cpu.arg(2);
    match mem.read_vec(GuestAddr(cpu.arg(1)), count) {
        Ok(data) => {
            let chunks = vec![data];
            assert(host::chunk_views(chunks@) =~= seq![data@]);
            deliver(fds, low32(cpu.arg(0)), chunks, Ok(count), log)
        },
        Err(_) => {
            assert(host::log_views(log@) + Seq::empty() =~= host::log_views(log@));
            Outcome::Done(Err(EFAULT))
        },
    }
}

/// Read the chunks that buffer descriptors name.
fn gather(mem: &GuestMemory, iov: u64, count: u64) -> (r: (Vec<Vec<u8>>, Result<u64, u32>))
    ensures
        (host::chunk_views(r.0@), r.1) == model::gather(mem@, iov, count as nat, 0),
{
    let mut chunks: Vec<Vec<u8>> = Vec::new();
    let mut cur: u64 = iov;
    let mut left: u64 = count;
    let mut total: u64 = 0;
    let ghost whole = model::gather(mem@, iov, count as nat, 0);
    assert(host::chunk_views(chunks@) + whole.0 =~= whole.0);
    while left > 0
        invariant
            whole == model::gather(mem@, iov, count as nat, 0),
            ({
                let (rest, r) = model::gather(mem@, cur, left as nat, total);
                whole == (host::chunk_views(chunks@) + rest, r)
            }),
        decreases left,
    {
        let ghost before = host::chunk_views(chunks@);
        assert(before + Seq::empty() =~= before);
        let base = match mem.read_u64(GuestAddr(cur)) {
            Ok(v) => v,
            Err(_) => {
                return (chunks, Err(EFAULT));
            },
        };
        let len = match mem.read_u64(GuestAddr(cur) + 8) {
            Ok(v) => v,
            Err(_) => {
                return (chunks, Err(EFAULT));
            },
        };
        let data = match mem.read_vec(GuestAddr(base), len) {
            Ok(v) => v,
            Err(_) => {
                return (chunks, Err(EFAULT));
            },
        };
        chunks.push(data);
        proof {
            assert(host::chunk_views(chunks@) =~= before.push(data@));
            let rest = model::gather(
                mem@,
                cur.wrapping_add(16),
                (left - 1) as nat,
                total.wrapping_add(len),
            ).0;
            assert(before + (seq![data@] + rest) =~= before.push(data@) + rest);
        }
        total = total.wrapping_add(len);
        cur = cur.wrapping_add(16);
        left -= 1;
    }
    assert(host::chunk_views(chunks@) + Seq::empty() =~= host::chunk_views(chunks@));
    (chunks, Ok(total))
}

/// `writev(fd, iov, count)`.
fn sys_writev(cpu: &CpuContext, mem: &GuestMemory, fds: &FdTable, log: &mut Vec<LogLine>) -> (r:
    Outcome)
    ensures
        ({
            let (lines, o) = model::sys_writev(cpu@, mem@, fds@);
            r@ == o && host::log_views(final(log)@) == host::log_views(old(log)@) + lines
        }),
{
    let (chunks, result) = gather(mem, cpu.arg(1), cpu.arg(2));
    deliver(fds, low32(cpu.arg(0)), chunks, result, log)
}

/// The open options that `open` flags ask for.
pub fn open_options(flags: u64) -> (r: OpenOptions)
    ensures
        r == model::open_options(flags),
{
    let mode = flags % (O_ACCMODE + 1);
    OpenOptions {
        read: mode != O_WRONLY,
        write: mode != O_RDONLY,
        create: flags / O_CREAT % 2 == 1,
        truncate: flags / O_TRUNC % 2 == 1,
        append: flags / O_APPEND % 2 == 1,
        create_new: flags / O_EXCL % 2 == 1 && flags / O_CREAT % 2 == 1,
    }
}

/// `open(path, flags)`.
fn sys_open(cpu: &CpuContext, mem: &GuestMemory, vfs: &Sandbox) -> (r: Outcome)
    ensures
        r@ == model::sys_open(cpu@, mem@, vfs@),
{
    let ios_path = match mem.read_cstr(GuestAddr(cpu.arg(0)), 1024) {
        Ok(p) => p,
        Err(_) => {
            return Outcome::Done(Err(EFAULT));
        },
    };
    match vfs.translate(ios_path.as_str()) {
        Ok((path, read_only)) => {
            let options = open_options(cpu.arg(1));
            if read_only && options.write {
                return Outcome::Done(Err(EROFS));
            }
            Outcome::Host(HostRequest::Open { path, options })
        },
        Err(_) => Outcome::Done(Err(ENOENT)),
    }
}

/// `close(fd)`.
fn sys_close(cpu: &CpuContext, fds: &mut FdTable) -> (r: Outcome)
    ensures
        (final(fds)@, r@) == model::sys_close(cpu@, old(fds)@),
{
    let fd = low32(cpu.arg(0));
    let object = fds.get(fd);
    let std_stream = 0 <= fd && fd <= 2;
    if !fds.close(fd) {
        assert(fds@ =~= old(fds)@);
        return Outcome::Done(Err(EBADF));
    }
    if std_stream {
        return Outcome::Done(Ok(0));
    }
    match object {
        Some(FdObject::File(file)) => Outcome::Host(HostRequest::Close { file }),
        Some(FdObject::Dir(file)) => Outcome::Host(HostRequest::Close { file }),
        _ => Outcome::Done(Ok(0)),
    }
}

/// `lseek(fd, offset, whence)`.
fn sys_lseek(cpu: &CpuContext, fds: &FdTable) -> (r: Outcome)
    ensures
        r@ == model::sys_lseek(cpu@, fds@),
{
    let offset = cpu.arg(1);
    let whence = cpu.arg(2);
    match fds.get(low32(cpu.arg(0))) {
        Some(FdObject::File(file)) => {
            let pos = if whence == 0 {
                SeekPos::Start(offset)
            } else if whence == 1 {
                SeekPos::Current(leb::to_signed(offset))
            } else if whence == 2 {
                SeekPos::End(leb::to_signed(offset))
            } else {
                return Outcome::Done(Err(EINVAL));
            };
            Outcome::Host(HostRequest::Seek { file, pos })
        },
        Some(_) => Outcome::Done(Err(ESPIPE)),
        None => Outcome::Done(Err(EBADF)),
    }
}

/// `access(path)`.
fn sys_access(cpu: &CpuContext, mem: &GuestMemory, vfs: &Sandbox) -> (r: Outcome)
    ensures
        r@ == model::sys_access(cpu@, mem@, vfs@),
{
    let ios_path = match mem.read_cstr(GuestAddr(cpu.arg(0)), 1024) {
        Ok(p) => p,
        Err(_) => {
            return Outcome::Done(Err(EFAULT));
        },
    };
    match vfs.translate(ios_path.as_str()) {
        Ok((path, _)) => Outcome::Host(HostRequest::Exists { path }),
        Err(_) => Outcome::Done(Err(ENOENT)),
    }
}

/// `mmap(addr, len, prot, flags)`.
fn sys_mmap(cpu: &CpuContext, mem: &mut GuestMemory, log: &mut Vec<LogLine>) -> (r: Outcome)
    requires
        old(mem)@.wf(),
    ensures
        ({
            let (m, lines, o) = model::sys_mmap(cpu@, old(mem)@);
            &&& final(mem)@ == m
            &&& r@ == o
            &&& host::log_views(final(log)@) == host::log_views(old(log)@) + lines
        }),
        final(mem)@.wf(),
{
    if cpu.arg(3) / MAP_ANON % 2 == 0 {
        let line = "mmap of file-backed mapping is not supported; returning ENOSYS".to_owned();
        host::log_line(log, LogLevel::Warn, LogTarget::Emulator, line);
        return Outcome::Done(Err(ENOSYS));
    }
    assert(host::log_views(log@) + Seq::empty() =~= host::log_views(log@));
    match mem.mmap_anon(cpu.arg(1), Protection((cpu.arg(2) % 8) as u8)) {
        Ok(addr) => Outcome::Done(Ok(addr.raw())),
        Err(_) => Outcome::Done(Err(ENOMEM)),
    }
}

/// `mprotect(addr, len, prot)`.
fn sys_mprotect(cpu: &CpuContext, mem: &mut GuestMemory) -> (r: Outcome)
    requires
        old(mem)@.wf(),
    ensures
        (final(mem)@, r@) == model::sys_mprotect(cpu@, old(mem)@),
        final(mem)@.wf(),
{
    match mem.protect(GuestAddr(cpu.arg(0)), Protection((cpu.arg(2) % 8) as u8)) {
        Ok(_) => Outcome::Done(Ok(0)),
        Err(_) => Outcome::Done(Err(EINVAL)),
    }
}

/// `gettimeofday(tv)`.
fn sys_gettimeofday(cpu: &CpuContext) -> (r: Outcome)
    ensures
        r@ == model::sys_gettimeofday(cpu@),
{
    let tv = cpu.arg(0);
    if tv == 0 {
        return Outcome::Done(Ok(0));
    }
    Outcome::Host(HostRequest::Time { tv })
}

/// `getentropy(buf, len)`.
fn sys_getentropy(cpu: &CpuContext) -> (r: Outcome)
    ensures
        r@ == model::sys_getentropy(cpu@),
{
    let buf = cpu.arg(0);
    let len = cpu.arg(1);
    if len > 256 {
        return Outcome::Done(Err(EINVAL));
    }
    Outcome::Host(HostRequest::Entropy { buf, len })
}

/// Dispatch a BSD syscall by number; `None` if it is not implemented.
pub fn handle(number: u32, ctx: &mut SyscallCtx<'_>) -> (r: Option<Outcome>)
    requires
        old(ctx).kernel().mem.wf(),
    ensures
        match model::unix(number, old(ctx).kernel()) {
            Some((k, o)) => r matches Some(x) && x@ == o && final(ctx).kernel() == k,
            None => r is None && final(ctx).kernel() == old(ctx).kernel(),
        },
        final(ctx).kernel().mem.wf(),
        *final(final(ctx).cpu) == *final(old(ctx).cpu),
        *final(final(ctx).mem) == *final(old(ctx).mem),
        *final(final(ctx).fds) == *final(old(ctx).fds),
        *final(final(ctx).exit) == *final(old(ctx).exit),
        *final(final(ctx).log) == *final(old(ctx).log),
{
    if number == SYS_EXIT {
        *ctx.exit = Some(low32(ctx.cpu.arg(0)));
        Some(Outcome::Done(Ok(0)))
    } else if number == SYS_READ || number == SYS_READ_NOCANCEL {
        Some(sys_read(ctx.cpu, ctx.mem, ctx.fds))
    } else if number == SYS_WRITE || number == SYS_WRITE_NOCANCEL {
        Some(sys_write(ctx.cpu, ctx.mem, ctx.fds, ctx.log))
    } else if number == SYS_WRITEV {
        Some(sys_writev(ctx.cpu, ctx.mem, ctx.fds, ctx.log))
    } else if number == SYS_OPEN || number == SYS_OPEN_NOCANCEL {
        Some(sys_open(ctx.cpu, ctx.mem, ctx.vfs))
    } else if number == SYS_CLOSE || number == SYS_CLOSE_NOCANCEL {
        Some(sys_close(ctx.cpu, ctx.fds))
    } else if number == SYS_LSEEK {
        Some(sys_lseek(ctx.cpu, ctx.fds))
    } else if number == SYS_ACCESS {
        Some(sys_access(ctx.cpu, ctx.mem, ctx.vfs))
    } else if number == SYS_MMAP {
        Some(sys_mmap(ctx.cpu, ctx.mem, ctx.log))
    } else if number == SYS_MPROTECT {
        Some(sys_mprotect(ctx.cpu, ctx.mem))
    } else if number == SYS_MUNMAP || number == SYS_MADVISE || number == SYS_ISSETUGID || number
        == SYS_FCNTL {
        Some(Outcome::Done(Ok(0)))
    } else if number == SYS_GETPID {
        Some(Outcome::Done(Ok(1)))
    } else if number == SYS_GETUID || number == SYS_GETEUID || number == SYS_GETGID || number
        == SYS_GETEGID {
        Some(Outcome::Done(Ok(501)))
    } else if number == SYS_GETTIMEOFDAY {
        Some(sys_gettimeofday(ctx.cpu))
    } else if number == SYS_GETENTROPY {
        Some(sys_getentropy(ctx.cpu))
    } else {
        None
    }
}

// ---- completing a request ---------------------------------------------------

/// One step of the xorshift generator.
fn xorshift(s: u64) -> (r: u64)
    ensures
        r == model::xorshift(s),
{
    let a = s ^ (s << 13u64);
    let b = a ^ (a >> 7u64);
    b ^ (b << 17u64)
}

/// `len` bytes of the generator's output.
fn random_bytes(seed: u64, len: usize) -> (r: Vec<u8>)
    requires
        len <= 256,
    ensures
        r@ == model::random_bytes(seed, len as int).take(len as int),
{
    let mut out: Vec<u8> = Vec::new();
    let mut state: u64 = seed;
    let ghost whole = model::random_bytes(seed, len as int);
    assert(out@ + whole =~= whole);
    while out.len() < len
        invariant
            len <= 256,
            out@.len() <= len + 7,
            whole == model::random_bytes(seed, len as int),
            whole == out@ + model::random_bytes(state, len - out@.len()),
        decreases len + 8 - out@.len(),
    {
        let ghost before = out@;
        let ghost left = len - out@.len();
        state = xorshift(state);
        let mut word = bytes::put_le64(state);
        let ghost w = word@;
        out.append(&mut word);
        proof {
            let rest = model::random_bytes(state, left - 8);
            assert(before + (w + rest) =~= out@ + rest);
        }
    }
    assert(whole =~= out@);
    out.truncate(len);
    assert(out@ =~= whole.take(len as int));
    out
}

fn store(mem: &mut GuestMemory, buf: u64, data: &[u8], result: u64) -> (r: Result<u64, u32>)
    requires
        old(mem)@.wf(),
    ensures
        (final(mem)@, r) == model::store(old(mem)@, buf, data@, result),
        final(mem)@.wf(),
{
    match mem.write(GuestAddr(buf), data) {
        Ok(_) => Ok(result),
        Err(_) => Err(EFAULT),
    }
}

/// Write the time to the guest structure `tv`.
fn store_time(mem: &mut GuestMemory, tv: u64, secs: u64, micros: u32) -> (r: Result<u64, u32>)
    requires
        old(mem)@.wf(),
    ensures
        (final(mem)@, r) == (match old(mem)@.write(tv, bytes::le64_bytes(secs)) {
            (_, Err(_)) => (old(mem)@, Err(EFAULT)),
            (half, Ok(_)) => model::store(half, tv.wrapping_add(8), bytes::le32_bytes(micros), 0),
        }),
        final(mem)@.wf(),
{
    match mem.write_u64(GuestAddr(tv), secs) {
        Ok(_) => {},
        Err(_) => {
            return Err(EFAULT);
        },
    }
    let m = bytes::put_le32(micros);
    store(mem, (GuestAddr(tv) + 8).raw(), m.as_slice(), 0)
}

/// Give a new file the lowest free descriptor.
fn install(fds: &mut FdTable, handle: u64) -> (r: Result<u64, u32>)
    ensures
        match crate::kernel::fd::lowest_free(old(fds)@) {
            Some(d) => r == Ok::<u64, u32>(d as u64) && final(fds)@ == old(fds)@.insert(
                d,
                FdObject::File(handle),
            ),
            None => r == Err::<u64, u32>(EMFILE) && final(fds)@ == old(fds)@,
        },
{
    match fds.lowest_free() {
        Some(d) => {
            proof {
                crate::kernel::fd::descriptors_are_fresh(fds@, FdObject::File(handle), 0);
            }
            fds.insert(FdObject::File(handle));
            Ok(d as u64)
        },
        None => Err(EMFILE),
    }
}

/// What the guest is told when the host has answered a request.
pub fn complete(
    mem: &mut GuestMemory,
    fds: &mut FdTable,
    request: &HostRequest,
    reply: HostReply,
) -> (r: Result<u64, u32>)
    requires
        old(mem)@.wf(),
    ensures
        forall|k: model::KernelView|
            #![trigger model::complete(k, request@, reply@)]
            k.mem == old(mem)@ && k.fds == old(fds)@ ==> model::complete(k, request@, reply@) == (
                model::KernelView { mem: final(mem)@, fds: final(fds)@, ..k },
                r,
            ),
        final(mem)@.wf(),
{
    match (request, reply) {
        (HostRequest::Read { buf, count, .. }, HostReply::Read(Ok(data))) => {
            if data.len() as u64 > *count {
                return Err(EIO);
            }
            store(mem, *buf, data.as_slice(), data.len() as u64)
        },
        (HostRequest::Read { .. }, HostReply::Read(Err(e))) => Err(errno::from_io(&e)),
        (HostRequest::Write { result, .. }, HostReply::Written(Ok(_))) => *result,
        (HostRequest::Write { .. }, HostReply::Written(Err(e))) => Err(errno::from_io(&e)),
        (HostRequest::Open { .. }, HostReply::Opened(Ok(handle))) => install(fds, handle),
        (HostRequest::Open { .. }, HostReply::Opened(Err(e))) => Err(errno::from_io(&e)),
        (HostRequest::Close { .. }, HostReply::Closed) => Ok(0),
        (HostRequest::Seek { .. }, HostReply::Position(Ok(pos))) => Ok(pos),
        (HostRequest::Seek { .. }, HostReply::Position(Err(e))) => Err(errno::from_io(&e)),
        (HostRequest::Exists { .. }, HostReply::Exists(yes)) => {
            if yes {
                Ok(0)
            } else {
                Err(ENOENT)
            }
        },
        (HostRequest::Time { tv }, HostReply::Clock { secs, micros }) => {
            store_time(mem, *tv, secs, micros)
        },
        (HostRequest::Entropy { buf, len }, HostReply::Nanos(nanos)) => {
            if *len > 256 {
                return Err(EIO);
            }
            let seed: u64 = match nanos {
                Some(n) => n | 1,
                None => 0x9e37_79b9_7f4a_7c15,
            };
            let data = random_bytes(seed, *len as usize);
            store(mem, *buf, data.as_slice(), 0)
        },
        _ => Err(EIO),
    }
}

} // verus!
