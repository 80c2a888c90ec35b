//! What the syscalls do, as functions on the kernel's state.

use vstd::prelude::*;

use crate::bytes;
use crate::common::Protection;
use crate::kernel::cpu::CpuView;
use crate::kernel::fd;
use crate::kernel::fd::FdObject;
use crate::kernel::host::{
    LogLevel, LogTarget, LogView, OpenOptions, OutcomeView, ReplyView, RequestView, SeekPos,
};
use crate::kernel::syscall::errno;
use crate::kernel::syscall::errno::{
    EBADF, EFAULT, EINVAL, EIO, EMFILE, ENOENT, ENOMEM, ENOSYS, EROFS, ESPIPE,
};
use crate::kernel::syscall::numbers::{
    MAP_ANON, O_ACCMODE, O_APPEND, O_CREAT, O_EXCL, O_RDONLY, O_TRUNC, O_WRONLY, SYS_ACCESS,
    SYS_CLOSE, SYS_CLOSE_NOCANCEL, SYS_EXIT, SYS_FCNTL, SYS_GETEGID, SYS_GETENTROPY, SYS_GETEUID,
    SYS_GETGID, SYS_GETPID, SYS_GETTIMEOFDAY, SYS_GETUID, SYS_ISSETUGID, SYS_LSEEK, SYS_MADVISE,
    SYS_MMAP, SYS_MPROTECT, SYS_MUNMAP, SYS_OPEN, SYS_OPEN_NOCANCEL, SYS_READ, SYS_READ_NOCANCEL,
    SYS_WRITE, SYS_WRITEV, SYS_WRITE_NOCANCEL,
};
use crate::loader::dyld::leb;
use crate::memory::space::MemView;
use crate::text;
use crate::vfs::sandbox::SandboxView;

verus! {

/// Everything a syscall may touch.
#[verifier::ext_equal]
pub struct KernelView {
    pub cpu: CpuView,
    pub mem: MemView,
    pub vfs: SandboxView,
    pub fds: Map<i32, FdObject>,
    pub exit: Option<i32>,
    pub log: Seq<LogView>,
}

/// The low 32 bits of a register as a signed number.
pub open spec fn low32(x: u64) -> i32 {
    let m = x % 0x1_0000_0000;
    if m < 0x8000_0000 {
        m as i32
    } else {
        (m - 0x1_0000_0000) as i32
    }
}

/// Whether the bit of value `bit` is set in `x`.
pub open spec fn has_bit(x: u64, bit: u64) -> bool {
    x / bit % 2 == 1
}

pub open spec fn done(r: Result<u64, u32>) -> OutcomeView {
    OutcomeView::Done(r)
}

pub open spec fn fail(errno: u32) -> OutcomeView {
    OutcomeView::Done(Err(errno))
}

// ---- reading and writing ----------------------------------------------------

/// `read(fd, buf, count)`.
pub open spec fn sys_read(cpu: CpuView, mem: MemView, fds: Map<i32, FdObject>) -> (
    MemView,
    OutcomeView,
) {
    let fd = low32(cpu.x[0]);
    if !fds.contains_key(fd) {
        (mem, fail(EBADF))
    } else {
        match fds[fd] {
            FdObject::File(file) => (
                mem,
                OutcomeView::Host(RequestView::Read { file, buf: cpu.x[1], count: cpu.x[2] }),
            ),
            // There is no interactive input: the end of the stream at once.
            FdObject::Stdin => match mem.write(cpu.x[1], Seq::empty()) {
                (after, Ok(_)) => (after, done(Ok(0))),
                (_, Err(_)) => (mem, fail(EFAULT)),
            },
            _ => (mem, fail(EINVAL)),
        }
    }
}

/// The log line for bytes written to a standard stream.
pub open spec fn guest_line(data: Seq<u8>) -> LogView {
    LogView {
        level: LogLevel::Info,
        target: LogTarget::Guest,
        text: text::trim_end(text::utf8_lossy(data)),
    }
}

/// Deliver chunks to a descriptor; `result` is what the guest is told if all of
/// them are delivered. Standard streams go to the log.
pub open spec fn deliver(
    fds: Map<i32, FdObject>,
    fd: i32,
    chunks: Seq<Seq<u8>>,
    result: Result<u64, u32>,
) -> (Seq<LogView>, OutcomeView) {
    let none = Seq::<LogView>::empty();
    if chunks.len() == 0 {
        (none, done(result))
    } else if !fds.contains_key(fd) {
        (none, fail(EBADF))
    } else {
        match fds[fd] {
            FdObject::Stdout => (chunks.map_values(|c: Seq<u8>| guest_line(c)), done(result)),
            FdObject::Stderr => (chunks.map_values(|c: Seq<u8>| guest_line(c)), done(result)),
            FdObject::File(file) => (
                none,
                OutcomeView::Host(RequestView::Write { file, chunks, result }),
            ),
            _ => (none, fail(EINVAL)),
        }
    }
}

/// `write(fd, buf, count)`.
pub open spec fn sys_write(cpu: CpuView, mem: MemView, fds: Map<i32, FdObject>) -> (
    Seq<LogView>,
    OutcomeView,
) {
    match mem.read(cpu.x[1], cpu.x[2] as int) {
        Err(_) => (Seq::empty(), fail(EFAULT)),
        Ok(data) => deliver(fds, low32(cpu.x[0]), seq![data], Ok(cpu.x[2])),
    }
}

/// The chunks that `n` buffer descriptors from `iov` on name, up to the first
/// that cannot be read, and what comes of writing them: the sum of their
/// lengths added to `total`, or a fault.
pub open spec fn gather(mem: MemView, iov: u64, n: nat, total: u64) -> (
    Seq<Seq<u8>>,
    Result<u64, u32>,
)
    decreases n,
{
    if n == 0 {
        (Seq::empty(), Ok(total))
    } else {
        match (mem.read_u64(iov), mem.read_u64(iov.wrapping_add(8))) {
            (Ok(base), Ok(len)) => match mem.read(base, len as int) {
                Ok(data) => {
                    let (rest, r) = gather(
                        mem,
                        iov.wrapping_add(16),
                        (n - 1) as nat,
                        total.wrapping_add(len),
                    );
                    (seq![data] + rest, r)
                },
                Err(_) => (Seq::empty(), Err(EFAULT)),
            },
            _ => (Seq::empty(), Err(EFAULT)),
        }
    }
}

/// `writev(fd, iov, count)`.
pub open spec fn sys_writev(cpu: CpuView, mem: MemView, fds: Map<i32, FdObject>) -> (
    Seq<LogView>,
    OutcomeView,
) {
    let (chunks, result) = gather(mem, cpu.x[1], cpu.x[2] as nat, 0);
    deliver(fds, low32(cpu.x[0]), chunks, result)
}

// ---- files ------------------------------------------------------------------

/// The open options that `open` flags ask for.
pub open spec fn open_options(flags: u64) -> OpenOptions {
    let mode = flags % (O_ACCMODE + 1) as u64;
    OpenOptions {
        read: mode != O_WRONLY,
        write: mode != O_RDONLY,
        create: has_bit(flags, O_CREAT),
        truncate: has_bit(flags, O_TRUNC),
        append: has_bit(flags, O_APPEND),
        create_new: has_bit(flags, O_EXCL) && has_bit(flags, O_CREAT),
    }
}

/// `open(path, flags)`: nothing under the system image may be opened for
/// writing.
pub open spec fn sys_open(cpu: CpuView, mem: MemView, vfs: SandboxView) -> OutcomeView {
    match mem.read_cstr(cpu.x[0], 1024) {
        Err(_) => fail(EFAULT),
        Ok(ios_path) => match vfs.translate(ios_path) {
            Err(_) => fail(ENOENT),
            Ok((path, read_only)) => {
                let options = open_options(cpu.x[1]);
                if read_only && options.write {
                    fail(EROFS)
                } else {
                    OutcomeView::Host(RequestView::Open { path, options })
                }
            },
        },
    }
}

/// `close(fd)`.
pub open spec fn sys_close(cpu: CpuView, fds: Map<i32, FdObject>) -> (
    Map<i32, FdObject>,
    OutcomeView,
) {
    let d = low32(cpu.x[0]);
    if 0 <= d <= 2 {
        (fds, done(Ok(0)))
    } else if !fds.contains_key(d) {
        (fds, fail(EBADF))
    } else {
        match fds[d] {
            FdObject::File(file) => (
                fd::closed(fds, d),
                OutcomeView::Host(RequestView::Close { file }),
            ),
            FdObject::Dir(file) => (
                fd::closed(fds, d),
                OutcomeView::Host(RequestView::Close { file }),
            ),
            _ => (fd::closed(fds, d), done(Ok(0))),
        }
    }
}

/// `lseek(fd, offset, whence)`.
pub open spec fn sys_lseek(cpu: CpuView, fds: Map<i32, FdObject>) -> OutcomeView {
    let d = low32(cpu.x[0]);
    let offset = leb::signed64(cpu.x[1] as int);
    if !fds.contains_key(d) {
        fail(EBADF)
    } else {
        match fds[d] {
            FdObject::File(file) => if cpu.x[2] == 0 {
                OutcomeView::Host(RequestView::Seek { file, pos: SeekPos::Start(cpu.x[1]) })
            } else if cpu.x[2] == 1 {
                OutcomeView::Host(RequestView::Seek { file, pos: SeekPos::Current(offset) })
            } else if cpu.x[2] == 2 {
                OutcomeView::Host(RequestView::Seek { file, pos: SeekPos::End(offset) })
            } else {
                fail(EINVAL)
            },
            _ => fail(ESPIPE),
        }
    }
}

/// `access(path)`.
pub open spec fn sys_access(cpu: CpuView, mem: MemView, vfs: SandboxView) -> OutcomeView {
    match mem.read_cstr(cpu.x[0], 1024) {
        Err(_) => fail(EFAULT),
        Ok(ios_path) => match vfs.translate(ios_path) {
            Err(_) => fail(ENOENT),
            Ok((path, _)) => OutcomeView::Host(RequestView::Exists { path }),
        },
    }
}

// ---- memory, time, entropy --------------------------------------------------

/// What is logged of a file-backed mapping.
pub open spec fn mmap_line() -> LogView {
    LogView {
        level: LogLevel::Warn,
        target: LogTarget::Emulator,
        text: "mmap of file-backed mapping is not supported; returning ENOSYS"@,
    }
}

/// `mmap(addr, len, prot, flags)`: anonymous mappings only; others are logged.
pub open spec fn sys_mmap(cpu: CpuView, mem: MemView) -> (MemView, Seq<LogView>, OutcomeView) {
    if !has_bit(cpu.x[3], MAP_ANON) {
        (mem, seq![mmap_line()], fail(ENOSYS))
    } else {
        match mem.mmap_anon(cpu.x[1], Protection((cpu.x[2] % 8) as u8)) {
            (after, Ok(addr)) => (after, seq![], done(Ok(addr))),
            (after, Err(_)) => (after, seq![], fail(ENOMEM)),
        }
    }
}

/// `mprotect(addr, len, prot)`.
pub open spec fn sys_mprotect(cpu: CpuView, mem: MemView) -> (MemView, OutcomeView) {
    match mem.protect(cpu.x[0], Protection((cpu.x[2] % 8) as u8)) {
        (after, Ok(_)) => (after, done(Ok(0))),
        (after, Err(_)) => (after, fail(EINVAL)),
    }
}

/// `gettimeofday(tv)`.
pub open spec fn sys_gettimeofday(cpu: CpuView) -> OutcomeView {
    if cpu.x[0] == 0 {
        done(Ok(0))
    } else {
        OutcomeView::Host(RequestView::Time { tv: cpu.x[0] })
    }
}

/// `getentropy(buf, len)`: 256 bytes at most.
pub open spec fn sys_getentropy(cpu: CpuView) -> OutcomeView {
    if cpu.x[1] > 256 {
        fail(EINVAL)
    } else {
        OutcomeView::Host(RequestView::Entropy { buf: cpu.x[0], len: cpu.x[1] })
    }
}

// ---- dispatch ---------------------------------------------------------------

/// A BSD syscall; `None` if it is not implemented.
pub open spec fn unix(number: u32, k: KernelView) -> Option<(KernelView, OutcomeView)> {
    if number == SYS_EXIT {
        Some((KernelView { exit: Some(low32(k.cpu.x[0])), ..k }, done(Ok(0))))
    } else if number == SYS_READ || number == SYS_READ_NOCANCEL {
        let (mem, o) = sys_read(k.cpu, k.mem, k.fds);
        Some((KernelView { mem, ..k }, o))
    } else if number == SYS_WRITE || number == SYS_WRITE_NOCANCEL {
        let (lines, o) = sys_write(k.cpu, k.mem, k.fds);
        Some((KernelView { log: k.log + lines, ..k }, o))
    } else if number == SYS_WRITEV {
        let (lines, o) = sys_writev(k.cpu, k.mem, k.fds);
        Some((KernelView { log: k.log + lines, ..k }, o))
    } else if number == SYS_OPEN || number == SYS_OPEN_NOCANCEL {
        Some((k, sys_open(k.cpu, k.mem, k.vfs)))
    } else if number == SYS_CLOSE || number == SYS_CLOSE_NOCANCEL {
        let (fds, o) = sys_close(k.cpu, k.fds);
        Some((KernelView { fds, ..k }, o))
    } else if number == SYS_LSEEK {
        Some((k, sys_lseek(k.cpu, k.fds)))
    } else if number == SYS_ACCESS {
        Some((k, sys_access(k.cpu, k.mem, k.vfs)))
    } else if number == SYS_MMAP {
        let (mem, lines, o) = sys_mmap(k.cpu, k.mem);
        Some((KernelView { mem, log: k.log + lines, ..k }, o))
    } else if number == SYS_MPROTECT {
        let (mem, o) = sys_mprotect(k.cpu, k.mem);
        Some((KernelView { mem, ..k }, o))
    } else if number == SYS_MUNMAP || number == SYS_MADVISE || number == SYS_ISSETUGID || number
        == SYS_FCNTL {
        Some((k, done(Ok(0))))
    } else if number == SYS_GETPID {
        Some((k, done(Ok(1))))
    } else if number == SYS_GETUID || number == SYS_GETEUID || number == SYS_GETGID || number
        == SYS_GETEGID {
        Some((k, done(Ok(501))))
    } else if number == SYS_GETTIMEOFDAY {
        Some((k, sys_gettimeofday(k.cpu)))
    } else if number == SYS_GETENTROPY {
        Some((k, sys_getentropy(k.cpu)))
    } else {
        None
    }
}

// ---- completing a request ---------------------------------------------------

/// One step of the xorshift generator.
pub open spec fn xorshift(s: u64) -> u64 {
    let a = s ^ (s << 13u64);
    let b = a ^ (a >> 7u64);
    b ^ (b << 17u64)
}

/// At least `len` bytes of the generator's output, in whole words.
pub open spec fn random_bytes(s: u64, len: int) -> Seq<u8>
    decreases len + 8,
{
    if len <= 0 {
        Seq::empty()
    } else {
        bytes::le64_bytes(xorshift(s)) + random_bytes(xorshift(s), len - 8)
    }
}

/// The generator's seed for a clock reading; never zero.
pub open spec fn seed(nanos: Option<u64>) -> u64 {
    match nanos {
        Some(n) => n | 1,
        None => 0x9e37_79b9_7f4a_7c15,
    }
}

/// Write `data` at `buf` and answer `result`, or fault.
pub open spec fn store(mem: MemView, buf: u64, data: Seq<u8>, result: u64) -> (
    MemView,
    Result<u64, u32>,
) {
    match mem.write(buf, data) {
        (after, Ok(_)) => (after, Ok(result)),
        (_, Err(_)) => (mem, Err(EFAULT)),
    }
}

/// What the guest is told when the host has answered a request. A reply that
/// does not belong to the request is an I/O error.
pub open spec fn complete(k: KernelView, request: RequestView, reply: ReplyView) -> (
    KernelView,
    Result<u64, u32>,
) {
    match (request, reply) {
        (RequestView::Read { buf, count, .. }, ReplyView::Read(Ok(data))) => if data.len()
            > count {
            (k, Err(EIO))
        } else {
            let (mem, r) = store(k.mem, buf, data, data.len() as u64);
            (KernelView { mem, ..k }, r)
        },
        (RequestView::Read { .. }, ReplyView::Read(Err(e))) => (k, Err(errno::of_kind(e.kind))),
        (RequestView::Write { result, .. }, ReplyView::Written(Ok(_))) => (k, result),
        (RequestView::Write { .. }, ReplyView::Written(Err(e))) => (
            k,
            Err(errno::of_kind(e.kind)),
        ),
        (RequestView::Open { .. }, ReplyView::Opened(Ok(handle))) => match fd::lowest_free(k.fds) {
            Some(d) => (
                KernelView { fds: k.fds.insert(d, FdObject::File(handle)), ..k },
                Ok(d as u64),
            ),
            None => (k, Err(EMFILE)),
        },
        (RequestView::Open { .. }, ReplyView::Opened(Err(e))) => (k, Err(errno::of_kind(e.kind))),
        (RequestView::Close { .. }, ReplyView::Closed) => (k, Ok(0)),
        (RequestView::Seek { .. }, ReplyView::Position(Ok(pos))) => (k, Ok(pos)),
        (RequestView::Seek { .. }, ReplyView::Position(Err(e))) => (
            k,
            Err(errno::of_kind(e.kind)),
        ),
        (RequestView::Exists { .. }, ReplyView::Exists(yes)) => if yes {
            (k, Ok(0))
        } else {
            (k, Err(ENOENT))
        },
        (RequestView::Time { tv }, ReplyView::Clock { secs, micros }) => {
            match k.mem.write(tv, bytes::le64_bytes(secs)) {
                (_, Err(_)) => (k, Err(EFAULT)),
                (half, Ok(_)) => {
                    let (mem, r) = store(
                        half,
                        tv.wrapping_add(8),
                        bytes::le32_bytes(micros),
                        0,
                    );
                    (KernelView { mem, ..k }, r)
                },
            }
        },
        (RequestView::Entropy { buf, len }, ReplyView::Nanos(nanos)) => if len > 256 {
            (k, Err(EIO))
        } else {
            let data = random_bytes(seed(nanos), len as int).take(len as int);
            let (mem, r) = store(k.mem, buf, data, 0);
            (KernelView { mem, ..k }, r)
        },
        _ => (k, Err(EIO)),
    }
}

} // verus!
