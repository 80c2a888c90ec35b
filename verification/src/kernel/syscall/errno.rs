//! Darwin error numbers returned to the guest; several differ from Linux.

use vstd::prelude::*;

use crate::common::{IoError, IoErrorKind};

verus! {

pub const EPERM: u32 = 1;

pub const ENOENT: u32 = 2;

pub const ESRCH: u32 = 3;

pub const EINTR: u32 = 4;

pub const EIO: u32 = 5;

pub const ENXIO: u32 = 6;

pub const EBADF: u32 = 9;

pub const ECHILD: u32 = 10;

pub const EDEADLK: u32 = 11;

pub const ENOMEM: u32 = 12;

pub const EACCES: u32 = 13;

pub const EFAULT: u32 = 14;

pub const EBUSY: u32 = 16;

pub const EEXIST: u32 = 17;

pub const ENODEV: u32 = 19;

pub const ENOTDIR: u32 = 20;

pub const EISDIR: u32 = 21;

pub const EINVAL: u32 = 22;

pub const ENFILE: u32 = 23;

pub const EMFILE: u32 = 24;

pub const ENOSPC: u32 = 28;

pub const ESPIPE: u32 = 29;

pub const EROFS: u32 = 30;

pub const EAGAIN: u32 = 35;

pub const ENOSYS: u32 = 78;

/// The closest Darwin error number for a kind of host error.
pub open spec fn of_kind(kind: IoErrorKind) -> u32 {
    match kind {
        IoErrorKind::NotFound => ENOENT,
        IoErrorKind::PermissionDenied => EACCES,
        IoErrorKind::AlreadyExists => EEXIST,
        IoErrorKind::WouldBlock => EAGAIN,
        IoErrorKind::InvalidInput => EINVAL,
        IoErrorKind::BrokenPipe => ESPIPE,
        IoErrorKind::Other => EIO,
    }
}

/// Map a host I/O error to the closest Darwin error number.
pub fn from_io(e: &IoError) -> (r: u32)
    ensures
        r == of_kind(e.kind),
{
    match e.kind {
        IoErrorKind::NotFound => ENOENT,
        IoErrorKind::PermissionDenied => EACCES,
        IoErrorKind::AlreadyExists => EEXIST,
        IoErrorKind::WouldBlock => EAGAIN,
        IoErrorKind::InvalidInput => EINVAL,
        IoErrorKind::BrokenPipe => ESPIPE,
        IoErrorKind::Other => EIO,
    }
}

} // verus!
