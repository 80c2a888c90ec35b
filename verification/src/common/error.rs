//! The single error type threaded through the whole emulator.

use vstd::prelude::*;

use crate::text;

verus! {

/// `Result` with the emulator's error.
pub type EmuResult<T> = Result<T, EmuError>;

/// What a host I/O operation failed with, as far as the guest is told.
#[derive(Clone, Copy, Debug, PartialEq, Eq, Structural)]
pub enum IoErrorKind {
    NotFound,
    PermissionDenied,
    AlreadyExists,
    WouldBlock,
    InvalidInput,
    BrokenPipe,
    Other,
}

/// A host I/O error: its kind, and the host's description of it.
#[derive(Debug)]
pub struct IoError {
    pub kind: IoErrorKind,
    pub message: String,
}

/// Mathematical view of [`IoError`].
#[verifier::ext_equal]
pub struct IoErrorView {
    pub kind: IoErrorKind,
    pub message: Seq<char>,
}

impl View for IoError {
    type V = IoErrorView;

    open spec fn view(&self) -> IoErrorView {
        IoErrorView { kind: self.kind, message: self.message@ }
    }
}

/// Which syscall ABI a number belongs to.
#[derive(Clone, Copy, Debug, PartialEq, Eq, Structural)]
pub enum SyscallClass {
    /// BSD syscalls.
    Unix,
    /// Mach traps (negative numbers).
    Mach,
    /// Platform-specific class.
    MachDep,
    /// Diagnostics class.
    Diag,
}

impl SyscallClass {
    /// The class' printed name.
    pub open spec fn spec_name(self) -> Seq<char> {
        match self {
            SyscallClass::Unix => "unix"@,
            SyscallClass::Mach => "mach"@,
            SyscallClass::MachDep => "machdep"@,
            SyscallClass::Diag => "diag"@,
        }
    }

    /// The class' printed name.
    pub fn name(self) -> (r: &'static str)
        ensures
            r@ == self.spec_name(),
    {
        match self {
            SyscallClass::Unix => "unix",
            SyscallClass::Mach => "mach",
            SyscallClass::MachDep => "machdep",
            SyscallClass::Diag => "diag",
        }
    }
}

/// A structured error covering every failure domain in the emulator.
#[derive(Debug)]
pub enum EmuError {
    /// The Mach-O / FAT container was structurally invalid.
    MachO(String),
    /// Dynamic-linker resolution failed.
    Dyld(String),
    /// Guest memory access was out of bounds or violated protections.
    Memory { addr: u64, reason: &'static str },
    /// A syscall that is not implemented and cannot safely be stubbed.
    UnsupportedSyscall { class: SyscallClass, number: u32 },
    /// Virtual filesystem or sandbox error.
    Vfs(String),
    /// Bundle metadata could not be parsed.
    Plist(String),
    /// The archive could not be read.
    Archive(String),
    /// Objective-C runtime error.
    ObjC(String),
    /// Underlying host I/O error.
    Io(IoError),
    /// An invariant of the emulator itself was violated.
    Internal(String),
}

/// Mathematical view of [`EmuError`].
#[verifier::ext_equal]
pub enum ErrorView {
    MachO(Seq<char>),
    Dyld(Seq<char>),
    Memory { addr: u64, reason: Seq<char> },
    UnsupportedSyscall { class: SyscallClass, number: u32 },
    Vfs(Seq<char>),
    Plist(Seq<char>),
    Archive(Seq<char>),
    ObjC(Seq<char>),
    Io(IoErrorView),
    Internal(Seq<char>),
}

impl View for EmuError {
    type V = ErrorView;

    open spec fn view(&self) -> ErrorView {
        match *self {
            EmuError::MachO(m) => ErrorView::MachO(m@),
            EmuError::Dyld(m) => ErrorView::Dyld(m@),
            EmuError::Memory { addr, reason } => ErrorView::Memory { addr, reason: reason@ },
            EmuError::UnsupportedSyscall { class, number } => ErrorView::UnsupportedSyscall {
                class,
                number,
            },
            EmuError::Vfs(m) => ErrorView::Vfs(m@),
            EmuError::Plist(m) => ErrorView::Plist(m@),
            EmuError::Archive(m) => ErrorView::Archive(m@),
            EmuError::ObjC(m) => ErrorView::ObjC(m@),
            EmuError::Io(e) => ErrorView::Io(e@),
            EmuError::Internal(m) => ErrorView::Internal(m@),
        }
    }
}

impl ErrorView {
    /// The printed form of an error.
    pub open spec fn message(self) -> Seq<char> {
        match self {
            ErrorView::MachO(m) => "mach-o: "@ + m,
            ErrorView::Dyld(m) => "dyld: "@ + m,
            ErrorView::Memory { addr, reason } => "memory fault @ "@ + text::address_text(addr)
                + ": "@ + reason,
            ErrorView::UnsupportedSyscall { class, number } => "unsupported "@ + class.spec_name()
                + " syscall #"@ + text::dec(number as nat),
            ErrorView::Vfs(m) => "vfs: "@ + m,
            ErrorView::Plist(m) => "plist: "@ + m,
            ErrorView::Archive(m) => "archive: "@ + m,
            ErrorView::ObjC(m) => "objc: "@ + m,
            ErrorView::Io(e) => "io: "@ + e.message,
            ErrorView::Internal(m) => "internal: "@ + m,
        }
    }
}

impl EmuError {
    /// The printed form of the error.
    pub fn message(&self) -> (r: String)
        ensures
            r@ == self@.message(),
    {
        match self {
            EmuError::MachO(m) => text::cat("mach-o: ", m.as_str()),
            EmuError::Dyld(m) => text::cat("dyld: ", m.as_str()),
            EmuError::Memory { addr, reason } => {
                let a = text::address_string(*addr);
                let head = text::cat3("memory fault @ ", a.as_str(), ": ");
                text::cat(head.as_str(), reason)
            },
            EmuError::UnsupportedSyscall { class, number } => {
                let head = text::cat3("unsupported ", class.name(), " syscall #");
                let n = text::dec_string(*number as u64);
                text::cat(head.as_str(), n.as_str())
            },
            EmuError::Vfs(m) => text::cat("vfs: ", m.as_str()),
            EmuError::Plist(m) => text::cat("plist: ", m.as_str()),
            EmuError::Archive(m) => text::cat("archive: ", m.as_str()),
            EmuError::ObjC(m) => text::cat("objc: ", m.as_str()),
            EmuError::Io(e) => text::cat("io: ", e.message.as_str()),
            EmuError::Internal(m) => text::cat("internal: ", m.as_str()),
        }
    }

    /// The host I/O error behind this error, if there is one.
    pub fn source(&self) -> (r: Option<&IoError>)
        ensures
            r == (match *self {
                EmuError::Io(e) => Some(&e),
                _ => None,
            }),
    {
        match self {
            EmuError::Io(e) => Some(e),
            _ => None,
        }
    }
}

impl From<IoError> for EmuError {
    fn from(e: IoError) -> (r: EmuError) {
        EmuError::Io(e)
    }
}

impl vstd::std_specs::convert::FromSpecImpl<IoError> for EmuError {
    open spec fn obeys_from_spec() -> bool {
        true
    }

    open spec fn from_spec(e: IoError) -> EmuError {
        EmuError::Io(e)
    }
}

/// A memory error.
pub open spec fn memory_error(addr: u64, reason: Seq<char>) -> ErrorView {
    ErrorView::Memory { addr, reason }
}

/// The view of a result: the view of its value or of its error.
pub open spec fn outcome<T: View>(r: EmuResult<T>) -> Result<T::V, ErrorView> {
    match r {
        Ok(v) => Ok(v@),
        Err(e) => Err(e@),
    }
}

} // verus!
