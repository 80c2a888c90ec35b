//! What the emulated kernel asks of the host, and what it tells it.
//!
//! The kernel itself performs no I/O. A syscall that needs the host yields a
//! request; the host's reply completes it.

use vstd::prelude::*;

use crate::common::error::IoErrorView;
use crate::common::IoError;

verus! {

/// What a line of output is about.
#[derive(Clone, Copy, Debug, PartialEq, Eq, Structural)]
pub enum LogTarget {
    /// Written to a standard stream.
    Guest,
    /// Passed to `NSLog`.
    NSLog,
    /// Reported by UIKit.
    UIKit,
    /// A call to an imported symbol.
    Import,
    /// A call to something that is not implemented.
    Stub,
    /// An Objective-C message.
    Objc,
    /// The emulator's own account of what it does.
    Emulator,
}

/// How much a line of output matters.
#[derive(Clone, Copy, Debug, PartialEq, Eq, Structural)]
pub enum LogLevel {
    Error,
    Warn,
    Info,
    Trace,
}

/// A line of output for the host's log.
#[derive(Debug)]
pub struct LogLine {
    pub level: LogLevel,
    pub target: LogTarget,
    pub text: String,
}

/// View of a [`LogLine`].
#[verifier::ext_equal]
pub struct LogView {
    pub level: LogLevel,
    pub target: LogTarget,
    pub text: Seq<char>,
}

impl View for LogLine {
    type V = LogView;

    open spec fn view(&self) -> LogView {
        LogView { level: self.level, target: self.target, text: self.text@ }
    }
}

/// The views of a log.
pub open spec fn log_views(v: Seq<LogLine>) -> Seq<LogView> {
    v.map_values(|l: LogLine| l@)
}

/// Append a line to a log.
pub fn log_line(log: &mut Vec<LogLine>, level: LogLevel, target: LogTarget, text: String)
    ensures
        log_views(final(log)@) == log_views(old(log)@).push(LogView { level, target, text: text@ }),
{
    let ghost before = log_views(log@);
    log.push(LogLine { level, target, text });
    assert(log_views(log@) =~= before.push(LogView { level, target, text: text@ }));
}

/// How a file is to be opened.
#[derive(Clone, Copy, Debug, PartialEq, Eq, Structural)]
pub struct OpenOptions {
    pub read: bool,
    pub write: bool,
    pub create: bool,
    pub truncate: bool,
    pub append: bool,
    pub create_new: bool,
}

/// Where to move a file's position.
#[derive(Clone, Copy, Debug, PartialEq, Eq, Structural)]
pub enum SeekPos {
    Start(u64),
    Current(i64),
    End(i64),
}

/// Something only the host can do. Files are named by the handle the host gave
/// when it opened them.
#[derive(Debug)]
pub enum HostRequest {
    /// Read at most `count` bytes, for the guest buffer `buf`.
    Read { file: u64, buf: u64, count: u64 },
    /// Write every chunk in full, one after the other; `result` is what the
    /// guest is told if all of them are written.
    Write { file: u64, chunks: Vec<Vec<u8>>, result: Result<u64, u32> },
    /// Open the host file `path`.
    Open { path: String, options: OpenOptions },
    /// Close a file or directory.
    Close { file: u64 },
    /// Move a file's position.
    Seek { file: u64, pos: SeekPos },
    /// Say whether the host path exists.
    Exists { path: String },
    /// Tell the wall-clock time, for the guest structure `tv`.
    Time { tv: u64 },
    /// Tell the nanoseconds since the epoch, to seed `len` bytes at `buf`.
    Entropy { buf: u64, len: u64 },
}

/// View of a [`HostRequest`].
#[verifier::ext_equal]
pub enum RequestView {
    Read { file: u64, buf: u64, count: u64 },
    Write { file: u64, chunks: Seq<Seq<u8>>, result: Result<u64, u32> },
    Open { path: Seq<char>, options: OpenOptions },
    Close { file: u64 },
    Seek { file: u64, pos: SeekPos },
    Exists { path: Seq<char> },
    Time { tv: u64 },
    Entropy { buf: u64, len: u64 },
}

/// The views of a sequence of byte vectors.
pub open spec fn chunk_views(v: Seq<Vec<u8>>) -> Seq<Seq<u8>> {
    v.map_values(|c: Vec<u8>| c@)
}

impl View for HostRequest {
    type V = RequestView;

    open spec fn view(&self) -> RequestView {
        match *self {
            HostRequest::Read { file, buf, count } => RequestView::Read { file, buf, count },
            HostRequest::Write { file, chunks, result } => RequestView::Write {
                file,
                chunks: chunk_views(chunks@),
                result,
            },
            HostRequest::Open { path, options } => RequestView::Open { path: path@, options },
            HostRequest::Close { file } => RequestView::Close { file },
            HostRequest::Seek { file, pos } => RequestView::Seek { file, pos },
            HostRequest::Exists { path } => RequestView::Exists { path: path@ },
            HostRequest::Time { tv } => RequestView::Time { tv },
            HostRequest::Entropy { buf, len } => RequestView::Entropy { buf, len },
        }
    }
}

/// The host's answer to a request.
#[derive(Debug)]
pub enum HostReply {
    /// The bytes read.
    Read(Result<Vec<u8>, IoError>),
    /// Everything was written, or the first failure.
    Written(Result<(), IoError>),
    /// The handle of the opened file.
    Opened(Result<u64, IoError>),
    /// The file is closed.
    Closed,
    /// The position after a move.
    Position(Result<u64, IoError>),
    /// Whether the path exists.
    Exists(bool),
    /// The time since the epoch.
    Clock { secs: u64, micros: u32 },
    /// The nanoseconds since the epoch, if the clock is past it.
    Nanos(Option<u64>),
}

/// View of a [`HostReply`].
#[verifier::ext_equal]
pub enum ReplyView {
    Read(Result<Seq<u8>, IoErrorView>),
    Written(Result<(), IoErrorView>),
    Opened(Result<u64, IoErrorView>),
    Closed,
    Position(Result<u64, IoErrorView>),
    Exists(bool),
    Clock { secs: u64, micros: u32 },
    Nanos(Option<u64>),
}

/// The view of an I/O result.
pub open spec fn io_view<T: View>(r: Result<T, IoError>) -> Result<T::V, IoErrorView> {
    match r {
        Ok(v) => Ok(v@),
        Err(e) => Err(e@),
    }
}

impl View for HostReply {
    type V = ReplyView;

    open spec fn view(&self) -> ReplyView {
        match *self {
            HostReply::Read(r) => ReplyView::Read(io_view(r)),
            HostReply::Written(r) => ReplyView::Written(io_view(r)),
            HostReply::Opened(r) => ReplyView::Opened(io_view(r)),
            HostReply::Closed => ReplyView::Closed,
            HostReply::Position(r) => ReplyView::Position(io_view(r)),
            HostReply::Exists(b) => ReplyView::Exists(b),
            HostReply::Clock { secs, micros } => ReplyView::Clock { secs, micros },
            HostReply::Nanos(n) => ReplyView::Nanos(n),
        }
    }
}

/// What a syscall comes to: a result at once, or a request to the host.
#[derive(Debug)]
pub enum Outcome {
    Done(Result<u64, u32>),
    Host(HostRequest),
}

/// View of an [`Outcome`].
#[verifier::ext_equal]
pub enum OutcomeView {
    Done(Result<u64, u32>),
    Host(RequestView),
}

impl View for Outcome {
    type V = OutcomeView;

    open spec fn view(&self) -> OutcomeView {
        match *self {
            Outcome::Done(r) => OutcomeView::Done(r),
            Outcome::Host(r) => OutcomeView::Host(r@),
        }
    }
}

} // verus!
