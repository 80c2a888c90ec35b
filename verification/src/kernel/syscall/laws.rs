//! What holds of every syscall.

use vstd::prelude::*;

use crate::common::error::ErrorView;
use crate::kernel::fd;
use crate::kernel::fd::FdObject;
use crate::kernel::host::{OpenOptions, OutcomeView, ReplyView, RequestView};
use crate::kernel::syscall::model;
use crate::kernel::syscall::model::KernelView;
use crate::memory::space;
use crate::vfs::sandbox;
use crate::vfs::sandbox::SandboxView;

verus! {

/// Whether a host path lies inside the app's container.
pub open spec fn in_container(vfs: SandboxView, path: Seq<char>) -> bool {
    exists|comps: Seq<Seq<char>>| #[trigger] sandbox::lies_below(path, vfs.host_root, comps)
}

/// Whether a host path lies inside the system image.
pub open spec fn in_system_image(vfs: SandboxView, path: Seq<char>) -> bool {
    exists|t: int| #[trigger] sandbox::in_system_tree(vfs, path, t)
}

/// No syscall leads out of the sandbox: the host is asked for paths in the
/// container or in the system image only, and to open for writing only in the
/// container.
pub proof fn host_paths_stay_in_the_sandbox(number: u32, k: KernelView)
    ensures
        model::unix(number, k) matches Some((_, OutcomeView::Host(request))) ==> match request {
            RequestView::Open { path, options } => in_container(k.vfs, path) || (in_system_image(
                k.vfs,
                path,
            ) && !options.write),
            RequestView::Exists { path } => in_container(k.vfs, path) || in_system_image(
                k.vfs,
                path,
            ),
            _ => true,
        },
{
    if let Ok(ios_path) = k.mem.read_cstr(k.cpu.x[0], 1024) {
        sandbox::translated_paths_stay_inside(k.vfs, ios_path);
    }
}

/// Whether the guest has the host file `file` open.
pub open spec fn is_open(k: KernelView, file: u64) -> bool {
    exists|d: i32|
        #[trigger] k.fds.contains_key(d) && (k.fds[d] == FdObject::File(file) || k.fds[d]
            == FdObject::Dir(file))
}

/// A guest reaches only the host files that were opened for it: whatever file a
/// request names stands in the guest's descriptor table.
pub proof fn requests_name_open_files(number: u32, k: KernelView)
    ensures
        model::unix(number, k) matches Some((_, OutcomeView::Host(request))) ==> match request {
            RequestView::Read { file, .. } => is_open(k, file),
            RequestView::Write { file, .. } => is_open(k, file),
            RequestView::Seek { file, .. } => is_open(k, file),
            RequestView::Close { file } => is_open(k, file),
            _ => true,
        },
{
    let d = model::low32(k.cpu.x[0]);
    if k.fds.contains_key(d) {
        assert(k.fds.contains_key(d));
    }
}

/// What the host read arrives in the guest's buffer, and the guest is told how
/// much it is.
pub proof fn host_bytes_reach_the_guest(
    k: KernelView,
    file: u64,
    buf: u64,
    count: u64,
    data: Seq<u8>,
    n: u64,
)
    requires
        k.mem.wf(),
        k.mem.read(buf, data.len() as int) is Ok,
        model::complete(
            k,
            RequestView::Read { file, buf, count },
            ReplyView::Read(Ok(data)),
        ).1 == Ok::<u64, u32>(n),
    ensures
        n == data.len() <= count,
        model::complete(
            k,
            RequestView::Read { file, buf, count },
            ReplyView::Read(Ok(data)),
        ).0.mem.read(buf, data.len() as int) == Ok::<Seq<u8>, ErrorView>(data),
{
    space::read_after_write(k.mem, buf, data);
}

/// A file that the host has opened for the guest is known to it by the lowest
/// free descriptor.
pub proof fn opened_files_are_reachable(
    k: KernelView,
    path: Seq<char>,
    options: OpenOptions,
    file: u64,
)
    ensures
        ({
            let (after, r) = model::complete(
                k,
                RequestView::Open { path, options },
                ReplyView::Opened(Ok(file)),
            );
            r matches Ok(d) ==> {
                &&& fd::is_lowest_free(k.fds, d as int)
                &&& after.fds == k.fds.insert(d as i32, FdObject::File(file))
            }
        }),
{
}

/// While the host is being asked, nothing of the guest has changed yet, except
/// that a descriptor to be closed is already free.
pub proof fn asking_the_host_changes_nothing_yet(number: u32, k: KernelView)
    ensures
        model::unix(number, k) matches Some((after, OutcomeView::Host(request))) ==> {
            &&& after.mem == k.mem
            &&& after.cpu == k.cpu
            &&& after.exit == k.exit
            &&& after.log == k.log
            &&& request is Close || after.fds == k.fds
        },
{
}

} // verus!
