//! The logic of an emulator that runs 64-bit iOS 7 applications on AArch64
//! hosts: guest code runs natively, Darwin syscalls and framework calls are
//! trapped and serviced here.
//!
//! * [`common`]: addresses, protections and the error type.
//! * [`memory`]: the guest address space, its heap and its mappings.
//! * [`loader`]: Mach-O and FAT files, and the opcode streams of the dynamic
//!   linker.
//! * [`vfs`]: the app's container, and where guest paths lead on the host.
//! * [`ipa`]: property lists, app bundles and how they are unpacked.
//! * [`kernel`]: registers, descriptors, syscalls, process construction and the
//!   run loop.
//! * [`hle`]: the Objective-C runtime and the framework shims.
//! * [`session`]: what a front end is told.
//!
//! Nothing here touches the host: where the kernel needs it, a syscall yields a
//! request, and the reply completes it.

pub mod bytes;
pub mod common;
pub mod digits;
pub mod hle;
pub mod ipa;
pub mod kernel;
pub mod loader;
pub mod memory;
pub mod session;
pub mod text;
pub mod vfs;
