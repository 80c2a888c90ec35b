# ios_emu

The logic of an emulator that runs 64-bit iOS 7 applications on AArch64 hosts,
written and verified in Verus. Guest code runs natively; Darwin syscalls and
calls to imported framework functions are trapped and serviced here.

## Layout

| Directory | Contents |
|---|---|
| `src/common` | guest addresses, page protections, the error type |
| `src/memory` | the guest address space: regions, protections, heap, mappings |
| `src/loader` | Mach-O and FAT files, the linker's bind and rebase streams, import trampolines |
| `src/vfs` | the app's container and the translation of guest paths |
| `src/ipa` | binary and XML property lists, app bundles, unpacking |
| `src/kernel` | registers, descriptors, syscalls, process construction, the run loop |
| `src/hle` | the Objective-C runtime and the framework shims |
| `src/session` | what a front end is told |
| `app` | files, archives, the clock and the native backend |
| `tests` | tests on concrete values |

Each executable type has a mathematical view, each operation a function on those
views, and the contract of the executable function says that it computes that
function. Properties that span operations are public proof functions beside the
operations they speak of.

The library performs no I/O. A syscall that needs the host yields a request
(`kernel::host::HostRequest`); the reply completes it (`Machine::complete`).
