//! Foundation shims: `NSLog` output is surfaced, the long tail is accepted and
//! answers zero.

use vstd::prelude::*;

use crate::common::GuestAddr;
use crate::kernel::host;
use crate::kernel::host::{LogLevel, LogLine, LogTarget, LogView};
use crate::memory::space::MemView;
use crate::memory::GuestMemory;
use crate::hle::frameworks;
use crate::hle::frameworks::{Registry, ShimFn};

verus! {

/// The symbols that are accepted and answer zero.
pub open spec fn stubs() -> Seq<Seq<char>> {
    seq![
        "CFRetain"@,
        "CFRelease"@,
        "CFBridgingRetain"@,
        "CFBridgingRelease"@,
        "NSSearchPathForDirectoriesInDomains"@,
        "CFStringCreateWithCString"@,
        "CFAllocatorGetDefault"@,
        "NSStringFromClass"@,
        "objc_setAssociatedObject"@,
        "objc_getAssociatedObject"@,
    ]
}

/// The registry with this framework's shims.
pub open spec fn installed(map: Map<Seq<char>, ShimFn>) -> Map<Seq<char>, ShimFn> {
    frameworks::with_stubs(
        map.insert("NSLog"@, ShimFn::LogMessage).insert("CFShow"@, ShimFn::LogMessage),
        stubs(),
        0,
    )
}

/// Register this framework's shims.
pub fn install(map: &mut Registry)
    ensures
        final(map)@ == installed(old(map)@),
{
    let names = [
        "CFRetain",
        "CFRelease",
        "CFBridgingRetain",
        "CFBridgingRelease",
        "NSSearchPathForDirectoriesInDomains",
        "CFStringCreateWithCString",
        "CFAllocatorGetDefault",
        "NSStringFromClass",
        "objc_setAssociatedObject",
        "objc_getAssociatedObject",
    ];
    map.insert("NSLog".to_owned(), ShimFn::LogMessage);
    map.insert("CFShow".to_owned(), ShimFn::LogMessage);
    assert(frameworks::name_views(names@) =~= stubs());
    frameworks::register_stubs(map, &names);
}

/// Offset of the text pointer inside a constant string object.
pub const CFSTR_CSTR_OFFSET: u64 = 16;

/// The text of the constant string object at `obj`.
pub open spec fn string_text(mem: MemView, obj: u64) -> Seq<char> {
    match mem.read_u64(obj.wrapping_add(CFSTR_CSTR_OFFSET)) {
        Ok(p) => if p == 0 {
            "<unprintable NSString>"@
        } else {
            match mem.read_cstr(p, 4096) {
                Ok(s) => s,
                Err(_) => "<unprintable NSString>"@,
            }
        },
        Err(_) => "<unprintable NSString>"@,
    }
}

/// What `NSLog` logs of the constant string object at `obj`.
pub open spec fn nslog_line(mem: MemView, obj: u64) -> LogView {
    LogView { level: LogLevel::Info, target: LogTarget::NSLog, text: string_text(mem, obj) }
}

/// Log a constant string; format specifiers are not expanded.
pub fn log_message(mem: &GuestMemory, obj: u64, log: &mut Vec<LogLine>)
    ensures
        host::log_views(final(log)@) == host::log_views(old(log)@).push(nslog_line(mem@, obj)),
{
    let message = match mem.read_u64(GuestAddr(obj) + CFSTR_CSTR_OFFSET) {
        Ok(p) => {
            if p == 0 {
                "<unprintable NSString>".to_owned()
            } else {
                match mem.read_cstr(GuestAddr(p), 4096) {
                    Ok(s) => s,
                    Err(_) => "<unprintable NSString>".to_owned(),
                }
            }
        },
        Err(_) => "<unprintable NSString>".to_owned(),
    };
    host::log_line(log, LogLevel::Info, LogTarget::NSLog, message);
}

} // verus!
