//! UIKit shims. `UIApplicationMain` reports that the app has started and
//! returns, so that a headless run ends.

use vstd::prelude::*;

use crate::kernel::cpu::CpuContext;
use crate::kernel::host;
use crate::kernel::host::{LogLevel, LogLine, LogTarget, LogView};
use crate::text;
use crate::hle::frameworks;
use crate::hle::frameworks::{Registry, ShimFn};

verus! {

/// The symbols that are accepted and answer zero.
pub open spec fn stubs() -> Seq<Seq<char>> {
    seq![
        "UIGraphicsGetCurrentContext"@,
        "UIGraphicsBeginImageContext"@,
        "UIGraphicsEndImageContext"@,
        "UIImagePNGRepresentation"@,
        "UIScreenMainScreen"@,
    ]
}

/// The registry with this framework's shims.
pub open spec fn installed(map: Map<Seq<char>, ShimFn>) -> Map<Seq<char>, ShimFn> {
    frameworks::with_stubs(
        map.insert("UIApplicationMain"@, ShimFn::ApplicationMain),
        stubs(),
        0,
    )
}

/// Register this framework's shims.
pub fn install(map: &mut Registry)
    ensures
        final(map)@ == installed(old(map)@),
{
    let names = [
        "UIGraphicsGetCurrentContext",
        "UIGraphicsBeginImageContext",
        "UIGraphicsEndImageContext",
        "UIImagePNGRepresentation",
        "UIScreenMainScreen",
    ];
    map.insert("UIApplicationMain".to_owned(), ShimFn::ApplicationMain);
    assert(frameworks::name_views(names@) =~= stubs());
    frameworks::register_stubs(map, &names);
}

/// What is logged when the app enters its main function.
pub open spec fn start_line(argc: u64, principal: u64, delegate: u64) -> LogView {
    LogView {
        level: LogLevel::Info,
        target: LogTarget::UIKit,
        text: "UIApplicationMain(argc="@ + text::dec(argc as nat) + ", principal=0x"@ + text::hex(
            principal as nat,
        ) + ", delegate=0x"@ + text::hex(delegate as nat)
            + ") \u{2014} entering emulated run loop"@,
    }
}

/// Report that the app has started.
pub fn report_start(cpu: &CpuContext, log: &mut Vec<LogLine>)
    ensures
        host::log_views(final(log)@) == host::log_views(old(log)@).push(
            start_line(cpu@.x[0], cpu@.x[2], cpu@.x[3]),
        ),
{
    let mut m = text::cat("UIApplicationMain(argc=", text::dec_string(cpu.arg(0)).as_str());
    m.append(", principal=0x");
    m.append(text::hex_string(cpu.arg(2)).as_str());
    m.append(", delegate=0x");
    m.append(text::hex_string(cpu.arg(3)).as_str());
    m.append(") \u{2014} entering emulated run loop");
    host::log_line(log, LogLevel::Info, LogTarget::UIKit, m);
}

} // verus!
