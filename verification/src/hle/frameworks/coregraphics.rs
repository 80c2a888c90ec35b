//! CoreGraphics shims: most entry points are accepted and answer zero.

use vstd::prelude::*;

use crate::hle::frameworks;
use crate::hle::frameworks::{Registry, ShimFn};

verus! {

/// The symbols that are accepted and answer zero.
pub open spec fn stubs() -> Seq<Seq<char>> {
    seq![
        "CGColorCreate"@,
        "CGColorRelease"@,
        "CGContextSetFillColorWithColor"@,
        "CGContextFillRect"@,
        "CGContextRef"@,
        "CGBitmapContextCreate"@,
        "CGColorSpaceCreateDeviceRGB"@,
        "CGColorSpaceRelease"@,
        "CGContextDrawImage"@,
        "CGImageRelease"@,
    ]
}

/// The registry with this framework's shims.
pub open spec fn installed(map: Map<Seq<char>, ShimFn>) -> Map<Seq<char>, ShimFn> {
    frameworks::with_stubs(map, stubs(), 0).insert("CGMainDisplayID"@, ShimFn::MainDisplay)
}

/// Register this framework's shims.
pub fn install(map: &mut Registry)
    ensures
        final(map)@ == installed(old(map)@),
{
    let names = [
        "CGColorCreate",
        "CGColorRelease",
        "CGContextSetFillColorWithColor",
        "CGContextFillRect",
        "CGContextRef",
        "CGBitmapContextCreate",
        "CGColorSpaceCreateDeviceRGB",
        "CGColorSpaceRelease",
        "CGContextDrawImage",
        "CGImageRelease",
    ];
    assert(frameworks::name_views(names@) =~= stubs());
    frameworks::register_stubs(map, &names);
    // A display is always present.
    map.insert("CGMainDisplayID".to_owned(), ShimFn::MainDisplay);
}

} // verus!
