//! OpenGL ES shims: every entry point is accepted and answers zero, so that a
//! renderer initialises without faulting.

use vstd::prelude::*;

use crate::hle::frameworks;
use crate::hle::frameworks::{Registry, ShimFn};

verus! {

/// The symbols that are accepted and answer zero.
pub open spec fn stubs() -> Seq<Seq<char>> {
    seq![
        "glClear"@,
        "glClearColor"@,
        "glViewport"@,
        "glGenBuffers"@,
        "glBindBuffer"@,
        "glBufferData"@,
        "glCreateShader"@,
        "glCompileShader"@,
        "glCreateProgram"@,
        "glUseProgram"@,
        "glDrawArrays"@,
        "glDrawElements"@,
        "glGetError"@,
        "glFlush"@,
        "glFinish"@,
    ]
}

/// The registry with this framework's shims.
pub open spec fn installed(map: Map<Seq<char>, ShimFn>) -> Map<Seq<char>, ShimFn> {
    frameworks::with_stubs(map, stubs(), 0)
}

/// Register this framework's shims.
pub fn install(map: &mut Registry)
    ensures
        final(map)@ == installed(old(map)@),
{
    let names = [
        "glClear",
        "glClearColor",
        "glViewport",
        "glGenBuffers",
        "glBindBuffer",
        "glBufferData",
        "glCreateShader",
        "glCompileShader",
        "glCreateProgram",
        "glUseProgram",
        "glDrawArrays",
        "glDrawElements",
        "glGetError",
        "glFlush",
        "glFinish",
    ];
    assert(frameworks::name_views(names@) =~= stubs());
    frameworks::register_stubs(map, &names);
}

} // verus!
