//! What the guest sees of the library calls that it makes.

use vstd::prelude::*;

use crate::bytes;
use crate::common::error::ErrorView;
use crate::hle::frameworks;
use crate::hle::frameworks::{coregraphics, foundation, gles, libsystem, objc_rt, uikit, ShimFn};
use crate::hle::runtime::{ClassView, RuntimeView};
use crate::hle::{HleEnvironment, HleView};
use crate::kernel::env::{Dispatch, GuestView, HostEnvironment};
use crate::memory::allocator;
use crate::memory::space;
use crate::memory::space::MemView;

verus! {

// ---- the registry -----------------------------------------------------------

/// Whether `m` maps `name` to `shim`.
pub open spec fn leads_to(m: Map<Seq<char>, ShimFn>, name: Seq<char>, shim: ShimFn) -> bool {
    m.contains_key(name) && m[name] == shim
}

/// Whether two registries have the same under `name`.
spec fn alike(a: Map<Seq<char>, ShimFn>, b: Map<Seq<char>, ShimFn>, name: Seq<char>) -> bool {
    (a.contains_key(name) <==> b.contains_key(name)) && a[name] == b[name]
}

proof fn lemma_stubs_leave(
    map: Map<Seq<char>, ShimFn>,
    names: Seq<Seq<char>>,
    i: int,
    name: Seq<char>,
)
    requires
        forall|j: int| 0 <= j < names.len() ==> #[trigger] names[j] != name,
    ensures
        alike(frameworks::with_stubs(map, names, i), map, name),
    decreases names.len() - i,
{
    if 0 <= i < names.len() {
        assert(names[i] != name);
        lemma_stubs_leave(map.insert(names[i], ShimFn::StubZero), names, i + 1, name);
    }
}

proof fn lemma_stubs_answer(
    map: Map<Seq<char>, ShimFn>,
    names: Seq<Seq<char>>,
    i: int,
    name: Seq<char>,
)
    requires
        0 <= i <= names.len(),
        leads_to(map, name, ShimFn::StubZero) || exists|j: int|
            i <= j < names.len() && #[trigger] names[j] == name,
    ensures
        leads_to(frameworks::with_stubs(map, names, i), name, ShimFn::StubZero),
    decreases names.len() - i,
{
    if i < names.len() {
        lemma_stubs_answer(map.insert(names[i], ShimFn::StubZero), names, i + 1, name);
    }
}

proof fn lemma_gles(map: Map<Seq<char>, ShimFn>, name: Seq<char>)
    requires
        name.len() > 0,
        name[0] != 'g',
    ensures
        alike(gles::installed(map), map, name),
{
    reveal_strlit("glClear");
    reveal_strlit("glClearColor");
    reveal_strlit("glViewport");
    reveal_strlit("glGenBuffers");
    reveal_strlit("glBindBuffer");
    reveal_strlit("glBufferData");
    reveal_strlit("glCreateShader");
    reveal_strlit("glCompileShader");
    reveal_strlit("glCreateProgram");
    reveal_strlit("glUseProgram");
    reveal_strlit("glDrawArrays");
    reveal_strlit("glDrawElements");
    reveal_strlit("glGetError");
    reveal_strlit("glFlush");
    reveal_strlit("glFinish");
    assert forall|j: int| 0 <= j < gles::stubs().len() implies #[trigger] gles::stubs()[j] != name by {
        assert(gles::stubs()[j][0] == 'g');
    }
    lemma_stubs_leave(map, gles::stubs(), 0, name);
}

proof fn lemma_coregraphics(map: Map<Seq<char>, ShimFn>, name: Seq<char>)
    requires
        name.len() > 1,
        name[0] != 'C' || name[1] != 'G',
    ensures
        alike(coregraphics::installed(map), map, name),
{
    reveal_strlit("CGColorCreate");
    reveal_strlit("CGColorRelease");
    reveal_strlit("CGContextSetFillColorWithColor");
    reveal_strlit("CGContextFillRect");
    reveal_strlit("CGContextRef");
    reveal_strlit("CGBitmapContextCreate");
    reveal_strlit("CGColorSpaceCreateDeviceRGB");
    reveal_strlit("CGColorSpaceRelease");
    reveal_strlit("CGContextDrawImage");
    reveal_strlit("CGImageRelease");
    reveal_strlit("CGMainDisplayID");
    let names = coregraphics::stubs();
    assert forall|j: int| 0 <= j < names.len() implies #[trigger] names[j] != name by {
        assert(names[j][0] == 'C' && names[j][1] == 'G');
    }
    lemma_stubs_leave(map, names, 0, name);
    assert("CGMainDisplayID"@[0] == 'C' && "CGMainDisplayID"@[1] == 'G');
}

proof fn lemma_uikit(map: Map<Seq<char>, ShimFn>, name: Seq<char>)
    requires
        name.len() > 0,
        name[0] != 'U',
    ensures
        alike(uikit::installed(map), map, name),
{
    reveal_strlit("UIGraphicsGetCurrentContext");
    reveal_strlit("UIGraphicsBeginImageContext");
    reveal_strlit("UIGraphicsEndImageContext");
    reveal_strlit("UIImagePNGRepresentation");
    reveal_strlit("UIScreenMainScreen");
    reveal_strlit("UIApplicationMain");
    let names = uikit::stubs();
    assert forall|j: int| 0 <= j < names.len() implies #[trigger] names[j] != name by {
        assert(names[j][0] == 'U');
    }
    assert("UIApplicationMain"@[0] == 'U');
    lemma_stubs_leave(map.insert("UIApplicationMain"@, ShimFn::ApplicationMain), names, 0, name);
}

proof fn lemma_foundation(map: Map<Seq<char>, ShimFn>, name: Seq<char>)
    requires
        name.len() > 1,
        name[0] != 'N',
        name[0] != 'C',
        name.len() != 24 || name[8] != 'A',
    ensures
        alike(foundation::installed(map), map, name),
{
    reveal_strlit("CFRetain");
    reveal_strlit("CFRelease");
    reveal_strlit("CFBridgingRetain");
    reveal_strlit("CFBridgingRelease");
    reveal_strlit("NSSearchPathForDirectoriesInDomains");
    reveal_strlit("CFStringCreateWithCString");
    reveal_strlit("CFAllocatorGetDefault");
    reveal_strlit("NSStringFromClass");
    reveal_strlit("NSLog");
    reveal_strlit("CFShow");
    reveal_strlit("objc_setAssociatedObject");
    reveal_strlit("objc_getAssociatedObject");
    let names = foundation::stubs();
    assert forall|j: int| 0 <= j < names.len() implies #[trigger] names[j] != name by {
        assert(names[j][0] == 'C' || names[j][0] == 'N' || (names[j].len() == 24 && names[j][8]
            == 'A'));
    }
    assert("NSLog"@[0] == 'N' && "CFShow"@[0] == 'C');
    lemma_stubs_leave(
        map.insert("NSLog"@, ShimFn::LogMessage).insert("CFShow"@, ShimFn::LogMessage),
        names,
        0,
        name,
    );
}

/// What the frameworks behind the C library leave alone.
proof fn lemma_later(map: Map<Seq<char>, ShimFn>, name: Seq<char>)
    requires
        name.len() > 1,
        name[0] != 'N' && name[0] != 'C' && name[0] != 'U' && name[0] != 'g',
        name.len() != 24 || name[8] != 'A',
    ensures
        alike(
            frameworks::all_installed(map),
            libsystem::installed(objc_rt::installed(map)),
            name,
        ),
{
    let a = libsystem::installed(objc_rt::installed(map));
    let b = foundation::installed(a);
    let c = uikit::installed(b);
    let d = coregraphics::installed(c);
    lemma_foundation(a, name);
    lemma_uikit(b, name);
    lemma_coregraphics(c, name);
    lemma_gles(d, name);
}

/// The functions of the C library are found under their names.
pub proof fn c_functions_are_registered(map: Map<Seq<char>, ShimFn>)
    ensures
        ({
            let m = frameworks::all_installed(map);
            &&& leads_to(m, "malloc"@, ShimFn::Malloc)
            &&& leads_to(m, "calloc"@, ShimFn::Calloc)
            &&& leads_to(m, "realloc"@, ShimFn::Realloc)
            &&& leads_to(m, "free"@, ShimFn::StubZero)
            &&& leads_to(m, "memcpy"@, ShimFn::CopyBytes)
            &&& leads_to(m, "memmove"@, ShimFn::CopyBytes)
            &&& leads_to(m, "memset"@, ShimFn::FillBytes)
            &&& leads_to(m, "bzero"@, ShimFn::ClearBytes)
            &&& leads_to(m, "strlen"@, ShimFn::StringLength)
            &&& leads_to(m, "strcmp"@, ShimFn::StringOrder)
            &&& leads_to(m, "memcmp"@, ShimFn::ByteOrder)
            &&& leads_to(m, "pthread_mutex_lock"@, ShimFn::StubZero)
            &&& leads_to(m, "pthread_mutex_unlock"@, ShimFn::StubZero)
            &&& leads_to(m, "pthread_mutex_init"@, ShimFn::StubZero)
            &&& leads_to(m, "pthread_once"@, ShimFn::StubZero)
            &&& leads_to(m, "dispatch_once"@, ShimFn::StubZero)
            &&& leads_to(m, "__stack_chk_fail"@, ShimFn::StubZero)
        }),
{
    reveal_strlit("malloc");
    reveal_strlit("calloc");
    reveal_strlit("realloc");
    reveal_strlit("free");
    reveal_strlit("memcpy");
    reveal_strlit("memmove");
    reveal_strlit("memset");
    reveal_strlit("bzero");
    reveal_strlit("strlen");
    reveal_strlit("strcmp");
    reveal_strlit("memcmp");
    reveal_strlit("pthread_mutex_lock");
    reveal_strlit("pthread_mutex_unlock");
    reveal_strlit("pthread_mutex_init");
    reveal_strlit("pthread_once");
    reveal_strlit("dispatch_once");
    reveal_strlit("__stack_chk_fail");
    assert("malloc"@.len() == 6 && "malloc"@[0] == 'm' && "malloc"@[1] == 'a');
    assert("calloc"@.len() == 6 && "calloc"@[0] == 'c');
    assert("realloc"@.len() == 7 && "realloc"@[0] == 'r');
    assert("free"@.len() == 4);
    assert("memcpy"@.len() == 6 && "memcpy"@[0] == 'm' && "memcpy"@[1] == 'e' && "memcpy"@[3] == 'c' && "memcpy"@[4] == 'p');
    assert("memmove"@.len() == 7 && "memmove"@[0] == 'm');
    assert("memset"@.len() == 6 && "memset"@[0] == 'm' && "memset"@[1] == 'e' && "memset"@[3] == 's');
    assert("bzero"@.len() == 5);
    assert("strlen"@.len() == 6 && "strlen"@[0] == 's' && "strlen"@[3] == 'l');
    assert("strcmp"@.len() == 6 && "strcmp"@[0] == 's' && "strcmp"@[3] == 'c');
    assert("memcmp"@.len() == 6 && "memcmp"@[0] == 'm' && "memcmp"@[1] == 'e' && "memcmp"@[3] == 'c' && "memcmp"@[4] == 'm');
    assert("pthread_mutex_lock"@.len() == 18 && "pthread_mutex_lock"@[14] == 'l');
    assert("pthread_mutex_unlock"@.len() == 20);
    assert("pthread_mutex_init"@.len() == 18 && "pthread_mutex_init"@[14] == 'i');
    assert("pthread_once"@.len() == 12);
    assert("dispatch_once"@.len() == 13);
    assert("__stack_chk_fail"@.len() == 16);
    lemma_later(map, "malloc"@);
    lemma_later(map, "calloc"@);
    lemma_later(map, "realloc"@);
    lemma_later(map, "free"@);
    lemma_later(map, "memcpy"@);
    lemma_later(map, "memmove"@);
    lemma_later(map, "memset"@);
    lemma_later(map, "bzero"@);
    lemma_later(map, "strlen"@);
    lemma_later(map, "strcmp"@);
    lemma_later(map, "memcmp"@);
    lemma_later(map, "pthread_mutex_lock"@);
    lemma_later(map, "pthread_mutex_unlock"@);
    lemma_later(map, "pthread_mutex_init"@);
    lemma_later(map, "pthread_once"@);
    lemma_later(map, "dispatch_once"@);
    lemma_later(map, "__stack_chk_fail"@);
}

proof fn lemma_libsystem(map: Map<Seq<char>, ShimFn>, name: Seq<char>)
    requires
        name.len() > 4,
        name[0] == 'o' || (name[0] == 's' && name[1] == 'e'),
    ensures
        alike(libsystem::installed(map), map, name),
{
    reveal_strlit("malloc");
    reveal_strlit("calloc");
    reveal_strlit("realloc");
    reveal_strlit("free");
    reveal_strlit("memcpy");
    reveal_strlit("memmove");
    reveal_strlit("memset");
    reveal_strlit("bzero");
    reveal_strlit("strlen");
    reveal_strlit("strcmp");
    reveal_strlit("memcmp");
    reveal_strlit("pthread_mutex_lock");
    reveal_strlit("pthread_mutex_unlock");
    reveal_strlit("pthread_mutex_init");
    reveal_strlit("pthread_once");
    reveal_strlit("dispatch_once");
    reveal_strlit("__stack_chk_fail");
}

/// The functions of the Objective-C runtime are found under their names.
pub proof fn runtime_functions_are_registered(map: Map<Seq<char>, ShimFn>)
    ensures
        ({
            let m = frameworks::all_installed(map);
            &&& leads_to(m, "objc_msgSend"@, ShimFn::MessageSend)
            &&& leads_to(m, "objc_msgSendSuper"@, ShimFn::MessageSend)
            &&& leads_to(m, "objc_msgSendSuper2"@, ShimFn::MessageSend)
            &&& leads_to(m, "objc_getClass"@, ShimFn::GetClass)
            &&& leads_to(m, "objc_lookUpClass"@, ShimFn::GetClass)
            &&& leads_to(m, "objc_getRequiredClass"@, ShimFn::GetClass)
            &&& leads_to(m, "objc_getMetaClass"@, ShimFn::GetClass)
            &&& leads_to(m, "sel_registerName"@, ShimFn::Identity)
            &&& leads_to(m, "sel_getUid"@, ShimFn::Identity)
            &&& leads_to(m, "objc_retain"@, ShimFn::Identity)
            &&& leads_to(m, "objc_release"@, ShimFn::StubZero)
            &&& leads_to(m, "objc_autorelease"@, ShimFn::Identity)
            &&& leads_to(m, "objc_retainAutoreleasedReturnValue"@, ShimFn::Identity)
            &&& leads_to(m, "objc_autoreleaseReturnValue"@, ShimFn::Identity)
            &&& leads_to(m, "objc_alloc"@, ShimFn::NewInstance)
            &&& leads_to(m, "objc_alloc_init"@, ShimFn::NewInstance)
            &&& leads_to(m, "objc_storeStrong"@, ShimFn::StubZero)
            &&& leads_to(m, "objc_autoreleasePoolPush"@, ShimFn::StubZero)
            &&& leads_to(m, "objc_autoreleasePoolPop"@, ShimFn::StubZero)
        }),
{
    reveal_strlit("objc_msgSend");
    reveal_strlit("objc_msgSendSuper");
    reveal_strlit("objc_msgSendSuper2");
    reveal_strlit("objc_getClass");
    reveal_strlit("objc_lookUpClass");
    reveal_strlit("objc_getRequiredClass");
    reveal_strlit("objc_getMetaClass");
    reveal_strlit("sel_registerName");
    reveal_strlit("sel_getUid");
    reveal_strlit("objc_retain");
    reveal_strlit("objc_release");
    reveal_strlit("objc_autorelease");
    reveal_strlit("objc_retainAutoreleasedReturnValue");
    reveal_strlit("objc_autoreleaseReturnValue");
    reveal_strlit("objc_alloc");
    reveal_strlit("objc_alloc_init");
    reveal_strlit("objc_storeStrong");
    reveal_strlit("objc_autoreleasePoolPush");
    reveal_strlit("objc_autoreleasePoolPop");
    assert("objc_msgSend"@.len() == 12 && "objc_msgSend"@[5] == 'm');
    assert("objc_msgSendSuper"@.len() == 17 && "objc_msgSendSuper"@[5] == 'm');
    assert("objc_msgSendSuper2"@.len() == 18);
    assert("objc_getClass"@.len() == 13);
    assert("objc_lookUpClass"@.len() == 16 && "objc_lookUpClass"@[0] == 'o' && "objc_lookUpClass"@[5] == 'l');
    assert("objc_getRequiredClass"@.len() == 21);
    assert("objc_getMetaClass"@.len() == 17 && "objc_getMetaClass"@[5] == 'g');
    assert("sel_registerName"@.len() == 16 && "sel_registerName"@[0] == 's');
    assert("sel_getUid"@.len() == 10 && "sel_getUid"@[0] == 's');
    assert("objc_retain"@.len() == 11);
    assert("objc_release"@.len() == 12 && "objc_release"@[5] == 'r');
    assert("objc_autorelease"@.len() == 16 && "objc_autorelease"@[0] == 'o' && "objc_autorelease"@[5] == 'a');
    assert("objc_retainAutoreleasedReturnValue"@.len() == 34);
    assert("objc_autoreleaseReturnValue"@.len() == 27);
    assert("objc_alloc"@.len() == 10 && "objc_alloc"@[0] == 'o');
    assert("objc_alloc_init"@.len() == 15);
    assert("objc_storeStrong"@.len() == 16 && "objc_storeStrong"@[0] == 'o' && "objc_storeStrong"@[5] == 's');
    assert("objc_autoreleasePoolPush"@.len() == 24);
    assert("objc_autoreleasePoolPop"@.len() == 23);
    lemma_runtime(map, "objc_msgSend"@);
    lemma_runtime(map, "objc_msgSendSuper"@);
    lemma_runtime(map, "objc_msgSendSuper2"@);
    lemma_runtime(map, "objc_getClass"@);
    lemma_runtime(map, "objc_lookUpClass"@);
    lemma_runtime(map, "objc_getRequiredClass"@);
    lemma_runtime(map, "objc_getMetaClass"@);
    lemma_runtime(map, "sel_registerName"@);
    lemma_runtime(map, "sel_getUid"@);
    lemma_runtime(map, "objc_retain"@);
    lemma_runtime(map, "objc_release"@);
    lemma_runtime(map, "objc_autorelease"@);
    lemma_runtime(map, "objc_retainAutoreleasedReturnValue"@);
    lemma_runtime(map, "objc_autoreleaseReturnValue"@);
    lemma_runtime(map, "objc_alloc"@);
    lemma_runtime(map, "objc_alloc_init"@);
    lemma_runtime(map, "objc_storeStrong"@);
    lemma_runtime(map, "objc_autoreleasePoolPush"@);
    lemma_runtime(map, "objc_autoreleasePoolPop"@);
}

proof fn lemma_runtime(map: Map<Seq<char>, ShimFn>, name: Seq<char>)
    requires
        name.len() > 4,
        name[0] == 'o' || (name[0] == 's' && name[1] == 'e'),
        name.len() != 24 || name[8] != 'A',
    ensures
        alike(frameworks::all_installed(map), objc_rt::installed(map), name),
{
    lemma_later(map, name);
    lemma_libsystem(objc_rt::installed(map), name);
}

/// The functions of the frameworks that do something are found under their
/// names.
pub proof fn framework_functions_are_registered(map: Map<Seq<char>, ShimFn>)
    ensures
        ({
            let m = frameworks::all_installed(map);
            &&& leads_to(m, "NSLog"@, ShimFn::LogMessage)
            &&& leads_to(m, "CFShow"@, ShimFn::LogMessage)
            &&& leads_to(m, "UIApplicationMain"@, ShimFn::ApplicationMain)
            &&& leads_to(m, "CGMainDisplayID"@, ShimFn::MainDisplay)
        }),
{
    let a = libsystem::installed(objc_rt::installed(map));
    let b = foundation::installed(a);
    let c = uikit::installed(b);
    let d = coregraphics::installed(c);
    assert("NSLog"@.len() == 5 && "NSLog"@[0] == 'N' && "CFShow"@.len() == 6 && "CFShow"@[0] == 'C'
        && "CFShow"@[1] == 'F') by {
        reveal_strlit("NSLog");
        reveal_strlit("CFShow");
    }
    assert("UIApplicationMain"@.len() == 17 && "UIApplicationMain"@[0] == 'U'
        && "UIApplicationMain"@[1] == 'I') by {
        reveal_strlit("UIApplicationMain");
    }
    assert("CGMainDisplayID"@.len() == 15 && "CGMainDisplayID"@[0] == 'C') by {
        reveal_strlit("CGMainDisplayID");
    }
    let logged = a.insert("NSLog"@, ShimFn::LogMessage).insert("CFShow"@, ShimFn::LogMessage);
    assert forall|j: int| 0 <= j < foundation::stubs().len() implies #[trigger] foundation::stubs()[j]
        != "NSLog"@ && foundation::stubs()[j] != "CFShow"@ by {
        reveal_strlit("CFRetain");
        reveal_strlit("CFRelease");
        reveal_strlit("CFBridgingRetain");
        reveal_strlit("CFBridgingRelease");
        reveal_strlit("NSSearchPathForDirectoriesInDomains");
        reveal_strlit("CFStringCreateWithCString");
        reveal_strlit("CFAllocatorGetDefault");
        reveal_strlit("NSStringFromClass");
        reveal_strlit("objc_setAssociatedObject");
        reveal_strlit("objc_getAssociatedObject");
        assert(foundation::stubs()[j].len() > 6);
    }
    lemma_stubs_leave(logged, foundation::stubs(), 0, "NSLog"@);
    lemma_stubs_leave(logged, foundation::stubs(), 0, "CFShow"@);
    lemma_uikit(b, "NSLog"@);
    lemma_uikit(b, "CFShow"@);
    lemma_coregraphics(c, "NSLog"@);
    lemma_coregraphics(c, "CFShow"@);
    lemma_gles(d, "NSLog"@);
    lemma_gles(d, "CFShow"@);
    assert forall|j: int| 0 <= j < uikit::stubs().len() implies #[trigger] uikit::stubs()[j]
        != "UIApplicationMain"@ by {
        reveal_strlit("UIGraphicsGetCurrentContext");
        reveal_strlit("UIGraphicsBeginImageContext");
        reveal_strlit("UIGraphicsEndImageContext");
        reveal_strlit("UIImagePNGRepresentation");
        reveal_strlit("UIScreenMainScreen");
        assert(uikit::stubs()[j].len() > 17);
    }
    lemma_stubs_leave(
        b.insert("UIApplicationMain"@, ShimFn::ApplicationMain),
        uikit::stubs(),
        0,
        "UIApplicationMain"@,
    );
    lemma_coregraphics(c, "UIApplicationMain"@);
    lemma_gles(d, "UIApplicationMain"@);
    lemma_gles(d, "CGMainDisplayID"@);
}

// ---- calls ------------------------------------------------------------------

/// The guest after it called `name` in an environment with every framework.
pub open spec fn after_call(s: HleView, name: Seq<char>, g: GuestView) -> GuestView {
    HleEnvironment::called(s, name, g).1
}

/// Whether `s` has every framework.
pub open spec fn complete(s: HleView) -> bool {
    exists|map: Map<Seq<char>, ShimFn>| s.shims == #[trigger] frameworks::all_installed(map)
}

/// Whether a call changed nothing but the memory, `x0` and what was logged, and
/// returned `v`.
pub open spec fn returned(g: GuestView, h: GuestView, v: u64) -> bool {
    &&& h.cpu == (crate::kernel::cpu::CpuView { x: h.cpu.x, ..g.cpu })
    &&& h.cpu.x == g.cpu.x.update(0, v)
    &&& h.vfs == g.vfs
}

proof fn lemma_c(s: HleView)
    requires
        complete(s),
    ensures
        exists|map: Map<Seq<char>, ShimFn>| {
            &&& s.shims == #[trigger] frameworks::all_installed(map)
            &&& leads_to(s.shims, "malloc"@, ShimFn::Malloc)
            &&& leads_to(s.shims, "calloc"@, ShimFn::Calloc)
            &&& leads_to(s.shims, "realloc"@, ShimFn::Realloc)
            &&& leads_to(s.shims, "free"@, ShimFn::StubZero)
            &&& leads_to(s.shims, "memcpy"@, ShimFn::CopyBytes)
            &&& leads_to(s.shims, "memmove"@, ShimFn::CopyBytes)
            &&& leads_to(s.shims, "memset"@, ShimFn::FillBytes)
            &&& leads_to(s.shims, "bzero"@, ShimFn::ClearBytes)
            &&& leads_to(s.shims, "strlen"@, ShimFn::StringLength)
            &&& leads_to(s.shims, "strcmp"@, ShimFn::StringOrder)
            &&& leads_to(s.shims, "memcmp"@, ShimFn::ByteOrder)
        },
{
    let map = choose|map: Map<Seq<char>, ShimFn>|
        s.shims == #[trigger] frameworks::all_installed(map);
    c_functions_are_registered(map);
}

/// `malloc(n)` answers an aligned block of `n` bytes behind everything handed out
/// before, which stays inside the heap, or zero; it touches no memory. Two blocks
/// do not overlap.
pub proof fn malloc_hands_out_fresh_blocks(s: HleView, g: GuestView)
    requires
        complete(s),
        g.cpu.x.len() == 29,
        g.mem.wf(),
    ensures
        ({
            let h = after_call(s, "malloc"@, g);
            let a = h.cpu.x[0];
            let n = g.cpu.x[0];
            &&& returned(g, h, a)
            &&& h.log == g.log
            &&& h.mem == (MemView { heap: h.mem.heap, ..g.mem })
            &&& a != 0 ==> {
                &&& a % 16 == 0
                &&& g.mem.heap.cursor <= a
                &&& a + n <= h.mem.heap.cursor <= g.mem.heap.limit
                &&& a < h.mem.heap.cursor
            }
            &&& a == 0 && g.mem.heap.cursor > 0 ==> h.mem == g.mem
        }),
{
    lemma_c(s);
    allocator::blocks_are_aligned_and_fresh(g.mem.heap, g.cpu.x[0], 16);
}

/// `calloc(n, size)` is `malloc(n * size)`; a product that does not fit is more
/// than there is.
pub proof fn calloc_is_malloc_of_the_product(s: HleView, g: GuestView, product: u64)
    requires
        complete(s),
        g.cpu.x.len() == 29,
        g.mem.wf(),
    ensures
        product == g.cpu.x[0] * g.cpu.x[1] ==> ({
            let m = GuestView {
                cpu: crate::kernel::cpu::CpuView { x: g.cpu.x.update(0, product), ..g.cpu },
                ..g
            };
            after_call(s, "calloc"@, g) == after_call(s, "malloc"@, m)
        }),
        g.cpu.x[0] * g.cpu.x[1] > u64::MAX && g.mem.heap.cursor > 0 ==> after_call(s, "calloc"@, g)
            == g.returning(0),
        after_call(s, "free"@, g) == g.returning(0),
{
    lemma_c(s);
    if product == g.cpu.x[0] * g.cpu.x[1] {
        let m = GuestView {
            cpu: crate::kernel::cpu::CpuView { x: g.cpu.x.update(0, product), ..g.cpu },
            ..g
        };
        let v = libsystem::block(g.mem, product).1;
        assert(m.cpu.x[0] == product);
        assert(m.cpu.x.update(0, v) =~= g.cpu.x.update(0, v));
    }
    if g.cpu.x[0] * g.cpu.x[1] > u64::MAX {
        crate::common::rounding_brackets(g.mem.heap.cursor as int, 16);
    }
}

/// `realloc(p, n)` answers a block that holds what was at `p`.
pub proof fn realloc_keeps_the_contents(s: HleView, g: GuestView, data: Seq<u8>)
    requires
        complete(s),
        g.cpu.x.len() == 29,
        g.mem.wf(),
        g.mem.read(g.cpu.x[0], g.cpu.x[1] as int) == Ok::<Seq<u8>, ErrorView>(data),
        g.cpu.x[0] != 0,
    ensures
        ({
            let h = after_call(s, "realloc"@, g);
            let a = h.cpu.x[0];
            &&& returned(g, h, a)
            &&& g.mem.read(a, data.len() as int) is Ok && g.mem.write(a, data).1 is Ok && a != 0
                ==> h.mem.read(a, data.len() as int) == Ok::<Seq<u8>, ErrorView>(data)
            &&& a != 0 ==> a % 16 == 0 && g.mem.heap.cursor <= a && a + g.cpu.x[1]
                <= h.mem.heap.cursor
        }),
{
    lemma_c(s);
    allocator::blocks_are_aligned_and_fresh(g.mem.heap, g.cpu.x[1], 16);
    let (m, r) = g.mem.heap_alloc(g.cpu.x[1], 16);
    if let Ok(a) = r {
        if g.mem.read(a, data.len() as int) is Ok && g.mem.write(a, data).1 is Ok {
            assert(m.read(a, data.len() as int) == g.mem.read(a, data.len() as int));
            space::read_after_write(m, a, data);
        }
    }
}

/// `memcpy(dst, src, n)` and `memmove` make the `n` bytes at `dst` those that
/// were at `src`, touch no other memory, and answer `dst`.
pub proof fn copies_are_exact(s: HleView, g: GuestView, data: Seq<u8>, other: u64, len: int)
    requires
        complete(s),
        g.cpu.x.len() == 29,
        g.mem.wf(),
        g.mem.read(g.cpu.x[1], g.cpu.x[2] as int) == Ok::<Seq<u8>, ErrorView>(data),
        g.mem.write(g.cpu.x[0], data).1 is Ok,
        0 <= len,
    ensures
        ({
            let dst = g.cpu.x[0];
            let n = g.cpu.x[2];
            let h = after_call(s, "memcpy"@, g);
            &&& h == after_call(s, "memmove"@, g)
            &&& returned(g, h, dst)
            &&& h.log == g.log
            &&& g.mem.read(dst, n as int) is Ok ==> h.mem.read(dst, n as int) == Ok::<
                Seq<u8>,
                ErrorView,
            >(data)
            &&& other + len <= dst || dst + n <= other ==> h.mem.read(other, len) == g.mem.read(
                other,
                len,
            )
        }),
{
    lemma_c(s);
    let dst = g.cpu.x[0];
    lemma_read_len(g.mem, g.cpu.x[1], g.cpu.x[2] as int);
    if g.mem.read(dst, g.cpu.x[2] as int) is Ok {
        space::read_after_write(g.mem, dst, data);
    }
    if other + len <= dst || dst + g.cpu.x[2] <= other {
        space::write_leaves_the_rest(g.mem, dst, data, other, len);
    }
}

proof fn lemma_read_len(m: MemView, addr: u64, n: int)
    requires
        m.wf(),
        0 <= n,
    ensures
        m.read(addr, n) matches Ok(b) ==> b.len() == n,
{
    space::lemma_floor_index(m.regions, addr);
}

/// `memset(dst, c, n)` makes the `n` bytes at `dst` the low byte of `c`, and
/// `bzero(dst, n)` makes them zeros; no other memory is touched.
pub proof fn fills_are_exact(s: HleView, g: GuestView, other: u64, len: int)
    requires
        complete(s),
        g.cpu.x.len() == 29,
        g.mem.wf(),
        0 <= len,
    ensures
        ({
            let dst = g.cpu.x[0];
            let n = g.cpu.x[2];
            let h = after_call(s, "memset"@, g);
            let fill = Seq::new(n as nat, |i: int| (g.cpu.x[1] % 256) as u8);
            &&& returned(g, h, dst)
            &&& g.mem.read(dst, n as int) is Ok && g.mem.write(dst, fill).1 is Ok ==> h.mem.read(
                dst,
                n as int,
            ) == Ok::<Seq<u8>, ErrorView>(fill)
            &&& other + len <= dst || dst + n <= other ==> h.mem.read(other, len) == g.mem.read(
                other,
                len,
            )
        }),
        ({
            let dst = g.cpu.x[0];
            let n = g.cpu.x[1];
            let h = after_call(s, "bzero"@, g);
            let fill = Seq::new(n as nat, |i: int| 0u8);
            &&& returned(g, h, 0)
            &&& g.mem.read(dst, n as int) is Ok && g.mem.write(dst, fill).1 is Ok ==> h.mem.read(
                dst,
                n as int,
            ) == Ok::<Seq<u8>, ErrorView>(fill)
            &&& other + len <= dst || dst + n <= other ==> h.mem.read(other, len) == g.mem.read(
                other,
                len,
            )
        }),
{
    lemma_c(s);
    lemma_filled(g.mem, g.cpu.x[0], (g.cpu.x[1] % 256) as u8, g.cpu.x[2], other, len);
    lemma_filled(g.mem, g.cpu.x[0], 0, g.cpu.x[1], other, len);
}

proof fn lemma_filled(m: MemView, dst: u64, byte: u8, n: u64, other: u64, len: int)
    requires
        m.wf(),
        0 <= len,
    ensures
        ({
            let after = libsystem::filled(m, dst, byte, n);
            let fill = Seq::new(n as nat, |i: int| byte);
            &&& m.read(dst, n as int) is Ok && m.write(dst, fill).1 is Ok ==> after.read(
                dst,
                n as int,
            ) == Ok::<Seq<u8>, ErrorView>(fill)
            &&& other + len <= dst || dst + n <= other ==> after.read(other, len) == m.read(
                other,
                len,
            )
        }),
{
    let fill = Seq::new(n as nat, |i: int| byte);
    assert(fill.len() == n);
    if m.read(dst, n as int) is Ok && m.write(dst, fill).1 is Ok {
        space::read_after_write(m, dst, fill);
    }
    if other + len <= dst || dst + n <= other {
        space::write_leaves_the_rest(m, dst, fill, other, len);
    }
}

/// `strlen(p)` answers how many bytes the text at `p` takes.
pub proof fn lengths_count_bytes(s: HleView, g: GuestView, t: Seq<char>)
    requires
        complete(s),
        g.cpu.x.len() == 29,
        g.mem.read_cstr(g.cpu.x[0], 0x10_0000) == Ok::<Seq<char>, ErrorView>(t),
        vstd::utf8::encode_utf8(t).len() <= u64::MAX,
    ensures
        returned(
            g,
            after_call(s, "strlen"@, g),
            vstd::utf8::encode_utf8(t).len() as u64,
        ),
        after_call(s, "strlen"@, g).mem == g.mem,
{
    lemma_c(s);
}

/// What a comparison of `a` and `b` answers if they are alike up to byte `k`.
pub open spec fn verdict(a: Seq<u8>, b: Seq<u8>, k: int, v: u64) -> bool {
    &&& k < a.len() && k < b.len() && a[k] < b[k] ==> v == u64::MAX
    &&& k < a.len() && k < b.len() && a[k] > b[k] ==> v == 1
    &&& k == a.len() && k < b.len() ==> v == u64::MAX
    &&& k < a.len() && k == b.len() ==> v == 1
    &&& k == a.len() && k == b.len() ==> v == 0
}

proof fn lemma_verdict(a: Seq<u8>, b: Seq<u8>, k: int)
    requires
        0 <= k <= a.len(),
        k <= b.len(),
        forall|j: int| 0 <= j < k ==> a[j] == b[j],
    ensures
        verdict(a, b, k, libsystem::order_value(bytes::order(a, b))),
    decreases k,
{
    if k > 0 {
        assert(a[0] == b[0]);
        let x = a.drop_first();
        let y = b.drop_first();
        assert forall|j: int| 0 <= j < k - 1 implies x[j] == y[j] by {
            assert(a[j + 1] == b[j + 1]);
        }
        lemma_verdict(x, y, k - 1);
    }
}

/// `memcmp` and `strcmp` go by the first byte that differs: less is minus one,
/// more is one, and zero is for equal ranges only.
pub proof fn comparisons_go_by_the_first_difference(
    s: HleView,
    g: GuestView,
    a: Seq<u8>,
    b: Seq<u8>,
    t: Seq<char>,
    u: Seq<char>,
    k: int,
)
    requires
        complete(s),
        g.cpu.x.len() == 29,
    ensures
        ({
            let h = after_call(s, "memcmp"@, g);
            g.mem.read(g.cpu.x[0], g.cpu.x[2] as int) == Ok::<Seq<u8>, ErrorView>(a) && g.mem.read(
                g.cpu.x[1],
                g.cpu.x[2] as int,
            ) == Ok::<Seq<u8>, ErrorView>(b) && 0 <= k <= a.len() && k <= b.len() && (forall|j: int|
                0 <= j < k ==> a[j] == b[j]) ==> returned(g, h, h.cpu.x[0]) && verdict(
                a,
                b,
                k,
                h.cpu.x[0],
            )
        }),
        ({
            let h = after_call(s, "strcmp"@, g);
            let x = vstd::utf8::encode_utf8(t);
            let y = vstd::utf8::encode_utf8(u);
            g.mem.read_cstr(g.cpu.x[0], 0x1_0000) == Ok::<Seq<char>, ErrorView>(t)
                && g.mem.read_cstr(g.cpu.x[1], 0x1_0000) == Ok::<Seq<char>, ErrorView>(u) && 0 <= k
                <= x.len() && k <= y.len() && (forall|j: int| 0 <= j < k ==> x[j] == y[j])
                ==> returned(g, h, h.cpu.x[0]) && verdict(x, y, k, h.cpu.x[0])
        }),
{
    lemma_c(s);
    if 0 <= k <= a.len() && k <= b.len() && (forall|j: int| 0 <= j < k ==> a[j] == b[j]) {
        lemma_verdict(a, b, k);
    }
    let x = vstd::utf8::encode_utf8(t);
    let y = vstd::utf8::encode_utf8(u);
    if 0 <= k <= x.len() && k <= y.len() && (forall|j: int| 0 <= j < k ==> x[j] == y[j]) {
        lemma_verdict(x, y, k);
    }
}

/// `NSLog` logs the text that the pointer in the third word of the string object
/// leads to; the display is number 1; and what is accepted but not done answers
/// zero and changes nothing.
pub proof fn framework_calls_answer(s: HleView, g: GuestView, p: u64, t: Seq<char>)
    requires
        complete(s),
        g.cpu.x.len() == 29,
    ensures
        g.cpu.x[0] + 16 <= u64::MAX && g.mem.read_u64((g.cpu.x[0] + 16) as u64) == Ok::<
            u64,
            ErrorView,
        >(p) && p != 0 && g.mem.read_cstr(p, 4096) == Ok::<Seq<char>, ErrorView>(t) ==> ({
            let h = after_call(s, "NSLog"@, g);
            &&& returned(g, h, 0)
            &&& h.mem == g.mem
            &&& h.log.len() == g.log.len() + 1
            &&& h.log.drop_last() == g.log
            &&& h.log.last().text == t
        }),
        after_call(s, "CGMainDisplayID"@, g) == g.returning(1),
        ({
            let h = after_call(s, "UIApplicationMain"@, g);
            returned(g, h, 0) && h.mem == g.mem && h.log.len() == g.log.len() + 1
                && h.log.drop_last() == g.log
        }),
{
    let map = choose|map: Map<Seq<char>, ShimFn>|
        s.shims == #[trigger] frameworks::all_installed(map);
    framework_functions_are_registered(map);
    let line = foundation::nslog_line(g.mem, g.cpu.x[0]);
    assert(g.log.push(line).drop_last() =~= g.log);
    let start = uikit::start_line(g.cpu.x[0], g.cpu.x[2], g.cpu.x[3]);
    assert(g.log.push(start).drop_last() =~= g.log);
}

/// The reference counting functions of the runtime and those for selectors
/// answer their argument, and releasing answers nothing.
pub proof fn runtime_calls_answer(s: HleView, g: GuestView)
    requires
        complete(s),
        g.cpu.x.len() == 29,
    ensures
        HleEnvironment::called(s, "objc_retain"@, g) == (s, g, Dispatch::Handled),
        HleEnvironment::called(s, "objc_autorelease"@, g) == (s, g, Dispatch::Handled),
        HleEnvironment::called(s, "sel_registerName"@, g) == (s, g, Dispatch::Handled),
        HleEnvironment::called(s, "sel_getUid"@, g) == (s, g, Dispatch::Handled),
        HleEnvironment::called(s, "objc_release"@, g) == (s, g.returning(0), Dispatch::Handled),
        HleEnvironment::called(s, "objc_msgSend"@, g).1 == s.runtime.msg_send(g).1,
        HleEnvironment::called(s, "objc_msgSend"@, g).0.runtime == s.runtime.msg_send(g).0,
{
    let map = choose|map: Map<Seq<char>, ShimFn>|
        s.shims == #[trigger] frameworks::all_installed(map);
    runtime_functions_are_registered(map);
    assert(g.cpu.x.update(0, g.cpu.x[0]) =~= g.cpu.x);
}

/// What `initWith` starts, a selector that starts otherwise does not.
proof fn lemma_no_init(sel: Seq<char>)
    requires
        sel.len() > 0,
        sel[0] != 'i',
    ensures
        !"initWith"@.is_prefix_of(sel),
{
    reveal_strlit("initWith");
    if "initWith"@.is_prefix_of(sel) {
        assert(sel.subrange(0, 8)[0] == "initWith"@[0]);
    }
}

/// What the messages that every object understands answer: making an instance is
/// for class objects only; initialising, retaining, asking for the object itself
/// or its hash answers the receiver; releasing answers nil; the retain count is
/// the count, and one for what has none; the class of an instance is the object
/// of the class it was made from.
pub proof fn messages_are_answered(rt: RuntimeView, recv: u64, mem: MemView, sel: Seq<char>)
    ensures
        rt.class_index_by_addr.contains_key(recv) ==> {
            &&& rt.message(recv, "alloc"@, mem) == rt.instance_or_null(recv, mem)
            &&& rt.message(recv, "allocWithZone:"@, mem) == rt.instance_or_null(recv, mem)
            &&& rt.message(recv, "new"@, mem) == rt.instance_or_null(recv, mem)
        },
        !rt.class_index_by_addr.contains_key(recv) ==> {
            &&& rt.message(recv, "alloc"@, mem) == (rt, mem, 0u64)
            &&& rt.message(recv, "new"@, mem) == (rt, mem, 0u64)
        },
        rt.message(recv, "init"@, mem) == (rt, mem, recv),
        "initWith"@.is_prefix_of(sel) ==> rt.message(recv, sel, mem) == (rt, mem, recv),
        rt.message(recv, "self"@, mem) == (rt, mem, recv),
        rt.message(recv, "autorelease"@, mem) == (rt, mem, recv),
        rt.message(recv, "hash"@, mem) == (rt, mem, recv),
        rt.message(recv, "retain"@, mem).2 == recv,
        rt.message(recv, "release"@, mem).2 == 0,
        rt.retain_counts.contains_key(recv) && 0 <= rt.retain_counts[recv] < i64::MAX ==> {
            &&& rt.message(recv, "retain"@, mem).0 == (RuntimeView {
                retain_counts: rt.retain_counts.insert(
                    recv,
                    (rt.retain_counts[recv] + 1) as i64,
                ),
                ..rt
            })
            &&& rt.message(recv, "release"@, mem).0 == (RuntimeView {
                retain_counts: rt.retain_counts.insert(
                    recv,
                    (rt.retain_counts[recv] - 1) as i64,
                ),
                ..rt
            })
            &&& rt.message(recv, "retainCount"@, mem) == (
                rt,
                mem,
                rt.retain_counts[recv] as u64,
            )
        },
        !rt.retain_counts.contains_key(recv) ==> {
            &&& rt.message(recv, "retain"@, mem).0 == rt
            &&& rt.message(recv, "release"@, mem).0 == rt
            &&& rt.message(recv, "retainCount"@, mem) == (rt, mem, 1u64)
        },
        !rt.instance_class.contains_key(recv) ==> rt.message(recv, "class"@, mem) == (
            rt,
            mem,
            recv,
        ),
        rt.instance_class.contains_key(recv) && rt.class_addr_by_name.contains_key(
            rt.classes[rt.instance_class[recv] as int].name,
        ) ==> rt.message(recv, "class"@, mem) == (
            rt,
            mem,
            rt.class_addr_by_name[rt.classes[rt.instance_class[recv] as int].name],
        ),
{
    reveal_strlit("alloc");
    reveal_strlit("allocWithZone:");
    reveal_strlit("new");
    reveal_strlit("init");
    reveal_strlit("initWith");
    reveal_strlit("retain");
    reveal_strlit("self");
    reveal_strlit("autorelease");
    reveal_strlit("release");
    reveal_strlit("retainCount");
    reveal_strlit("class");
    reveal_strlit("hash");
    assert("alloc"@.len() == 5 && "alloc"@[0] == 'a');
    assert("allocWithZone:"@.len() == 14 && "allocWithZone:"@[0] == 'a');
    assert("new"@.len() == 3 && "new"@[0] == 'n');
    assert("init"@.len() == 4 && "init"@[0] == 'i');
    assert("initWith"@.len() == 8 && "initWith"@[0] == 'i');
    assert("retain"@.len() == 6 && "retain"@[0] == 'r');
    assert("self"@.len() == 4 && "self"@[0] == 's');
    assert("autorelease"@.len() == 11 && "autorelease"@[0] == 'a');
    assert("release"@.len() == 7 && "release"@[0] == 'r');
    assert("retainCount"@.len() == 11 && "retainCount"@[0] == 'r');
    assert("class"@.len() == 5 && "class"@[0] == 'c');
    assert("hash"@.len() == 4 && "hash"@[0] == 'h');
    lemma_no_init("alloc"@);
    lemma_no_init("new"@);
    lemma_no_init("retain"@);
    lemma_no_init("self"@);
    lemma_no_init("autorelease"@);
    lemma_no_init("release"@);
    lemma_no_init("retainCount"@);
    lemma_no_init("class"@);
    lemma_no_init("hash"@);
    if "initWith"@.is_prefix_of(sel) {
        assert(sel.subrange(0, 8)[0] == "initWith"@[0]);
        assert(sel[0] == 'i');
    }
}

/// A symbol that no framework has is left to the caller.
pub proof fn unknown_symbols_are_left_alone(s: HleView, name: Seq<char>, g: GuestView)
    requires
        !s.shims.contains_key(name),
    ensures
        HleEnvironment::called(s, name, g) == (s, g, Dispatch::Unhandled),
{
}

/// At the start of a process the two root classes are known.
pub proof fn processes_start_with_the_roots(s: HleView, g: GuestView)
    requires
        s.runtime == RuntimeView::empty(),
    ensures
        ({
            let (t, h) = HleEnvironment::started(s, g);
            &&& h == g
            &&& t.shims == s.shims
            &&& t.runtime.classes.len() == 2
            &&& t.runtime.classes[0].name == "NSObject"@ && t.runtime.classes[0].superclass is None
            &&& t.runtime.classes[1].name == "NSProxy"@ && t.runtime.classes[1].superclass is None
            &&& t.runtime == (RuntimeView { classes: t.runtime.classes, ..s.runtime })
        }),
{
    reveal_strlit("NSObject");
    reveal_strlit("NSProxy");
    assert("NSObject"@.len() == 8 && "NSProxy"@.len() == 7);
    reveal_with_fuel(crate::hle::runtime::class_numbered, 3);
}

/// `realloc` of nothing is `malloc`; what cannot be read has the length zero and
/// compares like zeros.
pub proof fn unreadable_arguments_are_harmless(s: HleView, g: GuestView)
    requires
        complete(s),
        g.cpu.x.len() == 29,
    ensures
        g.cpu.x[0] == 0 ==> ({
            let m = GuestView {
                cpu: crate::kernel::cpu::CpuView { x: g.cpu.x.update(0, g.cpu.x[1]), ..g.cpu },
                ..g
            };
            after_call(s, "realloc"@, g) == after_call(s, "malloc"@, m)
        }),
        g.mem.read_cstr(g.cpu.x[0], 0x10_0000) is Err ==> after_call(s, "strlen"@, g)
            == g.returning(0),
        g.mem.read(g.cpu.x[0], g.cpu.x[2] as int) is Err && g.mem.read(
            g.cpu.x[1],
            g.cpu.x[2] as int,
        ) is Err ==> after_call(s, "memcmp"@, g) == g.returning(0),
        g.mem.read(g.cpu.x[1], g.cpu.x[2] as int) is Err ==> after_call(s, "memcpy"@, g)
            == g.returning(g.cpu.x[0]),
{
    lemma_c(s);
    if g.cpu.x[0] == 0 {
        let m = GuestView {
            cpu: crate::kernel::cpu::CpuView { x: g.cpu.x.update(0, g.cpu.x[1]), ..g.cpu },
            ..g
        };
        let v = libsystem::block(g.mem, g.cpu.x[1]).1;
        assert(m.cpu.x[0] == g.cpu.x[1]);
        assert(m.cpu.x.update(0, v) =~= g.cpu.x.update(0, v));
    }
    assert(vstd::utf8::encode_utf8(Seq::<char>::empty()).len() == 0);
    let zeros = Seq::new(g.cpu.x[2] as nat, |i: int| 0u8);
    lemma_verdict(zeros, zeros, zeros.len() as int);
}

/// A class that is asked for the first time gets an object of sixteen bytes on
/// the heap, if there is room, whose first word is its address with a mark; it
/// is a subclass of `NSObject` if that is known; and nothing else is forgotten
/// or changed.
pub proof fn new_classes_get_an_object(rt: RuntimeView, name: Seq<char>, mem: MemView)
    requires
        rt.wf(),
        mem.wf(),
        !rt.class_addr_by_name.contains_key(name),
        rt.classes.len() < usize::MAX,
    ensures
        rt.class_object(name, mem).2 matches Some(a) ==> ({
            let (after, m, _) = rt.class_object(name, mem);
            &&& mem.heap.cursor <= a && a % 16 == 0 && m.heap.cursor == a + 16
            &&& m.read(a, 8) is Ok ==> m.read_u64(a) == Ok::<u64, ErrorView>(
                0x0b1c_0000_0000_0000 | a,
            )
            &&& after.class_addr_by_name == rt.class_addr_by_name.insert(name, a)
            &&& after.class_index_by_addr.contains_key(a)
            &&& after.instance_class == rt.instance_class
            &&& after.retain_counts == rt.retain_counts
            &&& after.classes.len() >= rt.classes.len()
            &&& after.classes.take(rt.classes.len() as int) == rt.classes
            &&& after.classes.len() > rt.classes.len() ==> {
                &&& after.classes.len() == rt.classes.len() + 1
                &&& after.classes.last().name == name
                &&& after.classes.last().superclass == crate::hle::runtime::class_numbered(
                    rt.classes,
                    "NSObject"@,
                    0,
                )
                &&& after.class_index_by_addr[a] == rt.classes.len()
            }
        }),
{
    allocator::blocks_are_aligned_and_fresh(mem.heap, 16, 16);
    let (h, r) = mem.heap_alloc(16, 16);
    if let Ok(a) = r {
        let v = 0x0b1c_0000_0000_0000u64 | a;
        let b = bytes::le64_bytes(v);
        bytes::le64_roundtrip(v);
        if h.write(a, b).1 is Ok {
            space::lemma_same_layout(h, a, b, a);
            space::lemma_floor_index(h.regions, a);
            if h.read(a, 8) is Ok {
                space::word64_roundtrip(h, a, v);
            }
        }
    }
    let after = rt.class_object(name, mem).0;
    assert(after.classes.take(rt.classes.len() as int) =~= rt.classes);
}

/// A class is known by the first entry of the table that has its name.
pub proof fn classes_are_found_by_name(classes: Seq<ClassView>, name: Seq<char>, k: int)
    requires
        classes.len() <= usize::MAX,
    ensures
        0 <= k < classes.len() && classes[k].name == name && (forall|j: int|
            0 <= j < k ==> (#[trigger] classes[j]).name != name)
            ==> crate::hle::runtime::class_numbered(classes, name, 0) == Some(k as usize),
        (forall|j: int| 0 <= j < classes.len() ==> (#[trigger] classes[j]).name != name)
            ==> crate::hle::runtime::class_numbered(classes, name, 0) is None,
{
    lemma_found(classes, name, k, 0);
}

proof fn lemma_found(classes: Seq<ClassView>, name: Seq<char>, k: int, from: int)
    requires
        classes.len() <= usize::MAX,
        0 <= from <= classes.len(),
    ensures
        from <= k < classes.len() && classes[k].name == name && (forall|j: int|
            from <= j < k ==> (#[trigger] classes[j]).name != name)
            ==> crate::hle::runtime::class_numbered(classes, name, from) == Some(k as usize),
        (forall|j: int| from <= j < classes.len() ==> (#[trigger] classes[j]).name != name)
            ==> crate::hle::runtime::class_numbered(classes, name, from) is None,
    decreases classes.len() - from,
{
    if from < classes.len() {
        lemma_found(classes, name, k, from + 1);
        if from <= k < classes.len() && classes[k].name == name && (forall|j: int|
            from <= j < k ==> (#[trigger] classes[j]).name != name) && from < k {
            assert(classes[from].name != name);
        }
    }
}

/// An instance is made of a class object only, takes sixteen bytes of the heap,
/// and changes the tables by itself alone.
pub proof fn instances_are_made_of_classes(rt: RuntimeView, class: u64, mem: MemView)
    requires
        mem.wf(),
    ensures
        !rt.class_index_by_addr.contains_key(class) ==> rt.instance_or_null(class, mem) == (
            rt,
            mem,
            0u64,
        ),
        rt.instance(class, mem).2 matches Some(o) ==> ({
            let (after, m, v) = rt.instance_or_null(class, mem);
            &&& v == o
            &&& mem.heap.cursor <= o && o % 16 == 0 && m.heap.cursor == o + 16
            &&& after == (RuntimeView {
                instance_class: rt.instance_class.insert(o, rt.class_index_by_addr[class]),
                retain_counts: rt.retain_counts.insert(o, 1),
                ..rt
            })
        }),
{
    allocator::blocks_are_aligned_and_fresh(mem.heap, 16, 16);
}

// ---- stubs ------------------------------------------------------------------

proof fn lemma_foundation_stub(map: Map<Seq<char>, ShimFn>, j: int, name: Seq<char>)
    requires
        0 <= j < foundation::stubs().len(),
        foundation::stubs()[j] == name,
        name.len() > 1,
        name[0] != 'U' && name[0] != 'g' && name[1] != 'G',
    ensures
        leads_to(frameworks::all_installed(map), name, ShimFn::StubZero),
{
    let a = libsystem::installed(objc_rt::installed(map));
    let b = foundation::installed(a);
    let c = uikit::installed(b);
    let d = coregraphics::installed(c);
    lemma_stubs_answer(
        a.insert("NSLog"@, ShimFn::LogMessage).insert("CFShow"@, ShimFn::LogMessage),
        foundation::stubs(),
        0,
        name,
    );
    lemma_uikit(b, name);
    lemma_coregraphics(c, name);
    lemma_gles(d, name);
}

proof fn lemma_uikit_stub(map: Map<Seq<char>, ShimFn>, j: int, name: Seq<char>)
    requires
        0 <= j < uikit::stubs().len(),
        uikit::stubs()[j] == name,
        name.len() > 1,
        name[0] == 'U',
    ensures
        leads_to(frameworks::all_installed(map), name, ShimFn::StubZero),
{
    let b = foundation::installed(libsystem::installed(objc_rt::installed(map)));
    let c = uikit::installed(b);
    let d = coregraphics::installed(c);
    lemma_stubs_answer(
        b.insert("UIApplicationMain"@, ShimFn::ApplicationMain),
        uikit::stubs(),
        0,
        name,
    );
    lemma_coregraphics(c, name);
    lemma_gles(d, name);
}

proof fn lemma_coregraphics_stub(map: Map<Seq<char>, ShimFn>, j: int, name: Seq<char>)
    requires
        0 <= j < coregraphics::stubs().len(),
        coregraphics::stubs()[j] == name,
        name.len() > 1,
        name.len() != 15,
        name[0] == 'C',
    ensures
        leads_to(frameworks::all_installed(map), name, ShimFn::StubZero),
{
    let c = uikit::installed(
        foundation::installed(libsystem::installed(objc_rt::installed(map))),
    );
    let d = coregraphics::installed(c);
    assert("CGMainDisplayID"@.len() == 15) by {
        reveal_strlit("CGMainDisplayID");
    }
    lemma_stubs_answer(c, coregraphics::stubs(), 0, name);
    lemma_gles(d, name);
}

proof fn lemma_gles_stub(map: Map<Seq<char>, ShimFn>, j: int, name: Seq<char>)
    requires
        0 <= j < gles::stubs().len(),
        gles::stubs()[j] == name,
    ensures
        leads_to(frameworks::all_installed(map), name, ShimFn::StubZero),
{
    let d = coregraphics::installed(
        uikit::installed(
            foundation::installed(libsystem::installed(objc_rt::installed(map))),
        ),
    );
    lemma_stubs_answer(d, gles::stubs(), 0, name);
}

/// The functions of the frameworks that are accepted without doing anything
/// answer zero.
pub proof fn framework_stubs_are_registered(map: Map<Seq<char>, ShimFn>)
    ensures
        ({
            let m = frameworks::all_installed(map);
            &&& leads_to(m, "CFRetain"@, ShimFn::StubZero)
            &&& leads_to(m, "CFRelease"@, ShimFn::StubZero)
            &&& leads_to(m, "CFBridgingRetain"@, ShimFn::StubZero)
            &&& leads_to(m, "CFBridgingRelease"@, ShimFn::StubZero)
            &&& leads_to(m, "NSSearchPathForDirectoriesInDomains"@, ShimFn::StubZero)
            &&& leads_to(m, "CFStringCreateWithCString"@, ShimFn::StubZero)
            &&& leads_to(m, "CFAllocatorGetDefault"@, ShimFn::StubZero)
            &&& leads_to(m, "NSStringFromClass"@, ShimFn::StubZero)
            &&& leads_to(m, "objc_setAssociatedObject"@, ShimFn::StubZero)
            &&& leads_to(m, "objc_getAssociatedObject"@, ShimFn::StubZero)
            &&& leads_to(m, "UIGraphicsGetCurrentContext"@, ShimFn::StubZero)
            &&& leads_to(m, "UIGraphicsBeginImageContext"@, ShimFn::StubZero)
            &&& leads_to(m, "UIGraphicsEndImageContext"@, ShimFn::StubZero)
            &&& leads_to(m, "UIImagePNGRepresentation"@, ShimFn::StubZero)
            &&& leads_to(m, "UIScreenMainScreen"@, ShimFn::StubZero)
        }),
{
    assert("CFRetain"@.len() > 1 && "CFRetain"@[0] == 'C' && "CFRetain"@[1] == 'F') by {
        reveal_strlit("CFRetain");
    }
    lemma_foundation_stub(map, 0, "CFRetain"@);
    assert("CFRelease"@.len() > 1 && "CFRelease"@[0] == 'C' && "CFRelease"@[1] == 'F') by {
        reveal_strlit("CFRelease");
    }
    lemma_foundation_stub(map, 1, "CFRelease"@);
    assert("CFBridgingRetain"@.len() > 1 && "CFBridgingRetain"@[0] == 'C' && "CFBridgingRetain"@[1] == 'F') by {
        reveal_strlit("CFBridgingRetain");
    }
    lemma_foundation_stub(map, 2, "CFBridgingRetain"@);
    assert("CFBridgingRelease"@.len() > 1 && "CFBridgingRelease"@[0] == 'C' && "CFBridgingRelease"@[1] == 'F') by {
        reveal_strlit("CFBridgingRelease");
    }
    lemma_foundation_stub(map, 3, "CFBridgingRelease"@);
    assert("NSSearchPathForDirectoriesInDomains"@.len() > 1 && "NSSearchPathForDirectoriesInDomains"@[0] == 'N' && "NSSearchPathForDirectoriesInDomains"@[1] == 'S') by {
        reveal_strlit("NSSearchPathForDirectoriesInDomains");
    }
    lemma_foundation_stub(map, 4, "NSSearchPathForDirectoriesInDomains"@);
    assert("CFStringCreateWithCString"@.len() > 1 && "CFStringCreateWithCString"@[0] == 'C' && "CFStringCreateWithCString"@[1] == 'F') by {
        reveal_strlit("CFStringCreateWithCString");
    }
    lemma_foundation_stub(map, 5, "CFStringCreateWithCString"@);
    assert("CFAllocatorGetDefault"@.len() > 1 && "CFAllocatorGetDefault"@[0] == 'C' && "CFAllocatorGetDefault"@[1] == 'F') by {
        reveal_strlit("CFAllocatorGetDefault");
    }
    lemma_foundation_stub(map, 6, "CFAllocatorGetDefault"@);
    assert("NSStringFromClass"@.len() > 1 && "NSStringFromClass"@[0] == 'N' && "NSStringFromClass"@[1] == 'S') by {
        reveal_strlit("NSStringFromClass");
    }
    lemma_foundation_stub(map, 7, "NSStringFromClass"@);
    assert("objc_setAssociatedObject"@.len() > 1 && "objc_setAssociatedObject"@[0] == 'o' && "objc_setAssociatedObject"@[1] == 'b') by {
        reveal_strlit("objc_setAssociatedObject");
    }
    lemma_foundation_stub(map, 8, "objc_setAssociatedObject"@);
    assert("objc_getAssociatedObject"@.len() > 1 && "objc_getAssociatedObject"@[0] == 'o' && "objc_getAssociatedObject"@[1] == 'b') by {
        reveal_strlit("objc_getAssociatedObject");
    }
    lemma_foundation_stub(map, 9, "objc_getAssociatedObject"@);
    assert("UIGraphicsGetCurrentContext"@.len() > 1 && "UIGraphicsGetCurrentContext"@[0] == 'U') by {
        reveal_strlit("UIGraphicsGetCurrentContext");
    }
    lemma_uikit_stub(map, 0, "UIGraphicsGetCurrentContext"@);
    assert("UIGraphicsBeginImageContext"@.len() > 1 && "UIGraphicsBeginImageContext"@[0] == 'U') by {
        reveal_strlit("UIGraphicsBeginImageContext");
    }
    lemma_uikit_stub(map, 1, "UIGraphicsBeginImageContext"@);
    assert("UIGraphicsEndImageContext"@.len() > 1 && "UIGraphicsEndImageContext"@[0] == 'U') by {
        reveal_strlit("UIGraphicsEndImageContext");
    }
    lemma_uikit_stub(map, 2, "UIGraphicsEndImageContext"@);
    assert("UIImagePNGRepresentation"@.len() > 1 && "UIImagePNGRepresentation"@[0] == 'U') by {
        reveal_strlit("UIImagePNGRepresentation");
    }
    lemma_uikit_stub(map, 3, "UIImagePNGRepresentation"@);
    assert("UIScreenMainScreen"@.len() > 1 && "UIScreenMainScreen"@[0] == 'U') by {
        reveal_strlit("UIScreenMainScreen");
    }
    lemma_uikit_stub(map, 4, "UIScreenMainScreen"@);
}

/// The drawing functions are accepted without doing anything and answer zero.
pub proof fn drawing_stubs_are_registered(map: Map<Seq<char>, ShimFn>)
    ensures
        ({
            let m = frameworks::all_installed(map);
            &&& leads_to(m, "CGColorCreate"@, ShimFn::StubZero)
            &&& leads_to(m, "CGColorRelease"@, ShimFn::StubZero)
            &&& leads_to(m, "CGContextSetFillColorWithColor"@, ShimFn::StubZero)
            &&& leads_to(m, "CGContextFillRect"@, ShimFn::StubZero)
            &&& leads_to(m, "CGContextRef"@, ShimFn::StubZero)
            &&& leads_to(m, "CGBitmapContextCreate"@, ShimFn::StubZero)
            &&& leads_to(m, "CGColorSpaceCreateDeviceRGB"@, ShimFn::StubZero)
            &&& leads_to(m, "CGColorSpaceRelease"@, ShimFn::StubZero)
            &&& leads_to(m, "CGContextDrawImage"@, ShimFn::StubZero)
            &&& leads_to(m, "CGImageRelease"@, ShimFn::StubZero)
            &&& leads_to(m, "glClear"@, ShimFn::StubZero)
            &&& leads_to(m, "glClearColor"@, ShimFn::StubZero)
            &&& leads_to(m, "glViewport"@, ShimFn::StubZero)
            &&& leads_to(m, "glGenBuffers"@, ShimFn::StubZero)
            &&& leads_to(m, "glBindBuffer"@, ShimFn::StubZero)
            &&& leads_to(m, "glBufferData"@, ShimFn::StubZero)
            &&& leads_to(m, "glCreateShader"@, ShimFn::StubZero)
            &&& leads_to(m, "glCompileShader"@, ShimFn::StubZero)
            &&& leads_to(m, "glCreateProgram"@, ShimFn::StubZero)
            &&& leads_to(m, "glUseProgram"@, ShimFn::StubZero)
            &&& leads_to(m, "glDrawArrays"@, ShimFn::StubZero)
            &&& leads_to(m, "glDrawElements"@, ShimFn::StubZero)
            &&& leads_to(m, "glGetError"@, ShimFn::StubZero)
            &&& leads_to(m, "glFlush"@, ShimFn::StubZero)
            &&& leads_to(m, "glFinish"@, ShimFn::StubZero)
        }),
{
    assert("CGColorCreate"@.len() == 13 && "CGColorCreate"@[0] == 'C') by {
        reveal_strlit("CGColorCreate");
    }
    lemma_coregraphics_stub(map, 0, "CGColorCreate"@);
    assert("CGColorRelease"@.len() == 14 && "CGColorRelease"@[0] == 'C') by {
        reveal_strlit("CGColorRelease");
    }
    lemma_coregraphics_stub(map, 1, "CGColorRelease"@);
    assert("CGContextSetFillColorWithColor"@.len() == 30 && "CGContextSetFillColorWithColor"@[0] == 'C') by {
        reveal_strlit("CGContextSetFillColorWithColor");
    }
    lemma_coregraphics_stub(map, 2, "CGContextSetFillColorWithColor"@);
    assert("CGContextFillRect"@.len() == 17 && "CGContextFillRect"@[0] == 'C') by {
        reveal_strlit("CGContextFillRect");
    }
    lemma_coregraphics_stub(map, 3, "CGContextFillRect"@);
    assert("CGContextRef"@.len() == 12 && "CGContextRef"@[0] == 'C') by {
        reveal_strlit("CGContextRef");
    }
    lemma_coregraphics_stub(map, 4, "CGContextRef"@);
    assert("CGBitmapContextCreate"@.len() == 21 && "CGBitmapContextCreate"@[0] == 'C') by {
        reveal_strlit("CGBitmapContextCreate");
    }
    lemma_coregraphics_stub(map, 5, "CGBitmapContextCreate"@);
    assert("CGColorSpaceCreateDeviceRGB"@.len() == 27 && "CGColorSpaceCreateDeviceRGB"@[0] == 'C') by {
        reveal_strlit("CGColorSpaceCreateDeviceRGB");
    }
    lemma_coregraphics_stub(map, 6, "CGColorSpaceCreateDeviceRGB"@);
    assert("CGColorSpaceRelease"@.len() == 19 && "CGColorSpaceRelease"@[0] == 'C') by {
        reveal_strlit("CGColorSpaceRelease");
    }
    lemma_coregraphics_stub(map, 7, "CGColorSpaceRelease"@);
    assert("CGContextDrawImage"@.len() == 18 && "CGContextDrawImage"@[0] == 'C') by {
        reveal_strlit("CGContextDrawImage");
    }
    lemma_coregraphics_stub(map, 8, "CGContextDrawImage"@);
    assert("CGImageRelease"@.len() == 14 && "CGImageRelease"@[0] == 'C') by {
        reveal_strlit("CGImageRelease");
    }
    lemma_coregraphics_stub(map, 9, "CGImageRelease"@);
    lemma_gles_stub(map, 0, "glClear"@);
    lemma_gles_stub(map, 1, "glClearColor"@);
    lemma_gles_stub(map, 2, "glViewport"@);
    lemma_gles_stub(map, 3, "glGenBuffers"@);
    lemma_gles_stub(map, 4, "glBindBuffer"@);
    lemma_gles_stub(map, 5, "glBufferData"@);
    lemma_gles_stub(map, 6, "glCreateShader"@);
    lemma_gles_stub(map, 7, "glCompileShader"@);
    lemma_gles_stub(map, 8, "glCreateProgram"@);
    lemma_gles_stub(map, 9, "glUseProgram"@);
    lemma_gles_stub(map, 10, "glDrawArrays"@);
    lemma_gles_stub(map, 11, "glDrawElements"@);
    lemma_gles_stub(map, 12, "glGetError"@);
    lemma_gles_stub(map, 13, "glFlush"@);
    lemma_gles_stub(map, 14, "glFinish"@);
}

} // verus!
