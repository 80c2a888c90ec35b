//! Modular framework registry.
//!
//! Each framework has an `install` that registers its shims; adding a function
//! is one registration, adding a framework one call in [`install_all`].

pub mod coregraphics;
pub mod foundation;
pub mod gles;
pub mod libsystem;
pub mod objc_rt;
pub mod uikit;

use vstd::hash_map::StringHashMap;
use vstd::prelude::*;

use crate::common::GuestAddr;
use crate::hle::runtime::{ObjcRuntime, RuntimeView};
use crate::kernel::env::{CallContext, Dispatch, GuestView};

verus! {

/// A native implementation of imported symbols.
#[derive(Clone, Copy, Debug, PartialEq, Eq, Structural)]
pub enum ShimFn {
    /// `objc_msgSend`.
    MessageSend,
    /// The class object of a name.
    GetClass,
    /// A new instance of a class.
    NewInstance,
    /// Answers its first argument.
    Identity,
    Malloc,
    Calloc,
    Realloc,
    /// `memcpy`, `memmove`.
    CopyBytes,
    /// `memset`.
    FillBytes,
    /// `bzero`.
    ClearBytes,
    /// `strlen`.
    StringLength,
    /// Order of two strings.
    StringOrder,
    /// Order of two byte ranges.
    ByteOrder,
    /// `NSLog`.
    LogMessage,
    /// `UIApplicationMain`.
    ApplicationMain,
    /// `CGMainDisplayID`.
    MainDisplay,
    /// Answers zero.
    StubZero,
}

/// Symbol to shim.
pub type Registry = StringHashMap<ShimFn>;

/// The views of an array of names.
pub open spec fn name_views(v: Seq<&'static str>) -> Seq<Seq<char>> {
    v.map_values(|s: &'static str| s@)
}

/// The registry with the names from number `i` on registered as stubs.
pub open spec fn with_stubs(
    map: Map<Seq<char>, ShimFn>,
    names: Seq<Seq<char>>,
    i: int,
) -> Map<Seq<char>, ShimFn>
    decreases names.len() - i,
{
    if i < 0 || i >= names.len() {
        map
    } else {
        with_stubs(map.insert(names[i], ShimFn::StubZero), names, i + 1)
    }
}

/// The registry with every bundled framework.
pub open spec fn all_installed(map: Map<Seq<char>, ShimFn>) -> Map<Seq<char>, ShimFn> {
    gles::installed(
        coregraphics::installed(
            uikit::installed(
                foundation::installed(libsystem::installed(objc_rt::installed(map))),
            ),
        ),
    )
}

/// Install every bundled framework's shims.
pub fn install_all(map: &mut Registry)
    ensures
        final(map)@ == all_installed(old(map)@),
{
    objc_rt::install(map);
    libsystem::install(map);
    foundation::install(map);
    uikit::install(map);
    coregraphics::install(map);
    gles::install(map);
}

/// Register `name` as a stub.
pub fn register_stub(map: &mut Registry, name: &'static str)
    ensures
        final(map)@ == old(map)@.insert(name@, ShimFn::StubZero),
{
    map.insert(name.to_owned(), ShimFn::StubZero);
}

/// Register every one of `names` as a stub.
pub fn register_stubs(map: &mut Registry, names: &[&'static str])
    ensures
        final(map)@ == with_stubs(old(map)@, name_views(names@), 0),
{
    let ghost views = name_views(names@);
    let mut i: usize = 0;
    while i < names.len()
        invariant
            i <= names@.len(),
            views == name_views(names@),
            with_stubs(old(map)@, views, 0) == with_stubs(map@, views, i as int),
        decreases names@.len() - i,
    {
        let name = names[i];
        assert(views[i as int] == name@);
        register_stub(map, name);
        i += 1;
    }
}

/// What a shim does to the runtime and to the guest.
pub open spec fn serviced(shim: ShimFn, rt: RuntimeView, g: GuestView) -> (RuntimeView, GuestView) {
    let x = g.cpu.x;
    match shim {
        ShimFn::MessageSend => rt.msg_send(g),
        ShimFn::GetClass => {
            let name = libsystem::text_at(g.mem, x[0], 256);
            let (rt2, mem, a) = rt.class_object(name, g.mem);
            let v = match a {
                Some(v) => v,
                None => 0,
            };
            (rt2, GuestView { mem, ..g }.returning(v))
        },
        ShimFn::NewInstance => {
            let (rt2, mem, v) = rt.instance_or_null(x[0], g.mem);
            (rt2, GuestView { mem, ..g }.returning(v))
        },
        ShimFn::Identity => (rt, g.returning(x[0])),
        ShimFn::Malloc => {
            let (mem, v) = libsystem::block(g.mem, x[0]);
            (rt, GuestView { mem, ..g }.returning(v))
        },
        ShimFn::Calloc => {
            let (mem, v) = libsystem::block(g.mem, libsystem::saturated_product(x[0], x[1]));
            (rt, GuestView { mem, ..g }.returning(v))
        },
        ShimFn::Realloc => {
            let (mem, v) = libsystem::moved_block(g.mem, x[0], x[1]);
            (rt, GuestView { mem, ..g }.returning(v))
        },
        ShimFn::CopyBytes => (
            rt,
            GuestView { mem: libsystem::copied(g.mem, x[0], x[1], x[2]), ..g }.returning(x[0]),
        ),
        ShimFn::FillBytes => (
            rt,
            GuestView {
                mem: libsystem::filled(g.mem, x[0], (x[1] % 256) as u8, x[2]),
                ..g
            }.returning(x[0]),
        ),
        ShimFn::ClearBytes => (
            rt,
            GuestView { mem: libsystem::filled(g.mem, x[0], 0, x[1]), ..g }.returning(0),
        ),
        ShimFn::StringLength => (rt, g.returning(libsystem::length_at(g.mem, x[0]))),
        ShimFn::StringOrder => (rt, g.returning(libsystem::string_order_at(g.mem, x[0], x[1]))),
        ShimFn::ByteOrder => (rt, g.returning(libsystem::byte_order_at(g.mem, x[0], x[1], x[2]))),
        ShimFn::LogMessage => (
            rt,
            GuestView { log: g.log.push(foundation::nslog_line(g.mem, x[0])), ..g }.returning(0),
        ),
        ShimFn::ApplicationMain => (
            rt,
            GuestView { log: g.log.push(uikit::start_line(x[0], x[2], x[3])), ..g }.returning(0),
        ),
        ShimFn::MainDisplay => (rt, g.returning(1)),
        ShimFn::StubZero => (rt, g.returning(0)),
    }
}

/// A shim that answers zero.
pub fn stub_zero(rt: &mut ObjcRuntime, ctx: &mut CallContext<'_>) -> (r: Dispatch)
    ensures
        r == Dispatch::Handled,
        final(ctx).guest() == old(ctx).guest().returning(0),
        *final(rt) == *old(rt),
        *final(final(ctx).cpu) == *final(old(ctx).cpu),
        *final(final(ctx).mem) == *final(old(ctx).mem),
        *final(final(ctx).log) == *final(old(ctx).log),
{
    ctx.ret(0);
    Dispatch::Handled
}

/// Run a shim.
pub fn service(shim: ShimFn, rt: &mut ObjcRuntime, ctx: &mut CallContext<'_>) -> (r: Dispatch)
    requires
        old(rt)@.wf(),
        old(ctx).guest().mem.wf(),
    ensures
        (final(rt)@, final(ctx).guest()) == serviced(shim, old(rt)@, old(ctx).guest()),
        r == Dispatch::Handled,
        final(rt)@.wf(),
        final(ctx).guest().mem.wf(),
        *final(final(ctx).cpu) == *final(old(ctx).cpu),
        *final(final(ctx).mem) == *final(old(ctx).mem),
        *final(final(ctx).log) == *final(old(ctx).log),
{
    let x0 = ctx.arg(0);
    let x1 = ctx.arg(1);
    let x2 = ctx.arg(2);
    match shim {
        ShimFn::MessageSend => {
            return rt.msg_send(ctx);
        },
        ShimFn::GetClass => {
            let name = match ctx.mem.read_cstr(GuestAddr(x0), 256) {
                Ok(s) => s,
                Err(_) => String::new(),
            };
            assert(name@ =~= libsystem::text_at(old(ctx).guest().mem, x0, 256));
            let v = match rt.get_or_create_class(name.as_str(), ctx) {
                Some(a) => a.raw(),
                None => 0,
            };
            ctx.ret(v);
        },
        ShimFn::NewInstance => rt.alloc_via(x0, ctx),
        ShimFn::Identity => ctx.ret(x0),
        ShimFn::Malloc => {
            let v = libsystem::malloc(ctx.mem, x0);
            ctx.ret(v);
        },
        ShimFn::Calloc => {
            let v = libsystem::calloc(ctx.mem, x0, x1);
            ctx.ret(v);
        },
        ShimFn::Realloc => {
            let v = libsystem::realloc(ctx.mem, x0, x1);
            ctx.ret(v);
        },
        ShimFn::CopyBytes => {
            libsystem::copy_bytes(ctx.mem, x0, x1, x2);
            ctx.ret(x0);
        },
        ShimFn::FillBytes => {
            libsystem::fill_bytes(ctx.mem, x0, (x1 % 256) as u8, x2);
            ctx.ret(x0);
        },
        ShimFn::ClearBytes => {
            libsystem::fill_bytes(ctx.mem, x0, 0, x1);
            ctx.ret(0);
        },
        ShimFn::StringLength => {
            let v = libsystem::string_length(ctx.mem, x0);
            ctx.ret(v);
        },
        ShimFn::StringOrder => {
            let v = libsystem::string_order(ctx.mem, x0, x1);
            ctx.ret(v);
        },
        ShimFn::ByteOrder => {
            let v = libsystem::byte_order(ctx.mem, x0, x1, x2);
            ctx.ret(v);
        },
        ShimFn::LogMessage => {
            foundation::log_message(ctx.mem, x0, ctx.log);
            ctx.ret(0);
        },
        ShimFn::ApplicationMain => {
            uikit::report_start(ctx.cpu, ctx.log);
            ctx.ret(0);
        },
        ShimFn::MainDisplay => ctx.ret(1),
        ShimFn::StubZero => {
            return stub_zero(rt, ctx);
        },
    }
    Dispatch::Handled
}

} // verus!
