//! High-level emulation of the runtime and frameworks.
//!
//! When the guest calls an imported symbol, the name is looked up in a flat
//! registry of shims and serviced natively.

pub mod effects;
pub mod frameworks;
pub mod laws;
pub mod runtime;

use vstd::prelude::*;

use crate::hle::frameworks::{Registry, ShimFn};
use crate::hle::runtime::{ObjcRuntime, RuntimeView};
use crate::kernel::env::{CallContext, Dispatch, GuestView, HostEnvironment};

verus! {

/// The environment handed to a machine: the Objective-C runtime and the shims.
pub struct HleEnvironment {
    pub runtime: ObjcRuntime,
    pub shims: Registry,
}

/// State of an [`HleEnvironment`].
#[verifier::ext_equal]
pub struct HleView {
    pub runtime: RuntimeView,
    pub shims: Map<Seq<char>, ShimFn>,
}

impl HleEnvironment {
    /// An environment with every bundled framework installed.
    pub fn new() -> (r: HleEnvironment)
        ensures
            r.state() == (HleView {
                runtime: RuntimeView::empty(),
                shims: frameworks::all_installed(Map::empty()),
            }),
            HleEnvironment::valid(r.state()),
    {
        let mut shims: Registry = Registry::new();
        frameworks::install_all(&mut shims);
        HleEnvironment { runtime: ObjcRuntime::new(), shims }
    }

    /// Number of registered symbols.
    pub fn symbol_count(&self) -> (r: usize)
        ensures
            r == self.state().shims.len(),
    {
        self.shims.len()
    }
}

impl Default for HleEnvironment {
    fn default() -> (r: HleEnvironment)
        ensures
            r.state() == (HleView {
                runtime: RuntimeView::empty(),
                shims: frameworks::all_installed(Map::empty()),
            }),
    {
        HleEnvironment::new()
    }
}

impl HostEnvironment for HleEnvironment {
    type State = HleView;

    open spec fn state(&self) -> HleView {
        HleView { runtime: self.runtime@, shims: self.shims@ }
    }

    open spec fn valid(s: HleView) -> bool {
        s.runtime.wf()
    }

    open spec fn called(s: HleView, symbol: Seq<char>, g: GuestView) -> (
        HleView,
        GuestView,
        Dispatch,
    ) {
        if s.shims.contains_key(symbol) {
            let (runtime, after) = frameworks::serviced(s.shims[symbol], s.runtime, g);
            (HleView { runtime, ..s }, after, Dispatch::Handled)
        } else {
            (s, g, Dispatch::Unhandled)
        }
    }

    open spec fn started(s: HleView, g: GuestView) -> (HleView, GuestView) {
        (
            HleView { runtime: s.runtime.with_root("NSObject"@).with_root("NSProxy"@), ..s },
            g,
        )
    }

    fn call(&mut self, symbol: &str, ctx: &mut CallContext<'_>) -> (r: Dispatch) {
        let shim = match self.shims.get(symbol) {
            Some(s) => *s,
            None => {
                return Dispatch::Unhandled;
            },
        };
        frameworks::service(shim, &mut self.runtime, ctx)
    }

    fn on_process_start(&mut self, ctx: &mut CallContext<'_>) {
        self.runtime.preload_root_classes();
    }
}

} // verus!
