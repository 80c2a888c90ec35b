//! The seam between the dispatch loop and the high-level-emulation layer.
//!
//! When the guest calls an imported symbol, the call is handed to a
//! [`HostEnvironment`], which operates on the guest through a [`CallContext`].

use vstd::prelude::*;

use crate::kernel::cpu::{CpuContext, CpuView};
use crate::kernel::host;
use crate::kernel::host::{LogLine, LogView};
use crate::memory::space::MemView;
use crate::memory::GuestMemory;
use crate::vfs::sandbox::SandboxView;
use crate::vfs::Sandbox;

verus! {

/// Everything a library shim needs to service a guest call.
pub struct CallContext<'a> {
    pub cpu: &'a mut CpuContext,
    pub mem: &'a mut GuestMemory,
    pub vfs: &'a Sandbox,
    /// Output for the host's log.
    pub log: &'a mut Vec<LogLine>,
}

/// View of what a [`CallContext`] refers to.
#[verifier::ext_equal]
pub struct GuestView {
    pub cpu: CpuView,
    pub mem: MemView,
    pub vfs: SandboxView,
    pub log: Seq<LogView>,
}

impl GuestView {
    /// The guest with `v` returned in `x0`.
    pub open spec fn returning(self, v: u64) -> GuestView {
        GuestView { cpu: self.cpu.returning(v), ..self }
    }
}

impl<'a> CallContext<'a> {
    /// The guest as the shim finds it.
    pub open spec fn guest(&self) -> GuestView {
        GuestView {
            cpu: (*self.cpu)@,
            mem: (*self.mem)@,
            vfs: (*self.vfs)@,
            log: host::log_views((*self.log)@),
        }
    }

    /// The `n`th integer argument.
    pub fn arg(&self, n: usize) -> (r: u64)
        requires
            n < 8,
        ensures
            r == self.guest().cpu.x[n as int],
    {
        self.cpu.arg(n)
    }

    /// Set the return value in `x0`.
    pub fn ret(&mut self, v: u64)
        ensures
            final(self).guest() == old(self).guest().returning(v),
            *final(final(self).cpu) == *final(old(self).cpu),
            *final(final(self).mem) == *final(old(self).mem),
            *final(final(self).log) == *final(old(self).log),
            *final(self).mem == *old(self).mem,
            *final(self).log == *old(self).log,
    {
        self.cpu.set_ret(v);
    }
}

/// Outcome of handing a symbol to the environment.
#[derive(Clone, Copy, Debug, PartialEq, Eq, Structural)]
pub enum Dispatch {
    /// The call was serviced and the return value set.
    Handled,
    /// The symbol is not implemented.
    Unhandled,
}

/// Services imported-symbol calls. An environment is modelled as a
/// deterministic function of its state, the symbol and the guest.
pub trait HostEnvironment {
    /// The mathematical state of an environment.
    type State;

    /// The environment's state.
    spec fn state(&self) -> Self::State;

    /// Whether a state is one the environment can be in.
    spec fn valid(s: Self::State) -> bool;

    /// What a call does.
    spec fn called(s: Self::State, symbol: Seq<char>, g: GuestView) -> (
        Self::State,
        GuestView,
        Dispatch,
    );

    /// What the start of the process does.
    spec fn started(s: Self::State, g: GuestView) -> (Self::State, GuestView);

    /// Service a call to `symbol`.
    fn call(&mut self, symbol: &str, ctx: &mut CallContext<'_>) -> (r: Dispatch)
        requires
            Self::valid(old(self).state()),
            old(ctx).guest().mem.wf(),
        ensures
            (final(self).state(), final(ctx).guest(), r) == Self::called(
                old(self).state(),
                symbol@,
                old(ctx).guest(),
            ),
            Self::valid(final(self).state()),
            final(ctx).guest().mem.wf(),
            *final(final(ctx).cpu) == *final(old(ctx).cpu),
            *final(final(ctx).mem) == *final(old(ctx).mem),
            *final(final(ctx).log) == *final(old(ctx).log),
    ;

    /// Invoked once after the image is mapped and before `main`.
    fn on_process_start(&mut self, ctx: &mut CallContext<'_>)
        requires
            Self::valid(old(self).state()),
            old(ctx).guest().mem.wf(),
        ensures
            (final(self).state(), final(ctx).guest()) == Self::started(
                old(self).state(),
                old(ctx).guest(),
            ),
            Self::valid(final(self).state()),
            final(ctx).guest().mem.wf(),
            *final(final(ctx).cpu) == *final(old(ctx).cpu),
            *final(final(ctx).mem) == *final(old(ctx).mem),
            *final(final(ctx).log) == *final(old(ctx).log),
    ;
}

/// An environment that implements nothing.
pub struct NullEnvironment;

impl HostEnvironment for NullEnvironment {
    type State = ();

    open spec fn state(&self) -> () {
        ()
    }

    open spec fn valid(s: ()) -> bool {
        true
    }

    open spec fn called(s: (), symbol: Seq<char>, g: GuestView) -> ((), GuestView, Dispatch) {
        ((), g, Dispatch::Unhandled)
    }

    open spec fn started(s: (), g: GuestView) -> ((), GuestView) {
        ((), g)
    }

    fn call(&mut self, symbol: &str, ctx: &mut CallContext<'_>) -> (r: Dispatch) {
        Dispatch::Unhandled
    }

    fn on_process_start(&mut self, ctx: &mut CallContext<'_>) {
    }
}

} // verus!
