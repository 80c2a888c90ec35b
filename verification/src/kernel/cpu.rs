//! AArch64 register context and the executor abstraction.

use vstd::prelude::*;

use crate::common::GuestAddr;

verus! {

/// A full AArch64 user-mode register file.
#[derive(Clone, Debug)]
pub struct CpuContext {
    /// General purpose registers x0..x28.
    pub x: [u64; 29],
    /// Frame pointer (x29).
    pub fp: u64,
    /// Link register (x30).
    pub lr: u64,
    /// Stack pointer.
    pub sp: u64,
    /// Program counter.
    pub pc: u64,
    /// Condition flags (bits 31..28). The carry flag doubles as the syscall
    /// error indicator on return.
    pub nzcv: u64,
    /// Thread pointer.
    pub tpidrro_el0: u64,
}

/// The carry flag in `nzcv`.
pub const CARRY: u64 = 0x2000_0000;

/// View of a [`CpuContext`].
#[verifier::ext_equal]
pub struct CpuView {
    pub x: Seq<u64>,
    pub fp: u64,
    pub lr: u64,
    pub sp: u64,
    pub pc: u64,
    pub nzcv: u64,
    pub tpidrro_el0: u64,
}

impl View for CpuContext {
    type V = CpuView;

    open spec fn view(&self) -> CpuView {
        CpuView {
            x: self.x@,
            fp: self.fp,
            lr: self.lr,
            sp: self.sp,
            pc: self.pc,
            nzcv: self.nzcv,
            tpidrro_el0: self.tpidrro_el0,
        }
    }
}

impl CpuView {
    /// The register file for entry into a function: `args` in the first
    /// registers, everything else zero.
    pub open spec fn entry(pc: u64, sp: u64, args: Seq<u64>) -> CpuView {
        CpuView {
            x: Seq::new(
                29,
                |i: int|
                    if i < args.len() {
                        args[i]
                    } else {
                        0u64
                    },
            ),
            fp: 0,
            lr: 0,
            sp,
            pc,
            nzcv: 0,
            tpidrro_el0: 0,
        }
    }

    /// The register file with `v` returned in `x0`.
    pub open spec fn returning(self, v: u64) -> CpuView {
        CpuView { x: self.x.update(0, v), ..self }
    }

    /// The register file with a syscall's result: the value with carry clear,
    /// or the error number with carry set.
    pub open spec fn with_result(self, r: Result<u64, u32>) -> CpuView {
        match r {
            Ok(v) => CpuView { nzcv: self.nzcv & !CARRY, ..self.returning(v) },
            Err(errno) => CpuView { nzcv: self.nzcv | CARRY, ..self.returning(errno as u64) },
        }
    }

    /// The register file back at the caller.
    pub open spec fn returned(self) -> CpuView {
        CpuView { pc: self.lr, ..self }
    }
}

impl Default for CpuContext {
    fn default() -> (r: CpuContext)
        ensures
            r@ == CpuView::entry(0, 0, Seq::empty()),
    {
        let r = CpuContext {
            x: [0u64;29],
            fp: 0,
            lr: 0,
            sp: 0,
            pc: 0,
            nzcv: 0,
            tpidrro_el0: 0,
        };
        assert(r@.x =~= CpuView::entry(0, 0, Seq::empty()).x);
        r
    }
}

impl CpuContext {
    /// Build the register file for entry into a function: `pc`, `sp`, and the
    /// first four arguments in `x0..x3`.
    pub fn entry(pc: u64, sp: u64, args: [u64; 4]) -> (r: CpuContext)
        ensures
            r@ == CpuView::entry(pc, sp, args@),
    {
        let mut r = CpuContext {
            x: [0u64;29],
            fp: 0,
            lr: 0,
            sp,
            pc,
            nzcv: 0,
            tpidrro_el0: 0,
        };
        r.x[0] = args[0];
        r.x[1] = args[1];
        r.x[2] = args[2];
        r.x[3] = args[3];
        assert(r@.x =~= CpuView::entry(pc, sp, args@).x);
        r
    }

    /// Argument register `x0..x7`.
    pub fn arg(&self, n: usize) -> (r: u64)
        requires
            n < 8,
        ensures
            r == self@.x[n as int],
    {
        self.x[n]
    }

    /// Set the return value (`x0`).
    pub fn set_ret(&mut self, v: u64)
        ensures
            final(self)@ == old(self)@.returning(v),
    {
        self.x[0] = v;
    }

    /// Encode a syscall result: on error `x0 = errno` and carry set, on success
    /// `x0 = value` and carry clear.
    pub fn set_syscall_result(&mut self, result: Result<u64, u32>)
        ensures
            final(self)@ == old(self)@.with_result(result),
    {
        match result {
            Ok(v) => {
                self.x[0] = v;
                self.nzcv = self.nzcv & !CARRY;
            },
            Err(errno) => {
                self.x[0] = errno as u64;
                self.nzcv = self.nzcv | CARRY;
            },
        }
    }

    /// The program counter as an address.
    pub fn pc_addr(&self) -> (r: GuestAddr)
        ensures
            r.0 == self@.pc,
    {
        GuestAddr(self.pc)
    }
}

/// The carry flag says whether a syscall failed; every other flag and every
/// register but `x0` is left alone.
pub proof fn carry_reports_failure(cpu: CpuView, r: Result<u64, u32>)
    requires
        cpu.x.len() == 29,
    ensures
        (cpu.with_result(r).nzcv & CARRY != 0) <==> r is Err,
        cpu.with_result(r).nzcv & !CARRY == cpu.nzcv & !CARRY,
        forall|i: int| 1 <= i < 29 ==> cpu.with_result(r).x[i] == cpu.x[i],
        cpu.with_result(r).pc == cpu.pc,
        cpu.with_result(r).sp == cpu.sp,
        cpu.with_result(r).lr == cpu.lr,
{
    let n = cpu.nzcv;
    let c = CARRY;
    assert((n & !c) & c == 0 && (n & !c) & !c == n & !c && (n | c) & !c == n & !c) by (bit_vector);
    assert((n | 0x2000_0000u64) & 0x2000_0000u64 != 0) by (bit_vector);
}

/// What made the executor return control to the dispatch loop.
#[derive(Clone, Debug, PartialEq, Eq)]
pub enum ExecEvent {
    /// The guest executed a supervisor call; the selector is in `x16`.
    Syscall { imm: u16 },
    /// The guest branched into the import trampoline area.
    TrampolineCall { addr: GuestAddr },
    /// The guest executed a breakpoint.
    Breakpoint { imm: u16 },
    /// The guest returned to the exit landing pad.
    Exited { code: i32 },
    /// An unrecoverable fault.
    Fault { pc: GuestAddr, reason: &'static str },
}

/// View of an [`ExecEvent`].
#[verifier::ext_equal]
pub enum EventView {
    Syscall { imm: u16 },
    TrampolineCall { addr: u64 },
    Breakpoint { imm: u16 },
    Exited { code: i32 },
    Fault { pc: u64, reason: Seq<char> },
}

impl View for ExecEvent {
    type V = EventView;

    open spec fn view(&self) -> EventView {
        match *self {
            ExecEvent::Syscall { imm } => EventView::Syscall { imm },
            ExecEvent::TrampolineCall { addr } => EventView::TrampolineCall { addr: addr.0 },
            ExecEvent::Breakpoint { imm } => EventView::Breakpoint { imm },
            ExecEvent::Exited { code } => EventView::Exited { code },
            ExecEvent::Fault { pc, reason } => EventView::Fault { pc: pc.0, reason: reason@ },
        }
    }
}

/// Abstraction over the instruction-stepping backend.
///
/// An executor is modelled as a deterministic machine: its state and the
/// register file determine the next event. It has a finite number of events in
/// it before it reports nothing but faults, so a run always ends.
pub trait Executor {
    /// The mathematical state of an executor.
    type State;

    /// The executor's state.
    spec fn state(&self) -> Self::State;

    /// Bound on the number of events other than faults still to come.
    spec fn budget(s: Self::State) -> nat;

    /// The event at which control returns.
    spec fn event(s: Self::State, cpu: CpuView) -> EventView;

    /// The register file at that event.
    spec fn resumed(s: Self::State, cpu: CpuView) -> CpuView;

    /// The executor's state at that event.
    spec fn after(s: Self::State, cpu: CpuView) -> Self::State;

    /// Run guest code from the current `pc` until the next event.
    fn resume(&mut self, cpu: &mut CpuContext) -> (e: ExecEvent)
        ensures
            e@ == Self::event(old(self).state(), old(cpu)@),
            final(cpu)@ == Self::resumed(old(self).state(), old(cpu)@),
            final(self).state() == Self::after(old(self).state(), old(cpu)@),
            e@ is Fault || Self::budget(final(self).state()) < Self::budget(old(self).state()),
    ;
}

/// Stand-in for the on-device executor where there is none: every resumption is
/// a fault, so that misconfiguration is obvious.
pub struct NativeExecutor {}

impl NativeExecutor {
    /// A native executor.
    pub fn new() -> (r: NativeExecutor)
        ensures
            r == (NativeExecutor {  }),
    {
        NativeExecutor {  }
    }
}

impl Default for NativeExecutor {
    fn default() -> (r: NativeExecutor)
        ensures
            r == (NativeExecutor {  }),
    {
        NativeExecutor::new()
    }
}

impl Executor for NativeExecutor {
    type State = ();

    open spec fn state(&self) -> () {
        ()
    }

    open spec fn budget(s: ()) -> nat {
        0
    }

    open spec fn event(s: (), cpu: CpuView) -> EventView {
        EventView::Fault { pc: cpu.pc, reason: "native executor unavailable on host"@ }
    }

    open spec fn resumed(s: (), cpu: CpuView) -> CpuView {
        cpu
    }

    open spec fn after(s: (), cpu: CpuView) -> () {
        ()
    }

    fn resume(&mut self, cpu: &mut CpuContext) -> (e: ExecEvent) {
        ExecEvent::Fault { pc: cpu.pc_addr(), reason: "native executor unavailable on host" }
    }
}

/// A deterministic executor that replays a queue of events and faults when it
/// is exhausted.
pub struct ScriptedExecutor {
    pub events: Vec<ExecEvent>,
    /// How many events have been replayed.
    pub played: usize,
}

impl ScriptedExecutor {
    /// An executor that replays `events` in order.
    pub fn new(events: Vec<ExecEvent>) -> (r: ScriptedExecutor)
        ensures
            r.state() == events@.map_values(|e: ExecEvent| e@),
    {
        let r = ScriptedExecutor { events, played: 0 };
        assert(r.state() =~= events@.map_values(|e: ExecEvent| e@));
        r
    }
}

fn copy_of(e: &ExecEvent) -> (r: ExecEvent)
    ensures
        r@ == e@,
{
    match e {
        ExecEvent::Syscall { imm } => ExecEvent::Syscall { imm: *imm },
        ExecEvent::TrampolineCall { addr } => ExecEvent::TrampolineCall { addr: *addr },
        ExecEvent::Breakpoint { imm } => ExecEvent::Breakpoint { imm: *imm },
        ExecEvent::Exited { code } => ExecEvent::Exited { code: *code },
        ExecEvent::Fault { pc, reason } => ExecEvent::Fault { pc: *pc, reason },
    }
}

impl Executor for ScriptedExecutor {
    type State = Seq<EventView>;

    open spec fn state(&self) -> Seq<EventView> {
        if self.played <= self.events@.len() {
            self.events@.skip(self.played as int).map_values(|e: ExecEvent| e@)
        } else {
            Seq::empty()
        }
    }

    open spec fn budget(s: Seq<EventView>) -> nat {
        s.len()
    }

    open spec fn event(s: Seq<EventView>, cpu: CpuView) -> EventView {
        if s.len() > 0 {
            s[0]
        } else {
            EventView::Fault { pc: cpu.pc, reason: "script exhausted"@ }
        }
    }

    open spec fn resumed(s: Seq<EventView>, cpu: CpuView) -> CpuView {
        cpu
    }

    open spec fn after(s: Seq<EventView>, cpu: CpuView) -> Seq<EventView> {
        if s.len() > 0 {
            s.drop_first()
        } else {
            s
        }
    }

    fn resume(&mut self, cpu: &mut CpuContext) -> (e: ExecEvent) {
        let ghost before = self.state();
        if self.played < self.events.len() {
            let e = copy_of(&self.events[self.played]);
            self.played = self.played + 1;
            assert(self.state() =~= before.drop_first());
            e
        } else {
            ExecEvent::Fault { pc: cpu.pc_addr(), reason: "script exhausted" }
        }
    }
}

} // verus!
