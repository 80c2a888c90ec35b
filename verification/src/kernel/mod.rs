//! Emulation core: process construction, the executor abstraction, and the
//! syscall and import dispatch loop.

pub mod cpu;
pub mod env;
pub mod fd;
pub mod host;
pub mod laws;
pub mod machine;
pub mod process;
pub mod syscall;

pub use crate::kernel::cpu::{CpuContext, ExecEvent, Executor, ScriptedExecutor};
pub use crate::kernel::env::{CallContext, Dispatch, HostEnvironment, NullEnvironment};
pub use crate::kernel::machine::{Machine, MachineConfig, ProcessExit, Stop};
