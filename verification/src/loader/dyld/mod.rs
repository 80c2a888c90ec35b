//! Dynamic-linking support: bind- and rebase-stream parsing and symbol
//! resolution.

pub mod bind;
pub mod laws;
pub mod leb;
pub mod linker;
pub mod rebase;

pub use crate::loader::dyld::bind::{parse_bind_info, BindKind, BindRecord};
pub use crate::loader::dyld::linker::{StubResolver, SymbolResolver, TrampolineTable};
