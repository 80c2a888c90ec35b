//! Per-app sandbox and path translation.
//!
//! The guest sees iOS-absolute paths; each is mapped to a host path inside the
//! app's container (writable) or inside a shared system image (read-only), or
//! refused.

pub mod laws;
pub mod sandbox;
pub mod translate;

pub use crate::vfs::sandbox::{Sandbox, SandboxLayout};
pub use crate::vfs::translate::{normalize_ios_path, TranslationError};
