//! 64-bit Mach-O parsing and dynamic-linking support.
//!
//! The loader is pure: it turns bytes into descriptions and never touches guest
//! memory.

pub mod dyld;
pub mod macho;
