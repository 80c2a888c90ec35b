//! Mach-O and universal containers.

pub mod consts;
pub mod image;
pub mod laws;
pub mod model;
pub mod reader;
pub mod written;
