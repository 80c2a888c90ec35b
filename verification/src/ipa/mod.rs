//! App archives: property lists, bundle metadata and extraction.

pub mod bplist;
pub mod discovery;
pub mod encoded;
pub mod extract;
pub mod laws;
pub mod marked;
pub mod plist;
pub mod xml;
