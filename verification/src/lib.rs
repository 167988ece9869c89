//! Resolution of a file reference against an ordered list of search directories.
//!
//! The host's path operations (joining, the existence test and canonicalization)
//! are supplied by the caller as function values, so the search itself is free of
//! any filesystem access and is verified for every host.

pub mod host;
pub mod laws;
pub mod resolve;

pub use crate::resolve::resolve_include_path;
