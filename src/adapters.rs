//! The contract that every content source meets, and its failures.
use vstd::prelude::*;

verus! {

/// Failures of a content adapter.
#[derive(Debug)]
pub enum AdapterError {
    /// A filesystem or other input/output failure.
    Io(String),
    /// A path that names nothing on disk.
    NotFound(String),
    Network(String),
    Parse(String),
    /// The adapter was given parameters it cannot work with.
    Config(String),
    NotWritable(String),
    /// An address that would leave the adapter's root.
    PathTraversal(String),
}

/// A content source that owns one namespace. Reading its backing source and
/// filling the store is the caller's work; the adapter states its namespace
/// and whether it accepts writes.
pub trait SourceAdapter {
    /// The namespace this adapter serves, fixed when it is made.
    fn namespace(&self) -> &str;

    /// Whether publish and delete are allowed.
    fn is_writable(&self) -> bool;
}

} // verus!
