//! Error type of the library.

use vstd::prelude::*;

verus! {

/// The error type for operations of this library.
#[derive(Debug, Clone)]
pub enum SnapcatError {
    /// An I/O failure on a specific path, with the underlying cause as text.
    Io { path: String, source: String },
    /// A malformed exclusion glob, or a failure reported while walking the tree.
    Walk(String),
    /// A malformed or inaccessible root path.
    InvalidPath(String),
    /// Binary detection failed.
    BinaryDetection,
}

impl SnapcatError {
    /// Creates an `Io` error for `path` with the given cause.
    pub fn io(path: String, source: String) -> (r: SnapcatError)
        ensures
            r matches SnapcatError::Io { path: p, source: s } && p@ == path@ && s@ == source@,
    {
        SnapcatError::Io { path, source }
    }
}

} // verus!
