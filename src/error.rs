//! Conditions that the core reports to its callers.

use vstd::prelude::*;

verus! {

/// What can go wrong in `init` and `diff`.
#[derive(Clone, Copy, Debug, PartialEq, Eq, Structural)]
pub enum GudError {
    /// No manifest, or one whose tree cannot be read as a nested path to hash mapping.
    NotARepository,
    /// The tree has a file where a path still has segments to walk.
    CorruptManifest,
    /// Stored bytes that do not decompress.
    CorruptObject,
    /// A hash that the tree names but the object store does not hold.
    ObjectNotFound,
    /// The working file to compare is gone from disk.
    WorkingFileMissing,
    /// Any other failure of the file system or of an encoder.
    IoFailure,
    /// A required command-line value was not given.
    MissingArgument,
}

} // verus!
