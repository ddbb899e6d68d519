//! The error taxonomy of the library: one kind per failure class, with a
//! human-readable message.

use vstd::prelude::*;

verus! {

/// The failure classes the library reports.
#[derive(Debug, Clone, Copy, PartialEq, Eq, Structural)]
pub enum ErrorKind {
    /// Missing or malformed root configuration.
    Config,
    /// A filesystem operation failed.
    Io,
    /// An archive is unreadable or misses its index manifest.
    ArchiveFormat,
    /// JSON failed to decode or failed semantic validation.
    SchemaDecode,
    /// A dictionary's tables are empty or indeterminate.
    Classify,
    /// The key/value store failed to open, insert or read.
    Storage,
    /// A dictionary with the same title and revision is already registered.
    RegistryConflict,
    /// A lookup sub-task failed to join.
    LookupJoin,
}

#[derive(Debug)]
pub struct DictError {
    pub kind: ErrorKind,
    pub message: String,
}

impl DictError {
    pub fn new(kind: ErrorKind, message: String) -> (r: DictError)
        ensures
            r.kind == kind,
            r.message@ == message@,
    {
        DictError { kind, message }
    }
}

} // verus!
