//! The cache's error taxonomy.

use vstd::prelude::*;

verus! {

/// Everything a cache operation can report, kept apart so that a caller can
/// choose between aborting and recomputing.
#[derive(Clone, Copy, Debug, PartialEq, Eq, Structural)]
pub enum CacheError {
    /// A directory or cache file was absent where it was required to exist.
    NotFound,
    /// A path that should be (or become) a directory is occupied by a
    /// non-directory entry.
    InvalidPath,
    /// Any other filesystem-level failure.
    IoError,
    /// The cache file exists and is readable, but does not hold exactly one
    /// well-formed record.
    CorruptData,
}

impl CacheError {
    /// A short description, for callers that report errors as text.
    pub fn message(&self) -> (m: &'static str)
        ensures
            m@ == self.message_spec(),
    {
        match self {
            CacheError::NotFound => "file is not found",
            CacheError::InvalidPath => "path is not a directory",
            CacheError::IoError => "i/o error",
            CacheError::CorruptData => "broken data",
        }
    }

    /// What [`CacheError::message`] returns for each variant.
    pub open spec fn message_spec(self) -> Seq<char> {
        match self {
            CacheError::NotFound => "file is not found"@,
            CacheError::InvalidPath => "path is not a directory"@,
            CacheError::IoError => "i/o error"@,
            CacheError::CorruptData => "broken data"@,
        }
    }
}

} // verus!
