//! The storage engine's error taxonomy.

use vstd::prelude::*;

verus! {

/// Everything that can go wrong inside the storage engine.
#[derive(Debug, Clone, PartialEq, Eq)]
pub enum StorageError {
    /// A required configuration key is missing; fatal at setup.
    FaultyConfig(String),
    /// The configured root resolved to a relative path.
    StoragePathNotAbsolute,
    /// Required directories are missing, or an unarchive source fails its
    /// structural preconditions.
    InvalidDirStructure,
    /// No template file matches the requested name or extension.
    TemplateNotFound,
    /// The target directory of a create already exists; nothing was written.
    ProjectDirExists,
    /// The target of an unarchive is already occupied; nothing was moved.
    ProjectFileExists,
    /// A lookup or a search-driven batch found nothing.
    ProjectDoesNotExist,
    /// The working directory was absent at creation time.
    NoWorkingDir,
    /// The requested directory kind is unsupported by the called operation.
    BadChoice,
    /// A record file has no valid name stem.
    BadProjectFileName,
    /// Version-control staging failed during a deletion.
    GitProcessFailed,
    /// A version-control accessor was called with no repository attached.
    RepoUninitialized,
    /// A search-based selection returned zero records.
    NothingFound(Vec<String>),
}

} // verus!
