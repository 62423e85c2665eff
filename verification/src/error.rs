//! The error taxonomy of the file-system emulation.
//!
//! Every operation reports failure through [`FsError`], one variant per
//! distinct failure condition, so contracts can say exactly which condition
//! produced an error. [`ErrorKind`] is the coarser grouping that callers
//! usually match on: structural conflicts all collapse to [`ErrorKind::Other`].

use vstd::prelude::*;

verus! {

/// The coarse class of a failure, mirroring the usual I/O error kinds.
#[derive(Clone, Copy, Debug, PartialEq, Eq, Structural)]
pub enum ErrorKind {
    /// A path (or a prefix of it) does not exist.
    NotFound,
    /// An entry already exists where an exclusive create was requested.
    AlreadyExists,
    /// A malformed request, such as a seek before the start of a file or
    /// an empty path.
    InvalidInput,
    /// Bytes that should have decoded as text did not.
    InvalidData,
    /// The operation is not offered by this emulation.
    Unsupported,
    /// A structural conflict, such as a path that leads into a file.
    Other,
}

/// One failure condition of the file-system emulation.
#[derive(Clone, Copy, Debug, PartialEq, Eq, Structural)]
pub enum FsError {
    /// The path, or a prefix of it, names nothing.
    NotFound,
    /// An entry already exists and the operation demanded exclusivity.
    AlreadyExists,
    /// A seek computed a position before the start of the file.
    SeekBeforeStart,
    /// A seek or resize computed a position beyond what this machine can
    /// address.
    SeekOverflow,
    /// The path was empty.
    EmptyPath,
    /// File bytes were not valid text.
    InvalidUtf8,
    /// The operation is not offered by this emulation.
    Unsupported,
    /// An intermediate path component was a file or an unresolved symlink.
    LeadsIntoFile,
    /// Symlink resolution revisited a path it had already followed.
    SymlinkLoop,
    /// The entry at the path is not a file.
    NotAFile,
    /// The entry at the path is not a directory.
    NotADirectory,
    /// The rename destination is an existing directory.
    RenameOntoDirectory,
    /// The source of a hard link was not a file.
    HardLinkNotAFile,
    /// The path names a root or has no final component to act on.
    InvalidRootPath,
    /// No root directory exists yet in the tree.
    NoRoot,
    /// The platform entropy source failed.
    RandomSourceFailure,
}

impl FsError {
    /// The coarse class this failure belongs to.
    pub fn kind(&self) -> (k: ErrorKind)
        ensures
            k == self.kind_spec(),
    {
        match self {
            FsError::NotFound => ErrorKind::NotFound,
            FsError::AlreadyExists => ErrorKind::AlreadyExists,
            FsError::SeekBeforeStart => ErrorKind::InvalidInput,
            FsError::SeekOverflow => ErrorKind::InvalidInput,
            FsError::EmptyPath => ErrorKind::InvalidInput,
            FsError::InvalidUtf8 => ErrorKind::InvalidData,
            FsError::Unsupported => ErrorKind::Unsupported,
            FsError::LeadsIntoFile => ErrorKind::Other,
            FsError::SymlinkLoop => ErrorKind::Other,
            FsError::NotAFile => ErrorKind::Other,
            FsError::NotADirectory => ErrorKind::Other,
            FsError::RenameOntoDirectory => ErrorKind::Other,
            FsError::HardLinkNotAFile => ErrorKind::Other,
            FsError::InvalidRootPath => ErrorKind::Other,
            FsError::NoRoot => ErrorKind::Other,
            FsError::RandomSourceFailure => ErrorKind::Other,
        }
    }

    /// The class of each failure condition, as a specification function.
    pub open spec fn kind_spec(&self) -> ErrorKind {
        match self {
            FsError::NotFound => ErrorKind::NotFound,
            FsError::AlreadyExists => ErrorKind::AlreadyExists,
            FsError::SeekBeforeStart => ErrorKind::InvalidInput,
            FsError::SeekOverflow => ErrorKind::InvalidInput,
            FsError::EmptyPath => ErrorKind::InvalidInput,
            FsError::InvalidUtf8 => ErrorKind::InvalidData,
            FsError::Unsupported => ErrorKind::Unsupported,
            FsError::LeadsIntoFile => ErrorKind::Other,
            FsError::SymlinkLoop => ErrorKind::Other,
            FsError::NotAFile => ErrorKind::Other,
            FsError::NotADirectory => ErrorKind::Other,
            FsError::RenameOntoDirectory => ErrorKind::Other,
            FsError::HardLinkNotAFile => ErrorKind::Other,
            FsError::InvalidRootPath => ErrorKind::Other,
            FsError::NoRoot => ErrorKind::Other,
            FsError::RandomSourceFailure => ErrorKind::Other,
        }
    }

    /// A short human-readable description of the failure.
    pub fn message(&self) -> &'static str {
        match self {
            FsError::NotFound => "path not found",
            FsError::AlreadyExists => "entry already exists",
            FsError::SeekBeforeStart => "seeking before start of file",
            FsError::SeekOverflow => "position does not fit in this machine",
            FsError::EmptyPath => "empty path",
            FsError::InvalidUtf8 => "file contents are not valid utf-8",
            FsError::Unsupported => "operation not supported by this emulation",
            FsError::LeadsIntoFile => "path leads into a file or symlink",
            FsError::SymlinkLoop => "symlink loop detected",
            FsError::NotAFile => "path is not a file",
            FsError::NotADirectory => "path is not a directory",
            FsError::RenameOntoDirectory => "cannot rename onto a directory",
            FsError::HardLinkNotAFile => "cannot hard link directories or symlinks",
            FsError::InvalidRootPath => "path has no final component to act on",
            FsError::NoRoot => "no root directory exists in the tree",
            FsError::RandomSourceFailure => "the entropy source failed",
        }
    }
}

} // verus!
