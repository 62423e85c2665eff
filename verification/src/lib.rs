//! An in-process, in-memory emulation of a hierarchical file system, meant as
//! a deterministic test double for code that otherwise touches the real disk.
//!
//! The core pieces are a pure path normalizer, a tree of `File` / `Dir` /
//! `Symlink` nodes whose children stay sorted by name, a resolver that walks
//! paths and dereferences symlinks with cycle detection, file handles that
//! share a file's content buffer through the owning system value, and an
//! overridable clock and seeded random generator so tests stay reproducible.

pub mod edit;
pub mod error;
pub mod host;
pub mod laws;
pub mod lookup;
pub mod node;
pub mod options;
pub mod path;
pub mod sys;
pub mod traits;

pub use error::ErrorKind;
pub use error::FsError;
pub use options::CreateDirOptions;
pub use options::FileType;
pub use options::FsFileLockMode;
pub use options::FsFileTimes;
pub use options::OpenOptions;
pub use options::SeekFrom;
pub use path::normalize_path;
pub use sys::InMemoryDirEntry;
pub use sys::InMemoryFile;
pub use sys::InMemoryMetadata;
pub use sys::InMemorySys;
pub use sys::RealSys;

