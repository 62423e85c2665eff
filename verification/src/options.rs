//! Option bundles and small value types of the public interface.

use vstd::prelude::*;

verus! {

/// How a file should be opened. The flag set mirrors the usual platform
/// open options; only the first six flags and `mode` influence the in-memory
/// system, the rest are carried for callers that target a real platform.
#[derive(Debug, Clone)]
pub struct OpenOptions {
    pub read: bool,
    pub write: bool,
    pub create: bool,
    pub truncate: bool,
    pub append: bool,
    pub create_new: bool,
    /// Permission bits for a newly created file.
    pub mode: Option<u32>,
    /// Extra platform flags; carried, never interpreted here.
    pub custom_flags: Option<i32>,
    /// Windows-only; carried, never interpreted here.
    pub access_mode: Option<u32>,
    /// Windows-only; carried, never interpreted here.
    pub share_mode: Option<u32>,
    /// Windows-only; carried, never interpreted here.
    pub attributes: Option<u32>,
    /// Windows-only; carried, never interpreted here.
    pub security_qos_flags: Option<u32>,
}

/// The all-off option set.
pub open spec fn open_options_default() -> OpenOptions {
    OpenOptions {
        read: false,
        write: false,
        create: false,
        truncate: false,
        append: false,
        create_new: false,
        mode: None,
        custom_flags: None,
        access_mode: None,
        share_mode: None,
        attributes: None,
        security_qos_flags: None,
    }
}

impl Default for OpenOptions {
    fn default() -> (r: Self)
        ensures
            r == open_options_default(),
    {
        OpenOptions {
            read: false,
            write: false,
            create: false,
            truncate: false,
            append: false,
            create_new: false,
            mode: None,
            custom_flags: None,
            access_mode: None,
            share_mode: None,
            attributes: None,
            security_qos_flags: None,
        }
    }
}

impl OpenOptions {
    /// The all-off option set.
    pub fn new() -> (r: Self)
        ensures
            r == open_options_default(),
    {
        Self::default()
    }

    /// Options that open an existing file for reading.
    pub fn new_read() -> (r: Self)
        ensures
            r == (OpenOptions { read: true, ..open_options_default() }),
    {
        OpenOptions { read: true, ..Self::default() }
    }

    /// Options that write a fresh file: create it if absent, truncate it if
    /// present.
    pub fn new_write() -> (r: Self)
        ensures
            r == (OpenOptions { write: true, create: true, truncate: true, ..open_options_default() }),
    {
        OpenOptions { write: true, create: true, truncate: true, ..Self::default() }
    }

    /// Options that append to an existing file.
    pub fn new_append() -> (r: Self)
        ensures
            r == (OpenOptions { write: true, append: true, ..open_options_default() }),
    {
        OpenOptions { write: true, append: true, ..Self::default() }
    }

    /// Options that write a fresh file; `new_write` under its older name.
    pub fn write() -> (r: Self)
        ensures
            r == (OpenOptions { write: true, create: true, truncate: true, ..open_options_default() }),
    {
        Self::new_write()
    }

    /// Turns the read flag on.
    pub fn read(&mut self)
        ensures
            *final(self) == (OpenOptions { read: true, ..*old(self) }),
    {
        self.read = true;
    }

    /// Turns the create flag on.
    pub fn create(&mut self)
        ensures
            *final(self) == (OpenOptions { create: true, ..*old(self) }),
    {
        self.create = true;
    }

    /// Turns the truncate flag on.
    pub fn truncate(&mut self)
        ensures
            *final(self) == (OpenOptions { truncate: true, ..*old(self) }),
    {
        self.truncate = true;
    }

    /// Turns the append flag on.
    pub fn append(&mut self)
        ensures
            *final(self) == (OpenOptions { append: true, ..*old(self) }),
    {
        self.append = true;
    }

    /// Turns the exclusive-create flag on.
    pub fn create_new(&mut self)
        ensures
            *final(self) == (OpenOptions { create_new: true, ..*old(self) }),
    {
        self.create_new = true;
    }

    /// Sets the permission bits for a created file.
    pub fn mode(&mut self, mode: u32)
        ensures
            *final(self) == (OpenOptions { mode: Some(mode), ..*old(self) }),
    {
        self.mode = Some(mode);
    }

    /// Sets extra platform flags.
    pub fn custom_flags(&mut self, flags: i32)
        ensures
            *final(self) == (OpenOptions { custom_flags: Some(flags), ..*old(self) }),
    {
        self.custom_flags = Some(flags);
    }

    /// Sets the Windows access mode.
    pub fn access_mode(&mut self, value: u32)
        ensures
            *final(self) == (OpenOptions { access_mode: Some(value), ..*old(self) }),
    {
        self.access_mode = Some(value);
    }

    /// Sets the Windows share mode.
    pub fn share_mode(&mut self, value: u32)
        ensures
            *final(self) == (OpenOptions { share_mode: Some(value), ..*old(self) }),
    {
        self.share_mode = Some(value);
    }

    /// Sets the Windows file attributes.
    pub fn attributes(&mut self, value: u32)
        ensures
            *final(self) == (OpenOptions { attributes: Some(value), ..*old(self) }),
    {
        self.attributes = Some(value);
    }

    /// Sets the Windows security quality-of-service flags.
    pub fn security_qos_flags(&mut self, value: u32)
        ensures
            *final(self) == (OpenOptions { security_qos_flags: Some(value), ..*old(self) }),
    {
        self.security_qos_flags = Some(value);
    }
}

/// How a directory should be created.
#[derive(Debug, Clone, Copy)]
pub struct CreateDirOptions {
    /// Whether missing parent directories are created too.
    pub recursive: bool,
    /// Permission bits for created directories; carried, never interpreted.
    pub mode: Option<u32>,
}

impl Default for CreateDirOptions {
    fn default() -> (r: Self)
        ensures
            r == (CreateDirOptions { recursive: false, mode: None }),
    {
        CreateDirOptions { recursive: false, mode: None }
    }
}

impl CreateDirOptions {
    /// The non-recursive option set.
    pub fn new() -> (r: Self)
        ensures
            r == (CreateDirOptions { recursive: false, mode: None }),
    {
        Self::default()
    }

    /// The recursive option set.
    pub fn new_recursive() -> (r: Self)
        ensures
            r == (CreateDirOptions { recursive: true, mode: None }),
    {
        CreateDirOptions { recursive: true, ..Self::default() }
    }

    /// Turns recursive creation on.
    pub fn recursive(&mut self)
        ensures
            *final(self) == (CreateDirOptions { recursive: true, ..*old(self) }),
    {
        self.recursive = true;
    }

    /// Sets the permission bits.
    pub fn mode(&mut self, mode: u32)
        ensures
            *final(self) == (CreateDirOptions { mode: Some(mode), ..*old(self) }),
    {
        self.mode = Some(mode);
    }
}

/// What kind of entry a path names.
#[derive(Debug, Clone, Copy, PartialEq, Eq, Hash, Structural)]
pub enum FileType {
    File,
    Dir,
    Symlink,
    Unknown,
}

impl FileType {
    /// Whether this is the directory kind.
    pub fn is_dir(&self) -> (r: bool)
        ensures
            r == (*self == FileType::Dir),
    {
        matches!(self, FileType::Dir)
    }

    /// Whether this is the file kind.
    pub fn is_file(&self) -> (r: bool)
        ensures
            r == (*self == FileType::File),
    {
        matches!(self, FileType::File)
    }

    /// Whether this is the symlink kind.
    pub fn is_symlink(&self) -> (r: bool)
        ensures
            r == (*self == FileType::Symlink),
    {
        matches!(self, FileType::Symlink)
    }
}

/// Timestamps to stamp on an open file, in milliseconds of the active clock.
#[derive(Debug, Clone)]
pub struct FsFileTimes {
    pub accessed: Option<u64>,
    pub modified: Option<u64>,
}

impl Default for FsFileTimes {
    fn default() -> (r: Self)
        ensures
            r == (FsFileTimes { accessed: None, modified: None }),
    {
        FsFileTimes { accessed: None, modified: None }
    }
}

impl FsFileTimes {
    /// No timestamps set.
    pub fn new() -> (r: Self)
        ensures
            r == (FsFileTimes { accessed: None, modified: None }),
    {
        Self::default()
    }

    /// Sets the accessed time.
    pub fn accessed(&mut self, accessed: u64)
        ensures
            *final(self) == (FsFileTimes { accessed: Some(accessed), ..*old(self) }),
    {
        self.accessed = Some(accessed);
    }

    /// Sets the modified time.
    pub fn modified(&mut self, modified: u64)
        ensures
            *final(self) == (FsFileTimes { modified: Some(modified), ..*old(self) }),
    {
        self.modified = Some(modified);
    }
}

/// Where a seek counts from.
#[derive(Debug, Clone, Copy, PartialEq, Eq, Structural)]
pub enum SeekFrom {
    /// An offset from the start of the file.
    Start(u64),
    /// An offset from the end of the file.
    End(i64),
    /// An offset from the current cursor.
    Current(i64),
}

/// How a file may be locked; the in-memory system takes every lock freely.
pub enum FsFileLockMode {
    Shared,
    Exclusive,
}

} // verus!
