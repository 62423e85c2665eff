//! The capability interface: one small trait per operation family, so
//! callers depend only on the subset they use and the same calling code can
//! target this in-memory engine or another backend unmodified.
//!
//! Each backend carries a well-formedness invariant through [`SysSpec`]:
//! operations may demand it and promise to keep it, so capability-generic
//! code can chain calls. The in-memory system implements every capability it
//! supports; the handle-side and platform-only capabilities are interface
//! contracts for other backends.

use vstd::prelude::*;

use crate::error::FsError;
use crate::options::CreateDirOptions;
use crate::options::FileType;
use crate::options::FsFileLockMode;
use crate::options::FsFileTimes;
use crate::options::OpenOptions;
use crate::sys::InMemoryDirEntry;
use crate::sys::InMemoryFile;
use crate::sys::InMemoryMetadata;
use crate::sys::InMemorySys;

verus! {

/// The well-formedness invariant a backend maintains.
pub trait SysSpec {
    spec fn inv(&self) -> bool;
}

impl SysSpec for InMemorySys {
    open spec fn inv(&self) -> bool {
        self.wf()
    }
}

/// Can report the working directory.
pub trait EnvCurrentDir: SysSpec {
    fn env_current_dir(&self) -> Result<String, FsError>
        requires
            self.inv(),
    ;
}

impl EnvCurrentDir for InMemorySys {
    fn env_current_dir(&self) -> Result<String, FsError> {
        self.env_current_dir()
    }
}

/// Can change the working directory.
pub trait BaseEnvSetCurrentDir: SysSpec {
    fn base_env_set_current_dir(&mut self, path: &str) -> (r: Result<(), FsError>)
        requires
            old(self).inv(),
        ensures
            final(self).inv(),
    ;
}

impl BaseEnvSetCurrentDir for InMemorySys {
    fn base_env_set_current_dir(&mut self, path: &str) -> Result<(), FsError> {
        self.base_env_set_current_dir(path)
    }
}

/// Can change the working directory.
pub trait EnvSetCurrentDir: BaseEnvSetCurrentDir {
    fn env_set_current_dir(&mut self, path: &str) -> (r: Result<(), FsError>)
        requires
            old(self).inv(),
        ensures
            final(self).inv(),
    {
        self.base_env_set_current_dir(path)
    }
}

impl<T: BaseEnvSetCurrentDir> EnvSetCurrentDir for T {

}

/// Can read environment variables.
pub trait BaseEnvVar: SysSpec {
    fn base_env_var_os(&self, key: &str) -> Option<String>
        requires
            self.inv(),
    ;
}

impl BaseEnvVar for InMemorySys {
    fn base_env_var_os(&self, key: &str) -> Option<String> {
        self.base_env_var_os(key)
    }
}

/// Can read environment variables.
pub trait EnvVar: BaseEnvVar {
    fn env_var_os(&self, key: &str) -> Option<String>
        requires
            self.inv(),
    {
        self.base_env_var_os(key)
    }

    fn env_var(&self, key: &str) -> Result<String, FsError>
        requires
            self.inv(),
    {
        match self.base_env_var_os(key) {
            Some(v) => Ok(v),
            None => Err(FsError::NotFound),
        }
    }
}

impl<T: BaseEnvVar> EnvVar for T {

}

/// Can store environment variables.
pub trait BaseEnvSetVar: SysSpec {
    fn base_env_set_var(&mut self, key: &str, value: &str)
        requires
            old(self).inv(),
        ensures
            final(self).inv(),
    ;
}

impl BaseEnvSetVar for InMemorySys {
    fn base_env_set_var(&mut self, key: &str, value: &str) {
        self.base_env_set_var(key, value)
    }
}

/// Can store environment variables.
pub trait EnvSetVar: BaseEnvSetVar {
    fn env_set_var(&mut self, key: &str, value: &str)
        requires
            old(self).inv(),
        ensures
            final(self).inv(),
    {
        self.base_env_set_var(key, value)
    }
}

impl<T: BaseEnvSetVar> EnvSetVar for T {

}

/// Can report the process file-creation mask.
pub trait EnvUmask: SysSpec {
    fn env_umask(&self) -> Result<u32, FsError>;
}

/// Can change the process file-creation mask.
pub trait EnvSetUmask: SysSpec {
    fn env_set_umask(&mut self, umask: u32) -> Result<u32, FsError>;
}

/// Can report the cache directory.
pub trait EnvCacheDir: SysSpec {
    fn env_cache_dir(&self) -> Option<String>
        requires
            self.inv(),
    ;
}

impl EnvCacheDir for InMemorySys {
    fn env_cache_dir(&self) -> Option<String> {
        self.env_cache_dir()
    }
}

/// Can report the home directory.
pub trait EnvHomeDir: SysSpec {
    fn env_home_dir(&self) -> Option<String>
        requires
            self.inv(),
    ;
}

impl EnvHomeDir for InMemorySys {
    fn env_home_dir(&self) -> Option<String> {
        self.env_home_dir()
    }
}

/// Can report the temporary directory.
pub trait EnvTempDir: SysSpec {
    fn env_temp_dir(&self) -> Result<String, FsError>
        requires
            self.inv(),
    ;
}

impl EnvTempDir for InMemorySys {
    fn env_temp_dir(&self) -> Result<String, FsError> {
        self.env_temp_dir()
    }
}

/// Can resolve a path to canonical form.
pub trait BaseFsCanonicalize: SysSpec {
    fn base_fs_canonicalize(&self, path: &str) -> Result<String, FsError>
        requires
            self.inv(),
    ;
}

impl BaseFsCanonicalize for InMemorySys {
    fn base_fs_canonicalize(&self, path: &str) -> Result<String, FsError> {
        self.base_fs_canonicalize(path)
    }
}

/// Can resolve a path to canonical form.
pub trait FsCanonicalize: BaseFsCanonicalize {
    fn fs_canonicalize(&self, path: &str) -> Result<String, FsError>
        requires
            self.inv(),
    {
        self.base_fs_canonicalize(path)
    }
}

impl<T: BaseFsCanonicalize> FsCanonicalize for T {

}

/// Can change a path's owner.
pub trait BaseFsChown: SysSpec {
    fn base_fs_chown(&mut self, path: &str, uid: Option<u32>, gid: Option<u32>) -> Result<
        (),
        FsError,
    >;
}

/// Can change a path's owner.
pub trait FsChown: BaseFsChown {
    fn fs_chown(&mut self, path: &str, uid: Option<u32>, gid: Option<u32>) -> Result<(), FsError> {
        self.base_fs_chown(path, uid, gid)
    }
}

impl<T: BaseFsChown> FsChown for T {

}

/// Can change a symlink's owner.
pub trait BaseFsSymlinkChown: SysSpec {
    fn base_fs_symlink_chown(&mut self, path: &str, uid: Option<u32>, gid: Option<u32>) -> Result<
        (),
        FsError,
    >;
}

/// Can change a symlink's owner.
pub trait FsSymlinkChown: BaseFsSymlinkChown {
    fn fs_symlink_chown(&mut self, path: &str, uid: Option<u32>, gid: Option<u32>) -> Result<
        (),
        FsError,
    > {
        self.base_fs_symlink_chown(path, uid, gid)
    }
}

impl<T: BaseFsSymlinkChown> FsSymlinkChown for T {

}

/// Can copy a file.
pub trait BaseFsCopy: SysSpec {
    fn base_fs_copy(&mut self, from: &str, to: &str) -> Result<u64, FsError>;
}

/// Can copy a file.
pub trait FsCopy: BaseFsCopy {
    fn fs_copy(&mut self, from: &str, to: &str) -> Result<u64, FsError> {
        self.base_fs_copy(from, to)
    }
}

impl<T: BaseFsCopy> FsCopy for T {

}

/// Can create a directory.
pub trait BaseFsCreateDir: SysSpec {
    fn base_fs_create_dir(&mut self, path: &str, options: &CreateDirOptions) -> (r: Result<(), FsError>)
        requires
            old(self).inv(),
        ensures
            final(self).inv(),
    ;
}

impl BaseFsCreateDir for InMemorySys {
    fn base_fs_create_dir(&mut self, path: &str, options: &CreateDirOptions) -> Result<
        (),
        FsError,
    > {
        self.base_fs_create_dir(path, options)
    }
}

/// Can create a directory.
pub trait FsCreateDir: BaseFsCreateDir {
    fn fs_create_dir(&mut self, path: &str, options: &CreateDirOptions) -> (r: Result<(), FsError>)
        requires
            old(self).inv(),
        ensures
            final(self).inv(),
    {
        self.base_fs_create_dir(path, options)
    }
}

impl<T: BaseFsCreateDir> FsCreateDir for T {

}

/// Can create a directory chain.
pub trait FsCreateDirAll: BaseFsCreateDir {
    fn fs_create_dir_all(&mut self, path: &str) -> (r: Result<(), FsError>)
        requires
            old(self).inv(),
        ensures
            final(self).inv(),
    {
        let options = CreateDirOptions { recursive: true, mode: None };
        self.base_fs_create_dir(path, &options)
    }
}

impl<T: BaseFsCreateDir> FsCreateDirAll for T {

}

/// Can hard-link a file.
pub trait BaseFsHardLink: SysSpec {
    fn base_fs_hard_link(&mut self, src: &str, dst: &str) -> (r: Result<(), FsError>)
        requires
            old(self).inv(),
        ensures
            final(self).inv(),
    ;
}

impl BaseFsHardLink for InMemorySys {
    fn base_fs_hard_link(&mut self, src: &str, dst: &str) -> Result<(), FsError> {
        self.base_fs_hard_link(src, dst)
    }
}

/// Can hard-link a file.
pub trait FsHardLink: BaseFsHardLink {
    fn fs_hard_link(&mut self, src: &str, dst: &str) -> (r: Result<(), FsError>)
        requires
            old(self).inv(),
        ensures
            final(self).inv(),
    {
        self.base_fs_hard_link(src, dst)
    }
}

impl<T: BaseFsHardLink> FsHardLink for T {

}

/// What a metadata value reports. Fields a backend does not track report an
/// error rather than a made-up value.
pub trait FsMetadataValue {
    fn file_type(&self) -> FileType;

    fn len(&self) -> Result<u64, FsError>;

    fn accessed(&self) -> Result<u64, FsError>;

    fn created(&self) -> Result<u64, FsError>;

    fn changed(&self) -> Result<u64, FsError>;

    fn modified(&self) -> Result<u64, FsError>;

    fn dev(&self) -> Result<u64, FsError>;

    fn ino(&self) -> Result<u64, FsError>;

    fn mode(&self) -> Result<u32, FsError>;

    fn nlink(&self) -> Result<u64, FsError>;

    fn uid(&self) -> Result<u32, FsError>;

    fn gid(&self) -> Result<u32, FsError>;

    fn rdev(&self) -> Result<u64, FsError>;

    fn blksize(&self) -> Result<u64, FsError>;

    fn blocks(&self) -> Result<u64, FsError>;

    fn is_block_device(&self) -> Result<bool, FsError>;

    fn is_char_device(&self) -> Result<bool, FsError>;

    fn is_fifo(&self) -> Result<bool, FsError>;

    fn is_socket(&self) -> Result<bool, FsError>;

    fn file_attributes(&self) -> Result<u32, FsError>;
}

impl FsMetadataValue for InMemoryMetadata {
    fn file_type(&self) -> FileType {
        self.file_type()
    }

    fn len(&self) -> Result<u64, FsError> {
        Err(FsError::Unsupported)
    }

    fn accessed(&self) -> Result<u64, FsError> {
        Err(FsError::Unsupported)
    }

    fn created(&self) -> Result<u64, FsError> {
        Err(FsError::Unsupported)
    }

    fn changed(&self) -> Result<u64, FsError> {
        Err(FsError::Unsupported)
    }

    fn modified(&self) -> Result<u64, FsError> {
        self.modified()
    }

    fn dev(&self) -> Result<u64, FsError> {
        Err(FsError::Unsupported)
    }

    fn ino(&self) -> Result<u64, FsError> {
        Err(FsError::Unsupported)
    }

    fn mode(&self) -> Result<u32, FsError> {
        Err(FsError::Unsupported)
    }

    fn nlink(&self) -> Result<u64, FsError> {
        Err(FsError::Unsupported)
    }

    fn uid(&self) -> Result<u32, FsError> {
        Err(FsError::Unsupported)
    }

    fn gid(&self) -> Result<u32, FsError> {
        Err(FsError::Unsupported)
    }

    fn rdev(&self) -> Result<u64, FsError> {
        Err(FsError::Unsupported)
    }

    fn blksize(&self) -> Result<u64, FsError> {
        Err(FsError::Unsupported)
    }

    fn blocks(&self) -> Result<u64, FsError> {
        Err(FsError::Unsupported)
    }

    fn is_block_device(&self) -> Result<bool, FsError> {
        Err(FsError::Unsupported)
    }

    fn is_char_device(&self) -> Result<bool, FsError> {
        Err(FsError::Unsupported)
    }

    fn is_fifo(&self) -> Result<bool, FsError> {
        Err(FsError::Unsupported)
    }

    fn is_socket(&self) -> Result<bool, FsError> {
        Err(FsError::Unsupported)
    }

    fn file_attributes(&self) -> Result<u32, FsError> {
        Err(FsError::Unsupported)
    }
}

/// Can report what a path names, following symlinks or not.
pub trait BaseFsMetadata: SysSpec {
    type Metadata: FsMetadataValue;

    fn base_fs_metadata(&self, path: &str) -> Result<Self::Metadata, FsError>
        requires
            self.inv(),
    ;

    fn base_fs_symlink_metadata(&self, path: &str) -> Result<Self::Metadata, FsError>
        requires
            self.inv(),
    ;

    fn base_fs_exists(&self, path: &str) -> Result<bool, FsError>
        requires
            self.inv(),
    ;

    fn base_fs_exists_no_err(&self, path: &str) -> bool
        requires
            self.inv(),
    ;
}

impl BaseFsMetadata for InMemorySys {
    type Metadata = InMemoryMetadata;

    fn base_fs_metadata(&self, path: &str) -> Result<InMemoryMetadata, FsError> {
        self.base_fs_metadata(path)
    }

    fn base_fs_symlink_metadata(&self, path: &str) -> Result<InMemoryMetadata, FsError> {
        self.base_fs_symlink_metadata(path)
    }

    fn base_fs_exists(&self, path: &str) -> Result<bool, FsError> {
        self.base_fs_exists(path)
    }

    fn base_fs_exists_no_err(&self, path: &str) -> bool {
        self.base_fs_exists_no_err(path)
    }
}

/// Can report what a path names.
pub trait FsMetadata: BaseFsMetadata {
    fn fs_metadata(&self, path: &str) -> Result<Self::Metadata, FsError>
        requires
            self.inv(),
    {
        self.base_fs_metadata(path)
    }

    fn fs_symlink_metadata(&self, path: &str) -> Result<Self::Metadata, FsError>
        requires
            self.inv(),
    {
        self.base_fs_symlink_metadata(path)
    }

    fn fs_is_file(&self, path: &str) -> Result<bool, FsError>
        requires
            self.inv(),
    {
        match self.base_fs_metadata(path) {
            Ok(md) => Ok(matches!(md.file_type(), FileType::File)),
            Err(e) => Err(e),
        }
    }

    fn fs_is_file_no_err(&self, path: &str) -> bool
        requires
            self.inv(),
    {
        match self.fs_is_file(path) {
            Ok(b) => b,
            Err(_) => false,
        }
    }

    fn fs_is_dir(&self, path: &str) -> Result<bool, FsError>
        requires
            self.inv(),
    {
        match self.base_fs_metadata(path) {
            Ok(md) => Ok(matches!(md.file_type(), FileType::Dir)),
            Err(e) => Err(e),
        }
    }

    fn fs_is_dir_no_err(&self, path: &str) -> bool
        requires
            self.inv(),
    {
        match self.fs_is_dir(path) {
            Ok(b) => b,
            Err(_) => false,
        }
    }

    fn fs_exists(&self, path: &str) -> Result<bool, FsError>
        requires
            self.inv(),
    {
        self.base_fs_exists(path)
    }

    fn fs_exists_no_err(&self, path: &str) -> bool
        requires
            self.inv(),
    {
        self.base_fs_exists_no_err(path)
    }

    fn fs_is_symlink(&self, path: &str) -> Result<bool, FsError>
        requires
            self.inv(),
    {
        match self.base_fs_symlink_metadata(path) {
            Ok(md) => Ok(matches!(md.file_type(), FileType::Symlink)),
            Err(e) => Err(e),
        }
    }

    fn fs_is_symlink_no_err(&self, path: &str) -> bool
        requires
            self.inv(),
    {
        match self.fs_is_symlink(path) {
            Ok(b) => b,
            Err(_) => false,
        }
    }
}

impl<T: BaseFsMetadata> FsMetadata for T {

}

/// An open file handle's capabilities, bundled.
pub trait FsFile: FsFileIsTerminal + FsFileSetLen + FsFileSetPermissions + FsFileSetTimes + FsFileSyncAll + FsFileSyncData {

}

/// Can open files.
pub trait BaseFsOpen: SysSpec {
    type File;

    fn base_fs_open(&mut self, path: &str, options: &OpenOptions) -> (r: Result<Self::File, FsError>)
        requires
            old(self).inv(),
        ensures
            final(self).inv(),
    ;
}

impl BaseFsOpen for InMemorySys {
    type File = InMemoryFile;

    fn base_fs_open(&mut self, path: &str, options: &OpenOptions) -> Result<
        InMemoryFile,
        FsError,
    > {
        self.base_fs_open(path, options)
    }
}

/// Can open files.
pub trait FsOpen: BaseFsOpen {
    fn fs_open(&mut self, path: &str, options: &OpenOptions) -> (r: Result<Self::File, FsError>)
        requires
            old(self).inv(),
        ensures
            final(self).inv(),
    {
        self.base_fs_open(path, options)
    }
}

impl<T: BaseFsOpen> FsOpen for T {

}

/// Can read whole files.
pub trait BaseFsRead: SysSpec {
    fn base_fs_read(&self, path: &str) -> Result<Vec<u8>, FsError>
        requires
            self.inv(),
    ;
}

impl BaseFsRead for InMemorySys {
    fn base_fs_read(&self, path: &str) -> Result<Vec<u8>, FsError> {
        self.base_fs_read(path)
    }
}

/// Can read whole files.
pub trait FsRead: BaseFsRead {
    fn fs_read(&self, path: &str) -> Result<Vec<u8>, FsError>
        requires
            self.inv(),
    {
        self.base_fs_read(path)
    }

    fn fs_read_to_string(&self, path: &str) -> Result<String, FsError>
        requires
            self.inv(),
    {
        let v = match self.base_fs_read(path) {
            Ok(v) => v,
            Err(e) => {
                return Err(e);
            },
        };
        match crate::host::utf8_to_string(v) {
            Some(s) => Ok(s),
            None => Err(FsError::InvalidUtf8),
        }
    }

    fn fs_read_to_string_lossy(&self, path: &str) -> Result<String, FsError>
        requires
            self.inv(),
    {
        let v = match self.base_fs_read(path) {
            Ok(v) => v,
            Err(e) => {
                return Err(e);
            },
        };
        Ok(crate::host::utf8_to_string_lossy(v))
    }
}

impl<T: BaseFsRead> FsRead for T {

}

/// Can read directories as finite entry lists.
pub trait FsReadDir: SysSpec {
    type ReadDirEntry;

    fn fs_read_dir(&self, path: &str) -> Result<Vec<Self::ReadDirEntry>, FsError>
        requires
            self.inv(),
    ;
}

impl FsReadDir for InMemorySys {
    type ReadDirEntry = InMemoryDirEntry;

    fn fs_read_dir(&self, path: &str) -> Result<Vec<InMemoryDirEntry>, FsError> {
        self.fs_read_dir(path)
    }
}

/// Can read a symlink's raw target.
pub trait BaseFsReadLink: SysSpec {
    fn base_fs_read_link(&self, path: &str) -> Result<String, FsError>;
}

/// Can read a symlink's raw target.
pub trait FsReadLink: BaseFsReadLink {
    fn fs_read_link(&self, path: &str) -> Result<String, FsError> {
        self.base_fs_read_link(path)
    }
}

impl<T: BaseFsReadLink> FsReadLink for T {

}

/// Can remove an empty directory.
pub trait BaseFsRemoveDir: SysSpec {
    fn base_fs_remove_dir(&mut self, path: &str) -> Result<(), FsError>;
}

/// Can remove an empty directory.
pub trait FsRemoveDir: BaseFsRemoveDir {
    fn fs_remove_dir(&mut self, path: &str) -> Result<(), FsError> {
        self.base_fs_remove_dir(path)
    }
}

impl<T: BaseFsRemoveDir> FsRemoveDir for T {

}

/// Can remove a directory tree.
pub trait BaseFsRemoveDirAll: SysSpec {
    fn base_fs_remove_dir_all(&mut self, path: &str) -> Result<(), FsError>;
}

/// Can remove a directory tree.
pub trait FsRemoveDirAll: BaseFsRemoveDirAll {
    fn fs_remove_dir_all(&mut self, path: &str) -> Result<(), FsError> {
        self.base_fs_remove_dir_all(path)
    }
}

impl<T: BaseFsRemoveDirAll> FsRemoveDirAll for T {

}

/// Can remove a file.
pub trait BaseFsRemoveFile: SysSpec {
    fn base_fs_remove_file(&mut self, path: &str) -> (r: Result<(), FsError>)
        requires
            old(self).inv(),
        ensures
            final(self).inv(),
    ;
}

impl BaseFsRemoveFile for InMemorySys {
    fn base_fs_remove_file(&mut self, path: &str) -> Result<(), FsError> {
        self.base_fs_remove_file(path)
    }
}

/// Can remove a file.
pub trait FsRemoveFile: BaseFsRemoveFile {
    fn fs_remove_file(&mut self, path: &str) -> (r: Result<(), FsError>)
        requires
            old(self).inv(),
        ensures
            final(self).inv(),
    {
        self.base_fs_remove_file(path)
    }
}

impl<T: BaseFsRemoveFile> FsRemoveFile for T {

}

/// Can rename a file.
pub trait BaseFsRename: SysSpec {
    fn base_fs_rename(&mut self, from: &str, to: &str) -> (r: Result<(), FsError>)
        requires
            old(self).inv(),
        ensures
            final(self).inv(),
    ;
}

impl BaseFsRename for InMemorySys {
    fn base_fs_rename(&mut self, from: &str, to: &str) -> Result<(), FsError> {
        self.base_fs_rename(from, to)
    }
}

/// Can rename a file.
pub trait FsRename: BaseFsRename {
    fn fs_rename(&mut self, from: &str, to: &str) -> (r: Result<(), FsError>)
        requires
            old(self).inv(),
        ensures
            final(self).inv(),
    {
        self.base_fs_rename(from, to)
    }
}

impl<T: BaseFsRename> FsRename for T {

}

/// Can stamp times on a path, following symlinks.
pub trait BaseFsSetFileTimes: SysSpec {
    fn base_fs_set_file_times(&mut self, path: &str, atime: u64, mtime: u64) -> Result<(), FsError>;
}

/// Can stamp times on a path.
pub trait FsSetFileTimes: BaseFsSetFileTimes {
    fn fs_set_file_times(&mut self, path: &str, atime: u64, mtime: u64) -> Result<(), FsError> {
        self.base_fs_set_file_times(path, atime, mtime)
    }
}

impl<T: BaseFsSetFileTimes> FsSetFileTimes for T {

}

/// Can stamp times on a symlink itself.
pub trait BaseFsSetSymlinkFileTimes: SysSpec {
    fn base_fs_set_symlink_file_times(&mut self, path: &str, atime: u64, mtime: u64) -> Result<
        (),
        FsError,
    >;
}

/// Can stamp times on a symlink itself.
pub trait FsSetSymlinkFileTimes: BaseFsSetSymlinkFileTimes {
    fn fs_set_symlink_file_times(&mut self, path: &str, atime: u64, mtime: u64) -> Result<
        (),
        FsError,
    > {
        self.base_fs_set_symlink_file_times(path, atime, mtime)
    }
}

impl<T: BaseFsSetSymlinkFileTimes> FsSetSymlinkFileTimes for T {

}

/// Can store permission bits on a path.
pub trait BaseFsSetPermissions: SysSpec {
    fn base_fs_set_permissions(&mut self, path: &str, mode: u32) -> Result<(), FsError>;
}

/// Can store permission bits on a path.
pub trait FsSetPermissions: BaseFsSetPermissions {
    fn fs_set_permissions(&mut self, path: &str, mode: u32) -> Result<(), FsError> {
        self.base_fs_set_permissions(path, mode)
    }
}

impl<T: BaseFsSetPermissions> FsSetPermissions for T {

}

/// Can create directory symlinks.
pub trait BaseFsSymlinkDir: SysSpec {
    fn base_fs_symlink_dir(&mut self, original: &str, link: &str) -> (r: Result<(), FsError>)
        requires
            old(self).inv(),
        ensures
            final(self).inv(),
    ;
}

impl BaseFsSymlinkDir for InMemorySys {
    fn base_fs_symlink_dir(&mut self, original: &str, link: &str) -> Result<(), FsError> {
        self.base_fs_symlink_dir(original, link)
    }
}

/// Can create directory symlinks.
pub trait FsSymlinkDir: BaseFsSymlinkDir {
    fn fs_symlink_dir(&mut self, original: &str, link: &str) -> (r: Result<(), FsError>)
        requires
            old(self).inv(),
        ensures
            final(self).inv(),
    {
        self.base_fs_symlink_dir(original, link)
    }
}

impl<T: BaseFsSymlinkDir> FsSymlinkDir for T {

}

/// Can create file symlinks.
pub trait BaseFsSymlinkFile: SysSpec {
    fn base_fs_symlink_file(&mut self, original: &str, link: &str) -> (r: Result<(), FsError>)
        requires
            old(self).inv(),
        ensures
            final(self).inv(),
    ;
}

impl BaseFsSymlinkFile for InMemorySys {
    fn base_fs_symlink_file(&mut self, original: &str, link: &str) -> Result<(), FsError> {
        self.base_fs_symlink_file(original, link)
    }
}

/// Can create file symlinks.
pub trait FsSymlinkFile: BaseFsSymlinkFile {
    fn fs_symlink_file(&mut self, original: &str, link: &str) -> (r: Result<(), FsError>)
        requires
            old(self).inv(),
        ensures
            final(self).inv(),
    {
        self.base_fs_symlink_file(original, link)
    }
}

impl<T: BaseFsSymlinkFile> FsSymlinkFile for T {

}

/// Can write whole files.
pub trait BaseFsWrite: SysSpec {
    fn base_fs_write(&mut self, path: &str, data: &[u8]) -> (r: Result<(), FsError>)
        requires
            old(self).inv(),
        ensures
            final(self).inv(),
    ;
}

impl BaseFsWrite for InMemorySys {
    fn base_fs_write(&mut self, path: &str, data: &[u8]) -> Result<(), FsError> {
        self.base_fs_write(path, data)
    }
}

/// Can write whole files.
pub trait FsWrite: BaseFsWrite {
    fn fs_write(&mut self, path: &str, data: &[u8]) -> (r: Result<(), FsError>)
        requires
            old(self).inv(),
        ensures
            final(self).inv(),
    {
        self.base_fs_write(path, data)
    }
}

impl<T: BaseFsWrite> FsWrite for T {

}

/// An open file can say whether it is a terminal.
pub trait FsFileIsTerminal {
    fn fs_file_is_terminal(&self) -> bool;
}

/// An open file can be locked.
pub trait FsFileLock {
    fn fs_file_lock(&mut self, mode: FsFileLockMode) -> Result<(), FsError>;

    fn fs_file_try_lock(&mut self, mode: FsFileLockMode) -> Result<(), FsError>;

    fn fs_file_unlock(&mut self) -> Result<(), FsError>;
}

/// An open file can be resized.
pub trait FsFileSetLen {
    fn fs_file_set_len(&mut self, size: u64) -> Result<(), FsError>;
}

/// An open file can store permission bits.
pub trait FsFileSetPermissions {
    fn fs_file_set_permissions(&mut self, mode: u32) -> Result<(), FsError>;
}

/// An open file can be stamped with times.
pub trait FsFileSetTimes {
    fn fs_file_set_times(&mut self, times: FsFileTimes) -> Result<(), FsError>;
}

/// An open file can be flushed to durable storage.
pub trait FsFileSyncAll {
    fn fs_file_sync_all(&mut self) -> Result<(), FsError>;
}

/// An open file can have its data flushed.
pub trait FsFileSyncData {
    fn fs_file_sync_data(&mut self) -> Result<(), FsError>;
}

/// Can read the clock.
pub trait SystemTimeNow: SysSpec {
    fn sys_time_now(&self) -> u64
        requires
            self.inv(),
    ;
}

impl SystemTimeNow for InMemorySys {
    fn sys_time_now(&self) -> u64 {
        self.sys_time_now()
    }
}

/// Can draw random bytes.
pub trait SystemRandom: SysSpec {
    fn sys_random(&self, buf: &mut Vec<u8>) -> Result<(), FsError>
        requires
            self.inv(),
    ;
}

impl SystemRandom for InMemorySys {
    fn sys_random(&self, buf: &mut Vec<u8>) -> Result<(), FsError> {
        self.sys_random(buf)
    }
}

/// Can put the thread to sleep; a backend decides how long a request
/// actually sleeps.
pub trait ThreadSleep {
    fn thread_sleep(&self, millis: u64);
}

} // verus!
