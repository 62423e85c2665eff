//! The system-side capabilities — known folders, the clock, and file locks —
//! exercised against the in-memory backend.

use sys_traits::options::FsFileLockMode;
use sys_traits::options::OpenOptions;
use sys_traits::sys::InMemorySys;

#[test]
fn test_known_folders() {
    let mut sys = InMemorySys::new();
    sys.env_set_var("HOME", "/home/someone");
    assert!(sys.env_cache_dir().is_some());
    assert!(sys.env_home_dir().is_some());
}

#[test]
fn test_general() {
    let sys = InMemorySys::new();
    let before = sys.sys_time_now();
    let after = sys.sys_time_now();
    assert!(after >= before);
}

#[test]
fn lock_file() {
    let mut sys = InMemorySys::new();
    sys.fs_create_dir_all("/").unwrap();
    sys.fs_write("/Cargo.toml", b"[package]").unwrap();
    let mut file = sys.fs_open("/Cargo.toml", &OpenOptions::new_read()).unwrap();
    file.fs_file_lock(FsFileLockMode::Shared).unwrap();
    file.fs_file_unlock().unwrap();
    file.fs_file_try_lock(FsFileLockMode::Shared).unwrap();
    file.fs_file_unlock().unwrap();
    file.fs_file_lock(FsFileLockMode::Exclusive).unwrap();
    file.fs_file_unlock().unwrap();
    file.fs_file_try_lock(FsFileLockMode::Exclusive).unwrap();
    file.fs_file_unlock().unwrap();
}
