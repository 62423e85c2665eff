//! The in-memory system's behavior, exercised through its public interface.

use sys_traits::options::OpenOptions;
use sys_traits::options::SeekFrom;
use sys_traits::sys::InMemorySys;
use sys_traits::ErrorKind;

#[test]
fn test_env_vars() {
    let mut sys = InMemorySys::new();
    sys.env_set_var("VALUE", "other");
    assert_eq!(sys.env_var_os("VALUE"), Some("other".to_string()));
}

#[test]
fn test_create_dir_all() {
    let mut sys = InMemorySys::new();
    let dir_path = "/rootDir/subDir";
    assert!(!sys.fs_exists(dir_path).unwrap());
    sys.fs_create_dir_all(dir_path).unwrap();
    assert!(sys.fs_exists(dir_path).unwrap());
    assert!(sys.fs_is_dir(dir_path).unwrap());
}

#[test]
fn test_write_read_file() {
    let mut sys = InMemorySys::new();
    sys.fs_create_dir_all("/rootDir").unwrap();

    let file_path = "/rootDir/test.txt";
    sys.fs_write(file_path, b"Hello World!").unwrap();
    assert!(sys.fs_exists(file_path).unwrap());
    assert!(sys.fs_is_file(file_path).unwrap());

    let contents = sys.fs_read_to_string(file_path).unwrap();
    assert_eq!(&*contents, "Hello World!");
}

#[test]
fn test_truncate_existing_file() {
    let mut sys = InMemorySys::new();
    sys.fs_create_dir_all("/rootDir").unwrap();

    let file_path = "/rootDir/data.bin";
    sys.fs_write(file_path, b"abcdef").unwrap();

    let opts = OpenOptions { write: true, truncate: true, ..Default::default() };
    let _file = sys.fs_open(file_path, &opts).unwrap();
    // the file is truncated at open, so it should be empty
    assert!(sys.fs_read(file_path).unwrap().is_empty());
}

#[test]
fn test_rename_file() {
    let mut sys = InMemorySys::new();
    sys.fs_create_dir_all("/rootDir").unwrap();

    let old_path = "/rootDir/old.txt";
    let new_path = "/rootDir/new.txt";
    sys.fs_write(old_path, b"some data").unwrap();

    sys.fs_rename(old_path, new_path).unwrap();
    assert!(!sys.fs_exists(old_path).unwrap());
    assert!(sys.fs_exists(new_path).unwrap());

    let data = sys.fs_read_to_string(new_path).unwrap();
    assert_eq!(&*data, "some data");
}

#[test]
fn test_remove_file() {
    let mut sys = InMemorySys::new();
    sys.fs_create_dir_all("/rootDir").unwrap();

    let file_path = "/rootDir/remove_me.txt";
    sys.fs_write(file_path, b"Bye!").unwrap();
    assert!(sys.fs_exists(file_path).unwrap());

    sys.fs_remove_file(file_path).unwrap();
    assert!(!sys.fs_exists(file_path).unwrap());
}

#[test]
fn test_modified_time() {
    let mut sys = InMemorySys::new();
    sys.fs_create_dir_all("/rootDir").unwrap();

    let file_path = "/rootDir/hello.txt";
    sys.fs_write(file_path, b"Hi!").unwrap();

    let modified = sys.fs_metadata(file_path).unwrap().modified;

    // the clock cannot easily be frozen here, so only check that the stamp
    // is no later than the clock reads now
    let now = sys.sys_time_now();
    assert!(now >= modified);
}

#[test]
fn test_exists_no_err() {
    let mut sys = InMemorySys::new();
    assert!(!sys.fs_exists_no_err("/does/not/exist"));
    sys.fs_create_dir_all("/exists").unwrap();
    assert!(sys.fs_exists_no_err("/exists"));
}

#[test]
fn test_is_file_no_err() {
    let mut sys = InMemorySys::new();
    sys.fs_create_dir_all("/dir").unwrap();
    sys.fs_write("/dir/file.txt", b"contents").unwrap();
    assert!(!sys.fs_is_file_no_err("/no/file"));
    assert!(!sys.fs_is_file_no_err("/dir"));
    assert!(sys.fs_is_file_no_err("/dir/file.txt"));
}

#[test]
fn test_is_dir_no_err() {
    let mut sys = InMemorySys::new();
    sys.fs_create_dir_all("/dir").unwrap();
    sys.fs_write("/dir/file.txt", b"contents").unwrap();
    assert!(!sys.fs_is_dir_no_err("/no/dir"));
    assert!(sys.fs_is_dir_no_err("/dir"));
    assert!(!sys.fs_is_dir_no_err("/dir/file.txt"));
}

#[test]
fn test_file_permissions() {
    let mut sys = InMemorySys::new();
    sys.fs_create_dir_all("/dir").unwrap();

    let file_path = "/dir/perm_test.txt";
    sys.fs_write(file_path, b"Testing perms").unwrap();
    let mut file = sys.fs_open(file_path, &OpenOptions::new_read()).unwrap();
    file.fs_file_set_permissions(&mut sys, 0o755).unwrap();

    assert_eq!(file.mode(&sys), 0o755);
}

#[test]
fn test_file_append() {
    let mut sys = InMemorySys::new();
    sys.fs_create_dir_all("/dir").unwrap();

    let file_path = "/dir/append_test.txt";
    let mut opts = OpenOptions { write: true, create: true, ..Default::default() };
    // not truncate; this creates an empty file
    sys.fs_open(file_path, &opts).unwrap();
    // now open again with append
    opts.append = true;
    let mut file = sys.fs_open(file_path, &opts).unwrap();
    let _ = file.write(&mut sys, b"Appending ").unwrap();
    let _ = file.write(&mut sys, b"more data").unwrap();

    let contents = sys.fs_read_to_string(file_path).unwrap();
    assert_eq!(&*contents, "Appending more data");
}

#[test]
fn test_create_dir_that_already_exists() {
    let mut sys = InMemorySys::new();
    sys.fs_create_dir_all("/already/exists").unwrap();
    let result = sys.fs_create_dir_all("/already/exists");
    assert!(result.is_ok(), "Creating a directory that already exists should succeed");
}

#[test]
fn test_remove_non_empty_directory_fails() {
    let mut sys = InMemorySys::new();
    sys.fs_create_dir_all("/dir").unwrap();
    sys.fs_write("/dir/file.txt", b"data").unwrap();
    let result = sys.fs_remove_file("/dir");
    assert!(
        result.is_err(),
        "Removing a non-empty directory (treated as a directory, not a file) should fail"
    );
}

#[test]
fn test_fs_canonicalize_relative_path() {
    let mut sys = InMemorySys::new();
    sys.fs_create_dir_all("/test/relative").unwrap();
    sys.env_set_current_dir("/test").unwrap();
    let abs = sys.fs_canonicalize("relative").unwrap();
    assert_eq!(abs, "/test/relative".to_string());
}

#[test]
fn test_fs_canonicalize_absolute_path() {
    let mut sys = InMemorySys::new();
    sys.fs_create_dir_all("/absolute").unwrap();
    let abs = sys.fs_canonicalize("/absolute").unwrap();
    assert_eq!(abs, "/absolute".to_string());
}

#[test]
fn test_sys_random_no_seed() {
    let sys = InMemorySys::new();
    let mut buf1 = vec![0u8; 8];
    let mut buf2 = vec![0u8; 8];
    sys.sys_random(&mut buf1).unwrap();
    sys.sys_random(&mut buf2).unwrap();
    // there is no promise about exact values without a seed, but it should
    // succeed and fill the buffers
    assert_ne!(buf1, vec![0u8; 8]);
    assert_ne!(buf2, vec![0u8; 8]);
}

#[test]
fn test_thread_sleep_no_op() {
    let mut sys = InMemorySys::new();
    sys.disable_thread_sleep();
    // sleeping is disabled, so no time at all is owed to a sleep request
    assert!(!sys.thread_sleep_enabled());
    assert_eq!(sys.thread_sleep_millis(100), 0, "Sleep should be disabled");
}

#[test]
fn test_rename_file_to_existing_file() {
    let mut sys = InMemorySys::new();
    sys.fs_create_dir_all("/dir").unwrap();
    sys.fs_write("/dir/file1.txt", b"111").unwrap();
    sys.fs_write("/dir/file2.txt", b"222").unwrap();
    let result = sys.fs_rename("/dir/file1.txt", "/dir/file2.txt");
    assert!(result.is_ok() || result.is_err());
    let file1_exists = sys.fs_exists_no_err("/dir/file1.txt");
    let file2_exists = sys.fs_exists_no_err("/dir/file2.txt");
    assert!(!file1_exists && file2_exists);
}

#[test]
fn test_fs_write_into_non_existent_subdir_fails() {
    let mut sys = InMemorySys::new();
    let result = sys.fs_write("/no-such-subdir/myfile.txt", b"content");
    assert!(result.is_err(), "Should fail because /no-such-subdir does not exist");
}

#[test]
fn test_fs_read_dir_with_files() {
    let mut sys = InMemorySys::new();
    let root_dir = "/test";

    sys.fs_create_dir_all(root_dir).unwrap();
    sys.fs_write(&format!("{}/file1.txt", root_dir), b"Content 1").unwrap();
    sys.fs_write(&format!("{}/file2.txt", root_dir), b"Content 2").unwrap();

    let entries: Vec<String> =
        sys.fs_read_dir(root_dir).unwrap().iter().map(|e| e.file_name()).collect();

    assert_eq!(entries.len(), 2);
    assert!(entries.contains(&"file1.txt".to_string()));
    assert!(entries.contains(&"file2.txt".to_string()));
}

#[test]
fn test_fs_read_dir_with_subdirectories() {
    let mut sys = InMemorySys::new();
    let root_dir = "/test";

    sys.fs_create_dir_all(&format!("{}/subdir", root_dir)).unwrap();
    sys.fs_write(&format!("{}/subdir/file.txt", root_dir), b"Content").unwrap();

    let entries: Vec<String> =
        sys.fs_read_dir(root_dir).unwrap().iter().map(|e| e.file_name()).collect();

    assert_eq!(entries.len(), 1);
    assert!(entries.contains(&"subdir".to_string()));
}

#[test]
fn test_fs_read_dir_not_a_directory() {
    let mut sys = InMemorySys::new();
    let file_path = "/file.txt";

    sys.fs_create_dir_all("/").unwrap();
    sys.fs_write(file_path, b"Content").unwrap();

    let result = sys.fs_read_dir(file_path);
    assert!(result.is_err());
    match result {
        Err(err) => {
            assert_eq!(err.kind(), ErrorKind::Other);
        }
        _ => panic!("Expected an error"),
    }
}

#[test]
fn test_fs_read_dir_empty_directory() {
    let mut sys = InMemorySys::new();
    let empty_dir = "/empty";
    sys.fs_create_dir_all(empty_dir).unwrap();

    let entries: Vec<String> =
        sys.fs_read_dir(empty_dir).unwrap().iter().map(|e| e.file_name()).collect();

    assert!(entries.is_empty());
}

#[test]
fn test_hard_link_sync() {
    let mut sys = InMemorySys::new();
    let empty_dir = "/empty";
    sys.fs_create_dir_all(empty_dir).unwrap();

    sys.fs_write("/empty/file.txt", b"Content").unwrap();
    sys.fs_hard_link("/empty/file.txt", "/empty/file2.txt").unwrap();
    assert_eq!(sys.fs_read("/empty/file2.txt").unwrap().as_slice(), b"Content");
}

#[test]
fn test_seek_start() {
    let mut sys = InMemorySys::new();
    sys.fs_create_dir_all("/test").unwrap();
    let file_path = "/test/seek.txt";
    sys.fs_write(file_path, b"abcdef").unwrap();

    let mut file = sys.fs_open(file_path, &OpenOptions::write()).unwrap();

    let new_pos = file.seek(&sys, SeekFrom::Start(0)).unwrap();
    assert_eq!(new_pos, 0);
    assert_eq!(file.pos(), 0);
}

#[test]
fn test_seek_end() {
    let mut sys = InMemorySys::new();
    sys.fs_create_dir_all("/test").unwrap();
    let file_path = "/test/seek.txt";
    sys.fs_write(file_path, b"abcdef").unwrap();

    let mut file = sys.fs_open(file_path, &OpenOptions::new_read()).unwrap();

    let new_pos = file.seek(&sys, SeekFrom::End(0)).unwrap();
    assert_eq!(new_pos, 6);
    assert_eq!(file.pos(), 6);

    let new_pos = file.seek(&sys, SeekFrom::End(-2)).unwrap();
    assert_eq!(new_pos, 4);
    assert_eq!(file.pos(), 4);
}

#[test]
fn test_seek_current() {
    let mut sys = InMemorySys::new();
    sys.fs_create_dir_all("/test").unwrap();
    let file_path = "/test/seek.txt";
    sys.fs_write(file_path, b"abcdef").unwrap();

    let mut file = sys.fs_open(file_path, &OpenOptions::write()).unwrap();

    let new_pos = file.seek(&sys, SeekFrom::Current(2)).unwrap();
    assert_eq!(new_pos, 2);
    assert_eq!(file.pos(), 2);

    let new_pos = file.seek(&sys, SeekFrom::Current(-1)).unwrap();
    assert_eq!(new_pos, 1);
    assert_eq!(file.pos(), 1);
}

#[test]
fn test_seek_before_start_fails() {
    let mut sys = InMemorySys::new();
    sys.fs_create_dir_all("/test").unwrap();
    let file_path = "/test/seek.txt";
    sys.fs_write(file_path, b"abcdef").unwrap();

    let mut file = sys.fs_open(file_path, &OpenOptions::write()).unwrap();

    let result = file.seek(&sys, SeekFrom::End(-1000));
    assert!(result.is_err());
    assert_eq!(result.unwrap_err().kind(), ErrorKind::InvalidInput);
}

#[test]
fn test_seek_write_position() {
    let mut sys = InMemorySys::new();
    sys.fs_create_dir_all("/test").unwrap();
    let file_path = "/test/seek_write.txt";
    sys.fs_write(file_path, b"abcdef").unwrap();

    let mut file = sys
        .fs_open(file_path, &OpenOptions { truncate: false, write: false, ..Default::default() })
        .unwrap();

    // seek to position 3 and write data
    file.seek(&sys, SeekFrom::Start(3)).unwrap();
    file.write(&mut sys, b"XYZ").unwrap();
    // seek then write past the end
    file.seek(&sys, SeekFrom::End(2)).unwrap();
    file.write(&mut sys, b"a").unwrap();

    let contents = sys.fs_read_to_string(file_path).unwrap();
    assert_eq!(&*contents, "abcXYZ\0\0a");
}

#[test]
fn test_temp_dir() {
    let mut sys = InMemorySys::new();
    assert!(sys.env_temp_dir().is_err());
    sys.fs_create_dir_all("/test").unwrap();
    assert_eq!(sys.env_temp_dir().unwrap(), "/tmp".to_string());
}
