//! Scenarios from the system's stated behavior: path folding, symlink
//! resolution, renames, the deterministic clock and random generator, and
//! the error conditions each operation reports.

use sys_traits::normalize_path;
use sys_traits::options::FileType;
use sys_traits::options::OpenOptions;
use sys_traits::options::SeekFrom;
use sys_traits::path::strip_unc_prefix;
use sys_traits::path::wasm_path_to_str;
use sys_traits::path::wasm_string_to_path;
use sys_traits::sys::InMemorySys;
use sys_traits::ErrorKind;
use sys_traits::FsError;

#[test]
fn normalize_folds_dots_and_separators() {
    assert_eq!(normalize_path("/a/./b/../c"), "/a/c");
    assert_eq!(normalize_path("/a//b///c/"), "/a/b/c");
    assert_eq!(normalize_path("a/../../b"), "b");
    assert_eq!(normalize_path("/.."), "/");
    assert_eq!(normalize_path("."), "");
    assert_eq!(normalize_path("/"), "/");
}

#[test]
fn normalize_is_idempotent() {
    for p in ["/a/./b/../c", "a/b/../../x/y", "//lots///of////slashes", "..", "", "/./.."] {
        let once = normalize_path(p);
        let twice = normalize_path(&once);
        assert_eq!(once, twice);
        assert!(!once.contains("/./"));
        assert!(!once.contains(".."));
    }
}

#[test]
fn create_dir_all_makes_every_prefix_a_directory() {
    let mut sys = InMemorySys::new();
    sys.fs_create_dir_all("/a/b/c").unwrap();
    assert!(sys.fs_is_dir("/a").unwrap());
    assert!(sys.fs_is_dir("/a/b").unwrap());
    assert!(sys.fs_is_dir("/a/b/c").unwrap());
    assert!(!sys.fs_is_file("/a").unwrap());
    assert!(!sys.fs_is_file("/a/b").unwrap());
    assert!(!sys.fs_is_file("/a/b/c").unwrap());
}

#[test]
fn create_dir_all_rejects_a_file_in_the_way() {
    let mut sys = InMemorySys::new();
    sys.fs_create_dir_all("/a").unwrap();
    sys.fs_write("/a/f", b"x").unwrap();
    let r = sys.fs_create_dir_all("/a/f/deeper");
    assert_eq!(r.unwrap_err().kind(), ErrorKind::Other);
    // the failed attempt left nothing behind
    assert!(!sys.fs_exists_no_err("/a/f/deeper"));
    assert!(sys.fs_is_file("/a/f").unwrap());
}

#[test]
fn symlink_chain_reads_through_to_the_file() {
    let mut sys = InMemorySys::new();
    sys.fs_create_dir_all("/").unwrap();
    sys.fs_write("/real.txt", b"the content").unwrap();
    sys.fs_symlink_file("/real.txt", "/link1").unwrap();
    sys.fs_symlink_file("/link1", "/link2").unwrap();
    // resolution follows the chain to the real file
    assert_eq!(sys.fs_canonicalize("/link2").unwrap(), "/real.txt".to_string());
    assert!(sys.fs_is_file("/link2").unwrap());
    assert!(sys.fs_is_symlink("/link2").unwrap());
    // reading through a symlinked directory reaches the file's content
    sys.fs_create_dir_all("/realdir").unwrap();
    sys.fs_write("/realdir/a.txt", b"inside").unwrap();
    sys.fs_symlink_dir("/realdir", "/dirlink").unwrap();
    assert_eq!(&*sys.fs_read_to_string("/dirlink/a.txt").unwrap(), "inside");
}

#[test]
fn symlink_cycle_fails_with_a_loop_error() {
    let mut sys = InMemorySys::new();
    sys.fs_create_dir_all("/").unwrap();
    sys.fs_write("/seed.txt", b"x").unwrap();
    sys.fs_symlink_file("/s2", "/s1").unwrap();
    sys.fs_symlink_file("/s1", "/s2").unwrap();
    // a cycle is detected and reported instead of running on
    let err = sys.fs_metadata("/s1").unwrap_err();
    assert_eq!(err, FsError::SymlinkLoop);
    assert_eq!(err.kind(), ErrorKind::Other);
    let err = sys.fs_read("/s1/x").unwrap_err();
    assert_eq!(err, FsError::SymlinkLoop);
}

#[test]
fn rename_replaces_content_and_removes_the_old_name() {
    let mut sys = InMemorySys::new();
    sys.fs_create_dir_all("/dir").unwrap();
    sys.fs_write("/dir/from.txt", b"from-bytes").unwrap();
    sys.fs_write("/dir/to.txt", b"to-bytes").unwrap();
    sys.fs_rename("/dir/from.txt", "/dir/to.txt").unwrap();
    assert!(!sys.fs_exists_no_err("/dir/from.txt"));
    assert_eq!(&*sys.fs_read_to_string("/dir/to.txt").unwrap(), "from-bytes");
}

#[test]
fn rename_onto_a_directory_fails_and_changes_nothing() {
    let mut sys = InMemorySys::new();
    sys.fs_create_dir_all("/dir/sub").unwrap();
    sys.fs_write("/dir/f.txt", b"payload").unwrap();
    let err = sys.fs_rename("/dir/f.txt", "/dir/sub").unwrap_err();
    assert_eq!(err, FsError::RenameOntoDirectory);
    assert_eq!(err.kind(), ErrorKind::Other);
    // both sides are exactly as they were
    assert_eq!(&*sys.fs_read_to_string("/dir/f.txt").unwrap(), "payload");
    assert!(sys.fs_is_dir("/dir/sub").unwrap());
}

#[test]
fn rename_creates_missing_destination_directories() {
    let mut sys = InMemorySys::new();
    sys.fs_create_dir_all("/src").unwrap();
    sys.fs_write("/src/f.txt", b"moved").unwrap();
    sys.fs_rename("/src/f.txt", "/made/on/demand/f.txt").unwrap();
    assert!(!sys.fs_exists_no_err("/src/f.txt"));
    assert_eq!(&*sys.fs_read_to_string("/made/on/demand/f.txt").unwrap(), "moved");
}

#[test]
fn sparse_write_zero_fills_the_gap() {
    let mut sys = InMemorySys::new();
    sys.fs_create_dir_all("/root").unwrap();
    sys.fs_write("/root/a.txt", b"abcdef").unwrap();
    let mut file =
        sys.fs_open("/root/a.txt", &OpenOptions { write: true, ..Default::default() }).unwrap();
    file.seek(&sys, SeekFrom::Start(3)).unwrap();
    file.write(&mut sys, b"XYZ").unwrap();
    file.seek(&sys, SeekFrom::End(2)).unwrap();
    file.write(&mut sys, b"Q").unwrap();
    assert_eq!(&*sys.fs_read_to_string("/root/a.txt").unwrap(), "abcXYZ\0\0Q");
}

#[test]
fn rename_then_read_under_the_new_name() {
    let mut sys = InMemorySys::new();
    sys.fs_create_dir_all("/").unwrap();
    sys.fs_write("/f", b"hi").unwrap();
    sys.fs_rename("/f", "/g").unwrap();
    assert!(!sys.fs_exists("/f").unwrap());
    assert_eq!(&*sys.fs_read_to_string("/g").unwrap(), "hi");
}

#[test]
fn seek_far_before_the_start_is_invalid_input() {
    let mut sys = InMemorySys::new();
    sys.fs_create_dir_all("/t").unwrap();
    sys.fs_write("/t/six.bin", b"abcdef").unwrap();
    let mut file = sys.fs_open("/t/six.bin", &OpenOptions::new_read()).unwrap();
    let err = file.seek(&sys, SeekFrom::End(-1000)).unwrap_err();
    assert_eq!(err.kind(), ErrorKind::InvalidInput);
    assert_eq!(err, FsError::SeekBeforeStart);
}

#[test]
fn write_then_read_back_round_trips() {
    let mut sys = InMemorySys::new();
    sys.fs_create_dir_all("/d").unwrap();
    let bytes = b"\x00\x01\xfe binary bytes \xff";
    sys.fs_write("/d/bin", bytes).unwrap();
    assert_eq!(sys.fs_read("/d/bin").unwrap().as_slice(), bytes);
    // the same handle, after a seek back to the start, reads it again
    let mut file = sys.fs_open("/d/bin", &OpenOptions::new_read()).unwrap();
    file.seek(&sys, SeekFrom::Start(0)).unwrap();
    let mut buf = vec![0u8; bytes.len()];
    let n = file.read(&sys, &mut buf).unwrap();
    assert_eq!(n, bytes.len());
    assert_eq!(buf.as_slice(), bytes);
}

#[test]
fn reading_past_the_end_yields_nothing_and_no_error() {
    let mut sys = InMemorySys::new();
    sys.fs_create_dir_all("/d").unwrap();
    sys.fs_write("/d/f", b"xy").unwrap();
    let mut file = sys.fs_open("/d/f", &OpenOptions::new_read()).unwrap();
    file.seek(&sys, SeekFrom::Start(100)).unwrap();
    let mut buf = vec![7u8; 4];
    assert_eq!(file.read(&sys, &mut buf).unwrap(), 0);
    assert_eq!(buf, vec![7u8; 4]);
}

#[test]
fn create_new_refuses_an_existing_file() {
    let mut sys = InMemorySys::new();
    sys.fs_create_dir_all("/d").unwrap();
    sys.fs_write("/d/f", b"here").unwrap();
    let opts = OpenOptions { write: true, create: true, create_new: true, ..Default::default() };
    let err = sys.fs_open("/d/f", &opts).unwrap_err();
    assert_eq!(err, FsError::AlreadyExists);
    assert_eq!(err.kind(), ErrorKind::AlreadyExists);
}

#[test]
fn opening_a_directory_as_a_file_fails() {
    let mut sys = InMemorySys::new();
    sys.fs_create_dir_all("/d/sub").unwrap();
    let err = sys.fs_open("/d/sub", &OpenOptions::new_read()).unwrap_err();
    assert_eq!(err, FsError::NotAFile);
    assert_eq!(err.kind(), ErrorKind::Other);
}

#[test]
fn missing_file_reports_not_found() {
    let mut sys = InMemorySys::new();
    sys.fs_create_dir_all("/d").unwrap();
    let err = sys.fs_read("/d/absent").unwrap_err();
    assert_eq!(err, FsError::NotFound);
    assert_eq!(err.kind(), ErrorKind::NotFound);
}

#[test]
fn invalid_utf8_is_reported_and_lossy_reading_replaces_it() {
    let mut sys = InMemorySys::new();
    sys.fs_create_dir_all("/d").unwrap();
    sys.fs_write("/d/raw", b"ok \xff\xfe").unwrap();
    let err = sys.fs_read_to_string("/d/raw").unwrap_err();
    assert_eq!(err, FsError::InvalidUtf8);
    assert_eq!(err.kind(), ErrorKind::InvalidData);
    let lossy = sys.fs_read_to_string_lossy("/d/raw").unwrap();
    assert_eq!(&*lossy, "ok \u{FFFD}\u{FFFD}");
}

#[test]
fn seeded_random_is_deterministic() {
    let mut sys = InMemorySys::new();
    sys.set_seed(Some(42));
    let mut buf1 = vec![0u8; 4];
    let mut buf2 = vec![0u8; 4];
    sys.sys_random(&mut buf1).unwrap();
    sys.sys_random(&mut buf2).unwrap();
    assert_eq!(buf1, buf2);
    // the first emitted byte of the generator seeded with 42: the top bits
    // of 42 * 1664525 + 1013904223
    assert_eq!(buf1[0], ((42u64.wrapping_mul(1664525).wrapping_add(1013904223)) >> 24) as u8);
    assert_eq!(sys.sys_random_u8().unwrap(), buf1[0]);
}

#[test]
fn fixed_clock_stamps_every_change() {
    let mut sys = InMemorySys::new();
    sys.set_time(Some(1234));
    sys.fs_create_dir_all("/d").unwrap();
    sys.fs_write("/d/f", b"x").unwrap();
    assert_eq!(sys.fs_metadata("/d/f").unwrap().modified, 1234);
    assert_eq!(sys.fs_metadata("/d").unwrap().modified, 1234);
    assert_eq!(sys.sys_time_now(), 1234);
}

#[test]
fn created_file_carries_the_requested_mode() {
    let mut sys = InMemorySys::new();
    sys.fs_create_dir_all("/d").unwrap();
    let mut opts = OpenOptions { write: true, create: true, ..Default::default() };
    let file = sys.fs_open("/d/default_mode", &opts).unwrap();
    assert_eq!(file.mode(&sys), 0o666);
    opts.mode = Some(0o600);
    let file = sys.fs_open("/d/explicit_mode", &opts).unwrap();
    assert_eq!(file.mode(&sys), 0o600);
}

#[test]
fn hard_link_copies_instead_of_sharing() {
    let mut sys = InMemorySys::new();
    sys.fs_create_dir_all("/d").unwrap();
    sys.fs_write("/d/src", b"one").unwrap();
    sys.fs_hard_link("/d/src", "/d/dst").unwrap();
    // the two paths do not share storage: changing one leaves the other
    sys.fs_write("/d/src", b"two").unwrap();
    assert_eq!(&*sys.fs_read_to_string("/d/dst").unwrap(), "one");
}

#[test]
fn read_dir_lists_entries_sorted_by_name() {
    let mut sys = InMemorySys::new();
    sys.fs_create_dir_all("/d").unwrap();
    sys.fs_write("/d/b.txt", b"2").unwrap();
    sys.fs_write("/d/a.txt", b"1").unwrap();
    sys.fs_create_dir_all("/d/c").unwrap();
    let entries = sys.fs_read_dir("/d").unwrap();
    let names: Vec<String> = entries.iter().map(|e| e.file_name()).collect();
    assert_eq!(names, vec!["a.txt".to_string(), "b.txt".to_string(), "c".to_string()]);
    assert_eq!(entries[0].file_type().unwrap(), FileType::File);
    assert_eq!(entries[2].file_type().unwrap(), FileType::Dir);
    assert_eq!(entries[1].path(), "/d/b.txt".to_string());
}

#[test]
fn symlink_refuses_to_overwrite_a_directory() {
    let mut sys = InMemorySys::new();
    sys.fs_create_dir_all("/d/taken").unwrap();
    let err = sys.fs_symlink_file("/elsewhere", "/d/taken").unwrap_err();
    assert_eq!(err, FsError::AlreadyExists);
    // overwriting an existing file with a symlink is allowed
    sys.fs_write("/d/f", b"x").unwrap();
    sys.fs_symlink_file("/d/taken", "/d/f").unwrap();
    assert!(sys.fs_is_symlink("/d/f").unwrap());
}

#[test]
fn environment_paths_compose_from_home() {
    let mut sys = InMemorySys::new();
    assert!(sys.env_home_dir().is_none());
    sys.env_set_var("HOME", "/home/someone");
    assert_eq!(sys.env_home_dir(), Some("/home/someone".to_string()));
    assert_eq!(sys.env_cache_dir(), Some("/home/someone/.cache".to_string()));
    sys.env_set_var("EMPTY", "");
    assert!(sys.env_var_path("EMPTY").is_none());
    assert_eq!(sys.env_var("MISSING").unwrap_err(), FsError::NotFound);
}

#[test]
fn fs_insert_seeds_directories_and_content() {
    let mut sys = InMemorySys::new();
    sys.fs_insert("/deep/ly/nested/file.txt", b"seeded").unwrap();
    assert!(sys.fs_is_dir("/deep/ly/nested").unwrap());
    assert_eq!(&*sys.fs_read_to_string("/deep/ly/nested/file.txt").unwrap(), "seeded");
}

#[test]
fn host_path_text_helpers_pass_text_through() {
    assert_eq!(wasm_string_to_path("/a/b".to_string()), "/a/b".to_string());
    assert_eq!(wasm_path_to_str("/a/b"), "/a/b");
    assert_eq!(strip_unc_prefix("/a/b".to_string()), "/a/b".to_string());
}

#[test]
fn set_len_truncates_and_extends_with_zeros() {
    let mut sys = InMemorySys::new();
    sys.fs_create_dir_all("/d").unwrap();
    sys.fs_write("/d/f", b"abcdef").unwrap();
    let mut file = sys.fs_open("/d/f", &OpenOptions::new_read()).unwrap();
    file.fs_file_set_len(&mut sys, 3).unwrap();
    assert_eq!(sys.fs_read("/d/f").unwrap().as_slice(), b"abc");
    file.fs_file_set_len(&mut sys, 5).unwrap();
    assert_eq!(sys.fs_read("/d/f").unwrap().as_slice(), b"abc\0\0");
}

#[test]
fn create_dir_without_recursion_needs_the_parent() {
    let mut sys = InMemorySys::new();
    let opts = sys_traits::options::CreateDirOptions::new();
    assert_eq!(sys.fs_create_dir("/a/b", &opts).unwrap_err(), FsError::NotFound);
    sys.fs_create_dir_all("/a").unwrap();
    sys.fs_create_dir("/a/b", &opts).unwrap();
    assert!(sys.fs_is_dir("/a/b").unwrap());
    assert_eq!(sys.fs_create_dir("/a/b", &opts).unwrap_err(), FsError::AlreadyExists);
}

#[test]
fn seeded_random_numbers_follow_the_generator() {
    let mut sys = InMemorySys::new();
    sys.set_seed(Some(7));
    let mut buf = vec![0u8; 4];
    sys.sys_random(&mut buf).unwrap();
    let expected = (buf[0] as u32)
        + (buf[1] as u32) * 0x100
        + (buf[2] as u32) * 0x1_0000
        + (buf[3] as u32) * 0x100_0000;
    assert_eq!(sys.sys_random_u32().unwrap(), expected);
}

#[test]
fn fs_insert_reports_a_blocked_parent() {
    let mut sys = InMemorySys::new();
    sys.fs_create_dir_all("/a").unwrap();
    sys.fs_write("/a/f", b"x").unwrap();
    let err = sys.fs_insert("/a/f/deep/file.txt", b"y").unwrap_err();
    assert_eq!(err.kind(), ErrorKind::Other);
    assert_eq!(&*sys.fs_read_to_string("/a/f").unwrap(), "x");
}

#[test]
fn cache_dir_is_absent_exactly_without_home() {
    let mut sys = InMemorySys::new();
    assert!(sys.env_cache_dir().is_none());
    sys.env_set_var("HOME", "/h");
    assert_eq!(sys.env_cache_dir(), Some("/h/.cache".to_string()));
}

#[test]
fn an_empty_path_is_invalid_input() {
    let sys = InMemorySys::new();
    let err = sys.fs_metadata("").unwrap_err();
    assert_eq!(err, FsError::EmptyPath);
    assert_eq!(err.kind(), ErrorKind::InvalidInput);
    let err = sys.fs_symlink_metadata("").unwrap_err();
    assert_eq!(err.kind(), ErrorKind::InvalidInput);
    // the boolean form still collapses the empty path to a plain no
    assert!(!sys.fs_exists("").unwrap());
}
