use opendalfs::EntryKind;
use opendalfs::FsError;
use opendalfs::MemoryFileSystem;
use opendalfs::OpendalFileSystem;
use opendalfs::S3FileSystem;
use opendalfs::Scheme;

fn fresh() -> OpendalFileSystem {
    MemoryFileSystem::new(None)
}

#[test]
fn mkdir_top_level_twice_is_harmless() {
    let mut fs = fresh();
    assert!(fs.mkdir("/a/", false).is_ok());
    assert!(fs.mkdir("/a/", false).is_ok());
    assert_eq!(fs.path_exists("/a/").unwrap(), true);
}

#[test]
fn mkdir_below_parent_needs_create_parents() {
    let mut fs = fresh();
    assert!(matches!(fs.mkdir("/a/b/", false), Err(FsError::InvalidPath)));
    assert!(fs.mkdir("/a/b/", true).is_ok());
    assert_eq!(fs.path_exists("/a/b/").unwrap(), true);
}

#[test]
fn mkdir_rejects_file_form_and_root() {
    let mut fs = fresh();
    assert!(matches!(fs.mkdir("/a", false), Err(FsError::InvalidPath)));
    assert!(matches!(fs.mkdir("/", true), Err(FsError::InvalidPath)));
    assert!(matches!(fs.mkdir("", true), Err(FsError::InvalidPath)));
}

#[test]
fn mkdirs_fresh_then_already_exists() {
    let mut fs = fresh();
    assert!(fs.mkdirs("/a/b/c/", false).is_ok());
    assert_eq!(fs.path_exists("/a/b/c/").unwrap(), true);
    assert!(matches!(fs.mkdirs("/a/b/c/", false), Err(FsError::AlreadyExists)));
    assert!(fs.mkdirs("/a/b/c/", true).is_ok());
}

#[test]
fn rmdir_of_occupied_directory() {
    let mut fs = fresh();
    assert!(fs.mkdir("/a/", false).is_ok());
    assert!(fs.write("/a/b.txt", b"hi".to_vec()).is_ok());
    match fs.rmdir("/a/", false) {
        Err(FsError::DirectoryNotEmpty(children)) => {
            assert!(!children.is_empty());
            assert!(children.iter().any(|c| c.as_str() == "a/b.txt"));
            assert!(children.iter().all(|c| c.as_str() != "a/"));
        }
        other => panic!("expected DirectoryNotEmpty, got {:?}", other),
    }
    assert!(fs.rmdir("/a/", true).is_ok());
    assert_eq!(fs.path_exists("/a/").unwrap(), false);
    assert_eq!(fs.path_exists("/a/b.txt").unwrap(), false);
}

#[test]
fn rmdir_of_empty_directory() {
    let mut fs = fresh();
    assert!(fs.mkdir("/a/", false).is_ok());
    assert!(fs.rmdir("/a/", false).is_ok());
    assert_eq!(fs.path_exists("/a/").unwrap(), false);
}

#[test]
fn rmdir_without_marker_or_target_is_not_found() {
    let mut fs = fresh();
    assert!(matches!(fs.rmdir("/a", false), Err(FsError::NotFound)));
    assert!(matches!(fs.rmdir("/missing/", false), Err(FsError::NotFound)));
    assert!(matches!(fs.rmdir("/missing/", true), Err(FsError::NotFound)));
}

#[test]
fn rm_file_on_directory_is_invalid_path() {
    let mut fs = fresh();
    assert!(fs.write("/d/x", b"1".to_vec()).is_ok());
    assert!(matches!(fs.rm_file("/d"), Err(FsError::InvalidPath)));
    assert!(matches!(fs.rm_file("/d/"), Err(FsError::InvalidPath)));
    assert_eq!(fs.path_exists("/d/x").unwrap(), true);
}

#[test]
fn rm_file_removes_only_the_file() {
    let mut fs = fresh();
    assert!(fs.write("/f.txt", b"data".to_vec()).is_ok());
    assert!(fs.rm_file("/f.txt").is_ok());
    assert_eq!(fs.path_exists("/f.txt").unwrap(), false);
    assert!(matches!(fs.rm_file("/f.txt"), Err(FsError::NotFound)));
    assert!(matches!(fs.rm_file("/"), Err(FsError::InvalidPath)));
}

#[test]
fn write_then_read_round_trip() {
    let mut fs = fresh();
    let data = vec![0u8, 1, 2, 255, 0, 42];
    assert!(fs.write("/dir/file.bin", data.clone()).is_ok());
    assert_eq!(fs.read("/dir/file.bin").unwrap(), data);
    let data2 = b"overwritten".to_vec();
    assert!(fs.write("/dir/file.bin", data2.clone()).is_ok());
    assert_eq!(fs.read("/dir/file.bin").unwrap(), data2);
    assert!(fs.write("/empty", Vec::new()).is_ok());
    assert_eq!(fs.read("/empty").unwrap(), Vec::<u8>::new());
}

#[test]
fn read_errors_on_missing_and_directory_paths() {
    let fs = fresh();
    assert!(matches!(fs.read("/missing"), Err(FsError::NotFound)));
    assert!(matches!(fs.read("/a/"), Err(FsError::InvalidPath)));
    assert!(matches!(fs.read("/"), Err(FsError::InvalidPath)));
}

#[test]
fn write_rejects_directory_paths() {
    let mut fs = fresh();
    assert!(matches!(fs.write("/a/", b"x".to_vec()), Err(FsError::InvalidPath)));
    assert!(matches!(fs.write("/", b"x".to_vec()), Err(FsError::InvalidPath)));
}

#[test]
fn info_reports_the_last_write() {
    let mut fs = fresh();
    assert!(matches!(fs.info("/missing"), Err(FsError::NotFound)));
    assert!(fs.write("/p", b"abc".to_vec()).is_ok());
    let st = fs.info("/p").unwrap();
    assert_eq!(st.size, 3);
    assert_eq!(st.kind, EntryKind::File);
    assert_eq!(st.path, "/p");
    assert!(fs.write("/p", b"abcdef".to_vec()).is_ok());
    assert_eq!(fs.info("/p").unwrap().size, 6);
}

#[test]
fn info_composes_the_backend_root() {
    let mut fs = MemoryFileSystem::new(Some("base".to_string()));
    assert!(fs.write("/p", b"x".to_vec()).is_ok());
    let st = fs.info("/p").unwrap();
    assert_eq!(st.path, "/base/p");
    let root = fs.info("/").unwrap();
    assert_eq!(root.path, "/base/");
    assert_eq!(root.kind, EntryKind::Dir);
    assert_eq!(root.size, 0);
}

#[test]
fn info_on_directories() {
    let mut fs = fresh();
    assert!(fs.write("/a/x", b"xyz".to_vec()).is_ok());
    let st = fs.info("/a/").unwrap();
    assert_eq!(st.kind, EntryKind::Dir);
    assert_eq!(st.size, 0);
    assert_eq!(st.path, "/a/");
}

#[test]
fn modified_is_unavailable_on_the_memory_service() {
    let mut fs = fresh();
    assert!(matches!(fs.modified("/missing"), Err(FsError::NotFound)));
    assert!(fs.write("/p", b"x".to_vec()).is_ok());
    assert!(matches!(fs.modified("/p"), Err(FsError::Unavailable)));
}

#[test]
fn exists_sees_virtual_directories() {
    let mut fs = fresh();
    assert_eq!(fs.path_exists("/").unwrap(), true);
    assert_eq!(fs.check_path_exists("/").unwrap(), true);
    assert!(fs.write("/a/b", b"x".to_vec()).is_ok());
    assert_eq!(fs.path_exists("/a/").unwrap(), true);
    assert_eq!(fs.check_path_exists("/a/").unwrap(), true);
    assert_eq!(fs.path_exists("/a").unwrap(), false);
    assert_eq!(fs.path_exists("/a/b").unwrap(), true);
    assert_eq!(fs.path_exists("/a/b/").unwrap(), false);
}

#[test]
fn ls_shows_one_level() {
    let mut fs = fresh();
    assert!(fs.mkdir("/a/", false).is_ok());
    assert!(fs.write("/a/x", b"1".to_vec()).is_ok());
    assert!(fs.write("/a/y/z", b"2".to_vec()).is_ok());
    let mut entries = fs.ls("/a/").unwrap();
    entries.sort();
    assert_eq!(entries, vec!["a/".to_string(), "a/x".to_string(), "a/y/".to_string()]);
    let mut top = fs.ls("/").unwrap();
    top.sort();
    assert_eq!(top, vec!["a/".to_string()]);
}

#[test]
fn ls_of_missing_directory_is_empty() {
    let fs = fresh();
    assert_eq!(fs.ls("/nothing/").unwrap(), Vec::<String>::new());
}

#[test]
fn paths_trimmed_by_the_backend_are_refused() {
    let mut fs = fresh();
    assert!(matches!(fs.write(" a", b"x".to_vec()), Err(FsError::InvalidPath)));
    assert!(matches!(fs.read("a "), Err(FsError::InvalidPath)));
    assert!(matches!(fs.mkdir(" a/", false), Err(FsError::InvalidPath)));
    assert!(matches!(fs.rm_file("a /"), Err(FsError::InvalidPath)));
}

#[test]
fn memory_construction_ignores_unknown_options() {
    let mut fs = OpendalFileSystem::new(
        Scheme::Memory,
        vec![("unknown_option".to_string(), "whatever".to_string())],
    )
    .unwrap();
    assert!(fs.write("/x", b"1".to_vec()).is_ok());
    assert_eq!(fs.read("/x").unwrap(), b"1".to_vec());
}

#[test]
fn scheme_construction_builds_a_memory_backend() {
    let mut fs = OpendalFileSystem::new(Scheme::Memory, Vec::new()).unwrap();
    assert!(fs.write("/x", b"1".to_vec()).is_ok());
    assert_eq!(fs.read("/x").unwrap(), b"1".to_vec());
    let rooted = OpendalFileSystem::new(
        Scheme::Memory,
        vec![("root".to_string(), "base".to_string())],
    )
    .unwrap();
    assert_eq!(rooted.info("/").unwrap().path, "/base/");
}

#[test]
fn facade_from_an_operator_built_elsewhere() {
    let op = opendal::Operator::from_config(opendal::services::MemoryConfig::default())
        .unwrap()
        .finish();
    let mut fs = OpendalFileSystem::from(op);
    assert!(fs.write("/v", b"ok".to_vec()).is_ok());
    assert_eq!(fs.read("/v").unwrap(), b"ok".to_vec());
}

#[test]
fn s3_construction_validates_the_config() {
    let missing_bucket = S3FileSystem::new(
        String::new(),
        "us-east-1".to_string(),
        None,
        None,
        None,
        None,
    );
    assert!(missing_bucket.is_err());
    let fs = S3FileSystem::new(
        "bucket".to_string(),
        "us-east-1".to_string(),
        None,
        Some("http://127.0.0.1:9000".to_string()),
        Some("ak".to_string()),
        Some("sk".to_string()),
    )
    .unwrap();
    assert!(matches!(fs.read("/x"), Err(FsError::Backend(_))));
}
