use grm::memory_fs::MemoryFs;
use grm::path::FsPath;
use grm::path_order::sorted_paths;
use grm::ports::file_system::{
    holds_dir, holds_entry, holds_repository, normalize, FileSystem, FileSystemError,
};

fn home() -> Result<FsPath, FileSystemError> {
    Ok(FsPath::new("/home/testuser"))
}

#[test]
fn test_normalize_absolute_path() {
    let base = FsPath::new("/base");
    let path = FsPath::new("/absolute/path");

    let normalized = normalize(&path, &base, &home()).unwrap();

    assert!(normalized.is_absolute());
    assert_eq!(normalized.display(), "/absolute/path");
}

#[test]
fn test_normalize_relative_path() {
    let base = FsPath::new("/tmp/some/dir");
    let path = FsPath::new("relative/path");

    let normalized = normalize(&path, &base, &home()).unwrap();

    assert!(normalized.is_absolute());
    assert_eq!(normalized, base.join_str("relative/path"));
}

#[test]
fn test_normalize_tilde() {
    let base = FsPath::new("/some/base");
    let path = FsPath::new("~");

    let normalized = normalize(&path, &base, &home()).unwrap();

    assert_eq!(normalized, FsPath::new("/home/testuser"));
}

#[test]
fn test_normalize_tilde_with_path() {
    let base = FsPath::new("/some/base");
    let path = FsPath::new("~/Documents");

    let normalized = normalize(&path, &base, &home()).unwrap();

    assert_eq!(normalized, FsPath::new("/home/testuser").join_str("Documents"));
}

#[test]
fn test_normalize_empty_path() {
    let base = FsPath::new("/base");
    let path = FsPath::new("");

    let result = normalize(&path, &base, &home());

    assert!(result.is_err());
}

#[test]
fn test_normalize_with_dots() {
    let base = FsPath::new("/base");
    let path = FsPath::new("hoge/../foo/./bar");

    let normalized = normalize(&path, &base, &home()).unwrap();

    assert!(normalized.is_absolute());
    assert_eq!(normalized, FsPath::new("/base/foo/bar"));
}

#[test]
fn test_normalize_absolute_with_dots() {
    let base = FsPath::new("/base");
    let path = FsPath::new("/absolute/hoge/../foo/./bar");

    let normalized = normalize(&path, &base, &home()).unwrap();

    assert_eq!(normalized, FsPath::new("/absolute/foo/bar"));
}

#[test]
fn test_normalize_tilde_with_dots() {
    let base = FsPath::new("/base");
    let path = FsPath::new("~/hoge/../foo/./bar");

    let normalized = normalize(&path, &base, &home()).unwrap();

    assert_eq!(normalized, FsPath::new("/home/testuser").join_str("foo/bar"));
}

#[test]
fn normalize_hands_on_a_missing_home_only_where_it_is_asked_for() {
    let base = FsPath::new("/base");
    let no_home: Result<FsPath, FileSystemError> =
        Err(FileSystemError::PathError("Home directory not found".to_string()));
    assert_eq!(
        normalize(&FsPath::new("a/b"), &base, &no_home).unwrap(),
        FsPath::new("/base/a/b")
    );
    match normalize(&FsPath::new("~/a"), &base, &no_home) {
        Err(e) => assert_eq!(e.message(), "Path error: Home directory not found"),
        Ok(p) => panic!("unexpected: {:?}", p),
    }
}

#[test]
fn paths_read_the_same_however_they_are_written() {
    assert_eq!(FsPath::new("/a//b/./c/"), FsPath::new("/a/b/c"));
    assert_eq!(FsPath::new("a/b").display(), "a/b");
    assert_eq!(FsPath::new("/").display(), "/");
    assert_eq!(FsPath::new("").display(), "");
    assert!(FsPath::new("/a/b").starts_with(&FsPath::new("/a")));
    assert!(!FsPath::new("/ab").starts_with(&FsPath::new("/a")));
    assert_eq!(
        FsPath::new("/a/b/c").strip_prefix(&FsPath::new("/a")),
        Some(FsPath::new("b/c"))
    );
    assert_eq!(FsPath::new("/a").strip_prefix(&FsPath::new("/b")), None);
    assert_eq!(FsPath::new("/a/b").parent(), Some(FsPath::new("/a")));
    assert_eq!(FsPath::new("/").parent(), None);
    assert_eq!(FsPath::new("/a").join(&FsPath::new("/b")), FsPath::new("/b"));
}

#[test]
fn memory_fs_test_exists() {
    let mut fs = MemoryFs::new();
    assert!(fs.path_exists(&FsPath::new("/")));
    assert!(!fs.path_exists(&FsPath::new("/nonexistent")));
    fs.add_file(&FsPath::new("/f"));
    assert!(fs.path_exists(&FsPath::new("/f")));
    assert!(!fs.is_dir(&FsPath::new("/f")));
    assert!(!fs.is_symlink(&FsPath::new("/f")));
}

#[test]
fn memory_fs_creates_missing_ancestors() {
    let mut fs = MemoryFs::new();
    fs.create_dir(&FsPath::new("/a/b/c")).unwrap();
    assert!(fs.is_dir(&FsPath::new("/a")));
    assert!(fs.is_dir(&FsPath::new("/a/b")));
    assert!(fs.is_dir(&FsPath::new("/a/b/c")));
    fs.add_file(&FsPath::new("/x"));
    fs.create_dir(&FsPath::new("/x")).unwrap();
    assert!(!fs.is_dir(&FsPath::new("/x")));
}

#[test]
fn memory_fs_lists_what_lies_directly_inside() {
    let mut fs = MemoryFs::new();
    fs.add_dir(&FsPath::new("/d"));
    fs.add_file(&FsPath::new("/d/file1.txt"));
    fs.add_file(&FsPath::new("/d/file2.txt"));
    fs.add_file(&FsPath::new("/d/sub/deep.txt"));
    let entries = sorted_paths(&fs.read_dir(&FsPath::new("/d")).unwrap());
    assert_eq!(
        entries,
        vec![FsPath::new("/d/file1.txt"), FsPath::new("/d/file2.txt")]
    );
    assert!(fs.read_dir(&FsPath::new("/d/file1.txt")).is_err());
    assert!(fs.read_dir(&FsPath::new("/nowhere")).is_err());
}

#[test]
fn memory_fs_removes_with_all_that_lies_below() {
    let mut fs = MemoryFs::new();
    fs.create_dir(&FsPath::new("/dir/nested")).unwrap();
    fs.add_file(&FsPath::new("/dir/nested/file.txt"));
    fs.add_file(&FsPath::new("/dirty"));
    fs.remove(&FsPath::new("/dir")).unwrap();
    assert!(!fs.path_exists(&FsPath::new("/dir")));
    assert!(!fs.path_exists(&FsPath::new("/dir/nested/file.txt")));
    assert!(fs.path_exists(&FsPath::new("/dirty")));
}

#[test]
fn memory_fs_renames_files_and_directories() {
    let mut fs = MemoryFs::new();
    fs.write_file(&FsPath::new("/from.txt"), b"x".to_vec());
    fs.rename(&FsPath::new("/from.txt"), &FsPath::new("/to.txt")).unwrap();
    assert!(!fs.path_exists(&FsPath::new("/from.txt")));
    assert_eq!(fs.read_file(&FsPath::new("/to.txt")), Some(b"x".to_vec()));

    fs.add_dir(&FsPath::new("/d"));
    fs.add_file(&FsPath::new("/d/a"));
    fs.rename(&FsPath::new("/d"), &FsPath::new("/e")).unwrap();
    assert!(fs.is_dir(&FsPath::new("/e")));
    assert!(fs.path_exists(&FsPath::new("/e/a")));
    assert!(!fs.path_exists(&FsPath::new("/d/a")));
    assert!(fs.rename(&FsPath::new("/missing"), &FsPath::new("/x")).is_err());
}

#[test]
fn memory_fs_copies_files_and_directories() {
    let mut fs = MemoryFs::new();
    fs.add_dir(&FsPath::new("/d"));
    fs.write_file(&FsPath::new("/d/a"), b"1".to_vec());
    fs.copy(&FsPath::new("/d"), &FsPath::new("/deep/e")).unwrap();
    assert!(fs.is_dir(&FsPath::new("/deep")));
    assert!(fs.is_dir(&FsPath::new("/deep/e")));
    assert_eq!(fs.read_file(&FsPath::new("/deep/e/a")), Some(b"1".to_vec()));
    assert_eq!(fs.read_file(&FsPath::new("/d/a")), Some(b"1".to_vec()));
    assert!(fs.copy(&FsPath::new("/missing"), &FsPath::new("/x")).is_err());
}

#[test]
fn memory_fs_knows_a_repository_by_its_git_entry() {
    let mut fs = MemoryFs::new();
    fs.add_dir(&FsPath::new("/repo"));
    assert!(!fs.is_git_repository(&FsPath::new("/repo")));
    fs.add_dir(&FsPath::new("/repo/.git"));
    assert!(fs.is_git_repository(&FsPath::new("/repo")));
    fs.add_dir(&FsPath::new("/worktree"));
    fs.add_file(&FsPath::new("/worktree/.git"));
    assert!(fs.is_git_repository(&FsPath::new("/worktree")));
}

#[test]
fn memory_fs_normalizes_from_its_home() {
    let mut fs = MemoryFs::new();
    fs.set_home_dir(&FsPath::new("/h"));
    assert_eq!(fs.home_dir().unwrap(), FsPath::new("/h"));
    assert_eq!(fs.current_dir().unwrap(), FsPath::new("/home/testuser/work"));
    assert_eq!(
        fs.normalize(&FsPath::new("~/x"), &FsPath::new("/b")).unwrap(),
        FsPath::new("/h/x")
    );
    assert_eq!(
        fs.normalize(&FsPath::new("x"), &FsPath::new("/b")).unwrap(),
        FsPath::new("/b/x")
    );
    assert!(fs.normalize(&FsPath::new(""), &FsPath::new("/b")).is_err());
}

#[test]
fn normalize_steps_back_from_the_base() {
    let base = FsPath::new("/a/b");
    assert_eq!(normalize(&FsPath::new("../x"), &base, &home()).unwrap(), FsPath::new("/a/x"));
    assert_eq!(normalize(&FsPath::new(".."), &base, &home()).unwrap(), FsPath::new("/a"));
    assert_eq!(normalize(&FsPath::new("../../x"), &base, &home()).unwrap(), FsPath::new("/x"));
    assert_eq!(normalize(&FsPath::new("../../../x"), &base, &home()).unwrap(), FsPath::new("/x"));
    assert_eq!(normalize(&FsPath::new("x/../../y"), &base, &home()).unwrap(), FsPath::new("/a/y"));
    assert_eq!(normalize(&FsPath::new("/../x"), &base, &home()).unwrap(), FsPath::new("/x"));

    let fs = MemoryFs::new();
    assert_eq!(fs.normalize(&FsPath::new("../x"), &base).unwrap(), FsPath::new("/a/x"));
}

#[test]
fn normalize_refuses_the_path_that_is_only_a_dot() {
    let base = FsPath::new("/a/b");
    assert_eq!(FsPath::new("."), FsPath::new(""));
    match normalize(&FsPath::new("."), &base, &home()) {
        Err(e) => assert_eq!(e.message(), "Path error: Cannot normalize an empty path"),
        Ok(_) => panic!("the empty path has no place"),
    }
    assert_eq!(normalize(&FsPath::new("./x"), &base, &home()).unwrap(), FsPath::new("/a/b/x"));
}

#[test]
fn asking_by_entry_does_not_follow_links() {
    let mut fs = MemoryFs::new();
    fs.add_dir(&FsPath::new("/d"));
    fs.add_symlink(&FsPath::new("/to_dir"), &FsPath::new("/d"));
    fs.add_symlink(&FsPath::new("/to_nothing"), &FsPath::new("/missing"));
    fs.add_dir(&FsPath::new("/r"));
    fs.add_symlink(&FsPath::new("/r/.git"), &FsPath::new("/missing"));

    assert!(holds_entry(&fs, &FsPath::new("/to_nothing")));
    assert!(holds_entry(&fs, &FsPath::new("/d")));
    assert!(!holds_entry(&fs, &FsPath::new("/missing")));
    assert!(holds_dir(&fs, &FsPath::new("/d")));
    assert!(!holds_dir(&fs, &FsPath::new("/to_dir")));
    assert!(!holds_dir(&fs, &FsPath::new("/missing")));
    assert!(holds_repository(&fs, &FsPath::new("/r")));
    assert!(!holds_repository(&fs, &FsPath::new("/d")));

    assert!(fs.path_exists(&FsPath::new("/to_nothing")));
    assert!(!fs.is_dir(&FsPath::new("/to_dir")));
}
