use grm::errors::GrmError;
use grm::memory_fs::MemoryFs;
use grm::path::FsPath;
use grm::ports::file_system::FileSystem;
use grm::path_order::sorted_paths;
use grm::repo_info::RepoInfo;
use grm::repo_scanner::RepoScanner;
use grm::shared_resource::SharedResource;

fn setup() -> (MemoryFs, RepoInfo, FsPath) {
    let mut fs = MemoryFs::new();
    let repo_info = RepoInfo::from_url("https://github.com/user/repo").unwrap();
    let root = FsPath::new("/grm");
    fs.add_dir(&root);
    (fs, repo_info, root)
}

#[test]
fn shared_resource_test_share_file_success() {
    let (mut fs, repo_info, root) = setup();

    fs.add_dir(&root.join_str("github.com"));
    fs.add_dir(&root.join_str("github.com/user"));
    fs.add_git_repo(&root.join_str("github.com/user/repo+main"));
    fs.add_git_repo(&root.join_str("github.com/user/repo+feature"));

    let repo_root = root.join_str("github.com/user/repo+main");
    fs.add_file(&repo_root.join_str("config.json"));
    fs.set_current_dir(&repo_root);

    let shared = SharedResource::new(repo_info, root.clone());
    let result = shared.share(&mut fs, &repo_root, &FsPath::new("config.json"));

    assert!(result.is_ok(), "share failed: {:?}", result.err());

    let shared_path = root.join_str(".shared/github.com/user/repo/config.json");
    assert!(fs.path_exists(&shared_path));

    assert!(fs.is_symlink(&repo_root.join_str("config.json")));
    assert!(fs.is_symlink(&root.join_str("github.com/user/repo+feature/config.json")));
}

#[test]
fn test_share_directory_success() {
    let (mut fs, repo_info, root) = setup();

    fs.add_dir(&root.join_str("github.com"));
    fs.add_dir(&root.join_str("github.com/user"));
    fs.add_git_repo(&root.join_str("github.com/user/repo+main"));

    let repo_root = root.join_str("github.com/user/repo+main");
    fs.add_dir(&repo_root.join_str("shared_dir"));
    fs.add_file(&repo_root.join_str("shared_dir/file.txt"));
    fs.set_current_dir(&repo_root);

    let shared = SharedResource::new(repo_info, root.clone());
    let result = shared.share(&mut fs, &repo_root, &FsPath::new("shared_dir"));

    assert!(result.is_ok());

    let shared_path = root.join_str(".shared/github.com/user/repo/shared_dir");
    assert!(fs.path_exists(&shared_path));
    assert!(fs.path_exists(&shared_path.join_str("file.txt")));
    assert!(fs.is_symlink(&repo_root.join_str("shared_dir")));
    assert!(!fs.path_exists(&repo_root.join_str("shared_dir/file.txt")));
}

#[test]
fn shared_resource_test_unshare_success() {
    let (mut fs, repo_info, root) = setup();

    fs.add_dir(&root.join_str("github.com"));
    fs.add_dir(&root.join_str("github.com/user"));
    fs.add_git_repo(&root.join_str("github.com/user/repo+main"));
    fs.add_git_repo(&root.join_str("github.com/user/repo+feature"));

    let repo_root = root.join_str("github.com/user/repo+main");
    let shared_file = root.join_str(".shared/github.com/user/repo/config.json");
    fs.add_dir(&root.join_str(".shared"));
    fs.add_dir(&root.join_str(".shared/github.com"));
    fs.add_dir(&root.join_str(".shared/github.com/user"));
    fs.add_dir(&root.join_str(".shared/github.com/user/repo"));
    fs.add_file(&shared_file);

    fs.add_symlink(&repo_root.join_str("config.json"), &shared_file);
    fs.add_symlink(
        &root.join_str("github.com/user/repo+feature/config.json"),
        &shared_file,
    );
    fs.set_current_dir(&repo_root);

    let shared = SharedResource::new(repo_info, root.clone());
    let result = shared.unshare(&mut fs, &repo_root, &FsPath::new("config.json"));

    assert!(result.is_ok());
    assert_eq!(result.unwrap(), 2);

    assert!(!fs.path_exists(&repo_root.join_str("config.json")));
    assert!(!fs.path_exists(&root.join_str("github.com/user/repo+feature/config.json")));
    assert!(fs.path_exists(&shared_file));
}

#[test]
fn shared_resource_test_isolate_success() {
    let (mut fs, repo_info, root) = setup();

    fs.add_dir(&root.join_str("github.com"));
    fs.add_dir(&root.join_str("github.com/user"));
    fs.add_git_repo(&root.join_str("github.com/user/repo+main"));

    let repo_root = root.join_str("github.com/user/repo+main");
    let shared_file = root.join_str(".shared/github.com/user/repo/config.json");
    fs.add_dir(&root.join_str(".shared"));
    fs.add_dir(&root.join_str(".shared/github.com"));
    fs.add_dir(&root.join_str(".shared/github.com/user"));
    fs.add_dir(&root.join_str(".shared/github.com/user/repo"));
    fs.add_file(&shared_file);
    fs.add_symlink(&repo_root.join_str("config.json"), &shared_file);
    fs.set_current_dir(&repo_root);

    let shared = SharedResource::new(repo_info, root.clone());
    let result = shared.isolate(&mut fs, &repo_root, &FsPath::new("config.json"));

    assert!(result.is_ok());

    assert!(!fs.is_symlink(&repo_root.join_str("config.json")));
    assert!(fs.path_exists(&repo_root.join_str("config.json")));
}

#[test]
fn test_conflicts_detection() {
    let (mut fs, repo_info, root) = setup();

    fs.add_dir(&root.join_str("github.com"));
    fs.add_dir(&root.join_str("github.com/user"));
    fs.add_git_repo(&root.join_str("github.com/user/repo+main"));
    fs.add_git_repo(&root.join_str("github.com/user/repo+feature"));

    let repo_root = root.join_str("github.com/user/repo+main");
    let shared_file = root.join_str(".shared/github.com/user/repo/config.json");
    fs.add_dir(&root.join_str(".shared"));
    fs.add_dir(&root.join_str(".shared/github.com"));
    fs.add_dir(&root.join_str(".shared/github.com/user"));
    fs.add_dir(&root.join_str(".shared/github.com/user/repo"));
    fs.add_file(&shared_file);
    fs.add_file(&repo_root.join_str("config.json"));
    fs.add_file(&root.join_str("github.com/user/repo+feature/config.json"));
    fs.set_current_dir(&repo_root);

    let shared = SharedResource::new(repo_info, root.clone());
    let result = shared.conflicts(&fs, &repo_root, &FsPath::new("config.json"));

    assert!(result.is_ok());
    let conflicts = result.unwrap();

    assert_eq!(conflicts.len(), 1);
    assert!(conflicts.contains(&root.join_str("github.com/user/repo+feature/config.json")));
}

#[test]
fn test_mount_success() {
    let (mut fs, repo_info, root) = setup();

    fs.add_dir(&root.join_str("github.com"));
    fs.add_dir(&root.join_str("github.com/user"));
    fs.add_git_repo(&root.join_str("github.com/user/repo+new"));

    let shared_root = root.join_str(".shared/github.com/user/repo");
    fs.add_dir(&root.join_str(".shared"));
    fs.add_dir(&root.join_str(".shared/github.com"));
    fs.add_dir(&root.join_str(".shared/github.com/user"));
    fs.add_dir(&shared_root);
    fs.add_file(&shared_root.join_str("config.json"));

    let repo_root = root.join_str("github.com/user/repo+new");

    let shared = SharedResource::new(repo_info, root.clone());
    let result = shared.mount(&mut fs, &repo_root);

    assert!(result.is_ok());

    assert!(fs.is_symlink(&repo_root.join_str("config.json")));
}

#[test]
fn shared_resource_test_share_file_not_found() {
    let (mut fs, repo_info, root) = setup();

    fs.add_dir(&root.join_str("github.com"));
    fs.add_dir(&root.join_str("github.com/user"));
    fs.add_git_repo(&root.join_str("github.com/user/repo+main"));

    let repo_root = root.join_str("github.com/user/repo+main");
    fs.set_current_dir(&repo_root);

    let shared = SharedResource::new(repo_info, root.clone());
    let result = shared.share(&mut fs, &repo_root, &FsPath::new("nonexistent.txt"));

    assert!(result.is_err());
    assert!(matches!(result.unwrap_err(), GrmError::NotFound(_)));
}

fn widgets() -> (MemoryFs, SharedResource, FsPath, FsPath, FsPath) {
    let mut fs = MemoryFs::new();
    let root = FsPath::new("/grm");
    let main = root.join_str("github.com/acme/widgets+main");
    let feature = root.join_str("github.com/acme/widgets+feature");
    fs.add_dir(&root);
    fs.add_dir(&root.join_str("github.com"));
    fs.add_dir(&root.join_str("github.com/acme"));
    fs.add_git_repo(&main);
    fs.add_git_repo(&feature);
    fs.write_file(&main.join_str("secrets.env"), b"KEY=1".to_vec());
    fs.set_current_dir(&main);
    let info = RepoInfo::from_url("https://github.com/acme/widgets").unwrap();
    (fs, SharedResource::new(info, root.clone()), root, main, feature)
}

#[test]
fn share_then_unshare_end_to_end() {
    let (mut fs, shared, root, main, feature) = widgets();
    let file = FsPath::new("secrets.env");

    shared.share(&mut fs, &main, &file).unwrap();
    let stored = root.join_str(".shared/github.com/acme/widgets/secrets.env");
    assert!(fs.path_exists(&stored));
    assert!(!fs.is_symlink(&stored));
    assert_eq!(fs.read_file(&stored), Some(b"KEY=1".to_vec()));
    assert!(fs.is_symlink(&main.join_str("secrets.env")));
    assert!(fs.is_symlink(&feature.join_str("secrets.env")));

    fs.set_current_dir(&feature);
    let removed = shared.unshare(&mut fs, &feature, &file).unwrap();
    assert_eq!(removed, 2);
    assert!(!fs.path_exists(&main.join_str("secrets.env")));
    assert!(!fs.path_exists(&feature.join_str("secrets.env")));
    assert_eq!(fs.read_file(&stored), Some(b"KEY=1".to_vec()));

    let info = RepoInfo::new("github.com".into(), "acme".into(), "widgets".into(), None);
    let worktrees = RepoScanner::new(&fs).scan_worktrees(&root, &info).unwrap();
    assert_eq!(sorted_paths(&worktrees), vec![feature, main]);
}

#[test]
fn share_twice_changes_nothing_the_second_time() {
    let (mut fs, shared, root, main, feature) = widgets();
    let file = FsPath::new("secrets.env");
    shared.share(&mut fs, &main, &file).unwrap();
    // what the second call would overwrite if it did anything
    fs.add_file(&feature.join_str("secrets.env"));
    shared.share(&mut fs, &main, &file).unwrap();
    assert!(!fs.is_symlink(&feature.join_str("secrets.env")));
    assert!(fs.is_symlink(&main.join_str("secrets.env")));
    assert!(fs.path_exists(&root.join_str(".shared/github.com/acme/widgets/secrets.env")));
}

#[test]
fn conflicts_never_list_the_callers_own_file() {
    let (mut fs, shared, _root, main, feature) = widgets();
    let file = FsPath::new("secrets.env");
    assert_eq!(shared.conflicts(&fs, &main, &file).unwrap().len(), 0);
    shared.share(&mut fs, &main, &file).unwrap();
    let conflicts = shared.conflicts(&fs, &main, &file).unwrap();
    assert_eq!(conflicts, vec![feature.join_str("secrets.env")]);
    assert!(!conflicts.contains(&main.join_str("secrets.env")));
}

#[test]
fn share_then_isolate_gives_the_content_back() {
    let (mut fs, shared, root, main, feature) = widgets();
    let file = FsPath::new("secrets.env");
    shared.share(&mut fs, &main, &file).unwrap();
    shared.isolate(&mut fs, &main, &file).unwrap();
    assert!(!fs.is_symlink(&main.join_str("secrets.env")));
    assert_eq!(fs.read_file(&main.join_str("secrets.env")), Some(b"KEY=1".to_vec()));
    assert!(fs.is_symlink(&feature.join_str("secrets.env")));
    assert!(fs.path_exists(&root.join_str(".shared/github.com/acme/widgets/secrets.env")));
}

#[test]
fn isolate_of_a_plain_file_does_nothing() {
    let (mut fs, shared, _root, main, _feature) = widgets();
    let file = FsPath::new("secrets.env");
    assert!(shared.isolate(&mut fs, &main, &file).is_ok());
    assert_eq!(fs.read_file(&main.join_str("secrets.env")), Some(b"KEY=1".to_vec()));
}

#[test]
fn isolate_of_an_orphaned_link_is_not_found() {
    let (mut fs, shared, root, main, _feature) = widgets();
    let stored = root.join_str(".shared/github.com/acme/widgets/gone.txt");
    fs.add_symlink(&main.join_str("gone.txt"), &stored);
    let result = shared.isolate(&mut fs, &main, &FsPath::new("gone.txt"));
    match result {
        Err(GrmError::NotFound(m)) => assert_eq!(
            m,
            "Shared storage not found at /grm/.shared/github.com/acme/widgets/gone.txt"
        ),
        other => panic!("unexpected: {:?}", other),
    }
}

#[test]
fn a_file_outside_the_worktree_is_not_found() {
    let (mut fs, shared, _root, main, _feature) = widgets();
    fs.add_file(&FsPath::new("/tmp/x"));
    let result = shared.share(&mut fs, &main, &FsPath::new("/tmp/x"));
    match result {
        Err(GrmError::NotFound(m)) => assert_eq!(m, "prefix not found"),
        other => panic!("unexpected: {:?}", other),
    }
}

#[test]
fn unshare_of_nothing_counts_zero() {
    let (mut fs, shared, _root, main, _feature) = widgets();
    assert_eq!(shared.unshare(&mut fs, &main, &FsPath::new("secrets.env")).unwrap(), 0);
    assert!(fs.path_exists(&main.join_str("secrets.env")));
}

#[test]
fn mount_mirrors_directories_and_links_files() {
    let (mut fs, shared, root, _main, _feature) = widgets();
    let store = root.join_str(".shared/github.com/acme/widgets");
    fs.add_dir(&root.join_str(".shared"));
    fs.add_dir(&root.join_str(".shared/github.com"));
    fs.add_dir(&root.join_str(".shared/github.com/acme"));
    fs.add_dir(&store);
    fs.add_dir(&store.join_str("conf"));
    fs.add_file(&store.join_str("conf/a.toml"));
    fs.add_file(&store.join_str("top.env"));
    let fresh = root.join_str("github.com/acme/widgets+fresh");
    fs.add_git_repo(&fresh);
    fs.add_file(&fresh.join_str("top.env"));

    shared.mount(&mut fs, &fresh).unwrap();
    assert!(fs.is_dir(&fresh.join_str("conf")));
    assert!(fs.is_symlink(&fresh.join_str("conf/a.toml")));
    assert!(fs.is_symlink(&fresh.join_str("top.env")));
}

#[test]
fn mount_without_shared_storage_is_not_found() {
    let (mut fs, shared, _root, main, _feature) = widgets();
    match shared.mount(&mut fs, &main) {
        Err(GrmError::NotFound(m)) => {
            assert_eq!(m, "Shared storage not found at /grm/.shared/github.com/acme/widgets")
        }
        other => panic!("unexpected: {:?}", other),
    }
}

#[test]
fn an_empty_path_cannot_be_made_absolute() {
    let (mut fs, shared, _root, main, _feature) = widgets();
    match shared.share(&mut fs, &main, &FsPath::new("")) {
        Err(GrmError::FileSystem(e)) => {
            assert_eq!(e.message(), "Path error: Cannot normalize an empty path")
        }
        other => panic!("unexpected: {:?}", other),
    }
    assert!(matches!(
        shared.conflicts(&fs, &main, &FsPath::new("")),
        Err(GrmError::FileSystem(_))
    ));
    assert!(matches!(
        shared.unshare(&mut fs, &main, &FsPath::new("")),
        Err(GrmError::FileSystem(_))
    ));
    assert!(matches!(
        shared.isolate(&mut fs, &main, &FsPath::new("")),
        Err(GrmError::FileSystem(_))
    ));
}

#[test]
fn the_scan_fails_where_the_root_is_no_directory() {
    let mut fs = MemoryFs::new();
    let root = FsPath::new("/grm");
    fs.add_file(&root);
    let worktree = FsPath::new("/elsewhere/w");
    fs.add_file(&worktree.join_str("f"));
    fs.set_current_dir(&worktree);
    let info = RepoInfo::from_url("https://github.com/acme/widgets").unwrap();
    let shared = SharedResource::new(info, root.clone());

    match shared.unshare(&mut fs, &worktree, &FsPath::new("f")) {
        Err(GrmError::Scan(e)) => {
            assert_eq!(e.message(), "IO error during scanning: IO error: Not a directory")
        }
        other => panic!("unexpected: {:?}", other),
    }
    // sharing gets as far as moving the file, and then fails to find the worktrees
    assert!(matches!(
        shared.share(&mut fs, &worktree, &FsPath::new("f")),
        Err(GrmError::Scan(_))
    ));
    assert!(!fs.path_exists(&worktree.join_str("f")));
    assert!(fs.path_exists(&root.join_str(".shared/github.com/acme/widgets/f")));
}

#[test]
fn mount_fails_where_shared_storage_is_no_directory() {
    let (mut fs, shared, root, main, _feature) = widgets();
    fs.add_file(&root.join_str(".shared/github.com/acme/widgets"));
    assert!(matches!(shared.mount(&mut fs, &main), Err(GrmError::FileSystem(_))));
}

#[test]
fn share_links_at_the_path_below_the_worktree() {
    let (mut fs, shared, root, main, feature) = widgets();
    fs.add_dir(&main.join_str("conf"));
    fs.add_file(&main.join_str("conf/local.toml"));
    fs.set_current_dir(&main.join_str("conf"));
    shared.share(&mut fs, &main, &FsPath::new("local.toml")).unwrap();
    assert!(fs.path_exists(&root.join_str(".shared/github.com/acme/widgets/conf/local.toml")));
    assert!(fs.is_symlink(&main.join_str("conf/local.toml")));
    assert!(fs.is_symlink(&feature.join_str("conf/local.toml")));
    assert!(!fs.path_exists(&feature.join_str("local.toml")));
}

#[test]
fn share_overwrites_what_shared_storage_held() {
    let (mut fs, shared, root, main, _feature) = widgets();
    let stored = root.join_str(".shared/github.com/acme/widgets/secrets.env");
    fs.write_file(&stored, b"OLD".to_vec());
    shared.share(&mut fs, &main, &FsPath::new("secrets.env")).unwrap();
    assert_eq!(fs.read_file(&stored), Some(b"KEY=1".to_vec()));
}

#[test]
fn sharing_works_where_the_host_is_named_like_shared_storage() {
    let mut fs = MemoryFs::new();
    let root = FsPath::new("/grm");
    let main = root.join_str(".shared/acme/widgets+main");
    let feature = root.join_str(".shared/acme/widgets+feature");
    fs.add_dir(&root);
    fs.add_dir(&root.join_str(".shared"));
    fs.add_dir(&root.join_str(".shared/acme"));
    fs.add_git_repo(&main);
    fs.add_git_repo(&feature);
    fs.write_file(&main.join_str("secrets.env"), b"KEY=1".to_vec());
    fs.set_current_dir(&main);
    let info = RepoInfo::new(".shared".into(), "acme".into(), "widgets".into(), None);
    let shared = SharedResource::new(info, root.clone());
    let file = FsPath::new("secrets.env");
    let stored = root.join_str(".shared/.shared/acme/widgets/secrets.env");

    shared.share(&mut fs, &main, &file).unwrap();
    assert_eq!(fs.read_file(&stored), Some(b"KEY=1".to_vec()));
    assert!(fs.is_symlink(&main.join_str("secrets.env")));
    assert!(fs.is_symlink(&feature.join_str("secrets.env")));

    // a second time nothing changes
    shared.share(&mut fs, &main, &file).unwrap();
    assert_eq!(fs.read_file(&stored), Some(b"KEY=1".to_vec()));

    let conflicts = shared.conflicts(&fs, &main, &file).unwrap();
    assert!(conflicts.iter().all(|c| !c.starts_with(&main)));

    shared.isolate(&mut fs, &main, &file).unwrap();
    assert!(!fs.is_symlink(&main.join_str("secrets.env")));
    assert_eq!(fs.read_file(&main.join_str("secrets.env")), Some(b"KEY=1".to_vec()));

    shared.share(&mut fs, &main, &file).unwrap();
    fs.set_current_dir(&feature);
    assert_eq!(shared.unshare(&mut fs, &feature, &file).unwrap(), 2);
}

#[test]
fn conflicts_after_sharing_spare_the_callers_worktree() {
    let (mut fs, shared, _root, main, feature) = widgets();
    fs.write_file(&main.join_str("other.env"), b"X".to_vec());
    let file = FsPath::new("secrets.env");
    shared.share(&mut fs, &main, &file).unwrap();
    let conflicts = shared.conflicts(&fs, &main, &file).unwrap();
    assert!(conflicts.iter().all(|c| !c.starts_with(&main)));
    assert!(conflicts.iter().all(|c| c.starts_with(&feature)));
}
