use grm::memory_fs::MemoryFs;
use grm::path::FsPath;
use grm::path_order::sorted_paths;
use grm::repo_info::RepoInfo;
use grm::repo_scanner::RepoScanner;

#[test]
fn test_scan_repositories_flat_structure() {
    let mut fs = MemoryFs::new();
    let root = FsPath::new("/grm");

    fs.add_dir(&root);
    fs.add_git_repo(&root.join_str("repo1"));
    fs.add_git_repo(&root.join_str("repo2"));
    fs.add_git_repo(&root.join_str("repo3"));

    let scanner = RepoScanner::new(&fs);
    let result = scanner.scan_repositories(&root);

    assert!(result.is_ok());
    let repos = sorted_paths(&result.unwrap());

    assert_eq!(repos.len(), 3);
    assert!(repos.contains(&root.join_str("repo1")));
    assert!(repos.contains(&root.join_str("repo2")));
    assert!(repos.contains(&root.join_str("repo3")));
}

#[test]
fn test_scan_repositories_nested_structure() {
    let mut fs = MemoryFs::new();
    let root = FsPath::new("/grm");

    fs.add_dir(&root);
    fs.add_dir(&root.join_str("github.com"));
    fs.add_dir(&root.join_str("github.com/user"));
    fs.add_git_repo(&root.join_str("github.com/user/repo1"));
    fs.add_git_repo(&root.join_str("github.com/user/repo2"));

    fs.add_dir(&root.join_str("gitlab.com"));
    fs.add_dir(&root.join_str("gitlab.com/org"));
    fs.add_git_repo(&root.join_str("gitlab.com/org/project"));

    let scanner = RepoScanner::new(&fs);
    let result = scanner.scan_repositories(&root);

    assert!(result.is_ok());
    let repos = result.unwrap();

    assert_eq!(repos.len(), 3);
    assert!(repos.contains(&root.join_str("github.com/user/repo1")));
    assert!(repos.contains(&root.join_str("github.com/user/repo2")));
    assert!(repos.contains(&root.join_str("gitlab.com/org/project")));
}

#[test]
fn test_scan_repositories_skip_symlinks() {
    let mut fs = MemoryFs::new();
    let root = FsPath::new("/grm");

    fs.add_dir(&root);
    fs.add_git_repo(&root.join_str("real_repo"));
    fs.add_symlink(&root.join_str("link_to_repo"), &root.join_str("real_repo"));

    let scanner = RepoScanner::new(&fs);
    let result = scanner.scan_repositories(&root);

    assert!(result.is_ok());
    let repos = result.unwrap();

    assert_eq!(repos.len(), 1);
    assert!(repos.contains(&root.join_str("real_repo")));
    assert!(!repos.contains(&root.join_str("link_to_repo")));
}

#[test]
fn test_scan_worktrees_filter_by_repo_info() {
    let mut fs = MemoryFs::new();
    let root = FsPath::new("/grm");

    fs.add_dir(&root);
    fs.add_dir(&root.join_str("github.com"));
    fs.add_dir(&root.join_str("github.com/user"));
    fs.add_git_repo(&root.join_str("github.com/user/repo1+main"));
    fs.add_git_repo(&root.join_str("github.com/user/repo1+feature"));
    fs.add_git_repo(&root.join_str("github.com/user/repo2+main"));

    let scanner = RepoScanner::new(&fs);

    let repo_info = RepoInfo::from_url("https://github.com/user/repo1").unwrap();
    let result = scanner.scan_worktrees(&root, &repo_info);

    assert!(result.is_ok());
    let worktrees = result.unwrap();

    assert_eq!(worktrees.len(), 2);
    assert!(worktrees.contains(&root.join_str("github.com/user/repo1+main")));
    assert!(worktrees.contains(&root.join_str("github.com/user/repo1+feature")));
    assert!(!worktrees.contains(&root.join_str("github.com/user/repo2+main")));
}

#[test]
fn test_scan_repositories_empty() {
    let mut fs = MemoryFs::new();
    let root = FsPath::new("/grm");

    fs.add_dir(&root);
    fs.add_dir(&root.join_str("empty_dir"));

    let scanner = RepoScanner::new(&fs);
    let result = scanner.scan_repositories(&root);

    assert!(result.is_ok());
    let repos = result.unwrap();

    assert_eq!(repos.len(), 0);
}

#[test]
fn scan_does_not_look_inside_a_repository() {
    let mut fs = MemoryFs::new();
    let root = FsPath::new("/grm");
    fs.add_dir(&root);
    fs.add_git_repo(&root.join_str("outer"));
    fs.add_git_repo(&root.join_str("outer/inner"));

    let repos = RepoScanner::new(&fs).scan_repositories(&root).unwrap();
    assert_eq!(repos, vec![root.join_str("outer")]);
}

#[test]
fn scan_takes_a_git_file_for_a_repository() {
    let mut fs = MemoryFs::new();
    let root = FsPath::new("/grm");
    fs.add_dir(&root);
    fs.add_dir(&root.join_str("worktree"));
    fs.add_file(&root.join_str("worktree/.git"));

    let repos = RepoScanner::new(&fs).scan_repositories(&root).unwrap();
    assert_eq!(repos, vec![root.join_str("worktree")]);
}

#[test]
fn scan_fails_where_the_root_cannot_be_read() {
    let fs = MemoryFs::new();
    let result = RepoScanner::new(&fs).scan_repositories(&FsPath::new("/missing"));
    assert!(result.is_err());
    assert_eq!(
        result.unwrap_err().message(),
        "IO error during scanning: IO error: Directory not found"
    );
}

#[test]
fn scan_worktrees_is_a_prefix_filter() {
    let mut fs = MemoryFs::new();
    let root = FsPath::new("/grm");
    fs.add_dir(&root);
    fs.add_dir(&root.join_str("h"));
    fs.add_dir(&root.join_str("h/u"));
    fs.add_git_repo(&root.join_str("h/u/repo"));
    fs.add_git_repo(&root.join_str("h/u/repo2+main"));
    fs.add_dir(&root.join_str("h/u/repo+feature"));
    fs.add_git_repo(&root.join_str("h/u/repo+feature/x"));

    let info = RepoInfo::new("h".to_string(), "u".to_string(), "repo".to_string(), None);
    let worktrees = RepoScanner::new(&fs).scan_worktrees(&root, &info).unwrap();
    assert_eq!(worktrees, vec![root.join_str("h/u/repo+feature/x")]);
}
