use grm::path::FsPath;
use grm::repo_info::{is_valid_repo_pattern, RepoInfo};

#[test]
fn test_from_url_https() {
    let info = RepoInfo::from_url("https://github.com/user/repo.git").unwrap();
    assert_eq!(info.host, "github.com");
    assert_eq!(info.user, "user");
    assert_eq!(info.repo, "repo");

    let info = RepoInfo::from_url("https://github.com/user/repo").unwrap();
    assert_eq!(info.host, "github.com");
    assert_eq!(info.user, "user");
    assert_eq!(info.repo, "repo");
}

#[test]
fn test_from_url_ssh() {
    let info = RepoInfo::from_url("git@github.com:user/repo.git").unwrap();
    assert_eq!(info.host, "github.com");
    assert_eq!(info.user, "user");
    assert_eq!(info.repo, "repo");

    let info = RepoInfo::from_url("git@gitlab.com:user/repo").unwrap();
    assert_eq!(info.host, "gitlab.com");
    assert_eq!(info.user, "user");
    assert_eq!(info.repo, "repo");
}

#[test]
fn test_from_url_ssh_protocol() {
    let info = RepoInfo::from_url("ssh://git@github.com/user/repo.git").unwrap();
    assert_eq!(info.host, "github.com");
    assert_eq!(info.user, "user");
    assert_eq!(info.repo, "repo");
}

#[test]
fn test_from_url_invalid() {
    assert!(RepoInfo::from_url("invalid").is_err());
    assert!(RepoInfo::from_url("https://github.com/user").is_err());
    assert!(RepoInfo::from_url("git@github.com/user/repo.git").is_err());
}

#[test]
fn test_from_path_with_branch() {
    let root = FsPath::new("/home/user/grm");
    let path = FsPath::new("/home/user/grm/github.com/test/repo+main");
    let info = RepoInfo::from_path(&root, &path).unwrap();
    assert_eq!(info.host, "github.com");
    assert_eq!(info.user, "test");
    assert_eq!(info.repo, "repo");
    assert_eq!(info.branch, Some("main".to_string()));
}

#[test]
fn test_from_path_with_hierarchical_branch() {
    let root = FsPath::new("/home/user/grm");
    let path = FsPath::new("/home/user/grm/github.com/test/repo+feature/foobar");
    let info = RepoInfo::from_path(&root, &path).unwrap();
    assert_eq!(info.host, "github.com");
    assert_eq!(info.user, "test");
    assert_eq!(info.repo, "repo");
    assert_eq!(info.branch, Some("feature/foobar".to_string()));
}

#[test]
fn test_from_path_without_branch() {
    let root = FsPath::new("/home/user/grm");
    let path = FsPath::new("/home/user/grm/github.com/test/repo");
    let info = RepoInfo::from_path(&root, &path).unwrap();
    assert_eq!(info.host, "github.com");
    assert_eq!(info.user, "test");
    assert_eq!(info.repo, "repo");
    assert_eq!(info.branch, None);
}

#[test]
fn test_build_repo_path() {
    let info = RepoInfo::new(
        "github.com".to_string(),
        "test".to_string(),
        "repo".to_string(),
        None,
    );
    let root = FsPath::new("/home/user/grm");
    let path = info.build_repo_path(&root, "main");
    assert_eq!(path, FsPath::new("/home/user/grm/github.com/test/repo+main"));
}

#[test]
fn repo_info_test_build_shared_path() {
    let info = RepoInfo::new(
        "github.com".to_string(),
        "test".to_string(),
        "repo".to_string(),
        None,
    );
    let root = FsPath::new("/home/user/grm");
    let path = info.build_shared_path(&root, &FsPath::new(".env"));
    assert_eq!(
        path,
        FsPath::new("/home/user/grm/.shared/github.com/test/repo/.env")
    );
}

#[test]
fn from_url_refuses_an_empty_host_user_or_name() {
    for url in [
        "https://h/u/",
        "https://h/u/.git",
        "https://h//r",
        "https:///u/r",
        "ssh://git@/u/r",
        "ssh://git@h/u/",
        "git@:u/r",
        "git@h:/r",
        "git@h:u/",
        "git@h:u/.git",
    ] {
        match RepoInfo::from_url(url) {
            Err(e) => assert!(e.message().starts_with("Invalid: Expected format: "), "{}", url),
            Ok(_) => panic!("{} names no repository", url),
        }
    }
    assert_eq!(
        RepoInfo::from_url("https://h/u/").unwrap_err().message(),
        "Invalid: Expected format: https://host/user/repo, got: https://h/u/"
    );
}

#[test]
fn from_url_refuses_a_separator_in_the_host() {
    assert_eq!(
        RepoInfo::from_url("git@a/b:u/r").unwrap_err().message(),
        "Invalid: Expected format: git@host:user/repo, got: git@a/b:u/r"
    );
    let info = RepoInfo::from_url("git@a.b:u/r").unwrap();
    assert_eq!(info.host, "a.b");
    assert_eq!(info.user, "u");
    assert_eq!(info.repo, "r");
    assert_eq!(info.branch, None);
}

#[test]
fn from_path_refuses_a_name_that_begins_with_the_plus() {
    let root = FsPath::new("/grm");
    assert_eq!(
        RepoInfo::from_path(&root, &FsPath::new("/grm/h/u/+main")).unwrap_err().message(),
        "Invalid: Path h/u/+main does not have managed repository structure"
    );
    assert_eq!(
        RepoInfo::from_path(&root, &FsPath::new("/grm/h/u/+")).unwrap_err().message(),
        "Invalid: Path h/u/+ does not have managed repository structure"
    );
    let info = RepoInfo::from_path(&root, &FsPath::new("/grm/h/u/r+")).unwrap();
    assert_eq!(info.repo, "r");
    assert_eq!(info.branch, None);
}

#[test]
fn is_valid_repo_pattern_wants_one_plus_with_text_on_both_sides() {
    assert!(is_valid_repo_pattern("repo+main"));
    assert!(is_valid_repo_pattern("my-repo+feature/awesome"));
    assert!(is_valid_repo_pattern("a+b"));
    assert!(!is_valid_repo_pattern("+branch"));
    assert!(!is_valid_repo_pattern("repo+"));
    assert!(!is_valid_repo_pattern("repo+branch+extra"));
    assert!(!is_valid_repo_pattern("repo"));
    assert!(!is_valid_repo_pattern("+"));
    assert!(!is_valid_repo_pattern(""));
}
