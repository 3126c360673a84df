use grm::path::FsPath;
use grm::repo_info::RepoInfo;
use grm::terminal;
use grm::utils::git_url::parse_git_url;
use grm::utils::path::{
    build_repo_path, build_shared_path, home_dir, home_from, normalize_path, normalize_path_from,
    require_home_dir,
};
use grm::utils::prompt;

#[test]
fn terminal_interaction_test_confirm_yes() {
    let (shown, result) = terminal::confirm_stream("y\n", "Continue?");
    assert!(result);
    assert_eq!(shown, "Continue? [y/N]: ");
}

#[test]
fn terminal_interaction_test_confirm_yes_full() {
    let (_, result) = terminal::confirm_stream("Yes\n", "Continue?");
    assert!(result);
}

#[test]
fn terminal_interaction_test_confirm_no() {
    let (_, result) = terminal::confirm_stream("n\n", "Continue?");
    assert!(!result);
}

#[test]
fn terminal_interaction_test_confirm_empty() {
    let (_, result) = terminal::confirm_stream("\n", "Continue?");
    assert!(!result);
}

#[test]
fn terminal_interaction_test_confirm_weird_input() {
    let (_, result) = terminal::confirm_stream("what\n", "Continue?");
    assert!(!result);
}

#[test]
fn terminal_takes_any_word_with_y_for_yes() {
    assert!(terminal::confirm_stream("  yeah", "?").1);
    assert!(terminal::confirm_stream("Y", "?").1);
    assert!(!terminal::confirm_stream("ok y", "?").1);
}

#[test]
fn prompt_test_confirm_yes() {
    let (shown, result) = prompt::confirm_stream("y\n", "Continue?");
    assert!(result);
    assert_eq!(shown, "Continue? [y/N]: ");
}

#[test]
fn prompt_test_confirm_yes_full() {
    let (_, result) = prompt::confirm_stream("Yes\n", "Continue?");
    assert!(result);
}

#[test]
fn prompt_test_confirm_no() {
    let (_, result) = prompt::confirm_stream("n\n", "Continue?");
    assert!(!result);
}

#[test]
fn prompt_test_confirm_empty() {
    let (_, result) = prompt::confirm_stream("\n", "Continue?");
    assert!(!result);
}

#[test]
fn prompt_test_confirm_weird_input() {
    let (_, result) = prompt::confirm_stream("what\n", "Continue?");
    assert!(!result);
}

#[test]
fn prompt_takes_only_y_and_yes() {
    assert!(prompt::confirm_stream(" YES ", "?").1);
    assert!(prompt::confirm_stream("Y", "?").1);
    assert!(!prompt::confirm_stream("yeah", "?").1);
    assert!(!prompt::confirm_stream("ye", "?").1);
}

#[test]
fn discover_test_parse_git_url_https() {
    let info = parse_git_url("https://github.com/user/repo.git").unwrap();
    assert_eq!(info.host, "github.com");
    assert_eq!(info.user, "user");
    assert_eq!(info.repo, "repo");

    let info = parse_git_url("https://github.com/user/repo").unwrap();
    assert_eq!(info.host, "github.com");
    assert_eq!(info.user, "user");
    assert_eq!(info.repo, "repo");
}

#[test]
fn discover_test_parse_git_url_ssh() {
    let info = parse_git_url("git@github.com:user/repo.git").unwrap();
    assert_eq!(info.host, "github.com");
    assert_eq!(info.user, "user");
    assert_eq!(info.repo, "repo");

    let info = parse_git_url("git@gitlab.com:user/repo").unwrap();
    assert_eq!(info.host, "gitlab.com");
    assert_eq!(info.user, "user");
    assert_eq!(info.repo, "repo");
}

#[test]
fn discover_test_parse_git_url_ssh_protocol() {
    let info = parse_git_url("ssh://git@github.com/user/repo.git").unwrap();
    assert_eq!(info.host, "github.com");
    assert_eq!(info.user, "user");
    assert_eq!(info.repo, "repo");
}

#[test]
fn discover_test_parse_git_url_invalid() {
    assert!(parse_git_url("invalid").is_err());
    assert!(parse_git_url("https://github.com/user").is_err());
    assert!(parse_git_url("git@github.com/user/repo.git").is_err());
}

#[test]
fn git_url_test_parse_git_url_https() {
    let info = parse_git_url("https://github.com/user/repo.git").unwrap();
    assert_eq!(info.host, "github.com");
    assert_eq!(info.user, "user");
    assert_eq!(info.repo, "repo");

    let info = parse_git_url("https://github.com/user/repo").unwrap();
    assert_eq!(info.host, "github.com");
    assert_eq!(info.user, "user");
    assert_eq!(info.repo, "repo");
}

#[test]
fn git_url_test_parse_git_url_ssh() {
    let info = parse_git_url("git@github.com:user/repo.git").unwrap();
    assert_eq!(info.host, "github.com");
    assert_eq!(info.user, "user");
    assert_eq!(info.repo, "repo");

    let info = parse_git_url("git@gitlab.com:user/repo").unwrap();
    assert_eq!(info.host, "gitlab.com");
    assert_eq!(info.user, "user");
    assert_eq!(info.repo, "repo");
}

#[test]
fn git_url_test_parse_git_url_ssh_protocol() {
    let info = parse_git_url("ssh://git@github.com/user/repo.git").unwrap();
    assert_eq!(info.host, "github.com");
    assert_eq!(info.user, "user");
    assert_eq!(info.repo, "repo");
}

#[test]
fn git_url_test_parse_git_url_invalid() {
    assert!(parse_git_url("invalid").is_err());
    assert!(parse_git_url("https://github.com/user").is_err());
    assert!(parse_git_url("git@github.com/user/repo.git").is_err());
}

#[test]
fn test_normalize_path_absolute() {
    // Use a definitely absolute path
    let abs_path = "/tmp";

    let path = normalize_path(abs_path).expect("Should parse absolute path");
    assert!(path.is_absolute());
    assert_eq!(path, FsPath::new("/tmp"));
}

#[test]
fn test_normalize_path_empty() {
    assert!(normalize_path("").is_err());
    assert!(normalize_path("   ").is_err());
}

#[test]
fn normalize_path_uses_the_home_directory() {
    match home_dir() {
        Some(home) => {
            assert!(home.is_absolute());
            assert_eq!(require_home_dir().unwrap(), home);
            assert_eq!(normalize_path("~").unwrap(), home);
            assert_eq!(normalize_path("~/grm").unwrap(), home.join_str("grm"));
            assert_eq!(normalize_path("a/b").unwrap(), home.join_str("a/b"));
        }
        None => {
            assert_eq!(
                require_home_dir().unwrap_err().message(),
                "Path error: Home directory not found"
            );
            assert!(normalize_path("~").is_err());
            assert!(normalize_path("a/b").is_err());
        }
    }
    assert!(normalize_path("~user/x").is_err());
    assert_eq!(normalize_path("  /x/./y/  ").unwrap(), FsPath::new("/x/y"));
}

#[test]
fn home_from_reads_an_absolute_path_only() {
    assert_eq!(home_from(Some("/home/alice".to_string())), Some(FsPath::new("/home/alice")));
    assert_eq!(home_from(Some("/home/./alice/".to_string())), Some(FsPath::new("/home/alice")));
    assert_eq!(home_from(Some("/".to_string())), Some(FsPath::new("/")));
    assert_eq!(home_from(Some("home/alice".to_string())), None);
    assert_eq!(home_from(Some("".to_string())), None);
    assert_eq!(home_from(None), None);
}

#[test]
fn normalize_path_from_refuses_with_the_reason() {
    let home = FsPath::new("/home/testuser");
    assert_eq!(
        normalize_path_from(" ", Some(&home)).unwrap_err().message(),
        "Path error: Empty path"
    );
    assert_eq!(
        normalize_path_from("~user/x", Some(&home)).unwrap_err().message(),
        "Path error: Path '~user/x' is not supported. Use absolute path or ~/path format. User-specific paths (~user/) are not yet supported."
    );
    assert_eq!(
        normalize_path_from("x", None).unwrap_err().message(),
        "Path error: Home directory not found"
    );
}

#[test]
fn normalize_path_starts_at_home() {
    let home = FsPath::new("/home/testuser");
    assert_eq!(normalize_path_from("~/grm", Some(&home)).unwrap(), FsPath::new("/home/testuser/grm"));
    assert_eq!(normalize_path_from("~", Some(&home)).unwrap(), home);
    assert_eq!(normalize_path_from("~/", Some(&home)).unwrap(), home);
    assert_eq!(
        normalize_path_from("relative/path", Some(&home)).unwrap(),
        FsPath::new("/home/testuser/relative/path")
    );
    assert_eq!(
        normalize_path_from("  ~/grm  ", Some(&home)).unwrap(),
        FsPath::new("/home/testuser/grm")
    );
    assert!(normalize_path_from("~user/x", Some(&home)).is_err());
    assert!(normalize_path_from("~/x", None).is_err());
    assert!(normalize_path_from("/x", None).is_ok());
}

#[test]
fn path_test_build_shared_path() {
    let root = FsPath::new("/home/user/grm");
    let info = RepoInfo::new(
        "github.com".to_string(),
        "test".to_string(),
        "repo".to_string(),
        None,
    );
    let path = build_shared_path(&root, &info, &FsPath::new(".env"));
    assert_eq!(
        path,
        FsPath::new("/home/user/grm/.shared/github.com/test/repo/.env")
    );
    assert_eq!(
        build_repo_path(&root, &info, "main"),
        FsPath::new("/home/user/grm/github.com/test/repo+main")
    );
}
