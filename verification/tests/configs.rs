use grm::configs::{Config, ConfigError};
use grm::errors::GrmError;
use grm::path::FsPath;
use grm::ports::file_system::FileSystemError;
use grm::ports::user_interaction::{InteractionError, UserInteraction};
use grm::repo_info::RepositoryError;
use grm::repo_scanner::ScanError;
use grm::scripted_user::ScriptedUser;

#[test]
fn the_first_source_that_has_a_root_ends_the_search() {
    assert!(Config::decide(Ok(None)).is_none());
    match Config::decide(Ok(Some(FsPath::new("/grm")))) {
        Some(Ok(config)) => assert_eq!(config.root(), &FsPath::new("/grm")),
        other => panic!("unexpected: {:?}", other),
    }
    match Config::decide(Err(ConfigError::Parse("bad".to_string()))) {
        Some(Err(ConfigError::Parse(m))) => assert_eq!(m, "bad"),
        other => panic!("unexpected: {:?}", other),
    }
}

#[test]
fn the_default_root_lies_in_the_home_directory() {
    assert_eq!(
        Config::default_root(&FsPath::new("/home/testuser")),
        FsPath::new("/home/testuser/grm")
    );
}

#[test]
fn the_text_of_a_source_starts_at_home() {
    let home: Result<FsPath, FileSystemError> = Ok(FsPath::new("/home/testuser"));
    assert_eq!(Config::root_from_text("~/repos", &home).unwrap(), FsPath::new("/home/testuser/repos"));
    assert_eq!(Config::root_from_text("/srv/grm", &home).unwrap(), FsPath::new("/srv/grm"));
    assert_eq!(Config::root_from_text("repos", &home).unwrap(), FsPath::new("/home/testuser/repos"));
    assert!(matches!(
        Config::root_from_text("", &home),
        Err(ConfigError::FileSystem(FileSystemError::PathError(_)))
    ));
    let none: Result<FsPath, FileSystemError> =
        Err(FileSystemError::PathError("Home directory not found".to_string()));
    match Config::root_from_text("/srv/grm", &none) {
        Err(e) => assert_eq!(e.message(), "File system error: Path error: Home directory not found"),
        other => panic!("unexpected: {:?}", other),
    }
}

#[test]
fn errors_read_as_lines_of_text() {
    assert_eq!(GrmError::UserCancelled.message(), "Operation cancelled by user");
    assert_eq!(GrmError::NotInManagedRepository.message(), "Not in a managed git repository");
    assert_eq!(GrmError::NotFound("x".to_string()).message(), "Resource not found: x");
    assert_eq!(GrmError::AlreadyExists("/p".to_string()).message(), "Path already exists: /p");
    assert_eq!(GrmError::Io("x".to_string()).message(), "IO error: x");
    assert_eq!(
        GrmError::UnmanagedRepository { url: "U".to_string(), searched_path: "/p".to_string() }
            .message(),
        "No repositories found for URL: U\nSearched in: /p"
    );
    assert_eq!(
        GrmError::ParseFailed(RepositoryError::Invalid("bad".to_string())).message(),
        "URL / Path error: Invalid: bad"
    );
    assert_eq!(
        GrmError::Scan(ScanError::Io("e".to_string())).message(),
        "Scan error: IO error during scanning: e"
    );
    assert_eq!(
        GrmError::FileSystem(FileSystemError::Io("e".to_string())).message(),
        "File system error: IO error: e"
    );
    assert_eq!(
        GrmError::Interaction(InteractionError::Io("e".to_string())).message(),
        "Interaction error: IO error: e"
    );
    assert_eq!(
        GrmError::Config(ConfigError::Env("e".to_string())).message(),
        "Config error: Environment variable error: e"
    );
    assert_eq!(ConfigError::Io("e".to_string()).message(), "Failed to read config: e");
    assert_eq!(ConfigError::GitConfig("e".to_string()).message(), "Git config error: e");
    assert_eq!(ConfigError::Parse("e".to_string()).message(), "Failed to parse config: e");
}

#[test]
fn url_errors_say_what_was_expected() {
    match grm::repo_info::RepoInfo::from_url("  https://github.com/user  ") {
        Err(RepositoryError::Invalid(m)) => assert_eq!(
            m,
            "Expected format: https://host/user/repo, got: https://github.com/user"
        ),
        other => panic!("unexpected: {:?}", other),
    }
    match grm::repo_info::RepoInfo::from_url("git@github.com") {
        Err(RepositoryError::Invalid(m)) => {
            assert_eq!(m, "Expected format: git@host:user/repo, got: git@github.com")
        }
        other => panic!("unexpected: {:?}", other),
    }
    match grm::repo_info::RepoInfo::from_url("ftp://x") {
        Err(RepositoryError::Invalid(m)) => assert_eq!(
            m,
            "Unsupported URL format. Supported: https://, git@, ssh://. Got: ftp://x"
        ),
        other => panic!("unexpected: {:?}", other),
    }
    match grm::repo_info::RepoInfo::from_path(&FsPath::new("/grm"), &FsPath::new("/other/a/b/c")) {
        Err(RepositoryError::Invalid(m)) => {
            assert_eq!(m, "Path /other/a/b/c is not under root /grm")
        }
        other => panic!("unexpected: {:?}", other),
    }
    match grm::repo_info::RepoInfo::from_path(&FsPath::new("/grm"), &FsPath::new("/grm/a/b")) {
        Err(RepositoryError::Invalid(m)) => {
            assert_eq!(m, "Path a/b does not have managed repository structure")
        }
        other => panic!("unexpected: {:?}", other),
    }
}

#[test]
fn paths_round_trip_through_their_encoding() {
    let root = FsPath::new("/grm");
    for (host, user, repo, branch) in [
        ("github.com", "acme", "widgets", "main"),
        ("h", "u", "r.git", "feature/deep/er"),
        ("..", "u", ".", "/lead"),
        ("h", "u", "r", "a+b"),
    ] {
        let info = grm::repo_info::RepoInfo::new(
            host.to_string(),
            user.to_string(),
            repo.to_string(),
            None,
        );
        let back =
            grm::repo_info::RepoInfo::from_path(&root, &info.build_repo_path(&root, branch)).unwrap();
        assert_eq!(back.host, host);
        assert_eq!(back.user, user);
        assert_eq!(back.repo, repo);
        assert_eq!(back.branch, Some(branch.to_string()));
    }
    let info = grm::repo_info::RepoInfo::new("h".into(), "u".into(), "r".into(), None);
    let back = grm::repo_info::RepoInfo::from_path(&root, &info.build_repo_path(&root, "")).unwrap();
    assert_eq!(back.branch, None);
}

#[test]
fn scripted_user_answers_in_turn_and_keeps_what_it_was_shown() {
    let mut ui = ScriptedUser::new();
    assert_eq!(ui.confirm("?").unwrap(), false);
    ui.set_confirm(false);
    ui.set_confirm(true);
    assert_eq!(ui.confirm("?").unwrap(), true);
    assert_eq!(ui.confirm("?").unwrap(), false);
    ui.print("hello world");
    ui.print_error("oops");
    assert_eq!(ui.get_printed_messages(), vec!["hello world"]);
    assert_eq!(ui.get_error_messages(), vec!["oops"]);
    assert!(ui.has_printed("lo wo"));
    assert!(ui.has_printed(""));
    assert!(!ui.has_printed("oops"));
}
