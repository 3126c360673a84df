use grm::configs::Config;
use grm::errors::GrmError;
use grm::memory_fs::MemoryFs;
use grm::path::FsPath;
use grm::ports::file_system::FileSystem;
use grm::ports::git_repository::GitError;
use grm::scripted_git::ScriptedGit;
use grm::scripted_user::ScriptedUser;
use grm::usecases::clone_repository::CloneRepositoryUseCase;
use grm::usecases::list_repositories::ListRepositoriesUseCase;
use grm::usecases::remove_repository::RemoveRepositoryUseCase;
use grm::usecases::show_root::ShowRootUseCase;
use grm::usecases::world::go_ahead;

fn path(s: &str) -> FsPath {
    FsPath::new(s)
}

fn clone_setup() -> (ScriptedGit, MemoryFs, ScriptedUser, Config) {
    let git = ScriptedGit::new();
    let mut fs = MemoryFs::new();
    let ui = ScriptedUser::new();

    let root = path("/home/testuser/grm");
    fs.add_dir(&root);
    let config = Config { root };

    (git, fs, ui, config)
}

#[test]
fn test_clone_success_with_default_branch() {
    let (mut git, fs, ui, config) = clone_setup();

    let url = "https://github.com/user/repo.git";
    git.set_default_branch(url, "main");
    let mut usecase = CloneRepositoryUseCase::new(git, fs, ui);

    let result = usecase.execute(&config, url, None);

    assert!(result.is_ok(), "clone failed: {:?}", result.err());
    let dest = result.unwrap();
    assert_eq!(dest, path("/home/testuser/grm/github.com/user/repo+main"));

    let cloned = usecase.git.get_cloned_repos();
    assert_eq!(cloned.len(), 1);
    assert_eq!(cloned[0].0, url);
    assert_eq!(cloned[0].1, dest);

    assert!(usecase.ui.has_printed("Repository cloned to"));
}

#[test]
fn test_clone_success_with_specified_branch() {
    let (git, fs, ui, config) = clone_setup();
    let mut usecase = CloneRepositoryUseCase::new(git, fs, ui);

    let url = "git@github.com:user/repo.git";

    let result = usecase.execute(&config, url, Some("feature/test"));

    assert!(result.is_ok(), "clone failed: {:?}", result.err());
    let dest = result.unwrap();
    assert_eq!(
        dest,
        path("/home/testuser/grm/github.com/user/repo+feature/test")
    );

    let cloned = usecase.git.get_cloned_repos();
    assert_eq!(cloned.len(), 1);
}

#[test]
fn test_clone_already_exists() {
    let (mut git, mut fs, ui, config) = clone_setup();

    let url = "https://github.com/user/repo.git";
    git.set_default_branch(url, "main");

    let dest_path = path("/home/testuser/grm/github.com/user/repo+main");
    fs.add_dir(&dest_path);
    let mut usecase = CloneRepositoryUseCase::new(git, fs, ui);

    let result = usecase.execute(&config, url, None);

    assert!(result.is_err());
    match result.unwrap_err() {
        GrmError::AlreadyExists(path) => {
            assert!(path.contains("repo+main"));
        }
        _ => panic!("Expected AlreadyExists error"),
    }
}

#[test]
fn test_clone_invalid_url() {
    let (git, fs, ui, config) = clone_setup();
    let mut usecase = CloneRepositoryUseCase::new(git, fs, ui);

    let result = usecase.execute(&config, "invalid-url", None);

    assert!(result.is_err());
    assert!(matches!(result.unwrap_err(), GrmError::ParseFailed(_)));
}

#[test]
fn test_clone_git_failure() {
    let (mut git, fs, ui, config) = clone_setup();

    let url = "https://github.com/user/repo.git";
    git.set_default_branch(url, "main");
    git.inject_error(GitError::Execution("Network error".into()));
    let mut usecase = CloneRepositoryUseCase::new(git, fs, ui);

    let result = usecase.execute(&config, url, None);

    assert!(result.is_err());
    assert!(matches!(result.unwrap_err(), GrmError::Git(_)));
}

#[test]
fn test_list_repositories_success() {
    let mut mock_fs = MemoryFs::new();
    mock_fs.add_dir(&path("/test_root"));
    mock_fs.add_git_repo(&path("/test_root/repo1"));
    mock_fs.add_git_repo(&path("/test_root/repo2"));
    mock_fs.add_git_repo(&path("/test_root/repo3"));

    let mut usecase = ListRepositoriesUseCase::new(mock_fs, ScriptedUser::new());

    let config = Config { root: path("/test_root") };

    let result = usecase.execute(&config, false);

    assert!(result.is_ok());
    let messages = usecase.ui.get_printed_messages();
    assert_eq!(messages.len(), 3);
    assert!(messages.contains(&"repo1".to_string()));
    assert!(messages.contains(&"repo2".to_string()));
    assert!(messages.contains(&"repo3".to_string()));
}

#[test]
fn test_list_repositories_full_path() {
    let mut mock_fs = MemoryFs::new();
    mock_fs.add_dir(&path("/test_root"));
    mock_fs.add_git_repo(&path("/test_root/repo1"));
    mock_fs.add_dir(&path("/test_root/nested"));
    mock_fs.add_git_repo(&path("/test_root/nested/repo2"));

    let mut usecase = ListRepositoriesUseCase::new(mock_fs, ScriptedUser::new());

    let config = Config { root: path("/test_root") };

    let result = usecase.execute(&config, true);

    assert!(result.is_ok());
    let messages = usecase.ui.get_printed_messages();
    assert_eq!(messages.len(), 2);
    assert!(messages.contains(&"/test_root/repo1".to_string()));
    assert!(messages.contains(&"/test_root/nested/repo2".to_string()));
}

#[test]
fn test_list_repositories_empty() {
    let mut mock_fs = MemoryFs::new();
    mock_fs.add_dir(&path("/test_root"));

    let mut usecase = ListRepositoriesUseCase::new(mock_fs, ScriptedUser::new());

    let config = Config { root: path("/test_root") };

    let result = usecase.execute(&config, false);

    assert!(result.is_ok());
    let messages = usecase.ui.get_printed_messages();
    assert_eq!(messages.len(), 1);
    assert_eq!(messages[0], "Nothing to display");
}

#[test]
fn test_list_repositories_root_not_exists() {
    let mock_fs = MemoryFs::new();

    let mut usecase = ListRepositoriesUseCase::new(mock_fs, ScriptedUser::new());

    let config = Config { root: path("/nonexistent_root") };

    let result = usecase.execute(&config, false);

    assert!(result.is_ok());
    let messages = usecase.ui.get_printed_messages();
    assert_eq!(messages.len(), 1);
    assert_eq!(messages[0], "Nothing to display");
}

#[test]
fn list_shows_the_repositories_in_order() {
    let mut fs = MemoryFs::new();
    fs.add_dir(&path("/r"));
    fs.add_git_repo(&path("/r/b"));
    fs.add_dir(&path("/r/a"));
    fs.add_git_repo(&path("/r/a/z"));
    fs.add_git_repo(&path("/r/a-b"));
    fs.add_git_repo(&path("/r/a/b"));
    let mut usecase = ListRepositoriesUseCase::new(fs, ScriptedUser::new());
    usecase.execute(&Config { root: path("/r") }, false).unwrap();
    assert_eq!(usecase.ui.get_printed_messages(), vec!["a/b", "a/z", "a-b", "b"]);
}

fn remove_setup(worktrees: &[&str]) -> MemoryFs {
    let mut mock_fs = MemoryFs::new();
    mock_fs.add_dir(&path("/test_root"));
    mock_fs.add_dir(&path("/test_root/github.com"));
    mock_fs.add_dir(&path("/test_root/github.com/user"));
    for w in worktrees {
        mock_fs.add_git_repo(&path(w));
    }
    mock_fs
}

#[test]
fn test_remove_repository_with_confirmation() {
    let mock_fs = remove_setup(&["/test_root/github.com/user/repo+main"]);

    let mut mock_ui = ScriptedUser::new();
    mock_ui.set_confirm(true);

    let mut usecase = RemoveRepositoryUseCase::new(mock_fs, mock_ui);

    let config = Config { root: path("/test_root") };

    let result = usecase.execute(&config, "https://github.com/user/repo", false);

    assert!(result.is_ok());
    assert!(!usecase.fs.path_exists(&path("/test_root/github.com/user/repo+main")));
    let messages = usecase.ui.get_printed_messages();
    assert!(messages
        .iter()
        .any(|m| m.contains("Successfully removed 1 repository")));
}

#[test]
fn test_remove_repository_force() {
    let mock_fs = remove_setup(&["/test_root/github.com/user/repo+main"]);

    let mut usecase = RemoveRepositoryUseCase::new(mock_fs, ScriptedUser::new());

    let config = Config { root: path("/test_root") };

    let result = usecase.execute(&config, "https://github.com/user/repo", true);

    assert!(result.is_ok());
    assert!(!usecase.fs.path_exists(&path("/test_root/github.com/user/repo+main")));
    let messages = usecase.ui.get_printed_messages();
    assert!(!messages
        .iter()
        .any(|m| m.contains("The following repositories will be deleted")));
}

#[test]
fn test_remove_repository_user_cancelled() {
    let mock_fs = remove_setup(&["/test_root/github.com/user/repo+main"]);

    let mut mock_ui = ScriptedUser::new();
    mock_ui.set_confirm(false);

    let mut usecase = RemoveRepositoryUseCase::new(mock_fs, mock_ui);

    let config = Config { root: path("/test_root") };

    let result = usecase.execute(&config, "https://github.com/user/repo", false);

    assert!(matches!(result, Err(GrmError::UserCancelled)));
    assert!(usecase.fs.path_exists(&path("/test_root/github.com/user/repo+main")));
}

#[test]
fn test_remove_repository_not_found() {
    let mock_fs = remove_setup(&[]);

    let mut usecase = RemoveRepositoryUseCase::new(mock_fs, ScriptedUser::new());

    let config = Config { root: path("/test_root") };

    let result = usecase.execute(&config, "https://github.com/user/nonexistent", false);

    assert!(matches!(result, Err(GrmError::UnmanagedRepository { .. })));
}

#[test]
fn test_remove_multiple_worktrees() {
    let mock_fs = remove_setup(&[
        "/test_root/github.com/user/repo+main",
        "/test_root/github.com/user/repo+feature",
        "/test_root/github.com/user/repo+dev",
    ]);

    let mut mock_ui = ScriptedUser::new();
    mock_ui.set_confirm(true);

    let mut usecase = RemoveRepositoryUseCase::new(mock_fs, mock_ui);

    let config = Config { root: path("/test_root") };

    let result = usecase.execute(&config, "https://github.com/user/repo", false);

    assert!(result.is_ok());
    assert!(!usecase.fs.path_exists(&path("/test_root/github.com/user/repo+main")));
    assert!(!usecase.fs.path_exists(&path("/test_root/github.com/user/repo+feature")));
    assert!(!usecase.fs.path_exists(&path("/test_root/github.com/user/repo+dev")));
    let messages = usecase.ui.get_printed_messages();
    assert!(messages
        .iter()
        .any(|m| m.contains("Successfully removed 3 repository")));
}

#[test]
fn remove_reports_where_it_looked() {
    let mock_fs = remove_setup(&[]);
    let mut usecase = RemoveRepositoryUseCase::new(mock_fs, ScriptedUser::new());
    let config = Config { root: path("/test_root") };
    match usecase.execute(&config, "https://github.com/user/none", false) {
        Err(GrmError::UnmanagedRepository { url, searched_path }) => {
            assert_eq!(url, "https://github.com/user/none");
            assert_eq!(searched_path, "/test_root/github.com/user");
        }
        other => panic!("unexpected: {:?}", other),
    }
}

#[test]
fn remove_shows_what_it_does() {
    let mock_fs = remove_setup(&["/test_root/github.com/user/repo+main"]);
    let mut ui = ScriptedUser::new();
    ui.set_confirm(true);
    let mut usecase = RemoveRepositoryUseCase::new(mock_fs, ui);
    let config = Config { root: path("/test_root") };
    usecase.execute(&config, "https://github.com/user/repo", false).unwrap();
    assert_eq!(
        usecase.ui.get_printed_messages(),
        vec![
            "The following repositories will be deleted:",
            "  - /test_root/github.com/user/repo+main",
            "",
            "Removed: /test_root/github.com/user/repo+main",
            "\nSuccessfully removed 1 repository(ies).",
        ]
    );
}

#[test]
fn test_execute_prints_root() {
    let mut usecase = ShowRootUseCase::new(ScriptedUser::new());

    let root = path("/home/testuser/grm");
    let config = Config { root: root.clone() };

    usecase.execute(&config);

    let messages = usecase.ui.get_printed_messages();
    assert_eq!(messages.len(), 1);
    assert_eq!(messages[0], root.display());
    assert_eq!(messages[0], "/home/testuser/grm");
}

#[test]
fn test_execute_with_different_roots() {
    let mut usecase = ShowRootUseCase::new(ScriptedUser::new());

    let root1 = path("/custom/path1");
    let config1 = Config { root: root1.clone() };
    usecase.execute(&config1);

    let root2 = path("/custom/path2");
    let config2 = Config { root: root2.clone() };
    usecase.execute(&config2);

    let messages = usecase.ui.get_printed_messages();
    assert_eq!(messages.len(), 2);
    assert_eq!(messages[0], root1.display());
    assert_eq!(messages[1], root2.display());
}

#[test]
fn list_fails_where_the_root_is_no_directory() {
    let mut fs = MemoryFs::new();
    fs.add_file(&path("/r"));
    let mut usecase = ListRepositoriesUseCase::new(fs, ScriptedUser::new());
    assert!(matches!(
        usecase.execute(&Config { root: path("/r") }, false),
        Err(GrmError::Scan(_))
    ));
    assert_eq!(usecase.ui.get_printed_messages().len(), 0);
}

#[test]
fn go_ahead_turns_a_no_into_a_cancellation() {
    assert!(go_ahead(Ok(true)).is_ok());
    assert!(matches!(go_ahead(Ok(false)), Err(GrmError::UserCancelled)));
    match go_ahead(Err(GrmError::NotFound("x".to_string()))) {
        Err(GrmError::NotFound(m)) => assert_eq!(m, "x"),
        _ => panic!("the failure is handed on"),
    }
}
