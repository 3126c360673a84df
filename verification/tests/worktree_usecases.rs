use grm::configs::Config;
use grm::errors::GrmError;
use grm::memory_fs::MemoryFs;
use grm::path::FsPath;
use grm::ports::file_system::FileSystem;
use grm::scripted_git::ScriptedGit;
use grm::scripted_user::ScriptedUser;
use grm::usecases::worktree::isolate_files::IsolateFilesUseCase;
use grm::usecases::worktree::remove_worktree::RemoveWorktreeUseCase;
use grm::usecases::worktree::share_files::ShareFilesUseCase;
use grm::usecases::worktree::split_worktree::SplitWorktreeUseCase;
use grm::usecases::worktree::unshare_files::UnshareFilesUseCase;

fn at(s: &str) -> FsPath {
    FsPath::new(s)
}

/// The file system that most of the tests start from: one worktree and empty shared storage.
fn managed(repo_root: &FsPath) -> MemoryFs {
    let mut mock_fs = MemoryFs::new();
    mock_fs.add_dir(&at("/test_root"));
    mock_fs.add_dir(&at("/test_root/github.com"));
    mock_fs.add_dir(&at("/test_root/github.com/user"));
    mock_fs.add_git_repo(repo_root);
    mock_fs.add_dir(&at("/test_root/.shared"));
    mock_fs.add_dir(&at("/test_root/.shared/github.com"));
    mock_fs.add_dir(&at("/test_root/.shared/github.com/user"));
    mock_fs.add_dir(&at("/test_root/.shared/github.com/user/repo"));
    mock_fs
}

fn config() -> Config {
    Config { root: at("/test_root") }
}

#[test]
fn isolate_files_test_isolate_success() {
    let mut mock_git = ScriptedGit::new();
    let repo_root = at("/test_root/github.com/user/repo+main");
    mock_git.set_repo_root(&repo_root);

    let mut mock_fs = managed(&repo_root);
    mock_fs.set_current_dir(&repo_root);

    let shared_file = at("/test_root/.shared/github.com/user/repo/test.txt");
    mock_fs.add_file(&shared_file);
    mock_fs.add_symlink(&repo_root.join_str("test.txt"), &shared_file);

    let mut usecase = IsolateFilesUseCase::new(mock_git, mock_fs, ScriptedUser::new());

    let result = usecase.execute(&config(), "test.txt");

    assert!(result.is_ok());
    let messages = usecase.ui.get_printed_messages();
    assert!(messages.iter().any(|m| m.contains("Isolated test.txt")));

    assert!(!usecase.fs.is_symlink(&repo_root.join_str("test.txt")));
    assert!(usecase.fs.path_exists(&repo_root.join_str("test.txt")));
}

#[test]
fn test_isolate_not_found() {
    let mut mock_git = ScriptedGit::new();
    let repo_root = at("/test_root/github.com/user/repo+main");
    mock_git.set_repo_root(&repo_root);

    let mut mock_fs = managed(&repo_root);
    mock_fs.set_current_dir(&repo_root);

    let mut usecase = IsolateFilesUseCase::new(mock_git, mock_fs, ScriptedUser::new());

    let result = usecase.execute(&config(), "nonexistent.txt");

    assert!(matches!(result, Err(GrmError::NotFound(_))));
}

#[test]
fn test_isolate_not_in_repo() {
    let mut usecase =
        IsolateFilesUseCase::new(ScriptedGit::new(), MemoryFs::new(), ScriptedUser::new());

    let result = usecase.execute(&config(), "test.txt");

    assert!(matches!(result, Err(GrmError::NotInManagedRepository)));
}

#[test]
fn share_files_test_share_file_success() {
    let mut mock_git = ScriptedGit::new();
    let repo_root = at("/test_root/github.com/user/repo+main");
    mock_git.set_repo_root(&repo_root);

    let mut mock_fs = managed(&repo_root);
    mock_fs.set_current_dir(&repo_root);
    mock_fs.add_file(&repo_root.join_str("test.txt"));

    let mut usecase = ShareFilesUseCase::new(mock_git, mock_fs, ScriptedUser::new());

    let result = usecase.execute(&config(), "test.txt");

    assert!(result.is_ok(), "Failed with error: {:?}", result.err());
    let messages = usecase.ui.get_printed_messages();
    assert!(messages
        .iter()
        .any(|m| m.contains("Shared test.txt across worktrees")));
}

fn shared_with_conflict(answer: bool) -> ShareFilesUseCase<ScriptedGit, MemoryFs, ScriptedUser> {
    let mut mock_git = ScriptedGit::new();
    let mut mock_ui = ScriptedUser::new();
    mock_ui.set_confirm(answer);

    let repo_root = at("/test_root/github.com/user/repo+main");
    mock_git.set_repo_root(&repo_root);

    let mut mock_fs = managed(&repo_root);
    mock_fs.set_current_dir(&repo_root);

    let shared_file = at("/test_root/.shared/github.com/user/repo/test.txt");
    mock_fs.add_file(&shared_file);
    mock_fs.add_symlink(&repo_root.join_str("test.txt"), &shared_file);

    let worktree = at("/test_root/github.com/user/repo+feature");
    mock_fs.add_git_repo(&worktree);
    mock_fs.add_file(&worktree.join_str("test.txt"));

    ShareFilesUseCase::new(mock_git, mock_fs, mock_ui)
}

#[test]
fn test_share_file_with_conflicts_confirmed() {
    let mut usecase = shared_with_conflict(true);

    let result = usecase.execute(&config(), "test.txt");

    assert!(result.is_ok());
    let messages = usecase.ui.get_printed_messages();
    assert!(messages
        .iter()
        .any(|m| m.contains("The following files will be overwritten")));
    assert_eq!(
        messages,
        vec![
            "The following files will be overwritten:",
            "  /test_root/github.com/user/repo+feature/test.txt",
            "Shared test.txt across worktrees",
        ]
    );
}

#[test]
fn test_share_file_with_conflicts_cancelled() {
    let mut usecase = shared_with_conflict(false);

    let result = usecase.execute(&config(), "test.txt");

    assert!(matches!(result, Err(GrmError::UserCancelled)));
    assert!(!usecase
        .fs
        .is_symlink(&at("/test_root/github.com/user/repo+feature/test.txt")));
}

#[test]
fn share_files_test_share_file_not_found() {
    let mut mock_git = ScriptedGit::new();
    let repo_root = at("/test_root/github.com/user/repo+main");
    mock_git.set_repo_root(&repo_root);

    let mut mock_fs = MemoryFs::new();
    mock_fs.add_dir(&at("/test_root"));
    mock_fs.add_dir(&at("/test_root/github.com"));
    mock_fs.add_dir(&at("/test_root/github.com/user"));
    mock_fs.add_git_repo(&repo_root);
    mock_fs.set_current_dir(&repo_root);

    let mut usecase = ShareFilesUseCase::new(mock_git, mock_fs, ScriptedUser::new());

    let result = usecase.execute(&config(), "nonexistent.txt");

    assert!(matches!(result, Err(GrmError::NotFound(_))));
}

fn split_setup(git: &mut ScriptedGit) -> MemoryFs {
    let repo_root = at("/test_root/github.com/user/repo+main");
    git.set_repo_root(&repo_root);
    git.set_remote_url(&repo_root, "https://github.com/user/repo");
    managed(&repo_root)
}

#[test]
fn test_split_worktree_new_branch() {
    let mut mock_git = ScriptedGit::new();
    let mock_fs = split_setup(&mut mock_git);

    let mut usecase = SplitWorktreeUseCase::new(mock_git, mock_fs, ScriptedUser::new());

    let result = usecase.execute(&config(), "feature");

    assert!(result.is_ok(), "Failed with error: {:?}", result.err());
    let worktrees = usecase.git.get_worktrees();
    assert_eq!(worktrees.len(), 1);
    assert_eq!(worktrees[0], at("/test_root/github.com/user/repo+feature"));
}

#[test]
fn test_split_worktree_existing_branch() {
    let mut mock_git = ScriptedGit::new();
    let mock_fs = split_setup(&mut mock_git);
    mock_git.add_local_branch("develop");

    let mut usecase = SplitWorktreeUseCase::new(mock_git, mock_fs, ScriptedUser::new());

    let result = usecase.execute(&config(), "develop");

    assert!(result.is_ok());
    let worktrees = usecase.git.get_worktrees();
    assert_eq!(worktrees.len(), 1);
}

#[test]
fn test_split_worktree_already_exists() {
    let mut mock_git = ScriptedGit::new();
    let mut mock_fs = split_setup(&mut mock_git);
    mock_fs.add_git_repo(&at("/test_root/github.com/user/repo+feature"));

    let mut usecase = SplitWorktreeUseCase::new(mock_git, mock_fs, ScriptedUser::new());

    let result = usecase.execute(&config(), "feature");

    assert!(matches!(result, Err(GrmError::AlreadyExists(_))));
}

#[test]
fn test_split_worktree_not_in_repo() {
    let mut usecase =
        SplitWorktreeUseCase::new(ScriptedGit::new(), MemoryFs::new(), ScriptedUser::new());

    let result = usecase.execute(&config(), "feature");

    assert!(matches!(result, Err(GrmError::NotInManagedRepository)));
}

#[test]
fn test_split_worktree_remote_branch() {
    let mut mock_git = ScriptedGit::new();
    let mock_fs = split_setup(&mut mock_git);
    mock_git.add_remote_branch("https://github.com/user/repo", "release");

    let mut usecase = SplitWorktreeUseCase::new(mock_git, mock_fs, ScriptedUser::new());

    let result = usecase.execute(&config(), "release");

    assert!(result.is_ok());
    let worktrees = usecase.git.get_worktrees();
    assert_eq!(worktrees.len(), 1);
    assert_eq!(worktrees[0], at("/test_root/github.com/user/repo+release"));
}

#[test]
fn split_brings_shared_files_into_the_new_worktree() {
    let mut mock_git = ScriptedGit::new();
    let mut mock_fs = split_setup(&mut mock_git);
    mock_fs.add_file(&at("/test_root/.shared/github.com/user/repo/.env"));

    let mut usecase = SplitWorktreeUseCase::new(mock_git, mock_fs, ScriptedUser::new());
    usecase.execute(&config(), "feature").unwrap();

    assert!(usecase
        .fs
        .is_symlink(&at("/test_root/github.com/user/repo+feature/.env")));
    assert_eq!(
        usecase.ui.get_printed_messages(),
        vec!["/test_root/github.com/user/repo+feature"]
    );
}

#[test]
fn unshare_files_test_unshare_success() {
    let mut mock_git = ScriptedGit::new();
    let repo_root = at("/test_root/github.com/user/repo+main");
    mock_git.set_repo_root(&repo_root);

    let mut mock_fs = managed(&repo_root);
    mock_fs.set_current_dir(&repo_root);

    let shared_file = at("/test_root/.shared/github.com/user/repo/test.txt");
    mock_fs.add_file(&shared_file);
    mock_fs.add_symlink(&repo_root.join_str("test.txt"), &shared_file);

    let worktree = at("/test_root/github.com/user/repo+feature");
    mock_fs.add_git_repo(&worktree);
    mock_fs.add_symlink(&worktree.join_str("test.txt"), &shared_file);

    let mut usecase = UnshareFilesUseCase::new(mock_git, mock_fs, ScriptedUser::new());

    let result = usecase.execute(&config(), "test.txt");

    assert!(result.is_ok());
    let messages = usecase.ui.get_printed_messages();
    assert!(messages
        .iter()
        .any(|m| m.contains("Unshared 2 file(s) from all worktrees")));
}

#[test]
fn test_unshare_no_files() {
    let mut mock_git = ScriptedGit::new();
    let repo_root = at("/test_root/github.com/user/repo+main");
    mock_git.set_repo_root(&repo_root);

    let mut mock_fs = managed(&repo_root);
    mock_fs.set_current_dir(&repo_root);

    let mut usecase = UnshareFilesUseCase::new(mock_git, mock_fs, ScriptedUser::new());

    let result = usecase.execute(&config(), "nonexistent.txt");

    assert!(result.is_ok());
    let messages = usecase.ui.get_printed_messages();
    assert!(messages
        .iter()
        .any(|m| m.contains("No shared files found to unshare")));
}

#[test]
fn test_unshare_not_in_repo() {
    let mut usecase =
        UnshareFilesUseCase::new(ScriptedGit::new(), MemoryFs::new(), ScriptedUser::new());

    let result = usecase.execute(&config(), "test.txt");

    assert!(matches!(result, Err(GrmError::NotInManagedRepository)));
}

#[test]
fn test_remove_worktree_not_exists() {
    let mut mock_git = ScriptedGit::new();
    let test_root = at("/test_root");
    let repo_root = test_root.join_str("github.com/user/repo+main");
    mock_git.set_repo_root(&repo_root);
    mock_git.set_remote_url(&repo_root, "https://github.com/user/repo");

    let mut usecase = RemoveWorktreeUseCase::new(mock_git, MemoryFs::new(), ScriptedUser::new());

    let result = usecase.execute(&config(), "nonexistent");

    assert!(matches!(result, Err(GrmError::NotFound(_))));
}

#[test]
fn test_remove_worktree_success() {
    let mut mock_git = ScriptedGit::new();
    let test_root = at("/test_root");
    let repo_root = test_root.join_str("github.com/user/repo+main");
    mock_git.set_repo_root(&repo_root);
    mock_git.set_remote_url(&repo_root, "https://github.com/user/repo");

    let mut fs = MemoryFs::new();
    fs.create_dir(&test_root.join_str("github.com/user/repo+feature")).unwrap();

    let mut usecase = RemoveWorktreeUseCase::new(mock_git, fs, ScriptedUser::new());

    let result = usecase.execute(&config(), "feature");

    assert!(result.is_ok());
    let messages = usecase.ui.get_printed_messages();
    assert!(messages.iter().any(|m| m.contains("Removed worktree")));
}
