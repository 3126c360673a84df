use grm::path::FsPath;
use grm::ports::git_repository::{GitError, GitRepository};
use grm::scripted_git::ScriptedGit;
use grm::utils::git::{
    add_worktree, clone_repo, command_result, default_branch_args, execution_failure,
    get_default_branch, get_remote_url, get_repo_root, list_worktrees, list_worktrees_args,
    local_branch_args, local_branch_exists, remote_branch_args, remote_branch_exists,
    remote_url_args, remove_worktree_args, repo_root_args, status_result,
};

#[test]
fn default_branch_is_read_from_the_symref_line() {
    let output = "ref: refs/heads/main\tHEAD\n5f3c0d2\tHEAD\n";
    assert_eq!(get_default_branch(output).unwrap(), "main");
    let output = "5f3c0d2\tHEAD\r\nref: refs/heads/feature/x  HEAD\r\n";
    assert_eq!(get_default_branch(output).unwrap(), "feature/x");
}

#[test]
fn default_branch_is_missing_without_a_symref_line() {
    for output in ["", "5f3c0d2\tHEAD\n", "ref: refs/tags/v1\tHEAD\n", "ref:\n", "ref: refs/heads/main\n"] {
        match get_default_branch(output) {
            Err(GitError::Parse(m)) => {
                assert_eq!(m, "Could not determine default branch from git ls-remote output")
            }
            other => panic!("unexpected: {:?}", other),
        }
    }
}

#[test]
fn repository_root_is_the_trimmed_output() {
    assert_eq!(get_repo_root("/grm/h/u/r+main\n").unwrap(), FsPath::new("/grm/h/u/r+main"));
    assert!(matches!(get_repo_root(" \n"), Err(GitError::Parse(_))));
}

#[test]
fn remote_url_is_the_trimmed_output() {
    assert_eq!(
        get_remote_url("https://github.com/user/repo.git\n").unwrap(),
        "https://github.com/user/repo.git"
    );
    match get_remote_url("") {
        Err(GitError::Parse(m)) => assert_eq!(m, "No remote URL found"),
        other => panic!("unexpected: {:?}", other),
    }
}

#[test]
fn a_failed_verify_means_that_the_branch_is_missing() {
    assert_eq!(local_branch_exists(Ok("abc".to_string())).unwrap(), true);
    assert_eq!(
        local_branch_exists(Err(GitError::Failed { status: 128, stderr: "fatal".to_string() }))
            .unwrap(),
        false
    );
    assert!(matches!(
        local_branch_exists(Err(GitError::Execution("no git".to_string()))),
        Err(GitError::Execution(_))
    ));
}

#[test]
fn a_remote_branch_exists_where_a_line_names_it() {
    assert!(remote_branch_exists("5f3c\trefs/heads/release\n", "release"));
    assert!(!remote_branch_exists("5f3c\trefs/heads/main\n", "release"));
    assert!(!remote_branch_exists("", "release"));
}

#[test]
fn worktrees_are_read_from_the_porcelain_list() {
    let output = "worktree /grm/h/u/r+main\nHEAD abc\nbranch refs/heads/main\n\nworktree /grm/h/u/r+x\nHEAD def\n";
    assert_eq!(
        list_worktrees(output),
        vec![FsPath::new("/grm/h/u/r+main"), FsPath::new("/grm/h/u/r+x")]
    );
}

#[test]
fn arguments_are_built_as_git_wants_them() {
    let dest = FsPath::new("/grm/h/u/r+main");
    assert_eq!(default_branch_args("U"), vec!["ls-remote", "--symref", "U", "HEAD"]);
    assert_eq!(repo_root_args(), vec!["rev-parse", "--show-toplevel"]);
    assert_eq!(
        remote_url_args(&dest),
        vec!["-C", "/grm/h/u/r+main", "config", "--get", "remote.origin.url"]
    );
    assert_eq!(local_branch_args("b"), vec!["rev-parse", "--verify", "refs/heads/b"]);
    assert_eq!(remote_branch_args("U", "b"), vec!["ls-remote", "--heads", "U", "refs/heads/b"]);
    assert_eq!(clone_repo("U", &dest, None), vec!["clone", "U", "/grm/h/u/r+main"]);
    assert_eq!(
        clone_repo("U", &dest, Some("main")),
        vec!["clone", "U", "/grm/h/u/r+main", "--branch", "main"]
    );
    assert_eq!(
        add_worktree(&dest, "main", true),
        vec!["worktree", "add", "-b", "main", "/grm/h/u/r+main"]
    );
    assert_eq!(
        add_worktree(&dest, "main", false),
        vec!["worktree", "add", "/grm/h/u/r+main", "main"]
    );
    assert_eq!(remove_worktree_args(&dest), vec!["worktree", "remove", "/grm/h/u/r+main"]);
    assert_eq!(list_worktrees_args(), vec!["worktree", "list", "--porcelain"]);
}

#[test]
fn a_call_comes_to_its_output_or_its_failure() {
    assert_eq!(command_result(true, Some(0), " out \n", "").unwrap(), "out");
    match command_result(false, Some(128), "", " fatal \n") {
        Err(GitError::Failed { status, stderr }) => {
            assert_eq!(status, 128);
            assert_eq!(stderr, "fatal");
        }
        other => panic!("unexpected: {:?}", other),
    }
    match command_result(false, None, "", "") {
        Err(GitError::Failed { status, .. }) => assert_eq!(status, -1),
        other => panic!("unexpected: {:?}", other),
    }
    let args = vec!["worktree".to_string(), "remove".to_string(), "/p".to_string()];
    assert!(status_result(true, Some(0), &args).is_ok());
    match status_result(false, Some(1), &args) {
        Err(GitError::Failed { status, stderr }) => {
            assert_eq!(status, 1);
            assert_eq!(stderr, "git worktree remove /p failed");
        }
        other => panic!("unexpected: {:?}", other),
    }
    assert_eq!(
        execution_failure(&args, "not found").message(),
        "Failed to execute git command: Failed to execute git worktree remove /p: not found"
    );
}

#[test]
fn git_errors_read_as_lines_of_text() {
    assert_eq!(
        GitError::Failed { status: -1, stderr: "x".to_string() }.message(),
        "Git command failed with status -1: x"
    );
    assert_eq!(
        GitError::Failed { status: 128, stderr: "fatal".to_string() }.message(),
        "Git command failed with status 128: fatal"
    );
    assert_eq!(
        GitError::Failed { status: i32::MIN, stderr: "".to_string() }.message(),
        "Git command failed with status -2147483648: "
    );
    assert_eq!(GitError::Parse("p".to_string()).message(), "Failed to parse git output: p");
}

#[test]
fn scripted_git_answers_what_it_was_told() {
    let mut git = ScriptedGit::new();
    let root = FsPath::new("/r");
    assert!(git.get_repository_root().is_err());
    git.set_repo_root(&root);
    git.set_remote_url(&root, "U");
    git.set_default_branch("U", "main");
    git.add_local_branch("dev");
    git.add_remote_branch("U", "release");
    assert_eq!(git.get_repository_root().unwrap(), root);
    assert_eq!(git.get_remote_url(&root).unwrap(), "U");
    assert!(git.get_remote_url(&FsPath::new("/other")).is_err());
    assert_eq!(git.get_default_branch("U").unwrap(), "main");
    assert!(git.get_default_branch("V").is_err());
    assert!(git.local_branch_exists("dev").unwrap());
    assert!(!git.local_branch_exists("release").unwrap());
    assert!(git.remote_branch_exists("U", "release").unwrap());
    assert!(!git.remote_branch_exists("V", "release").unwrap());
    git.add_worktree(&FsPath::new("/w"), "new", true).unwrap();
    assert!(git.local_branch_exists("new").unwrap());
    assert_eq!(git.get_worktrees(), vec![FsPath::new("/w")]);
    git.remove_worktree(&FsPath::new("/w")).unwrap();
    assert_eq!(git.get_worktrees().len(), 0);
    git.inject_error(GitError::Execution("once".to_string()));
    assert!(git.local_branch_exists("dev").is_err());
    assert!(git.local_branch_exists("dev").unwrap());
}
