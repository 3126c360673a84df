//! Git as the library sees it.
//!
//! Nothing is known of what git answers. The contracts fix what it is asked:
//! every call is recorded, in order, in the model.

use crate::path::{FsPath, PathModel};
use crate::text::{concat, signed_decimal, signed_decimal_text};
use vstd::prelude::*;
use vstd::string::*;

verus! {

/// Why a git operation failed.
#[derive(Debug)]
pub enum GitError {
    Execution(String),
    Failed { status: i32, stderr: String },
    Parse(String),
}

impl GitError {
    /// The text of `message`.
    pub open spec fn text(&self) -> Seq<char> {
        match self {
            GitError::Execution(m) => "Failed to execute git command: "@ + m@,
            GitError::Failed { status, stderr } => "Git command failed with status "@
                + signed_decimal(*status as int) + ": "@ + stderr@,
            GitError::Parse(m) => "Failed to parse git output: "@ + m@,
        }
    }

    /// The error as a line of text.
    pub fn message(&self) -> (r: String)
        ensures
            r@ == self.text(),
    {
        match self {
            GitError::Execution(m) => concat("Failed to execute git command: ", m.as_str()),
            GitError::Failed { status, stderr } => {
                let mut r = concat(
                    "Git command failed with status ",
                    signed_decimal_text(*status).as_str(),
                );
                r.append(": ");
                r.append(stderr.as_str());
                r
            },
            GitError::Parse(m) => concat("Failed to parse git output: ", m.as_str()),
        }
    }
}

/// One call made to git.
#[allow(inconsistent_fields)]
pub enum GitCall {
    DefaultBranch { url: Seq<char> },
    RepositoryRoot,
    RemoteUrl { repo_path: PathModel },
    LocalBranchExists { branch: Seq<char> },
    RemoteBranchExists { remote_url: Seq<char>, branch: Seq<char> },
    CloneRepository { url: Seq<char>, destination: PathModel, branch: Option<Seq<char>> },
    AddWorktree { worktree_path: PathModel, branch: Seq<char>, create_new: bool },
    RemoveWorktree { worktree_path: PathModel },
}

/// The view of an optional text.
pub open spec fn text_of(s: Option<&str>) -> Option<Seq<char>> {
    match s {
        Some(s) => Some(s@),
        None => None,
    }
}

/// What the library asks of git.
pub trait GitRepository {
    /// The calls made so far, oldest first. An implementation that proves nothing
    /// of itself leaves them open.
    open spec fn calls(&self) -> Seq<GitCall> {
        arbitrary()
    }

    /// The branch that the remote repository at `url` has checked out.
    fn get_default_branch(&mut self, url: &str) -> (r: Result<String, GitError>)
        ensures
            final(self).calls() == old(self).calls().push(GitCall::DefaultBranch { url: url@ }),
    ;

    /// The top directory of the worktree that the caller stands in.
    fn get_repository_root(&mut self) -> (r: Result<FsPath, GitError>)
        ensures
            final(self).calls() == old(self).calls().push(GitCall::RepositoryRoot),
    ;

    /// The URL of the remote that the repository at `repo_path` follows.
    fn get_remote_url(&mut self, repo_path: &FsPath) -> (r: Result<String, GitError>)
        ensures
            final(self).calls() == old(self).calls().push(
                GitCall::RemoteUrl { repo_path: repo_path@ },
            ),
    ;

    /// Whether the repository has a local branch of this name.
    fn local_branch_exists(&mut self, branch: &str) -> (r: Result<bool, GitError>)
        ensures
            final(self).calls() == old(self).calls().push(
                GitCall::LocalBranchExists { branch: branch@ },
            ),
    ;

    /// Whether the remote at `remote_url` has a branch of this name.
    fn remote_branch_exists(&mut self, remote_url: &str, branch: &str) -> (r: Result<
        bool,
        GitError,
    >)
        ensures
            final(self).calls() == old(self).calls().push(
                GitCall::RemoteBranchExists { remote_url: remote_url@, branch: branch@ },
            ),
    ;

    /// Clones `url` into `destination`, checking out `branch` where one is given.
    fn clone_repository(&mut self, url: &str, destination: &FsPath, branch: Option<&str>) -> (r:
        Result<(), GitError>)
        ensures
            final(self).calls() == old(self).calls().push(
                GitCall::CloneRepository {
                    url: url@,
                    destination: destination@,
                    branch: text_of(branch),
                },
            ),
    ;

    /// Adds a worktree for `branch` at `worktree_path`, making the branch if asked to.
    fn add_worktree(&mut self, worktree_path: &FsPath, branch: &str, create_new: bool) -> (r:
        Result<(), GitError>)
        ensures
            final(self).calls() == old(self).calls().push(
                GitCall::AddWorktree { worktree_path: worktree_path@, branch: branch@, create_new },
            ),
    ;

    /// Removes the worktree at `worktree_path`.
    fn remove_worktree(&mut self, worktree_path: &FsPath) -> (r: Result<(), GitError>)
        ensures
            final(self).calls() == old(self).calls().push(
                GitCall::RemoveWorktree { worktree_path: worktree_path@ },
            ),
    ;
}

} // verus!
