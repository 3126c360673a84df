//! Removing the worktree of a branch.

use crate::configs::Config;
use crate::errors::{parse_failed, GrmError};
use crate::path::PathModel;
use crate::ports::file_system::{holds_entry, FileSystem};
use crate::ports::git_repository::{GitCall, GitRepository};
use crate::ports::user_interaction::UserInteraction;
use crate::repo_info::{repo_path, url_outcome, RepoInfo};
use crate::text::concat;
use crate::usecases::world::World;
use vstd::prelude::*;
use vstd::string::*;

verus! {

/// Removes the worktree of a branch of the repository that the caller stands in.
pub struct RemoveWorktreeUseCase<G: GitRepository, F: FileSystem, U: UserInteraction> {
    pub git: G,
    pub fs: F,
    pub ui: U,
}

/// What removing the worktree of `branch` does to the world, and returns, for a
/// repository whose remote is `remote_url`.
///
/// The URL must name a repository, else nothing is done. The worktree must
/// exist, else the error is `NotFound`. Then git is asked to remove it, and
/// the user is told.
pub open spec fn remove_worktree_effect(
    w0: World,
    w1: World,
    root: PathModel,
    remote_url: Seq<char>,
    branch: Seq<char>,
    r: Result<(), GrmError>,
) -> bool {
    match url_outcome(remote_url) {
        Err(text) => w1 == w0 && parse_failed(r, text),
        Ok(info) => {
            let path = repo_path(root, info, branch);
            let asked = w0.called(GitCall::RemoveWorktree { worktree_path: path });
            match r {
                Ok(()) => w0.fs.path_exists(path) && w1 == asked.shown(
                    "Removed worktree: "@ + path.render(),
                ),
                Err(GrmError::NotFound(text)) => w1 == w0 && !w0.fs.path_exists(path) && text@
                    == "Worktree does not exist: "@ + path.render(),
                Err(GrmError::Git(_)) => w0.fs.path_exists(path) && w1 == asked,
                Err(_) => false,
            }
        },
    }
}

impl<G: GitRepository, F: FileSystem, U: UserInteraction> RemoveWorktreeUseCase<G, F, U> {
    /// The world as the command sees it.
    pub open spec fn world(&self) -> World {
        World { fs: self.fs@, calls: self.git.calls(), events: self.ui.events() }
    }

    /// The command on what it needs.
    pub fn new(git: G, fs: F, ui: U) -> (r: Self)
        ensures
            r.git == git,
            r.fs == fs,
            r.ui == ui,
    {
        RemoveWorktreeUseCase { git, fs, ui }
    }

    /// Removes the worktree of `branch` of the repository whose remote is `remote_url`.
    pub fn remove_branch(&mut self, config: &Config, remote_url: &str, branch: &str) -> (r: Result<
        (),
        GrmError,
    >)
        ensures
            remove_worktree_effect(
                old(self).world(),
                final(self).world(),
                config.root@,
                remote_url@,
                branch@,
                r,
            ),
    {
        let repo_info = match RepoInfo::from_url(remote_url) {
            Ok(info) => info,
            Err(e) => {
                return Err(GrmError::ParseFailed(e));
            },
        };
        let worktree_path = repo_info.build_repo_path(config.root(), branch);
        if !holds_entry(&self.fs, &worktree_path) {
            return Err(
                GrmError::NotFound(
                    concat("Worktree does not exist: ", worktree_path.display().as_str()),
                ),
            );
        }
        match self.git.remove_worktree(&worktree_path) {
            Ok(()) => {},
            Err(e) => {
                return Err(GrmError::Git(e));
            },
        }
        self.ui.print(concat("Removed worktree: ", worktree_path.display().as_str()).as_str());
        Ok(())
    }

    /// Removes the worktree of `branch` of the repository that git finds the caller in.
    ///
    /// Where git finds no repository or no remote, the error is
    /// `NotInManagedRepository` and nothing is done.
    pub fn execute(&mut self, config: &Config, branch: &str) -> (r: Result<(), GrmError>)
        ensures
            final(self).world().fs == old(self).world().fs,
            match r {
                Err(GrmError::NotInManagedRepository) => final(self).world().events == old(
                    self,
                ).world().events,
                _ => exists|repo_root: PathModel, remote_url: Seq<char>|
                    remove_worktree_effect(
                        old(self).world().called(GitCall::RepositoryRoot).called(
                            GitCall::RemoteUrl { repo_path: repo_root },
                        ),
                        final(self).world(),
                        config.root@,
                        remote_url,
                        branch@,
                        r,
                    ),
            },
    {
        let repo_root = match self.git.get_repository_root() {
            Ok(p) => p,
            Err(_) => {
                return Err(GrmError::NotInManagedRepository);
            },
        };
        let remote_url = match self.git.get_remote_url(&repo_root) {
            Ok(u) => u,
            Err(_) => {
                return Err(GrmError::NotInManagedRepository);
            },
        };
        let r = self.remove_branch(config, remote_url.as_str(), branch);
        proof {
            assert(remove_worktree_effect(
                old(self).world().called(GitCall::RepositoryRoot).called(
                    GitCall::RemoteUrl { repo_path: repo_root@ },
                ),
                self.world(),
                config.root@,
                remote_url@,
                branch@,
                r,
            ));
        }
        r
    }
}

} // verus!
