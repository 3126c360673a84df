//! Making a worktree for a branch.

use crate::configs::Config;
use crate::errors::{parse_failed, GrmError};
use crate::path::PathModel;
use crate::ports::file_system::{holds_entry, FileSystem};
use crate::ports::git_repository::{GitCall, GitRepository};
use crate::ports::user_interaction::UserInteraction;
use crate::repo_info::{repo_path, url_outcome, RepoInfo};
use crate::shared_resource::{mount_post, SharedResource};
use crate::usecases::clone_repository::with_parent;
use crate::usecases::world::World;
use vstd::prelude::*;
use vstd::string::*;

verus! {

/// Makes a worktree for a branch of the repository that the caller stands in, and
/// brings into it what the repository shares.
pub struct SplitWorktreeUseCase<G: GitRepository, F: FileSystem, U: UserInteraction> {
    pub git: G,
    pub fs: F,
    pub ui: U,
}

/// The calls made to git to add the worktree at `dest`: whether the branch exists
/// locally, then, where it does not, whether it exists at the remote, then the
/// adding itself, of a new branch where it exists at neither.
pub open spec fn split_calls(
    remote_url: Seq<char>,
    branch: Seq<char>,
    dest: PathModel,
    local: bool,
    remote: bool,
) -> Seq<GitCall> {
    let asked = if local {
        seq![GitCall::LocalBranchExists { branch }]
    } else {
        seq![
            GitCall::LocalBranchExists { branch },
            GitCall::RemoteBranchExists { remote_url, branch },
        ]
    };
    asked.push(
        GitCall::AddWorktree { worktree_path: dest, branch, create_new: !local && !remote },
    )
}

/// What making a worktree for `branch` does to the world, and returns, for a
/// repository whose remote is `remote_url`.
///
/// The URL must name a repository, else nothing is done. The worktree's path
/// must be free, else the error is `AlreadyExists`. Then its parent directory
/// is made, git is asked whether the branch exists and to add the worktree,
/// the user is shown the worktree's path, and shared storage is mounted into it.
pub open spec fn split_effect(
    w0: World,
    w1: World,
    root: PathModel,
    remote_url: Seq<char>,
    branch: Seq<char>,
    r: Result<(), GrmError>,
) -> bool {
    match url_outcome(remote_url) {
        Err(text) => w1 == w0 && parse_failed(r, text),
        Ok(info) => {
            let dest = repo_path(root, info, branch);
            let made = with_parent(w0.fs, dest);
            match r {
                Err(GrmError::AlreadyExists(text)) => w1 == w0 && w0.fs.path_exists(dest) && text@
                    == dest.render(),
                Err(GrmError::Git(_)) => !w0.fs.path_exists(dest) && w1.fs == made && w1.events
                    == w0.events,
                Err(GrmError::FileSystem(_)) => !w0.fs.path_exists(dest),
                Ok(()) | Err(GrmError::NotFound(_)) => !w0.fs.path_exists(dest) && mount_post(
                    made,
                    w1.fs,
                    root,
                    info,
                    dest,
                    r,
                ) && w1.events == w0.shown(dest.render()).events && exists|
                    local: bool,
                    remote: bool,
                | w1.calls == w0.calls + split_calls(remote_url, branch, dest, local, remote),
                Err(_) => false,
            }
        },
    }
}

impl<G: GitRepository, F: FileSystem, U: UserInteraction> SplitWorktreeUseCase<G, F, U> {
    /// The world as the command sees it.
    pub open spec fn world(&self) -> World {
        World { fs: self.fs@, calls: self.git.calls(), events: self.ui.events() }
    }

    /// The command on what it needs.
    pub fn new(git: G, fs: F, ui: U) -> (r: Self)
        ensures
            r.git == git,
            r.fs == fs,
            r.ui == ui,
    {
        SplitWorktreeUseCase { git, fs, ui }
    }

    /// Makes a worktree for `branch` of the repository whose remote is `remote_url`.
    pub fn split_branch(&mut self, config: &Config, remote_url: &str, branch: &str) -> (r: Result<
        (),
        GrmError,
    >)
        ensures
            split_effect(
                old(self).world(),
                final(self).world(),
                config.root@,
                remote_url@,
                branch@,
                r,
            ),
    {
        let repo_info = match RepoInfo::from_url(remote_url) {
            Ok(info) => info,
            Err(e) => {
                return Err(GrmError::ParseFailed(e));
            },
        };
        let ghost info = repo_info@;
        let dest_path = repo_info.build_repo_path(config.root(), branch);
        if holds_entry(&self.fs, &dest_path) {
            return Err(GrmError::AlreadyExists(dest_path.display()));
        }
        match dest_path.parent() {
            Some(parent) => {
                match self.fs.create_dir(&parent) {
                    Ok(()) => {},
                    Err(e) => {
                        return Err(GrmError::FileSystem(e));
                    },
                }
            },
            None => {},
        }
        let local = match self.git.local_branch_exists(branch) {
            Ok(b) => b,
            Err(e) => {
                return Err(GrmError::Git(e));
            },
        };
        let remote = if local {
            false
        } else {
            match self.git.remote_branch_exists(remote_url, branch) {
                Ok(b) => b,
                Err(e) => {
                    return Err(GrmError::Git(e));
                },
            }
        };
        match self.git.add_worktree(&dest_path, branch, !(local || remote)) {
            Ok(()) => {},
            Err(e) => {
                return Err(GrmError::Git(e));
            },
        }
        proof {
            assert(self.git.calls() =~= old(self).git.calls() + split_calls(
                remote_url@,
                branch@,
                dest_path@,
                local,
                remote,
            ));
        }
        self.ui.print(dest_path.display().as_str());
        let shared_resource = SharedResource::new(repo_info, config.root().clone());
        shared_resource.mount(&mut self.fs, &dest_path)
    }

    /// Makes a worktree for `branch` of the repository that git finds the caller in.
    ///
    /// Where git finds no repository or no remote, the error is
    /// `NotInManagedRepository` and nothing is done.
    pub fn execute(&mut self, config: &Config, branch: &str) -> (r: Result<(), GrmError>)
        ensures
            match r {
                Err(GrmError::NotInManagedRepository) => {
                    &&& final(self).world().fs == old(self).world().fs
                    &&& final(self).world().events == old(self).world().events
                },
                _ => exists|repo_root: PathModel, remote_url: Seq<char>|
                    split_effect(
                        old(self).world().called(GitCall::RepositoryRoot).called(
                            GitCall::RemoteUrl { repo_path: repo_root },
                        ),
                        final(self).world(),
                        config.root@,
                        remote_url,
                        branch@,
                        r,
                    ),
            },
    {
        let repo_root = match self.git.get_repository_root() {
            Ok(p) => p,
            Err(_) => {
                return Err(GrmError::NotInManagedRepository);
            },
        };
        let remote_url = match self.git.get_remote_url(&repo_root) {
            Ok(u) => u,
            Err(_) => {
                return Err(GrmError::NotInManagedRepository);
            },
        };
        let r = self.split_branch(config, remote_url.as_str(), branch);
        proof {
            assert(split_effect(
                old(self).world().called(GitCall::RepositoryRoot).called(
                    GitCall::RemoteUrl { repo_path: repo_root@ },
                ),
                self.world(),
                config.root@,
                remote_url@,
                branch@,
                r,
            ));
        }
        r
    }
}

} // verus!
