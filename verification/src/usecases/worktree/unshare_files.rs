//! Taking a shared file's links out of the worktrees.

use crate::configs::Config;
use crate::errors::{parse_failed, GrmError};
use crate::path::{parse_path, FsPath, PathModel};
use crate::ports::file_system::FileSystem;
use crate::ports::git_repository::{GitCall, GitRepository};
use crate::ports::user_interaction::UserInteraction;
use crate::repo_info::{path_outcome, RepoInfo};
use crate::shared_resource::{ending, unshare_outcome, unshare_post, SharedResource};
use crate::text::{decimal, decimal_text};
use crate::usecases::world::World;
use vstd::prelude::*;
use vstd::string::*;

verus! {

/// Removes the links to a shared file from every worktree of the repository that
/// the caller stands in.
pub struct UnshareFilesUseCase<G: GitRepository, F: FileSystem, U: UserInteraction> {
    pub git: G,
    pub fs: F,
    pub ui: U,
}

/// What the user is told after `n` links were removed.
pub open spec fn unshared_text(n: nat) -> Seq<char> {
    if n == 0 {
        "No shared files found to unshare."@
    } else {
        "Unshared "@ + decimal(n) + " file(s) from all worktrees."@
    }
}

/// What unsharing `path` from the worktree at `repo_root` does to the world, and returns.
///
/// The worktree's path must name a repository below the root, else nothing is
/// done. Then the links are removed, and the user is told how many there were.
pub open spec fn unshare_effect(
    w0: World,
    w1: World,
    root: PathModel,
    repo_root: PathModel,
    path: Seq<char>,
    r: Result<(), GrmError>,
) -> bool {
    match path_outcome(root, repo_root) {
        Err(text) => w1 == w0 && parse_failed(r, text),
        Ok(info) => w1.calls == w0.calls && match r {
            Ok(()) => exists|n: usize|
                unshare_post(
                    w0.fs,
                    w1.fs,
                    root,
                    info,
                    repo_root,
                    parse_path(path),
                    Ok::<usize, GrmError>(n),
                ) && w1.events == w0.shown(unshared_text(n as nat)).events,
            Err(e) => unshare_post(
                w0.fs,
                w1.fs,
                root,
                info,
                repo_root,
                parse_path(path),
                Err::<usize, GrmError>(e),
            ) && w1.events == w0.events,
        },
    }
}

impl<G: GitRepository, F: FileSystem, U: UserInteraction> UnshareFilesUseCase<G, F, U> {
    /// The world as the command sees it.
    pub open spec fn world(&self) -> World {
        World { fs: self.fs@, calls: self.git.calls(), events: self.ui.events() }
    }

    /// The command on what it needs.
    pub fn new(git: G, fs: F, ui: U) -> (r: Self)
        ensures
            r.git == git,
            r.fs == fs,
            r.ui == ui,
    {
        UnshareFilesUseCase { git, fs, ui }
    }

    /// Unshares the file that `path_str` names from the current directory, from the
    /// worktree at `repo_root`.
    pub fn unshare_in(&mut self, config: &Config, repo_root: &FsPath, path_str: &str) -> (r: Result<
        (),
        GrmError,
    >)
        ensures
            unshare_effect(
                old(self).world(),
                final(self).world(),
                config.root@,
                repo_root@,
                path_str@,
                r,
            ),
            final(self).fs.is_dependable() == old(self).fs.is_dependable(),
            old(self).fs.is_dependable() ==> match path_outcome(config.root@, repo_root@) {
                Ok(info) => (ending(r), final(self).fs@) == ({
                    let end = unshare_outcome(
                        old(self).fs@,
                        config.root@,
                        info,
                        repo_root@,
                        parse_path(path_str@),
                    );
                    (Some(end.0), end.1)
                }),
                Err(_) => true,
            },
    {
        let relative_path = FsPath::new(path_str);
        let repo_info = match RepoInfo::from_path(config.root(), repo_root) {
            Ok(info) => info,
            Err(e) => {
                return Err(GrmError::ParseFailed(e));
            },
        };
        let ghost info = repo_info@;
        let resource = SharedResource::new(repo_info, config.root().clone());
        match resource.unshare(&mut self.fs, repo_root, &relative_path) {
            Ok(removed_count) => {
                if removed_count == 0 {
                    self.ui.print("No shared files found to unshare.");
                } else {
                    let mut text = String::from_str("Unshared ");
                    text.append(decimal_text(removed_count).as_str());
                    text.append(" file(s) from all worktrees.");
                    self.ui.print(text.as_str());
                }
                proof {
                    assert(unshare_post(
                        old(self).world().fs,
                        self.world().fs,
                        config.root@,
                        info,
                        repo_root@,
                        parse_path(path_str@),
                        Ok::<usize, GrmError>(removed_count),
                    ));
                    assert(self.world().events == old(self).world().shown(
                        unshared_text(removed_count as nat),
                    ).events);
                }
                Ok(())
            },
            Err(e) => Err(e),
        }
    }

    /// Unshares the file that `path_str` names from the current directory, from the
    /// worktree that git finds the caller in.
    ///
    /// Where git finds none, the error is `NotInManagedRepository` and nothing is done.
    pub fn execute(&mut self, config: &Config, path_str: &str) -> (r: Result<(), GrmError>)
        ensures
            match r {
                Err(GrmError::NotInManagedRepository) => final(self).world() == old(
                    self,
                ).world().called(GitCall::RepositoryRoot),
                _ => exists|repo_root: PathModel|
                    unshare_effect(
                        old(self).world().called(GitCall::RepositoryRoot),
                        final(self).world(),
                        config.root@,
                        repo_root,
                        path_str@,
                        r,
                    ),
            },
    {
        let repo_root = match self.git.get_repository_root() {
            Ok(p) => p,
            Err(_) => {
                return Err(GrmError::NotInManagedRepository);
            },
        };
        let r = self.unshare_in(config, &repo_root, path_str);
        proof {
            assert(unshare_effect(
                old(self).world().called(GitCall::RepositoryRoot),
                self.world(),
                config.root@,
                repo_root@,
                path_str@,
                r,
            ));
        }
        r
    }
}

} // verus!
