//! Cloning a repository into its place below the root.

use crate::configs::Config;
use crate::errors::{parse_failed, GrmError};
use crate::path::{FsPath, PathModel};
use crate::ports::file_system::{holds_entry, FileSystem, FsModel};
use crate::ports::git_repository::{GitCall, GitRepository};
use crate::ports::user_interaction::UserInteraction;
use crate::repo_info::{repo_path, url_outcome, RepoInfo, RepoModel};
use crate::text::concat;
use crate::usecases::world::World;
use vstd::prelude::*;
use vstd::string::*;

verus! {

/// Clones a repository to `{root}/{host}/{user}/{repo}+{branch}`.
pub struct CloneRepositoryUseCase<G: GitRepository, F: FileSystem, U: UserInteraction> {
    pub git: G,
    pub fs: F,
    pub ui: U,
}

/// `fs` after the directory that holds `dest` was made.
pub open spec fn with_parent(fs: FsModel, dest: PathModel) -> FsModel {
    match dest.parent() {
        Some(p) => fs.create_dir(p),
        None => fs,
    }
}

/// What cloning `url` for `branch` does to the world, and returns, once the
/// repository `info` was read from the URL.
///
/// The destination must be free, else the error is `AlreadyExists` and nothing
/// is done. Then its parent directory is made, git is asked to clone, and the
/// user is told where the clone is.
pub open spec fn clone_effect(
    w0: World,
    w1: World,
    root: PathModel,
    info: RepoModel,
    url: Seq<char>,
    branch: Seq<char>,
    r: Result<FsPath, GrmError>,
) -> bool {
    let dest = repo_path(root, info, branch);
    let asked = w0.with_fs(with_parent(w0.fs, dest)).called(
        GitCall::CloneRepository { url, destination: dest, branch: Some(branch) },
    );
    match r {
        Ok(p) => p@ == dest && !w0.fs.path_exists(dest) && w1 == asked.shown(
            "Repository cloned to: "@ + dest.render(),
        ),
        Err(GrmError::AlreadyExists(text)) => w1 == w0 && w0.fs.path_exists(dest) && text@
            == dest.render(),
        Err(GrmError::FileSystem(_)) => !w0.fs.path_exists(dest) && w1.calls == w0.calls
            && w1.events == w0.events,
        Err(GrmError::Git(_)) => !w0.fs.path_exists(dest) && w1 == asked,
        Err(_) => false,
    }
}

impl<G: GitRepository, F: FileSystem, U: UserInteraction> CloneRepositoryUseCase<G, F, U> {
    /// The world as the command sees it.
    pub open spec fn world(&self) -> World {
        World { fs: self.fs@, calls: self.git.calls(), events: self.ui.events() }
    }

    /// The command on what it needs.
    pub fn new(git: G, fs: F, ui: U) -> (r: Self)
        ensures
            r.git == git,
            r.fs == fs,
            r.ui == ui,
    {
        CloneRepositoryUseCase { git, fs, ui }
    }

    /// Clones `url`, the repository `repo_info`, for the branch `branch_name`.
    pub fn clone_branch(
        &mut self,
        config: &Config,
        url: &str,
        repo_info: &RepoInfo,
        branch_name: &str,
    ) -> (r: Result<FsPath, GrmError>)
        ensures
            clone_effect(
                old(self).world(),
                final(self).world(),
                config.root@,
                repo_info@,
                url@,
                branch_name@,
                r,
            ),
    {
        let dest_path = repo_info.build_repo_path(config.root(), branch_name);
        if holds_entry(&self.fs, &dest_path) {
            return Err(GrmError::AlreadyExists(dest_path.display()));
        }
        match dest_path.parent() {
            Some(parent) => {
                match self.fs.create_dir(&parent) {
                    Ok(()) => {},
                    Err(e) => {
                        return Err(GrmError::FileSystem(e));
                    },
                }
            },
            None => {},
        }
        match self.git.clone_repository(url, &dest_path, Some(branch_name)) {
            Ok(()) => {},
            Err(e) => {
                return Err(GrmError::Git(e));
            },
        }
        self.ui.print(concat("Repository cloned to: ", dest_path.display().as_str()).as_str());
        Ok(dest_path)
    }

    /// Clones `url` for `branch`, or for the branch that the remote has checked out
    /// where none is given, and returns where the clone is.
    ///
    /// A URL that names no repository gives `ParseFailed`, and nothing is done.
    pub fn execute(&mut self, config: &Config, url: &str, branch: Option<&str>) -> (r: Result<
        FsPath,
        GrmError,
    >)
        ensures
            match url_outcome(url@) {
                Err(text) => final(self).world() == old(self).world() && parse_failed(r, text),
                Ok(info) => match branch {
                    Some(b) => clone_effect(
                        old(self).world(),
                        final(self).world(),
                        config.root@,
                        info,
                        url@,
                        b@,
                        r,
                    ),
                    None => (r matches Err(GrmError::Git(_)) && final(self).world() == old(
                        self,
                    ).world().called(GitCall::DefaultBranch { url: url@ })) || exists|b: Seq<char>|
                        clone_effect(
                            old(self).world().called(GitCall::DefaultBranch { url: url@ }),
                            final(self).world(),
                            config.root@,
                            info,
                            url@,
                            b,
                            r,
                        ),
                },
            },
    {
        let repo_info = match RepoInfo::from_url(url) {
            Ok(info) => info,
            Err(e) => {
                return Err(GrmError::ParseFailed(e));
            },
        };
        match branch {
            Some(b) => self.clone_branch(config, url, &repo_info, b),
            None => {
                let branch_name = match self.git.get_default_branch(url) {
                    Ok(b) => b,
                    Err(e) => {
                        return Err(GrmError::Git(e));
                    },
                };
                let r = self.clone_branch(config, url, &repo_info, branch_name.as_str());
                proof {
                    assert(clone_effect(
                        old(self).world().called(GitCall::DefaultBranch { url: url@ }),
                        self.world(),
                        config.root@,
                        repo_info@,
                        url@,
                        branch_name@,
                        r,
                    ));
                }
                r
            },
        }
    }
}

} // verus!
