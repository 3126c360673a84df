//! Giving one worktree its own copy of a shared file.

use crate::configs::Config;
use crate::errors::{parse_failed, GrmError};
use crate::path::{parse_path, FsPath, PathModel};
use crate::ports::file_system::FileSystem;
use crate::ports::git_repository::{GitCall, GitRepository};
use crate::ports::user_interaction::UserInteraction;
use crate::repo_info::{path_outcome, RepoInfo};
use crate::shared_resource::{ending, isolate_outcome, isolate_post, SharedResource};
use crate::text::concat;
use crate::usecases::world::World;
use vstd::prelude::*;
use vstd::string::*;

verus! {

/// Replaces the link to a shared file by a copy, in the worktree that the caller stands in.
pub struct IsolateFilesUseCase<G: GitRepository, F: FileSystem, U: UserInteraction> {
    pub git: G,
    pub fs: F,
    pub ui: U,
}

/// What isolating `path` in the worktree at `repo_root` does to the world, and returns.
///
/// The worktree's path must name a repository below the root, else nothing is
/// done. Then the file is isolated; the user is told where that went well.
pub open spec fn isolate_effect(
    w0: World,
    w1: World,
    root: PathModel,
    repo_root: PathModel,
    path: Seq<char>,
    r: Result<(), GrmError>,
) -> bool {
    match path_outcome(root, repo_root) {
        Err(text) => w1 == w0 && parse_failed(r, text),
        Ok(info) => isolate_post(w0.fs, w1.fs, root, info, repo_root, parse_path(path), r)
            && w1.calls == w0.calls && w1.events == if r is Ok {
            w0.shown("Isolated "@ + path).events
        } else {
            w0.events
        },
    }
}

impl<G: GitRepository, F: FileSystem, U: UserInteraction> IsolateFilesUseCase<G, F, U> {
    /// The world as the command sees it.
    pub open spec fn world(&self) -> World {
        World { fs: self.fs@, calls: self.git.calls(), events: self.ui.events() }
    }

    /// The command on what it needs.
    pub fn new(git: G, fs: F, ui: U) -> (r: Self)
        ensures
            r.git == git,
            r.fs == fs,
            r.ui == ui,
    {
        IsolateFilesUseCase { git, fs, ui }
    }

    /// Isolates the file that `path_str` names from the current directory, in the
    /// worktree at `repo_root`.
    pub fn isolate_in(&mut self, config: &Config, repo_root: &FsPath, path_str: &str) -> (r: Result<
        (),
        GrmError,
    >)
        ensures
            isolate_effect(
                old(self).world(),
                final(self).world(),
                config.root@,
                repo_root@,
                path_str@,
                r,
            ),
            final(self).fs.is_dependable() == old(self).fs.is_dependable(),
            old(self).fs.is_dependable() ==> match path_outcome(config.root@, repo_root@) {
                Ok(info) => (ending(r), final(self).fs@) == ({
                    let end = isolate_outcome(
                        old(self).fs@,
                        config.root@,
                        info,
                        repo_root@,
                        parse_path(path_str@),
                    );
                    (Some(end.0), end.1)
                }),
                Err(_) => true,
            },
    {
        let relative_path = FsPath::new(path_str);
        let repo_info = match RepoInfo::from_path(config.root(), repo_root) {
            Ok(info) => info,
            Err(e) => {
                return Err(GrmError::ParseFailed(e));
            },
        };
        let resource = SharedResource::new(repo_info, config.root().clone());
        match resource.isolate(&mut self.fs, repo_root, &relative_path) {
            Ok(()) => {},
            Err(e) => {
                return Err(e);
            },
        }
        self.ui.print(concat("Isolated ", path_str).as_str());
        Ok(())
    }

    /// Isolates the file that `path_str` names from the current directory, in the
    /// worktree that git finds the caller in.
    ///
    /// Where git finds none, the error is `NotInManagedRepository` and nothing is done.
    pub fn execute(&mut self, config: &Config, path_str: &str) -> (r: Result<(), GrmError>)
        ensures
            match r {
                Err(GrmError::NotInManagedRepository) => final(self).world() == old(
                    self,
                ).world().called(GitCall::RepositoryRoot),
                _ => exists|repo_root: PathModel|
                    isolate_effect(
                        old(self).world().called(GitCall::RepositoryRoot),
                        final(self).world(),
                        config.root@,
                        repo_root,
                        path_str@,
                        r,
                    ),
            },
    {
        let repo_root = match self.git.get_repository_root() {
            Ok(p) => p,
            Err(_) => {
                return Err(GrmError::NotInManagedRepository);
            },
        };
        let r = self.isolate_in(config, &repo_root, path_str);
        proof {
            assert(isolate_effect(
                old(self).world().called(GitCall::RepositoryRoot),
                self.world(),
                config.root@,
                repo_root@,
                path_str@,
                r,
            ));
        }
        r
    }
}

} // verus!
