//! Sharing a file with the other worktrees.

use crate::configs::Config;
use crate::errors::{parse_failed, GrmError};
use crate::path::{parse_path, path_views, FsPath, PathModel};
use crate::ports::file_system::{holds_entry, FileSystem};
use crate::ports::git_repository::{GitCall, GitRepository};
use crate::ports::user_interaction::{UiEvent, UserInteraction};
use crate::repo_info::{path_outcome, RepoInfo, RepoModel};
use crate::shared_resource::{
    conflict_set, conflicts_outcome, ending, locate, share_outcome, share_post, Ending,
    SharedResource,
};
use crate::text::concat;
use crate::usecases::world::{go_ahead, labelled, prints, show_each, World};
use vstd::prelude::*;
use vstd::string::*;

verus! {

/// Shares a file of the worktree that the caller stands in with every worktree of
/// the repository, after asking where that overwrites something.
pub struct ShareFilesUseCase<G: GitRepository, F: FileSystem, U: UserInteraction> {
    pub git: G,
    pub fs: F,
    pub ui: U,
}

/// What the user is shown and asked before the files at `order` are overwritten:
/// nothing where there are none.
pub open spec fn overwrite_prompt(order: Seq<PathModel>) -> Seq<UiEvent> {
    if order.len() == 0 {
        Seq::empty()
    } else {
        (seq![UiEvent::Print("The following files will be overwritten:"@)] + prints(
            labelled("  "@, order),
        )).push(UiEvent::Confirm("Do you want to continue?"@))
    }
}

/// Whether `order` lists what stands in the way of sharing `path`, each once.
pub open spec fn lists_conflicts(
    fs: crate::ports::file_system::FsModel,
    root: PathModel,
    info: RepoModel,
    repo_root: PathModel,
    path: Seq<char>,
    order: Seq<PathModel>,
) -> bool {
    order.no_duplicates() && match locate(fs, root, info, repo_root, parse_path(path)) {
        Some(t) => order.to_set() == conflict_set(fs, root, info, t),
        None => false,
    }
}

/// What sharing `path` from the worktree at `repo_root` does to the world, and returns.
///
/// The worktree's path must name a repository below the root, else nothing is
/// done. The file must exist, else the error is `NotFound`. Where sharing
/// overwrites files in other worktrees, the user is shown them and asked; a
/// no gives `UserCancelled` and leaves the files alone. Then the file is
/// shared and the user is told.
pub open spec fn share_effect(
    w0: World,
    w1: World,
    root: PathModel,
    repo_root: PathModel,
    path: Seq<char>,
    r: Result<(), GrmError>,
) -> bool {
    match path_outcome(root, repo_root) {
        Err(text) => w1 == w0 && parse_failed(r, text),
        Ok(info) => w1.calls == w0.calls && match r {
            Ok(()) => w0.fs.path_exists(w0.fs.current_dir.join(parse_path(path))) && share_post(
                w0.fs,
                w1.fs,
                root,
                info,
                repo_root,
                parse_path(path),
                r,
            ) && exists|order: Seq<PathModel>|
                lists_conflicts(w0.fs, root, info, repo_root, path, order) && w1.events
                    == (w0.events + overwrite_prompt(order)).push(
                    UiEvent::Print("Shared "@ + path + " across worktrees"@),
                ),
            Err(GrmError::UserCancelled) => w1.fs == w0.fs && exists|order: Seq<PathModel>|
                lists_conflicts(w0.fs, root, info, repo_root, path, order) && order.len() > 0
                    && w1.events == w0.events + overwrite_prompt(order),
            Err(GrmError::NotFound(m)) => w1.fs == w0.fs && if !w0.fs.path_exists(
                w0.fs.current_dir.join(parse_path(path)),
            ) {
                m@ == "File/Directory not found: "@ + path && w1.events == w0.events
            } else {
                match locate(w0.fs, root, info, repo_root, parse_path(path)) {
                    None => m@ == "prefix not found"@ && w1.events == w0.events,
                    Some(t) => !w0.fs.path_exists(t.file) && m@ == "File/Directory not found: "@
                        + parse_path(path).render() && exists|order: Seq<PathModel>|
                        lists_conflicts(w0.fs, root, info, repo_root, path, order) && w1.events
                            == w0.events + overwrite_prompt(order),
                }
            },
            Err(GrmError::FileSystem(_)) => true,
            Err(GrmError::Scan(_)) => true,
            Err(GrmError::Interaction(_)) => w1.fs == w0.fs && exists|order: Seq<PathModel>|
                lists_conflicts(w0.fs, root, info, repo_root, path, order) && order.len() > 0
                    && w1.events == w0.events + overwrite_prompt(order),
            Err(_) => false,
        },
    }
}

/// Whether sharing `path` from the worktree at `repo_root` gets as far as
/// asking the user, on a dependable file system: the worktree is one of a
/// repository, the file exists, and the look for what stands in the way finds
/// something.
pub open spec fn asks_to_overwrite(
    fs: crate::ports::file_system::FsModel,
    root: PathModel,
    repo_root: PathModel,
    path: Seq<char>,
) -> bool {
    match path_outcome(root, repo_root) {
        Ok(info) => {
            &&& fs.path_exists(fs.current_dir.join(parse_path(path)))
            &&& conflicts_outcome(fs, root, info, repo_root, parse_path(path)) is Done
            &&& match locate(fs, root, info, repo_root, parse_path(path)) {
                Some(t) => conflict_set(fs, root, info, t) != Set::<PathModel>::empty(),
                None => false,
            }
        },
        Err(_) => false,
    }
}

/// What the user's answer, known beforehand, makes of sharing `path` on a
/// dependable file system that is `fs`, where the user is asked: a no ends it
/// as cancelled, and after a yes it ends as `share` ends.
pub open spec fn share_answered(
    dependable: bool,
    fs: crate::ports::file_system::FsModel,
    answer: Option<bool>,
    root: PathModel,
    repo_root: PathModel,
    path: Seq<char>,
    r: Result<(), GrmError>,
) -> bool {
    dependable && asks_to_overwrite(fs, root, repo_root, path) ==> match answer {
        Some(yes) => if yes {
            path_outcome(root, repo_root) matches Ok(info) && ending(r) == Some(
                share_outcome(fs, root, info, repo_root, parse_path(path)).0,
            )
        } else {
            r matches Err(GrmError::UserCancelled)
        },
        None => true,
    }
}

impl<G: GitRepository, F: FileSystem, U: UserInteraction> ShareFilesUseCase<G, F, U> {
    /// The world as the command sees it.
    pub open spec fn world(&self) -> World {
        World { fs: self.fs@, calls: self.git.calls(), events: self.ui.events() }
    }

    /// The command on what it needs.
    pub fn new(git: G, fs: F, ui: U) -> (r: Self)
        ensures
            r.git == git,
            r.fs == fs,
            r.ui == ui,
    {
        ShareFilesUseCase { git, fs, ui }
    }

    /// Shows the user what would be overwritten and asks whether to go on.
    fn ask(ui: &mut U, conflicts: &Vec<FsPath>) -> (r: Result<bool, GrmError>)
        ensures
            final(ui).events() == old(ui).events() + overwrite_prompt(path_views(conflicts@)),
            r matches Err(e) ==> e is Interaction,
            conflicts.len() == 0 ==> r == Ok::<bool, GrmError>(true),
            conflicts.len() > 0 ==> (old(ui).next_answer() matches Some(b) ==> r == Ok::<
                bool,
                GrmError,
            >(b)),
    {
        if conflicts.len() == 0 {
            assert(old(ui).events() + overwrite_prompt(path_views(conflicts@)) =~= old(ui).events());
            return Ok(true);
        }
        ui.print("The following files will be overwritten:");
        show_each(ui, "  ", conflicts);
        let answer = ui.confirm("Do you want to continue?");
        proof {
            let order = path_views(conflicts@);
            assert(ui.events() =~= old(ui).events() + overwrite_prompt(order));
        }
        match answer {
            Ok(yes) => Ok(yes),
            Err(e) => Err(GrmError::Interaction(e)),
        }
    }

    /// Shares the file that `path_str` names from the current directory, from the
    /// worktree at `repo_root`.
    pub fn share_in(&mut self, config: &Config, repo_root: &FsPath, path_str: &str) -> (r: Result<
        (),
        GrmError,
    >)
        ensures
            share_effect(
                old(self).world(),
                final(self).world(),
                config.root@,
                repo_root@,
                path_str@,
                r,
            ),
            share_answered(
                old(self).fs.is_dependable(),
                old(self).fs@,
                old(self).ui.next_answer(),
                config.root@,
                repo_root@,
                path_str@,
                r,
            ),
    {
        let repo_info = match RepoInfo::from_path(config.root(), repo_root) {
            Ok(info) => info,
            Err(e) => {
                return Err(GrmError::ParseFailed(e));
            },
        };
        let ghost info = repo_info@;
        let relative_path = FsPath::new(path_str);
        let current_dir = match self.fs.current_dir() {
            Ok(d) => d,
            Err(e) => {
                return Err(GrmError::FileSystem(e));
            },
        };
        let absolute_source_path = current_dir.join(&relative_path);
        if !holds_entry(&self.fs, &absolute_source_path) {
            return Err(GrmError::NotFound(concat("File/Directory not found: ", path_str)));
        }
        let resource = SharedResource::new(repo_info, config.root().clone());
        let conflicts = match resource.conflicts(&self.fs, repo_root, &relative_path) {
            Ok(c) => c,
            Err(e) => {
                return Err(e);
            },
        };
        let ghost order = path_views(conflicts@);
        assert(lists_conflicts(
            old(self).world().fs,
            config.root@,
            info,
            repo_root@,
            path_str@,
            order,
        ));
        proof {
            if conflicts.len() > 0 {
                assert(order.contains(order[0]));
                assert(order.to_set().contains(order[0]));
            } else {
                assert(order.to_set() =~= Set::<PathModel>::empty());
            }
        }
        let answer = ShareFilesUseCase::<G, F, U>::ask(&mut self.ui, &conflicts);
        match go_ahead(answer) {
            Ok(()) => {},
            Err(e) => {
                return Err(e);
            },
        }
        match resource.share(&mut self.fs, repo_root, &relative_path) {
            Ok(()) => {},
            Err(e) => {
                return Err(e);
            },
        }
        let mut text = concat("Shared ", path_str);
        text.append(" across worktrees");
        self.ui.print(text.as_str());
        Ok(())
    }

    /// Shares the file that `path_str` names from the current directory, from the
    /// worktree that git finds the caller in.
    ///
    /// Where git finds none, the error is `NotInManagedRepository` and nothing is done.
    pub fn execute(&mut self, config: &Config, path_str: &str) -> (r: Result<(), GrmError>)
        ensures
            match r {
                Err(GrmError::NotInManagedRepository) => final(self).world() == old(
                    self,
                ).world().called(GitCall::RepositoryRoot),
                _ => exists|repo_root: PathModel|
                    share_effect(
                        old(self).world().called(GitCall::RepositoryRoot),
                        final(self).world(),
                        config.root@,
                        repo_root,
                        path_str@,
                        r,
                    ) && share_answered(
                        old(self).fs.is_dependable(),
                        old(self).fs@,
                        old(self).ui.next_answer(),
                        config.root@,
                        repo_root,
                        path_str@,
                        r,
                    ),
            },
    {
        let repo_root = match self.git.get_repository_root() {
            Ok(p) => p,
            Err(_) => {
                return Err(GrmError::NotInManagedRepository);
            },
        };
        let r = self.share_in(config, &repo_root, path_str);
        proof {
            assert(share_effect(
                old(self).world().called(GitCall::RepositoryRoot),
                self.world(),
                config.root@,
                repo_root@,
                path_str@,
                r,
            ) && share_answered(
                old(self).fs.is_dependable(),
                old(self).fs@,
                old(self).ui.next_answer(),
                config.root@,
                repo_root@,
                path_str@,
                r,
            ));
        }
        r
    }
}

} // verus!
