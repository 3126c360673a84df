//! Removing a repository: all of its worktrees.

use crate::configs::Config;
use crate::errors::{parse_failed, GrmError};
use crate::path::{lemma_push_to_set, parse_path, path_views, FsPath, PathModel};
use crate::ports::file_system::{FileSystem, FsModel};
use crate::ports::user_interaction::{UiEvent, UserInteraction};
use crate::repo_info::{url_outcome, RepoInfo, RepoModel};
use crate::repo_scanner::{worktrees, RepoScanner};
use crate::text::{concat, decimal, decimal_text};
use crate::usecases::world::{go_ahead, labelled, prints, show_each};
use vstd::prelude::*;
use vstd::string::*;

verus! {

/// Removes every worktree of a repository, after asking.
pub struct RemoveRepositoryUseCase<F: FileSystem, U: UserInteraction> {
    pub fs: F,
    pub ui: U,
}

/// Whether `q` is a member of `places` or lies below one.
pub open spec fn is_inside(places: Set<PathModel>, q: PathModel) -> bool {
    exists|c: PathModel| #[trigger] places.contains(c) && q.is_under(c)
}

/// `s` after each of `places` was removed with all that lay below it.
pub open spec fn without_trees(s: FsModel, places: Set<PathModel>) -> FsModel {
    s.with_entries(
        Map::new(
            |q: PathModel| s.entries.contains_key(q) && !is_inside(places, q),
            |q: PathModel| s.entries[q],
        ),
    )
}

/// What the user is shown and asked before the repositories `order` are removed:
/// nothing where `force` holds.
pub open spec fn removal_prompt(order: Seq<PathModel>, force: bool) -> Seq<UiEvent> {
    if force {
        Seq::empty()
    } else {
        (seq![UiEvent::Print("The following repositories will be deleted:"@)] + prints(
            labelled("  - "@, order),
        )).push(UiEvent::Print(Seq::empty())).push(UiEvent::Confirm("Do you want to continue?"@))
    }
}

/// What the user is told after `n` repositories were removed.
pub open spec fn removed_text(n: nat) -> Seq<char> {
    "\nSuccessfully removed "@ + decimal(n) + " repository(ies)."@
}

/// The directory in which the worktrees of `info` are looked for.
pub open spec fn searched_path(root: PathModel, info: RepoModel) -> PathModel {
    root.join(parse_path(info.host)).join(parse_path(info.user))
}

/// Whether `order` holds the worktrees of `info` below `root`, each once.
pub open spec fn lists_worktrees(
    fs: FsModel,
    root: PathModel,
    info: RepoModel,
    order: Seq<PathModel>,
) -> bool {
    order.no_duplicates() && order.to_set() == worktrees(fs, root, info)
}

/// What removing the repository that `url` names does, and returns: to a file
/// system that was `fs0` and is `fs1`, and a user who had been shown `ev0` and
/// has now been shown `ev1`.
pub open spec fn remove_effect(
    fs0: FsModel,
    fs1: FsModel,
    ev0: Seq<UiEvent>,
    ev1: Seq<UiEvent>,
    root: PathModel,
    url: Seq<char>,
    force: bool,
    r: Result<(), GrmError>,
) -> bool {
    match url_outcome(url) {
        Err(text) => fs1 == fs0 && ev1 == ev0 && parse_failed(r, text),
        Ok(info) => match r {
            Ok(()) => exists|order: Seq<PathModel>|
                {
                    &&& lists_worktrees(fs0, root, info, order)
                    &&& order.len() > 0
                    &&& fs1 == without_trees(fs0, order.to_set())
                    &&& ev1 == (ev0 + removal_prompt(order, force) + prints(
                        labelled("Removed: "@, order),
                    )).push(UiEvent::Print(removed_text(order.len())))
                },
            Err(GrmError::UnmanagedRepository { url: u, searched_path: p }) => {
                &&& fs1 == fs0
                &&& ev1 == ev0
                &&& worktrees(fs0, root, info) == Set::<PathModel>::empty()
                &&& u@ == url
                &&& p@ == searched_path(root, info).render()
            },
            Err(GrmError::UserCancelled) => !force && fs1 == fs0 && exists|order: Seq<PathModel>|
                {
                    &&& lists_worktrees(fs0, root, info, order)
                    &&& order.len() > 0
                    &&& ev1 == ev0 + removal_prompt(order, force)
                },
            Err(GrmError::Scan(_)) => fs1 == fs0 && ev1 == ev0,
            Err(GrmError::Interaction(_)) => fs1 == fs0,
            Err(GrmError::FileSystem(_)) => true,
            Err(_) => false,
        },
    }
}

/// How removing a repository ends.
pub enum Removal {
    /// The URL names no repository.
    Refused,
    /// The root could not be scanned.
    ScanFailed,
    /// The repository has no worktree below the root.
    Unmanaged,
    /// The user said no.
    Cancelled,
    /// The worktrees were removed.
    Removed,
}

/// How removing the repository that `url` names ends on a dependable file
/// system, for a user whose answer is `answer` where it is known beforehand.
/// Where the user is asked and the answer is not known, the ending is open.
pub open spec fn removal_ending(
    fs: FsModel,
    root: PathModel,
    url: Seq<char>,
    force: bool,
    answer: Option<bool>,
) -> Option<Removal> {
    match url_outcome(url) {
        Err(_) => Some(Removal::Refused),
        Ok(info) => if !fs.is_dir(root) {
            Some(Removal::ScanFailed)
        } else if worktrees(fs, root, info) == Set::<PathModel>::empty() {
            Some(Removal::Unmanaged)
        } else if force {
            Some(Removal::Removed)
        } else {
            match answer {
                Some(yes) => Some(
                    if yes {
                        Removal::Removed
                    } else {
                        Removal::Cancelled
                    },
                ),
                None => None,
            }
        },
    }
}

/// Removing one more tree, after the trees of `done`.
proof fn lemma_remove_step(s: FsModel, done: Set<PathModel>, c: PathModel)
    ensures
        without_trees(s, done).remove(c) == without_trees(s, done.insert(c)),
        without_trees(s, Set::empty()) == s,
        without_trees(s, done).is_symlink(c) ==> s.is_symlink(c),
{
    let a = without_trees(s, done).remove(c);
    let y = without_trees(s, done.insert(c));
    assert forall|q: PathModel|
        #[trigger] a.entries.dom().contains(q) == y.entries.dom().contains(q) && (
        a.entries.dom().contains(q) ==> a.entries[q] == y.entries[q]) by {
        if is_inside(done.insert(c), q) {
            let w = choose|w: PathModel| #[trigger] done.insert(c).contains(w) && q.is_under(w);
            if w != c {
                assert(done.contains(w));
            }
        }
        if is_inside(done, q) {
            let w = choose|w: PathModel| #[trigger] done.contains(w) && q.is_under(w);
            assert(done.insert(c).contains(w));
        }
        if q.is_under(c) {
            assert(done.insert(c).contains(c));
        }
    }
    assert(a.entries =~= y.entries);
    assert forall|q: PathModel| !is_inside(Set::empty(), q) by {}
    assert(without_trees(s, Set::empty()).entries =~= s.entries);
}

impl<F: FileSystem, U: UserInteraction> RemoveRepositoryUseCase<F, U> {
    /// The command on what it needs.
    pub fn new(fs: F, ui: U) -> (r: Self)
        ensures
            r.fs == fs,
            r.ui == ui,
    {
        RemoveRepositoryUseCase { fs, ui }
    }

    /// Shows the user what is about to be removed and asks whether to go on;
    /// asks nothing and says yes where `force` holds.
    pub fn prompt_confirmation(&mut self, repositories: &Vec<FsPath>, force: bool) -> (r: Result<
        bool,
        GrmError,
    >)
        ensures
            final(self).fs == old(self).fs,
            final(self).ui.events() == old(self).ui.events() + removal_prompt(
                path_views(repositories@),
                force,
            ),
            r matches Err(e) ==> e is Interaction,
            force ==> r == Ok::<bool, GrmError>(true),
            !force ==> (old(self).ui.next_answer() matches Some(b) ==> r == Ok::<bool, GrmError>(
                b,
            )),
    {
        if force {
            assert(old(self).ui.events() + removal_prompt(path_views(repositories@), force)
                =~= old(self).ui.events());
            return Ok(true);
        }
        self.ui.print("The following repositories will be deleted:");
        show_each(&mut self.ui, "  - ", repositories);
        self.ui.print("");
        let answer = self.ui.confirm("Do you want to continue?");
        proof {
            reveal_strlit("");
            assert(""@ =~= Seq::<char>::empty());
            assert(self.ui.events() =~= old(self).ui.events() + removal_prompt(
                path_views(repositories@),
                force,
            ));
        }
        match answer {
            Ok(yes) => Ok(yes),
            Err(e) => Err(GrmError::Interaction(e)),
        }
    }

    /// Removes each of `repositories` with all that lies below it, and tells the
    /// user of each. None of them may be a symbolic link.
    fn remove_repositories(&mut self, repositories: &Vec<FsPath>) -> (r: Result<(), GrmError>)
        requires
            forall|i: int|
                0 <= i < repositories.len() ==> !old(self).fs@.is_symlink(
                    #[trigger] path_views(repositories@)[i],
                ),
        ensures
            r matches Err(e) ==> e is FileSystem,
            final(self).fs.is_dependable() == old(self).fs.is_dependable(),
            old(self).fs.is_dependable() ==> r is Ok,
            r is Ok ==> final(self).fs@ == without_trees(
                old(self).fs@,
                path_views(repositories@).to_set(),
            ) && final(self).ui.events() == old(self).ui.events() + prints(
                labelled("Removed: "@, path_views(repositories@)),
            ),
    {
        let ghost s = self.fs@;
        let ghost order = path_views(repositories@);
        let ghost lines = labelled("Removed: "@, order);
        let mut i: usize = 0;
        proof {
            lemma_remove_step(s, Set::empty(), order[0]);
            assert(order.take(0).to_set() =~= Set::empty());
            assert(old(self).ui.events() + prints(lines.take(0)) =~= old(self).ui.events());
        }
        while i < repositories.len()
            invariant
                i <= repositories.len(),
                order == path_views(repositories@),
                order.len() == repositories.len(),
                lines == labelled("Removed: "@, order),
                forall|i: int| 0 <= i < order.len() ==> !s.is_symlink(#[trigger] order[i]),
                self.fs@ == without_trees(s, order.take(i as int).to_set()),
                self.fs.is_dependable() == old(self).fs.is_dependable(),
                self.ui.events() == old(self).ui.events() + prints(lines.take(i as int)),
            decreases repositories.len() - i,
        {
            let repo = &repositories[i];
            proof {
                assert(repo@ == order[i as int]);
                lemma_remove_step(s, order.take(i as int).to_set(), order[i as int]);
                assert(order.take(i + 1) =~= order.take(i as int).push(order[i as int]));
                lemma_push_to_set(order.take(i as int), order[i as int]);
            }
            if self.fs.is_symlink(repo) {
                let mut text = concat("Warning: Skipping symlink: ", repo.display().as_str());
                text.append(" (unexpected, should have been filtered)");
                self.ui.print_error(text.as_str());
            } else {
                match self.fs.remove(repo) {
                    Ok(()) => {},
                    Err(e) => {
                        return Err(GrmError::FileSystem(e));
                    },
                }
                let line = concat("Removed: ", repo.display().as_str());
                proof {
                    assert(line@ == lines[i as int]);
                    assert(prints(lines.take(i + 1)) =~= prints(lines.take(i as int)).push(
                        UiEvent::Print(lines[i as int]),
                    ));
                    assert(old(self).ui.events() + prints(lines.take(i as int)).push(
                        UiEvent::Print(lines[i as int]),
                    ) =~= (old(self).ui.events() + prints(lines.take(i as int))).push(
                        UiEvent::Print(lines[i as int]),
                    ));
                }
                self.ui.print(line.as_str());
            }
            i = i + 1;
        }
        proof {
            assert(order.take(order.len() as int) =~= order);
            assert(lines.take(lines.len() as int) =~= lines);
        }
        Ok(())
    }

    /// Removes every worktree of the repository that `url` names.
    ///
    /// A URL that names no repository gives `ParseFailed`; a repository without
    /// worktrees below the root gives `UnmanagedRepository`. Unless `force`
    /// holds, the user is shown the worktrees and asked; a no gives
    /// `UserCancelled` and nothing is removed. Then each worktree is removed
    /// with all that lies in it, and the user is told of each and of their number.
    ///
    /// Where the file system is dependable and the answer is known beforehand,
    /// `removal_ending` says how it ends.
    pub fn execute(&mut self, config: &Config, url: &str, force: bool) -> (r: Result<(), GrmError>)
        ensures
            remove_effect(
                old(self).fs@,
                final(self).fs@,
                old(self).ui.events(),
                final(self).ui.events(),
                config.root@,
                url@,
                force,
                r,
            ),
            old(self).fs.is_dependable() ==> !(r matches Err(GrmError::FileSystem(_))) && (
            r matches Err(GrmError::Scan(_)) <==> url_outcome(url@) is Ok && !old(self).fs@.is_dir(
                config.root@,
            )),
            old(self).fs.is_dependable() ==> match removal_ending(
                old(self).fs@,
                config.root@,
                url@,
                force,
                old(self).ui.next_answer(),
            ) {
                Some(Removal::Refused) => r matches Err(GrmError::ParseFailed(_)),
                Some(Removal::ScanFailed) => r matches Err(GrmError::Scan(_)),
                Some(Removal::Unmanaged) => r matches Err(GrmError::UnmanagedRepository { .. }),
                Some(Removal::Cancelled) => r matches Err(GrmError::UserCancelled),
                Some(Removal::Removed) => r is Ok,
                None => true,
            },
    {
        let root = config.root();
        let repo_info = match RepoInfo::from_url(url) {
            Ok(info) => info,
            Err(e) => {
                return Err(GrmError::ParseFailed(e));
            },
        };
        let matching = match RepoScanner::new(&self.fs).scan_worktrees(root, &repo_info) {
            Ok(m) => m,
            Err(e) => {
                return Err(GrmError::Scan(e));
            },
        };
        let ghost order = path_views(matching@);
        if matching.len() == 0 {
            let searched = root.join_str(repo_info.host.as_str()).join_str(
                repo_info.user.as_str(),
            );
            proof {
                assert(order.to_set() =~= Set::empty());
            }
            return Err(
                GrmError::UnmanagedRepository {
                    url: String::from_str(url),
                    searched_path: searched.display(),
                },
            );
        }
        proof {
            assert(lists_worktrees(old(self).fs@, config.root@, repo_info@, order));
            assert(order.contains(order[0]));
            assert(worktrees(old(self).fs@, config.root@, repo_info@).contains(order[0]));
        }
        let answer = self.prompt_confirmation(&matching, force);
        match go_ahead(answer) {
            Ok(()) => {},
            Err(e) => {
                return Err(e);
            },
        }
        proof {
            assert forall|i: int| 0 <= i < order.len() implies !self.fs@.is_symlink(
                #[trigger] order[i],
            ) by {
                assert(order.contains(order[i]));
                assert(order.to_set().contains(order[i]));
            }
        }
        match self.remove_repositories(&matching) {
            Ok(()) => {},
            Err(e) => {
                return Err(e);
            },
        }
        let mut text = String::from_str("\nSuccessfully removed ");
        text.append(decimal_text(matching.len()).as_str());
        text.append(" repository(ies).");
        self.ui.print(text.as_str());
        proof {
            assert(lists_worktrees(old(self).fs@, config.root@, repo_info@, order));
        }
        Ok(())
    }
}

} // verus!
