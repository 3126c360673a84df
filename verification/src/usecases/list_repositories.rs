//! Listing the repositories below the root.

use crate::configs::Config;
use crate::errors::GrmError;
use crate::path::{path_views, FsPath, PathModel};
use crate::path_order::{is_sorted, sorted_paths};
use crate::ports::file_system::{holds_entry, FileSystem, FsModel};
use crate::ports::user_interaction::{UiEvent, UserInteraction};
use crate::repo_scanner::{repositories, RepoScanner};
use crate::usecases::world::prints;
use vstd::prelude::*;
use vstd::string::*;

verus! {

/// Shows the user the repositories below the root, in order.
pub struct ListRepositoriesUseCase<F: FileSystem, U: UserInteraction> {
    pub fs: F,
    pub ui: U,
}

/// The line that stands for the repository `p`: its whole path, or its path below
/// the root where that is asked for and it lies below the root.
pub open spec fn listed_text(root: PathModel, p: PathModel, full_path: bool) -> Seq<char> {
    if full_path {
        p.render()
    } else {
        match p.strip_prefix(root) {
            Some(rel) => rel.render(),
            None => p.render(),
        }
    }
}

/// The lines that stand for the repositories `order`.
pub open spec fn listed_lines(root: PathModel, order: Seq<PathModel>, full_path: bool) -> Seq<
    Seq<char>,
> {
    order.map_values(|p: PathModel| listed_text(root, p, full_path))
}

/// Whether `order` holds the repositories below `root`, each once, in order.
pub open spec fn lists_repositories(fs: FsModel, root: PathModel, order: Seq<PathModel>) -> bool {
    is_sorted(order) && order.no_duplicates() && order.to_set() == repositories(fs, root)
}

/// What the user is shown for the repositories below `root`: one line for each,
/// in order, or that there is nothing where the root does not exist or holds none.
pub open spec fn is_listing_of(
    fs: FsModel,
    root: PathModel,
    full_path: bool,
    shown: Seq<UiEvent>,
) -> bool {
    if !fs.path_exists(root) || repositories(fs, root) == Set::<PathModel>::empty() {
        shown == seq![UiEvent::Print("Nothing to display"@)]
    } else {
        exists|order: Seq<PathModel>|
            lists_repositories(fs, root, order) && shown == prints(
                listed_lines(root, order, full_path),
            )
    }
}

impl<F: FileSystem, U: UserInteraction> ListRepositoriesUseCase<F, U> {
    /// The command on what it needs.
    pub fn new(fs: F, ui: U) -> (r: Self)
        ensures
            r.fs == fs,
            r.ui == ui,
    {
        ListRepositoriesUseCase { fs, ui }
    }

    /// Shows each of `repositories` on a line of its own.
    fn show(ui: &mut U, root: &FsPath, repositories: &Vec<FsPath>, full_path: bool)
        ensures
            final(ui).events() == old(ui).events() + prints(
                listed_lines(root@, path_views(repositories@), full_path),
            ),
    {
        let ghost lines = listed_lines(root@, path_views(repositories@), full_path);
        let mut i: usize = 0;
        assert(old(ui).events() + prints(lines.take(0)) =~= old(ui).events());
        while i < repositories.len()
            invariant
                i <= repositories.len(),
                lines == listed_lines(root@, path_views(repositories@), full_path),
                lines.len() == repositories.len(),
                ui.events() == old(ui).events() + prints(lines.take(i as int)),
            decreases repositories.len() - i,
        {
            let repo = &repositories[i];
            let line = if full_path {
                repo.display()
            } else {
                match repo.strip_prefix(root) {
                    Some(relative) => relative.display(),
                    None => repo.display(),
                }
            };
            proof {
                assert(line@ == lines[i as int]);
                assert(prints(lines.take(i + 1)) =~= prints(lines.take(i as int)).push(
                    UiEvent::Print(lines[i as int]),
                ));
                assert(old(ui).events() + prints(lines.take(i as int)).push(
                    UiEvent::Print(lines[i as int]),
                ) =~= (old(ui).events() + prints(lines.take(i as int))).push(
                    UiEvent::Print(lines[i as int]),
                ));
            }
            ui.print(line.as_str());
            i = i + 1;
        }
        assert(lines.take(lines.len() as int) =~= lines);
    }

    /// Shows the repositories below the root of `config`, in order, by their path
    /// below the root or, where `full_path` holds, by their whole path.
    ///
    /// Fails where the scan of the root fails; nothing was shown then.
    pub fn execute(&mut self, config: &Config, full_path: bool) -> (r: Result<(), GrmError>)
        ensures
            final(self).fs == old(self).fs,
            match r {
                Ok(()) => exists|shown: Seq<UiEvent>|
                    is_listing_of(old(self).fs@, config.root@, full_path, shown)
                        && final(self).ui.events() == old(self).ui.events() + shown,
                Err(GrmError::Scan(_)) => old(self).fs@.path_exists(config.root@)
                    && final(self).ui.events() == old(self).ui.events(),
                Err(_) => false,
            },
            old(self).fs.is_dependable() ==> (r is Err <==> old(self).fs@.path_exists(config.root@)
                && !old(self).fs@.is_dir(config.root@)),
    {
        let root = config.root();
        let ghost nothing = seq![UiEvent::Print("Nothing to display"@)];
        if !holds_entry(&self.fs, root) {
            self.ui.print("Nothing to display");
            proof {
                assert(self.ui.events() =~= old(self).ui.events() + nothing);
                assert(is_listing_of(self.fs@, root@, full_path, nothing));
            }
            return Ok(());
        }
        let found = match RepoScanner::new(&self.fs).scan_repositories(root) {
            Ok(found) => found,
            Err(e) => {
                return Err(GrmError::Scan(e));
            },
        };
        if found.len() == 0 {
            self.ui.print("Nothing to display");
            proof {
                assert(path_views(found@).to_set() =~= Set::empty());
                assert(self.ui.events() =~= old(self).ui.events() + nothing);
                assert(is_listing_of(self.fs@, root@, full_path, nothing));
            }
            return Ok(());
        }
        let sorted = sorted_paths(&found);
        proof {
            let fv = path_views(found@);
            let order = path_views(sorted@);
            fv.lemma_multiset_has_no_duplicates();
            order.lemma_multiset_has_no_duplicates_conv();
            assert forall|p: PathModel| order.to_set().contains(p) <==> fv.to_set().contains(
                p,
            ) by {
                vstd::seq_lib::to_multiset_contains(order, p);
                vstd::seq_lib::to_multiset_contains(fv, p);
            }
            assert(order.to_set() =~= fv.to_set());
            assert(fv.to_set().contains(fv[0]));
            assert(lists_repositories(self.fs@, root@, order));
        }
        ListRepositoriesUseCase::<F, U>::show(&mut self.ui, root, &sorted, full_path);
        proof {
            let shown = prints(listed_lines(root@, path_views(sorted@), full_path));
            assert(is_listing_of(self.fs@, root@, full_path, shown));
        }
        Ok(())
    }
}

} // verus!
