//! Finding the repositories below a root directory.
//!
//! A directory is a repository when it holds an entry named `.git`. The scan
//! walks down from the root through directories that are neither symbolic
//! links nor repositories, and reports every repository that it meets. It
//! never looks inside one.

use crate::path::{
    lemma_path_views_push, lemma_selected, lemma_selected_member, lemma_selected_push,
    path_views, selected, FsPath, PathModel,
};
use crate::ports::file_system::{FileSystem, FileSystemError, FsModel};
use crate::repo_info::{repo_path, RepoInfo, RepoModel};
use crate::text::{concat, starts_with};
use crate::walk::{is_reported, lemma_reported_apart, walk, WalkMode};
use vstd::prelude::*;
use vstd::string::*;

verus! {

/// Why a scan was given up.
#[derive(Debug)]
pub enum ScanError {
    Io(String),
}

impl ScanError {
    /// The text that the error carries.
    pub open spec fn detail(&self) -> Seq<char> {
        match self {
            ScanError::Io(m) => m@,
        }
    }

    /// The text of `message`.
    pub open spec fn text(&self) -> Seq<char> {
        "IO error during scanning: "@ + self.detail()
    }

    /// The error as a line of text.
    pub fn message(&self) -> (r: String)
        ensures
            r@ == self.text(),
    {
        match self {
            ScanError::Io(m) => concat("IO error during scanning: ", m.as_str()),
        }
    }
}

/// Whether the error carries the words of a failure of the file system.
pub open spec fn carries_failure(e: ScanError) -> bool {
    exists|f: FileSystemError| e.detail() == f.text()
}

/// Whether the scan from `root` reports `p`: a directory that is no symbolic link
/// and holds an entry named `.git`, reached from `root` through directories that
/// are neither symbolic links nor repositories.
pub open spec fn is_scanned(m: FsModel, root: PathModel, p: PathModel) -> bool {
    is_reported(m, WalkMode::Repositories, root, p)
}

/// The repositories below `root`.
pub open spec fn repositories(m: FsModel, root: PathModel) -> Set<PathModel> {
    Set::new(|p: PathModel| is_scanned(m, root, p))
}

/// The text that the path of every worktree of `info` begins with:
/// `{root}/{host}/{user}/{repo}+`.
pub open spec fn worktree_prefix(root: PathModel, info: RepoModel) -> Seq<char> {
    repo_path(root, info, Seq::empty()).render()
}

/// Whether `p` is reported as a worktree of `info`: a repository below `root`
/// whose text begins with the worktree prefix of `info`.
pub open spec fn is_worktree(m: FsModel, root: PathModel, info: RepoModel, p: PathModel) -> bool {
    is_scanned(m, root, p) && worktree_prefix(root, info).is_prefix_of(p.render())
}

/// The worktrees of `info` below `root`.
pub open spec fn worktrees(m: FsModel, root: PathModel, info: RepoModel) -> Set<PathModel> {
    Set::new(|p: PathModel| is_worktree(m, root, info, p))
}

/// No repository that a scan reports lies inside another.
pub proof fn lemma_repositories_apart(m: FsModel, root: PathModel, p: PathModel, q: PathModel)
    requires
        is_scanned(m, root, p),
        is_scanned(m, root, q),
        q.is_under(p),
    ensures
        p == q,
{
    lemma_reported_apart(m, WalkMode::Repositories, root, p, q);
}

/// The test that the text of a path begins with `prefix`.
spec fn begins_with(prefix: Seq<char>) -> spec_fn(PathModel) -> bool {
    |q: PathModel| prefix.is_prefix_of(q.render())
}

/// Walks the tree below a root directory and reports its repositories.
pub struct RepoScanner<'a, F: FileSystem> {
    fs: &'a F,
}

impl<'a, F: FileSystem> RepoScanner<'a, F> {
    /// The file system that the scanner reads.
    pub closed spec fn file_system(&self) -> &F {
        self.fs
    }

    /// A scanner that reads `fs`.
    pub fn new(fs: &'a F) -> (r: Self)
        ensures
            r.file_system() == fs,
    {
        RepoScanner { fs }
    }

    /// Finds the repositories below `root`, each once, in no particular order.
    ///
    /// Symbolic links are never followed, and a repository is not looked into.
    /// The scan is given up when a directory cannot be read; on a dependable file
    /// system that is so exactly where `root` is no directory.
    pub fn scan_repositories(&self, root: &FsPath) -> (r: Result<Vec<FsPath>, ScanError>)
        ensures
            r matches Ok(v) ==> (path_views(v@).no_duplicates() && path_views(v@).to_set()
                == repositories(self.file_system()@, root@)),
            self.file_system().is_dependable() ==> (r is Ok <==> self.file_system()@.is_dir(
                root@,
            )),
            r matches Err(e) ==> carries_failure(e),
    {
        match walk(self.fs, WalkMode::Repositories, root) {
            Ok(pair) => {
                proof {
                    assert(path_views(pair.0@).to_set() =~= repositories(self.fs@, root@));
                }
                Ok(pair.0)
            },
            Err(e) => Err(ScanError::Io(e.message())),
        }
    }

    /// Finds the worktrees of `repo_info` below `root`: the repositories whose path,
    /// as text, begins with `{root}/{host}/{user}/{repo}+`.
    pub fn scan_worktrees(&self, root: &FsPath, repo_info: &RepoInfo) -> (r: Result<
        Vec<FsPath>,
        ScanError,
    >)
        ensures
            r matches Ok(v) ==> (path_views(v@).no_duplicates() && path_views(v@).to_set()
                == worktrees(self.file_system()@, root@, repo_info@)),
            self.file_system().is_dependable() ==> (r is Ok <==> self.file_system()@.is_dir(
                root@,
            )),
            r matches Err(e) ==> carries_failure(e),
    {
        let all = match self.scan_repositories(root) {
            Ok(all) => all,
            Err(e) => {
                return Err(e);
            },
        };
        let prefix = repo_info.build_repo_path(root, "").display();
        proof {
            reveal_strlit("");
            assert(""@ =~= Seq::<char>::empty());
        }
        let ghost m = self.fs@;
        let ghost av = path_views(all@);
        let ghost keep = begins_with(prefix@);
        let mut repos: Vec<FsPath> = Vec::new();
        let mut i: usize = 0;
        assert(av.take(0) =~= Seq::empty());
        while i < all.len()
            invariant
                i <= all.len(),
                av == path_views(all@),
                av.len() == all.len(),
                keep == begins_with(prefix@),
                path_views(repos@) == selected(av.take(i as int), keep),
            decreases all.len() - i,
        {
            let path = &all[i];
            proof {
                assert(path@ == av[i as int]);
                assert(av.take(i + 1) =~= av.take(i as int).push(av[i as int]));
                lemma_selected_push(av.take(i as int), av[i as int], keep);
            }
            if starts_with(path.display().as_str(), prefix.as_str()) {
                proof {
                    lemma_path_views_push(repos@, *path);
                }
                repos.push(path.clone());
            }
            i = i + 1;
        }
        proof {
            assert(av.take(av.len() as int) =~= av);
            let rv = path_views(repos@);
            lemma_selected(av, keep);
            assert forall|p: PathModel| rv.to_set().contains(p) <==> worktrees(
                m,
                root@,
                repo_info@,
            ).contains(p) by {
                lemma_selected_member(av, keep, p);
                assert(av.contains(p) <==> av.to_set().contains(p));
            }
            assert(rv.to_set() =~= worktrees(m, root@, repo_info@));
        }
        Ok(repos)
    }
}

} // verus!
