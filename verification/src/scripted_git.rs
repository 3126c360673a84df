//! A git that answers from a script.
//!
//! It is told beforehand what to answer, runs nothing, and remembers what it
//! was asked to clone and to add. It stands in for git where the library is
//! tried out.

use crate::path::{lemma_path_views_push, path_views, FsPath, PathModel};
use crate::ports::git_repository::{text_of, GitCall, GitError, GitRepository};
use crate::text::{concat, lemma_views_push, same_text, views};
use vstd::prelude::*;
use vstd::string::*;

verus! {

/// What a scripted git knows and remembers.
pub struct GitScript {
    /// The top directory of the worktree that the caller stands in.
    pub root: Option<PathModel>,
    /// The default branch of each remote, by URL; a later entry overrides an earlier one.
    pub default_branches: Seq<(Seq<char>, Seq<char>)>,
    /// The URL of the remote of each repository, by path; a later entry overrides an earlier one.
    pub remote_urls: Seq<(PathModel, Seq<char>)>,
    /// The local branches.
    pub local_branches: Seq<Seq<char>>,
    /// The branches of each remote: URL and branch.
    pub remote_branches: Seq<(Seq<char>, Seq<char>)>,
    /// The clones made: URL and destination, oldest first.
    pub cloned: Seq<(Seq<char>, PathModel)>,
    /// The worktrees added and not removed, oldest first.
    pub worktrees: Seq<PathModel>,
    /// Whether the next call fails.
    pub failing: bool,
}

/// The value filed last under `key`.
pub open spec fn latest<K, V>(pairs: Seq<(K, V)>, key: K) -> Option<V>
    decreases pairs.len(),
{
    if pairs.len() == 0 {
        None
    } else if pairs.last().0 == key {
        Some(pairs.last().1)
    } else {
        latest(pairs.drop_last(), key)
    }
}

/// The members of `list` other than `x`, in their order.
pub open spec fn others(list: Seq<PathModel>, x: PathModel) -> Seq<PathModel>
    decreases list.len(),
{
    if list.len() == 0 {
        Seq::empty()
    } else if list.last() == x {
        others(list.drop_last(), x)
    } else {
        others(list.drop_last(), x).push(list.last())
    }
}

/// The views of pairs of texts.
pub open spec fn text_pairs(v: Seq<(String, String)>) -> Seq<(Seq<char>, Seq<char>)> {
    v.map_values(|p: (String, String)| (p.0@, p.1@))
}

/// The views of pairs of a path and a text.
pub open spec fn path_texts(v: Seq<(FsPath, String)>) -> Seq<(PathModel, Seq<char>)> {
    v.map_values(|p: (FsPath, String)| (p.0@, p.1@))
}

/// The views of pairs of a text and a path.
pub open spec fn text_paths(v: Seq<(String, FsPath)>) -> Seq<(Seq<char>, PathModel)> {
    v.map_values(|p: (String, FsPath)| (p.0@, p.1@))
}

/// A git that answers from what it was told.
pub struct ScriptedGit {
    repo_root: Option<FsPath>,
    default_branches: Vec<(String, String)>,
    remote_urls: Vec<(FsPath, String)>,
    local_branches: Vec<String>,
    remote_branches: Vec<(String, String)>,
    cloned_repos: Vec<(String, FsPath)>,
    worktrees: Vec<FsPath>,
    force_error: Option<GitError>,
    calls: Ghost<Seq<GitCall>>,
}

/// The text filed last under `key` in `pairs`.
fn find_text(pairs: &Vec<(String, String)>, key: &str) -> (r: Option<String>)
    ensures
        match latest(text_pairs(pairs@), key@) {
            Some(v) => r matches Some(s) && s@ == v,
            None => r is None,
        },
{
    let mut i: usize = pairs.len();
    assert(text_pairs(pairs@).take(i as int) =~= text_pairs(pairs@));
    while i > 0
        invariant
            i <= pairs.len(),
            latest(text_pairs(pairs@), key@) == latest(text_pairs(pairs@).take(i as int), key@),
        decreases i,
    {
        proof {
            let cur = text_pairs(pairs@).take(i as int);
            assert(cur.drop_last() =~= text_pairs(pairs@).take(i - 1));
            assert(cur.last() == (pairs@[i - 1].0@, pairs@[i - 1].1@));
        }
        i = i - 1;
        if same_text(pairs[i].0.as_str(), key) {
            return Some(pairs[i].1.clone());
        }
    }
    None
}

/// The URL filed last under `path` in `pairs`.
fn find_url(pairs: &Vec<(FsPath, String)>, path: &FsPath) -> (r: Option<String>)
    ensures
        match latest(path_texts(pairs@), path@) {
            Some(v) => r matches Some(s) && s@ == v,
            None => r is None,
        },
{
    let mut i: usize = pairs.len();
    assert(path_texts(pairs@).take(i as int) =~= path_texts(pairs@));
    while i > 0
        invariant
            i <= pairs.len(),
            latest(path_texts(pairs@), path@) == latest(path_texts(pairs@).take(i as int), path@),
        decreases i,
    {
        proof {
            let cur = path_texts(pairs@).take(i as int);
            assert(cur.drop_last() =~= path_texts(pairs@).take(i - 1));
            assert(cur.last() == (pairs@[i - 1].0@, pairs@[i - 1].1@));
        }
        i = i - 1;
        if pairs[i].0.same_as(path) {
            return Some(pairs[i].1.clone());
        }
    }
    None
}

/// Whether `pairs` holds `value` under `key`.
fn has_pair(pairs: &Vec<(String, String)>, key: &str, value: &str) -> (r: bool)
    ensures
        r == text_pairs(pairs@).contains((key@, value@)),
{
    let mut i: usize = 0;
    while i < pairs.len()
        invariant
            i <= pairs.len(),
            forall|j: int| 0 <= j < i ==> #[trigger] text_pairs(pairs@)[j] != (key@, value@),
        decreases pairs.len() - i,
    {
        assert(text_pairs(pairs@)[i as int] == (pairs@[i as int].0@, pairs@[i as int].1@));
        if same_text(pairs[i].0.as_str(), key) && same_text(pairs[i].1.as_str(), value) {
            return true;
        }
        i = i + 1;
    }
    false
}

/// Whether `list` holds `text`.
fn has_text(list: &Vec<String>, text: &str) -> (r: bool)
    ensures
        r == views(list@).contains(text@),
{
    let mut i: usize = 0;
    while i < list.len()
        invariant
            i <= list.len(),
            forall|j: int| 0 <= j < i ==> #[trigger] views(list@)[j] != text@,
        decreases list.len() - i,
    {
        assert(views(list@)[i as int] == list@[i as int]@);
        if same_text(list[i].as_str(), text) {
            return true;
        }
        i = i + 1;
    }
    false
}

/// The members of `list` other than `path`.
fn without_path(list: &Vec<FsPath>, path: &FsPath) -> (r: Vec<FsPath>)
    ensures
        path_views(r@) == others(path_views(list@), path@),
{
    let mut kept: Vec<FsPath> = Vec::new();
    let mut i: usize = 0;
    assert(path_views(list@).take(0) =~= Seq::empty());
    assert(path_views(kept@) =~= Seq::empty());
    while i < list.len()
        invariant
            i <= list.len(),
            path_views(kept@) == others(path_views(list@).take(i as int), path@),
        decreases list.len() - i,
    {
        proof {
            let next = path_views(list@).take(i + 1);
            assert(next.drop_last() =~= path_views(list@).take(i as int));
            assert(next.last() == list@[i as int]@);
        }
        if !list[i].same_as(path) {
            proof {
                lemma_path_views_push(kept@, list@[i as int]);
            }
            kept.push(list[i].clone());
        }
        i = i + 1;
    }
    assert(path_views(list@).take(list.len() as int) =~= path_views(list@));
    kept
}

impl ScriptedGit {
    /// What the git knows and remembers.
    pub closed spec fn script(&self) -> GitScript {
        GitScript {
            root: match self.repo_root {
                Some(p) => Some(p@),
                None => None,
            },
            default_branches: text_pairs(self.default_branches@),
            remote_urls: path_texts(self.remote_urls@),
            local_branches: views(self.local_branches@),
            remote_branches: text_pairs(self.remote_branches@),
            cloned: text_paths(self.cloned_repos@),
            worktrees: path_views(self.worktrees@),
            failing: self.force_error is Some,
        }
    }

    /// A git that knows nothing and has been asked nothing.
    pub fn new() -> (r: Self)
        ensures
            r.calls() == Seq::<GitCall>::empty(),
            r.script() == (GitScript {
                root: None,
                default_branches: Seq::empty(),
                remote_urls: Seq::empty(),
                local_branches: Seq::empty(),
                remote_branches: Seq::empty(),
                cloned: Seq::empty(),
                worktrees: Seq::empty(),
                failing: false,
            }),
    {
        let r = ScriptedGit {
            repo_root: None,
            default_branches: Vec::new(),
            remote_urls: Vec::new(),
            local_branches: Vec::new(),
            remote_branches: Vec::new(),
            cloned_repos: Vec::new(),
            worktrees: Vec::new(),
            force_error: None,
            calls: Ghost(Seq::empty()),
        };
        proof {
            assert(r.script().default_branches =~= Seq::empty());
            assert(r.script().remote_urls =~= Seq::empty());
            assert(r.script().local_branches =~= Seq::empty());
            assert(r.script().remote_branches =~= Seq::empty());
            assert(r.script().cloned =~= Seq::empty());
            assert(r.script().worktrees =~= Seq::empty());
        }
        r
    }

    /// Sets the top directory of the worktree that the caller stands in.
    pub fn set_repo_root(&mut self, path: &FsPath)
        ensures
            final(self).calls() == old(self).calls(),
            final(self).script() == (GitScript { root: Some(path@), ..old(self).script() }),
    {
        self.repo_root = Some(path.clone());
    }

    /// Sets the branch that the remote at `url` has checked out.
    pub fn set_default_branch(&mut self, url: &str, branch: &str)
        ensures
            final(self).calls() == old(self).calls(),
            final(self).script() == (GitScript {
                default_branches: old(self).script().default_branches.push((url@, branch@)),
                ..old(self).script()
            }),
    {
        let pair = (String::from_str(url), String::from_str(branch));
        proof {
            assert(text_pairs(self.default_branches@.push(pair)) =~= text_pairs(
                self.default_branches@,
            ).push((url@, branch@)));
        }
        self.default_branches.push(pair);
    }

    /// Sets the URL of the remote that the repository at `repo_path` follows.
    pub fn set_remote_url(&mut self, repo_path: &FsPath, url: &str)
        ensures
            final(self).calls() == old(self).calls(),
            final(self).script() == (GitScript {
                remote_urls: old(self).script().remote_urls.push((repo_path@, url@)),
                ..old(self).script()
            }),
    {
        let pair = (repo_path.clone(), String::from_str(url));
        proof {
            assert(path_texts(self.remote_urls@.push(pair)) =~= path_texts(
                self.remote_urls@,
            ).push((repo_path@, url@)));
        }
        self.remote_urls.push(pair);
    }

    /// Makes a local branch known.
    pub fn add_local_branch(&mut self, branch: &str)
        ensures
            final(self).calls() == old(self).calls(),
            final(self).script() == (GitScript {
                local_branches: old(self).script().local_branches.push(branch@),
                ..old(self).script()
            }),
    {
        let b = String::from_str(branch);
        proof {
            lemma_views_push(self.local_branches@, b);
        }
        self.local_branches.push(b);
    }

    /// Makes a branch of the remote at `url` known.
    pub fn add_remote_branch(&mut self, url: &str, branch: &str)
        ensures
            final(self).calls() == old(self).calls(),
            final(self).script() == (GitScript {
                remote_branches: old(self).script().remote_branches.push((url@, branch@)),
                ..old(self).script()
            }),
    {
        let pair = (String::from_str(url), String::from_str(branch));
        proof {
            assert(text_pairs(self.remote_branches@.push(pair)) =~= text_pairs(
                self.remote_branches@,
            ).push((url@, branch@)));
        }
        self.remote_branches.push(pair);
    }

    /// Makes the next call fail with `error`.
    pub fn inject_error(&mut self, error: GitError)
        ensures
            final(self).calls() == old(self).calls(),
            final(self).script() == (GitScript { failing: true, ..old(self).script() }),
    {
        self.force_error = Some(error);
    }

    /// The clones made so far: URL and destination, oldest first.
    pub fn get_cloned_repos(&self) -> (r: Vec<(String, FsPath)>)
        ensures
            text_paths(r@) == self.script().cloned,
    {
        let mut r: Vec<(String, FsPath)> = Vec::new();
        let mut i: usize = 0;
        assert(text_paths(r@) =~= text_paths(self.cloned_repos@).take(0));
        while i < self.cloned_repos.len()
            invariant
                i <= self.cloned_repos.len(),
                text_paths(r@) == text_paths(self.cloned_repos@).take(i as int),
            decreases self.cloned_repos.len() - i,
        {
            let pair = (self.cloned_repos[i].0.clone(), self.cloned_repos[i].1.clone());
            proof {
                let all = text_paths(self.cloned_repos@);
                assert(text_paths(r@.push(pair)) =~= text_paths(r@).push((pair.0@, pair.1@)));
                assert(all.take(i + 1) =~= all.take(i as int).push(all[i as int]));
            }
            r.push(pair);
            i = i + 1;
        }
        assert(text_paths(self.cloned_repos@).take(self.cloned_repos.len() as int)
            =~= text_paths(self.cloned_repos@));
        r
    }

    /// The worktrees added and not removed, oldest first.
    pub fn get_worktrees(&self) -> (r: Vec<FsPath>)
        ensures
            path_views(r@) == self.script().worktrees,
    {
        let mut r: Vec<FsPath> = Vec::new();
        let mut i: usize = 0;
        assert(path_views(r@) =~= path_views(self.worktrees@).take(0));
        while i < self.worktrees.len()
            invariant
                i <= self.worktrees.len(),
                path_views(r@) == path_views(self.worktrees@).take(i as int),
            decreases self.worktrees.len() - i,
        {
            let w = self.worktrees[i].clone();
            proof {
                let all = path_views(self.worktrees@);
                lemma_path_views_push(r@, w);
                assert(all.take(i + 1) =~= all.take(i as int).push(all[i as int]));
            }
            r.push(w);
            i = i + 1;
        }
        assert(path_views(self.worktrees@).take(self.worktrees.len() as int) =~= path_views(
            self.worktrees@,
        ));
        r
    }

    /// Records a call and hands out the error that was put in, if any.
    fn begin(&mut self, Ghost(call): Ghost<GitCall>) -> (r: Result<(), GitError>)
        ensures
            final(self).calls() == old(self).calls().push(call),
            r is Err <==> old(self).script().failing,
            final(self).script() == (GitScript { failing: false, ..old(self).script() }),
    {
        self.calls = Ghost(self.calls@.push(call));
        match self.force_error.take() {
            Some(e) => Err(e),
            None => Ok(()),
        }
    }
}

impl GitRepository for ScriptedGit {
    closed spec fn calls(&self) -> Seq<GitCall> {
        self.calls@
    }

    /// Answers with the branch set last for `url`. Fails where an error was put
    /// in or no branch was set. An error that was put in is used up.
    fn get_default_branch(&mut self, url: &str) -> (r: Result<String, GitError>)
        ensures
            final(self).script() == (GitScript { failing: false, ..old(self).script() }),
            match latest(old(self).script().default_branches, url@) {
                Some(b) => !old(self).script().failing ==> (r matches Ok(s) && s@ == b),
                None => r is Err,
            },
            old(self).script().failing ==> r is Err,
    {
        match self.begin(Ghost(GitCall::DefaultBranch { url: url@ })) {
            Ok(()) => {},
            Err(e) => {
                return Err(e);
            },
        }
        match find_text(&self.default_branches, url) {
            Some(b) => Ok(b),
            None => Err(GitError::Parse(concat("No default branch configured for ", url))),
        }
    }

    /// Answers with the root that was set. Fails where an error was put in or no
    /// root was set. An error that was put in is used up.
    fn get_repository_root(&mut self) -> (r: Result<FsPath, GitError>)
        ensures
            final(self).script() == (GitScript { failing: false, ..old(self).script() }),
            match old(self).script().root {
                Some(p) => !old(self).script().failing ==> (r matches Ok(q) && q@ == p),
                None => r is Err,
            },
            old(self).script().failing ==> r is Err,
    {
        match self.begin(Ghost(GitCall::RepositoryRoot)) {
            Ok(()) => {},
            Err(e) => {
                return Err(e);
            },
        }
        match &self.repo_root {
            Some(p) => Ok(p.clone()),
            None => Err(GitError::Parse(String::from_str("No repository root configured"))),
        }
    }

    /// Answers with the URL set last for `repo_path`. Fails where an error was put
    /// in or no URL was set. An error that was put in is used up.
    fn get_remote_url(&mut self, repo_path: &FsPath) -> (r: Result<String, GitError>)
        ensures
            final(self).script() == (GitScript { failing: false, ..old(self).script() }),
            match latest(old(self).script().remote_urls, repo_path@) {
                Some(u) => !old(self).script().failing ==> (r matches Ok(s) && s@ == u),
                None => r is Err,
            },
            old(self).script().failing ==> r is Err,
    {
        match self.begin(Ghost(GitCall::RemoteUrl { repo_path: repo_path@ })) {
            Ok(()) => {},
            Err(e) => {
                return Err(e);
            },
        }
        match find_url(&self.remote_urls, repo_path) {
            Some(url) => Ok(url),
            None => Err(
                GitError::Parse(
                    concat("No remote URL configured for ", repo_path.display().as_str()),
                ),
            ),
        }
    }

    /// Tells whether the branch was made known. Fails exactly where an error was
    /// put in, which is used up.
    fn local_branch_exists(&mut self, branch: &str) -> (r: Result<bool, GitError>)
        ensures
            final(self).script() == (GitScript { failing: false, ..old(self).script() }),
            r is Err <==> old(self).script().failing,
            r matches Ok(b) ==> b == old(self).script().local_branches.contains(branch@),
    {
        match self.begin(Ghost(GitCall::LocalBranchExists { branch: branch@ })) {
            Ok(()) => {},
            Err(e) => {
                return Err(e);
            },
        }
        Ok(has_text(&self.local_branches, branch))
    }

    /// Tells whether the branch of the remote was made known. Fails exactly where
    /// an error was put in, which is used up.
    fn remote_branch_exists(&mut self, remote_url: &str, branch: &str) -> (r: Result<
        bool,
        GitError,
    >)
        ensures
            final(self).script() == (GitScript { failing: false, ..old(self).script() }),
            r is Err <==> old(self).script().failing,
            r matches Ok(b) ==> b == old(self).script().remote_branches.contains(
                (remote_url@, branch@),
            ),
    {
        match self.begin(
            Ghost(GitCall::RemoteBranchExists { remote_url: remote_url@, branch: branch@ }),
        ) {
            Ok(()) => {},
            Err(e) => {
                return Err(e);
            },
        }
        Ok(has_pair(&self.remote_branches, remote_url, branch))
    }

    /// Remembers the clone. Fails exactly where an error was put in, which is
    /// used up; nothing is remembered then.
    fn clone_repository(&mut self, url: &str, destination: &FsPath, branch: Option<&str>) -> (r:
        Result<(), GitError>)
        ensures
            r is Err <==> old(self).script().failing,
            final(self).script() == if old(self).script().failing {
                GitScript { failing: false, ..old(self).script() }
            } else {
                GitScript {
                    cloned: old(self).script().cloned.push((url@, destination@)),
                    ..old(self).script()
                }
            },
    {
        match self.begin(
            Ghost(
                GitCall::CloneRepository {
                    url: url@,
                    destination: destination@,
                    branch: text_of(branch),
                },
            ),
        ) {
            Ok(()) => {},
            Err(e) => {
                return Err(e);
            },
        }
        let pair = (String::from_str(url), destination.clone());
        proof {
            assert(text_paths(self.cloned_repos@.push(pair)) =~= text_paths(
                self.cloned_repos@,
            ).push((url@, destination@)));
        }
        self.cloned_repos.push(pair);
        Ok(())
    }

    /// Remembers the worktree, and the branch where it is new. Fails exactly where
    /// an error was put in, which is used up; nothing is remembered then.
    fn add_worktree(&mut self, worktree_path: &FsPath, branch: &str, create_new: bool) -> (r:
        Result<(), GitError>)
        ensures
            r is Err <==> old(self).script().failing,
            final(self).script() == if old(self).script().failing {
                GitScript { failing: false, ..old(self).script() }
            } else {
                GitScript {
                    worktrees: old(self).script().worktrees.push(worktree_path@),
                    local_branches: if create_new {
                        old(self).script().local_branches.push(branch@)
                    } else {
                        old(self).script().local_branches
                    },
                    ..old(self).script()
                }
            },
    {
        match self.begin(
            Ghost(
                GitCall::AddWorktree { worktree_path: worktree_path@, branch: branch@, create_new },
            ),
        ) {
            Ok(()) => {},
            Err(e) => {
                return Err(e);
            },
        }
        let w = worktree_path.clone();
        proof {
            lemma_path_views_push(self.worktrees@, w);
        }
        self.worktrees.push(w);
        if create_new {
            let b = String::from_str(branch);
            proof {
                lemma_views_push(self.local_branches@, b);
            }
            self.local_branches.push(b);
        }
        Ok(())
    }

    /// Forgets the worktree. Fails exactly where an error was put in, which is
    /// used up; nothing is forgotten then.
    fn remove_worktree(&mut self, worktree_path: &FsPath) -> (r: Result<(), GitError>)
        ensures
            r is Err <==> old(self).script().failing,
            final(self).script() == if old(self).script().failing {
                GitScript { failing: false, ..old(self).script() }
            } else {
                GitScript {
                    worktrees: others(old(self).script().worktrees, worktree_path@),
                    ..old(self).script()
                }
            },
    {
        match self.begin(Ghost(GitCall::RemoveWorktree { worktree_path: worktree_path@ })) {
            Ok(()) => {},
            Err(e) => {
                return Err(e);
            },
        }
        self.worktrees = without_path(&self.worktrees, worktree_path);
        Ok(())
    }
}

} // verus!
