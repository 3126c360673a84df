//! Sharing files between the worktrees of one repository.
//!
//! A shared file lives once, in shared storage, and every worktree of the
//! repository holds a symbolic link to it at the place where the file was.
//! All operations work on a file system that the caller hands in, and state
//! what they did to it over its model.

use crate::errors::GrmError;
use crate::path::{
    lemma_path_views_push, lemma_push_to_set, lemma_selected, lemma_selected_member,
    lemma_selected_push, lemma_under, path_views, selected, FsPath, PathModel,
};
use crate::ports::file_system::{
    holds_entry, normalized, rebase, FileSystem, FileSystemError, FsModel, NodeModel,
};
use crate::repo_info::{shared_path, RepoInfo, RepoModel};
use crate::repo_scanner::{is_worktree, lemma_repositories_apart, worktrees, RepoScanner};
use crate::text::concat;
use crate::walk::{is_entered, is_reported, lemma_reported_apart, walk, WalkMode};
use vstd::prelude::*;
use vstd::string::*;

verus! {

/// The places that an operation on one file of a worktree speaks of.
pub struct Located {
    /// The file itself, as an absolute path.
    pub file: PathModel,
    /// The file's path below the top of its worktree.
    pub rel: PathModel,
    /// The file's place in shared storage.
    pub shared: PathModel,
}

/// The places of the file that the caller names by `relative`, a path that starts
/// at the current directory, if it lies in the worktree at `repo_root`.
pub open spec fn locate(
    m: FsModel,
    root: PathModel,
    info: RepoModel,
    repo_root: PathModel,
    relative: PathModel,
) -> Option<Located> {
    let file = normalized(relative, m.current_dir, m.home_dir);
    match file.strip_prefix(repo_root) {
        Some(rel) => Some(Located { file, rel, shared: shared_path(root, info, rel) }),
        None => None,
    }
}

/// The worktree that would hold `c` at `rel`: `c` without as many components as `rel` has.
pub open spec fn site_owner(c: PathModel, rel: PathModel) -> PathModel {
    c.prefix(c.parts.len() - rel.parts.len())
}

/// Whether `c` is the place of `rel` in some worktree of `info`.
pub open spec fn is_site(
    m: FsModel,
    root: PathModel,
    info: RepoModel,
    rel: PathModel,
    c: PathModel,
) -> bool {
    &&& c.parts.len() >= rel.parts.len()
    &&& c == site_owner(c, rel).join(rel)
    &&& is_worktree(m, root, info, site_owner(c, rel))
}

/// The places of `rel` in the worktrees of `info`.
pub open spec fn sites(m: FsModel, root: PathModel, info: RepoModel, rel: PathModel) -> Set<
    PathModel,
> {
    Set::new(|c: PathModel| is_site(m, root, info, rel, c))
}

/// Whether `q` lies below a member of `places` at which something lies in `s`.
pub open spec fn is_cleared(s: FsModel, places: Set<PathModel>, q: PathModel) -> bool {
    exists|c: PathModel| #[trigger] places.contains(c) && q.is_below(c) && s.path_exists(c)
}

/// `s` after each of `places` was replaced by a symbolic link: what lay at a
/// place and below it is gone, and the place holds a link to `target_of` it.
pub open spec fn relinked(
    s: FsModel,
    places: Set<PathModel>,
    target_of: spec_fn(PathModel) -> PathModel,
) -> FsModel {
    s.with_entries(
        Map::new(
            |q: PathModel|
                places.contains(q) || (s.entries.contains_key(q) && !is_cleared(s, places, q)),
            |q: PathModel|
                if places.contains(q) {
                    NodeModel::Symlink { target: target_of(q) }
                } else {
                    s.entries[q]
                },
        ),
    )
}

/// Whether no member of `places` lies at or below another.
spec fn lie_apart(places: Seq<PathModel>) -> bool {
    forall|i: int, j: int|
        0 <= i < places.len() && 0 <= j < places.len() && i != j ==> !(
        #[trigger] places[i]).is_under(#[trigger] places[j])
}

/// What one more place clears.
proof fn lemma_cleared_insert(s: FsModel, done: Set<PathModel>, c: PathModel, q: PathModel)
    ensures
        is_cleared(s, done.insert(c), q) <==> is_cleared(s, done, q) || (q.is_below(c)
            && s.path_exists(c)),
{
    if is_cleared(s, done.insert(c), q) {
        let w = choose|w: PathModel|
            #[trigger] done.insert(c).contains(w) && q.is_below(w) && s.path_exists(w);
        if w != c {
            assert(done.contains(w));
        }
    }
    if is_cleared(s, done, q) {
        let w = choose|w: PathModel|
            #[trigger] done.contains(w) && q.is_below(w) && s.path_exists(w);
        assert(done.insert(c).contains(w));
    }
    if q.is_below(c) && s.path_exists(c) {
        assert(done.insert(c).contains(c));
    }
}

/// Replacing one more place by a link, after the places of `done`.
proof fn lemma_relink_step(
    s: FsModel,
    done: Set<PathModel>,
    c: PathModel,
    target_of: spec_fn(PathModel) -> PathModel,
)
    requires
        !done.contains(c),
        forall|d: PathModel| done.contains(d) ==> !c.is_under(d) && !d.is_under(c),
    ensures
        relinked(s, done, target_of).path_exists(c) == s.path_exists(c),
        s.path_exists(c) ==> relinked(s, done, target_of).remove(c).create_symlink(
            target_of(c),
            c,
        ) == relinked(s, done.insert(c), target_of),
        !s.path_exists(c) ==> relinked(s, done, target_of).create_symlink(target_of(c), c)
            == relinked(s, done.insert(c), target_of),
{
    let x = relinked(s, done, target_of);
    let y = relinked(s, done.insert(c), target_of);
    assert(!is_cleared(s, done, c));
    assert forall|q: PathModel| q.is_under(c) && q != c implies q.is_below(c) by {
        lemma_under(q, c, c);
    }
    let a = if s.path_exists(c) {
        x.remove(c).create_symlink(target_of(c), c)
    } else {
        x.create_symlink(target_of(c), c)
    };
    assert forall|q: PathModel|
        #[trigger] a.entries.dom().contains(q) == y.entries.dom().contains(q) && (
        a.entries.dom().contains(q) ==> a.entries[q] == y.entries[q]) by {
        if q == c {
            assert(done.insert(c).contains(c));
        } else if done.contains(q) {
            assert(done.insert(c).contains(q));
            assert(!q.is_under(c));
        } else {
            assert(!done.insert(c).contains(q));
            lemma_cleared_insert(s, done, c, q);
            if q.is_under(c) {
                assert(q.is_below(c));
            }
        }
    }
    assert(a.entries =~= y.entries);
}

/// Replacing by links with no places at all changes nothing.
proof fn lemma_relinked_none(s: FsModel, target_of: spec_fn(PathModel) -> PathModel)
    ensures
        relinked(s, Set::empty(), target_of) == s,
{
    let y = relinked(s, Set::empty(), target_of);
    assert forall|q: PathModel| !is_cleared(s, Set::empty(), q) by {}
    assert(y.entries =~= s.entries);
}

/// Puts a symbolic link at each of `places`, to the member of `targets` at the same
/// position, in place of whatever lies there.
fn relink<F: FileSystem>(
    fs: &mut F,
    places: &Vec<FsPath>,
    targets: &Vec<FsPath>,
    Ghost(target_of): Ghost<spec_fn(PathModel) -> PathModel>,
) -> (r: Result<(), FileSystemError>)
    requires
        places.len() == targets.len(),
        lie_apart(path_views(places@)),
        forall|i: int|
            0 <= i < places.len() ==> (#[trigger] targets@[i])@ == target_of(places@[i]@),
    ensures
        r is Ok ==> final(fs)@ == relinked(old(fs)@, path_views(places@).to_set(), target_of),
        final(fs).is_dependable() == old(fs).is_dependable(),
        old(fs).is_dependable() ==> r is Ok,
{
    let ghost s = fs@;
    let ghost pv = path_views(places@);
    let mut i: usize = 0;
    proof {
        lemma_relinked_none(s, target_of);
        assert(pv.take(0).to_set() =~= Set::empty());
    }
    while i < places.len()
        invariant
            i <= places.len(),
            places.len() == targets.len(),
            pv == path_views(places@),
            pv.len() == places.len(),
            lie_apart(pv),
            forall|i: int|
                0 <= i < places.len() ==> (#[trigger] targets@[i])@ == target_of(places@[i]@),
            fs@ == relinked(s, pv.take(i as int).to_set(), target_of),
            fs.is_dependable() == old(fs).is_dependable(),
        decreases places.len() - i,
    {
        let place = &places[i];
        let ghost done = pv.take(i as int).to_set();
        proof {
            assert(place@ == pv[i as int]);
            assert forall|d: PathModel| done.contains(d) implies d != place@
                && !place@.is_under(d) && !d.is_under(place@) by {
                let j = choose|j: int| 0 <= j < i && pv.take(i as int)[j] == d;
                assert(pv[j] == d);
                lemma_under(d, d, d);
            }
            lemma_relink_step(s, done, place@, target_of);
            assert(pv.take(i + 1) =~= pv.take(i as int).push(pv[i as int]));
            lemma_push_to_set(pv.take(i as int), pv[i as int]);
        }
        if fs.path_exists(place) || fs.is_symlink(place) {
            match fs.remove(place) {
                Ok(()) => {},
                Err(e) => {
                    return Err(e);
                },
            }
        }
        match fs.create_symlink(&targets[i], place) {
            Ok(()) => {},
            Err(e) => {
                return Err(e);
            },
        }
        i = i + 1;
    }
    assert(pv.take(pv.len() as int) =~= pv);
    Ok(())
}

/// The place of `rel` in the worktree `w` is a site, and `w` is its owner.
proof fn lemma_site_of(m: FsModel, root: PathModel, info: RepoModel, rel: PathModel, w: PathModel)
    requires
        !rel.absolute,
    ensures
        site_owner(w.join(rel), rel) == w,
        is_worktree(m, root, info, w) ==> is_site(m, root, info, rel, w.join(rel)),
{
    let c = w.join(rel);
    assert(c.parts.take(c.parts.len() - rel.parts.len()) =~= w.parts);
}

/// The places of one file in two worktrees do not lie inside each other.
proof fn lemma_sites_apart(
    m: FsModel,
    root: PathModel,
    info: RepoModel,
    rel: PathModel,
    c1: PathModel,
    c2: PathModel,
)
    requires
        !rel.absolute,
        is_site(m, root, info, rel, c1),
        is_site(m, root, info, rel, c2),
        c1.is_under(c2),
    ensures
        c1 == c2,
{
    let w1 = site_owner(c1, rel);
    let w2 = site_owner(c2, rel);
    lemma_under(c1, c2, c2);
    assert(w1.is_under(w2)) by {
        assert(w1.parts.subrange(0, w2.parts.len() as int) =~= w2.parts) by {
            assert forall|i: int| 0 <= i < w2.parts.len() implies w1.parts[i] == w2.parts[i] by {
                assert(c1.parts.subrange(0, c2.parts.len() as int)[i] == c2.parts[i]);
            }
        }
    }
    lemma_repositories_apart(m, root, w2, w1);
}

/// The places of one file in the worktrees of a repository, listed worktree by
/// worktree, lie apart and are the sites of the file.
proof fn lemma_worktree_sites(
    m: FsModel,
    root: PathModel,
    info: RepoModel,
    rel: PathModel,
    ws: Seq<PathModel>,
    sv: Seq<PathModel>,
)
    requires
        !rel.absolute,
        ws.no_duplicates(),
        ws.to_set() == worktrees(m, root, info),
        sv.len() == ws.len(),
        forall|i: int| 0 <= i < ws.len() ==> #[trigger] sv[i] == ws[i].join(rel),
    ensures
        lie_apart(sv),
        sv.no_duplicates(),
        sv.to_set() == sites(m, root, info, rel),
{
    assert forall|i: int| 0 <= i < sv.len() implies is_site(m, root, info, rel, #[trigger] sv[i])
        && site_owner(sv[i], rel) == ws[i] by {
        lemma_site_of(m, root, info, rel, ws[i]);
        assert(ws.contains(ws[i]));
        assert(ws.to_set().contains(ws[i]));
    }
    assert forall|i: int, j: int|
        0 <= i < sv.len() && 0 <= j < sv.len() && i != j implies !(#[trigger] sv[i]).is_under(
        #[trigger] sv[j],
    ) by {
        if sv[i].is_under(sv[j]) {
            lemma_sites_apart(m, root, info, rel, sv[i], sv[j]);
            assert(ws[i] == ws[j]);
        }
    }
    assert forall|i: int, j: int|
        0 <= i < sv.len() && 0 <= j < sv.len() && i != j implies sv[i] != sv[j] by {
        lemma_under(sv[i], sv[i], sv[i]);
    }
    assert forall|c: PathModel| sv.to_set().contains(c) <==> sites(m, root, info, rel).contains(
        c,
    ) by {
        if sv.contains(c) {
            let i = choose|i: int| 0 <= i < sv.len() && sv[i] == c;
            assert(is_site(m, root, info, rel, sv[i]));
        }
        if is_site(m, root, info, rel, c) {
            let w = site_owner(c, rel);
            assert(ws.to_set().contains(w));
            assert(ws.contains(w));
            let i = choose|i: int| 0 <= i < ws.len() && ws[i] == w;
            assert(sv[i] == c);
        }
    }
    assert(sv.to_set() =~= sites(m, root, info, rel));
}

/// The function that gives every place the same target.
pub open spec fn always(target: PathModel) -> spec_fn(PathModel) -> PathModel {
    |q: PathModel| target
}

/// `m` made ready to take the file of `t` into shared storage: the directory that
/// holds its place there is made, and what lay at the place is removed.
pub open spec fn made_ready(m: FsModel, t: Located) -> FsModel {
    let s1 = match t.shared.parent() {
        Some(p) => m.create_dir(p),
        None => m,
    };
    if s1.path_exists(t.shared) {
        s1.remove(t.shared)
    } else {
        s1
    }
}

/// `m` after the file of `t` was moved into shared storage, in place of what lay there.
pub open spec fn stored(m: FsModel, t: Located) -> FsModel {
    made_ready(m, t).rename(t.file, t.shared)
}

/// `m` after the file of `t` was shared. Nothing changes where the file is a
/// symbolic link already. Otherwise the file is moved into shared storage,
/// and then every worktree that the repository has holds, at the file's place,
/// a link to it and nothing else.
pub open spec fn shared_state(m: FsModel, root: PathModel, info: RepoModel, t: Located) -> FsModel {
    if m.is_symlink(t.file) {
        m
    } else {
        let s = stored(m, t);
        relinked(s, sites(s, root, info, t.rel), always(t.shared))
    }
}

/// Whether `c` stands in the way of sharing the file of `t`: it is the file's place
/// in a worktree, it is not the file itself, and something lies there.
pub open spec fn is_conflict(
    m: FsModel,
    root: PathModel,
    info: RepoModel,
    t: Located,
    c: PathModel,
) -> bool {
    is_site(m, root, info, t.rel, c) && c != t.file && m.path_exists(c)
}

/// What stands in the way of sharing the file of `t`: nothing as long as shared
/// storage holds no such file, else what lies at the file's place in the other worktrees.
pub open spec fn conflict_set(m: FsModel, root: PathModel, info: RepoModel, t: Located) -> Set<
    PathModel,
> {
    if m.path_exists(t.shared) {
        Set::new(|c: PathModel| is_conflict(m, root, info, t, c))
    } else {
        Set::empty()
    }
}

/// The test that something other than `file` lies at a place.
spec fn lies_elsewhere(m: FsModel, file: PathModel) -> spec_fn(PathModel) -> bool {
    |c: PathModel| c != file && m.path_exists(c)
}

/// The test that a symbolic link lies at a place.
spec fn holds_link(m: FsModel) -> spec_fn(PathModel) -> bool {
    |c: PathModel| m.is_symlink(c)
}

/// The places of `rel` in the worktrees of `info` at which a symbolic link lies.
pub open spec fn linked_sites(m: FsModel, root: PathModel, info: RepoModel, rel: PathModel) -> Set<
    PathModel,
> {
    Set::new(|c: PathModel| is_site(m, root, info, rel, c) && m.is_symlink(c))
}

/// Whether `q` is a symbolic link at one of `places`, or lies below one.
pub open spec fn is_unlinked(s: FsModel, places: Set<PathModel>, q: PathModel) -> bool {
    exists|c: PathModel| #[trigger] places.contains(c) && s.is_symlink(c) && q.is_under(c)
}

/// `s` after the symbolic links at `places` were removed.
pub open spec fn unlinked(s: FsModel, places: Set<PathModel>) -> FsModel {
    s.with_entries(
        Map::new(
            |q: PathModel| s.entries.contains_key(q) && !is_unlinked(s, places, q),
            |q: PathModel| s.entries[q],
        ),
    )
}

/// `m` after the file of `t` was isolated: nothing changes where the file is no
/// symbolic link; otherwise the link gives way to a copy of what shared storage holds.
pub open spec fn isolated_state(m: FsModel, t: Located) -> FsModel {
    if m.is_symlink(t.file) {
        m.remove(t.file).copy(t.shared, t.file)
    } else {
        m
    }
}

/// The top of what the worktrees of `info` share.
pub open spec fn storage_root(root: PathModel, info: RepoModel) -> PathModel {
    shared_path(root, info, PathModel::empty())
}

/// The function that gives a place in the worktree at `repo_root` its counterpart
/// below `top`.
pub open spec fn counterpart(repo_root: PathModel, top: PathModel) -> spec_fn(
    PathModel,
) -> PathModel {
    |q: PathModel| rebase(q, repo_root, top)
}

/// Whether `c` is the place, in the worktree at `repo_root`, of a directory of
/// shared storage.
pub open spec fn is_dir_mirror(
    m: FsModel,
    top: PathModel,
    repo_root: PathModel,
    c: PathModel,
) -> bool {
    c.is_under(repo_root) && is_entered(m, WalkMode::Everything, top, rebase(c, repo_root, top))
}

/// Whether `c` is the place, in the worktree at `repo_root`, of something in
/// shared storage that is no directory.
pub open spec fn is_file_mirror(
    m: FsModel,
    top: PathModel,
    repo_root: PathModel,
    c: PathModel,
) -> bool {
    c.is_under(repo_root) && is_reported(m, WalkMode::Everything, top, rebase(c, repo_root, top))
}

/// Whether `q` is a member of `places` or an ancestor of one, and not the empty path.
pub open spec fn is_made(places: Set<PathModel>, q: PathModel) -> bool {
    (q.absolute || q.parts.len() > 0) && exists|c: PathModel|
        #[trigger] places.contains(c) && c.is_under(q)
}

/// `s` after each of `places` and its ancestors was made a directory where nothing lay.
pub open spec fn with_dirs(s: FsModel, places: Set<PathModel>) -> FsModel {
    s.with_entries(
        Map::new(
            |q: PathModel| s.entries.contains_key(q) || is_made(places, q),
            |q: PathModel|
                if s.entries.contains_key(q) {
                    s.entries[q]
                } else {
                    NodeModel::Directory
                },
        ),
    )
}

/// `m` after shared storage below `top` was mounted into the worktree at
/// `repo_root`: every directory of shared storage has its place in the worktree
/// made a directory, where nothing lay, and everything else in shared storage
/// has a symbolic link to it at its place in the worktree, in place of what lay there.
pub open spec fn mounted_state(m: FsModel, top: PathModel, repo_root: PathModel) -> FsModel {
    relinked(
        with_dirs(m, Set::new(|c: PathModel| is_dir_mirror(m, top, repo_root, c))),
        Set::new(|c: PathModel| is_file_mirror(m, top, repo_root, c)),
        counterpart(repo_root, top),
    )
}

/// Removing the link at one more place, after the places of `done`.
proof fn lemma_unlink_step(s: FsModel, done: Set<PathModel>, c: PathModel)
    requires
        !done.contains(c),
        forall|d: PathModel| done.contains(d) ==> !c.is_under(d) && !d.is_under(c),
    ensures
        unlinked(s, done).is_symlink(c) == s.is_symlink(c),
        unlinked(s, done).path_exists(c) == s.path_exists(c),
        s.is_symlink(c) ==> unlinked(s, done).remove(c) == unlinked(s, done.insert(c)),
        !s.is_symlink(c) ==> unlinked(s, done) == unlinked(s, done.insert(c)),
{
    let x = unlinked(s, done);
    let y = unlinked(s, done.insert(c));
    assert(!is_unlinked(s, done, c));
    let a = if s.is_symlink(c) {
        x.remove(c)
    } else {
        x
    };
    assert forall|q: PathModel|
        #[trigger] a.entries.dom().contains(q) == y.entries.dom().contains(q) && (
        a.entries.dom().contains(q) ==> a.entries[q] == y.entries[q]) by {
        if is_unlinked(s, done.insert(c), q) {
            let w = choose|w: PathModel|
                #[trigger] done.insert(c).contains(w) && s.is_symlink(w) && q.is_under(w);
            if w != c {
                assert(done.contains(w));
            }
        }
        if is_unlinked(s, done, q) {
            let w = choose|w: PathModel|
                #[trigger] done.contains(w) && s.is_symlink(w) && q.is_under(w);
            assert(done.insert(c).contains(w));
        }
        if s.is_symlink(c) && q.is_under(c) {
            assert(done.insert(c).contains(c));
        }
    }
    assert(a.entries =~= y.entries);
}

/// Removing links with no places at all changes nothing.
proof fn lemma_unlinked_none(s: FsModel)
    ensures
        unlinked(s, Set::empty()) == s,
{
    assert forall|q: PathModel| !is_unlinked(s, Set::empty(), q) by {}
    assert(unlinked(s, Set::empty()).entries =~= s.entries);
}

/// Making one more directory, after the places of `done`.
proof fn lemma_make_step(s: FsModel, done: Set<PathModel>, c: PathModel)
    ensures
        with_dirs(s, done).create_dir(c) == with_dirs(s, done.insert(c)),
        with_dirs(s, Set::empty()) == s,
{
    let x = with_dirs(s, done);
    let y = with_dirs(s, done.insert(c));
    let a = x.create_dir(c);
    assert forall|q: PathModel|
        #[trigger] a.entries.dom().contains(q) == y.entries.dom().contains(q) && (
        a.entries.dom().contains(q) ==> a.entries[q] == y.entries[q]) by {
        if is_made(done.insert(c), q) {
            let w = choose|w: PathModel| #[trigger] done.insert(c).contains(w) && w.is_under(q);
            if w != c {
                assert(done.contains(w));
            }
        }
        if is_made(done, q) {
            let w = choose|w: PathModel| #[trigger] done.contains(w) && w.is_under(q);
            assert(done.insert(c).contains(w));
        }
        if c.is_under(q) {
            assert(done.insert(c).contains(c));
        }
    }
    assert(a.entries =~= y.entries);
    assert forall|q: PathModel| !is_made(Set::empty(), q) by {}
    assert(with_dirs(s, Set::empty()).entries =~= s.entries);
}

/// A path below `top`, moved below `repo_root` and back, is itself; and so the other way.
proof fn lemma_mirror(top: PathModel, repo_root: PathModel, d: PathModel, c: PathModel)
    ensures
        d.is_under(top) ==> {
            let m = repo_root.join(d.strip_prefix(top).unwrap());
            m == rebase(d, top, repo_root) && m.is_under(repo_root) && rebase(m, repo_root, top) == d
        },
        c.is_under(repo_root) ==> {
            let e = rebase(c, repo_root, top);
            e.is_under(top) && repo_root.join(e.strip_prefix(top).unwrap()) == c
        },
{
    if d.is_under(top) {
        let m = repo_root.join(d.strip_prefix(top).unwrap());
        assert(m.parts.subrange(0, repo_root.parts.len() as int) =~= repo_root.parts);
        assert(m.parts.skip(repo_root.parts.len() as int) =~= d.parts.skip(top.parts.len() as int));
        assert(d.parts.subrange(0, top.parts.len() as int) == top.parts);
        assert(rebase(m, repo_root, top).parts =~= d.parts);
    }
    if c.is_under(repo_root) {
        let e = rebase(c, repo_root, top);
        assert(e.parts.subrange(0, top.parts.len() as int) =~= top.parts);
        assert(e.parts.skip(top.parts.len() as int) =~= c.parts.skip(repo_root.parts.len() as int));
        assert(c.parts.subrange(0, repo_root.parts.len() as int) == repo_root.parts);
        assert(repo_root.join(e.strip_prefix(top).unwrap()).parts =~= c.parts);
    }
}

/// How an operation on shared files ends.
pub enum Ending {
    /// It did what it was asked.
    Done,
    /// What it was asked to work on is not there.
    NotFound,
    /// The file system failed.
    FileSystemFailure,
    /// The scan for worktrees failed.
    ScanFailure,
}

/// The ending that the result `r` stands for, if it stands for one.
pub open spec fn ending<T>(r: Result<T, GrmError>) -> Option<Ending> {
    match r {
        Ok(_) => Some(Ending::Done),
        Err(GrmError::NotFound(_)) => Some(Ending::NotFound),
        Err(GrmError::FileSystem(_)) => Some(Ending::FileSystemFailure),
        Err(GrmError::Scan(_)) => Some(Ending::ScanFailure),
        Err(_) => None,
    }
}

/// How `share` ends on a dependable file system, and what it leaves behind.
///
/// An empty path cannot be made absolute. A file outside the worktree, or one
/// that does not exist, is not found. A symbolic link is left alone. Else the
/// file is moved, which fails where making room for it has taken it away,
/// and the worktrees are scanned, which fails where the root is no directory.
pub open spec fn share_outcome(
    m0: FsModel,
    root: PathModel,
    info: RepoModel,
    repo_root: PathModel,
    relative: PathModel,
) -> (Ending, FsModel) {
    if relative == PathModel::empty() {
        (Ending::FileSystemFailure, m0)
    } else {
        match locate(m0, root, info, repo_root, relative) {
            None => (Ending::NotFound, m0),
            Some(t) => if !m0.path_exists(t.file) {
                (Ending::NotFound, m0)
            } else if m0.is_symlink(t.file) {
                (Ending::Done, m0)
            } else if !made_ready(m0, t).path_exists(t.file) {
                (Ending::FileSystemFailure, made_ready(m0, t))
            } else if !stored(m0, t).is_dir(root) {
                (Ending::ScanFailure, stored(m0, t))
            } else {
                (Ending::Done, shared_state(m0, root, info, t))
            },
        }
    }
}

/// How `conflicts` ends on a dependable file system.
pub open spec fn conflicts_outcome(
    m0: FsModel,
    root: PathModel,
    info: RepoModel,
    repo_root: PathModel,
    relative: PathModel,
) -> Ending {
    if relative == PathModel::empty() {
        Ending::FileSystemFailure
    } else {
        match locate(m0, root, info, repo_root, relative) {
            None => Ending::NotFound,
            Some(t) => if m0.path_exists(t.shared) && !m0.is_dir(root) {
                Ending::ScanFailure
            } else {
                Ending::Done
            },
        }
    }
}

/// How `unshare` ends on a dependable file system, and what it leaves behind.
pub open spec fn unshare_outcome(
    m0: FsModel,
    root: PathModel,
    info: RepoModel,
    repo_root: PathModel,
    relative: PathModel,
) -> (Ending, FsModel) {
    if relative == PathModel::empty() {
        (Ending::FileSystemFailure, m0)
    } else {
        match locate(m0, root, info, repo_root, relative) {
            None => (Ending::NotFound, m0),
            Some(t) => if !m0.is_dir(root) {
                (Ending::ScanFailure, m0)
            } else {
                (Ending::Done, unlinked(m0, sites(m0, root, info, t.rel)))
            },
        }
    }
}

/// How `isolate` ends on a dependable file system, and what it leaves behind.
///
/// The copy fails where removing the link has taken the shared file away.
pub open spec fn isolate_outcome(
    m0: FsModel,
    root: PathModel,
    info: RepoModel,
    repo_root: PathModel,
    relative: PathModel,
) -> (Ending, FsModel) {
    if relative == PathModel::empty() {
        (Ending::FileSystemFailure, m0)
    } else {
        match locate(m0, root, info, repo_root, relative) {
            None => (Ending::NotFound, m0),
            Some(t) => if !m0.path_exists(t.file) {
                (Ending::NotFound, m0)
            } else if !m0.is_symlink(t.file) {
                (Ending::Done, m0)
            } else if !m0.path_exists(t.shared) {
                (Ending::NotFound, m0)
            } else if !m0.remove(t.file).path_exists(t.shared) {
                (Ending::FileSystemFailure, m0.remove(t.file))
            } else {
                (Ending::Done, isolated_state(m0, t))
            },
        }
    }
}

/// How `mount` ends on a dependable file system, and what it leaves behind.
pub open spec fn mount_outcome(
    m0: FsModel,
    root: PathModel,
    info: RepoModel,
    repo_root: PathModel,
) -> (Ending, FsModel) {
    let top = storage_root(root, info);
    if !m0.path_exists(top) {
        (Ending::NotFound, m0)
    } else if !m0.is_dir(top) {
        (Ending::FileSystemFailure, m0)
    } else {
        (Ending::Done, mounted_state(m0, top, repo_root))
    }
}

/// What `share` has done when it returns `r`, on a file system that was `m0` and is `m1`.
///
/// Where the file system or the scan fails, the error is the one that the
/// failed operation gave, handed on as it is; its content and what was done until
/// then are not part of this statement. The outcome function says both for a
/// dependable file system.
pub open spec fn share_post(
    m0: FsModel,
    m1: FsModel,
    root: PathModel,
    info: RepoModel,
    repo_root: PathModel,
    relative: PathModel,
    r: Result<(), GrmError>,
) -> bool {
    let found = locate(m0, root, info, repo_root, relative);
    match r {
        Ok(()) => match found {
            Some(t) => m0.path_exists(t.file) && m1 == shared_state(m0, root, info, t),
            None => false,
        },
        Err(GrmError::NotFound(msg)) => m1 == m0 && match found {
            Some(t) => !m0.path_exists(t.file) && msg@ == "File/Directory not found: "@
                + relative.render(),
            None => msg@ == "prefix not found"@,
        },
        Err(GrmError::FileSystem(_)) => true,
        Err(GrmError::Scan(_)) => true,
        Err(_) => false,
    }
}

/// What `conflicts` returns as `r` on the file system `m0`.
pub open spec fn conflicts_post(
    m0: FsModel,
    root: PathModel,
    info: RepoModel,
    repo_root: PathModel,
    relative: PathModel,
    r: Result<Vec<FsPath>, GrmError>,
) -> bool {
    let found = locate(m0, root, info, repo_root, relative);
    match r {
        Ok(v) => match found {
            Some(t) => {
                &&& path_views(v@).no_duplicates()
                &&& path_views(v@).to_set() == conflict_set(m0, root, info, t)
                &&& !path_views(v@).contains(t.file)
            },
            None => false,
        },
        Err(GrmError::NotFound(msg)) => found is None && msg@ == "prefix not found"@,
        Err(GrmError::FileSystem(_)) => true,
        Err(GrmError::Scan(_)) => true,
        Err(_) => false,
    }
}

/// What `unshare` has done when it returns `r`, on a file system that was `m0` and is `m1`.
///
/// Where the file system or the scan fails, the error is the one that the
/// failed operation gave, handed on as it is; its content and what was done until
/// then are not part of this statement. The outcome function says both for a
/// dependable file system.
pub open spec fn unshare_post(
    m0: FsModel,
    m1: FsModel,
    root: PathModel,
    info: RepoModel,
    repo_root: PathModel,
    relative: PathModel,
    r: Result<usize, GrmError>,
) -> bool {
    let found = locate(m0, root, info, repo_root, relative);
    match r {
        Ok(n) => match found {
            Some(t) => {
                &&& m1 == unlinked(m0, sites(m0, root, info, t.rel))
                &&& n == linked_sites(m0, root, info, t.rel).len()
            },
            None => false,
        },
        Err(GrmError::NotFound(msg)) => m1 == m0 && found is None && msg@
            == "prefix not found"@,
        Err(GrmError::FileSystem(_)) => true,
        Err(GrmError::Scan(_)) => true,
        Err(_) => false,
    }
}

/// What `isolate` has done when it returns `r`, on a file system that was `m0` and is `m1`.
///
/// Where the file system fails, the error is the one that the failed operation
/// gave, handed on as it is; its content and what was done until then are not
/// part of this statement. The outcome function says both for a dependable
/// file system.
pub open spec fn isolate_post(
    m0: FsModel,
    m1: FsModel,
    root: PathModel,
    info: RepoModel,
    repo_root: PathModel,
    relative: PathModel,
    r: Result<(), GrmError>,
) -> bool {
    let found = locate(m0, root, info, repo_root, relative);
    match r {
        Ok(()) => match found {
            Some(t) => {
                &&& m0.path_exists(t.file)
                &&& m0.is_symlink(t.file) ==> m0.path_exists(t.shared)
                &&& m1 == isolated_state(m0, t)
            },
            None => false,
        },
        Err(GrmError::NotFound(msg)) => m1 == m0 && match found {
            Some(t) => if m0.path_exists(t.file) {
                m0.is_symlink(t.file) && !m0.path_exists(t.shared) && msg@
                    == "Shared storage not found at "@ + t.shared.render()
            } else {
                msg@ == "File/Directory not found: "@ + t.rel.render()
            },
            None => msg@ == "prefix not found"@,
        },
        Err(GrmError::FileSystem(_)) => true,
        Err(_) => false,
    }
}

/// What `mount` has done when it returns `r`, on a file system that was `m0` and is `m1`.
///
/// Where the file system fails, the error is the one that the failed operation
/// gave, handed on as it is; its content and what was done until then are not
/// part of this statement. The outcome function says both for a dependable
/// file system.
pub open spec fn mount_post(
    m0: FsModel,
    m1: FsModel,
    root: PathModel,
    info: RepoModel,
    repo_root: PathModel,
    r: Result<(), GrmError>,
) -> bool {
    let top = storage_root(root, info);
    match r {
        Ok(()) => m0.path_exists(top) && m1 == mounted_state(m0, top, repo_root),
        Err(GrmError::NotFound(msg)) => m1 == m0 && !m0.path_exists(top) && msg@
            == "Shared storage not found at "@ + top.render(),
        Err(GrmError::FileSystem(_)) => true,
        Err(_) => false,
    }
}

/// Shares files between the worktrees of one repository below one root.
pub struct SharedResource {
    repo_info: RepoInfo,
    root: FsPath,
}

impl SharedResource {
    /// The repository whose worktrees share.
    pub closed spec fn info(&self) -> RepoModel {
        self.repo_info@
    }

    /// The root directory of all repositories.
    pub closed spec fn root(&self) -> PathModel {
        self.root@
    }

    /// Sharing for the worktrees of `repo_info` below `root`.
    pub fn new(repo_info: RepoInfo, root: FsPath) -> (r: Self)
        ensures
            r.info() == repo_info@,
            r.root() == root@,
    {
        SharedResource { repo_info, root }
    }

    /// Finds the file that the caller names, its path below `repo_root` and its
    /// place in shared storage.
    fn locate<F: FileSystem>(&self, fs: &F, repo_root: &FsPath, relative_path: &FsPath) -> (r:
        Result<(FsPath, FsPath, FsPath), GrmError>)
        ensures
            match r {
                Ok(t) => relative_path@ != PathModel::empty() && locate(
                    fs@,
                    self.root(),
                    self.info(),
                    repo_root@,
                    relative_path@,
                ) == Some(Located { file: t.0@, rel: t.1@, shared: t.2@ }),
                Err(GrmError::NotFound(msg)) => relative_path@ != PathModel::empty() && locate(
                    fs@,
                    self.root(),
                    self.info(),
                    repo_root@,
                    relative_path@,
                ) is None && msg@ == "prefix not found"@,
                Err(GrmError::FileSystem(_)) => true,
                Err(_) => false,
            },
            fs.is_dependable() ==> (r matches Err(GrmError::FileSystem(_)) <==> relative_path@
                == PathModel::empty()),
    {
        let current_dir = match fs.current_dir() {
            Ok(d) => d,
            Err(e) => {
                return Err(GrmError::FileSystem(e));
            },
        };
        let file = match fs.normalize(relative_path, &current_dir) {
            Ok(f) => f,
            Err(e) => {
                return Err(GrmError::FileSystem(e));
            },
        };
        let rel = match file.strip_prefix(repo_root) {
            Some(rel) => rel,
            None => {
                return Err(GrmError::NotFound(String::from_str("prefix not found")));
            },
        };
        let shared = self.repo_info.build_shared_path(&self.root, &rel);
        Ok((file, rel, shared))
    }

    /// The place of `rel` in each of `worktrees`.
    fn places_in(worktrees: &Vec<FsPath>, rel: &FsPath) -> (r: Vec<FsPath>)
        ensures
            r.len() == worktrees.len(),
            forall|i: int|
                0 <= i < worktrees.len() ==> #[trigger] path_views(r@)[i] == path_views(
                    worktrees@,
                )[i].join(rel@),
    {
        let mut r: Vec<FsPath> = Vec::new();
        let mut i: usize = 0;
        while i < worktrees.len()
            invariant
                i <= worktrees.len(),
                r.len() == i,
                forall|j: int|
                    0 <= j < i ==> #[trigger] path_views(r@)[j] == path_views(worktrees@)[j].join(
                        rel@,
                    ),
            decreases worktrees.len() - i,
        {
            let p = worktrees[i].join(rel);
            proof {
                lemma_path_views_push(r@, p);
            }
            r.push(p);
            i = i + 1;
        }
        r
    }

    /// `n` copies of `path`.
    fn copies(path: &FsPath, n: usize) -> (r: Vec<FsPath>)
        ensures
            r.len() == n,
            forall|i: int| 0 <= i < n ==> (#[trigger] r@[i])@ == path@,
    {
        let mut r: Vec<FsPath> = Vec::new();
        let mut i: usize = 0;
        while i < n
            invariant
                i <= n,
                r.len() == i,
                forall|j: int| 0 <= j < i ==> (#[trigger] r@[j])@ == path@,
            decreases n - i,
        {
            r.push(path.clone());
            i = i + 1;
        }
        r
    }

    /// Shares a file or directory of the worktree at `repo_root` with every
    /// worktree of the repository.
    ///
    /// `relative_path` names the file from the current directory. A file that is
    /// a symbolic link counts as shared already, and nothing is done. Otherwise
    /// the file is moved into shared storage, in place of what lay there, and
    /// every worktree gets a link to it in place of what lay at the file's path.
    /// The file must exist and lie in the worktree, else the error is `NotFound`
    /// and nothing has changed.
    pub fn share<F: FileSystem>(
        &self,
        fs: &mut F,
        repo_root: &FsPath,
        relative_path: &FsPath,
    ) -> (r: Result<(), GrmError>)
        ensures
            share_post(
                old(fs)@,
                final(fs)@,
                self.root(),
                self.info(),
                repo_root@,
                relative_path@,
                r,
            ),
            final(fs).is_dependable() == old(fs).is_dependable(),
            old(fs).is_dependable() ==> (Some(
                share_outcome(old(fs)@, self.root(), self.info(), repo_root@, relative_path@).0,
            ) == ending(r) && final(fs)@ == share_outcome(
                old(fs)@,
                self.root(),
                self.info(),
                repo_root@,
                relative_path@,
            ).1),
    {
        let (file, rel, shared) = match self.locate(fs, repo_root, relative_path) {
            Ok(t) => t,
            Err(e) => {
                return Err(e);
            },
        };
        let ghost t = Located { file: file@, rel: rel@, shared: shared@ };
        if !holds_entry(fs, &file) {
            return Err(
                GrmError::NotFound(
                    concat("File/Directory not found: ", relative_path.display().as_str()),
                ),
            );
        }
        if fs.is_symlink(&file) {
            return Ok(());
        }
        match shared.parent() {
            Some(parent) => {
                match fs.create_dir(&parent) {
                    Ok(()) => {},
                    Err(e) => {
                        return Err(GrmError::FileSystem(e));
                    },
                }
            },
            None => {},
        }
        if holds_entry(fs, &shared) {
            match fs.remove(&shared) {
                Ok(()) => {},
                Err(e) => {
                    return Err(GrmError::FileSystem(e));
                },
            }
        }
        match fs.rename(&file, &shared) {
            Ok(()) => {},
            Err(e) => {
                return Err(GrmError::FileSystem(e));
            },
        }
        assert(fs@ == stored(old(fs)@, t));
        let worktrees = match RepoScanner::new(fs).scan_worktrees(&self.root, &self.repo_info) {
            Ok(w) => w,
            Err(e) => {
                return Err(GrmError::Scan(e));
            },
        };
        let places = SharedResource::places_in(&worktrees, &rel);
        let targets = SharedResource::copies(&shared, places.len());
        proof {
            lemma_worktree_sites(
                fs@,
                self.root(),
                self.info(),
                rel@,
                path_views(worktrees@),
                path_views(places@),
            );
        }
        match relink(fs, &places, &targets, Ghost(always(shared@))) {
            Ok(()) => Ok(()),
            Err(e) => Err(GrmError::FileSystem(e)),
        }
    }

    /// Lists what stands in the way of sharing a file of the worktree at `repo_root`.
    ///
    /// As long as shared storage holds no such file, nothing does. Otherwise it
    /// is whatever lies at the file's path in the worktrees of the repository,
    /// the caller's own file never among it.
    pub fn conflicts<F: FileSystem>(
        &self,
        fs: &F,
        repo_root: &FsPath,
        relative_path: &FsPath,
    ) -> (r: Result<Vec<FsPath>, GrmError>)
        ensures
            conflicts_post(fs@, self.root(), self.info(), repo_root@, relative_path@, r),
            fs.is_dependable() ==> Some(
                conflicts_outcome(fs@, self.root(), self.info(), repo_root@, relative_path@),
            ) == ending(r),
    {
        let (file, rel, shared) = match self.locate(fs, repo_root, relative_path) {
            Ok(t) => t,
            Err(e) => {
                return Err(e);
            },
        };
        let ghost t = Located { file: file@, rel: rel@, shared: shared@ };
        let mut conflicts: Vec<FsPath> = Vec::new();
        if !holds_entry(fs, &shared) {
            assert(path_views(conflicts@).to_set() =~= Set::empty());
            return Ok(conflicts);
        }
        let worktrees = match RepoScanner::new(fs).scan_worktrees(&self.root, &self.repo_info) {
            Ok(w) => w,
            Err(e) => {
                return Err(GrmError::Scan(e));
            },
        };
        let places = SharedResource::places_in(&worktrees, &rel);
        let ghost m = fs@;
        let ghost pv = path_views(places@);
        let ghost keep = lies_elsewhere(m, file@);
        proof {
            lemma_worktree_sites(m, self.root(), self.info(), rel@, path_views(worktrees@), pv);
            assert(pv.take(0) =~= Seq::empty());
        }
        let mut i: usize = 0;
        while i < places.len()
            invariant
                i <= places.len(),
                m == fs@,
                pv == path_views(places@),
                pv.len() == places.len(),
                keep == lies_elsewhere(m, file@),
                path_views(conflicts@) == selected(pv.take(i as int), keep),
            decreases places.len() - i,
        {
            let place = &places[i];
            proof {
                assert(pv.take(i + 1) =~= pv.take(i as int).push(pv[i as int]));
                lemma_selected_push(pv.take(i as int), pv[i as int], keep);
                assert(place@ == pv[i as int]);
            }
            if !file.same_as(place) && (fs.path_exists(place) || fs.is_symlink(place)) {
                proof {
                    lemma_path_views_push(conflicts@, *place);
                }
                conflicts.push(place.clone());
            }
            i = i + 1;
        }
        proof {
            assert(pv.take(pv.len() as int) =~= pv);
            let cv = path_views(conflicts@);
            lemma_selected(pv, keep);
            assert forall|c: PathModel| cv.to_set().contains(c) <==> conflict_set(
                m,
                self.root(),
                self.info(),
                t,
            ).contains(c) by {
                lemma_selected_member(pv, keep, c);
                assert(pv.contains(c) <==> pv.to_set().contains(c));
            }
            assert(cv.to_set() =~= conflict_set(m, self.root(), self.info(), t));
            lemma_selected_member(pv, keep, file@);
        }
        Ok(conflicts)
    }

    /// Removes the symbolic links that stand for a shared file in the worktrees of
    /// the repository, and tells how many there were.
    ///
    /// What shared storage holds is left alone. Where no worktree holds a link
    /// at the file's path, nothing changes and the count is zero.
    pub fn unshare<F: FileSystem>(
        &self,
        fs: &mut F,
        repo_root: &FsPath,
        relative_path: &FsPath,
    ) -> (r: Result<usize, GrmError>)
        ensures
            unshare_post(
                old(fs)@,
                final(fs)@,
                self.root(),
                self.info(),
                repo_root@,
                relative_path@,
                r,
            ),
            final(fs).is_dependable() == old(fs).is_dependable(),
            old(fs).is_dependable() ==> (Some(
                unshare_outcome(old(fs)@, self.root(), self.info(), repo_root@, relative_path@).0,
            ) == ending(r) && final(fs)@ == unshare_outcome(
                old(fs)@,
                self.root(),
                self.info(),
                repo_root@,
                relative_path@,
            ).1),
    {
        let (file, rel, shared) = match self.locate(fs, repo_root, relative_path) {
            Ok(t) => t,
            Err(e) => {
                return Err(e);
            },
        };
        let worktrees = match RepoScanner::new(fs).scan_worktrees(&self.root, &self.repo_info) {
            Ok(w) => w,
            Err(e) => {
                return Err(GrmError::Scan(e));
            },
        };
        let places = SharedResource::places_in(&worktrees, &rel);
        let ghost s = fs@;
        let ghost pv = path_views(places@);
        let ghost keep = holds_link(s);
        proof {
            lemma_worktree_sites(s, self.root(), self.info(), rel@, path_views(worktrees@), pv);
            assert(pv.take(0) =~= Seq::empty());
            assert(pv.take(0).to_set() =~= Set::empty());
            lemma_unlinked_none(s);
        }
        let mut removed_count: usize = 0;
        let mut i: usize = 0;
        while i < places.len()
            invariant
                i <= places.len(),
                pv == path_views(places@),
                pv.len() == places.len(),
                lie_apart(pv),
                keep == holds_link(s),
                fs@ == unlinked(s, pv.take(i as int).to_set()),
                fs.is_dependable() == old(fs).is_dependable(),
                removed_count == selected(pv.take(i as int), keep).len(),
                removed_count <= i,
            decreases places.len() - i,
        {
            let place = &places[i];
            let ghost done = pv.take(i as int).to_set();
            proof {
                assert(place@ == pv[i as int]);
                assert forall|d: PathModel| done.contains(d) implies d != place@
                    && !place@.is_under(d) && !d.is_under(place@) by {
                    let j = choose|j: int| 0 <= j < i && pv.take(i as int)[j] == d;
                    assert(pv[j] == d);
                    lemma_under(d, d, d);
                }
                lemma_unlink_step(s, done, place@);
                assert(pv.take(i + 1) =~= pv.take(i as int).push(pv[i as int]));
                lemma_push_to_set(pv.take(i as int), pv[i as int]);
                lemma_selected_push(pv.take(i as int), pv[i as int], keep);
                lemma_selected(pv.take(i as int), keep);
            }
            if fs.path_exists(place) || fs.is_symlink(place) {
                if fs.is_symlink(place) {
                    match fs.remove(place) {
                        Ok(()) => {},
                        Err(e) => {
                            return Err(GrmError::FileSystem(e));
                        },
                    }
                    removed_count = removed_count + 1;
                }
            }
            i = i + 1;
        }
        proof {
            assert(pv.take(pv.len() as int) =~= pv);
            let links = selected(pv, keep);
            lemma_selected(pv, keep);
            links.unique_seq_to_set();
            assert forall|c: PathModel| links.to_set().contains(c) <==> linked_sites(
                s,
                self.root(),
                self.info(),
                rel@,
            ).contains(c) by {
                lemma_selected_member(pv, keep, c);
                assert(pv.contains(c) <==> pv.to_set().contains(c));
            }
            assert(links.to_set() =~= linked_sites(s, self.root(), self.info(), rel@));
        }
        Ok(removed_count)
    }

    /// Gives the worktree at `repo_root` a copy of its own of a shared file.
    ///
    /// A file that is no symbolic link is isolated already, and nothing is done.
    /// Otherwise the link gives way to a copy of what shared storage holds at the
    /// file's place. The file must exist, lie in the worktree and, where it is a
    /// link, have its counterpart in shared storage, else the error is `NotFound`
    /// and nothing has changed.
    pub fn isolate<F: FileSystem>(
        &self,
        fs: &mut F,
        repo_root: &FsPath,
        relative_path: &FsPath,
    ) -> (r: Result<(), GrmError>)
        ensures
            isolate_post(
                old(fs)@,
                final(fs)@,
                self.root(),
                self.info(),
                repo_root@,
                relative_path@,
                r,
            ),
            final(fs).is_dependable() == old(fs).is_dependable(),
            old(fs).is_dependable() ==> (Some(
                isolate_outcome(old(fs)@, self.root(), self.info(), repo_root@, relative_path@).0,
            ) == ending(r) && final(fs)@ == isolate_outcome(
                old(fs)@,
                self.root(),
                self.info(),
                repo_root@,
                relative_path@,
            ).1),
    {
        let (file, rel, shared) = match self.locate(fs, repo_root, relative_path) {
            Ok(t) => t,
            Err(e) => {
                return Err(e);
            },
        };
        let target = repo_root.join(&rel);
        proof {
            assert(target@.parts =~= file@.parts) by {
                assert(file@.parts.subrange(0, repo_root@.parts.len() as int)
                    == repo_root@.parts);
            }
        }
        if !holds_entry(fs, &target) {
            return Err(
                GrmError::NotFound(concat("File/Directory not found: ", rel.display().as_str())),
            );
        }
        if !fs.is_symlink(&target) {
            return Ok(());
        }
        if !holds_entry(fs, &shared) {
            return Err(
                GrmError::NotFound(
                    concat("Shared storage not found at ", shared.display().as_str()),
                ),
            );
        }
        match fs.remove(&target) {
            Ok(()) => {},
            Err(e) => {
                return Err(GrmError::FileSystem(e));
            },
        }
        match fs.copy(&shared, &target) {
            Ok(()) => Ok(()),
            Err(e) => Err(GrmError::FileSystem(e)),
        }
    }

    /// The place below `repo_root` of each of `entries`, which lie below `top`.
    fn mirrors_of(entries: &Vec<FsPath>, top: &FsPath, repo_root: &FsPath) -> (r: Vec<FsPath>)
        requires
            forall|i: int| 0 <= i < entries.len() ==> (#[trigger] entries@[i])@.is_under(top@),
        ensures
            r.len() == entries.len(),
            forall|i: int|
                0 <= i < entries.len() ==> #[trigger] path_views(r@)[i] == rebase(
                    entries@[i]@,
                    top@,
                    repo_root@,
                ),
    {
        let mut r: Vec<FsPath> = Vec::new();
        let mut i: usize = 0;
        while i < entries.len()
            invariant
                i <= entries.len(),
                r.len() == i,
                forall|i: int| 0 <= i < entries.len() ==> (#[trigger] entries@[i])@.is_under(top@),
                forall|j: int|
                    0 <= j < i ==> #[trigger] path_views(r@)[j] == rebase(
                        entries@[j]@,
                        top@,
                        repo_root@,
                    ),
            decreases entries.len() - i,
        {
            let rel = entries[i].strip_prefix(top).unwrap();
            let p = repo_root.join(&rel);
            proof {
                lemma_mirror(top@, repo_root@, entries@[i as int]@, p@);
                lemma_path_views_push(r@, p);
            }
            r.push(p);
            i = i + 1;
        }
        r
    }

    /// Brings everything that the repository shares into the worktree at `repo_root`.
    ///
    /// Every directory of shared storage is made in the worktree, and everything
    /// else in shared storage gets a symbolic link to it at its place in the
    /// worktree, in place of what lay there. The repository must have shared
    /// storage, else the error is `NotFound` and nothing has changed.
    pub fn mount<F: FileSystem>(&self, fs: &mut F, repo_root: &FsPath) -> (r: Result<(), GrmError>)
        ensures
            mount_post(old(fs)@, final(fs)@, self.root(), self.info(), repo_root@, r),
            final(fs).is_dependable() == old(fs).is_dependable(),
            old(fs).is_dependable() ==> (Some(
                mount_outcome(old(fs)@, self.root(), self.info(), repo_root@).0,
            ) == ending(r) && final(fs)@ == mount_outcome(
                old(fs)@,
                self.root(),
                self.info(),
                repo_root@,
            ).1),
    {
        let top = self.repo_info.build_shared_path(&self.root, &FsPath::empty());
        if !holds_entry(fs, &top) {
            return Err(
                GrmError::NotFound(concat("Shared storage not found at ", top.display().as_str())),
            );
        }
        let ghost s = fs@;
        let (files, dirs) = match walk(fs, WalkMode::Everything, &top) {
            Ok(pair) => pair,
            Err(e) => {
                return Err(GrmError::FileSystem(e));
            },
        };
        let ghost fv = path_views(files@);
        let ghost dv = path_views(dirs@);
        proof {
            assert forall|i: int| 0 <= i < dirs.len() implies (#[trigger] dirs@[i])@.is_under(
                top@,
            ) by {
                assert(dv[i] == dirs@[i]@);
                assert(dv.contains(dv[i]));
                let d = dv[i];
                crate::path::lemma_parent(d, d.parent().unwrap());
                lemma_under(d, d.parent().unwrap(), top@);
            }
            assert forall|i: int| 0 <= i < files.len() implies (#[trigger] files@[i])@.is_under(
                top@,
            ) by {
                assert(fv[i] == files@[i]@);
                assert(fv.contains(fv[i]));
                let d = fv[i];
                crate::path::lemma_parent(d, d.parent().unwrap());
                lemma_under(d, d.parent().unwrap(), top@);
            }
        }
        let dir_places = SharedResource::mirrors_of(&dirs, &top, repo_root);
        let file_places = SharedResource::mirrors_of(&files, &top, repo_root);
        let ghost dp = path_views(dir_places@);
        let ghost fp = path_views(file_places@);
        proof {
            lemma_make_step(s, Set::empty(), top@);
            assert(dp.take(0).to_set() =~= Set::empty());
        }
        let mut i: usize = 0;
        while i < dir_places.len()
            invariant
                i <= dir_places.len(),
                dp == path_views(dir_places@),
                dp.len() == dir_places.len(),
                fs@ == with_dirs(s, dp.take(i as int).to_set()),
                fs.is_dependable() == old(fs).is_dependable(),
            decreases dir_places.len() - i,
        {
            proof {
                assert(dir_places@[i as int]@ == dp[i as int]);
                lemma_make_step(s, dp.take(i as int).to_set(), dp[i as int]);
                assert(dp.take(i + 1) =~= dp.take(i as int).push(dp[i as int]));
                lemma_push_to_set(dp.take(i as int), dp[i as int]);
            }
            match fs.create_dir(&dir_places[i]) {
                Ok(()) => {},
                Err(e) => {
                    return Err(GrmError::FileSystem(e));
                },
            }
            i = i + 1;
        }
        proof {
            assert(dp.take(dp.len() as int) =~= dp);
            // the places made are the places of the directories of shared storage
            assert forall|c: PathModel| dp.to_set().contains(c) <==> is_dir_mirror(
                s,
                top@,
                repo_root@,
                c,
            ) by {
                if dp.contains(c) {
                    let j = choose|j: int| 0 <= j < dp.len() && dp[j] == c;
                    assert(dv[j] == dirs@[j]@);
                    assert(dv.contains(dv[j]));
                    lemma_mirror(top@, repo_root@, dv[j], c);
                }
                if is_dir_mirror(s, top@, repo_root@, c) {
                    let e = rebase(c, repo_root@, top@);
                    assert(dv.contains(e));
                    let j = choose|j: int| 0 <= j < dv.len() && dv[j] == e;
                    assert(dv[j] == dirs@[j]@);
                    lemma_mirror(top@, repo_root@, e, c);
                    assert(dp[j] == c);
                }
            }
            assert(dp.to_set() =~= Set::new(|c: PathModel| is_dir_mirror(s, top@, repo_root@, c)));
            // the places linked are the places of everything else, and lie apart
            assert forall|j: int| 0 <= j < fp.len() implies is_file_mirror(
                s,
                top@,
                repo_root@,
                #[trigger] fp[j],
            ) && rebase(fp[j], repo_root@, top@) == fv[j] by {
                assert(fv[j] == files@[j]@);
                assert(fv.contains(fv[j]));
                lemma_mirror(top@, repo_root@, fv[j], fp[j]);
            }
            assert forall|c: PathModel| fp.to_set().contains(c) <==> is_file_mirror(
                s,
                top@,
                repo_root@,
                c,
            ) by {
                if fp.contains(c) {
                    let j = choose|j: int| 0 <= j < fp.len() && fp[j] == c;
                    assert(is_file_mirror(s, top@, repo_root@, fp[j]));
                }
                if is_file_mirror(s, top@, repo_root@, c) {
                    let e = rebase(c, repo_root@, top@);
                    assert(fv.contains(e));
                    let j = choose|j: int| 0 <= j < fv.len() && fv[j] == e;
                    assert(fv[j] == files@[j]@);
                    lemma_mirror(top@, repo_root@, e, c);
                    assert(fp[j] == c);
                }
            }
            assert(fp.to_set() =~= Set::new(|c: PathModel| is_file_mirror(s, top@, repo_root@, c)));
            assert forall|a: int, b: int|
                0 <= a < fp.len() && 0 <= b < fp.len() && a != b implies !(#[trigger] fp[a]).is_under(
                #[trigger] fp[b],
            ) by {
                if fp[a].is_under(fp[b]) {
                    let ea = fv[a];
                    let eb = fv[b];
                    assert(ea.is_under(eb)) by {
                        lemma_under(fp[a], fp[b], repo_root@);
                        lemma_under(fp[b], repo_root@, repo_root@);
                        assert(ea.parts.subrange(0, eb.parts.len() as int) =~= eb.parts) by {
                            assert forall|k: int| 0 <= k < eb.parts.len() implies ea.parts[k]
                                == eb.parts[k] by {
                                if k >= top@.parts.len() {
                                    let kk = k - top@.parts.len() + repo_root@.parts.len();
                                    assert(fp[a].parts.subrange(0, fp[b].parts.len() as int)[kk]
                                        == fp[b].parts[kk]);
                                }
                            }
                        }
                    }
                    lemma_reported_apart(s, WalkMode::Everything, top@, eb, ea);
                }
            }
            assert forall|j: int| 0 <= j < file_places.len() implies (#[trigger] files@[j])@
                == counterpart(repo_root@, top@)(file_places@[j]@) by {
                assert(fp[j] == file_places@[j]@);
                assert(rebase(fp[j], repo_root@, top@) == fv[j]);
                assert(fv[j] == files@[j]@);
            }
        }
        match relink(fs, &file_places, &files, Ghost(counterpart(repo_root@, top@))) {
            Ok(()) => Ok(()),
            Err(e) => Err(GrmError::FileSystem(e)),
        }
    }
}

} // verus!
