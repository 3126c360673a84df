//! Walking down a directory tree.
//!
//! A walk starts at a directory and reads it; it walks into some of the
//! entries that it meets and reports others. Which ones depends on what the
//! walk is for: finding repositories, or listing everything.

use crate::path::{
    lemma_parent, lemma_path_views_push, lemma_selected, lemma_selected_member,
    lemma_selected_push, lemma_under, path_views, selected, FsPath, PathModel,
};
use crate::ports::file_system::{
    holds_dir, holds_repository, FileSystem, FileSystemError, FsModel,
};
use vstd::prelude::*;

verus! {

/// What a walk is for.
#[derive(Clone, Copy, Debug)]
pub enum WalkMode {
    /// Report the repositories, and walk into any other directory that is no symbolic link.
    Repositories,
    /// Report what is no directory, and walk into every directory.
    Everything,
}

/// A directory that is not a symbolic link.
pub open spec fn is_plain_dir(m: FsModel, p: PathModel) -> bool {
    !m.is_symlink(p) && m.is_dir(p)
}

/// Whether a walk goes into `p` when it meets it.
pub open spec fn descends(m: FsModel, mode: WalkMode, p: PathModel) -> bool {
    match mode {
        WalkMode::Repositories => is_plain_dir(m, p) && !m.is_git_repository(p),
        WalkMode::Everything => m.is_dir(p),
    }
}

/// Whether a walk reports `p` when it meets it.
pub open spec fn reports(m: FsModel, mode: WalkMode, p: PathModel) -> bool {
    match mode {
        WalkMode::Repositories => is_plain_dir(m, p) && m.is_git_repository(p),
        WalkMode::Everything => m.path_exists(p) && !m.is_dir(p),
    }
}

/// Whether the walk from `top` reads `d`: `d` is `top`, or the walk goes into every
/// directory from below `top` down to `d` itself.
pub open spec fn is_traversed(m: FsModel, mode: WalkMode, top: PathModel, d: PathModel) -> bool {
    &&& d.is_under(top)
    &&& forall|k: int|
        top.parts.len() < k <= d.parts.len() ==> descends(m, mode, #[trigger] d.prefix(k))
}

/// Whether the walk from `top` meets `p`: it lies directly inside a directory that
/// the walk reads.
pub open spec fn is_met(m: FsModel, mode: WalkMode, top: PathModel, p: PathModel) -> bool {
    &&& p.parent() is Some
    &&& is_traversed(m, mode, top, p.parent().unwrap())
}

/// Whether the walk from `top` reports `p`.
pub open spec fn is_reported(m: FsModel, mode: WalkMode, top: PathModel, p: PathModel) -> bool {
    is_met(m, mode, top, p) && reports(m, mode, p)
}

/// Whether the walk from `top` goes into `p`, a directory below `top`.
pub open spec fn is_entered(m: FsModel, mode: WalkMode, top: PathModel, p: PathModel) -> bool {
    is_met(m, mode, top, p) && descends(m, mode, p)
}

/// Nothing that a walk reports lies inside something else that it reports.
pub proof fn lemma_reported_apart(
    m: FsModel,
    mode: WalkMode,
    top: PathModel,
    p: PathModel,
    q: PathModel,
)
    requires
        is_reported(m, mode, top, p),
        is_reported(m, mode, top, q),
        q.is_under(p),
    ensures
        p == q,
{
    lemma_under(q, p, top);
    if q.parts.len() > p.parts.len() {
        let d = q.parent().unwrap();
        lemma_parent(q, d);
        lemma_parent(p, p.parent().unwrap());
        lemma_under(p, p.parent().unwrap(), top);
        let k = p.parts.len() as int;
        assert(d.prefix(k) == q.prefix(k));
        assert(q.prefix(k) == p);
        assert(descends(m, mode, d.prefix(k)));
    }
}

/// Whether some member of `dirs` is `q` or an ancestor of it.
spec fn is_covered(dirs: Seq<PathModel>, q: PathModel) -> bool {
    exists|j: int| 0 <= j < dirs.len() && q.is_under(#[trigger] dirs[j])
}

/// The entries that lie at or below a directory still to be read.
spec fn frontier(m: FsModel, dirs: Seq<PathModel>) -> Set<PathModel> {
    Set::new(|q: PathModel| m.entries.contains_key(q) && is_covered(dirs, q))
}

/// What holds of what was reported so far (`found`), the directories read so far
/// (`seen`) and the directories still to be read (`dirs`).
spec fn walk_inv(
    m: FsModel,
    mode: WalkMode,
    top: PathModel,
    found: Seq<PathModel>,
    seen: Seq<PathModel>,
    dirs: Seq<PathModel>,
) -> bool {
    &&& found.no_duplicates()
    &&& forall|i: int| 0 <= i < found.len() ==> is_reported(m, mode, top, #[trigger] found[i])
    &&& forall|j: int| 0 <= j < dirs.len() ==> is_traversed(m, mode, top, #[trigger] dirs[j])
    &&& forall|p: PathModel|
        is_reported(m, mode, top, p) ==> found.contains(p) || exists|j: int|
            0 <= j < dirs.len() && p.is_below(#[trigger] dirs[j])
    &&& forall|i: int, j: int|
        0 <= i < found.len() && 0 <= j < dirs.len() ==> !(#[trigger] found[i]).is_under(
            #[trigger] dirs[j],
        )
    &&& forall|i: int, j: int|
        0 <= i < dirs.len() && 0 <= j < dirs.len() && i != j ==> !(#[trigger] dirs[i]).is_under(
            #[trigger] dirs[j],
        )
    &&& seen.no_duplicates()
    &&& forall|i: int| 0 <= i < seen.len() ==> is_entered(m, mode, top, #[trigger] seen[i])
    &&& forall|p: PathModel|
        is_entered(m, mode, top, p) ==> seen.contains(p) || exists|j: int|
            0 <= j < dirs.len() && p.is_under(#[trigger] dirs[j])
    &&& forall|i: int, j: int|
        0 <= i < seen.len() && 0 <= j < dirs.len() ==> !(#[trigger] seen[i]).is_under(
            #[trigger] dirs[j],
        )
}

/// The children of `d` that the walk reports, as `new_found`, and those that it
/// goes into, as `new_dirs`.
spec fn is_listing(
    m: FsModel,
    mode: WalkMode,
    d: PathModel,
    new_found: Seq<PathModel>,
    new_dirs: Seq<PathModel>,
) -> bool {
    &&& new_found.no_duplicates()
    &&& new_dirs.no_duplicates()
    &&& forall|q: PathModel|
        new_found.contains(q) <==> m.children(d).contains(q) && reports(m, mode, q)
    &&& forall|q: PathModel|
        new_dirs.contains(q) <==> m.children(d).contains(q) && descends(m, mode, q)
}

/// `seen` with `d` added where `d` is not the directory that the walk started at.
spec fn seen_after(seen: Seq<PathModel>, top: PathModel, d: PathModel) -> Seq<PathModel> {
    if d == top {
        seen
    } else {
        seen.push(d)
    }
}

/// Reading one directory keeps `walk_inv`, and takes the directory out of the frontier.
proof fn lemma_walk_step(
    m: FsModel,
    mode: WalkMode,
    top: PathModel,
    d: PathModel,
    found: Seq<PathModel>,
    seen: Seq<PathModel>,
    rest: Seq<PathModel>,
    new_found: Seq<PathModel>,
    new_dirs: Seq<PathModel>,
)
    requires
        walk_inv(m, mode, top, found, seen, rest.push(d)),
        is_listing(m, mode, d, new_found, new_dirs),
        d != top ==> is_entered(m, mode, top, d),
    ensures
        walk_inv(m, mode, top, found + new_found, seen_after(seen, top, d), rest + new_dirs),
        frontier(m, rest + new_dirs).subset_of(frontier(m, rest.push(d)).remove(d)),
        forall|j: int|
            0 <= j < new_dirs.len() ==> is_entered(m, mode, top, #[trigger] new_dirs[j]),
{
    let dirs0 = rest.push(d);
    let last = rest.len() as int;
    let found1 = found + new_found;
    let dirs1 = rest + new_dirs;
    let seen1 = seen_after(seen, top, d);
    assert(dirs0[last] == d);
    assert(is_traversed(m, mode, top, dirs0[last]));
    assert forall|j: int| 0 <= j < rest.len() implies rest[j] == dirs0[j] by {}
    // what the listing says of each new member
    assert forall|a: int| 0 <= a < new_found.len() implies (#[trigger] new_found[a]).parent()
        == Some(d) && reports(m, mode, new_found[a]) by {
        assert(new_found.contains(new_found[a]));
    }
    assert forall|a: int| 0 <= a < new_dirs.len() implies (#[trigger] new_dirs[a]).parent()
        == Some(d) && descends(m, mode, new_dirs[a]) by {
        assert(new_dirs.contains(new_dirs[a]));
    }
    // found1 has no duplicates
    assert forall|i: int, a: int|
        0 <= i < found.len() && 0 <= a < new_found.len() implies found[i] != new_found[a] by {
        lemma_parent(new_found[a], d);
        assert(!found[i].is_under(dirs0[last]));
    }
    vstd::seq_lib::lemma_no_dup_in_concat(found, new_found);
    // every member of found1 is reported
    assert forall|i: int| 0 <= i < found1.len() implies is_reported(
        m,
        mode,
        top,
        #[trigger] found1[i],
    ) by {
        if i >= found.len() {
            assert(found1[i] == new_found[i - found.len()]);
        } else {
            assert(found1[i] == found[i]);
        }
    }
    // every member of dirs1 is traversed
    assert forall|j: int| 0 <= j < dirs1.len() implies is_traversed(
        m,
        mode,
        top,
        #[trigger] dirs1[j],
    ) by {
        if j >= rest.len() {
            let c = new_dirs[j - rest.len()];
            assert(dirs1[j] == c);
            lemma_parent(c, d);
            lemma_under(c, d, top);
            assert forall|k: int| top.parts.len() < k <= c.parts.len() implies descends(
                m,
                mode,
                #[trigger] c.prefix(k),
            ) by {
                if k <= d.parts.len() {
                    assert(c.prefix(k) == d.prefix(k));
                }
            }
        } else {
            assert(dirs1[j] == dirs0[j]);
        }
    }
    // everything reported is found or still ahead
    assert forall|p: PathModel| is_reported(m, mode, top, p) implies found1.contains(p)
        || exists|j: int| 0 <= j < dirs1.len() && p.is_below(#[trigger] dirs1[j]) by {
        if found.contains(p) {
            let i = choose|i: int| 0 <= i < found.len() && found[i] == p;
            assert(found1[i] == p);
        } else {
            let j = choose|j: int| 0 <= j < dirs0.len() && p.is_below(#[trigger] dirs0[j]);
            if j < last {
                assert(dirs1[j] == dirs0[j]);
            } else {
                let dp = p.parent().unwrap();
                lemma_parent(p, dp);
                lemma_under(p, dp, d);
                lemma_under(dp, d, top);
                lemma_under(d, top, top);
                if dp == d {
                    assert(m.children(d).contains(p));
                    assert(new_found.contains(p));
                    let a = choose|a: int| 0 <= a < new_found.len() && new_found[a] == p;
                    assert(found1[found.len() + a] == p);
                } else {
                    assert(dp.is_under(d));
                    let k = d.parts.len() as int + 1;
                    let c = dp.prefix(k);
                    assert(descends(m, mode, c));
                    assert(c.parts.drop_last() =~= d.parts) by {
                        assert(dp.parts.subrange(0, d.parts.len() as int) == d.parts);
                    }
                    assert(c.parent() == Some(d));
                    assert(m.children(d).contains(c));
                    assert(new_dirs.contains(c));
                    let a = choose|a: int| 0 <= a < new_dirs.len() && new_dirs[a] == c;
                    assert(dirs1[rest.len() + a] == c);
                    assert(p.parts.subrange(0, c.parts.len() as int) =~= c.parts);
                    assert(p.is_below(dirs1[rest.len() + a]));
                }
            }
        }
    }
    // nothing found lies under a directory still to be read
    assert forall|i: int, j: int| 0 <= i < found1.len() && 0 <= j < dirs1.len() implies !(
    #[trigger] found1[i]).is_under(#[trigger] dirs1[j]) by {
        let f = found1[i];
        let e = dirs1[j];
        if f.is_under(e) {
            if i < found.len() {
                assert(f == found[i]);
                if j < rest.len() {
                    assert(e == dirs0[j]);
                } else {
                    let c = new_dirs[j - rest.len()];
                    lemma_parent(c, d);
                    lemma_under(f, c, d);
                    assert(f.is_under(dirs0[last]));
                }
            } else {
                let q = new_found[i - found.len()];
                assert(f == q);
                lemma_parent(q, d);
                if j < rest.len() {
                    assert(e == dirs0[j]);
                    lemma_under(q, e, d);
                    lemma_under(q, d, e);
                    if e.parts.len() <= d.parts.len() {
                        assert(dirs0[last].is_under(dirs0[j]));
                    } else {
                        assert(q == e);
                        assert(dirs0[j].is_under(dirs0[last]));
                    }
                } else {
                    let c = new_dirs[j - rest.len()];
                    lemma_parent(c, d);
                    lemma_under(q, c, c);
                }
            }
        }
    }
    // the directories still to be read lie apart
    assert forall|i: int, j: int|
        0 <= i < dirs1.len() && 0 <= j < dirs1.len() && i != j implies !(
    #[trigger] dirs1[i]).is_under(#[trigger] dirs1[j]) by {
        let x = dirs1[i];
        let y = dirs1[j];
        if x.is_under(y) {
            if i < rest.len() && j < rest.len() {
                assert(x == dirs0[i] && y == dirs0[j]);
            } else if i < rest.len() {
                let c = new_dirs[j - rest.len()];
                lemma_parent(c, d);
                lemma_under(x, c, d);
                assert(dirs0[i].is_under(dirs0[last]));
            } else if j < rest.len() {
                let c = new_dirs[i - rest.len()];
                lemma_parent(c, d);
                assert(y == dirs0[j]);
                lemma_under(c, y, d);
                lemma_under(c, d, y);
                if y.parts.len() <= d.parts.len() {
                    assert(dirs0[last].is_under(dirs0[j]));
                } else {
                    assert(c == y);
                    assert(dirs0[j].is_under(dirs0[last]));
                }
            } else {
                let c1 = new_dirs[i - rest.len()];
                let c2 = new_dirs[j - rest.len()];
                lemma_parent(c1, d);
                lemma_parent(c2, d);
                lemma_under(c1, c2, c2);
            }
        }
    }
    // the directories read so far
    if d != top {
        assert forall|i: int| 0 <= i < seen.len() implies seen[i] != d by {
            lemma_under(d, d, d);
            assert(!seen[i].is_under(dirs0[last]));
        }
        assert(seen1.no_duplicates());
    }
    assert forall|i: int| 0 <= i < seen1.len() implies is_entered(
        m,
        mode,
        top,
        #[trigger] seen1[i],
    ) by {
        if i < seen.len() {
            assert(seen1[i] == seen[i]);
        }
    }
    assert forall|p: PathModel| is_entered(m, mode, top, p) implies seen1.contains(p)
        || exists|j: int| 0 <= j < dirs1.len() && p.is_under(#[trigger] dirs1[j]) by {
        if seen.contains(p) {
            let i = choose|i: int| 0 <= i < seen.len() && seen[i] == p;
            assert(seen1[i] == p);
        } else {
            let j = choose|j: int| 0 <= j < dirs0.len() && p.is_under(#[trigger] dirs0[j]);
            if j < last {
                assert(dirs1[j] == dirs0[j]);
            } else {
                let dp = p.parent().unwrap();
                lemma_parent(p, dp);
                lemma_under(p, d, top);
                lemma_under(d, top, top);
                lemma_under(top, top, top);
                if p == d {
                    assert(d != top);
                    assert(seen1[seen.len() as int] == p);
                } else {
                    lemma_under(p, d, p);
                    let k = d.parts.len() as int + 1;
                    let c = p.prefix(k);
                    assert(c.parts.drop_last() =~= d.parts) by {
                        assert(p.parts.subrange(0, d.parts.len() as int) == d.parts);
                    }
                    assert(c.parent() == Some(d));
                    assert(descends(m, mode, c)) by {
                        if k == p.parts.len() {
                            assert(c == p);
                        } else {
                            assert(c == dp.prefix(k));
                        }
                    }
                    assert(m.children(d).contains(c));
                    assert(new_dirs.contains(c));
                    let a = choose|a: int| 0 <= a < new_dirs.len() && new_dirs[a] == c;
                    assert(dirs1[rest.len() + a] == c);
                    assert(p.parts.subrange(0, c.parts.len() as int) =~= c.parts);
                    assert(p.is_under(dirs1[rest.len() + a]));
                }
            }
        }
    }
    assert forall|i: int, j: int| 0 <= i < seen1.len() && 0 <= j < dirs1.len() implies !(
    #[trigger] seen1[i]).is_under(#[trigger] dirs1[j]) by {
        let v = seen1[i];
        let e = dirs1[j];
        if v.is_under(e) {
            if i < seen.len() {
                assert(v == seen[i]);
                if j < rest.len() {
                    assert(e == dirs0[j]);
                } else {
                    let c = new_dirs[j - rest.len()];
                    lemma_parent(c, d);
                    lemma_under(v, c, d);
                    assert(v.is_under(dirs0[last]));
                }
            } else {
                assert(v == d);
                if j < rest.len() {
                    assert(dirs0[last].is_under(dirs0[j]));
                } else {
                    let c = new_dirs[j - rest.len()];
                    lemma_parent(c, d);
                    lemma_under(d, c, c);
                }
            }
        }
    }
    // the frontier shrinks
    assert forall|q: PathModel| frontier(m, dirs1).contains(q) implies frontier(m, dirs0).remove(
        d,
    ).contains(q) by {
        let j = choose|j: int| 0 <= j < dirs1.len() && q.is_under(#[trigger] dirs1[j]);
        if j < rest.len() {
            assert(dirs1[j] == dirs0[j]);
            assert(q.is_under(dirs0[j]));
            if q == d {
                assert(dirs0[last].is_under(dirs0[j]));
            }
        } else {
            let c = new_dirs[j - rest.len()];
            lemma_parent(c, d);
            lemma_under(q, c, d);
            assert(q.is_under(dirs0[last]));
        }
    }
}

/// The test that a walk reports a path.
spec fn test_reports(m: FsModel, mode: WalkMode) -> spec_fn(PathModel) -> bool {
    |q: PathModel| reports(m, mode, q)
}

/// The test that a walk goes into a path.
spec fn test_descends(m: FsModel, mode: WalkMode) -> spec_fn(PathModel) -> bool {
    |q: PathModel| descends(m, mode, q)
}

/// Whether the walk goes into the entry `path`, reports it, or passes it by.
fn classify<F: FileSystem>(fs: &F, mode: WalkMode, path: &FsPath) -> (r: (bool, bool))
    requires
        fs@.path_exists(path@),
    ensures
        r.0 == descends(fs@, mode, path@),
        r.1 == reports(fs@, mode, path@),
{
    match mode {
        WalkMode::Repositories => {
            if !fs.is_symlink(path) && holds_dir(fs, path) {
                let repo = holds_repository(fs, path);
                (!repo, repo)
            } else {
                (false, false)
            }
        },
        WalkMode::Everything => {
            let dir = holds_dir(fs, path);
            (dir, !dir)
        },
    }
}

/// Reads one directory and sorts its entries into those to report and those to go into.
fn list<F: FileSystem>(fs: &F, mode: WalkMode, dir: &FsPath) -> (r: Result<
    (Vec<FsPath>, Vec<FsPath>),
    FileSystemError,
>)
    ensures
        r matches Ok(pair) ==> is_listing(
            fs@,
            mode,
            dir@,
            path_views(pair.0@),
            path_views(pair.1@),
        ) && fs@.entries.dom().finite(),
        fs.is_dependable() ==> (r is Ok <==> fs@.is_dir(dir@)),
{
    let entries = match fs.read_dir(dir) {
        Ok(entries) => entries,
        Err(e) => {
            return Err(e);
        },
    };
    let ghost m = fs@;
    let ghost all = path_views(entries@);
    let ghost told = test_reports(m, mode);
    let ghost gone = test_descends(m, mode);
    let mut found: Vec<FsPath> = Vec::new();
    let mut dirs: Vec<FsPath> = Vec::new();
    let mut i: usize = 0;
    assert(all.take(0) =~= Seq::empty());
    while i < entries.len()
        invariant
            i <= entries.len(),
            m == fs@,
            all == path_views(entries@),
            all.len() == entries.len(),
            all.no_duplicates(),
            all.to_set() == m.children(dir@),
            m.entries.dom().finite(),
            told == test_reports(m, mode),
            gone == test_descends(m, mode),
            path_views(found@) == selected(all.take(i as int), told),
            path_views(dirs@) == selected(all.take(i as int), gone),
        decreases entries.len() - i,
    {
        let entry = &entries[i];
        proof {
            assert(entry@ == all[i as int]);
            assert(all.contains(all[i as int]));
            assert(all.to_set().contains(entry@));
            assert(all.take(i + 1) =~= all.take(i as int).push(all[i as int]));
            lemma_selected_push(all.take(i as int), all[i as int], told);
            lemma_selected_push(all.take(i as int), all[i as int], gone);
        }
        let (descend, report) = classify(fs, mode, entry);
        if report {
            proof {
                lemma_path_views_push(found@, *entry);
            }
            found.push(entry.clone());
        } else if descend {
            proof {
                lemma_path_views_push(dirs@, *entry);
            }
            dirs.push(entry.clone());
        }
        i = i + 1;
    }
    proof {
        assert(all.take(all.len() as int) =~= all);
        lemma_selected(all, told);
        lemma_selected(all, gone);
        let rv = path_views(found@);
        let dv = path_views(dirs@);
        assert forall|q: PathModel|
            rv.contains(q) <==> m.children(dir@).contains(q) && reports(m, mode, q) by {
            lemma_selected_member(all, told, q);
            assert(all.contains(q) <==> all.to_set().contains(q));
        }
        assert forall|q: PathModel|
            dv.contains(q) <==> m.children(dir@).contains(q) && descends(m, mode, q) by {
            lemma_selected_member(all, gone, q);
            assert(all.contains(q) <==> all.to_set().contains(q));
        }
    }
    Ok((found, dirs))
}

/// Walks the tree below `top`.
///
/// Returns what the walk reports and the directories that it went into, each
/// once. The walk is given up when a directory cannot be read; on a dependable
/// file system that is so exactly where `top` is no directory.
pub fn walk<F: FileSystem>(fs: &F, mode: WalkMode, top: &FsPath) -> (r: Result<
    (Vec<FsPath>, Vec<FsPath>),
    FileSystemError,
>)
    ensures
        r matches Ok(pair) ==> {
            &&& path_views(pair.0@).no_duplicates()
            &&& forall|p: PathModel|
                path_views(pair.0@).contains(p) <==> is_reported(fs@, mode, top@, p)
            &&& path_views(pair.1@).no_duplicates()
            &&& forall|p: PathModel|
                path_views(pair.1@).contains(p) <==> is_entered(fs@, mode, top@, p)
        },
        fs.is_dependable() ==> (r is Ok <==> fs@.is_dir(top@)),
{
    let ghost m = fs@;
    let (mut found, mut pending) = match list(fs, mode, top) {
        Ok(pair) => pair,
        Err(e) => {
            return Err(e);
        },
    };
    let mut seen: Vec<FsPath> = Vec::new();
    proof {
        let none = Seq::<PathModel>::empty();
        lemma_under(top@, top@, top@);
        assert(none.push(top@)[0] == top@);
        assert(walk_inv(m, mode, top@, none, none, none.push(top@))) by {
            assert forall|p: PathModel| is_met(m, mode, top@, p) implies p.is_below(
                none.push(top@)[0],
            ) by {
                let dp = p.parent().unwrap();
                lemma_parent(p, dp);
                lemma_under(p, dp, top@);
            }
        }
        lemma_walk_step(
            m,
            mode,
            top@,
            top@,
            none,
            none,
            none,
            path_views(found@),
            path_views(pending@),
        );
        assert(none + path_views(found@) =~= path_views(found@));
        assert(none + path_views(pending@) =~= path_views(pending@));
        assert(path_views(seen@) =~= none);
    }
    while pending.len() > 0
        invariant
            m == fs@,
            m.entries.dom().finite(),
            fs.is_dependable() ==> m.is_dir(top@),
            walk_inv(m, mode, top@, path_views(found@), path_views(seen@), path_views(pending@)),
            forall|j: int|
                0 <= j < pending.len() ==> is_entered(
                    m,
                    mode,
                    top@,
                    #[trigger] path_views(pending@)[j],
                ),
        decreases frontier(m, path_views(pending@)).len(),
    {
        let ghost dirs0 = path_views(pending@);
        let ghost found0 = path_views(found@);
        let ghost seen0 = path_views(seen@);
        let dir = pending.pop().unwrap();
        let ghost rest = path_views(pending@);
        proof {
            assert(rest =~= dirs0.drop_last());
            assert(dirs0 =~= rest.push(dir@));
            assert(dir@ == dirs0[dirs0.len() - 1]);
        }
        let (mut new_found, mut new_dirs) = match list(fs, mode, &dir) {
            Ok(pair) => pair,
            Err(e) => {
                return Err(e);
            },
        };
        proof {
            assert(is_entered(m, mode, top@, dir@));
            lemma_parent(dir@, dir@.parent().unwrap());
            lemma_under(dir@.parent().unwrap(), top@, top@);
            assert(dir@ != top@);
            lemma_walk_step(
                m,
                mode,
                top@,
                dir@,
                found0,
                seen0,
                rest,
                path_views(new_found@),
                path_views(new_dirs@),
            );
            let f0 = frontier(m, dirs0);
            let f1 = frontier(m, rest + path_views(new_dirs@));
            assert(f0.subset_of(m.entries.dom()));
            vstd::set_lib::lemma_len_subset(f0, m.entries.dom());
            assert(f0.contains(dir@)) by {
                lemma_under(dir@, dir@, dir@);
                assert(dir@.is_under(dirs0[dirs0.len() - 1]));
            }
            vstd::set_lib::lemma_len_subset(f1, f0.remove(dir@));
            assert(f1.len() < f0.len());
            assert(path_views(found@ + new_found@) =~= found0 + path_views(new_found@));
            assert(path_views(pending@ + new_dirs@) =~= rest + path_views(new_dirs@));
            lemma_path_views_push(seen@, dir);
        }
        found.append(&mut new_found);
        pending.append(&mut new_dirs);
        seen.push(dir);
    }
    proof {
        let fv = path_views(found@);
        let sv = path_views(seen@);
        assert(path_views(pending@).len() == 0);
        assert forall|p: PathModel| fv.contains(p) <==> is_reported(m, mode, top@, p) by {
            if fv.contains(p) {
                let i = choose|i: int| 0 <= i < fv.len() && fv[i] == p;
                assert(is_reported(m, mode, top@, fv[i]));
            }
        }
        assert forall|p: PathModel| sv.contains(p) <==> is_entered(m, mode, top@, p) by {
            if sv.contains(p) {
                let i = choose|i: int| 0 <= i < sv.len() && sv[i] == p;
                assert(is_entered(m, mode, top@, sv[i]));
            }
        }
    }
    Ok((found, seen))
}

} // verus!
