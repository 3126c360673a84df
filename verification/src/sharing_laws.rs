//! What holds of sharing, unsharing and isolating taken together.
//!
//! Each law is stated over the file system states that the operations'
//! contracts name, and proved from those definitions.

use crate::errors::GrmError;
use crate::path::{
    is_name, lemma_parse_name, lemma_render_below, lemma_under, PathModel,
};
use crate::repo_info::{repo_path, shared_path};
use crate::repo_scanner::worktree_prefix;
use crate::text::{has_char, join, lemma_index_of, lemma_index_of_is};
use crate::ports::file_system::{rebase, FsModel};
use crate::repo_info::RepoModel;
use crate::repo_scanner::{is_scanned, is_worktree, lemma_repositories_apart, worktrees};
use crate::walk::{descends, is_traversed, reports, WalkMode};
use crate::shared_resource::{
    always, conflict_set, conflicts_outcome, conflicts_post, is_cleared, is_file_mirror, is_site,
    isolate_post, isolated_state, linked_sites, locate, mounted_state, relinked, share_post,
    shared_state, site_owner, sites, stored, unshare_post, Located,
};
use crate::ports::file_system::NodeModel;
use vstd::prelude::*;

verus! {

/// The file of a worktree is the place of its path in that worktree.
proof fn lemma_file_is_place(file: PathModel, repo_root: PathModel)
    requires
        file.is_under(repo_root),
    ensures
        site_owner(file, file.strip_prefix(repo_root).unwrap()) == repo_root,
        repo_root.join(file.strip_prefix(repo_root).unwrap()) == file,
{
    let rel = file.strip_prefix(repo_root).unwrap();
    assert(file.parts.subrange(0, repo_root.parts.len() as int) == repo_root.parts);
    assert(file.parts.take(file.parts.len() - rel.parts.len()) =~= repo_root.parts);
    assert(repo_root.join(rel).parts =~= file.parts);
}

/// Of two paths that both begin a third, one begins the other.
proof fn lemma_comparable(p: PathModel, a: PathModel, b: PathModel)
    requires
        p.is_under(a),
        p.is_under(b),
    ensures
        a.is_under(b) || b.is_under(a),
{
    if a.parts.len() <= b.parts.len() {
        lemma_under(p, a, b);
    } else {
        lemma_under(p, b, a);
    }
}

/// Moving a path that lies under `from` to `to` and back gives the path.
proof fn lemma_rebase_there_and_back(q: PathModel, from: PathModel, to: PathModel)
    requires
        q.is_under(from),
    ensures
        rebase(q, from, to).is_under(to),
        rebase(rebase(q, from, to), to, from) == q,
        q == from <==> rebase(q, from, to) == to,
{
    let e = rebase(q, from, to);
    assert(e.parts.subrange(0, to.parts.len() as int) =~= to.parts);
    assert(e.parts.skip(to.parts.len() as int) =~= q.parts.skip(from.parts.len() as int));
    assert(q.parts.subrange(0, from.parts.len() as int) == from.parts);
    assert(rebase(e, to, from).parts =~= q.parts);
    if q == from {
        assert(e.parts =~= to.parts);
    }
    if e == to {
        assert(q.parts =~= from.parts);
    }
}

/// Sharing twice is sharing once.
///
/// Take a file that exists and lies in the worktree at `repo_root`, and let
/// that worktree be one of the repository's worktrees once the file has been
/// moved into shared storage. After `share`, the file is a symbolic link, and
/// a second `share` of the same file that succeeds leaves the file system as
/// the first left it.
pub proof fn lemma_share_twice(
    m0: FsModel,
    root: PathModel,
    info: RepoModel,
    repo_root: PathModel,
    relative: PathModel,
)
    requires
        locate(m0, root, info, repo_root, relative) is Some,
        ({
            let t = locate(m0, root, info, repo_root, relative).unwrap();
            m0.path_exists(t.file) && (m0.is_symlink(t.file) || is_worktree(
                stored(m0, t),
                root,
                info,
                repo_root,
            ))
        }),
    ensures
        ({
            let t = locate(m0, root, info, repo_root, relative).unwrap();
            let m1 = shared_state(m0, root, info, t);
            &&& locate(m1, root, info, repo_root, relative) == Some(t)
            &&& m1.is_symlink(t.file)
            &&& shared_state(m1, root, info, t) == m1
            &&& forall|m2: FsModel|
                share_post(m1, m2, root, info, repo_root, relative, Ok::<(), GrmError>(()))
                    ==> m2 == m1
        }),
{
    let t = locate(m0, root, info, repo_root, relative).unwrap();
    if !m0.is_symlink(t.file) {
        let s = stored(m0, t);
        lemma_file_is_place(t.file, repo_root);
        assert(is_site(s, root, info, t.rel, t.file));
        assert(sites(s, root, info, t.rel).contains(t.file));
    }
}

/// After mounting, the worktree holds a link to everything that is shared.
///
/// Whatever shared storage below `top` holds that is no directory has, after
/// `mount`, a symbolic link to it at its place in the worktree.
pub proof fn lemma_mount_links_all(m0: FsModel, top: PathModel, repo_root: PathModel, c: PathModel)
    requires
        is_file_mirror(m0, top, repo_root, c),
    ensures
        mounted_state(m0, top, repo_root).path_exists(c),
        mounted_state(m0, top, repo_root).entries[c] == (NodeModel::Symlink {
            target: rebase(c, repo_root, top),
        }),
{
}

/// The caller's own file is never among the conflicts.
pub proof fn lemma_conflicts_exclude_own(m: FsModel, root: PathModel, info: RepoModel, t: Located)
    ensures
        !conflict_set(m, root, info, t).contains(t.file),
{
}

/// After a file was shared, it is a symbolic link at every one of its sites, and
/// those sites are the places that `unshare` looks at as long as the repository
/// has the same worktrees.
pub proof fn lemma_shared_everywhere(
    m0: FsModel,
    root: PathModel,
    info: RepoModel,
    t: Located,
)
    requires
        !m0.is_symlink(t.file),
        !t.rel.absolute,
        worktrees(shared_state(m0, root, info, t), root, info) == worktrees(
            stored(m0, t),
            root,
            info,
        ),
    ensures
        linked_sites(shared_state(m0, root, info, t), root, info, t.rel) == sites(
            stored(m0, t),
            root,
            info,
            t.rel,
        ),
{
    let s = stored(m0, t);
    let m1 = shared_state(m0, root, info, t);
    assert forall|c: PathModel|
        linked_sites(m1, root, info, t.rel).contains(c) <==> sites(s, root, info, t.rel).contains(
            c,
        ) by {
        let w = site_owner(c, t.rel);
        assert(worktrees(m1, root, info).contains(w) == worktrees(s, root, info).contains(w));
        if sites(s, root, info, t.rel).contains(c) {
            assert(m1.entries.contains_key(c));
        }
    }
    assert(linked_sites(m1, root, info, t.rel) =~= sites(s, root, info, t.rel));
}

/// A repository has as many sites for a path as it has worktrees.
pub proof fn lemma_sites_count(s: FsModel, root: PathModel, info: RepoModel, rel: PathModel)
    requires
        s.entries.dom().finite(),
        !rel.absolute,
    ensures
        worktrees(s, root, info).finite(),
        sites(s, root, info, rel).finite(),
        sites(s, root, info, rel).len() == worktrees(s, root, info).len(),
{
    let ws = worktrees(s, root, info);
    assert(ws.subset_of(s.entries.dom()));
    vstd::set_lib::lemma_len_subset(ws, s.entries.dom());
    let f = |w: PathModel| w.join(rel);
    assert(vstd::relations::injective_on(f, ws)) by {
        assert forall|w1: PathModel, w2: PathModel|
            ws.contains(w1) && ws.contains(w2) && #[trigger] f(w1) == #[trigger] f(
                w2,
            ) implies w1 == w2 by {
            assert(site_owner(w1.join(rel), rel) == w1) by {
                assert(w1.join(rel).parts.take(w1.join(rel).parts.len() - rel.parts.len())
                    =~= w1.parts);
            }
            assert(site_owner(w2.join(rel), rel) == w2) by {
                assert(w2.join(rel).parts.take(w2.join(rel).parts.len() - rel.parts.len())
                    =~= w2.parts);
            }
        }
    }
    assert(ws.map(f) =~= sites(s, root, info, rel)) by {
        assert forall|c: PathModel| ws.map(f).contains(c) <==> sites(s, root, info, rel).contains(
            c,
        ) by {
            if ws.map(f).contains(c) {
                let w = choose|w: PathModel| ws.contains(w) && c == f(w);
                assert(c.parts.take(c.parts.len() - rel.parts.len()) =~= w.parts);
                assert(site_owner(c, rel) == w);
            }
            if is_site(s, root, info, rel, c) {
                let w = site_owner(c, rel);
                assert(ws.contains(w) && c == f(w));
            }
        }
    }
    vstd::set_lib::lemma_map_size(ws, sites(s, root, info, rel), f);
}

/// Isolating after sharing gives the file back.
///
/// Take a file that exists, is no symbolic link and lies in the worktree at
/// `repo_root`, one of the repository's worktrees. Let the file and its place
/// in shared storage lie apart, and the sites of the file apart from that
/// place. After `share` and then `isolate`, the file is no symbolic link, it
/// is what it was before, and where it was a directory, all that lay below it
/// lies there again.
pub proof fn lemma_isolate_restores(
    m0: FsModel,
    root: PathModel,
    info: RepoModel,
    repo_root: PathModel,
    relative: PathModel,
)
    requires
        locate(m0, root, info, repo_root, relative) is Some,
        ({
            let t = locate(m0, root, info, repo_root, relative).unwrap();
            let s = stored(m0, t);
            &&& m0.path_exists(t.file)
            &&& !m0.is_symlink(t.file)
            &&& is_worktree(s, root, info, repo_root)
            &&& !t.file.is_under(t.shared)
            &&& !t.shared.is_under(t.file)
            &&& forall|c: PathModel|
                is_site(s, root, info, t.rel, c) ==> !c.is_under(t.shared) && !t.shared.is_under(c)
        }),
    ensures
        ({
            let t = locate(m0, root, info, repo_root, relative).unwrap();
            let m1 = shared_state(m0, root, info, t);
            let m2 = isolated_state(m1, t);
            &&& m1.is_symlink(t.file)
            &&& m1.path_exists(t.shared)
            &&& isolate_post(m1, m2, root, info, repo_root, relative, Ok::<(), GrmError>(()))
            &&& m2.path_exists(t.file)
            &&& !m2.is_symlink(t.file)
            &&& m2.entries[t.file] == m0.entries[t.file]
            &&& m0.is_dir(t.file) ==> forall|q: PathModel|
                q.is_under(t.file) && m0.path_exists(q) ==> m2.path_exists(q) && m2.entries[q]
                    == m0.entries[q]
        }),
{
    let t = locate(m0, root, info, repo_root, relative).unwrap();
    let file = t.file;
    let shared = t.shared;
    let s1 = match shared.parent() {
        Some(p) => m0.create_dir(p),
        None => m0,
    };
    let s2 = if s1.path_exists(shared) {
        s1.remove(shared)
    } else {
        s1
    };
    let s = stored(m0, t);
    assert(s == s2.rename(file, shared));
    let places = sites(s, root, info, t.rel);
    let m1 = shared_state(m0, root, info, t);
    assert(m1 == relinked(s, places, always(shared)));
    let x = m1.remove(file);
    let m2 = isolated_state(m1, t);
    lemma_share_twice(m0, root, info, repo_root, relative);
    assert(m2 == x.copy(shared, file));
    // what lay at or below the file reaches shared storage, stays there, and comes back
    assert forall|q: PathModel|
        q.is_under(file) && m0.path_exists(q) && (m0.is_dir(file) || q == file) implies {
        let e = rebase(q, file, shared);
        &&& s2.entries.contains_key(q) && s2.entries[q] == m0.entries[q]
        &&& s.entries.contains_key(e) && s.entries[e] == m0.entries[q]
        &&& m1.entries.contains_key(e) && m1.entries[e] == m0.entries[q]
        &&& x.entries.contains_key(e) && x.entries[e] == m0.entries[q]
    } by {
        let e = rebase(q, file, shared);
        lemma_rebase_there_and_back(q, file, shared);
        // the directories made for shared storage are not below the file
        if shared.parent() is Some {
            let p = shared.parent().unwrap();
            crate::path::lemma_parent(shared, p);
            if p.is_under(q) {
                lemma_under(shared, p, q);
                lemma_under(shared, q, file);
            }
        }
        assert(s1.entries.contains_key(q) && s1.entries[q] == m0.entries[q]);
        // what was removed from shared storage is not below the file
        if q.is_under(shared) {
            lemma_comparable(q, file, shared);
        }
        assert(s2.entries.contains_key(q) && s2.entries[q] == m0.entries[q]);
        // the file is a directory after these steps exactly if it was one before
        lemma_under(file, file, file);
        lemma_under(shared, shared, shared);
        assert(s1.entries.contains_key(file) && s1.entries[file] == m0.entries[file]) by {
            if shared.parent() is Some {
                let p = shared.parent().unwrap();
                crate::path::lemma_parent(shared, p);
                if p.is_under(file) {
                    lemma_under(shared, p, file);
                }
            }
        }
        assert(s2.entries[file] == m0.entries[file] && s2.entries.contains_key(file));
        assert(s2.is_dir(file) == m0.is_dir(file));
        assert(s2.arrives(file, shared, e));
        assert(s.entries.contains_key(e) && s.entries[e] == m0.entries[q]);
        // linking leaves shared storage alone
        assert(!places.contains(e)) by {
            if places.contains(e) {
                assert(is_site(s, root, info, t.rel, e));
            }
        }
        assert(!is_cleared(s, places, e)) by {
            if is_cleared(s, places, e) {
                let c = choose|c: PathModel|
                    #[trigger] places.contains(c) && e.is_below(c) && s.path_exists(c);
                assert(is_site(s, root, info, t.rel, c));
                lemma_comparable(e, c, shared);
            }
        }
        assert(m1.entries.contains_key(e) && m1.entries[e] == m0.entries[q]);
        // removing the link leaves shared storage alone
        if e.is_under(file) {
            lemma_comparable(e, file, shared);
        }
        assert(x.entries.contains_key(e) && x.entries[e] == m0.entries[q]);
    }
    lemma_under(file, file, file);
    lemma_rebase_there_and_back(file, file, shared);
    assert(rebase(file, file, shared) == shared);
    assert(x.entries.contains_key(shared) && x.entries[shared] == m0.entries[file]);
    assert(m1.path_exists(shared));
    assert(x.is_dir(shared) == m0.is_dir(file));
    assert forall|q: PathModel|
        q.is_under(file) && m0.path_exists(q) && (m0.is_dir(file) || q == file) implies m2.path_exists(
        q,
    ) && m2.entries[q] == m0.entries[q] by {
        lemma_rebase_there_and_back(q, file, shared);
        assert(x.arrives(shared, file, q));
    }
    assert(m2.path_exists(file) && m2.entries[file] == m0.entries[file]);
}

/// What lies at or below the place of `rel` in `w` lies below `w`.
proof fn lemma_below_owner(x: PathModel, w: PathModel, rel: PathModel)
    requires
        !rel.absolute,
        rel.parts.len() > 0,
        x.is_under(w.join(rel)),
    ensures
        x.is_below(w),
{
    let c = w.join(rel);
    assert(c.parts.subrange(0, w.parts.len() as int) =~= w.parts);
    assert(c.is_under(w));
    lemma_under(x, c, w);
}

/// A child that lies at or below `c` is `c`, or its parent lies at or below `c`.
proof fn lemma_child_under(a: PathModel, name: Seq<char>, c: PathModel)
    requires
        a.child(name).is_under(c),
    ensures
        a.is_under(c) || c == a.child(name),
{
    let g = a.child(name);
    if c.parts.len() <= a.parts.len() {
        assert(a.parts.subrange(0, c.parts.len() as int) =~= c.parts) by {
            assert forall|i: int| 0 <= i < c.parts.len() implies a.parts[i] == c.parts[i] by {
                assert(g.parts.subrange(0, c.parts.len() as int)[i] == c.parts[i]);
            }
        }
    } else {
        lemma_under(g, c, c);
    }
}

/// The ancestor of `p` with as many components as `w`, which lies above `p`, is `w`.
proof fn lemma_ancestor_is(p: PathModel, d: PathModel, w: PathModel)
    requires
        p.parent() == Some(d),
        p.is_below(w),
    ensures
        d.is_under(w),
        d.prefix(w.parts.len() as int) == w,
{
    crate::path::lemma_parent(p, d);
    lemma_under(p, d, w);
    lemma_under(d, w, w);
}

/// Putting links into repositories does not change which repositories there are.
///
/// Let every member of `places` be the place of `rel` in a repository that the
/// scan from `root` reports, `rel` being a path of at least one component that
/// is not `.git` itself. After the places were replaced by links, the scan
/// reports the same repositories.
pub proof fn lemma_links_keep_repositories(
    s: FsModel,
    root: PathModel,
    places: Set<PathModel>,
    target_of: spec_fn(PathModel) -> PathModel,
    rel: PathModel,
    p: PathModel,
)
    requires
        !rel.absolute,
        rel.parts.len() > 0,
        rel.parts != seq![".git"@],
        forall|c: PathModel|
            #[trigger] places.contains(c) ==> c == site_owner(c, rel).join(rel) && is_scanned(
                s,
                root,
                site_owner(c, rel),
            ),
    ensures
        is_scanned(relinked(s, places, target_of), root, p) <==> is_scanned(s, root, p),
{
    let m1 = relinked(s, places, target_of);
    let mode = WalkMode::Repositories;
    let git = ".git"@;
    // what does not lie at or below a place is as it was
    assert forall|x: PathModel| (forall|c: PathModel| places.contains(c) ==> !x.is_under(c))
        implies #[trigger] m1.entries.contains_key(x) == s.entries.contains_key(x) && (
    m1.entries.contains_key(x) ==> m1.entries[x] == s.entries[x]) by {
        if is_cleared(s, places, x) {
            let c = choose|c: PathModel|
                #[trigger] places.contains(c) && x.is_below(c) && s.path_exists(c);
        }
    }
    // nothing lies at or below a place and is, or holds in its `.git`, what a repository is
    assert forall|w: PathModel, c: PathModel|
        is_scanned(s, root, w) && #[trigger] places.contains(c) implies !(#[trigger] w.is_under(
        c,
    )) && !w.child(git).is_under(c) by {
        let o = site_owner(c, rel);
        if w.is_under(c) {
            lemma_below_owner(w, o, rel);
            lemma_repositories_apart(s, root, o, w);
        }
        if w.child(git).is_under(c) {
            lemma_child_under(w, git, c);
            lemma_below_owner(w.child(git), o, rel);
            assert(w.child(git).parts.drop_last() =~= w.parts);
            assert(o.parts.subrange(0, o.parts.len() as int) =~= o.parts);
            assert(w.is_under(o)) by {
                assert(w.parts.subrange(0, o.parts.len() as int) =~= o.parts) by {
                    assert forall|i: int| 0 <= i < o.parts.len() implies w.parts[i]
                        == o.parts[i] by {
                        assert(w.child(git).parts.subrange(0, o.parts.len() as int)[i]
                            == o.parts[i]);
                    }
                }
            }
            lemma_repositories_apart(s, root, o, w);
            assert(rel.parts =~= seq![git]) by {
                assert(c.parts =~= w.parts + rel.parts);
                assert(c.parts =~= w.parts.push(git));
                assert(rel.parts.len() == 1);
                assert(rel.parts[0] == c.parts[w.parts.len() as int]);
            }
        }
    }
    // so every repository is one afterwards
    assert forall|w: PathModel| is_scanned(s, root, w) implies #[trigger] reports(m1, mode, w) by {
        assert(forall|c: PathModel| places.contains(c) ==> !w.is_under(c));
        assert(forall|c: PathModel| places.contains(c) ==> !w.child(git).is_under(c));
        assert(m1.entries.contains_key(w) == s.entries.contains_key(w));
        assert(m1.entries.contains_key(w.child(git)) == s.entries.contains_key(w.child(git)));
    }
    if p.parent() is Some {
        let d = p.parent().unwrap();
        crate::path::lemma_parent(p, d);
        // in neither state does a repository lie above what the scan reads and reports
        assert forall|x: PathModel, c: PathModel|
            (is_scanned(s, root, p) || is_scanned(m1, root, p)) && p.is_under(x)
                && #[trigger] places.contains(c) implies !(#[trigger] x.is_under(c)) by {
            if x.is_under(c) {
                let o = site_owner(c, rel);
                lemma_below_owner(x, o, rel);
                lemma_under(p, x, o);
                assert(p.is_below(o));
                lemma_ancestor_is(p, d, o);
                let parent_o = o.parent().unwrap();
                crate::path::lemma_parent(o, parent_o);
                lemma_under(o, parent_o, root);
                let k = o.parts.len() as int;
                assert(root.parts.len() < k <= d.parts.len());
                if is_scanned(s, root, p) {
                    assert(descends(s, mode, d.prefix(k)));
                } else {
                    assert(descends(m1, mode, d.prefix(k)));
                    assert(reports(m1, mode, o));
                }
            }
        }
        if is_scanned(s, root, p) || is_scanned(m1, root, p) {
            lemma_under(p, p, p);
            // the `.git` of what the scan walks into is no place, and that of what it
            // reports is none either
            assert forall|x: PathModel, c: PathModel|
                p.is_under(x) && #[trigger] places.contains(c) implies !(#[trigger] x.child(
                git,
            )).is_under(c) || (x == p && c == p.child(git)) || (x != p && c == x.child(git)) by {
                if x.child(git).is_under(c) {
                    lemma_child_under(x, git, c);
                }
            }
            assert forall|c: PathModel| #[trigger] places.contains(c) implies c != p.child(
                git,
            ) by {
                if c == p.child(git) {
                    let o = site_owner(c, rel);
                    lemma_under(c, c, c);
                    lemma_below_owner(c, o, rel);
                    assert(c.parts.drop_last() =~= p.parts);
                    assert(p.is_under(o)) by {
                        assert(p.parts.subrange(0, o.parts.len() as int) =~= o.parts) by {
                            assert forall|i: int| 0 <= i < o.parts.len() implies p.parts[i]
                                == o.parts[i] by {
                                assert(c.parts.subrange(0, o.parts.len() as int)[i]
                                    == o.parts[i]);
                            }
                        }
                    }
                    if p == o {
                        assert(rel.parts =~= seq![git]) by {
                            assert(c.parts =~= o.parts + rel.parts);
                            assert(rel.parts.len() == 1);
                            assert(rel.parts[0] == c.parts[o.parts.len() as int]);
                        }
                    } else {
                        lemma_under(p, o, o);
                        assert(p.is_below(o));
                        lemma_ancestor_is(p, d, o);
                        let parent_o = o.parent().unwrap();
                        crate::path::lemma_parent(o, parent_o);
                        lemma_under(o, parent_o, root);
                        let k = o.parts.len() as int;
                        if is_scanned(s, root, p) {
                            assert(descends(s, mode, d.prefix(k)));
                        } else {
                            assert(descends(m1, mode, d.prefix(k)));
                            assert(reports(m1, mode, o));
                        }
                    }
                }
            }
            // the place itself: what the scan reports is the same in both states
            assert(forall|c: PathModel| places.contains(c) ==> !p.is_under(c));
            assert(forall|c: PathModel| places.contains(c) ==> !p.child(git).is_under(c));
            assert(m1.entries.contains_key(p) == s.entries.contains_key(p));
            assert(m1.entries.contains_key(p.child(git)) == s.entries.contains_key(p.child(git)));
            assert(reports(m1, mode, p) == reports(s, mode, p));
            // the way down: what the scan walks into is the same in both states
            assert forall|k: int| root.parts.len() < k <= d.parts.len() implies descends(
                m1,
                mode,
                #[trigger] d.prefix(k),
            ) == descends(s, mode, d.prefix(k)) by {
                let a = d.prefix(k);
                assert(d.parts.subrange(0, k) =~= a.parts);
                assert(d.is_under(a));
                lemma_under(p, d, a);
                assert(p.is_under(a));
                assert(forall|c: PathModel| places.contains(c) ==> !a.is_under(c));
                assert(m1.entries.contains_key(a) == s.entries.contains_key(a));
                let g = a.child(git);
                if exists|c: PathModel| places.contains(c) && g.is_under(c) {
                    let c = choose|c: PathModel| places.contains(c) && g.is_under(c);
                    assert(a != p);
                    assert(c == g);
                    // a place at the `.git` of a directory above `p`: its owner lies above `p`
                    let o = site_owner(c, rel);
                    lemma_under(c, c, c);
                    lemma_below_owner(c, o, rel);
                    assert(c.parts.drop_last() =~= a.parts);
                    assert(a.is_under(o)) by {
                        assert(a.parts.subrange(0, o.parts.len() as int) =~= o.parts) by {
                            assert forall|i: int| 0 <= i < o.parts.len() implies a.parts[i]
                                == o.parts[i] by {
                                assert(c.parts.subrange(0, o.parts.len() as int)[i]
                                    == o.parts[i]);
                            }
                        }
                    }
                    lemma_under(p, a, o);
                    lemma_under(p, o, o);
                    assert(p.parts.len() > a.parts.len());
                    assert(p.is_below(o));
                    lemma_ancestor_is(p, d, o);
                    let parent_o = o.parent().unwrap();
                    crate::path::lemma_parent(o, parent_o);
                    lemma_under(o, parent_o, root);
                    let j = o.parts.len() as int;
                    if is_scanned(s, root, p) {
                        assert(descends(s, mode, d.prefix(j)));
                    } else {
                        assert(descends(m1, mode, d.prefix(j)));
                        assert(reports(m1, mode, o));
                    }
                } else {
                    assert(forall|c: PathModel| places.contains(c) ==> !g.is_under(c));
                    assert(m1.entries.contains_key(g) == s.entries.contains_key(g));
                }
            }
            assert(is_traversed(m1, mode, root, d) == is_traversed(s, mode, root, d));
        }
    }
}

/// Sharing a file that is not `.git` itself leaves the repository with the
/// worktrees that it had.
pub proof fn lemma_share_keeps_worktrees(m0: FsModel, root: PathModel, info: RepoModel, t: Located)
    requires
        !m0.is_symlink(t.file),
        !t.rel.absolute,
        t.rel.parts.len() > 0,
        t.rel.parts != seq![".git"@],
    ensures
        worktrees(shared_state(m0, root, info, t), root, info) == worktrees(
            stored(m0, t),
            root,
            info,
        ),
{
    let s = stored(m0, t);
    let places = sites(s, root, info, t.rel);
    let m1 = shared_state(m0, root, info, t);
    assert forall|p: PathModel|
        worktrees(m1, root, info).contains(p) <==> worktrees(s, root, info).contains(p) by {
        lemma_links_keep_repositories(s, root, places, always(t.shared), t.rel, p);
    }
    assert(worktrees(m1, root, info) =~= worktrees(s, root, info));
}

/// Unsharing after sharing counts every worktree.
///
/// Take a file that is no symbolic link, other than the top of its worktree
/// and the `.git` in it, and share it, the repository having `N` worktrees
/// once the file has been moved into shared storage. Then `unshare` of the
/// same path, from whichever worktree, returns `N`.
pub proof fn lemma_unshare_counts_worktrees(
    m0: FsModel,
    root: PathModel,
    info: RepoModel,
    t: Located,
)
    requires
        stored(m0, t).entries.dom().finite(),
        !m0.is_symlink(t.file),
        !t.rel.absolute,
        t.rel.parts.len() > 0,
        t.rel.parts != seq![".git"@],
    ensures
        forall|repo_root: PathModel, relative: PathModel, m2: FsModel, n: usize|
            (locate(shared_state(m0, root, info, t), root, info, repo_root, relative) matches Some(
                u,
            ) && u.rel == t.rel) && #[trigger] unshare_post(
                shared_state(m0, root, info, t),
                m2,
                root,
                info,
                repo_root,
                relative,
                Ok::<usize, GrmError>(n),
            ) ==> n == worktrees(stored(m0, t), root, info).len(),
{
    lemma_share_keeps_worktrees(m0, root, info, t);
    lemma_shared_everywhere(m0, root, info, t);
    lemma_sites_count(stored(m0, t), root, info, t.rel);
}

/// How the worktree `w` of a repository and the place `s` of one of its files
/// in shared storage part ways below the root: `s` goes on with `.shared`, the
/// host and the user, `w` with the host, the user and a name that holds `+`.
pub open spec fn kept_apart(root: PathModel, w: PathModel, s: PathModel) -> bool {
    let k = root.parts.len() as int;
    &&& w.parts.len() >= k + 3
    &&& s.parts.len() >= k + 4
    &&& s.parts[k] == ".shared"@
    &&& s.parts[k + 1] == w.parts[k]
    &&& s.parts[k + 2] == w.parts[k + 1]
    &&& has_char(w.parts[k + 2], '+')
}

/// The path of a worktree, made of names, goes on below the root with the
/// host, the user, and a name that holds `+`.
pub proof fn lemma_worktree_shape(m: FsModel, root: PathModel, info: RepoModel, w: PathModel)
    requires
        info.wf(),
        w.wf(),
        is_worktree(m, root, info, w),
    ensures
        w.is_below(root),
        w.parts.len() >= root.parts.len() + 3,
        w.parts[root.parts.len() as int] == info.host,
        w.parts[root.parts.len() as int + 1] == info.user,
        has_char(w.parts[root.parts.len() as int + 2], '+'),
{
    let sep = seq!['/'];
    let k = root.parts.len() as int;
    let d = w.parent().unwrap();
    crate::path::lemma_parent(w, d);
    lemma_under(w, d, root);
    // the text of the worktree
    let rest = w.parts.skip(k);
    assert(root.extended(rest) == w) by {
        assert(w.parts.subrange(0, k) == root.parts);
        assert(root.parts + rest =~= w.parts);
    }
    lemma_render_below(root, rest);
    let y = join(rest, sep);
    // the text that the path of every worktree begins with
    let tail = info.repo + seq!['+'];
    lemma_parse_name(info.host);
    lemma_parse_name(info.user);
    assert(!has_char(tail, '/')) by {
        lemma_index_of(info.repo, '/');
        assert forall|j: int| 0 <= j < tail.len() implies tail[j] != '/' by {
            if j < info.repo.len() {
                assert(tail[j] == info.repo[j]);
            }
        }
        lemma_index_of_is(tail, '/', tail.len() as int);
    }
    assert(tail.len() >= 2);
    lemma_parse_name(tail);
    let names = seq![info.host, info.user, tail];
    assert(repo_path(root, info, Seq::empty()) == root.extended(names)) by {
        assert(info.repo + seq!['+'] + Seq::<char>::empty() =~= tail);
        assert(repo_path(root, info, Seq::empty()).parts =~= root.parts + names);
    }
    lemma_render_below(root, names);
    let x = join(names, sep);
    // the one begins the other, past what they share
    let b = root.base();
    assert(x.is_prefix_of(y)) by {
        let px = b + x;
        let py = b + y;
        assert(px == worktree_prefix(root, info));
        assert(py == w.render());
        assert(y.subrange(0, x.len() as int) =~= x) by {
            assert forall|i: int| 0 <= i < x.len() implies y[i] == x[i] by {
                assert(py.subrange(0, px.len() as int)[b.len() + i] == px[b.len() + i]);
            }
        }
    }
    // piece by piece
    crate::text::lemma_join_front(info.host, seq![info.user, tail], sep);
    assert(seq![info.host] + seq![info.user, tail] =~= names);
    crate::text::lemma_join_front(info.user, seq![tail], sep);
    assert(seq![info.user] + seq![tail] =~= seq![info.user, tail]);
    let x1 = info.user + sep + tail;
    assert(x == info.host + sep + x1);
    assert forall|i: int| 0 <= i < rest.len() implies !has_char(#[trigger] rest[i], '/') by {
        assert(rest[i] == w.parts[k + i]);
    }
    crate::text::lemma_join_first_piece(info.host, x1, rest, '/');
    let rest1 = rest.drop_first();
    assert forall|i: int| 0 <= i < rest1.len() implies !has_char(#[trigger] rest1[i], '/') by {
        assert(rest1[i] == rest[i + 1]);
    }
    crate::text::lemma_join_first_piece(info.user, tail, rest1, '/');
    let rest2 = rest1.drop_first();
    crate::text::lemma_join_first_begins(tail, rest2, '/');
    let name = rest2[0];
    assert(name == w.parts[k + 2]) by {
        assert(rest2[0] == rest1[1]);
        assert(rest1[1] == rest[2]);
    }
    assert(rest[0] == w.parts[k]);
    assert(rest1[0] == rest[1]);
    assert(rest[1] == w.parts[k + 1]);
    assert(name[info.repo.len() as int] == '+') by {
        let at = info.repo.len() as int;
        assert(name.subrange(0, tail.len() as int)[at] == tail[at]);
    }
    crate::text::lemma_free_of(name, '+');
}

/// The place of a file in shared storage goes on below the root with
/// `.shared`, the host and the user, and at least one component more.
proof fn lemma_shared_shape(root: PathModel, info: RepoModel, rel: PathModel)
    requires
        info.wf(),
        !rel.absolute,
        rel.parts.len() > 0,
    ensures
        shared_path(root, info, rel).parts.len() >= root.parts.len() + 4,
        shared_path(root, info, rel).parts[root.parts.len() as int] == ".shared"@,
        shared_path(root, info, rel).parts[root.parts.len() as int + 1] == info.host,
        shared_path(root, info, rel).parts[root.parts.len() as int + 2] == info.user,
        shared_path(root, info, rel).parts == root.parts + seq![
            ".shared"@,
            info.host,
            info.user,
        ] + crate::path::parse_path(info.repo).parts + rel.parts,
{
    reveal_strlit(".shared");
    let name = ".shared"@;
    assert(name.len() == 7);
    assert(name != seq!['.']);
    lemma_index_of_is(name, '/', 7);
    lemma_parse_name(name);
    lemma_parse_name(info.host);
    lemma_parse_name(info.user);
    let name_of_repo = crate::path::parse_path(info.repo);
    assert(!name_of_repo.absolute) by {
        crate::text::lemma_index_of(info.repo, '/');
    }
    let sp = shared_path(root, info, rel);
    assert(sp.parts =~= root.parts + seq![name, info.host, info.user] + name_of_repo.parts
        + rel.parts);
}

/// A worktree of a repository and the place of a file of that repository in
/// shared storage part ways below the root.
pub proof fn lemma_kept_apart(
    m: FsModel,
    root: PathModel,
    info: RepoModel,
    w: PathModel,
    rel: PathModel,
)
    requires
        info.wf(),
        w.wf(),
        is_worktree(m, root, info, w),
        !rel.absolute,
        rel.parts.len() > 0,
    ensures
        kept_apart(root, w, shared_path(root, info, rel)),
{
    lemma_worktree_shape(m, root, info, w);
    lemma_shared_shape(root, info, rel);
}

/// Paths that part ways do not have the same three components below the root.
proof fn lemma_three_differ(root: PathModel, w: PathModel, s: PathModel)
    requires
        kept_apart(root, w, s),
    ensures
        ({
            let k = root.parts.len() as int;
            !(s.parts[k] == w.parts[k] && s.parts[k + 1] == w.parts[k + 1] && s.parts[k + 2]
                == w.parts[k + 2])
        }),
        ".shared"@ != ".git"@,
{
    reveal_strlit(".shared");
    reveal_strlit(".git");
    let name = ".shared"@;
    assert(name.len() == 7);
    assert(".git"@.len() == 4);
    lemma_index_of_is(name, '+', 7);
}

/// Nothing at or below a worktree lies at, above or below the place in shared
/// storage that the worktree is kept apart from.
proof fn lemma_part_ways(root: PathModel, w: PathModel, s: PathModel, q: PathModel)
    requires
        kept_apart(root, w, s),
        q.is_under(w),
    ensures
        !q.is_under(s),
        !s.is_under(q),
{
    let k = root.parts.len() as int;
    lemma_three_differ(root, w, s);
    lemma_under(q, w, w);
    assert forall|j: int| 0 <= j < w.parts.len() implies q.parts[j] == w.parts[j] by {
        assert(q.parts.subrange(0, w.parts.len() as int)[j] == w.parts[j]);
    }
    if q.is_under(s) {
        assert forall|j: int| 0 <= j < s.parts.len() implies q.parts[j] == s.parts[j] by {
            assert(q.parts.subrange(0, s.parts.len() as int)[j] == s.parts[j]);
        }
        assert(q.parts[k] == s.parts[k]);
        assert(q.parts[k + 1] == s.parts[k + 1]);
        assert(q.parts[k + 2] == s.parts[k + 2]);
    }
    if s.is_under(q) {
        assert forall|j: int| 0 <= j < q.parts.len() implies q.parts[j] == s.parts[j] by {
            assert(s.parts.subrange(0, q.parts.len() as int)[j] == q.parts[j]);
        }
        assert(q.parts[k] == s.parts[k]);
        assert(q.parts[k + 1] == s.parts[k + 1]);
        assert(q.parts[k + 2] == s.parts[k + 2]);
    }
}

/// A directory `x` above a worktree, or the worktree itself, and the `.git` in
/// it do not lie below the place in shared storage, and the `.git` does not
/// lie above it.
proof fn lemma_apart_entry(root: PathModel, w: PathModel, s: PathModel, x: PathModel, y: PathModel)
    requires
        kept_apart(root, w, s),
        w.is_under(x),
        x.is_under(root),
        x.parts.len() > root.parts.len(),
        y == x || y == x.child(".git"@),
    ensures
        !y.is_under(s),
        y != x ==> (s.parent() matches Some(p) ==> !p.is_under(y)),
{
    let k = root.parts.len() as int;
    let n = x.parts.len() as int;
    lemma_three_differ(root, w, s);
    lemma_under(w, x, x);
    assert forall|j: int| 0 <= j < n implies x.parts[j] == w.parts[j] && y.parts[j]
        == x.parts[j] by {
        assert(w.parts.subrange(0, n)[j] == x.parts[j]);
    }
    if y.is_under(s) {
        assert forall|j: int| 0 <= j < s.parts.len() implies y.parts[j] == s.parts[j] by {
            assert(y.parts.subrange(0, s.parts.len() as int)[j] == s.parts[j]);
        }
        assert(n >= k + 3);
        assert(y.parts[k] == s.parts[k]);
        assert(y.parts[k + 1] == s.parts[k + 1]);
        assert(y.parts[k + 2] == s.parts[k + 2]);
    }
    if y != x {
        let p = s.parent().unwrap();
        if p.is_under(y) {
            assert(y.parts[n] == ".git"@);
            assert forall|j: int| 0 <= j <= n implies y.parts[j] == s.parts[j] by {
                assert(p.parts.subrange(0, y.parts.len() as int)[j] == y.parts[j]);
                assert(p.parts[j] == s.parts[j]);
            }
            assert(x.parts[k] == s.parts[k]);
            if n >= k + 2 {
                assert(x.parts[k + 1] == s.parts[k + 1]);
            }
            if n >= k + 3 {
                assert(x.parts[k + 2] == s.parts[k + 2]);
            }
            assert(s.parts[n] == ".git"@);
        }
    }
}

/// Moving a file into shared storage leaves every path made of names.
proof fn lemma_stored_wf(m0: FsModel, t: Located)
    requires
        m0.wf(),
        t.shared.wf(),
    ensures
        stored(m0, t).wf(),
{
    let s = stored(m0, t);
    let mr = crate::shared_resource::made_ready(m0, t);
    let shared = t.shared;
    assert forall|e: PathModel| #[trigger] mr.entries.contains_key(e) implies e.wf() by {
        if !m0.entries.contains_key(e) {
            let p = shared.parent().unwrap();
            assert(p.is_under(e));
            assert forall|i: int| 0 <= i < e.parts.len() implies is_name(#[trigger] e.parts[i])
                && !has_char(e.parts[i], '/') by {
                assert(e.parts[i] == p.parts.subrange(0, e.parts.len() as int)[i]);
                assert(p.parts[i] == shared.parts[i]);
            }
        }
    }
    assert forall|q: PathModel| #[trigger] s.entries.contains_key(q) implies q.wf() by {
        if mr.arrives(t.file, shared, q) {
            let e = rebase(q, shared, t.file);
            assert(mr.entries.contains_key(e));
            let n = shared.parts.len() as int;
            assert forall|i: int| 0 <= i < q.parts.len() implies is_name(#[trigger] q.parts[i])
                && !has_char(q.parts[i], '/') by {
                if i < n {
                    assert(q.parts[i] == q.parts.subrange(0, n)[i]);
                } else {
                    assert(e.parts[t.file.parts.len() + i - n] == q.parts[i]);
                }
            }
        } else {
            assert(mr.entries.contains_key(q));
        }
    }
}

/// Of two repositories that the scan reports in one of two states, none lies
/// inside the other.
proof fn lemma_scanned_apart(a: FsModel, b: FsModel, root: PathModel, p: PathModel, q: PathModel)
    requires
        (is_scanned(a, root, p) && is_scanned(a, root, q)) || (is_scanned(b, root, p)
            && is_scanned(b, root, q)),
        q.is_under(p),
    ensures
        p == q,
{
    if is_scanned(a, root, p) && is_scanned(a, root, q) {
        lemma_repositories_apart(a, root, p, q);
    } else {
        lemma_repositories_apart(b, root, p, q);
    }
}

/// In a tree, what lies above an entry, down from the first component, holds
/// something.
proof fn lemma_ancestors_exist(m: FsModel, p: PathModel, k: int)
    requires
        m.is_tree(),
        m.entries.contains_key(p),
        1 <= k <= p.parts.len(),
    ensures
        m.entries.contains_key(p.prefix(k)),
    decreases p.parts.len() - k,
{
    if k < p.parts.len() {
        let d = crate::ports::file_system::pop(p);
        assert(m.entries.contains_key(d));
        lemma_ancestors_exist(m, d, k);
        assert(d.parts.take(k) =~= p.parts.take(k));
    } else {
        assert(p.parts.take(k) =~= p.parts);
    }
}

/// Moving a file into shared storage leaves alone what lies above a repository
/// and the `.git` in it.
///
/// `x` is the repository `w` or a directory above it, below the root, and `y`
/// is `x` or the `.git` in `x`. The scan reports `w` and the repository that
/// the file lies in, both before the move or both after it.
proof fn lemma_storing_keeps_entry(
    m0: FsModel,
    root: PathModel,
    repo_root: PathModel,
    t: Located,
    w: PathModel,
    x: PathModel,
    y: PathModel,
)
    requires
        (is_scanned(m0, root, repo_root) && is_scanned(m0, root, w)) || (is_scanned(
            stored(m0, t),
            root,
            repo_root,
        ) && is_scanned(stored(m0, t), root, w)),
        kept_apart(root, w, t.shared),
        !t.rel.absolute,
        t.rel.parts.len() > 0,
        t.rel.parts != seq![".git"@],
        t.file == repo_root.join(t.rel),
        w.is_under(x),
        x.is_under(root),
        x.parts.len() > root.parts.len(),
        m0.entries.contains_key(x),
        y == x || y == x.child(".git"@),
    ensures
        stored(m0, t).entries.contains_key(y) == m0.entries.contains_key(y),
        m0.entries.contains_key(y) ==> stored(m0, t).entries[y] == m0.entries[y],
{
    let git = ".git"@;
    let file = t.file;
    let shared = t.shared;
    lemma_under(x, x, x);
    assert(x.child(git).parts.subrange(0, x.parts.len() as int) =~= x.parts);
    assert(y.is_under(x));
    // nothing is made at `y`, nothing is removed there, and nothing arrives there
    lemma_apart_entry(root, w, shared, x, y);
    // `y` is not moved away
    if y.is_under(file) {
        lemma_below_owner(y, repo_root, t.rel);
        lemma_child_under(x, git, file);
        if y == x || x.is_under(file) {
            lemma_below_owner(x, repo_root, t.rel);
            lemma_under(w, x, repo_root);
            lemma_scanned_apart(m0, stored(m0, t), root, repo_root, w);
            lemma_under(x, repo_root, repo_root);
        } else {
            assert(file == x.child(git));
            assert(file.parts.drop_last() =~= x.parts);
            assert(file.parts =~= repo_root.parts + t.rel.parts);
            assert(x.is_under(repo_root)) by {
                assert(x.parts.subrange(0, repo_root.parts.len() as int) =~= repo_root.parts) by {
                    assert forall|i: int| 0 <= i < repo_root.parts.len() implies x.parts[i]
                        == repo_root.parts[i] by {
                        assert(file.parts[i] == repo_root.parts[i]);
                    }
                }
            }
            lemma_under(w, x, repo_root);
            lemma_scanned_apart(m0, stored(m0, t), root, repo_root, w);
            lemma_under(repo_root, x, x);
            assert(t.rel.parts =~= seq![git]) by {
                assert(t.rel.parts.len() == 1);
                assert(t.rel.parts[0] == file.parts[repo_root.parts.len() as int]);
            }
        }
    }
}

/// Moving a file into shared storage leaves a repository a repository.
///
/// Take a file in the repository at `repo_root`, other than the top of the
/// repository and the `.git` in it. Any repository `w` that is kept apart
/// from the file's place in shared storage and that the scan reports before
/// the file is moved is reported after.
pub proof fn lemma_storing_keeps_repository(
    m0: FsModel,
    root: PathModel,
    repo_root: PathModel,
    t: Located,
    w: PathModel,
)
    requires
        is_scanned(m0, root, repo_root),
        is_scanned(m0, root, w),
        kept_apart(root, w, t.shared),
        !t.rel.absolute,
        t.rel.parts.len() > 0,
        t.rel.parts != seq![".git"@],
        t.file == repo_root.join(t.rel),
    ensures
        is_scanned(stored(m0, t), root, w),
{
    let mode = WalkMode::Repositories;
    let s = stored(m0, t);
    let git = ".git"@;
    let d = w.parent().unwrap();
    crate::path::lemma_parent(w, d);
    lemma_under(w, d, root);
    lemma_under(w, w, w);
    lemma_storing_keeps_entry(m0, root, repo_root, t, w, w, w);
    lemma_storing_keeps_entry(m0, root, repo_root, t, w, w, w.child(git));
    assert(reports(s, mode, w));
    assert forall|k: int| root.parts.len() < k <= d.parts.len() implies descends(
        s,
        mode,
        #[trigger] d.prefix(k),
    ) by {
        let a = d.prefix(k);
        assert(d.parts.subrange(0, k) =~= a.parts);
        assert(d.is_under(a));
        lemma_under(w, d, a);
        assert(a.parts.subrange(0, root.parts.len() as int) =~= root.parts) by {
            assert(d.parts.subrange(0, root.parts.len() as int) == root.parts);
        }
        assert(descends(m0, mode, a));
        lemma_storing_keeps_entry(m0, root, repo_root, t, w, a, a);
        lemma_storing_keeps_entry(m0, root, repo_root, t, w, a, a.child(git));
    }
}

/// Moving a file into shared storage makes no repository.
///
/// Take a file system that is a tree and a file in the repository at
/// `repo_root`, other than the top of the repository and the `.git` in it. Any
/// repository `w` that is kept apart from the file's place in shared storage
/// and that the scan reports after the file was moved was reported before.
pub proof fn lemma_storing_adds_no_repository(
    m0: FsModel,
    root: PathModel,
    repo_root: PathModel,
    t: Located,
    w: PathModel,
)
    requires
        m0.is_tree(),
        is_scanned(stored(m0, t), root, repo_root),
        is_scanned(stored(m0, t), root, w),
        kept_apart(root, w, t.shared),
        !t.rel.absolute,
        t.rel.parts.len() > 0,
        t.rel.parts != seq![".git"@],
        t.file == repo_root.join(t.rel),
    ensures
        is_scanned(m0, root, w),
{
    let mode = WalkMode::Repositories;
    let s = stored(m0, t);
    let git = ".git"@;
    let d = w.parent().unwrap();
    crate::path::lemma_parent(w, d);
    lemma_under(w, d, root);
    lemma_under(w, w, w);
    // the repository was there before
    lemma_part_ways(root, w, t.shared, w);
    assert(s.entries.contains_key(w));
    assert(m0.entries.contains_key(w)) by {
        if t.shared.parent() is Some {
            let p = t.shared.parent().unwrap();
            crate::path::lemma_parent(t.shared, p);
            if p.is_under(w) {
                lemma_under(t.shared, p, w);
            }
        }
    }
    lemma_storing_keeps_entry(m0, root, repo_root, t, w, w, w);
    lemma_storing_keeps_entry(m0, root, repo_root, t, w, w, w.child(git));
    assert(reports(m0, mode, w));
    assert forall|k: int| root.parts.len() < k <= d.parts.len() implies descends(
        m0,
        mode,
        #[trigger] d.prefix(k),
    ) by {
        let a = d.prefix(k);
        assert(d.parts.subrange(0, k) =~= a.parts);
        assert(d.is_under(a));
        lemma_under(w, d, a);
        assert(a.parts.subrange(0, root.parts.len() as int) =~= root.parts) by {
            assert(d.parts.subrange(0, root.parts.len() as int) == root.parts);
        }
        assert(descends(s, mode, a));
        lemma_ancestors_exist(m0, w, k);
        assert(w.prefix(k) == a);
        lemma_storing_keeps_entry(m0, root, repo_root, t, w, a, a);
        lemma_storing_keeps_entry(m0, root, repo_root, t, w, a, a.child(git));
    }
}

/// Moving a file into shared storage leaves the file system with finitely
/// many entries.
proof fn lemma_stored_finite(m0: FsModel, t: Located)
    requires
        m0.entries.dom().finite(),
    ensures
        stored(m0, t).entries.dom().finite(),
{
    let s = stored(m0, t);
    let mr = crate::shared_resource::made_ready(m0, t);
    let shared = t.shared;
    let file = t.file;
    // what is made lies above the place in shared storage
    let ks = vstd::set_lib::set_int_range(0, shared.parts.len() as int + 1);
    vstd::set_lib::lemma_int_range(0, shared.parts.len() as int + 1);
    let cut = |k: int| shared.prefix(k);
    let made = ks.map(cut);
    ks.lemma_map_finite(cut);
    let base = m0.entries.dom().union(made);
    vstd::set_lib::lemma_set_union_finite_iff(m0.entries.dom(), made);
    // what arrives was moved from what was there
    let to_store = |e: PathModel| rebase(e, file, shared);
    let moved = base.map(to_store);
    base.lemma_map_finite(to_store);
    let all = base.union(moved);
    vstd::set_lib::lemma_set_union_finite_iff(base, moved);
    assert forall|e: PathModel| mr.entries.contains_key(e) implies base.contains(e) by {
        if !m0.entries.contains_key(e) {
            let p = shared.parent().unwrap();
            assert(p.is_under(e));
            let k = e.parts.len() as int;
            assert(e.parts =~= shared.parts.take(k)) by {
                assert forall|i: int| 0 <= i < k implies e.parts[i] == shared.parts[i] by {
                    assert(p.parts.subrange(0, k)[i] == e.parts[i]);
                    assert(p.parts[i] == shared.parts[i]);
                }
            }
            assert(ks.contains(k) && e == cut(k));
        }
    }
    assert forall|q: PathModel| s.entries.dom().contains(q) implies all.contains(q) by {
        if mr.arrives(file, shared, q) {
            let e = rebase(q, shared, file);
            lemma_rebase_there_and_back(q, shared, file);
            assert(base.contains(e) && q == to_store(e));
        } else {
            assert(mr.entries.contains_key(q));
        }
    }
    vstd::set_lib::lemma_len_subset(s.entries.dom(), all);
}

/// The place in shared storage of a file that exists is made of names.
proof fn lemma_shared_wf(
    m0: FsModel,
    root: PathModel,
    info: RepoModel,
    repo_root: PathModel,
    t: Located,
)
    requires
        m0.wf(),
        root.wf(),
        info.wf(),
        m0.path_exists(t.file),
        t.file == repo_root.join(t.rel),
        t.shared == shared_path(root, info, t.rel),
        !t.rel.absolute,
        t.rel.parts.len() > 0,
    ensures
        t.shared.wf(),
{
    lemma_shared_shape(root, info, t.rel);
    let k = root.parts.len() as int;
    let repo = crate::path::parse_path(info.repo);
    crate::path::lemma_parse_wf(info.repo);
    reveal_strlit(".shared");
    assert(".shared"@.len() == 7);
    lemma_index_of_is(".shared"@, '/', 7);
    let head = seq![".shared"@, info.host, info.user];
    assert(t.file.wf());
    assert forall|i: int| 0 <= i < t.shared.parts.len() implies is_name(
        #[trigger] t.shared.parts[i],
    ) && !has_char(t.shared.parts[i], '/') by {
        if i < k {
            assert(t.shared.parts[i] == root.parts[i]);
        } else if i < k + 3 {
            assert(t.shared.parts[i] == head[i - k]);
        } else if i < k + 3 + repo.parts.len() {
            assert(t.shared.parts[i] == repo.parts[i - k - 3]);
        } else {
            let j = i - k - 3 - repo.parts.len();
            assert(t.shared.parts[i] == t.rel.parts[j]);
            assert(t.rel.parts[j] == t.file.parts[repo_root.parts.len() + j]);
        }
    }
}

/// Moving a file into shared storage leaves the repository with its worktrees.
///
/// Take a file system that is a tree of paths made of names, and a file in a
/// worktree of the repository, other than the top of the worktree and the
/// `.git` in it. Once the file was moved, the repository has the worktrees
/// that it had.
pub proof fn lemma_storing_keeps_worktrees(
    m0: FsModel,
    root: PathModel,
    info: RepoModel,
    repo_root: PathModel,
    t: Located,
)
    requires
        m0.wf(),
        m0.is_tree(),
        info.wf(),
        is_worktree(m0, root, info, repo_root),
        t.shared.wf(),
        t.shared == shared_path(root, info, t.rel),
        t.file == repo_root.join(t.rel),
        !t.rel.absolute,
        t.rel.parts.len() > 0,
        t.rel.parts != seq![".git"@],
    ensures
        worktrees(stored(m0, t), root, info) == worktrees(m0, root, info),
{
    let s = stored(m0, t);
    assert(m0.entries.contains_key(repo_root));
    lemma_kept_apart(m0, root, info, repo_root, t.rel);
    lemma_storing_keeps_repository(m0, root, repo_root, t, repo_root);
    lemma_stored_wf(m0, t);
    assert forall|p: PathModel|
        worktrees(s, root, info).contains(p) <==> worktrees(m0, root, info).contains(p) by {
        if is_worktree(m0, root, info, p) {
            assert(m0.entries.contains_key(p));
            lemma_kept_apart(m0, root, info, p, t.rel);
            lemma_storing_keeps_repository(m0, root, repo_root, t, p);
        }
        if is_worktree(s, root, info, p) {
            assert(s.entries.contains_key(p));
            lemma_kept_apart(s, root, info, p, t.rel);
            lemma_storing_adds_no_repository(m0, root, repo_root, t, p);
        }
    }
    assert(worktrees(s, root, info) =~= worktrees(m0, root, info));
}

/// Unsharing after sharing counts the worktrees that the repository had.
///
/// Take a file system that is a tree of finitely many paths made of names, a
/// repository with `N` worktrees, and a file in one of them that is no
/// symbolic link, nor the top of the worktree or the `.git` in it. After
/// `share` of the file, `unshare` of the same path, from whichever worktree,
/// returns `N`.
pub proof fn lemma_unshare_counts_all(
    m0: FsModel,
    root: PathModel,
    info: RepoModel,
    repo_root: PathModel,
    relative: PathModel,
)
    requires
        m0.wf(),
        m0.is_tree(),
        m0.entries.dom().finite(),
        root.wf(),
        info.wf(),
        locate(m0, root, info, repo_root, relative) is Some,
        is_worktree(m0, root, info, repo_root),
        ({
            let t = locate(m0, root, info, repo_root, relative).unwrap();
            &&& m0.path_exists(t.file)
            &&& !m0.is_symlink(t.file)
            &&& t.rel.parts.len() > 0
            &&& t.rel.parts != seq![".git"@]
        }),
    ensures
        ({
            let t = locate(m0, root, info, repo_root, relative).unwrap();
            let m1 = shared_state(m0, root, info, t);
            forall|from: PathModel, path: PathModel, m2: FsModel, n: usize|
                (locate(m1, root, info, from, path) matches Some(u) && u.rel == t.rel)
                    && #[trigger] unshare_post(
                    m1,
                    m2,
                    root,
                    info,
                    from,
                    path,
                    Ok::<usize, GrmError>(n),
                ) ==> n == worktrees(m0, root, info).len()
        }),
{
    let t = locate(m0, root, info, repo_root, relative).unwrap();
    lemma_file_is_place(t.file, repo_root);
    lemma_shared_wf(m0, root, info, repo_root, t);
    lemma_storing_keeps_worktrees(m0, root, info, repo_root, t);
    lemma_stored_finite(m0, t);
    lemma_unshare_counts_worktrees(m0, root, info, t);
}

/// Sharing twice from a worktree is sharing once.
///
/// Take a file system whose paths are made of names, a repository whose host,
/// user and name are plain names, and a file that exists in one of its
/// worktrees and is not the top of the worktree or the `.git` in it. After
/// `share`, the file is a symbolic link, and a second `share` of the same
/// file that succeeds leaves the file system as the first left it.
pub proof fn lemma_share_twice_in_worktree(
    m0: FsModel,
    root: PathModel,
    info: RepoModel,
    repo_root: PathModel,
    relative: PathModel,
)
    requires
        m0.wf(),
        info.wf(),
        locate(m0, root, info, repo_root, relative) is Some,
        is_worktree(m0, root, info, repo_root),
        ({
            let t = locate(m0, root, info, repo_root, relative).unwrap();
            m0.path_exists(t.file) && t.rel.parts.len() > 0 && t.rel.parts != seq![".git"@]
        }),
    ensures
        ({
            let t = locate(m0, root, info, repo_root, relative).unwrap();
            let m1 = shared_state(m0, root, info, t);
            &&& locate(m1, root, info, repo_root, relative) == Some(t)
            &&& m1.is_symlink(t.file)
            &&& shared_state(m1, root, info, t) == m1
            &&& is_worktree(m1, root, info, repo_root)
            &&& forall|m2: FsModel|
                share_post(m1, m2, root, info, repo_root, relative, Ok::<(), GrmError>(()))
                    ==> m2 == m1
        }),
{
    let t = locate(m0, root, info, repo_root, relative).unwrap();
    lemma_file_is_place(t.file, repo_root);
    assert(m0.entries.contains_key(repo_root));
    lemma_kept_apart(m0, root, info, repo_root, t.rel);
    lemma_storing_keeps_repository(m0, root, repo_root, t, repo_root);
    lemma_share_twice(m0, root, info, repo_root, relative);
    if !m0.is_symlink(t.file) {
        lemma_share_keeps_worktrees(m0, root, info, t);
        assert(worktrees(stored(m0, t), root, info).contains(repo_root));
        assert(worktrees(shared_state(m0, root, info, t), root, info).contains(repo_root));
    }
}

/// Nothing in the caller's own worktree is among the conflicts.
///
/// Where the caller stands in a worktree of the repository below a root that
/// is a directory, `conflicts` succeeds, and every conflict lies in another
/// worktree: none lies at or below the caller's.
pub proof fn lemma_conflicts_in_worktree(
    m: FsModel,
    root: PathModel,
    info: RepoModel,
    repo_root: PathModel,
    relative: PathModel,
)
    requires
        relative != PathModel::empty(),
        locate(m, root, info, repo_root, relative) is Some,
        m.is_dir(root),
        is_worktree(m, root, info, repo_root),
    ensures
        conflicts_outcome(m, root, info, repo_root, relative) is Done,
        forall|v: Vec<crate::path::FsPath>|
            #[trigger] conflicts_post(m, root, info, repo_root, relative, Ok(v)) ==> forall|
                i: int,
            | 0 <= i < v.len() ==> !(#[trigger] v[i])@.is_under(repo_root),
        ({
            let t = locate(m, root, info, repo_root, relative).unwrap();
            forall|c: PathModel| #[trigger]
                conflict_set(m, root, info, t).contains(c) ==> !c.is_under(repo_root)
        }),
{
    let t = locate(m, root, info, repo_root, relative).unwrap();
    lemma_file_is_place(t.file, repo_root);
    assert forall|c: PathModel| #[trigger]
        conflict_set(m, root, info, t).contains(c) implies !c.is_under(repo_root) by {
        if c.is_under(repo_root) {
            let w = site_owner(c, t.rel);
            assert(c.parts.subrange(0, w.parts.len() as int) =~= w.parts);
            assert(c.is_under(w));
            lemma_comparable(c, w, repo_root);
            if w.is_under(repo_root) {
                lemma_repositories_apart(m, root, repo_root, w);
            } else {
                lemma_repositories_apart(m, root, w, repo_root);
            }
            assert(c == t.file);
        }
    }
    assert forall|v: Vec<crate::path::FsPath>| #[trigger]
        conflicts_post(m, root, info, repo_root, relative, Ok(v)) implies forall|i: int|
        0 <= i < v.len() ==> !(#[trigger] v[i])@.is_under(repo_root) by {
        let order = crate::path::path_views(v@);
        assert forall|i: int| 0 <= i < v.len() implies !(#[trigger] v[i])@.is_under(
            repo_root,
        ) by {
            assert(order[i] == v[i]@);
            assert(order.contains(order[i]));
            assert(order.to_set().contains(order[i]));
        }
    }
}

/// Asking for conflicts after sharing from a worktree spares that worktree.
///
/// Take a file system whose paths are made of names and whose root is a
/// directory, and a file that exists in one of the repository's worktrees and
/// is not the top of the worktree or the `.git` in it. After `share`, the
/// root is a directory still and the worktree a worktree, so that `conflicts`
/// from there succeeds and lists nothing at or below it.
pub proof fn lemma_conflicts_after_share(
    m0: FsModel,
    root: PathModel,
    info: RepoModel,
    repo_root: PathModel,
    relative: PathModel,
)
    requires
        m0.wf(),
        info.wf(),
        relative != PathModel::empty(),
        locate(m0, root, info, repo_root, relative) is Some,
        m0.is_dir(root),
        is_worktree(m0, root, info, repo_root),
        ({
            let t = locate(m0, root, info, repo_root, relative).unwrap();
            m0.path_exists(t.file) && t.rel.parts.len() > 0 && t.rel.parts != seq![".git"@]
        }),
    ensures
        ({
            let t = locate(m0, root, info, repo_root, relative).unwrap();
            let m1 = shared_state(m0, root, info, t);
            &&& m1.is_dir(root)
            &&& conflicts_outcome(m1, root, info, repo_root, relative) is Done
            &&& forall|c: PathModel| #[trigger]
                conflict_set(m1, root, info, t).contains(c) ==> !c.is_under(repo_root)
        }),
{
    let t = locate(m0, root, info, repo_root, relative).unwrap();
    let m1 = shared_state(m0, root, info, t);
    lemma_share_twice_in_worktree(m0, root, info, repo_root, relative);
    if !m0.is_symlink(t.file) {
        let s = stored(m0, t);
        let k = root.parts.len() as int;
        assert(m0.entries.contains_key(repo_root));
        lemma_worktree_shape(m0, root, info, repo_root);
        lemma_shared_shape(root, info, t.rel);
        lemma_file_is_place(t.file, repo_root);
        lemma_under(root, t.shared, t.file);
        lemma_under(t.file, repo_root, root);
        assert(s.entries.contains_key(root) && s.entries[root] == m0.entries[root]);
        assert forall|c: PathModel| is_site(s, root, info, t.rel, c) implies c.parts.len()
            > k by {
            let w = site_owner(c, t.rel);
            let d = w.parent().unwrap();
            crate::path::lemma_parent(w, d);
            lemma_under(w, d, root);
        }
        assert(!sites(s, root, info, t.rel).contains(root));
        assert(!is_cleared(s, sites(s, root, info, t.rel), root)) by {
            assert forall|c: PathModel| #[trigger]
                sites(s, root, info, t.rel).contains(c) implies !root.is_below(c) by {
                lemma_under(root, c, c);
            }
        }
        assert(m1.entries.contains_key(root) && m1.entries[root] == s.entries[root]);
    }
    lemma_conflicts_in_worktree(m1, root, info, repo_root, relative);
}

/// Isolating after sharing from a worktree gives the file back.
///
/// Take a file system whose paths are made of names, a root made of names, a
/// repository whose host, user and name are plain names, and a file that
/// exists in one of its worktrees, is no symbolic link, and is not the top of
/// the worktree or the `.git` in it. After `share` and then `isolate`, the
/// file is no symbolic link, it is what it was before, and where it was a
/// directory, all that lay below it lies there again.
pub proof fn lemma_isolate_restores_in_worktree(
    m0: FsModel,
    root: PathModel,
    info: RepoModel,
    repo_root: PathModel,
    relative: PathModel,
)
    requires
        m0.wf(),
        root.wf(),
        info.wf(),
        locate(m0, root, info, repo_root, relative) is Some,
        is_worktree(m0, root, info, repo_root),
        ({
            let t = locate(m0, root, info, repo_root, relative).unwrap();
            &&& m0.path_exists(t.file)
            &&& !m0.is_symlink(t.file)
            &&& t.rel.parts.len() > 0
            &&& t.rel.parts != seq![".git"@]
        }),
    ensures
        ({
            let t = locate(m0, root, info, repo_root, relative).unwrap();
            let m1 = shared_state(m0, root, info, t);
            let m2 = isolated_state(m1, t);
            &&& m1.is_symlink(t.file)
            &&& isolate_post(m1, m2, root, info, repo_root, relative, Ok::<(), GrmError>(()))
            &&& m2.path_exists(t.file)
            &&& !m2.is_symlink(t.file)
            &&& m2.entries[t.file] == m0.entries[t.file]
            &&& m0.is_dir(t.file) ==> forall|q: PathModel|
                q.is_under(t.file) && m0.path_exists(q) ==> m2.path_exists(q) && m2.entries[q]
                    == m0.entries[q]
        }),
{
    let t = locate(m0, root, info, repo_root, relative).unwrap();
    let s = stored(m0, t);
    lemma_file_is_place(t.file, repo_root);
    assert(m0.entries.contains_key(repo_root));
    lemma_kept_apart(m0, root, info, repo_root, t.rel);
    lemma_storing_keeps_repository(m0, root, repo_root, t, repo_root);
    // the place in shared storage is made of names, and so is all that is stored
    lemma_shared_wf(m0, root, info, repo_root, t);
    lemma_stored_wf(m0, t);
    // a place in a worktree and the file's place in shared storage lie apart
    assert forall|c: PathModel| is_site(s, root, info, t.rel, c) implies !c.is_under(t.shared)
        && !t.shared.is_under(c) by {
        let w = site_owner(c, t.rel);
        assert(s.entries.contains_key(w));
        lemma_kept_apart(s, root, info, w, t.rel);
        lemma_below_owner(c, w, t.rel);
        lemma_part_ways(root, w, t.shared, c);
    }
    assert(is_site(s, root, info, t.rel, t.file));
    lemma_isolate_restores(m0, root, info, repo_root, relative);
}

} // verus!
