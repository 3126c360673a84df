//! A file system held in memory.
//!
//! It keeps a list of entries, each under its path, and does to the list
//! what the contracts of `FileSystem` say of the model. It is the file system
//! of the library's tests, and of anyone who wants to try an operation
//! before letting it touch a disk.

use crate::path::{
    lemma_dot_git, lemma_path_views_push, lemma_selected, lemma_selected_member, lemma_selected_push,
    lemma_under, path_views, selected, FsPath, PathModel,
};
use crate::ports::file_system::{
    normalize, rebase, FileSystem, FileSystemError, FsModel, NodeModel,
};
use vstd::prelude::*;
use vstd::string::*;

verus! {

/// What lies at a path.
#[derive(Debug)]
enum Node {
    File(Vec<u8>),
    Directory,
    Symlink(FsPath),
}

impl Node {
    /// The mathematical value of the node.
    spec fn model(&self) -> NodeModel {
        match self {
            Node::File(content) => NodeModel::File { content: content@ },
            Node::Directory => NodeModel::Directory,
            Node::Symlink(target) => NodeModel::Symlink { target: target@ },
        }
    }
}

impl Node {
    /// A copy of the node.
    fn duplicate(&self) -> (r: Self)
        ensures
            r.model() == self.model(),
    {
        match self {
            Node::File(content) => {
                let mut c: Vec<u8> = Vec::new();
                let mut i: usize = 0;
                while i < content.len()
                    invariant
                        i <= content.len(),
                        c@ == content@.take(i as int),
                    decreases content.len() - i,
                {
                    c.push(content[i]);
                    i = i + 1;
                    assert(c@ =~= content@.take(i as int));
                }
                assert(content@.take(content.len() as int) =~= content@);
                Node::File(c)
            },
            Node::Directory => Node::Directory,
            Node::Symlink(target) => Node::Symlink(target.clone()),
        }
    }
}

/// A path and what lies there.
#[derive(Debug)]
struct Entry {
    path: FsPath,
    node: Node,
}

/// A path and what lies there, as mathematical values.
struct EntryModel {
    path: PathModel,
    node: NodeModel,
}

impl Entry {
    /// The mathematical value of the entry.
    spec fn model(&self) -> EntryModel {
        EntryModel { path: self.path@, node: self.node.model() }
    }
}

/// The mathematical values of the entries in `es`.
spec fn models(es: Seq<Entry>) -> Seq<EntryModel> {
    es.map_values(|e: Entry| e.model())
}

/// What the list holds at `p`: the node of the last entry with that path.
spec fn lookup(s: Seq<EntryModel>, p: PathModel) -> Option<NodeModel>
    decreases s.len(),
{
    if s.len() == 0 {
        None
    } else if s.last().path == p {
        Some(s.last().node)
    } else {
        lookup(s.drop_last(), p)
    }
}

/// The map from paths to nodes that the list stands for.
spec fn to_map(s: Seq<EntryModel>) -> Map<PathModel, NodeModel> {
    Map::new(|p: PathModel| lookup(s, p) is Some, |p: PathModel| lookup(s, p).unwrap())
}

/// The paths of the entries in `s`.
spec fn paths(s: Seq<EntryModel>) -> Seq<PathModel> {
    s.map_values(|e: EntryModel| e.path)
}

/// The entries of `s` whose path does not satisfy `drop`, in their order.
spec fn retained(s: Seq<EntryModel>, drop: spec_fn(PathModel) -> bool) -> Seq<
    EntryModel,
>
    decreases s.len(),
{
    if s.len() == 0 {
        Seq::empty()
    } else if drop(s.last().path) {
        retained(s.drop_last(), drop)
    } else {
        retained(s.drop_last(), drop).push(s.last())
    }
}

/// A path is held exactly when some entry has it; with distinct paths, an entry's
/// node is what the list holds at its path.
proof fn lemma_lookup(s: Seq<EntryModel>, p: PathModel)
    ensures
        lookup(s, p) is Some <==> paths(s).contains(p),
        paths(s).no_duplicates() ==> forall|i: int|
            0 <= i < s.len() && (#[trigger] s[i]).path == p ==> lookup(s, p) == Some(s[i].node),
    decreases s.len(),
{
    if s.len() > 0 {
        let init = s.drop_last();
        lemma_lookup(init, p);
        assert(paths(init) =~= paths(s).drop_last());
        if paths(s).contains(p) {
            let i = choose|i: int| 0 <= i < s.len() && paths(s)[i] == p;
            if i < init.len() {
                assert(paths(init)[i] == p);
            }
        }
        if paths(init).contains(p) {
            let i = choose|i: int| 0 <= i < init.len() && paths(init)[i] == p;
            assert(paths(s)[i] == p);
        }
        if s.last().path == p {
            assert(paths(s)[s.len() - 1] == p);
        }
        if paths(s).no_duplicates() {
            assert forall|i: int| 0 <= i < s.len() && (#[trigger] s[i]).path == p implies lookup(
                s,
                p,
            ) == Some(s[i].node) by {
                if i < init.len() {
                    assert(paths(s)[i] == p);
                    assert(paths(s)[s.len() - 1] == s.last().path);
                    assert(init[i].path == p);
                }
            }
        }
    }
}

/// What a list holds after entries were dropped.
proof fn lemma_retained(s: Seq<EntryModel>, drop: spec_fn(PathModel) -> bool, p: PathModel)
    ensures
        lookup(retained(s, drop), p) == if drop(p) {
            None
        } else {
            lookup(s, p)
        },
        paths(retained(s, drop)).contains(p) ==> paths(s).contains(p) && !drop(p),
    decreases s.len(),
{
    if s.len() > 0 {
        let init = s.drop_last();
        lemma_retained(init, drop, p);
        if !drop(s.last().path) {
            let r = retained(init, drop).push(s.last());
            assert(r.drop_last() =~= retained(init, drop));
            assert(r.last() == s.last());
        }
    }
    lemma_lookup(retained(s, drop), p);
    lemma_lookup(s, p);
}

/// Dropping entries keeps the paths distinct.
proof fn lemma_retained_distinct(s: Seq<EntryModel>, drop: spec_fn(PathModel) -> bool)
    requires
        paths(s).no_duplicates(),
    ensures
        paths(retained(s, drop)).no_duplicates(),
    decreases s.len(),
{
    if s.len() > 0 {
        let init = s.drop_last();
        assert(paths(init) =~= paths(s).drop_last());
        lemma_retained_distinct(init, drop);
        if !drop(s.last().path) {
            let r = retained(init, drop);
            assert forall|i: int| 0 <= i < r.len() implies r[i].path != s.last().path by {
                assert(paths(r)[i] == r[i].path);
                assert(paths(r).contains(r[i].path));
                lemma_retained(init, drop, r[i].path);
                let j = choose|j: int| 0 <= j < init.len() && paths(init)[j] == r[i].path;
                assert(paths(s)[j] == r[i].path);
                assert(paths(s)[s.len() - 1] == s.last().path);
            }
            assert(paths(r.push(s.last())) =~= paths(r).push(s.last().path));
        }
    }
}

/// Adding an entry under a path that the list does not hold keeps the paths distinct.
proof fn lemma_push_distinct(s: Seq<EntryModel>, e: EntryModel)
    requires
        paths(s).no_duplicates(),
        lookup(s, e.path) is None,
    ensures
        paths(s.push(e)).no_duplicates(),
        paths(s.push(e)) == paths(s).push(e.path),
{
    lemma_lookup(s, e.path);
    assert(paths(s.push(e)) =~= paths(s).push(e.path));
    assert forall|i: int| 0 <= i < s.len() implies paths(s)[i] != e.path by {
        assert(paths(s).contains(paths(s)[i]));
    }
}

/// The test that a path is `p`.
spec fn is_path(p: PathModel) -> spec_fn(PathModel) -> bool {
    |q: PathModel| q == p
}

/// The test that a path is `p` or lies below it.
spec fn lies_under(p: PathModel) -> spec_fn(PathModel) -> bool {
    |q: PathModel| q.is_under(p)
}

/// The test that a path lies directly inside `p`.
spec fn lies_in(p: PathModel) -> spec_fn(PathModel) -> bool {
    |q: PathModel| q.parent() == Some(p)
}

/// Which entries an operation takes out of the list.
enum Drop {
    /// The entry at this path.
    At(FsPath),
    /// The entry at this path and all below it.
    Under(FsPath),
}

impl Drop {
    /// The test that the operation takes an entry at a path away.
    spec fn test(&self) -> spec_fn(PathModel) -> bool {
        match self {
            Drop::At(p) => is_path(p@),
            Drop::Under(p) => lies_under(p@),
        }
    }

    /// Whether the operation takes the entry at `path` away.
    fn applies(&self, path: &FsPath) -> (b: bool)
        ensures
            b == (self.test())(path@),
    {
        match self {
            Drop::At(p) => path.same_as(p),
            Drop::Under(p) => path.starts_with(p),
        }
    }
}

/// A file system in memory.
pub struct MemoryFs {
    entries: Vec<Entry>,
    home: FsPath,
    current: FsPath,
}

/// The entries of `es` that `drop` leaves.
fn without(es: &Vec<Entry>, drop: &Drop) -> (r: Vec<Entry>)
    ensures
        models(r@) == retained(models(es@), drop.test()),
{
    let mut r: Vec<Entry> = Vec::new();
    let mut i: usize = 0;
    assert(models(es@).take(0) =~= Seq::empty());
    assert(models(r@) =~= Seq::empty());
    while i < es.len()
        invariant
            i <= es.len(),
            models(r@) == retained(models(es@).take(i as int), drop.test()),
        decreases es.len() - i,
    {
        proof {
            let next = models(es@).take(i + 1);
            assert(next.drop_last() =~= models(es@).take(i as int));
            assert(next.last() == es@[i as int].model());
        }
        if !drop.applies(&es[i].path) {
            let e = Entry { path: es[i].path.clone(), node: es[i].node.duplicate() };
            proof {
                assert(models(r@.push(e)) =~= models(r@).push(e.model()));
            }
            r.push(e);
        }
        i = i + 1;
    }
    assert(models(es@).take(es.len() as int) =~= models(es@));
    r
}

/// The position of the entry at `path`, if there is one.
fn position(es: &Vec<Entry>, path: &FsPath) -> (r: Option<usize>)
    ensures
        r is Some <==> lookup(models(es@), path@) is Some,
        r matches Some(i) ==> i < es.len() && es@[i as int].path@ == path@,
{
    let mut i: usize = 0;
    while i < es.len()
        invariant
            i <= es.len(),
            forall|j: int| 0 <= j < i ==> es@[j].path@ != path@,
        decreases es.len() - i,
    {
        if es[i].path.same_as(path) {
            proof {
                lemma_lookup(models(es@), path@);
                assert(paths(models(es@))[i as int] == path@);
            }
            return Some(i);
        }
        i = i + 1;
    }
    proof {
        lemma_lookup(models(es@), path@);
        if paths(models(es@)).contains(path@) {
            let j = choose|j: int| 0 <= j < es.len() && paths(models(es@))[j] == path@;
            assert(es@[j].path@ == path@);
        }
    }
    None
}

/// `es` with `node` at `path`, in place of what lay there.
fn put(es: &Vec<Entry>, path: FsPath, node: Node) -> (r: Vec<Entry>)
    requires
        paths(models(es@)).no_duplicates(),
    ensures
        paths(models(r@)).no_duplicates(),
        to_map(models(r@)) == to_map(models(es@)).insert(path@, node.model()),
{
    let drop = Drop::At(path.clone());
    let mut r = without(es, &drop);
    let e = Entry { path, node };
    proof {
        let old_list = models(es@);
        let kept = models(r@);
        let new_list = kept.push(e.model());
        assert(models(r@.push(e)) =~= new_list);
        lemma_retained(old_list, drop.test(), e.path@);
        lemma_retained_distinct(old_list, drop.test());
        lemma_push_distinct(kept, e.model());
        assert(new_list.drop_last() =~= kept);
        assert forall|q: PathModel|
            #[trigger] to_map(new_list).dom().contains(q) == to_map(old_list).insert(
                e.path@,
                e.node.model(),
            ).dom().contains(q) && (to_map(new_list).dom().contains(q) ==> to_map(new_list)[q]
                == to_map(old_list).insert(e.path@, e.node.model())[q]) by {
            lemma_retained(old_list, drop.test(), q);
        }
        assert(to_map(new_list) =~= to_map(old_list).insert(e.path@, e.node.model()));
    }
    r.push(e);
    r
}

/// The place at or below `to` that an entry at or below `from` moves to.
fn moved_path(path: &FsPath, from: &FsPath, to: &FsPath) -> (r: FsPath)
    requires
        path@.is_under(from@),
    ensures
        r@ == rebase(path@, from@, to@),
        r@.is_under(to@),
        rebase(r@, to@, from@) == path@,
{
    let rel = path.strip_prefix(from).unwrap();
    let r = to.join(&rel);
    proof {
        assert(r@.parts.subrange(0, to@.parts.len() as int) =~= to@.parts);
        assert(r@.parts.skip(to@.parts.len() as int) =~= path@.parts.skip(
            from@.parts.len() as int,
        ));
        assert(path@.parts.subrange(0, from@.parts.len() as int) == from@.parts);
        assert(rebase(r@, to@, from@).parts =~= path@.parts);
    }
    r
}

/// Whether something arrives at `q` when the first entries `s` of a list are moved
/// or copied from `from` to `to`, with all that lies below where `whole` holds.
spec fn comes(
    s: Seq<EntryModel>,
    from: PathModel,
    to: PathModel,
    whole: bool,
    q: PathModel,
) -> bool {
    q.is_under(to) && (whole || q == to) && lookup(s, rebase(q, to, from)) is Some
}

/// The map of `dst` after what `comes` from `s` was put into it.
spec fn transferred(
    s: Seq<EntryModel>,
    dst: Map<PathModel, NodeModel>,
    from: PathModel,
    to: PathModel,
    whole: bool,
) -> Map<PathModel, NodeModel> {
    Map::new(
        |q: PathModel| comes(s, from, to, whole, q) || dst.contains_key(q),
        |q: PathModel|
            if comes(s, from, to, whole, q) {
                lookup(s, rebase(q, to, from)).unwrap()
            } else {
                dst[q]
            },
    )
}

/// A path below `to` that `rebase` brings to `p` is the place that `p` moves to.
proof fn lemma_rebase_back(q: PathModel, from: PathModel, to: PathModel, p: PathModel)
    requires
        q.is_under(to),
        rebase(q, to, from) == p,
    ensures
        p.is_under(from),
        rebase(p, from, to) == q,
        q == to ==> p == from,
{
    assert(p.parts.subrange(0, from.parts.len() as int) =~= from.parts);
    assert(p.parts.skip(from.parts.len() as int) =~= q.parts.skip(to.parts.len() as int));
    assert(q.parts.subrange(0, to.parts.len() as int) == to.parts);
    assert(rebase(p, from, to).parts =~= q.parts);
    if q == to {
        assert(p.parts =~= from.parts);
    }
}

/// Puts into `dst` a copy of each entry of `src` that lies at `from`, or at or below
/// it where `whole` holds, at its place at or below `to`.
fn transfer(src: &Vec<Entry>, dst: Vec<Entry>, from: &FsPath, to: &FsPath, whole: bool) -> (r: Vec<
    Entry,
>)
    requires
        paths(models(src@)).no_duplicates(),
        paths(models(dst@)).no_duplicates(),
    ensures
        paths(models(r@)).no_duplicates(),
        to_map(models(r@)) == transferred(
            models(src@),
            to_map(models(dst@)),
            from@,
            to@,
            whole,
        ),
{
    let ghost all = models(src@);
    let ghost target = to_map(models(dst@));
    let mut r = dst;
    let mut i: usize = 0;
    proof {
        assert(all.take(0) =~= Seq::empty());
        assert(to_map(models(r@)) =~= transferred(all.take(0), target, from@, to@, whole));
    }
    while i < src.len()
        invariant
            i <= src.len(),
            all == models(src@),
            paths(all).no_duplicates(),
            paths(models(r@)).no_duplicates(),
            to_map(models(r@)) == transferred(all.take(i as int), target, from@, to@, whole),
        decreases src.len() - i,
    {
        let e = &src[i];
        let ghost before = all.take(i as int);
        let ghost after = all.take(i + 1);
        let ghost p = e.path@;
        proof {
            assert(after.drop_last() =~= before);
            assert(after.last() == e.model());
            lemma_lookup(before, p);
            if paths(before).contains(p) {
                let j = choose|j: int| 0 <= j < before.len() && paths(before)[j] == p;
                assert(paths(all)[j] == p);
                assert(paths(all)[i as int] == p);
            }
            assert(lookup(before, p) is None);
        }
        let take = if whole {
            e.path.starts_with(from)
        } else {
            e.path.same_as(from)
        };
        if take {
            proof {
                lemma_under(from@, from@, from@);
            }
            let np = moved_path(&e.path, from, to);
            let ghost m0 = to_map(models(r@));
            r = put(&r, np, e.node.duplicate());
            proof {
                let m1 = to_map(models(r@));
                let want = transferred(after, target, from@, to@, whole);
                assert forall|q: PathModel|
                    #[trigger] m1.dom().contains(q) == want.dom().contains(q) && (
                    m1.dom().contains(q) ==> m1[q] == want[q]) by {
                    if q.is_under(to@) && rebase(q, to@, from@) == p {
                        lemma_rebase_back(q, from@, to@, p);
                    }
                    if q == np@ {
                        if !whole {
                            assert(np@.parts =~= to@.parts);
                        }
                    }
                }
                assert(m1 =~= want);
            }
        } else {
            proof {
                let m1 = to_map(models(r@));
                let want = transferred(after, target, from@, to@, whole);
                assert forall|q: PathModel|
                    #[trigger] m1.dom().contains(q) == want.dom().contains(q) && (
                    m1.dom().contains(q) ==> m1[q] == want[q]) by {
                    if q.is_under(to@) && rebase(q, to@, from@) == p {
                        lemma_rebase_back(q, from@, to@, p);
                    }
                }
                assert(m1 =~= want);
            }
        }
        i = i + 1;
    }
    assert(all.take(all.len() as int) =~= all);
    r
}

/// Whether `q` is `p` or an ancestor of it, is not the empty path, and has fewer
/// than `k` components.
spec fn is_made_upto(p: PathModel, k: int, q: PathModel) -> bool {
    p.is_under(q) && (q.absolute || q.parts.len() > 0) && q.parts.len() < k
}

/// The map of `m0` after `p` and its ancestors of fewer than `k` components were made
/// directories where nothing lay.
spec fn made_upto(m0: Map<PathModel, NodeModel>, p: PathModel, k: int) -> Map<
    PathModel,
    NodeModel,
> {
    Map::new(
        |q: PathModel| m0.contains_key(q) || is_made_upto(p, k, q),
        |q: PathModel|
            if m0.contains_key(q) {
                m0[q]
            } else {
                NodeModel::Directory
            },
    )
}

/// A copy of `es`.
fn copy_of(es: &Vec<Entry>) -> (r: Vec<Entry>)
    ensures
        models(r@) == models(es@),
{
    let mut r: Vec<Entry> = Vec::new();
    let mut c: usize = 0;
    assert(models(r@) =~= models(es@).take(0));
    while c < es.len()
        invariant
            c <= es.len(),
            models(r@) == models(es@).take(c as int),
        decreases es.len() - c,
    {
        let e = Entry { path: es[c].path.clone(), node: es[c].node.duplicate() };
        proof {
            assert(e.model() == es@[c as int].model());
            assert(models(r@.push(e)) =~= models(r@).push(e.model()));
            assert(models(es@).take(c + 1) =~= models(es@).take(c as int).push(
                es@[c as int].model(),
            ));
        }
        r.push(e);
        c = c + 1;
    }
    assert(models(es@).take(es.len() as int) =~= models(es@));
    r
}

/// Makes the ancestor of `path` that has `k` components a directory, if nothing lies there.
fn make_ancestor(
    r: Vec<Entry>,
    path: &FsPath,
    k: usize,
    Ghost(m0): Ghost<Map<PathModel, NodeModel>>,
) -> (out: Vec<Entry>)
    requires
        k <= path@.parts.len(),
        paths(models(r@)).no_duplicates(),
        to_map(models(r@)) == made_upto(m0, path@, k as int),
    ensures
        paths(models(out@)).no_duplicates(),
        to_map(models(out@)) == made_upto(m0, path@, k + 1),
{
    let ghost m1 = to_map(models(r@));
    let anc = path.prefix(k);
    proof {
        assert(path@.parts.subrange(0, k as int) =~= anc@.parts);
        assert(path@.is_under(anc@));
        assert(anc@.parts.len() == k);
    }
    let ghost a = anc@;
    let make = (k > 0 || path.is_absolute()) && position(&r, &anc).is_none();
    let out = if make {
        put(&r, anc, Node::Directory)
    } else {
        r
    };
    proof {
        let m2 = to_map(models(out@));
        let want = made_upto(m0, path@, k + 1);
        assert(m1.dom().contains(a) == (m0.contains_key(a) || is_made_upto(path@, k as int, a)));
        assert(!is_made_upto(path@, k as int, a));
        if make {
            assert(m2 == m1.insert(a, NodeModel::Directory));
            assert(!m0.contains_key(a));
            assert(is_made_upto(path@, k + 1, a));
        } else {
            assert(m2 == m1);
            assert(m0.contains_key(a) || !is_made_upto(path@, k + 1, a));
        }
        assert forall|q: PathModel|
            #[trigger] m2.dom().contains(q) == want.dom().contains(q) && (m2.dom().contains(q)
                ==> m2[q] == want[q]) by {
            if path@.is_under(q) && q.parts.len() == k {
                lemma_under(path@, q, q);
                assert(q == a);
            }
            if q != a {
                assert(is_made_upto(path@, k + 1, q) == is_made_upto(path@, k as int, q));
                assert(m2.dom().contains(q) == m1.dom().contains(q));
            }
        }
        assert(m2 =~= want);
    }
    out
}

/// `es` with `path` and each of its ancestors a directory where nothing lay.
fn with_dir(es: &Vec<Entry>, path: &FsPath) -> (r: Vec<Entry>)
    requires
        paths(models(es@)).no_duplicates(),
    ensures
        paths(models(r@)).no_duplicates(),
        to_map(models(r@)) == Map::new(
            |q: PathModel|
                to_map(models(es@)).contains_key(q) || (path@.is_under(q) && (q.absolute
                    || q.parts.len() > 0)),
            |q: PathModel|
                if to_map(models(es@)).contains_key(q) {
                    to_map(models(es@))[q]
                } else {
                    NodeModel::Directory
                },
        ),
{
    let ghost m0 = to_map(models(es@));
    let mut r = copy_of(es);
    let n = path.len();
    let mut k: usize = 0;
    proof {
        assert(to_map(models(r@)) =~= made_upto(m0, path@, 0));
    }
    while k < n
        invariant
            k <= n,
            n == path@.parts.len(),
            paths(models(r@)).no_duplicates(),
            to_map(models(r@)) == made_upto(m0, path@, k as int),
        decreases n - k,
    {
        r = make_ancestor(r, path, k, Ghost(m0));
        k = k + 1;
    }
    r = make_ancestor(r, path, n, Ghost(m0));
    proof {
        let m2 = to_map(models(r@));
        let want = Map::new(
            |q: PathModel|
                m0.contains_key(q) || (path@.is_under(q) && (q.absolute || q.parts.len() > 0)),
            |q: PathModel|
                if m0.contains_key(q) {
                    m0[q]
                } else {
                    NodeModel::Directory
                },
        );
        assert forall|q: PathModel|
            #[trigger] m2.dom().contains(q) == want.dom().contains(q) && (m2.dom().contains(q)
                ==> m2[q] == want[q]) by {
            if path@.is_under(q) {
                lemma_under(path@, q, q);
            }
        }
        assert(m2 =~= want);
    }
    r
}

impl MemoryFs {
    #[verifier::type_invariant]
    spec fn distinct(&self) -> bool {
        paths(models(self.entries@)).no_duplicates()
    }

    /// A file system that holds the root directory and nothing else. The home
    /// directory is `/home/testuser`, the current directory `/home/testuser/work`.
    pub fn new() -> (r: Self)
        ensures
            r@.entries == Map::<PathModel, NodeModel>::empty().insert(
                crate::path::parse_path("/"@),
                NodeModel::Directory,
            ),
            r@.home_dir == crate::path::parse_path("/home/testuser"@),
            r@.current_dir == crate::path::parse_path("/home/testuser/work"@),
    {
        let none: Vec<Entry> = Vec::new();
        proof {
            assert(paths(models(none@)) =~= Seq::empty());
            assert(to_map(models(none@)) =~= Map::empty());
        }
        let entries = put(&none, FsPath::new("/"), Node::Directory);
        MemoryFs {
            entries,
            home: FsPath::new("/home/testuser"),
            current: FsPath::new("/home/testuser/work"),
        }
    }

    /// Puts `node` at `path`, in place of what lay there.
    fn set(&mut self, path: &FsPath, node: Node)
        ensures
            final(self)@ == old(self)@.with_entries(
                old(self)@.entries.insert(path@, node.model()),
            ),
    {
        proof {
            use_type_invariant(&*self);
        }
        self.entries = put(&self.entries, path.clone(), node);
    }

    /// Puts an empty file at `path`.
    pub fn add_file(&mut self, path: &FsPath)
        ensures
            final(self)@ == old(self)@.with_entries(
                old(self)@.entries.insert(path@, NodeModel::File { content: Seq::empty() }),
            ),
    {
        let content: Vec<u8> = Vec::new();
        assert(content@ =~= Seq::empty());
        self.set(path, Node::File(content));
    }

    /// Puts a file that holds `content` at `path`.
    pub fn write_file(&mut self, path: &FsPath, content: Vec<u8>)
        ensures
            final(self)@ == old(self)@.with_entries(
                old(self)@.entries.insert(path@, NodeModel::File { content: content@ }),
            ),
    {
        self.set(path, Node::File(content));
    }

    /// What the file at `path` holds, if a file lies there.
    pub fn read_file(&self, path: &FsPath) -> (r: Option<Vec<u8>>)
        ensures
            match r {
                Some(c) => self@.path_exists(path@) && self@.entries[path@] == (NodeModel::File {
                    content: c@,
                }),
                None => !(self@.path_exists(path@) && self@.entries[path@] is File),
            },
    {
        proof {
            use_type_invariant(self);
            lemma_lookup(models(self.entries@), path@);
        }
        match position(&self.entries, path) {
            Some(i) => {
                assert(models(self.entries@)[i as int].path == path@);
                match self.entries[i].node.duplicate() {
                    Node::File(c) => Some(c),
                    _ => None,
                }
            },
            None => None,
        }
    }

    /// Puts a directory at `path`.
    pub fn add_dir(&mut self, path: &FsPath)
        ensures
            final(self)@ == old(self)@.with_entries(
                old(self)@.entries.insert(path@, NodeModel::Directory),
            ),
    {
        self.set(path, Node::Directory);
    }

    /// Puts a repository at `path`: a directory that holds a directory `.git`.
    pub fn add_git_repo(&mut self, path: &FsPath)
        ensures
            final(self)@ == old(self)@.with_entries(
                old(self)@.entries.insert(path@, NodeModel::Directory).insert(
                    path@.child(".git"@),
                    NodeModel::Directory,
                ),
            ),
    {
        self.set(path, Node::Directory);
        proof {
            lemma_dot_git();
        }
        let git = path.join_name(&String::from_str(".git"));
        self.set(&git, Node::Directory);
    }

    /// Puts a symbolic link to `target` at `link`.
    pub fn add_symlink(&mut self, link: &FsPath, target: &FsPath)
        ensures
            final(self)@ == old(self)@.create_symlink(target@, link@),
    {
        self.set(link, Node::Symlink(target.clone()));
    }

    /// Makes `path` the current directory.
    pub fn set_current_dir(&mut self, path: &FsPath)
        ensures
            final(self)@.current_dir == path@,
            final(self)@.home_dir == old(self)@.home_dir,
            final(self)@.entries == old(self)@.entries,
    {
        proof {
            use_type_invariant(&*self);
        }
        self.current = path.clone();
    }

    /// Makes `path` the home directory.
    pub fn set_home_dir(&mut self, path: &FsPath)
        ensures
            final(self)@.home_dir == path@,
            final(self)@.current_dir == old(self)@.current_dir,
            final(self)@.entries == old(self)@.entries,
    {
        proof {
            use_type_invariant(&*self);
        }
        self.home = path.clone();
    }

    /// The file system holds finitely many entries.
    pub proof fn lemma_finite(&self)
        ensures
            self@.entries.dom().finite(),
    {
        let s = models(self.entries@);
        let dom = to_map(s).dom();
        assert(dom.subset_of(paths(s).to_set())) by {
            assert forall|p: PathModel| dom.contains(p) implies paths(s).to_set().contains(p) by {
                lemma_lookup(s, p);
            }
        }
        vstd::seq_lib::seq_to_set_is_finite(paths(s));
        vstd::set_lib::lemma_len_subset(dom, paths(s).to_set());
    }

    /// The node at `path`, if anything lies there.
    fn node_at(&self, path: &FsPath) -> (r: Option<&Node>)
        ensures
            r is Some <==> self@.path_exists(path@),
            r matches Some(n) ==> self@.entries[path@] == n.model(),
    {
        proof {
            use_type_invariant(self);
            lemma_lookup(models(self.entries@), path@);
        }
        match position(&self.entries, path) {
            Some(i) => {
                assert(models(self.entries@)[i as int].path == path@);
                Some(&self.entries[i].node)
            },
            None => None,
        }
    }
}

impl FileSystem for MemoryFs {
    closed spec fn view(&self) -> FsModel {
        FsModel {
            entries: to_map(models(self.entries@)),
            current_dir: self.current@,
            home_dir: self.home@,
        }
    }

    /// A file system in memory fails only where its state rules out what it is asked.
    open spec fn is_dependable(&self) -> bool {
        true
    }

    fn path_exists(&self, path: &FsPath) -> (b: bool)
        ensures
            b == self@.path_exists(path@),
    {
        self.node_at(path).is_some()
    }

    fn is_symlink(&self, path: &FsPath) -> (b: bool) {
        match self.node_at(path) {
            Some(Node::Symlink(_)) => true,
            _ => false,
        }
    }

    fn is_dir(&self, path: &FsPath) -> (b: bool)
        ensures
            b == self@.is_dir(path@),
    {
        match self.node_at(path) {
            Some(Node::Directory) => true,
            _ => false,
        }
    }

    fn is_git_repository(&self, path: &FsPath) -> (b: bool)
        ensures
            b == self@.is_git_repository(path@),
    {
        proof {
            lemma_dot_git();
        }
        let git = path.join_name(&String::from_str(".git"));
        self.node_at(&git).is_some()
    }

    fn home_dir(&self) -> (r: Result<FsPath, FileSystemError>) {
        Ok(self.home.clone())
    }

    fn current_dir(&self) -> (r: Result<FsPath, FileSystemError>) {
        Ok(self.current.clone())
    }

    /// Fails with `Directory not found` where nothing lies at `path`, and with
    /// `Not a directory` where something else does.
    fn read_dir(&self, path: &FsPath) -> (r: Result<Vec<FsPath>, FileSystemError>)
        ensures
            r matches Err(e) ==> e matches FileSystemError::Io(m) && m@ == if self@.path_exists(
                path@,
            ) {
                "Not a directory"@
            } else {
                "Directory not found"@
            },
    {
        match self.node_at(path) {
            None => {
                return Err(FileSystemError::Io(String::from_str("Directory not found")));
            },
            Some(Node::Directory) => {},
            Some(_) => {
                return Err(FileSystemError::Io(String::from_str("Not a directory")));
            },
        }
        let ghost all = paths(models(self.entries@));
        let ghost keep = lies_in(path@);
        let mut children: Vec<FsPath> = Vec::new();
        let mut i: usize = 0;
        proof {
            use_type_invariant(self);
            assert(all.take(0) =~= Seq::empty());
        }
        while i < self.entries.len()
            invariant
                i <= self.entries.len(),
                all == paths(models(self.entries@)),
                keep == lies_in(path@),
                path_views(children@) == selected(all.take(i as int), keep),
            decreases self.entries.len() - i,
        {
            let p = &self.entries[i].path;
            proof {
                assert(all[i as int] == p@);
                assert(all.take(i + 1) =~= all.take(i as int).push(all[i as int]));
                lemma_selected_push(all.take(i as int), all[i as int], keep);
            }
            let inside = match p.parent() {
                Some(d) => d.same_as(path),
                None => false,
            };
            if inside {
                proof {
                    lemma_path_views_push(children@, *p);
                }
                children.push(p.clone());
            }
            i = i + 1;
        }
        proof {
            assert(all.take(all.len() as int) =~= all);
            lemma_selected(all, keep);
            let cv = path_views(children@);
            assert forall|q: PathModel| cv.to_set().contains(q) <==> self@.children(
                path@,
            ).contains(q) by {
                lemma_selected_member(all, keep, q);
                lemma_lookup(models(self.entries@), q);
            }
            assert(cv.to_set() =~= self@.children(path@));
            self.lemma_finite();
        }
        Ok(children)
    }

    fn create_dir(&mut self, path: &FsPath) -> (r: Result<(), FileSystemError>) {
        proof {
            use_type_invariant(&*self);
        }
        self.entries = with_dir(&self.entries, path);
        Ok(())
    }

    fn create_symlink(&mut self, target: &FsPath, link: &FsPath) -> (r: Result<
        (),
        FileSystemError,
    >) {
        self.set(link, Node::Symlink(target.clone()));
        Ok(())
    }

    /// Fails with `Source not found`.
    fn copy(&mut self, from: &FsPath, to: &FsPath) -> (r: Result<(), FileSystemError>)
        ensures
            r matches Err(e) ==> e matches FileSystemError::Io(m) && m@ == "Source not found"@,
    {
        proof {
            use_type_invariant(&*self);
        }
        let whole = match self.node_at(from) {
            None => {
                return Err(FileSystemError::Io(String::from_str("Source not found")));
            },
            Some(Node::Directory) => true,
            Some(_) => false,
        };
        let base = if whole {
            with_dir(&self.entries, to)
        } else {
            copy_of(&self.entries)
        };
        let ghost s = models(self.entries@);
        let ghost m0 = self@;
        let next = transfer(&self.entries, base, from, to, whole);
        proof {
            let got = to_map(models(next@));
            let want = m0.copy(from@, to@).entries;
            assert forall|q: PathModel|
                #[trigger] got.dom().contains(q) == want.dom().contains(q) && (got.dom().contains(
                    q,
                ) ==> got[q] == want[q]) by {
                assert(comes(s, from@, to@, whole, q) == m0.arrives(from@, to@, q));
            }
            assert(got =~= want);
        }
        self.entries = next;
        Ok(())
    }

    /// Fails with `Source not found`.
    fn rename(&mut self, from: &FsPath, to: &FsPath) -> (r: Result<(), FileSystemError>)
        ensures
            r matches Err(e) ==> e matches FileSystemError::Io(m) && m@ == "Source not found"@,
    {
        proof {
            use_type_invariant(&*self);
        }
        let whole = match self.node_at(from) {
            None => {
                return Err(FileSystemError::Io(String::from_str("Source not found")));
            },
            Some(Node::Directory) => true,
            Some(_) => false,
        };
        let drop = if whole {
            Drop::Under(from.clone())
        } else {
            Drop::At(from.clone())
        };
        let base = without(&self.entries, &drop);
        let ghost s = models(self.entries@);
        let ghost m0 = self@;
        proof {
            lemma_retained_distinct(s, drop.test());
        }
        let next = transfer(&self.entries, base, from, to, whole);
        proof {
            let got = to_map(models(next@));
            let want = m0.rename(from@, to@).entries;
            assert forall|q: PathModel|
                #[trigger] got.dom().contains(q) == want.dom().contains(q) && (got.dom().contains(
                    q,
                ) ==> got[q] == want[q]) by {
                assert(comes(s, from@, to@, whole, q) == m0.arrives(from@, to@, q));
                lemma_retained(s, drop.test(), q);
            }
            assert(got =~= want);
        }
        self.entries = next;
        Ok(())
    }

    fn remove(&mut self, path: &FsPath) -> (r: Result<(), FileSystemError>) {
        proof {
            use_type_invariant(&*self);
        }
        let drop = Drop::Under(path.clone());
        let next = without(&self.entries, &drop);
        proof {
            let s = models(self.entries@);
            lemma_retained_distinct(s, drop.test());
            let got = to_map(models(next@));
            let want = self@.remove(path@).entries;
            assert forall|q: PathModel|
                #[trigger] got.dom().contains(q) == want.dom().contains(q) && (got.dom().contains(
                    q,
                ) ==> got[q] == want[q]) by {
                lemma_retained(s, drop.test(), q);
            }
            assert(got =~= want);
        }
        self.entries = next;
        Ok(())
    }

    /// Fails with `Cannot normalize an empty path`.
    fn normalize(&self, path: &FsPath, base: &FsPath) -> (r: Result<FsPath, FileSystemError>)
        ensures
            r matches Err(e) ==> e matches FileSystemError::PathError(m) && m@
                == "Cannot normalize an empty path"@,
    {
        let home: Result<FsPath, FileSystemError> = Ok(self.home.clone());
        normalize(path, base, &home)
    }
}

} // verus!
