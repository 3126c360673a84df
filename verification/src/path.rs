//! Paths as lists of names.
//!
//! A path is either absolute or relative and holds the names of its
//! components in order. Empty components and `.` are dropped when a path is
//! read from text, so two texts that name the same place compare equal.

use crate::text::{
    chars_of, concat, has_char, index_of, join, join_with, lemma_index_of, lemma_index_of_is,
    lemma_join_concat, lemma_split_pieces, lemma_views_push, same_text, split, split_at_char,
    views,
};
use vstd::prelude::*;
use vstd::string::*;

verus! {

/// The mathematical value of a path.
pub struct PathModel {
    /// Whether the path starts at the root of the file system.
    pub absolute: bool,
    /// The names of the components, outermost first.
    pub parts: Seq<Seq<char>>,
}

/// Whether `seg` is kept as a component when a path is read from text.
pub open spec fn is_name(seg: Seq<char>) -> bool {
    seg.len() > 0 && seg != seq!['.']
}

/// The members of `segs` that are names, in order.
pub open spec fn names(segs: Seq<Seq<char>>) -> Seq<Seq<char>>
    decreases segs.len(),
{
    if segs.len() == 0 {
        Seq::empty()
    } else if is_name(segs.last()) {
        names(segs.drop_last()).push(segs.last())
    } else {
        names(segs.drop_last())
    }
}

/// Whether every member of `parts` is a name without a separator.
pub open spec fn all_names(parts: Seq<Seq<char>>) -> bool {
    forall|i: int|
        0 <= i < parts.len() ==> is_name(#[trigger] parts[i]) && !has_char(parts[i], '/')
}

/// Lists of names stay lists of names when cut and put together.
pub proof fn lemma_all_names(a: Seq<Seq<char>>, b: Seq<Seq<char>>, from: int, to: int)
    requires
        all_names(a),
    ensures
        0 <= from <= to <= a.len() ==> all_names(a.subrange(from, to)),
        all_names(b) ==> all_names(a + b),
{
    if 0 <= from <= to <= a.len() {
        assert forall|i: int| 0 <= i < to - from implies is_name(
            #[trigger] a.subrange(from, to)[i],
        ) && !has_char(a.subrange(from, to)[i], '/') by {
            assert(a.subrange(from, to)[i] == a[from + i]);
        }
    }
    if all_names(b) {
        assert forall|i: int| 0 <= i < (a + b).len() implies is_name(#[trigger] (a + b)[i])
            && !has_char((a + b)[i], '/') by {
            if i < a.len() {
                assert((a + b)[i] == a[i]);
            } else {
                assert((a + b)[i] == b[i - a.len()]);
            }
        }
    }
}

/// The path that the text `s` denotes.
pub open spec fn parse_path(s: Seq<char>) -> PathModel {
    PathModel { absolute: s.len() > 0 && s[0] == '/', parts: names(split(s, '/')) }
}

impl PathModel {
    /// The empty relative path.
    pub open spec fn empty() -> PathModel {
        PathModel { absolute: false, parts: Seq::empty() }
    }

    /// Every component is a name without a separator.
    pub open spec fn wf(self) -> bool {
        all_names(self.parts)
    }

    /// Whether `self` is `base` or lies below it.
    pub open spec fn is_under(self, base: PathModel) -> bool {
        self.absolute == base.absolute && base.parts.is_prefix_of(self.parts)
    }

    /// `self` followed by `other`; an absolute `other` replaces `self`.
    pub open spec fn join(self, other: PathModel) -> PathModel {
        if other.absolute {
            other
        } else {
            PathModel { absolute: self.absolute, parts: self.parts + other.parts }
        }
    }

    /// The first `k` components of `self`.
    pub open spec fn prefix(self, k: int) -> PathModel {
        PathModel { absolute: self.absolute, parts: self.parts.take(k) }
    }

    /// Whether `self` lies below `base` and is not `base`.
    pub open spec fn is_below(self, base: PathModel) -> bool {
        self.is_under(base) && self.parts.len() > base.parts.len()
    }

    /// `self` with one more component.
    pub open spec fn child(self, name: Seq<char>) -> PathModel {
        PathModel { absolute: self.absolute, parts: self.parts.push(name) }
    }

    /// What is left of `self` below `base`, as a relative path.
    pub open spec fn strip_prefix(self, base: PathModel) -> Option<PathModel> {
        if self.is_under(base) {
            Some(PathModel { absolute: false, parts: self.parts.skip(base.parts.len() as int) })
        } else {
            None
        }
    }

    /// The path without its last component.
    pub open spec fn parent(self) -> Option<PathModel> {
        if self.parts.len() > 0 {
            Some(PathModel { absolute: self.absolute, parts: self.parts.drop_last() })
        } else {
            None
        }
    }

    /// The text of the path: the names with `/` between them, after a `/` if absolute.
    pub open spec fn render(self) -> Seq<char> {
        if self.absolute {
            seq!['/'] + join(self.parts, seq!['/'])
        } else {
            join(self.parts, seq!['/'])
        }
    }
}

/// `names` of two lists one after the other.
pub proof fn lemma_names_concat(a: Seq<Seq<char>>, b: Seq<Seq<char>>)
    ensures
        names(a + b) == names(a) + names(b),
    decreases b.len(),
{
    if b.len() == 0 {
        assert(a + b =~= a);
        assert(names(a) + names(b) =~= names(a));
    } else {
        assert((a + b).drop_last() =~= a + b.drop_last());
        assert((a + b).last() == b.last());
        lemma_names_concat(a, b.drop_last());
        assert(names(a + b) =~= names(a) + names(b));
    }
}

/// A list of names is its own `names`, and `names` keeps only names.
pub proof fn lemma_names_all(segs: Seq<Seq<char>>)
    ensures
        (forall|i: int| 0 <= i < segs.len() ==> is_name(#[trigger] segs[i])) ==> names(segs)
            == segs,
        forall|i: int| 0 <= i < names(segs).len() ==> is_name(#[trigger] names(segs)[i]),
        forall|i: int|
            0 <= i < names(segs).len() ==> segs.contains(#[trigger] names(segs)[i]),
    decreases segs.len(),
{
    if segs.len() > 0 {
        let init = segs.drop_last();
        lemma_names_all(init);
        if forall|i: int| 0 <= i < segs.len() ==> is_name(#[trigger] segs[i]) {
            assert forall|i: int| 0 <= i < init.len() implies is_name(#[trigger] init[i]) by {
                assert(init[i] == segs[i]);
            }
            assert(is_name(segs.last()));
            assert(names(segs) =~= segs);
        }
        assert forall|i: int| 0 <= i < names(segs).len() implies segs.contains(
            #[trigger] names(segs)[i],
        ) by {
            if i < names(init).len() {
                let j = choose|j: int| 0 <= j < init.len() && init[j] == names(init)[i];
                assert(segs[j] == names(init)[i]);
            } else {
                assert(segs[segs.len() - 1] == names(segs)[i]);
            }
        }
    }
}

/// Reading a path from text gives well-formed components.
pub proof fn lemma_parse_wf(s: Seq<char>)
    ensures
        parse_path(s).wf(),
{
    let segs = split(s, '/');
    lemma_split_pieces(s, '/');
    lemma_names_all(segs);
    assert forall|i: int| 0 <= i < names(segs).len() implies !has_char(
        #[trigger] names(segs)[i],
        '/',
    ) by {
        let j = choose|j: int| 0 <= j < segs.len() && segs[j] == names(segs)[i];
        assert(!has_char(segs[j], '/'));
    }
}

/// A single name without a separator reads as the relative path of that one name.
pub proof fn lemma_parse_name(s: Seq<char>)
    requires
        is_name(s),
        !has_char(s, '/'),
    ensures
        parse_path(s) == (PathModel { absolute: false, parts: seq![s] }),
{
    lemma_split_pieces(s, '/');
    lemma_index_of(s, '/');
    let segs = split(s, '/');
    assert(segs =~= seq![s]);
    assert(segs.drop_last() =~= Seq::<Seq<char>>::empty());
    reveal_with_fuel(names, 2);
    assert(names(segs) =~= seq![s]);
    if s[0] == '/' {
        assert(index_of(s, '/') == 0);
    }
}

/// Lying under is transitive, and two paths under each other are the same path.
pub proof fn lemma_under(a: PathModel, b: PathModel, c: PathModel)
    ensures
        a.is_under(a),
        a.is_under(b) && b.is_under(c) ==> a.is_under(c),
        a.is_under(b) ==> a.parts.len() >= b.parts.len(),
        a.is_under(b) && a.parts.len() == b.parts.len() ==> a == b,
        a.is_under(b) && a.is_under(c) && b.parts.len() <= c.parts.len() ==> c.is_under(b),
        a.is_under(b) && 0 <= b.parts.len() ==> a.prefix(b.parts.len() as int) == b,
{
    assert(a.parts.subrange(0, a.parts.len() as int) =~= a.parts);
    if a.is_under(b) {
        assert(a.parts.take(b.parts.len() as int) =~= b.parts);
        if b.is_under(c) {
            assert(a.parts.subrange(0, c.parts.len() as int) =~= c.parts) by {
                assert forall|i: int| 0 <= i < c.parts.len() implies a.parts[i] == c.parts[i] by {
                    assert(a.parts[i] == b.parts.subrange(0, c.parts.len() as int)[i]);
                }
            }
        }
        if a.parts.len() == b.parts.len() {
            assert(a.parts =~= b.parts);
        }
        if a.is_under(c) && b.parts.len() <= c.parts.len() {
            assert(c.parts.subrange(0, b.parts.len() as int) =~= b.parts) by {
                assert forall|i: int| 0 <= i < b.parts.len() implies c.parts[i] == b.parts[i] by {
                    assert(c.parts[i] == a.parts.subrange(0, c.parts.len() as int)[i]);
                    assert(b.parts[i] == a.parts.subrange(0, b.parts.len() as int)[i]);
                }
            }
        }
    }
}

/// What it means to be directly inside a directory.
pub proof fn lemma_parent(q: PathModel, d: PathModel)
    requires
        q.parent() == Some(d),
    ensures
        q.is_below(d),
        q.parts.len() == d.parts.len() + 1,
        q.prefix(q.parts.len() as int) == q,
        forall|k: int| 0 <= k <= d.parts.len() ==> #[trigger] q.prefix(k) == d.prefix(k),
{
    assert(q.parts.subrange(0, d.parts.len() as int) =~= d.parts);
    assert(q.parts.take(q.parts.len() as int) =~= q.parts);
    assert forall|k: int| 0 <= k <= d.parts.len() implies #[trigger] q.prefix(k) == d.prefix(
        k,
    ) by {
        assert(q.parts.take(k) =~= d.parts.take(k));
    }
}

/// The members of `all` that satisfy `keep`, in their order.
pub open spec fn selected(all: Seq<PathModel>, keep: spec_fn(PathModel) -> bool) -> Seq<
    PathModel,
>
    decreases all.len(),
{
    if all.len() == 0 {
        Seq::empty()
    } else if keep(all.last()) {
        selected(all.drop_last(), keep).push(all.last())
    } else {
        selected(all.drop_last(), keep)
    }
}

/// A selection holds exactly the members that satisfy `keep`.
pub proof fn lemma_selected_member(
    all: Seq<PathModel>,
    keep: spec_fn(PathModel) -> bool,
    q: PathModel,
)
    ensures
        selected(all, keep).contains(q) <==> all.contains(q) && keep(q),
    decreases all.len(),
{
    let out = selected(all, keep);
    if all.len() > 0 {
        let init = all.drop_last();
        let sub = selected(init, keep);
        lemma_selected_member(init, keep, q);
        if out.contains(q) {
            let i = choose|i: int| 0 <= i < out.len() && out[i] == q;
            if i < sub.len() {
                assert(sub[i] == q);
                assert(sub.contains(q));
                let j = choose|j: int| 0 <= j < init.len() && init[j] == q;
                assert(all[j] == q);
            } else {
                assert(all[all.len() - 1] == q);
            }
        }
        if all.contains(q) && keep(q) {
            let j = choose|j: int| 0 <= j < all.len() && all[j] == q;
            if j < init.len() {
                assert(init[j] == q);
                assert(sub.contains(q));
                let i = choose|i: int| 0 <= i < sub.len() && sub[i] == q;
                assert(out[i] == q);
            } else {
                assert(out[out.len() - 1] == q);
            }
        }
    }
}

/// A selection is no longer than the list, and has no duplicates where the list has none.
pub proof fn lemma_selected(all: Seq<PathModel>, keep: spec_fn(PathModel) -> bool)
    ensures
        selected(all, keep).len() <= all.len(),
        all.no_duplicates() ==> selected(all, keep).no_duplicates(),
    decreases all.len(),
{
    if all.len() > 0 {
        let init = all.drop_last();
        let sub = selected(init, keep);
        lemma_selected(init, keep);
        if all.no_duplicates() {
            assert(init.no_duplicates());
            if keep(all.last()) {
                assert forall|i: int| 0 <= i < sub.len() implies sub[i] != all.last() by {
                    assert(sub.contains(sub[i]));
                    lemma_selected_member(init, keep, sub[i]);
                    let j = choose|j: int| 0 <= j < init.len() && init[j] == sub[i];
                    assert(all[j] == sub[i]);
                }
            }
        }
    }
}

/// Selecting from a list with one more member.
pub proof fn lemma_selected_push(
    all: Seq<PathModel>,
    x: PathModel,
    keep: spec_fn(PathModel) -> bool,
)
    ensures
        selected(all.push(x), keep) == if keep(x) {
            selected(all, keep).push(x)
        } else {
            selected(all, keep)
        },
{
    assert(all.push(x).drop_last() =~= all);
}

/// The members of a list with one more member.
pub proof fn lemma_push_to_set<A>(v: Seq<A>, x: A)
    ensures
        v.push(x).to_set() == v.to_set().insert(x),
{
    let w = v.push(x);
    assert forall|q: A| w.to_set().contains(q) <==> v.to_set().insert(x).contains(q) by {
        if w.contains(q) {
            let i = choose|i: int| 0 <= i < w.len() && w[i] == q;
            if i < v.len() {
                assert(v[i] == q);
            }
        }
        if v.contains(q) {
            let i = choose|i: int| 0 <= i < v.len() && v[i] == q;
            assert(w[i] == q);
        }
        if q == x {
            assert(w[v.len() as int] == x);
        }
    }
    assert(w.to_set() =~= v.to_set().insert(x));
}

/// The text `/` reads as the root: absolute, without components.
pub proof fn lemma_parse_root()
    ensures
        parse_path("/"@) == (PathModel { absolute: true, parts: Seq::empty() }),
{
    reveal_strlit("/");
    let s = "/"@;
    assert(s =~= seq!['/']);
    lemma_index_of(s, '/');
    assert(index_of(s, '/') == 0);
    assert(s.take(0) =~= Seq::<char>::empty());
    assert(s.skip(1) =~= Seq::<char>::empty());
    reveal_with_fuel(split, 2);
    assert(split(s, '/') =~= seq![Seq::<char>::empty(), Seq::<char>::empty()]);
    reveal_with_fuel(names, 3);
    let segs = split(s, '/');
    assert(segs.drop_last() =~= seq![Seq::<char>::empty()]);
    assert(segs.drop_last().drop_last() =~= Seq::<Seq<char>>::empty());
    assert(names(segs) =~= Seq::<Seq<char>>::empty());
}

/// Splitting two texts with a separator between them gives the pieces of the one,
/// then the pieces of the other.
pub proof fn lemma_split_concat(a: Seq<char>, b: Seq<char>, c: char)
    ensures
        split(a + seq![c] + b, c) == split(a, c) + split(b, c),
    decreases a.len(),
{
    let whole = a + seq![c] + b;
    lemma_index_of(a, c);
    let i = index_of(a, c);
    assert(index_of(whole, c) == i) by {
        assert forall|j: int| 0 <= j < i implies whole[j] != c by {
            assert(whole[j] == a[j]);
        }
        if i < a.len() {
            assert(whole[i] == a[i]);
        } else {
            assert(whole[i] == c);
        }
        lemma_index_of_is(whole, c, i);
    }
    assert(whole.take(i) =~= a.take(i));
    if i < a.len() {
        assert(whole.skip(i + 1) =~= a.skip(i + 1) + seq![c] + b);
        lemma_split_concat(a.skip(i + 1), b, c);
        assert(split(whole, c) =~= split(a, c) + split(b, c));
    } else {
        assert(whole.skip(i + 1) =~= b);
        assert(a.take(i) =~= a);
        assert(split(whole, c) =~= split(a, c) + split(b, c));
    }
}

/// Splitting what was joined gives the pieces back, where there is a piece and no
/// piece holds the separator.
pub proof fn lemma_split_join(parts: Seq<Seq<char>>, c: char)
    requires
        parts.len() > 0,
        forall|i: int| 0 <= i < parts.len() ==> !has_char(#[trigger] parts[i], c),
    ensures
        split(join(parts, seq![c]), c) == parts,
    decreases parts.len(),
{
    lemma_index_of(parts.last(), c);
    assert(split(parts.last(), c) =~= seq![parts.last()]);
    if parts.len() > 1 {
        let init = parts.drop_last();
        assert forall|i: int| 0 <= i < init.len() implies !has_char(#[trigger] init[i], c) by {
            assert(init[i] == parts[i]);
        }
        lemma_split_join(init, c);
        lemma_split_concat(join(init, seq![c]), parts.last(), c);
        assert(init + seq![parts.last()] =~= parts);
    } else {
        assert(join(parts, seq![c]) == parts[0]);
    }
}

/// Reading the text of a well-formed path gives the path.
pub proof fn lemma_render_parse(p: PathModel)
    requires
        p.wf(),
    ensures
        parse_path(p.render()) == p,
{
    let body = join(p.parts, seq!['/']);
    let none = Seq::<char>::empty();
    lemma_names_all(p.parts);
    assert(split(none, '/') =~= seq![none]) by {
        assert(index_of(none, '/') == 0);
    }
    assert(names(seq![none]) =~= Seq::<Seq<char>>::empty()) by {
        reveal_with_fuel(names, 2);
        assert(seq![none].drop_last() =~= Seq::<Seq<char>>::empty());
    }
    if p.parts.len() > 0 {
        lemma_split_join(p.parts, '/');
        // the text begins with the first name, which holds no separator
        let first = p.parts[0];
        lemma_index_of(first, '/');
        assert(body.len() > 0 && body[0] == first[0]) by {
            lemma_join_begins(p.parts, seq!['/']);
        }
    } else {
        assert(body =~= none);
    }
    if p.absolute {
        assert(p.render() =~= none + seq!['/'] + body);
        lemma_split_concat(none, body, '/');
        if p.parts.len() > 0 {
            lemma_names_concat(seq![none], p.parts);
            assert(names(seq![none]) + p.parts =~= p.parts);
        } else {
            lemma_names_concat(seq![none], seq![none]);
        }
        assert(p.render()[0] == '/');
    } else {
        assert(p.render() == body);
    }
    assert(parse_path(p.render()).parts =~= p.parts);
}

/// What was joined begins with the first piece.
pub proof fn lemma_join_begins(parts: Seq<Seq<char>>, sep: Seq<char>)
    requires
        parts.len() > 0,
    ensures
        parts[0].is_prefix_of(join(parts, sep)),
    decreases parts.len(),
{
    if parts.len() > 1 {
        let init = parts.drop_last();
        lemma_join_begins(init, sep);
        let j = join(init, sep);
        let whole = join(parts, sep);
        assert(whole.subrange(0, parts[0].len() as int) =~= j.subrange(0, parts[0].len() as int));
    } else {
        assert(parts[0].subrange(0, parts[0].len() as int) =~= parts[0]);
    }
}

impl PathModel {
    /// What the text of every path below `self` begins with: the text of `self`
    /// and a separator, or only what marks `self` as absolute where it has no
    /// components.
    pub open spec fn base(self) -> Seq<char> {
        if self.parts.len() > 0 {
            self.render() + seq!['/']
        } else if self.absolute {
            seq!['/']
        } else {
            Seq::empty()
        }
    }

    /// `self` with the components `more` behind its own.
    pub open spec fn extended(self, more: Seq<Seq<char>>) -> PathModel {
        PathModel { absolute: self.absolute, parts: self.parts + more }
    }
}

/// The text of a path below `p` is the base of `p` and then the further
/// components with separators between them.
pub proof fn lemma_render_below(p: PathModel, more: Seq<Seq<char>>)
    requires
        more.len() > 0,
    ensures
        p.extended(more).render() == p.base() + join(more, seq!['/']),
{
    let sep = seq!['/'];
    if p.parts.len() > 0 {
        lemma_join_concat(p.parts, more, sep);
        assert(p.extended(more).render() =~= p.base() + join(more, sep));
    } else {
        assert(p.parts + more =~= more);
        assert(p.extended(more).render() =~= p.base() + join(more, sep));
    }
}

/// `.git` is a name without a separator.
pub proof fn lemma_dot_git()
    ensures
        is_name(".git"@),
        !has_char(".git"@, '/'),
        parse_path(".git"@) == (PathModel { absolute: false, parts: seq![".git"@] }),
{
    reveal_strlit(".git");
    let s = ".git"@;
    assert(s.len() == 4);
    assert(s != seq!['.']);
    lemma_index_of_is(s, '/', 4);
    lemma_parse_name(s);
}

/// A path held as data. Its components are names: none is empty, `.`, or holds
/// a separator.
#[derive(Debug, PartialEq, Eq, Hash)]
pub struct FsPath {
    absolute: bool,
    parts: Vec<String>,
}

impl View for FsPath {
    type V = PathModel;

    closed spec fn view(&self) -> PathModel {
        PathModel { absolute: self.absolute, parts: views(self.parts@) }
    }
}

/// The values of the paths in `v`.
pub open spec fn path_views(v: Seq<FsPath>) -> Seq<PathModel> {
    v.map_values(|p: FsPath| p@)
}

/// The values of a list with one more path are the values with one more value.
pub proof fn lemma_path_views_push(v: Seq<FsPath>, p: FsPath)
    ensures
        path_views(v.push(p)) == path_views(v).push(p@),
        path_views(v).len() == v.len(),
{
    assert(path_views(v.push(p)) =~= path_views(v).push(p@));
}

/// A copy of the members of `parts` from position `from` up to, not including, `to`.
fn copy_parts(parts: &Vec<String>, from: usize, to: usize) -> (r: Vec<String>)
    requires
        from <= to <= parts.len(),
    ensures
        views(r@) == views(parts@).subrange(from as int, to as int),
{
    let mut r: Vec<String> = Vec::new();
    let mut i: usize = from;
    assert(views(r@) =~= views(parts@).subrange(from as int, from as int));
    while i < to
        invariant
            from <= i <= to <= parts.len(),
            views(r@) == views(parts@).subrange(from as int, i as int),
        decreases to - i,
    {
        proof {
            lemma_views_push(r@, parts@[i as int]);
        }
        r.push(parts[i].clone());
        i = i + 1;
        assert(views(r@) =~= views(parts@).subrange(from as int, i as int));
    }
    r
}

impl Clone for FsPath {
    fn clone(&self) -> (r: Self)
        ensures
            r@ == self@,
    {
        proof {
            use_type_invariant(self);
        }
        let parts = copy_parts(&self.parts, 0, self.parts.len());
        assert(views(self.parts@).subrange(0, self.parts.len() as int) =~= views(self.parts@));
        FsPath { absolute: self.absolute, parts }
    }
}

impl FsPath {
    #[verifier::type_invariant]
    spec fn well_formed(&self) -> bool {
        self@.wf()
    }

    /// Reads a path from its text. Empty components and `.` are dropped.
    pub fn new(s: &str) -> (r: FsPath)
        ensures
            r@ == parse_path(s@),
    {
        let segs = split_at_char(s, '/');
        let mut parts: Vec<String> = Vec::new();
        let mut i: usize = 0;
        proof {
            reveal_strlit(".");
            lemma_split_pieces(s@, '/');
            lemma_parse_wf(s@);
        }
        while i < segs.len()
            invariant
                i <= segs.len(),
                "."@ == seq!['.'],
                views(parts@) == names(views(segs@).take(i as int)),
            decreases segs.len() - i,
        {
            let seg = segs[i].clone();
            proof {
                let next = views(segs@).take(i + 1);
                assert(next.drop_last() =~= views(segs@).take(i as int));
                assert(next.last() == seg@);
            }
            if seg.as_str().unicode_len() > 0 && !same_text(seg.as_str(), ".") {
                proof {
                    assert(views(parts@.push(seg)) =~= views(parts@).push(seg@));
                }
                parts.push(seg);
            }
            i = i + 1;
        }
        assert(views(segs@).take(segs.len() as int) =~= views(segs@));
        let first = chars_of(s);
        let absolute = first.len() > 0 && first[0] == '/';
        FsPath { absolute, parts }
    }

    /// The empty relative path.
    pub fn empty() -> (r: FsPath)
        ensures
            r@ == PathModel::empty(),
    {
        let parts: Vec<String> = Vec::new();
        assert(views(parts@) =~= Seq::empty());
        FsPath { absolute: false, parts }
    }

    /// Whether the path starts at the root.
    pub fn is_absolute(&self) -> (b: bool)
        ensures
            b == self@.absolute,
    {
        self.absolute
    }

    /// The number of components, each of which is a name without a separator.
    pub fn len(&self) -> (n: usize)
        ensures
            n == self@.parts.len(),
            self@.wf(),
    {
        proof {
            use_type_invariant(self);
        }
        self.parts.len()
    }

    /// The `i`-th component: a name without a separator.
    pub fn part(&self, i: usize) -> (s: &String)
        requires
            i < self@.parts.len(),
        ensures
            s@ == self@.parts[i as int],
            is_name(s@),
            !has_char(s@, '/'),
    {
        proof {
            use_type_invariant(self);
            assert(self@.parts[i as int] == self.parts@[i as int]@);
        }
        &self.parts[i]
    }

    /// Whether the two paths have the same components.
    pub fn same_as(&self, other: &FsPath) -> (b: bool)
        ensures
            b == (self@ == other@),
    {
        if self.absolute != other.absolute || self.parts.len() != other.parts.len() {
            assert(self@.parts.len() == self.parts.len());
            assert(other@.parts.len() == other.parts.len());
            return false;
        }
        let mut i: usize = 0;
        while i < self.parts.len()
            invariant
                self.parts.len() == other.parts.len(),
                i <= self.parts.len(),
                forall|j: int| 0 <= j < i ==> self@.parts[j] == other@.parts[j],
            decreases self.parts.len() - i,
        {
            if self.parts[i] != other.parts[i] {
                assert(self@.parts[i as int] != other@.parts[i as int]);
                return false;
            }
            i = i + 1;
        }
        assert(self@.parts =~= other@.parts);
        true
    }

    /// Whether `self` is `base` or lies below it.
    pub fn starts_with(&self, base: &FsPath) -> (b: bool)
        ensures
            b == self@.is_under(base@),
    {
        if self.absolute != base.absolute || base.parts.len() > self.parts.len() {
            return false;
        }
        let mut i: usize = 0;
        while i < base.parts.len()
            invariant
                base.parts.len() <= self.parts.len(),
                i <= base.parts.len(),
                forall|j: int| 0 <= j < i ==> self@.parts[j] == base@.parts[j],
            decreases base.parts.len() - i,
        {
            if self.parts[i] != base.parts[i] {
                assert(self@.parts.subrange(0, base@.parts.len() as int)[i as int]
                    != base@.parts[i as int]);
                return false;
            }
            i = i + 1;
        }
        assert(self@.parts.subrange(0, base@.parts.len() as int) =~= base@.parts);
        true
    }

    /// `self` followed by `other`; an absolute `other` replaces `self`.
    pub fn join(&self, other: &FsPath) -> (r: FsPath)
        ensures
            r@ == self@.join(other@),
    {
        if other.absolute {
            return other.clone();
        }
        proof {
            use_type_invariant(self);
            use_type_invariant(other);
        }
        let mut parts = copy_parts(&self.parts, 0, self.parts.len());
        let mut rest = copy_parts(&other.parts, 0, other.parts.len());
        proof {
            assert(views(self.parts@).subrange(0, self.parts.len() as int) =~= views(self.parts@));
            assert(views(other.parts@).subrange(0, other.parts.len() as int) =~= views(
                other.parts@,
            ));
            assert(views(parts@ + rest@) =~= views(parts@) + views(rest@));
            lemma_all_names(views(self.parts@), views(other.parts@), 0, 0);
        }
        parts.append(&mut rest);
        FsPath { absolute: self.absolute, parts }
    }

    /// The first `k` components of `self`.
    pub fn prefix(&self, k: usize) -> (r: FsPath)
        requires
            k <= self@.parts.len(),
        ensures
            r@ == self@.prefix(k as int),
    {
        proof {
            use_type_invariant(self);
            lemma_all_names(views(self.parts@), Seq::empty(), 0, k as int);
        }
        let parts = copy_parts(&self.parts, 0, k);
        FsPath { absolute: self.absolute, parts }
    }

    /// `self` with the one more component `name`, a name without a separator.
    pub fn join_name(&self, name: &String) -> (r: FsPath)
        requires
            is_name(name@),
            !has_char(name@, '/'),
        ensures
            r@ == self@.child(name@),
    {
        proof {
            use_type_invariant(self);
        }
        let mut parts = copy_parts(&self.parts, 0, self.parts.len());
        proof {
            assert(views(self.parts@).subrange(0, self.parts.len() as int) =~= views(self.parts@));
            lemma_views_push(parts@, *name);
            lemma_all_names(views(self.parts@), seq![name@], 0, 0);
            assert(views(self.parts@).push(name@) =~= views(self.parts@) + seq![name@]);
        }
        parts.push(name.clone());
        FsPath { absolute: self.absolute, parts }
    }

    /// `self` followed by the path that `s` denotes.
    pub fn join_str(&self, s: &str) -> (r: FsPath)
        ensures
            r@ == self@.join(parse_path(s@)),
    {
        let other = FsPath::new(s);
        self.join(&other)
    }

    /// What is left of `self` below `base`, as a relative path.
    pub fn strip_prefix(&self, base: &FsPath) -> (r: Option<FsPath>)
        ensures
            r is Some <==> self@.is_under(base@),
            r matches Some(p) ==> Some(p@) == self@.strip_prefix(base@),
    {
        if !self.starts_with(base) {
            return None;
        }
        proof {
            use_type_invariant(self);
        }
        let k = base.parts.len();
        proof {
            lemma_all_names(views(self.parts@), Seq::empty(), k as int, self.parts.len() as int);
        }
        let parts = copy_parts(&self.parts, k, self.parts.len());
        assert(views(self.parts@).subrange(k as int, self.parts.len() as int) =~= views(
            self.parts@,
        ).skip(k as int));
        Some(FsPath { absolute: false, parts })
    }

    /// The path without its last component.
    pub fn parent(&self) -> (r: Option<FsPath>)
        ensures
            r is Some <==> self@.parts.len() > 0,
            r matches Some(p) ==> Some(p@) == self@.parent(),
    {
        if self.parts.len() == 0 {
            return None;
        }
        proof {
            use_type_invariant(self);
        }
        proof {
            lemma_all_names(views(self.parts@), Seq::empty(), 0, self.parts.len() - 1);
        }
        let parts = copy_parts(&self.parts, 0, self.parts.len() - 1);
        assert(views(self.parts@).subrange(0, self.parts.len() - 1) =~= views(
            self.parts@,
        ).drop_last());
        Some(FsPath { absolute: self.absolute, parts })
    }

    /// The text of the path, from which `new` reads the path again.
    pub fn display(&self) -> (r: String)
        ensures
            r@ == self@.render(),
            parse_path(r@) == self@,
    {
        proof {
            reveal_strlit("/");
            assert("/"@ =~= seq!['/']);
            use_type_invariant(self);
            lemma_render_parse(self@);
        }
        let body = join_with(&self.parts, "/");
        if self.absolute {
            concat("/", body.as_str())
        } else {
            body
        }
    }
}

} // verus!
