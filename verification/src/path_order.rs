//! The order of paths.
//!
//! Paths are ordered component by component. The root comes before every
//! name, `..` before every other name, and names are ordered character by
//! character; a path comes before every path that it begins.

use crate::path::{lemma_path_views_push, path_views, FsPath, PathModel};
use crate::text::chars_of;
use vstd::prelude::*;
use vstd::string::*;

verus! {

/// Whether the text `a` comes before `b` or is `b`.
pub open spec fn text_le(a: Seq<char>, b: Seq<char>) -> bool
    decreases a.len(),
{
    if a.len() == 0 {
        true
    } else if b.len() == 0 {
        false
    } else if a[0] != b[0] {
        (a[0] as u32) < (b[0] as u32)
    } else {
        text_le(a.drop_first(), b.drop_first())
    }
}

/// Whether the component is `..`.
pub open spec fn is_parent_dir(a: Seq<char>) -> bool {
    a == seq!['.', '.']
}

/// Whether the component `a` comes before `b` or is `b`.
pub open spec fn part_le(a: Seq<char>, b: Seq<char>) -> bool {
    if is_parent_dir(a) {
        true
    } else if is_parent_dir(b) {
        false
    } else {
        text_le(a, b)
    }
}

/// Whether the components `a` come before `b` or are `b`.
pub open spec fn parts_le(a: Seq<Seq<char>>, b: Seq<Seq<char>>) -> bool
    decreases a.len(),
{
    if a.len() == 0 {
        true
    } else if b.len() == 0 {
        false
    } else if a[0] != b[0] {
        part_le(a[0], b[0])
    } else {
        parts_le(a.drop_first(), b.drop_first())
    }
}

/// Whether the path `a` comes before `b` or is `b`.
pub open spec fn path_le(a: PathModel, b: PathModel) -> bool {
    if a.absolute == b.absolute {
        parts_le(a.parts, b.parts)
    } else if a.absolute {
        b.parts.len() > 0
    } else {
        a.parts.len() == 0
    }
}

/// Of two texts, one comes before the other or they are the same; a text precedes itself.
pub proof fn lemma_text_total(a: Seq<char>, b: Seq<char>)
    ensures
        text_le(a, b) || text_le(b, a),
        text_le(a, a),
        text_le(a, b) && text_le(b, a) ==> a == b,
    decreases a.len(),
{
    if a.len() > 0 {
        lemma_text_total(a.drop_first(), a.drop_first());
        if b.len() > 0 {
            lemma_text_total(a.drop_first(), b.drop_first());
            if a[0] != b[0] {
                assert((a[0] as u32) != (b[0] as u32)) by {
                    vstd::utf8::char_u32_cast(a[0], a[0] as u32);
                    vstd::utf8::char_u32_cast(b[0], b[0] as u32);
                }
            }
            if a[0] == b[0] && text_le(a, b) && text_le(b, a) {
                assert(a =~= seq![a[0]] + a.drop_first());
                assert(b =~= seq![b[0]] + b.drop_first());
            }
        }
    } else if b.len() == 0 {
        assert(a =~= b);
    }
}

/// Of two lists of components, one comes before the other or they are the same.
pub proof fn lemma_parts_total(a: Seq<Seq<char>>, b: Seq<Seq<char>>)
    ensures
        parts_le(a, b) || parts_le(b, a),
        parts_le(a, a),
        parts_le(a, b) && parts_le(b, a) ==> a == b,
    decreases a.len(),
{
    if a.len() > 0 {
        lemma_parts_total(a.drop_first(), a.drop_first());
        if b.len() > 0 {
            lemma_parts_total(a.drop_first(), b.drop_first());
            lemma_text_total(a[0], b[0]);
            if a[0] == b[0] && parts_le(a, b) && parts_le(b, a) {
                assert(a =~= seq![a[0]] + a.drop_first());
                assert(b =~= seq![b[0]] + b.drop_first());
            }
        }
    } else if b.len() == 0 {
        assert(a =~= b);
    }
}

/// Of two paths, one comes before the other or they are the same.
pub proof fn lemma_path_total(a: PathModel, b: PathModel)
    ensures
        path_le(a, b) || path_le(b, a),
        path_le(a, a),
        path_le(a, b) && path_le(b, a) ==> a == b,
{
    lemma_parts_total(a.parts, b.parts);
    lemma_parts_total(a.parts, a.parts);
}

/// The order of texts is transitive.
pub proof fn lemma_text_trans(a: Seq<char>, b: Seq<char>, c: Seq<char>)
    requires
        text_le(a, b),
        text_le(b, c),
    ensures
        text_le(a, c),
    decreases a.len(),
{
    if a.len() > 0 {
        if a[0] == b[0] && b[0] == c[0] {
            lemma_text_trans(a.drop_first(), b.drop_first(), c.drop_first());
        }
    }
}

/// The order of components is transitive, and two components that precede each
/// other are the same.
pub proof fn lemma_part_order(a: Seq<char>, b: Seq<char>, c: Seq<char>)
    ensures
        part_le(a, b) && part_le(b, c) ==> part_le(a, c),
        part_le(a, b) && part_le(b, a) ==> a == b,
        part_le(a, b) || part_le(b, a),
{
    lemma_text_total(a, b);
    if part_le(a, b) && part_le(b, c) && !is_parent_dir(a) && !is_parent_dir(c) {
        lemma_text_trans(a, b, c);
    }
}

/// The order of lists of components is transitive.
pub proof fn lemma_parts_trans(a: Seq<Seq<char>>, b: Seq<Seq<char>>, c: Seq<Seq<char>>)
    requires
        parts_le(a, b),
        parts_le(b, c),
    ensures
        parts_le(a, c),
    decreases a.len(),
{
    if a.len() > 0 {
        lemma_part_order(a[0], b[0], c[0]);
        lemma_part_order(b[0], c[0], a[0]);
        if a[0] == b[0] && b[0] == c[0] {
            lemma_parts_trans(a.drop_first(), b.drop_first(), c.drop_first());
        }
    }
}

/// The order of paths is transitive.
pub proof fn lemma_path_trans(a: PathModel, b: PathModel, c: PathModel)
    requires
        path_le(a, b),
        path_le(b, c),
    ensures
        path_le(a, c),
{
    if a.absolute == b.absolute && b.absolute == c.absolute {
        lemma_parts_trans(a.parts, b.parts, c.parts);
    } else if a.absolute == c.absolute {
        // `b` alone is of the other kind: it is empty, or the others are
        if a.absolute {
            assert(a.parts.len() == 0 || b.parts.len() == 0);
        }
    }
}

/// In a sorted list every member comes before every later one or is the same.
pub proof fn lemma_sorted_pairs(s: Seq<PathModel>, i: int, j: int)
    requires
        is_sorted(s),
        0 <= i <= j < s.len(),
    ensures
        path_le(s[i], s[j]),
    decreases j - i,
{
    if i == j {
        lemma_path_total(s[i], s[i]);
    } else {
        lemma_sorted_pairs(s, i, j - 1);
        assert(path_le(s[j - 1], s[j - 1 + 1]));
        lemma_path_trans(s[i], s[j - 1], s[j]);
    }
}

/// Whether each member of `s` comes before the next or is the same.
pub open spec fn is_sorted(s: Seq<PathModel>) -> bool {
    forall|i: int| 0 <= i < s.len() - 1 ==> path_le(#[trigger] s[i], s[i + 1])
}

/// Tells whether the text `a` comes before `b` or is `b`.
fn text_precedes(a: &str, b: &str) -> (r: bool)
    ensures
        r == text_le(a@, b@),
{
    let x = chars_of(a);
    let y = chars_of(b);
    let mut i: usize = 0;
    assert(a@.skip(0) =~= a@);
    assert(b@.skip(0) =~= b@);
    while i < x.len() && i < y.len()
        invariant
            x@ == a@,
            y@ == b@,
            i <= x.len(),
            i <= y.len(),
            text_le(a@, b@) == text_le(a@.skip(i as int), b@.skip(i as int)),
        decreases x.len() - i,
    {
        proof {
            assert(a@.skip(i as int).drop_first() =~= a@.skip(i + 1));
            assert(b@.skip(i as int).drop_first() =~= b@.skip(i + 1));
            assert(a@.skip(i as int)[0] == x@[i as int]);
            assert(b@.skip(i as int)[0] == y@[i as int]);
        }
        if x[i] != y[i] {
            return (x[i] as u32) < (y[i] as u32);
        }
        i = i + 1;
    }
    i == x.len()
}

/// Tells whether the component `a` comes before `b` or is `b`.
fn part_precedes(a: &str, b: &str) -> (r: bool)
    ensures
        r == part_le(a@, b@),
{
    proof {
        reveal_strlit("..");
        assert(".."@ =~= seq!['.', '.']);
    }
    if crate::text::same_text(a, "..") {
        true
    } else if crate::text::same_text(b, "..") {
        false
    } else {
        text_precedes(a, b)
    }
}

impl FsPath {
    /// Tells whether `self` comes before `other` or is `other`.
    pub fn precedes(&self, other: &FsPath) -> (r: bool)
        ensures
            r == path_le(self@, other@),
    {
        if self.is_absolute() != other.is_absolute() {
            return if self.is_absolute() {
                other.len() > 0
            } else {
                self.len() == 0
            };
        }
        let n = self.len();
        let k = other.len();
        let mut i: usize = 0;
        assert(self@.parts.skip(0) =~= self@.parts);
        assert(other@.parts.skip(0) =~= other@.parts);
        while i < n && i < k
            invariant
                self@.absolute == other@.absolute,
                n == self@.parts.len(),
                k == other@.parts.len(),
                i <= n,
                i <= k,
                parts_le(self@.parts, other@.parts) == parts_le(
                    self@.parts.skip(i as int),
                    other@.parts.skip(i as int),
                ),
            decreases n - i,
        {
            let a = self.part(i);
            let b = other.part(i);
            proof {
                assert(self@.parts.skip(i as int).drop_first() =~= self@.parts.skip(i + 1));
                assert(other@.parts.skip(i as int).drop_first() =~= other@.parts.skip(i + 1));
                assert(self@.parts.skip(i as int)[0] == a@);
                assert(other@.parts.skip(i as int)[0] == b@);
            }
            if !crate::text::same_text(a.as_str(), b.as_str()) {
                assert(self@.parts.skip(i as int).len() > 0);
                assert(other@.parts.skip(i as int).len() > 0);
                assert(parts_le(self@.parts.skip(i as int), other@.parts.skip(i as int))
                    == part_le(a@, b@));
                return part_precedes(a.as_str(), b.as_str());
            }
            i = i + 1;
        }
        i == n
    }
}

/// Puts `x` into the sorted list `sorted`, at its place.
fn insert_sorted(sorted: &Vec<FsPath>, x: FsPath) -> (r: Vec<FsPath>)
    requires
        is_sorted(path_views(sorted@)),
    ensures
        is_sorted(path_views(r@)),
        path_views(r@).to_multiset() == path_views(sorted@).to_multiset().insert(x@),
        r.len() == sorted.len() + 1,
{
    let ghost sv = path_views(sorted@);
    let mut r: Vec<FsPath> = Vec::new();
    let mut i: usize = 0;
    assert(path_views(r@) =~= sv.take(0));
    while i < sorted.len() && sorted[i].precedes(&x)
        invariant
            i <= sorted.len(),
            sv == path_views(sorted@),
            sv.len() == sorted.len(),
            path_views(r@) == sv.take(i as int),
            forall|j: int| 0 <= j < i ==> path_le(#[trigger] sv[j], x@),
        decreases sorted.len() - i,
    {
        proof {
            lemma_path_views_push(r@, sorted@[i as int]);
            assert(sv.take(i + 1) =~= sv.take(i as int).push(sv[i as int]));
        }
        r.push(sorted[i].clone());
        i = i + 1;
    }
    let ghost k = i as int;
    proof {
        lemma_path_views_push(r@, x);
        if k < sv.len() {
            lemma_path_total(sv[k], x@);
        }
    }
    r.push(x);
    while i < sorted.len()
        invariant
            0 <= k <= i <= sorted.len(),
            sv == path_views(sorted@),
            sv.len() == sorted.len(),
            path_views(r@) == sv.take(k).push(x@) + sv.subrange(k, i as int),
        decreases sorted.len() - i,
    {
        proof {
            lemma_path_views_push(r@, sorted@[i as int]);
            assert(sv.take(k).push(x@) + sv.subrange(k, i + 1) =~= (sv.take(k).push(x@)
                + sv.subrange(k, i as int)).push(sv[i as int]));
        }
        r.push(sorted[i].clone());
        i = i + 1;
    }
    proof {
        let rv = path_views(r@);
        assert(sv.subrange(k, sv.len() as int) =~= sv.skip(k));
        assert(rv == sv.take(k).push(x@) + sv.skip(k));
        assert forall|j: int| 0 <= j < rv.len() - 1 implies path_le(#[trigger] rv[j], rv[j + 1]) by {
            if j < k - 1 {
                assert(rv[j] == sv[j] && rv[j + 1] == sv[j + 1]);
            } else if j == k - 1 {
                assert(rv[j] == sv[j] && rv[j + 1] == x@);
            } else if j == k {
                assert(rv[j] == x@ && rv[j + 1] == sv[k]);
            } else {
                assert(rv[j] == sv[j - 1] && rv[j + 1] == sv[j]);
            }
        }
        vstd::seq_lib::lemma_multiset_commutative(sv.take(k).push(x@), sv.skip(k));
        vstd::seq_lib::lemma_multiset_commutative(sv.take(k), sv.skip(k));
        assert(sv.take(k) + sv.skip(k) =~= sv);
        sv.take(k).to_multiset_ensures();
        assert(rv.to_multiset() =~= sv.to_multiset().insert(x@));
    }
    r
}

/// The paths of `v` in order: the same paths, each as often as in `v`, and every
/// one before the ones that follow it or the same as they.
pub fn sorted_paths(v: &Vec<FsPath>) -> (r: Vec<FsPath>)
    ensures
        is_sorted(path_views(r@)),
        forall|i: int, j: int|
            0 <= i <= j < r.len() ==> path_le(
                #[trigger] path_views(r@)[i],
                #[trigger] path_views(r@)[j],
            ),
        path_views(r@).to_multiset() == path_views(v@).to_multiset(),
        r.len() == v.len(),
{
    let ghost vv = path_views(v@);
    let mut r: Vec<FsPath> = Vec::new();
    let mut i: usize = 0;
    proof {
        assert(path_views(r@) =~= Seq::empty());
        assert(vv.take(0) =~= Seq::empty());
    }
    while i < v.len()
        invariant
            i <= v.len(),
            vv == path_views(v@),
            vv.len() == v.len(),
            r.len() == i,
            is_sorted(path_views(r@)),
            path_views(r@).to_multiset() == vv.take(i as int).to_multiset(),
        decreases v.len() - i,
    {
        proof {
            assert(vv.take(i + 1) =~= vv.take(i as int).push(vv[i as int]));
            vv.take(i as int).to_multiset_ensures();
        }
        r = insert_sorted(&r, v[i].clone());
        i = i + 1;
    }
    assert(vv.take(vv.len() as int) =~= vv);
    proof {
        let rv = path_views(r@);
        assert forall|i: int, j: int| 0 <= i <= j < r.len() implies path_le(
            #[trigger] rv[i],
            #[trigger] rv[j],
        ) by {
            lemma_sorted_pairs(rv, i, j);
        }
    }
    r
}

} // verus!
