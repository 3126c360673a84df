//! Sequences of characters: searching, splitting, joining and trimming.
//!
//! Every executable function here is stated against a specification on
//! `Seq<char>`, the view of `str` and `String`.

use vstd::prelude::*;
use vstd::string::*;

verus! {

/// The position of the first `c` in `s`, or `s.len()` if there is none.
pub open spec fn index_of(s: Seq<char>, c: char) -> int
    decreases s.len(),
{
    if s.len() == 0 {
        0
    } else if s[0] == c {
        0
    } else {
        1 + index_of(s.drop_first(), c)
    }
}

/// `index_of` is in range, points at a `c` when in range, and nothing before it is a `c`.
pub proof fn lemma_index_of(s: Seq<char>, c: char)
    ensures
        0 <= index_of(s, c) <= s.len(),
        index_of(s, c) < s.len() ==> s[index_of(s, c)] == c,
        forall|j: int| 0 <= j < index_of(s, c) ==> s[j] != c,
    decreases s.len(),
{
    if s.len() > 0 && s[0] != c {
        let t = s.drop_first();
        lemma_index_of(t, c);
        assert forall|j: int| 0 <= j < index_of(s, c) implies s[j] != c by {
            if j > 0 {
                assert(s[j] == t[j - 1]);
            }
        }
    }
}

/// The only position with the properties of `lemma_index_of` is `index_of`.
pub proof fn lemma_index_of_is(s: Seq<char>, c: char, i: int)
    requires
        0 <= i <= s.len(),
        i < s.len() ==> s[i] == c,
        forall|j: int| 0 <= j < i ==> s[j] != c,
    ensures
        index_of(s, c) == i,
{
    lemma_index_of(s, c);
    let k = index_of(s, c);
    if k < i {
        assert(s[k] != c);
    } else if i < k {
        assert(s[i] != c);
    }
}

/// Whether `c` occurs in `s`.
pub open spec fn has_char(s: Seq<char>, c: char) -> bool {
    index_of(s, c) < s.len()
}

/// The pieces of `s` between the occurrences of `c`; never empty.
pub open spec fn split(s: Seq<char>, c: char) -> Seq<Seq<char>>
    decreases s.len(),
{
    let i = index_of(s, c);
    if 0 <= i < s.len() {
        seq![s.take(i)] + split(s.skip(i + 1), c)
    } else {
        seq![s]
    }
}

/// The pieces of `parts` written one after the other with `sep` between neighbours.
pub open spec fn join(parts: Seq<Seq<char>>, sep: Seq<char>) -> Seq<char>
    decreases parts.len(),
{
    if parts.len() == 0 {
        Seq::empty()
    } else if parts.len() == 1 {
        parts[0]
    } else {
        join(parts.drop_last(), sep) + sep + parts.last()
    }
}

/// No character of a text without `c` is `c`.
pub proof fn lemma_free_of(s: Seq<char>, c: char)
    ensures
        !has_char(s, c) <==> forall|j: int| 0 <= j < s.len() ==> s[j] != c,
{
    lemma_index_of(s, c);
}

/// A text without `c` that is followed by `c` and begins what was joined with
/// `c` from pieces without `c` is the first of the pieces, and what follows
/// the `c` begins what the other pieces join to.
pub proof fn lemma_join_first_piece(a: Seq<char>, more: Seq<char>, b: Seq<Seq<char>>, c: char)
    requires
        !has_char(a, c),
        forall|i: int| 0 <= i < b.len() ==> !has_char(#[trigger] b[i], c),
        (a + seq![c] + more).is_prefix_of(join(b, seq![c])),
    ensures
        b.len() >= 2,
        b[0] == a,
        more.is_prefix_of(join(b.drop_first(), seq![c])),
{
    let sep = seq![c];
    let x = a + sep + more;
    let y = join(b, sep);
    let h = a.len() as int;
    lemma_free_of(a, c);
    assert forall|j: int| 0 <= j < x.len() implies y[j] == x[j] by {
        assert(y.subrange(0, x.len() as int)[j] == x[j]);
    }
    assert(x[h] == c);
    assert(y[h] == c);
    assert(b.len() > 0);
    lemma_free_of(b[0], c);
    if b.len() == 1 {
        assert(y[h] == b[0][h]);
    }
    let rest = b.drop_first();
    lemma_join_front(b[0], rest, sep);
    assert(seq![b[0]] + rest =~= b);
    let n = b[0].len() as int;
    let z = join(rest, sep);
    assert(y == b[0] + sep + z);
    assert(y[n] == c);
    if n < h {
        assert(x[n] == a[n]);
    }
    if h < n {
        assert(y[h] == b[0][h]);
    }
    assert(b[0] =~= a) by {
        assert forall|j: int| 0 <= j < h implies b[0][j] == a[j] by {
            assert(y[j] == x[j]);
        }
    }
    assert(more.len() <= z.len());
    assert(more =~= z.subrange(0, more.len() as int)) by {
        assert forall|j: int| 0 <= j < more.len() implies more[j] == z[j] by {
            assert(x[h + 1 + j] == more[j]);
            assert(y[n + 1 + j] == z[j]);
        }
    }
}

/// A text without `c` that begins what was joined with `c` begins the first piece.
pub proof fn lemma_join_first_begins(a: Seq<char>, b: Seq<Seq<char>>, c: char)
    requires
        !has_char(a, c),
        a.len() > 0,
        a.is_prefix_of(join(b, seq![c])),
    ensures
        b.len() >= 1,
        a.is_prefix_of(b[0]),
{
    let sep = seq![c];
    let y = join(b, sep);
    lemma_free_of(a, c);
    assert forall|j: int| 0 <= j < a.len() implies y[j] == a[j] by {
        assert(y.subrange(0, a.len() as int)[j] == a[j]);
    }
    assert(b.len() > 0);
    if b.len() > 1 {
        let rest = b.drop_first();
        lemma_join_front(b[0], rest, sep);
        assert(seq![b[0]] + rest =~= b);
        let n = b[0].len() as int;
        assert(y == b[0] + sep + join(rest, sep));
        if n < a.len() {
            assert(y[n] == c);
        }
        assert(a =~= b[0].subrange(0, a.len() as int)) by {
            assert forall|j: int| 0 <= j < a.len() implies a[j] == b[0][j] by {
                assert(y[j] == b[0][j]);
            }
        }
    }
}

/// Joining a piece in front: `join([a] + rest) == a + sep + join(rest)` for non-empty `rest`.
pub proof fn lemma_join_front(a: Seq<char>, rest: Seq<Seq<char>>, sep: Seq<char>)
    requires
        rest.len() > 0,
    ensures
        join(seq![a] + rest, sep) == a + sep + join(rest, sep),
    decreases rest.len(),
{
    let all = seq![a] + rest;
    assert(all.last() == rest.last());
    assert(all.drop_last() =~= seq![a] + rest.drop_last());
    if rest.len() == 1 {
        assert(all.drop_last() =~= seq![a]);
        assert(join(all.drop_last(), sep) == a);
    } else {
        lemma_join_front(a, rest.drop_last(), sep);
        assert(join(all, sep) =~= a + sep + join(rest, sep));
    }
}

/// Joining two lists one after the other joins what each of them joins to.
pub proof fn lemma_join_concat(a: Seq<Seq<char>>, b: Seq<Seq<char>>, sep: Seq<char>)
    requires
        a.len() > 0,
        b.len() > 0,
    ensures
        join(a + b, sep) == join(a, sep) + sep + join(b, sep),
    decreases b.len(),
{
    let all = a + b;
    assert(all.last() == b.last());
    assert(all.drop_last() =~= a + b.drop_last());
    if b.len() == 1 {
        assert(all.drop_last() =~= a);
        assert(join(b, sep) == b[0]);
    } else {
        lemma_join_concat(a, b.drop_last(), sep);
        assert(join(all, sep) =~= join(a, sep) + sep + join(b, sep));
    }
}

/// Every piece of a split is free of the separator, and there is at least one piece.
pub proof fn lemma_split_pieces(s: Seq<char>, c: char)
    ensures
        split(s, c).len() >= 1,
        forall|k: int| 0 <= k < split(s, c).len() ==> !has_char(#[trigger] split(s, c)[k], c),
        split(s, c).len() == 1 <==> !has_char(s, c),
        split(s, c)[0] == s.take(index_of(s, c)),
    decreases s.len(),
{
    lemma_index_of(s, c);
    let i = index_of(s, c);
    if i < s.len() {
        let rest = s.skip(i + 1);
        lemma_split_pieces(rest, c);
        let head = s.take(i);
        assert(!has_char(head, c)) by {
            lemma_index_of_is(head, c, i);
        }
        assert forall|k: int| 0 <= k < split(s, c).len() implies !has_char(
            #[trigger] split(s, c)[k],
            c,
        ) by {
            if k > 0 {
                assert(split(s, c)[k] == split(rest, c)[k - 1]);
            }
        }
    } else {
        assert(s.take(i) =~= s);
    }
}

/// Joining the pieces of a split with the separator gives the text back.
pub proof fn lemma_join_split(s: Seq<char>, c: char)
    ensures
        join(split(s, c), seq![c]) == s,
    decreases s.len(),
{
    lemma_index_of(s, c);
    let i = index_of(s, c);
    if i < s.len() {
        let rest = s.skip(i + 1);
        lemma_join_split(rest, c);
        lemma_split_pieces(rest, c);
        lemma_join_front(s.take(i), split(rest, c), seq![c]);
        assert(s =~= s.take(i) + seq![c] + rest);
    }
}

/// A text without the separator in front of another: the first piece grows, the rest stay.
pub proof fn lemma_split_prepend(a: Seq<char>, b: Seq<char>, c: char)
    requires
        !has_char(a, c),
    ensures
        split(a + b, c) == seq![a + split(b, c)[0]] + split(b, c).drop_first(),
    decreases b.len(),
{
    lemma_index_of(a, c);
    lemma_index_of(b, c);
    let s = a + b;
    let ib = index_of(b, c);
    assert(index_of(s, c) == a.len() + ib) by {
        assert forall|j: int| 0 <= j < a.len() + ib implies s[j] != c by {
            if j < a.len() {
                assert(s[j] == a[j]);
            } else {
                assert(s[j] == b[j - a.len()]);
            }
        }
        if ib < b.len() {
            assert(s[a.len() + ib] == b[ib]);
        }
        lemma_index_of_is(s, c, a.len() + ib);
    }
    if ib < b.len() {
        assert(s.take(a.len() + ib) =~= a + b.take(ib));
        assert(s.skip(a.len() + ib + 1) =~= b.skip(ib + 1));
        assert(split(b, c).drop_first() =~= split(b.skip(ib + 1), c));
    } else {
        assert(split(b, c).drop_first() =~= Seq::<Seq<char>>::empty());
        assert(split(s, c) =~= seq![a + b]);
    }
}

/// Whether `c` is white space, as `char::is_whitespace` has it.
pub open spec fn is_whitespace(c: char) -> bool {
    let n = c as u32;
    n == 0x20 || (0x09 <= n <= 0x0d) || n == 0x85 || n == 0xa0 || n == 0x1680 || (0x2000 <= n
        <= 0x200a) || n == 0x2028 || n == 0x2029 || n == 0x202f || n == 0x205f || n == 0x3000
}

/// `s` without its leading white space.
pub open spec fn trim_start(s: Seq<char>) -> Seq<char>
    decreases s.len(),
{
    if s.len() > 0 && is_whitespace(s[0]) {
        trim_start(s.drop_first())
    } else {
        s
    }
}

/// `s` without its trailing white space.
pub open spec fn trim_end(s: Seq<char>) -> Seq<char>
    decreases s.len(),
{
    if s.len() > 0 && is_whitespace(s.last()) {
        trim_end(s.drop_last())
    } else {
        s
    }
}

/// `s` without leading and trailing white space.
pub open spec fn trim(s: Seq<char>) -> Seq<char> {
    trim_end(trim_start(s))
}

/// Whether `s` ends with `pat`.
pub open spec fn ends_with(s: Seq<char>, pat: Seq<char>) -> bool {
    pat.len() <= s.len() && s.skip(s.len() - pat.len()) == pat
}

/// `s` with every trailing repetition of `pat` removed.
pub open spec fn strip_trailing(s: Seq<char>, pat: Seq<char>) -> Seq<char>
    decreases s.len(),
{
    if pat.len() > 0 && ends_with(s, pat) {
        strip_trailing(s.take(s.len() - pat.len()), pat)
    } else {
        s
    }
}

/// The characters of `s`, one by one.
pub fn chars_of(s: &str) -> (v: Vec<char>)
    ensures
        v@ == s@,
{
    let mut v: Vec<char> = Vec::new();
    for c in it: s.chars()
        invariant
            it.seq() == s@,
            v@ =~= it.seq().subrange(0, it.index() as int),
    {
        v.push(c);
    }
    assert(v@ =~= s@);
    v
}

/// The characters of `s` from position `from` up to, not including, `to`.
pub fn substring(s: &str, from: usize, to: usize) -> (r: String)
    requires
        from <= to <= s@.len(),
    ensures
        r@ == s@.subrange(from as int, to as int),
{
    String::from_str(s.substring_char(from, to))
}

/// `a` followed by `b`.
pub fn concat(a: &str, b: &str) -> (r: String)
    ensures
        r@ == a@ + b@,
{
    let mut r = String::from_str(a);
    r.append(b);
    r
}

/// Whether the two texts hold the same characters.
pub fn same_text(a: &str, b: &str) -> (r: bool)
    ensures
        r == (a@ == b@),
{
    let x = chars_of(a);
    let y = chars_of(b);
    if x.len() != y.len() {
        return false;
    }
    let mut i: usize = 0;
    while i < x.len()
        invariant
            x@ == a@,
            y@ == b@,
            x.len() == y.len(),
            i <= x.len(),
            forall|j: int| 0 <= j < i ==> x@[j] == y@[j],
        decreases x.len() - i,
    {
        if x[i] != y[i] {
            return false;
        }
        i = i + 1;
    }
    assert(x@ =~= y@);
    true
}

/// Whether `s` begins with `prefix`.
pub fn starts_with(s: &str, prefix: &str) -> (r: bool)
    ensures
        r == prefix@.is_prefix_of(s@),
{
    let x = chars_of(s);
    let p = chars_of(prefix);
    if p.len() > x.len() {
        return false;
    }
    let mut i: usize = 0;
    while i < p.len()
        invariant
            x@ == s@,
            p@ == prefix@,
            p.len() <= x.len(),
            i <= p.len(),
            forall|j: int| 0 <= j < i ==> x@[j] == p@[j],
        decreases p.len() - i,
    {
        if x[i] != p[i] {
            assert(x@.subrange(0, p@.len() as int)[i as int] != p@[i as int]);
            return false;
        }
        i = i + 1;
    }
    assert(x@.subrange(0, p@.len() as int) =~= p@);
    true
}

/// What follows `prefix` in `s`, if `s` begins with it.
pub fn strip_prefix(s: &str, prefix: &str) -> (r: Option<String>)
    ensures
        r is Some <==> prefix@.is_prefix_of(s@),
        r matches Some(t) ==> t@ == s@.skip(prefix@.len() as int),
{
    if starts_with(s, prefix) {
        let n = s.unicode_len();
        let k = prefix.unicode_len();
        Some(substring(s, k, n))
    } else {
        None
    }
}

/// The position of the first `c` in `s`, or the length of `s`.
pub fn find_char(s: &str, c: char) -> (i: usize)
    ensures
        i == index_of(s@, c),
{
    let x = chars_of(s);
    let mut i: usize = 0;
    while i < x.len()
        invariant
            x@ == s@,
            i <= x.len(),
            forall|j: int| 0 <= j < i ==> x@[j] != c,
        decreases x.len() - i,
    {
        if x[i] == c {
            proof {
                lemma_index_of_is(s@, c, i as int);
            }
            return i;
        }
        i = i + 1;
    }
    proof {
        lemma_index_of_is(s@, c, i as int);
    }
    i
}

/// The views of the texts in `v`.
pub open spec fn views(v: Seq<String>) -> Seq<Seq<char>> {
    v.map_values(|s: String| s@)
}

/// The views of a list with one more text are the views with one more view.
pub proof fn lemma_views_push(v: Seq<String>, s: String)
    ensures
        views(v.push(s)) == views(v).push(s@),
        views(v).len() == v.len(),
{
    assert(views(v.push(s)) =~= views(v).push(s@));
}

/// The pieces of `s` between the occurrences of `c`.
pub fn split_at_char(s: &str, c: char) -> (v: Vec<String>)
    ensures
        views(v@) == split(s@, c),
{
    let x = chars_of(s);
    let n = x.len();
    let mut v: Vec<String> = Vec::new();
    let mut start: usize = 0;
    let mut i: usize = 0;
    assert(s@.skip(0) =~= s@);
    assert(views(v@) + split(s@, c) =~= split(s@, c));
    while i < n
        invariant
            x@ == s@,
            n == x.len(),
            start <= i <= n,
            forall|j: int| start <= j < i ==> x@[j] != c,
            views(v@) + split(s@.skip(start as int), c) == split(s@, c),
        decreases n - i,
    {
        if x[i] == c {
            let piece = substring(s, start, i);
            proof {
                let rest = s@.skip(start as int);
                assert forall|j: int| 0 <= j < i - start implies rest[j] != c by {
                    assert(rest[j] == x@[start + j]);
                }
                lemma_index_of_is(rest, c, i - start);
                assert(rest.take(i - start) =~= s@.subrange(start as int, i as int));
                assert(rest.skip(i - start + 1) =~= s@.skip(i + 1));
                assert(views(v@.push(piece)) =~= views(v@) + seq![piece@]);
                assert(views(v@) + (seq![piece@] + split(s@.skip(i + 1), c)) =~= (views(v@)
                    + seq![piece@]) + split(s@.skip(i + 1), c));
            }
            v.push(piece);
            start = i + 1;
        }
        i = i + 1;
    }
    let piece = substring(s, start, n);
    proof {
        let rest = s@.skip(start as int);
        assert forall|j: int| 0 <= j < n - start implies rest[j] != c by {
            assert(rest[j] == x@[start + j]);
        }
        lemma_index_of_is(rest, c, n - start);
        assert(rest =~= s@.subrange(start as int, n as int));
        assert(views(v@.push(piece)) =~= views(v@) + seq![piece@]);
    }
    v.push(piece);
    v
}

/// The texts of `parts` written one after the other with `sep` between neighbours.
pub fn join_with(parts: &Vec<String>, sep: &str) -> (r: String)
    ensures
        r@ == join(views(parts@), sep@),
{
    let mut r = String::new();
    let mut i: usize = 0;
    while i < parts.len()
        invariant
            i <= parts.len(),
            r@ == join(views(parts@).take(i as int), sep@),
        decreases parts.len() - i,
    {
        proof {
            let next = views(parts@).take(i + 1);
            assert(next.drop_last() =~= views(parts@).take(i as int));
            assert(next.last() == parts@[i as int]@);
        }
        if i > 0 {
            r.append(sep);
        }
        r.append(parts[i].as_str());
        i = i + 1;
    }
    assert(views(parts@).take(parts.len() as int) =~= views(parts@));
    r
}

/// Tells whether `c` is white space.
pub fn whitespace(c: char) -> (b: bool)
    ensures
        b == is_whitespace(c),
{
    let n: u32 = c as u32;
    n == 0x20 || (0x09 <= n && n <= 0x0d) || n == 0x85 || n == 0xa0 || n == 0x1680 || (0x2000
        <= n && n <= 0x200a) || n == 0x2028 || n == 0x2029 || n == 0x202f || n == 0x205f || n
        == 0x3000
}

/// `s` without leading and trailing white space.
pub fn trimmed(s: &str) -> (r: String)
    ensures
        r@ == trim(s@),
{
    let x = chars_of(s);
    let n = x.len();
    let mut i: usize = 0;
    assert(s@.skip(0) =~= s@);
    while i < n && whitespace(x[i])
        invariant
            x@ == s@,
            n == x.len(),
            i <= n,
            trim_start(s@) == trim_start(s@.skip(i as int)),
        decreases n - i,
    {
        assert(s@.skip(i as int).drop_first() =~= s@.skip(i + 1));
        i = i + 1;
    }
    assert(trim_start(s@) == s@.skip(i as int));
    let mut j: usize = n;
    while j > i && whitespace(x[j - 1])
        invariant
            x@ == s@,
            n == x.len(),
            i <= j <= n,
            trim(s@) == trim_end(s@.subrange(i as int, j as int)),
        decreases j,
    {
        assert(s@.subrange(i as int, j as int).drop_last() =~= s@.subrange(i as int, j - 1));
        j = j - 1;
    }
    substring(s, i, j)
}

/// Tells whether `s` ends with `pat`.
pub fn has_suffix(s: &str, pat: &str) -> (r: bool)
    ensures
        r == ends_with(s@, pat@),
{
    let x = chars_of(s);
    let p = chars_of(pat);
    if p.len() > x.len() {
        return false;
    }
    let off = x.len() - p.len();
    let mut i: usize = 0;
    while i < p.len()
        invariant
            x@ == s@,
            p@ == pat@,
            p.len() <= x.len(),
            off == x.len() - p.len(),
            i <= p.len(),
            forall|j: int| 0 <= j < i ==> x@[off + j] == p@[j],
        decreases p.len() - i,
    {
        if x[off + i] != p[i] {
            assert(x@.skip(off as int)[i as int] != p@[i as int]);
            return false;
        }
        i = i + 1;
    }
    assert(x@.skip(off as int) =~= p@);
    true
}

/// `s` with every trailing repetition of `pat` removed.
pub fn without_trailing(s: &str, pat: &str) -> (r: String)
    ensures
        r@ == strip_trailing(s@, pat@),
{
    let k = pat.unicode_len();
    let mut r = String::from_str(s);
    if k == 0 {
        return r;
    }
    loop
        invariant
            k == pat@.len(),
            k > 0,
            strip_trailing(s@, pat@) == strip_trailing(r@, pat@),
        decreases r@.len(),
    {
        if !has_suffix(r.as_str(), pat) {
            return r;
        }
        let n = r.as_str().unicode_len();
        assert(r@.take(n - k) =~= r@.subrange(0, n - k));
        r = substring(r.as_str(), 0, n - k);
    }
}

/// Whether `needle` occurs in `hay`.
pub open spec fn occurs_in(needle: Seq<char>, hay: Seq<char>) -> bool {
    exists|i: int| 0 <= i <= hay.len() && needle.is_prefix_of(#[trigger] hay.skip(i))
}

/// Tells whether `needle` occurs in `hay`.
pub fn contains_text(hay: &str, needle: &str) -> (r: bool)
    ensures
        r == occurs_in(needle@, hay@),
{
    let x = chars_of(hay);
    let p = chars_of(needle);
    if p.len() > x.len() {
        assert forall|i: int| 0 <= i <= hay@.len() implies !needle@.is_prefix_of(
            #[trigger] hay@.skip(i),
        ) by {}
        return false;
    }
    let last = x.len() - p.len();
    let mut i: usize = 0;
    while i <= last
        invariant
            x@ == hay@,
            p@ == needle@,
            p.len() <= x.len(),
            last == x.len() - p.len(),
            i <= last + 1,
            forall|k: int| 0 <= k < i ==> !needle@.is_prefix_of(#[trigger] hay@.skip(k)),
        decreases last + 1 - i,
    {
        let mut j: usize = 0;
        let mut same = true;
        while j < p.len()
            invariant
                x@ == hay@,
                p@ == needle@,
                i + p.len() <= x.len(),
                j <= p.len(),
                same ==> forall|k: int| 0 <= k < j ==> x@[i + k] == p@[k],
                !same ==> exists|k: int| 0 <= k < p.len() && x@[i + k] != p@[k],
            decreases p.len() - j,
        {
            if x[i + j] != p[j] {
                same = false;
            }
            j = j + 1;
        }
        if same {
            proof {
                let t = hay@.skip(i as int);
                assert(t.subrange(0, p@.len() as int) =~= p@);
            }
            return true;
        }
        proof {
            let t = hay@.skip(i as int);
            let k = choose|k: int| 0 <= k < p.len() && x@[i + k] != p@[k];
            assert(t.subrange(0, p@.len() as int)[k] == x@[i + k]);
        }
        if i == last {
            proof {
                assert forall|k: int| 0 <= k <= hay@.len() implies !needle@.is_prefix_of(
                    #[trigger] hay@.skip(k),
                ) by {
                    if k > last {
                        assert(hay@.skip(k).len() < needle@.len());
                    }
                }
            }
            return false;
        }
        i = i + 1;
    }
    false
}

/// The decimal digits of `n`.
pub open spec fn decimal(n: nat) -> Seq<char>
    decreases n,
{
    if n < 10 {
        seq![digit((n % 10) as nat)]
    } else {
        decimal(n / 10).push(digit((n % 10) as nat))
    }
}

/// The character for a digit below ten.
pub open spec fn digit(d: nat) -> char {
    if d == 0 {
        '0'
    } else if d == 1 {
        '1'
    } else if d == 2 {
        '2'
    } else if d == 3 {
        '3'
    } else if d == 4 {
        '4'
    } else if d == 5 {
        '5'
    } else if d == 6 {
        '6'
    } else if d == 7 {
        '7'
    } else if d == 8 {
        '8'
    } else {
        '9'
    }
}

/// The text of one digit.
fn digit_text(d: usize) -> (r: &'static str)
    requires
        d < 10,
    ensures
        r@ == seq![digit(d as nat)],
{
    proof {
        reveal_strlit("0");
        reveal_strlit("1");
        reveal_strlit("2");
        reveal_strlit("3");
        reveal_strlit("4");
        reveal_strlit("5");
        reveal_strlit("6");
        reveal_strlit("7");
        reveal_strlit("8");
        reveal_strlit("9");
    }
    let r = if d == 0 {
        "0"
    } else if d == 1 {
        "1"
    } else if d == 2 {
        "2"
    } else if d == 3 {
        "3"
    } else if d == 4 {
        "4"
    } else if d == 5 {
        "5"
    } else if d == 6 {
        "6"
    } else if d == 7 {
        "7"
    } else if d == 8 {
        "8"
    } else {
        "9"
    };
    assert(r@ =~= seq![digit(d as nat)]);
    r
}

/// Writes `n` in decimal digits.
pub fn decimal_text(n: usize) -> (r: String)
    ensures
        r@ == decimal(n as nat),
    decreases n,
{
    if n < 10 {
        String::from_str(digit_text(n))
    } else {
        let mut r = decimal_text(n / 10);
        r.append(digit_text(n % 10));
        assert(r@ =~= decimal((n / 10) as nat).push(digit((n % 10) as nat)));
        r
    }
}

/// `seg` without a carriage return at its end.
pub open spec fn strip_cr(seg: Seq<char>) -> Seq<char> {
    if seg.len() > 0 && seg.last() == '\r' {
        seg.drop_last()
    } else {
        seg
    }
}

/// The lines of `s`: what stands between line feeds, without the carriage return
/// before a line feed. A line feed at the very end starts no further line.
pub open spec fn lines(s: Seq<char>) -> Seq<Seq<char>>
    decreases s.len(),
{
    let i = index_of(s, '\n');
    if s.len() == 0 {
        Seq::empty()
    } else if 0 <= i < s.len() {
        seq![strip_cr(s.take(i))] + lines(s.skip(i + 1))
    } else {
        seq![s]
    }
}

/// The lines of `s`.
pub fn lines_of(s: &str) -> (v: Vec<String>)
    ensures
        views(v@) == lines(s@),
{
    let x = chars_of(s);
    let n = x.len();
    let mut v: Vec<String> = Vec::new();
    let mut start: usize = 0;
    let mut i: usize = 0;
    assert(s@.skip(0) =~= s@);
    assert(views(v@) + lines(s@) =~= lines(s@));
    while i < n
        invariant
            x@ == s@,
            n == x.len(),
            start <= i <= n,
            forall|j: int| start <= j < i ==> x@[j] != '\n',
            views(v@) + lines(s@.skip(start as int)) == lines(s@),
        decreases n - i,
    {
        if x[i] == '\n' {
            let end = if i > start && x[i - 1] == '\r' {
                i - 1
            } else {
                i
            };
            let piece = substring(s, start, end);
            proof {
                let rest = s@.skip(start as int);
                assert forall|j: int| 0 <= j < i - start implies rest[j] != '\n' by {
                    assert(rest[j] == x@[start + j]);
                }
                lemma_index_of_is(rest, '\n', i - start);
                let seg = rest.take(i - start);
                assert(seg =~= s@.subrange(start as int, i as int));
                assert(strip_cr(seg) =~= piece@) by {
                    if i > start {
                        assert(seg.last() == x@[i - 1]);
                        assert(seg.drop_last() =~= s@.subrange(start as int, i - 1));
                    }
                }
                assert(rest.skip(i - start + 1) =~= s@.skip(i + 1));
                lemma_views_push(v@, piece);
                assert(views(v@) + (seq![piece@] + lines(s@.skip(i + 1))) =~= (views(v@)
                    + seq![piece@]) + lines(s@.skip(i + 1)));
            }
            v.push(piece);
            start = i + 1;
        }
        i = i + 1;
    }
    if start < n {
        let piece = substring(s, start, n);
        proof {
            let rest = s@.skip(start as int);
            assert forall|j: int| 0 <= j < n - start implies rest[j] != '\n' by {
                assert(rest[j] == x@[start + j]);
            }
            lemma_index_of_is(rest, '\n', n - start);
            assert(rest =~= s@.subrange(start as int, n as int));
            lemma_views_push(v@, piece);
        }
        v.push(piece);
    } else {
        proof {
            assert(s@.skip(start as int).len() == 0);
            assert(views(v@) + Seq::<Seq<char>>::empty() =~= views(v@));
        }
    }
    v
}

/// The number of characters of `s` before its first white space.
pub open spec fn word_len(s: Seq<char>) -> nat
    decreases s.len(),
{
    if s.len() == 0 || is_whitespace(s[0]) {
        0
    } else {
        1 + word_len(s.drop_first())
    }
}

/// The words of `s`: what stands between stretches of white space.
pub open spec fn words(s: Seq<char>) -> Seq<Seq<char>>
    decreases s.len(),
{
    let k = word_len(s) as int;
    if s.len() == 0 {
        Seq::empty()
    } else if is_whitespace(s[0]) {
        words(s.drop_first())
    } else if 0 < k <= s.len() {
        seq![s.take(k)] + words(s.skip(k))
    } else {
        seq![s]
    }
}

/// A word ends at the first white space or at the end of the text.
pub proof fn lemma_word_len(s: Seq<char>)
    ensures
        word_len(s) <= s.len(),
        forall|j: int| 0 <= j < word_len(s) ==> !is_whitespace(s[j]),
        word_len(s) < s.len() ==> is_whitespace(s[word_len(s) as int]),
    decreases s.len(),
{
    if s.len() > 0 && !is_whitespace(s[0]) {
        let t = s.drop_first();
        lemma_word_len(t);
        assert forall|j: int| 0 <= j < word_len(s) implies !is_whitespace(s[j]) by {
            if j > 0 {
                assert(s[j] == t[j - 1]);
            }
        }
    }
}

/// The length of the word is the only position with the properties of `lemma_word_len`.
pub proof fn lemma_word_len_is(s: Seq<char>, k: int)
    requires
        0 <= k <= s.len(),
        forall|j: int| 0 <= j < k ==> !is_whitespace(s[j]),
        k < s.len() ==> is_whitespace(s[k]),
    ensures
        word_len(s) == k,
{
    lemma_word_len(s);
    let w = word_len(s) as int;
    if w < k {
        assert(!is_whitespace(s[w]));
    } else if k < w {
        assert(!is_whitespace(s[k]));
    }
}

/// The words of `s`.
pub fn words_of(s: &str) -> (v: Vec<String>)
    ensures
        views(v@) == words(s@),
{
    let x = chars_of(s);
    let n = x.len();
    let mut v: Vec<String> = Vec::new();
    let mut i: usize = 0;
    assert(s@.skip(0) =~= s@);
    assert(views(v@) + words(s@) =~= words(s@));
    while i < n
        invariant
            x@ == s@,
            n == x.len(),
            i <= n,
            views(v@) + words(s@.skip(i as int)) == words(s@),
        decreases n - i,
    {
        if whitespace(x[i]) {
            proof {
                assert(s@.skip(i as int)[0] == x@[i as int]);
                assert(s@.skip(i as int).drop_first() =~= s@.skip(i + 1));
            }
            i = i + 1;
        } else {
            let start = i;
            let mut j: usize = i + 1;
            while j < n && !whitespace(x[j])
                invariant
                    x@ == s@,
                    n == x.len(),
                    start < j <= n,
                    forall|k: int| start <= k < j ==> !is_whitespace(x@[k]),
                decreases n - j,
            {
                j = j + 1;
            }
            let piece = substring(s, start, j);
            proof {
                let rest = s@.skip(start as int);
                assert forall|k: int| 0 <= k < j - start implies !is_whitespace(rest[k]) by {
                    assert(rest[k] == x@[start + k]);
                }
                if j < n {
                    assert(rest[j - start] == x@[j as int]);
                }
                lemma_word_len_is(rest, j - start);
                assert(rest[0] == x@[start as int]);
                assert(rest.take(j - start) =~= piece@);
                assert(rest.skip(j - start) =~= s@.skip(j as int));
                lemma_views_push(v@, piece);
                assert(views(v@) + (seq![piece@] + words(s@.skip(j as int))) =~= (views(v@)
                    + seq![piece@]) + words(s@.skip(j as int)));
            }
            v.push(piece);
            i = j;
        }
    }
    proof {
        assert(s@.skip(n as int).len() == 0);
        assert(views(v@) + Seq::<Seq<char>>::empty() =~= views(v@));
    }
    v
}

/// The decimal digits of `n`, behind a `-` where it is negative.
pub open spec fn signed_decimal(n: int) -> Seq<char> {
    if n < 0 {
        seq!['-'] + decimal((-n) as nat)
    } else {
        decimal(n as nat)
    }
}

/// Writes `n` in decimal digits, behind a `-` where it is negative.
pub fn signed_decimal_text(n: i32) -> (r: String)
    ensures
        r@ == signed_decimal(n as int),
{
    if n < 0 {
        let m: i64 = -(n as i64);
        proof {
            reveal_strlit("-");
            assert("-"@ =~= seq!['-']);
        }
        concat("-", decimal_text(m as usize).as_str())
    } else {
        decimal_text(n as usize)
    }
}

} // verus!
