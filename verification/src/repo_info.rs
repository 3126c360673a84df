//! The identity of a repository and the paths that encode it.
//!
//! A repository is named by host, user and repository name. A worktree of it
//! lives at `{root}/{host}/{user}/{repo}+{branch}`, what its worktrees share
//! at `{root}/.shared/{host}/{user}/{repo}/...`.

use crate::path::{
    is_name, lemma_names_all, lemma_names_concat, lemma_parse_name, names, parse_path, FsPath,
    PathModel,
};
use crate::text::{
    concat, find_char, has_char, index_of, join, join_with, lemma_index_of, lemma_index_of_is,
    lemma_join_split, lemma_split_pieces, lemma_split_prepend, lemma_views_push, split,
    split_at_char, strip_prefix, strip_trailing, substring, trim, trimmed, views,
    without_trailing,
};
use vstd::prelude::*;
use vstd::string::*;

verus! {

/// The mathematical value of a `RepoInfo`.
pub struct RepoModel {
    pub host: Seq<char>,
    pub user: Seq<char>,
    pub repo: Seq<char>,
    pub branch: Option<Seq<char>>,
}

impl RepoModel {
    /// Host, user and repository name are non-empty and hold no path separator.
    pub open spec fn plain(self) -> bool {
        &&& self.host.len() > 0 && !has_char(self.host, '/')
        &&& self.user.len() > 0 && !has_char(self.user, '/')
        &&& self.repo.len() > 0 && !has_char(self.repo, '/')
    }

    /// Host and user are single path components; the repository name is non-empty
    /// and holds neither a separator nor the `+` that ends it in a worktree's name.
    pub open spec fn wf(self) -> bool {
        &&& is_name(self.host) && !has_char(self.host, '/')
        &&& is_name(self.user) && !has_char(self.user, '/')
        &&& self.repo.len() > 0 && !has_char(self.repo, '/') && !has_char(self.repo, '+')
    }
}

/// Identifies a repository, and the branch where it was read from a worktree's path.
#[derive(Debug, PartialEq, Eq)]
pub struct RepoInfo {
    pub host: String,
    pub user: String,
    pub repo: String,
    pub branch: Option<String>,
}

impl View for RepoInfo {
    type V = RepoModel;

    open spec fn view(&self) -> RepoModel {
        RepoModel {
            host: self.host@,
            user: self.user@,
            repo: self.repo@,
            branch: match self.branch {
                Some(b) => Some(b@),
                None => None,
            },
        }
    }
}

impl Clone for RepoInfo {
    fn clone(&self) -> (r: Self)
        ensures
            r@ == self@,
    {
        RepoInfo {
            host: self.host.clone(),
            user: self.user.clone(),
            repo: self.repo.clone(),
            branch: match &self.branch {
                Some(b) => Some(b.clone()),
                None => None,
            },
        }
    }
}

/// Why a URL or a path names no repository.
#[derive(Debug)]
pub enum RepositoryError {
    Invalid(String),
}

impl RepositoryError {
    /// The text of `message`.
    pub open spec fn text(&self) -> Seq<char> {
        "Invalid: "@ + self.detail()
    }

    /// The error as a line of text.
    pub fn message(&self) -> (r: String)
        ensures
            r@ == self.text(),
    {
        match self {
            RepositoryError::Invalid(m) => concat("Invalid: ", m.as_str()),
        }
    }

    /// The text that the error carries.
    pub open spec fn detail(&self) -> Seq<char> {
        match self {
            RepositoryError::Invalid(m) => m@,
        }
    }
}

/// What follows the scheme of a URL: the host up to `sep`, then `user/repo[.git]`.
/// There is none where host, user or repository name would be empty, or the
/// host would hold a `/`.
pub open spec fn url_tail(rest: Seq<char>, sep: char) -> Option<RepoModel> {
    let i = index_of(rest, sep);
    let segs = split(rest.skip(i + 1), '/');
    if 0 <= i < rest.len() && segs.len() >= 2 {
        let host = rest.take(i);
        let user = segs[0];
        let repo = strip_trailing(segs[1], ".git"@);
        if host.len() > 0 && !has_char(host, '/') && user.len() > 0 && repo.len() > 0 {
            Some(RepoModel { host, user, repo, branch: None })
        } else {
            None
        }
    } else {
        None
    }
}

/// The complaint about a URL that has a known scheme and no host with `user/repo` behind it.
pub open spec fn expected_text(prefix: Seq<char>, sep: char, url: Seq<char>) -> Seq<char> {
    "Expected format: "@ + prefix + "host"@ + seq![sep] + "user/repo, got: "@ + url
}

/// The complaint about a URL of no known scheme.
pub open spec fn unsupported_text(url: Seq<char>) -> Seq<char> {
    "Unsupported URL format. Supported: https://, git@, ssh://. Got: "@ + url
}

/// What one URL shape makes of `url`: nothing if the scheme differs, else the
/// repository or the complaint.
pub open spec fn url_shape(url: Seq<char>, prefix: Seq<char>, sep: char) -> Option<
    Result<RepoModel, Seq<char>>,
> {
    if prefix.is_prefix_of(url) {
        Some(
            match url_tail(url.skip(prefix.len() as int), sep) {
                Some(m) => Ok(m),
                None => Err(expected_text(prefix, sep, url)),
            },
        )
    } else {
        None
    }
}

/// What a URL denotes: `https://host/user/repo`, `ssh://git@host/user/repo` or
/// `git@host:user/repo`, tried in this order on the trimmed text.
pub open spec fn url_outcome(url: Seq<char>) -> Result<RepoModel, Seq<char>> {
    let u = trim(url);
    match url_shape(u, "https://"@, '/') {
        Some(r) => r,
        None => match url_shape(u, "ssh://git@"@, '/') {
            Some(r) => r,
            None => match url_shape(u, "git@"@, ':') {
                Some(r) => r,
                None => Err(unsupported_text(u)),
            },
        },
    }
}

/// The branch that the components from the repository's own on decode to.
pub open spec fn branch_of(first: Seq<char>, rest: Seq<Seq<char>>) -> Option<Seq<char>> {
    if rest.len() > 0 {
        Some(join(seq![first] + rest, seq!['/']))
    } else if first.len() > 0 {
        Some(first)
    } else {
        None
    }
}

/// The complaint about a path that does not lie below the root.
pub open spec fn not_under_text(root: PathModel, path: PathModel) -> Seq<char> {
    "Path "@ + path.render() + " is not under root "@ + root.render()
}

/// The complaint about a path with fewer than three components below the
/// root, or with no repository name before the `+` in the third.
pub open spec fn no_structure_text(rel: PathModel) -> Seq<char> {
    "Path "@ + rel.render() + " does not have managed repository structure"@
}

/// What a path below `root` denotes: `host/user/repo+branch`, the branch going on
/// over any further components. A third component that begins with `+` names
/// no repository.
pub open spec fn path_outcome(root: PathModel, path: PathModel) -> Result<
    RepoModel,
    Seq<char>,
> {
    match path.strip_prefix(root) {
        None => Err(not_under_text(root, path)),
        Some(rel) => if rel.parts.len() < 3 {
            Err(no_structure_text(rel))
        } else {
            let name = rel.parts[2];
            let plus = index_of(name, '+');
            if plus == 0 && name.len() > 0 {
                Err(no_structure_text(rel))
            } else if 0 <= plus < name.len() {
                Ok(
                    RepoModel {
                        host: rel.parts[0],
                        user: rel.parts[1],
                        repo: name.take(plus),
                        branch: branch_of(name.skip(plus + 1), rel.parts.skip(3)),
                    },
                )
            } else {
                Ok(
                    RepoModel {
                        host: rel.parts[0],
                        user: rel.parts[1],
                        repo: name,
                        branch: None,
                    },
                )
            }
        },
    }
}

/// The path of the worktree of `info` for `branch` below `root`.
pub open spec fn repo_path(root: PathModel, info: RepoModel, branch: Seq<char>) -> PathModel {
    root.join(parse_path(info.host)).join(parse_path(info.user)).join(
        parse_path(info.repo + seq!['+'] + branch),
    )
}

/// The place in shared storage of what lies at `relative` in the worktrees of `info`.
pub open spec fn shared_path(root: PathModel, info: RepoModel, relative: PathModel) -> PathModel {
    root.join(parse_path(".shared"@)).join(parse_path(info.host)).join(
        parse_path(info.user),
    ).join(parse_path(info.repo)).join(relative)
}

/// Every piece of `branch` after the first is a name, so that the branch survives
/// being written as path components.
pub open spec fn branch_keeps(branch: Seq<char>) -> bool {
    forall|i: int| 1 <= i < split(branch, '/').len() ==> is_name(#[trigger] split(branch, '/')[i])
}

impl RepoInfo {
    /// The repository of this host, user and name, with the branch if there is one.
    pub fn new(host: String, user: String, repo: String, branch: Option<String>) -> (r: Self)
        ensures
            r.host == host,
            r.user == user,
            r.repo == repo,
            r.branch == branch,
    {
        RepoInfo { host, user, repo, branch }
    }

    /// Tries one URL shape on the trimmed URL.
    fn from_shape(url: &str, prefix: &str, sep: char, sep_text: &str) -> (r: Option<
        Result<RepoInfo, RepositoryError>,
    >)
        requires
            sep_text@ == seq![sep],
        ensures
            match url_shape(url@, prefix@, sep) {
                None => r is None,
                Some(Ok(m)) => r matches Some(Ok(info)) && info@ == m,
                Some(Err(t)) => r matches Some(Err(RepositoryError::Invalid(msg))) && msg@ == t,
            },
    {
        let rest = match strip_prefix(url, prefix) {
            Some(rest) => rest,
            None => {
                return None;
            },
        };
        let n = rest.as_str().unicode_len();
        let i = find_char(rest.as_str(), sep);
        proof {
            lemma_index_of(rest@, sep);
        }
        if i < n {
            let host = substring(rest.as_str(), 0, i);
            let tail = substring(rest.as_str(), i + 1, n);
            assert(tail@ == rest@.skip(i + 1));
            assert(host@ == rest@.take(i as int));
            let segs = split_at_char(tail.as_str(), '/');
            assert(views(segs@).len() == segs.len());
            if segs.len() >= 2 {
                let user = segs[0].clone();
                let repo = without_trailing(segs[1].as_str(), ".git");
                assert(views(segs@)[0] == segs@[0]@);
                assert(views(segs@)[1] == segs@[1]@);
                assert(host@.len() == i);
                let slash = find_char(host.as_str(), '/');
                let user_len = user.as_str().unicode_len();
                let repo_len = repo.as_str().unicode_len();
                proof {
                    lemma_index_of(host@, '/');
                }
                if i > 0 && slash == i && user_len > 0 && repo_len > 0 {
                    return Some(Ok(RepoInfo::new(host, user, repo, None)));
                }
            }
        }
        let mut msg = concat("Expected format: ", prefix);
        msg.append("host");
        msg.append(sep_text);
        msg.append("user/repo, got: ");
        msg.append(url);
        Some(Err(RepositoryError::Invalid(msg)))
    }

    /// Reads the repository that a git URL names.
    ///
    /// The URL is `https://host/user/repo`, `ssh://git@host/user/repo` or
    /// `git@host:user/repo`, each with or without `.git` at the end.
    pub fn from_url(url: &str) -> (r: Result<Self, RepositoryError>)
        ensures
            match url_outcome(url@) {
                Ok(m) => r matches Ok(info) && info@ == m,
                Err(t) => r matches Err(RepositoryError::Invalid(msg)) && msg@ == t,
            },
            r matches Ok(info) ==> info@.plain() && info.branch is None,
    {
        let u = trimmed(url);
        proof {
            lemma_url_plain(url@);
            reveal_strlit("/");
            reveal_strlit(":");
            assert("/"@ =~= seq!['/']);
            assert(":"@ =~= seq![':']);
        }
        match RepoInfo::from_shape(u.as_str(), "https://", '/', "/") {
            Some(r) => {
                return r;
            },
            None => {},
        }
        match RepoInfo::from_shape(u.as_str(), "ssh://git@", '/', "/") {
            Some(r) => {
                return r;
            },
            None => {},
        }
        match RepoInfo::from_shape(u.as_str(), "git@", ':', ":") {
            Some(r) => {
                return r;
            },
            None => {},
        }
        Err(
            RepositoryError::Invalid(
                concat(
                    "Unsupported URL format. Supported: https://, git@, ssh://. Got: ",
                    u.as_str(),
                ),
            ),
        )
    }

    /// Reads the repository and branch that the path of a worktree below `root` names.
    pub fn from_path(root: &FsPath, path: &FsPath) -> (r: Result<Self, RepositoryError>)
        ensures
            match path_outcome(root@, path@) {
                Ok(m) => r matches Ok(info) && info@ == m,
                Err(t) => r matches Err(RepositoryError::Invalid(msg)) && msg@ == t,
            },
            r matches Ok(info) ==> info@.plain(),
    {
        let _ = path.len();
        proof {
            lemma_path_plain(root@, path@);
        }
        let rel = match path.strip_prefix(root) {
            Some(rel) => rel,
            None => {
                let mut msg = concat("Path ", path.display().as_str());
                msg.append(" is not under root ");
                msg.append(root.display().as_str());
                return Err(RepositoryError::Invalid(msg));
            },
        };
        if rel.len() < 3 {
            let mut msg = concat("Path ", rel.display().as_str());
            msg.append(" does not have managed repository structure");
            return Err(RepositoryError::Invalid(msg));
        }
        let host = rel.part(0).clone();
        let user = rel.part(1).clone();
        let name = rel.part(2);
        let n = name.as_str().unicode_len();
        let plus = find_char(name.as_str(), '+');
        proof {
            lemma_index_of(name@, '+');
        }
        if plus == 0 && n > 0 {
            let mut msg = concat("Path ", rel.display().as_str());
            msg.append(" does not have managed repository structure");
            return Err(RepositoryError::Invalid(msg));
        }
        if plus < n {
            let repo = substring(name.as_str(), 0, plus);
            let first = substring(name.as_str(), plus + 1, n);
            assert(repo@ == name@.take(plus as int));
            assert(first@ == name@.skip(plus + 1));
            let branch = if rel.len() > 3 {
                let mut pieces: Vec<String> = Vec::new();
                pieces.push(first);
                let mut i: usize = 3;
                assert(views(pieces@) =~= seq![first@] + rel@.parts.subrange(3, 3));
                while i < rel.len()
                    invariant
                        3 <= i <= rel@.parts.len(),
                        views(pieces@) == seq![first@] + rel@.parts.subrange(3, i as int),
                    decreases rel@.parts.len() - i,
                {
                    let p = rel.part(i).clone();
                    proof {
                        lemma_views_push(pieces@, p);
                    }
                    pieces.push(p);
                    i = i + 1;
                    assert(views(pieces@) =~= seq![first@] + rel@.parts.subrange(3, i as int));
                }
                assert(rel@.parts.subrange(3, rel@.parts.len() as int) =~= rel@.parts.skip(3));
                proof {
                    reveal_strlit("/");
                    assert("/"@ =~= seq!['/']);
                }
                Some(join_with(&pieces, "/"))
            } else if first.as_str().unicode_len() > 0 {
                assert(rel@.parts.skip(3).len() == 0);
                Some(first)
            } else {
                assert(rel@.parts.skip(3).len() == 0);
                None
            };
            Ok(RepoInfo::new(host, user, repo, branch))
        } else {
            Ok(RepoInfo::new(host, user, name.clone(), None))
        }
    }

    /// The path of the worktree for `branch`: `{root}/{host}/{user}/{repo}+{branch}`.
    pub fn build_repo_path(&self, root: &FsPath, branch: &str) -> (r: FsPath)
        ensures
            r@ == repo_path(root@, self@, branch@),
    {
        proof {
            reveal_strlit("+");
            assert("+"@ =~= seq!['+']);
        }
        let mut name = concat(self.repo.as_str(), "+");
        name.append(branch);
        root.join_str(self.host.as_str()).join_str(self.user.as_str()).join_str(name.as_str())
    }

    /// The place in shared storage of `relative`:
    /// `{root}/.shared/{host}/{user}/{repo}/{relative}`.
    pub fn build_shared_path(&self, root: &FsPath, relative: &FsPath) -> (r: FsPath)
        ensures
            r@ == shared_path(root@, self@, relative@),
    {
        root.join_str(".shared").join_str(self.host.as_str()).join_str(
            self.user.as_str(),
        ).join_str(self.repo.as_str()).join(relative)
    }
}

/// The components that `repo+branch` reads as: the name up to the first separator
/// of the branch, then the rest of the branch's pieces.
proof fn lemma_parse_worktree_name(repo: Seq<char>, branch: Seq<char>)
    requires
        repo.len() > 0,
        !has_char(repo, '/'),
        branch_keeps(branch),
    ensures
        parse_path(repo + seq!['+'] + branch) == (PathModel {
            absolute: false,
            parts: seq![repo + seq!['+'] + split(branch, '/')[0]] + split(branch, '/').drop_first(),
        }),
{
    let a = repo + seq!['+'];
    let name = a + branch;
    let pieces = split(branch, '/');
    let rest = pieces.drop_first();
    lemma_index_of(repo, '/');
    lemma_split_pieces(branch, '/');
    assert(!has_char(a, '/')) by {
        assert forall|j: int| 0 <= j < a.len() implies a[j] != '/' by {
            if j < repo.len() {
                assert(a[j] == repo[j]);
            }
        }
        lemma_index_of_is(a, '/', a.len() as int);
    }
    lemma_split_prepend(a, branch, '/');
    let head = a + pieces[0];
    assert(split(name, '/') == seq![head] + rest);
    lemma_names_concat(seq![head], rest);
    assert(is_name(head)) by {
        assert(head.len() >= 2);
    }
    assert(names(seq![head]) == seq![head]) by {
        lemma_names_all(seq![head]);
    }
    assert(names(rest) == rest) by {
        assert forall|i: int| 0 <= i < rest.len() implies is_name(#[trigger] rest[i]) by {
            assert(rest[i] == pieces[i + 1]);
        }
        lemma_names_all(rest);
    }
    assert(name[0] == repo[0]);
    assert(repo[0] != '/');
}

/// Decoding the path of a worktree gives back what it was built from.
///
/// For every root, every repository whose host and user are single path
/// components and whose name holds no `/` and no `+`, and every branch whose
/// pieces after the first are names, `from_path` of `build_repo_path` is the
/// repository with that branch (with none where the branch is empty).
pub proof fn lemma_path_round_trip(root: PathModel, info: RepoModel, branch: Seq<char>)
    requires
        info.wf(),
        branch_keeps(branch),
    ensures
        path_outcome(root, repo_path(root, info, branch)) == Ok::<RepoModel, Seq<char>>(
            RepoModel {
                host: info.host,
                user: info.user,
                repo: info.repo,
                branch: if branch.len() == 0 {
                    None
                } else {
                    Some(branch)
                },
            },
        ),
{
    let pieces = split(branch, '/');
    let rest = pieces.drop_first();
    let head = info.repo + seq!['+'] + pieces[0];
    lemma_parse_name(info.host);
    lemma_parse_name(info.user);
    lemma_parse_worktree_name(info.repo, branch);
    lemma_split_pieces(branch, '/');
    lemma_index_of(branch, '/');
    let p = repo_path(root, info, branch);
    let tail = seq![info.host, info.user, head] + rest;
    assert(p.parts =~= root.parts + tail);
    assert(p.absolute == root.absolute);
    assert(p.parts.subrange(0, root.parts.len() as int) =~= root.parts);
    assert(p.is_under(root));
    let rel = p.strip_prefix(root).unwrap();
    assert(rel.parts =~= tail);
    assert(rel.parts[0] == info.host);
    assert(rel.parts[1] == info.user);
    assert(rel.parts[2] == head);
    assert(rel.parts.skip(3) =~= rest);
    let plus = info.repo.len() as int;
    assert(index_of(head, '+') == plus) by {
        lemma_index_of(info.repo, '+');
        assert forall|j: int| 0 <= j < plus implies head[j] != '+' by {
            assert(head[j] == info.repo[j]);
        }
        assert(head[plus] == '+');
        lemma_index_of_is(head, '+', plus);
    }
    assert(head.take(plus) =~= info.repo);
    assert(head.skip(plus + 1) =~= pieces[0]);
    if rest.len() > 0 {
        assert(seq![pieces[0]] + rest =~= pieces);
        lemma_join_split(branch, '/');
        assert(has_char(branch, '/'));
    } else {
        assert(pieces[0] =~= branch);
    }
}

/// What is left after trailing repetitions of `pat` were removed begins the text.
proof fn lemma_strip_trailing_prefix(s: Seq<char>, pat: Seq<char>)
    ensures
        strip_trailing(s, pat).is_prefix_of(s),
    decreases s.len(),
{
    if pat.len() > 0 && crate::text::ends_with(s, pat) {
        let t = s.take(s.len() - pat.len());
        lemma_strip_trailing_prefix(t, pat);
        let r = strip_trailing(t, pat);
        assert(s.subrange(0, r.len() as int) =~= t.subrange(0, r.len() as int));
    } else {
        assert(s.subrange(0, s.len() as int) =~= s);
    }
}

/// Whether `name` is the name of a worktree's directory with a branch of one
/// piece: `repo+branch` with text on both sides of its only `+`.
pub open spec fn valid_repo_pattern(name: Seq<char>) -> bool {
    let plus = index_of(name, '+');
    0 < plus && plus + 1 < name.len() && !has_char(name.skip(plus + 1), '+')
}

/// Whether `name` is `repo+branch` with text on both sides of its only `+`.
pub fn is_valid_repo_pattern(name: &str) -> (b: bool)
    ensures
        b == valid_repo_pattern(name@),
{
    let n = name.unicode_len();
    let plus = find_char(name, '+');
    proof {
        lemma_index_of(name@, '+');
    }
    if plus == 0 || plus >= n {
        return false;
    }
    if plus + 1 >= n {
        return false;
    }
    let branch = substring(name, plus + 1, n);
    assert(branch@ == name@.skip(plus + 1));
    let m = branch.as_str().unicode_len();
    proof {
        lemma_index_of(branch@, '+');
    }
    find_char(branch.as_str(), '+') == m
}

/// Whatever URL `from_url` accepts names a host, a user and a repository that
/// are non-empty and hold no `/`, and no branch.
pub proof fn lemma_url_plain(url: Seq<char>)
    ensures
        url_outcome(url) matches Ok(m) ==> m.plain() && m.branch is None,
{
    assert forall|rest: Seq<char>, sep: char| url_tail(rest, sep) is Some implies {
        let m = url_tail(rest, sep).unwrap();
        m.plain() && m.branch is None
    } by {
        let m = url_tail(rest, sep).unwrap();
        let i = index_of(rest, sep);
        lemma_split_pieces(rest.skip(i + 1), '/');
        let segs = split(rest.skip(i + 1), '/');
        assert(!has_char(segs[0], '/'));
        assert(!has_char(segs[1], '/'));
        lemma_strip_trailing_prefix(segs[1], ".git"@);
        lemma_index_of(segs[1], '/');
        assert(!has_char(m.repo, '/')) by {
            assert forall|j: int| 0 <= j < m.repo.len() implies m.repo[j] != '/' by {
                assert(m.repo[j] == segs[1].subrange(0, m.repo.len() as int)[j]);
            }
            lemma_index_of_is(m.repo, '/', m.repo.len() as int);
        }
    }
}

/// Whatever path `from_path` accepts names a host, a user and a repository
/// that are non-empty and hold no `/`.
pub proof fn lemma_path_plain(root: PathModel, path: PathModel)
    requires
        path.wf(),
    ensures
        path_outcome(root, path) matches Ok(m) ==> m.plain(),
{
    if path_outcome(root, path) is Ok {
        let m = path_outcome(root, path)->Ok_0;
        let rel = path.strip_prefix(root).unwrap();
        let k = root.parts.len() as int;
        assert(rel.parts[0] == path.parts[k]);
        assert(rel.parts[1] == path.parts[k + 1]);
        assert(rel.parts[2] == path.parts[k + 2]);
        let name = rel.parts[2];
        let plus = index_of(name, '+');
        lemma_index_of(name, '+');
        lemma_index_of(name, '/');
        if plus < name.len() {
            assert(!has_char(m.repo, '/')) by {
                assert forall|j: int| 0 <= j < m.repo.len() implies m.repo[j] != '/' by {
                    assert(m.repo[j] == name[j]);
                }
                lemma_index_of_is(m.repo, '/', m.repo.len() as int);
            }
        }
    }
}

} // verus!
