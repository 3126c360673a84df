//! The file system as the library sees it.
//!
//! The contracts speak of a model: a map from paths to entries, flat, in
//! which an entry lies below another when the other's components begin its
//! own. A symbolic link is an entry of its own and is never followed: it
//! exists whether or not its target does, and it is never a directory.

use crate::path::{FsPath, PathModel};
use crate::text::concat;
use vstd::prelude::*;
use vstd::string::*;

verus! {

/// Why a file system operation failed.
#[derive(Debug)]
pub enum FileSystemError {
    Io(String),
    PathError(String),
}

impl FileSystemError {
    /// The text that the error carries.
    pub open spec fn detail(&self) -> Seq<char> {
        match self {
            FileSystemError::Io(m) => m@,
            FileSystemError::PathError(m) => m@,
        }
    }

    /// The text of `message`.
    pub open spec fn text(&self) -> Seq<char> {
        match self {
            FileSystemError::Io(m) => "IO error: "@ + m@,
            FileSystemError::PathError(m) => "Path error: "@ + m@,
        }
    }

    /// The error as a line of text.
    pub fn message(&self) -> (r: String)
        ensures
            r@ == self.text(),
    {
        match self {
            FileSystemError::Io(m) => concat("IO error: ", m.as_str()),
            FileSystemError::PathError(m) => concat("Path error: ", m.as_str()),
        }
    }
}

impl Clone for FileSystemError {
    fn clone(&self) -> (r: Self)
        ensures
            r.text() == self.text(),
            r.detail() == self.detail(),
    {
        match self {
            FileSystemError::Io(m) => FileSystemError::Io(m.clone()),
            FileSystemError::PathError(m) => FileSystemError::PathError(m.clone()),
        }
    }
}

/// What lies at a path.
pub enum NodeModel {
    File { content: Seq<u8> },
    Directory,
    Symlink { target: PathModel },
}

/// The state of a file system.
///
/// A symbolic link is an entry of its own, and what it points to is not looked
/// up here: something lies at the path of a link whose target is missing, and
/// no directory lies at the path of a link to a directory. What a file system
/// answers when it is asked about the path of a link may go by the link's
/// target; `holds_entry`, `holds_dir` and `holds_repository` ask so that the
/// answer goes by the entry.
pub struct FsModel {
    /// What lies at each path that holds something.
    pub entries: Map<PathModel, NodeModel>,
    /// The directory that relative paths of the caller start from.
    pub current_dir: PathModel,
    /// The user's home directory.
    pub home_dir: PathModel,
}

/// `q`, which lies at or below `to`, moved to the same place at or below `from`.
pub open spec fn rebase(q: PathModel, to: PathModel, from: PathModel) -> PathModel {
    PathModel { absolute: from.absolute, parts: from.parts + q.parts.skip(to.parts.len() as int) }
}

impl FsModel {
    /// The same file system with other entries.
    pub open spec fn with_entries(self, entries: Map<PathModel, NodeModel>) -> FsModel {
        FsModel { entries, current_dir: self.current_dir, home_dir: self.home_dir }
    }

    /// Whether every path that holds something is made of names.
    pub open spec fn wf(self) -> bool {
        forall|p: PathModel| #[trigger] self.entries.contains_key(p) ==> p.wf()
    }

    /// Whether everything lies in something: what holds a path of two or more
    /// components holds something too.
    pub open spec fn is_tree(self) -> bool {
        forall|p: PathModel| #[trigger]
            self.entries.contains_key(p) && p.parts.len() > 1 ==> self.entries.contains_key(
                pop(p),
            )
    }

    /// Whether anything lies at `p`, be it a symbolic link to nothing.
    pub open spec fn path_exists(self, p: PathModel) -> bool {
        self.entries.contains_key(p)
    }

    /// Whether a symbolic link lies at `p`.
    pub open spec fn is_symlink(self, p: PathModel) -> bool {
        self.entries.contains_key(p) && self.entries[p] is Symlink
    }

    /// Whether a directory lies at `p`; a symbolic link to a directory is none.
    pub open spec fn is_dir(self, p: PathModel) -> bool {
        self.entries.contains_key(p) && self.entries[p] is Directory
    }

    /// A directory is a repository when it holds an entry named `.git`.
    pub open spec fn is_git_repository(self, p: PathModel) -> bool {
        self.entries.contains_key(p.child(".git"@))
    }

    /// The entries directly inside `p`.
    pub open spec fn children(self, p: PathModel) -> Set<PathModel> {
        Set::new(|q: PathModel| self.entries.contains_key(q) && q.parent() == Some(p))
    }

    /// Whether renaming or copying `from` to `to` puts something at `q`: `q` is `to`,
    /// or lies below it where `from` is a directory, and its counterpart exists.
    pub open spec fn arrives(self, from: PathModel, to: PathModel, q: PathModel) -> bool {
        &&& q.is_under(to)
        &&& self.is_dir(from) || q == to
        &&& self.entries.contains_key(rebase(q, to, from))
    }

    /// Whether renaming `from` takes away what lies at `q`.
    pub open spec fn leaves(self, from: PathModel, q: PathModel) -> bool {
        if self.is_dir(from) {
            q.is_under(from)
        } else {
            q == from
        }
    }

    /// `p` and everything below it removed.
    pub open spec fn remove(self, p: PathModel) -> FsModel {
        self.with_entries(
            Map::new(
                |q: PathModel| self.entries.contains_key(q) && !q.is_under(p),
                |q: PathModel| self.entries[q],
            ),
        )
    }

    /// `p` and each of its ancestors made a directory where nothing lies yet.
    pub open spec fn create_dir(self, p: PathModel) -> FsModel {
        self.with_entries(
            Map::new(
                |q: PathModel|
                    self.entries.contains_key(q) || (p.is_under(q) && (q.absolute || q.parts.len()
                        > 0)),
                |q: PathModel|
                    if self.entries.contains_key(q) {
                        self.entries[q]
                    } else {
                        NodeModel::Directory
                    },
            ),
        )
    }

    /// A symbolic link to `target` put at `link`.
    pub open spec fn create_symlink(self, target: PathModel, link: PathModel) -> FsModel {
        self.with_entries(self.entries.insert(link, NodeModel::Symlink { target }))
    }

    /// `from` moved to `to`, with all that lies below it where it is a directory.
    pub open spec fn rename(self, from: PathModel, to: PathModel) -> FsModel {
        self.with_entries(
            Map::new(
                |q: PathModel|
                    self.arrives(from, to, q) || (self.entries.contains_key(q) && !self.leaves(
                        from,
                        q,
                    )),
                |q: PathModel|
                    if self.arrives(from, to, q) {
                        self.entries[rebase(q, to, from)]
                    } else {
                        self.entries[q]
                    },
            ),
        )
    }

    /// `from` copied to `to`, with all that lies below it where it is a directory;
    /// a directory is copied into a `to` whose missing ancestors are made first.
    pub open spec fn copy(self, from: PathModel, to: PathModel) -> FsModel {
        let base = if self.is_dir(from) {
            self.create_dir(to)
        } else {
            self
        };
        self.with_entries(
            Map::new(
                |q: PathModel| self.arrives(from, to, q) || base.entries.contains_key(q),
                |q: PathModel|
                    if self.arrives(from, to, q) {
                        self.entries[rebase(q, to, from)]
                    } else {
                        base.entries[q]
                    },
            ),
        )
    }
}

/// `acc` without its last component, if it has one.
pub open spec fn pop(acc: PathModel) -> PathModel {
    if acc.parts.len() > 0 {
        PathModel { absolute: acc.absolute, parts: acc.parts.drop_last() }
    } else {
        acc
    }
}

/// What one component does to the path built so far: `~` replaces it by the home
/// directory, `..` takes its last component away, and a name is added.
pub open spec fn normalize_step(acc: PathModel, part: Seq<char>, home: PathModel) -> PathModel {
    if part == seq!['~'] {
        home
    } else if part == seq!['.', '.'] {
        pop(acc)
    } else {
        acc.child(part)
    }
}

/// The path built from `start` by the components `parts`, one after the other.
pub open spec fn normalize_parts(
    start: PathModel,
    parts: Seq<Seq<char>>,
    home: PathModel,
) -> PathModel
    decreases parts.len(),
{
    if parts.len() == 0 {
        start
    } else {
        normalize_step(normalize_parts(start, parts.drop_last(), home), parts.last(), home)
    }
}

/// Whether the path names the home directory somewhere.
pub open spec fn mentions_home(path: PathModel) -> bool {
    path.parts.contains(seq!['~'])
}

/// Where `path` starts: an absolute path at the root, a relative one at `base`.
pub open spec fn start_of(path: PathModel, base: PathModel) -> PathModel {
    if path.absolute {
        PathModel { absolute: true, parts: Seq::empty() }
    } else {
        base
    }
}

/// `path` resolved: an absolute path starts at the root and a relative one at
/// `base`; from there `~` stands for `home`, `..` steps back (and stays where
/// there is nothing to step back from), and a name steps down.
pub open spec fn normalized(path: PathModel, base: PathModel, home: PathModel) -> PathModel {
    normalize_parts(start_of(path, base), path.parts, home)
}

/// What the components `parts` make of a start that is absolute is absolute,
/// where the home directory is.
proof fn lemma_parts_absolute(start: PathModel, parts: Seq<Seq<char>>, home: PathModel)
    requires
        start.absolute,
        home.absolute,
    ensures
        normalize_parts(start, parts, home).absolute,
    decreases parts.len(),
{
    if parts.len() > 0 {
        lemma_parts_absolute(start, parts.drop_last(), home);
    }
}

/// Components that are names are put behind the start.
proof fn lemma_parts_plain(start: PathModel, parts: Seq<Seq<char>>, home: PathModel)
    requires
        forall|i: int|
            0 <= i < parts.len() ==> parts[i] != seq!['~'] && parts[i] != seq!['.', '.'],
    ensures
        normalize_parts(start, parts, home) == start.extended(parts),
    decreases parts.len(),
{
    if parts.len() > 0 {
        lemma_parts_plain(start, parts.drop_last(), home);
        assert(start.parts + parts =~= (start.parts + parts.drop_last()).push(parts.last()));
    } else {
        assert(start.parts + parts =~= start.parts);
    }
}

/// A path resolved against an absolute base, for an absolute home directory, is
/// absolute.
pub proof fn lemma_normalized_absolute(path: PathModel, base: PathModel, home: PathModel)
    requires
        base.absolute,
        home.absolute,
    ensures
        normalized(path, base, home).absolute,
{
    lemma_parts_absolute(start_of(path, base), path.parts, home);
}

/// A path without `~` and `..` is taken as it is where it is absolute, and put
/// behind the base where it is relative.
pub proof fn lemma_normalized_plain(path: PathModel, base: PathModel, home: PathModel)
    requires
        forall|i: int|
            0 <= i < path.parts.len() ==> path.parts[i] != seq!['~'] && path.parts[i] != seq![
                '.',
                '.',
            ],
    ensures
        normalized(path, base, home) == if path.absolute {
            path
        } else {
            base.join(path)
        },
{
    lemma_parts_plain(start_of(path, base), path.parts, home);
    if path.absolute {
        assert(Seq::<Seq<char>>::empty() + path.parts =~= path.parts);
    }
}

/// A relative path that begins with `..` is resolved from the directory that
/// holds the base.
pub proof fn lemma_normalized_steps_back(rest: PathModel, base: PathModel, home: PathModel)
    requires
        !rest.absolute,
        forall|i: int|
            0 <= i < rest.parts.len() ==> rest.parts[i] != seq!['~'] && rest.parts[i] != seq![
                '.',
                '.',
            ],
    ensures
        normalized(
            PathModel { absolute: false, parts: seq![seq!['.', '.']] + rest.parts },
            base,
            home,
        ) == pop(base).join(rest),
{
    let up = seq![seq!['.', '.']];
    lemma_parts_from(base, up, rest.parts, home);
    assert(up.drop_last() =~= Seq::<Seq<char>>::empty());
    assert(normalize_parts(base, up.drop_last(), home) == base);
    assert(up.last() == seq!['.', '.']);
    assert(seq!['.', '.'] != seq!['~']) by {
        assert(seq!['.', '.'].len() != seq!['~'].len());
    }
    assert(normalize_parts(base, up, home) == pop(base));
    lemma_parts_plain(pop(base), rest.parts, home);
}

/// Resolving components one list after the other is resolving them all.
proof fn lemma_parts_from(
    start: PathModel,
    a: Seq<Seq<char>>,
    b: Seq<Seq<char>>,
    home: PathModel,
)
    ensures
        normalize_parts(start, a + b, home) == normalize_parts(
            normalize_parts(start, a, home),
            b,
            home,
        ),
    decreases b.len(),
{
    if b.len() > 0 {
        lemma_parts_from(start, a, b.drop_last(), home);
        assert((a + b).drop_last() =~= a + b.drop_last());
        assert((a + b).last() == b.last());
    } else {
        assert(a + b =~= a);
    }
}

/// Resolves `path` against `base`.
///
/// The empty relative path is refused, and so is `.`, which is the same path:
/// a path holds no `.` component. `home` is looked at only where the path holds
/// `~`; where it is an error then, that error comes back.
pub fn normalize(path: &FsPath, base: &FsPath, home: &Result<FsPath, FileSystemError>) -> (r:
    Result<FsPath, FileSystemError>)
    ensures
        path@ == PathModel::empty() ==> (r matches Err(FileSystemError::PathError(m)) && m@
            == "Cannot normalize an empty path"@),
        path@ != PathModel::empty() ==> match home {
            Ok(h) => r matches Ok(p) && p@ == normalized(path@, base@, h@),
            Err(e) => if mentions_home(path@) {
                r matches Err(f) && f.text() == e.text()
            } else {
                r matches Ok(p) && forall|h: PathModel| p@ == normalized(path@, base@, h)
            },
        },
{
    if path.len() == 0 && !path.is_absolute() {
        assert(path@.parts =~= Seq::empty());
        return Err(
            FileSystemError::PathError(String::from_str("Cannot normalize an empty path")),
        );
    }
    assert(path@ != PathModel::empty());
    let mut acc = if path.is_absolute() {
        FsPath::new("/")
    } else {
        base.clone()
    };
    proof {
        reveal_strlit("/");
        reveal_strlit("~");
        reveal_strlit("..");
        assert("~"@ =~= seq!['~']);
        assert(".."@ =~= seq!['.', '.']);
        crate::path::lemma_parse_root();
        assert(path@.parts.take(0) =~= Seq::empty());
    }
    let ghost start = start_of(path@, base@);
    let mut i: usize = 0;
    while i < path.len()
        invariant
            i <= path@.parts.len(),
            "~"@ == seq!['~'],
            ".."@ == seq!['.', '.'],
            start == start_of(path@, base@),
            match home {
                Ok(h) => acc@ == normalize_parts(start, path@.parts.take(i as int), h@),
                Err(e) => !path@.parts.take(i as int).contains(seq!['~']) && forall|h: PathModel|
                    acc@ == normalize_parts(start, path@.parts.take(i as int), h),
            },
        decreases path@.parts.len() - i,
    {
        let part = path.part(i);
        proof {
            let next = path@.parts.take(i + 1);
            assert(next.drop_last() =~= path@.parts.take(i as int));
            assert(next.last() == part@);
        }
        let ghost before = acc@;
        if crate::text::same_text(part.as_str(), "~") {
            match home {
                Ok(h) => {
                    acc = h.clone();
                },
                Err(e) => {
                    assert(path@.parts[i as int] == seq!['~']);
                    return Err(e.clone());
                },
            }
        } else if crate::text::same_text(part.as_str(), "..") {
            match acc.parent() {
                Some(p) => {
                    acc = p;
                },
                None => {},
            }
        } else {
            acc = acc.join_name(part);
        }
        proof {
            let next = path@.parts.take(i + 1);
            match home {
                Ok(h) => {},
                Err(e) => {
                    assert forall|h: PathModel| acc@ == normalize_parts(start, next, h) by {
                        assert(before == normalize_parts(start, next.drop_last(), h));
                    }
                },
            }
            if home is Err {
                assert forall|j: int| 0 <= j < next.len() implies next[j] != seq!['~'] by {
                    if j < i {
                        assert(path@.parts.take(i as int)[j] == next[j]);
                    }
                }
            }
        }
        i = i + 1;
    }
    assert(path@.parts.take(path@.parts.len() as int) =~= path@.parts);
    Ok(acc)
}

/// What the library asks of a file system.
///
/// A reading operation returns what the model holds; asked whether something
/// or a directory lies at the path of a symbolic link, a file system may
/// answer for what the link points to. A changing operation that returns `Ok`
/// has changed the model as its contract says. When an
/// operation fails is left to the file system, and so is what a failed
/// operation has done, unless the file system is dependable: then each
/// operation says when it fails, and a failed one has changed nothing.
pub trait FileSystem {
    /// The state of the file system. An implementation that proves nothing of
    /// itself leaves its state open.
    open spec fn view(&self) -> FsModel {
        arbitrary()
    }

    /// Whether the file system fails only where its state rules out what it is
    /// asked, and changes nothing where it fails. A file system on a disk cannot
    /// say so of itself; one in memory can.
    open spec fn is_dependable(&self) -> bool {
        false
    }

    /// Whether anything lies at `path`. Where a symbolic link lies there, the
    /// answer may go by what the link points to, of which nothing is said here;
    /// a dependable file system does not follow the link.
    fn path_exists(&self, path: &FsPath) -> (b: bool)
        ensures
            b ==> self@.path_exists(path@),
            !self@.is_symlink(path@) ==> b == self@.path_exists(path@),
            self.is_dependable() ==> b == self@.path_exists(path@),
    ;

    /// Whether a symbolic link lies at `path`.
    fn is_symlink(&self, path: &FsPath) -> (b: bool)
        ensures
            b == self@.is_symlink(path@),
    ;

    /// Whether a directory lies at `path`. Where a symbolic link lies there, the
    /// answer may go by what the link points to, of which nothing is said here;
    /// a dependable file system does not follow the link.
    fn is_dir(&self, path: &FsPath) -> (b: bool)
        ensures
            b ==> self@.path_exists(path@),
            !self@.is_symlink(path@) ==> b == self@.is_dir(path@),
            self.is_dependable() ==> b == self@.is_dir(path@),
    ;

    /// Whether `path` holds an entry named `.git`, a file or a directory. Where
    /// that entry is a symbolic link, the answer may go by what the link points
    /// to; a dependable file system does not follow the link.
    fn is_git_repository(&self, path: &FsPath) -> (b: bool)
        ensures
            b ==> self@.is_git_repository(path@),
            !self@.is_symlink(path@.child(".git"@)) ==> b == self@.is_git_repository(path@),
            self.is_dependable() ==> b == self@.is_git_repository(path@),
    ;

    /// The user's home directory.
    fn home_dir(&self) -> (r: Result<FsPath, FileSystemError>)
        ensures
            r matches Ok(p) ==> p@ == self@.home_dir,
            self.is_dependable() ==> r is Ok,
    ;

    /// The directory that the caller stands in.
    fn current_dir(&self) -> (r: Result<FsPath, FileSystemError>)
        ensures
            r matches Ok(p) ==> p@ == self@.current_dir,
            self.is_dependable() ==> r is Ok,
    ;

    /// The entries directly inside `path`, each once, in no particular order. A file
    /// system that can list a directory holds finitely many entries. Where the file
    /// system is dependable, a directory can be listed and nothing else can.
    fn read_dir(&self, path: &FsPath) -> (r: Result<Vec<FsPath>, FileSystemError>)
        ensures
            r matches Ok(v) ==> (crate::path::path_views(v@).no_duplicates()
                && crate::path::path_views(v@).to_set() == self@.children(path@)
                && self@.entries.dom().finite()),
            self.is_dependable() ==> (r is Ok <==> self@.is_dir(path@)),
    ;

    /// Makes `path` and its missing ancestors directories.
    fn create_dir(&mut self, path: &FsPath) -> (r: Result<(), FileSystemError>)
        ensures
            r is Ok ==> final(self)@ == old(self)@.create_dir(path@),
            final(self).is_dependable() == old(self).is_dependable(),
            old(self).is_dependable() ==> r is Ok,
    ;

    /// Puts a symbolic link to `target` at `link`.
    fn create_symlink(&mut self, target: &FsPath, link: &FsPath) -> (r: Result<
        (),
        FileSystemError,
    >)
        ensures
            r is Ok ==> final(self)@ == old(self)@.create_symlink(target@, link@),
            final(self).is_dependable() == old(self).is_dependable(),
            old(self).is_dependable() ==> r is Ok,
    ;

    /// Copies `from` to `to`, a directory with all that lies below it. Where the file
    /// system is dependable, this fails exactly where nothing lies at `from`.
    fn copy(&mut self, from: &FsPath, to: &FsPath) -> (r: Result<(), FileSystemError>)
        ensures
            r is Ok ==> final(self)@ == old(self)@.copy(from@, to@),
            final(self).is_dependable() == old(self).is_dependable(),
            old(self).is_dependable() ==> (r is Ok <==> old(self)@.path_exists(from@)),
            old(self).is_dependable() && r is Err ==> final(self)@ == old(self)@,
    ;

    /// Moves `from` to `to`, a directory with all that lies below it. Where the file
    /// system is dependable, this fails exactly where nothing lies at `from`.
    fn rename(&mut self, from: &FsPath, to: &FsPath) -> (r: Result<(), FileSystemError>)
        ensures
            r is Ok ==> final(self)@ == old(self)@.rename(from@, to@),
            final(self).is_dependable() == old(self).is_dependable(),
            old(self).is_dependable() ==> (r is Ok <==> old(self)@.path_exists(from@)),
            old(self).is_dependable() && r is Err ==> final(self)@ == old(self)@,
    ;

    /// Removes `path` and all that lies below it.
    fn remove(&mut self, path: &FsPath) -> (r: Result<(), FileSystemError>)
        ensures
            r is Ok ==> final(self)@ == old(self)@.remove(path@),
            final(self).is_dependable() == old(self).is_dependable(),
            old(self).is_dependable() ==> r is Ok,
    ;

    /// Resolves `path`: an absolute path from the root and a relative one from
    /// `base`, with `~` for the home directory and `..` for a step back. Where
    /// the file system is dependable, this fails exactly on the empty path,
    /// which `.` is too.
    fn normalize(&self, path: &FsPath, base: &FsPath) -> (r: Result<FsPath, FileSystemError>)
        ensures
            r matches Ok(p) ==> (path@ != PathModel::empty() && p@ == normalized(
                path@,
                base@,
                self@.home_dir,
            )),
            self.is_dependable() ==> (r is Ok <==> path@ != PathModel::empty()),
    ;
}

/// Whether anything lies at `path`, be it a symbolic link to nothing.
pub fn holds_entry<F: FileSystem>(fs: &F, path: &FsPath) -> (b: bool)
    ensures
        b == fs@.path_exists(path@),
{
    fs.is_symlink(path) || fs.path_exists(path)
}

/// Whether a directory lies at `path`; a symbolic link to a directory is none.
pub fn holds_dir<F: FileSystem>(fs: &F, path: &FsPath) -> (b: bool)
    ensures
        b == fs@.is_dir(path@),
{
    !fs.is_symlink(path) && fs.is_dir(path)
}

/// Whether `path` holds an entry named `.git`, of whatever kind.
pub fn holds_repository<F: FileSystem>(fs: &F, path: &FsPath) -> (b: bool)
    ensures
        b == fs@.is_git_repository(path@),
{
    proof {
        crate::path::lemma_dot_git();
    }
    let git = path.join_name(&String::from_str(".git"));
    fs.is_symlink(&git) || fs.is_git_repository(path)
}

} // verus!
