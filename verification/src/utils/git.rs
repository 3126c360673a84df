//! Talking to the git program: what to ask it, and what its answers mean.
//!
//! Nothing here runs git. The functions build the arguments of a call and
//! read what a call has printed.

use crate::path::{parse_path, FsPath, PathModel};
use crate::ports::git_repository::GitError;
use crate::text::{
    concat, contains_text, join, join_with, lemma_views_push, lines, lines_of, occurs_in,
    starts_with, strip_prefix, trim, trimmed, views, words, words_of,
};
use vstd::prelude::*;
use vstd::string::*;

verus! {

/// What one line of `git ls-remote --symref` says of the default branch: the
/// branch where the line begins with `ref:`, mentions `HEAD`, and has
/// `refs/heads/` and the branch as its second word.
pub open spec fn default_branch_on(line: Seq<char>) -> Option<Seq<char>> {
    let parts = words(line);
    if "ref:"@.is_prefix_of(line) && occurs_in("HEAD"@, line) && parts.len() >= 2
        && "refs/heads/"@.is_prefix_of(parts[1]) {
        Some(parts[1].skip("refs/heads/"@.len() as int))
    } else {
        None
    }
}

/// The default branch that the first of `ls` to name one names.
pub open spec fn default_branch_in(ls: Seq<Seq<char>>) -> Option<Seq<char>>
    decreases ls.len(),
{
    if ls.len() == 0 {
        None
    } else {
        match default_branch_on(ls[0]) {
            Some(b) => Some(b),
            None => default_branch_in(ls.drop_first()),
        }
    }
}

/// Reads the default branch of a remote from what `git ls-remote --symref <url> HEAD` printed.
pub fn get_default_branch(output: &str) -> (r: Result<String, GitError>)
    ensures
        match default_branch_in(lines(output@)) {
            Some(b) => r matches Ok(s) && s@ == b,
            None => r matches Err(GitError::Parse(m)) && m@
                == "Could not determine default branch from git ls-remote output"@,
        },
{
    let ls = lines_of(output);
    let mut i: usize = 0;
    assert(views(ls@).skip(0) =~= views(ls@));
    while i < ls.len()
        invariant
            i <= ls.len(),
            views(ls@) == lines(output@),
            default_branch_in(lines(output@)) == default_branch_in(views(ls@).skip(i as int)),
        decreases ls.len() - i,
    {
        let line = ls[i].as_str();
        proof {
            assert(views(ls@).skip(i as int)[0] == line@);
            assert(views(ls@).skip(i as int).drop_first() =~= views(ls@).skip(i + 1));
        }
        if starts_with(line, "ref:") && contains_text(line, "HEAD") {
            let parts = words_of(line);
            if parts.len() >= 2 {
                assert(views(parts@)[1] == parts@[1]@);
                match strip_prefix(parts[1].as_str(), "refs/heads/") {
                    Some(branch) => {
                        return Ok(branch);
                    },
                    None => {},
                }
            }
        }
        i = i + 1;
    }
    Err(
        GitError::Parse(
            String::from_str("Could not determine default branch from git ls-remote output"),
        ),
    )
}

/// Reads the top directory of the worktree from what `git rev-parse --show-toplevel` printed.
pub fn get_repo_root(output: &str) -> (r: Result<FsPath, GitError>)
    ensures
        if trim(output@).len() == 0 {
            r matches Err(GitError::Parse(m)) && m@ == "Could not determine repository root"@
        } else {
            r matches Ok(p) && p@ == parse_path(trim(output@))
        },
{
    let root = trimmed(output);
    if root.as_str().unicode_len() == 0 {
        return Err(GitError::Parse(String::from_str("Could not determine repository root")));
    }
    Ok(FsPath::new(root.as_str()))
}

/// Reads the URL of the remote from what `git config --get remote.origin.url` printed.
pub fn get_remote_url(output: &str) -> (r: Result<String, GitError>)
    ensures
        if trim(output@).len() == 0 {
            r matches Err(GitError::Parse(m)) && m@ == "No remote URL found"@
        } else {
            r matches Ok(u) && u@ == trim(output@)
        },
{
    let url = trimmed(output);
    if url.as_str().unicode_len() == 0 {
        return Err(GitError::Parse(String::from_str("No remote URL found")));
    }
    Ok(url)
}

/// Whether a local branch exists, from how `git rev-parse --verify` ended: it
/// exists where the call went well, and does not where git said so by failing.
pub fn local_branch_exists(outcome: Result<String, GitError>) -> (r: Result<bool, GitError>)
    ensures
        match outcome {
            Ok(_) => r == Ok::<bool, GitError>(true),
            Err(GitError::Failed { .. }) => r == Ok::<bool, GitError>(false),
            Err(e) => r == Err::<bool, GitError>(e),
        },
{
    match outcome {
        Ok(_) => Ok(true),
        Err(GitError::Failed { status, stderr }) => Ok(false),
        Err(e) => Err(e),
    }
}

/// The full name of a branch.
pub open spec fn ref_name(branch: Seq<char>) -> Seq<char> {
    "refs/heads/"@ + branch
}

/// Whether some member of `ls` mentions `needle`.
pub open spec fn mentioned_in(ls: Seq<Seq<char>>, needle: Seq<char>) -> bool {
    exists|i: int| 0 <= i < ls.len() && occurs_in(needle, #[trigger] ls[i])
}

/// Whether a remote has the branch, from what `git ls-remote --heads <url> <ref>`
/// printed: it has where a line mentions the branch's full name.
pub fn remote_branch_exists(output: &str, branch: &str) -> (r: bool)
    ensures
        r == mentioned_in(lines(output@), ref_name(branch@)),
{
    let name = concat("refs/heads/", branch);
    let ls = lines_of(output);
    let mut i: usize = 0;
    while i < ls.len()
        invariant
            i <= ls.len(),
            views(ls@) == lines(output@),
            name@ == ref_name(branch@),
            forall|j: int| 0 <= j < i ==> !occurs_in(name@, #[trigger] views(ls@)[j]),
        decreases ls.len() - i,
    {
        assert(views(ls@)[i as int] == ls@[i as int]@);
        if contains_text(ls[i].as_str(), name.as_str()) {
            return true;
        }
        i = i + 1;
    }
    false
}

/// The worktree that one line of `git worktree list --porcelain` names, if it names one.
pub open spec fn worktree_on(line: Seq<char>) -> Option<PathModel> {
    if "worktree "@.is_prefix_of(line) {
        Some(parse_path(line.skip("worktree "@.len() as int)))
    } else {
        None
    }
}

/// The worktrees that `ls` name, in their order.
pub open spec fn worktrees_in(ls: Seq<Seq<char>>) -> Seq<PathModel>
    decreases ls.len(),
{
    if ls.len() == 0 {
        Seq::empty()
    } else {
        match worktree_on(ls.last()) {
            Some(p) => worktrees_in(ls.drop_last()).push(p),
            None => worktrees_in(ls.drop_last()),
        }
    }
}

/// Reads the worktrees of a repository from what `git worktree list --porcelain` printed.
pub fn list_worktrees(output: &str) -> (r: Vec<FsPath>)
    ensures
        crate::path::path_views(r@) == worktrees_in(lines(output@)),
{
    let ls = lines_of(output);
    let mut r: Vec<FsPath> = Vec::new();
    let mut i: usize = 0;
    assert(views(ls@).take(0) =~= Seq::empty());
    assert(crate::path::path_views(r@) =~= Seq::empty());
    while i < ls.len()
        invariant
            i <= ls.len(),
            views(ls@) == lines(output@),
            crate::path::path_views(r@) == worktrees_in(views(ls@).take(i as int)),
        decreases ls.len() - i,
    {
        proof {
            let next = views(ls@).take(i + 1);
            assert(next.drop_last() =~= views(ls@).take(i as int));
            assert(next.last() == ls@[i as int]@);
        }
        match strip_prefix(ls[i].as_str(), "worktree ") {
            Some(path) => {
                let p = FsPath::new(path.as_str());
                proof {
                    crate::path::lemma_path_views_push(r@, p);
                }
                r.push(p);
            },
            None => {},
        }
        i = i + 1;
    }
    assert(views(ls@).take(ls.len() as int) =~= views(ls@));
    r
}

/// A list of texts.
fn texts(items: &[&str]) -> (r: Vec<String>)
    ensures
        r.len() == items.len(),
        forall|i: int| 0 <= i < items.len() ==> #[trigger] views(r@)[i] == items@[i]@,
{
    let mut r: Vec<String> = Vec::new();
    let mut i: usize = 0;
    while i < items.len()
        invariant
            i <= items.len(),
            r.len() == i,
            forall|j: int| 0 <= j < i ==> #[trigger] views(r@)[j] == items@[j]@,
        decreases items.len() - i,
    {
        let s = String::from_str(items[i]);
        proof {
            lemma_views_push(r@, s);
        }
        r.push(s);
        i = i + 1;
    }
    r
}

/// The arguments that ask git for the default branch of the remote at `url`.
pub fn default_branch_args(url: &str) -> (r: Vec<String>)
    ensures
        views(r@) == seq!["ls-remote"@, "--symref"@, url@, "HEAD"@],
{
    let r = texts(&["ls-remote", "--symref", url, "HEAD"]);
    assert(views(r@) =~= seq!["ls-remote"@, "--symref"@, url@, "HEAD"@]);
    r
}

/// The arguments that ask git for the top directory of the worktree.
pub fn repo_root_args() -> (r: Vec<String>)
    ensures
        views(r@) == seq!["rev-parse"@, "--show-toplevel"@],
{
    let r = texts(&["rev-parse", "--show-toplevel"]);
    assert(views(r@) =~= seq!["rev-parse"@, "--show-toplevel"@]);
    r
}

/// The arguments that ask git for the URL of the remote of the repository at `repo_path`.
pub fn remote_url_args(repo_path: &FsPath) -> (r: Vec<String>)
    ensures
        views(r@) == seq![
            "-C"@,
            repo_path@.render(),
            "config"@,
            "--get"@,
            "remote.origin.url"@,
        ],
{
    let path = repo_path.display();
    let r = texts(&["-C", path.as_str(), "config", "--get", "remote.origin.url"]);
    assert(views(r@) =~= seq![
        "-C"@,
        repo_path@.render(),
        "config"@,
        "--get"@,
        "remote.origin.url"@,
    ]);
    r
}

/// The arguments that ask git whether a local branch exists.
pub fn local_branch_args(branch: &str) -> (r: Vec<String>)
    ensures
        views(r@) == seq!["rev-parse"@, "--verify"@, ref_name(branch@)],
{
    let name = concat("refs/heads/", branch);
    let r = texts(&["rev-parse", "--verify", name.as_str()]);
    assert(views(r@) =~= seq!["rev-parse"@, "--verify"@, ref_name(branch@)]);
    r
}

/// The arguments that ask git whether the remote at `remote_url` has a branch.
pub fn remote_branch_args(remote_url: &str, branch: &str) -> (r: Vec<String>)
    ensures
        views(r@) == seq!["ls-remote"@, "--heads"@, remote_url@, ref_name(branch@)],
{
    let name = concat("refs/heads/", branch);
    let r = texts(&["ls-remote", "--heads", remote_url, name.as_str()]);
    assert(views(r@) =~= seq!["ls-remote"@, "--heads"@, remote_url@, ref_name(branch@)]);
    r
}

/// The arguments that make git clone `url` into `dest`, checking out `branch`
/// where one is given.
pub fn clone_repo(url: &str, dest: &FsPath, branch: Option<&str>) -> (r: Vec<String>)
    ensures
        views(r@) == match branch {
            Some(b) => seq!["clone"@, url@, dest@.render(), "--branch"@, b@],
            None => seq!["clone"@, url@, dest@.render()],
        },
{
    let path = dest.display();
    match branch {
        Some(b) => {
            let r = texts(&["clone", url, path.as_str(), "--branch", b]);
            assert(views(r@) =~= seq!["clone"@, url@, dest@.render(), "--branch"@, b@]);
            r
        },
        None => {
            let r = texts(&["clone", url, path.as_str()]);
            assert(views(r@) =~= seq!["clone"@, url@, dest@.render()]);
            r
        },
    }
}

/// The arguments that make git add a worktree for `branch` at `path`, making the
/// branch where `new_branch` holds.
pub fn add_worktree(path: &FsPath, branch: &str, new_branch: bool) -> (r: Vec<String>)
    ensures
        views(r@) == if new_branch {
            seq!["worktree"@, "add"@, "-b"@, branch@, path@.render()]
        } else {
            seq!["worktree"@, "add"@, path@.render(), branch@]
        },
{
    let p = path.display();
    if new_branch {
        let r = texts(&["worktree", "add", "-b", branch, p.as_str()]);
        assert(views(r@) =~= seq!["worktree"@, "add"@, "-b"@, branch@, path@.render()]);
        r
    } else {
        let r = texts(&["worktree", "add", p.as_str(), branch]);
        assert(views(r@) =~= seq!["worktree"@, "add"@, path@.render(), branch@]);
        r
    }
}

/// The arguments that make git remove the worktree at `path`.
pub fn remove_worktree_args(path: &FsPath) -> (r: Vec<String>)
    ensures
        views(r@) == seq!["worktree"@, "remove"@, path@.render()],
{
    let p = path.display();
    let r = texts(&["worktree", "remove", p.as_str()]);
    assert(views(r@) =~= seq!["worktree"@, "remove"@, path@.render()]);
    r
}

/// The arguments that ask git for the worktrees of the repository.
pub fn list_worktrees_args() -> (r: Vec<String>)
    ensures
        views(r@) == seq!["worktree"@, "list"@, "--porcelain"@],
{
    let r = texts(&["worktree", "list", "--porcelain"]);
    assert(views(r@) =~= seq!["worktree"@, "list"@, "--porcelain"@]);
    r
}

/// The exit status that stands for a call that ended without one.
pub open spec fn status_of(code: Option<i32>) -> i32 {
    match code {
        Some(c) => c,
        None => -1i32,
    }
}

/// What a call of git that printed `stdout` and `stderr` comes to: what it
/// printed, trimmed, where it went well, and the failure with its status else.
pub fn command_result(success: bool, code: Option<i32>, stdout: &str, stderr: &str) -> (r: Result<
    String,
    GitError,
>)
    ensures
        if success {
            r matches Ok(s) && s@ == trim(stdout@)
        } else {
            r matches Err(GitError::Failed { status, stderr: e }) && status == status_of(code)
                && e@ == trim(stderr@)
        },
{
    if success {
        Ok(trimmed(stdout))
    } else {
        let status = match code {
            Some(c) => c,
            None => -1,
        };
        Err(GitError::Failed { status, stderr: trimmed(stderr) })
    }
}

/// What a call of git that wrote to the terminal comes to: nothing where it went
/// well, and the failure with its status else.
pub fn status_result(success: bool, code: Option<i32>, args: &Vec<String>) -> (r: Result<
    (),
    GitError,
>)
    ensures
        if success {
            r is Ok
        } else {
            r matches Err(GitError::Failed { status, stderr: e }) && status == status_of(code)
                && e@ == "git "@ + join(views(args@), " "@) + " failed"@
        },
{
    if success {
        Ok(())
    } else {
        let status = match code {
            Some(c) => c,
            None => -1,
        };
        let mut text = concat("git ", join_with(args, " ").as_str());
        text.append(" failed");
        Err(GitError::Failed { status, stderr: text })
    }
}

/// The error for a call of git that could not be started, for the reason `error`.
pub fn execution_failure(args: &Vec<String>, error: &str) -> (r: GitError)
    ensures
        r matches GitError::Execution(m) && m@ == "Failed to execute git "@ + join(
            views(args@),
            " "@,
        ) + ": "@ + error@,
{
    let mut text = concat("Failed to execute git ", join_with(args, " ").as_str());
    text.append(": ");
    text.append(error);
    GitError::Execution(text)
}

} // verus!
