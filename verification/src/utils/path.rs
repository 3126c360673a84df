//! Building the paths of worktrees and shared files, and reading a path from
//! the configuration.

use crate::configs::ConfigError;
use crate::path::{parse_path, FsPath, PathModel};
use crate::repo_info::{repo_path, shared_path, RepoInfo};
use crate::text::{chars_of, concat, strip_prefix, trim, trimmed};
use vstd::prelude::*;
use vstd::string::*;

verus! {

/// The path of the worktree of `info` for `branch`: `{root}/{host}/{user}/{repo}+{branch}`.
pub fn build_repo_path(root: &FsPath, info: &RepoInfo, branch: &str) -> (r: FsPath)
    ensures
        r@ == repo_path(root@, info@, branch@),
{
    info.build_repo_path(root, branch)
}

/// The place in shared storage of `relative_path` in the worktrees of `info`:
/// `{root}/.shared/{host}/{user}/{repo}/{relative_path}`.
pub fn build_shared_path(root: &FsPath, info: &RepoInfo, relative_path: &FsPath) -> (r: FsPath)
    ensures
        r@ == shared_path(root@, info@, relative_path@),
{
    info.build_shared_path(root, relative_path)
}

/// The complaint about a path that starts with `~` but not with `~/`.
pub open spec fn unsupported_home_text(path: Seq<char>) -> Seq<char> {
    "Path '"@ + path
        + "' is not supported. Use absolute path or ~/path format. User-specific paths (~user/) are not yet supported."@
}

/// What a path written in the configuration denotes, for a user whose home
/// directory is `home`: `~` and `~/...` start at the home directory, and so
/// does a relative path; an absolute path stands for itself.
pub open spec fn configured_path(text: Seq<char>, home: Option<PathModel>) -> Result<
    PathModel,
    Seq<char>,
> {
    let t = trim(text);
    if t.len() == 0 {
        Err("Empty path"@)
    } else if t[0] == '~' {
        match home {
            None => Err("Home directory not found"@),
            Some(h) => if t.len() == 1 {
                Ok(h)
            } else if t[1] == '/' {
                Ok(h.join(parse_path(t.skip(2))))
            } else {
                Err(unsupported_home_text(t))
            },
        }
    } else if t[0] == '/' {
        Ok(parse_path(t))
    } else {
        match home {
            None => Err("Home directory not found"@),
            Some(h) => Ok(h.join(parse_path(t))),
        }
    }
}

/// Whether `r` gives `outcome` back: the path, or the complaint as a path error.
pub open spec fn reads_as(r: Result<FsPath, ConfigError>, outcome: Result<PathModel, Seq<char>>) -> bool {
    match outcome {
        Ok(p) => r matches Ok(q) && q@ == p,
        Err(t) => r matches Err(ConfigError::Path(m)) && m@ == t,
    }
}

/// The user's home directory as `dirs::home_dir` gives it, as text.
///
/// Trusted, and nothing is claimed of the result: it depends on the user and
/// on the environment of the process.
#[verifier::external_body]
fn user_home() -> (r: Option<String>) {
    match dirs::home_dir() {
        Some(p) => Some(p.to_string_lossy().into_owned()),
        None => None,
    }
}

/// The path `path` as `std::path::absolute` completes it, as text.
///
/// Trusted, and nothing is claimed of the result: a relative path is completed
/// from the directory in which the process runs.
#[verifier::external_body]
fn completed(path: &str) -> (r: Option<String>) {
    match std::path::absolute(path) {
        Ok(p) => Some(p.to_string_lossy().into_owned()),
        Err(_) => None,
    }
}

/// The user's home directory, where the system names one and it can be made
/// an absolute path: what `home_from` reads from the text that the system gave.
pub fn home_dir() -> (r: Option<FsPath>)
    ensures
        r matches Some(p) ==> p@.absolute,
        exists|whole: Option<Seq<char>>| #[trigger] names_home(whole, r),
{
    match user_home() {
        Some(named) => {
            let whole = completed(named.as_str());
            let ghost text = match &whole {
                Some(t) => Some(t@),
                None => None,
            };
            let r = home_from(whole);
            assert(names_home(text, r));
            r
        },
        None => {
            let r = home_from(None);
            assert(names_home(None, r));
            r
        },
    }
}

/// The home directory that the text `whole` names: the path written there,
/// where there is a text and the path is absolute.
pub open spec fn named_home(whole: Option<Seq<char>>) -> Option<PathModel> {
    match whole {
        Some(t) => if parse_path(t).absolute {
            Some(parse_path(t))
        } else {
            None
        },
        None => None,
    }
}

/// Whether `r` is the home directory that `whole` names.
pub open spec fn names_home(whole: Option<Seq<char>>, r: Option<FsPath>) -> bool {
    match named_home(whole) {
        Some(p) => r matches Some(q) && q@ == p,
        None => r is None,
    }
}

/// Reads the home directory from the text that the system gave for it, if it
/// gave one: the path written there, and none where that path is relative.
pub fn home_from(whole: Option<String>) -> (r: Option<FsPath>)
    ensures
        names_home(
            match whole {
                Some(t) => Some(t@),
                None => None,
            },
            r,
        ),
{
    match whole {
        Some(t) => {
            let p = FsPath::new(t.as_str());
            if p.is_absolute() {
                Some(p)
            } else {
                None
            }
        },
        None => None,
    }
}

/// The user's home directory, or the complaint that there is none.
pub fn require_home_dir() -> (r: Result<FsPath, ConfigError>)
    ensures
        r matches Ok(p) ==> p@.absolute,
        r matches Err(e) ==> e matches ConfigError::Path(m) && m@ == "Home directory not found"@,
{
    match home_dir() {
        Some(p) => Ok(p),
        None => Err(ConfigError::Path(String::from_str("Home directory not found"))),
    }
}

/// Reads a path that was written in the configuration, for the user who runs
/// the process.
///
/// The result is that of `normalize_path_from` for the home directory that the
/// system names, an absolute path, or for none. So an empty text is refused and
/// an absolute path is read as it stands, whoever the user is.
pub fn normalize_path(path_str: &str) -> (r: Result<FsPath, ConfigError>)
    ensures
        exists|home: Option<PathModel>|
            (home matches Some(h) ==> h.absolute) && #[trigger] reads_as(
                r,
                configured_path(path_str@, home),
            ),
{
    match home_dir() {
        Some(h) => {
            let r = normalize_path_from(path_str, Some(&h));
            assert(reads_as(r, configured_path(path_str@, Some(h@))));
            r
        },
        None => {
            let r = normalize_path_from(path_str, None);
            assert(reads_as(r, configured_path(path_str@, None)));
            r
        },
    }
}

/// Reads a path that was written in the configuration, for a user whose home
/// directory is `home`.
///
/// The text is trimmed first. An empty text, a `~` that is not followed by `/`,
/// and a path that needs the home directory where there is none are refused.
pub fn normalize_path_from(path_str: &str, home: Option<&FsPath>) -> (r: Result<
    FsPath,
    ConfigError,
>)
    ensures
        reads_as(
            r,
            configured_path(
                path_str@,
                match home {
                    Some(h) => Some(h@),
                    None => None,
                },
            ),
        ),
{
    let text = trimmed(path_str);
    let cs = chars_of(text.as_str());
    if cs.len() == 0 {
        return Err(ConfigError::Path(String::from_str("Empty path")));
    }
    proof {
        reveal_strlit("~/");
        assert("~/"@ =~= seq!['~', '/']);
    }
    if cs[0] == '~' {
        let h = match home {
            Some(h) => h,
            None => {
                return Err(ConfigError::Path(String::from_str("Home directory not found")));
            },
        };
        if cs.len() == 1 {
            return Ok(h.clone());
        }
        match strip_prefix(text.as_str(), "~/") {
            Some(sub) => {
                assert(text@.subrange(0, 2) =~= seq![text@[0], text@[1]]);
                Ok(h.join_str(sub.as_str()))
            },
            None => {
                assert(text@[1] != '/') by {
                    if text@[1] == '/' {
                        assert(text@.subrange(0, 2) =~= seq!['~', '/']);
                    }
                }
                let mut msg = concat("Path '", text.as_str());
                msg.append(
                    "' is not supported. Use absolute path or ~/path format. User-specific paths (~user/) are not yet supported.",
                );
                Err(ConfigError::Path(msg))
            },
        }
    } else if cs[0] == '/' {
        Ok(FsPath::new(text.as_str()))
    } else {
        match home {
            Some(h) => Ok(h.join_str(text.as_str())),
            None => Err(ConfigError::Path(String::from_str("Home directory not found"))),
        }
    }
}

} // verus!
