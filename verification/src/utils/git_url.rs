//! Reading a git URL.

use crate::repo_info::{url_outcome, RepoInfo, RepositoryError};
use vstd::prelude::*;
use vstd::string::*;

verus! {

/// Why a URL names no repository.
#[derive(Debug)]
pub enum UrlError {
    Invalid(String),
}

/// Reads host, user and repository name from a git URL:
/// `https://host/user/repo`, `ssh://git@host/user/repo` or `git@host:user/repo`,
/// each with or without `.git` at the end.
pub fn parse_git_url(url: &str) -> (r: Result<RepoInfo, UrlError>)
    ensures
        match url_outcome(url@) {
            Ok(m) => r matches Ok(info) && info@ == m,
            Err(t) => r matches Err(UrlError::Invalid(msg)) && msg@ == t,
        },
        r matches Ok(info) ==> info@.plain() && info.branch is None,
{
    match RepoInfo::from_url(url) {
        Ok(info) => Ok(info),
        Err(RepositoryError::Invalid(msg)) => Err(UrlError::Invalid(msg)),
    }
}

} // verus!
