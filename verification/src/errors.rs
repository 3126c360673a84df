//! The errors of the library's operations.

use crate::configs::ConfigError;
use crate::ports::file_system::FileSystemError;
use crate::ports::git_repository::GitError;
use crate::ports::user_interaction::InteractionError;
use crate::repo_info::RepositoryError;
use crate::repo_scanner::ScanError;
use crate::text::concat;
use vstd::prelude::*;
use vstd::string::*;

verus! {

/// Why an operation failed.
#[derive(Debug)]
pub enum GrmError {
    Config(ConfigError),
    Git(GitError),
    ParseFailed(RepositoryError),
    FileSystem(FileSystemError),
    Interaction(InteractionError),
    Scan(ScanError),
    Io(String),
    AlreadyExists(String),
    UnmanagedRepository { url: String, searched_path: String },
    UserCancelled,
    NotInManagedRepository,
    NotFound(String),
}

impl GrmError {
    /// The text of `message`.
    pub open spec fn text(&self) -> Seq<char> {
        match self {
            GrmError::Config(e) => "Config error: "@ + e.text(),
            GrmError::Git(e) => "Git error: "@ + e.text(),
            GrmError::ParseFailed(e) => "URL / Path error: "@ + e.text(),
            GrmError::FileSystem(e) => "File system error: "@ + e.text(),
            GrmError::Interaction(e) => "Interaction error: "@ + e.text(),
            GrmError::Scan(e) => "Scan error: "@ + e.text(),
            GrmError::Io(m) => "IO error: "@ + m@,
            GrmError::AlreadyExists(m) => "Path already exists: "@ + m@,
            GrmError::UnmanagedRepository { url, searched_path } => "No repositories found for URL: "@
                + url@ + "\nSearched in: "@ + searched_path@,
            GrmError::UserCancelled => "Operation cancelled by user"@,
            GrmError::NotInManagedRepository => "Not in a managed git repository"@,
            GrmError::NotFound(m) => "Resource not found: "@ + m@,
        }
    }

    /// The error as a line of text.
    pub fn message(&self) -> (r: String)
        ensures
            r@ == self.text(),
    {
        match self {
            GrmError::Config(e) => concat("Config error: ", e.message().as_str()),
            GrmError::Git(e) => concat("Git error: ", e.message().as_str()),
            GrmError::ParseFailed(e) => concat("URL / Path error: ", e.message().as_str()),
            GrmError::FileSystem(e) => concat("File system error: ", e.message().as_str()),
            GrmError::Interaction(e) => concat("Interaction error: ", e.message().as_str()),
            GrmError::Scan(e) => concat("Scan error: ", e.message().as_str()),
            GrmError::Io(m) => concat("IO error: ", m.as_str()),
            GrmError::AlreadyExists(m) => concat("Path already exists: ", m.as_str()),
            GrmError::UnmanagedRepository { url, searched_path } => {
                let mut r = concat("No repositories found for URL: ", url.as_str());
                r.append("\nSearched in: ");
                r.append(searched_path.as_str());
                r
            },
            GrmError::UserCancelled => String::from_str("Operation cancelled by user"),
            GrmError::NotInManagedRepository => String::from_str(
                "Not in a managed git repository",
            ),
            GrmError::NotFound(m) => concat("Resource not found: ", m.as_str()),
        }
    }

    /// Whether the error says that a URL or a path names no repository, in the words `text`.
    pub open spec fn is_parse_failure(self, text: Seq<char>) -> bool {
        self matches GrmError::ParseFailed(RepositoryError::Invalid(m)) && m@ == text
    }

    /// Whether the error says that something was not found, in the words `text`.
    pub open spec fn is_not_found(self, text: Seq<char>) -> bool {
        self matches GrmError::NotFound(m) && m@ == text
    }

    /// Whether the error says that the path `text` is taken.
    pub open spec fn is_already_exists(self, text: Seq<char>) -> bool {
        self matches GrmError::AlreadyExists(m) && m@ == text
    }
}

/// Whether `r` is the failure to read a repository from a URL or a path, in the words `text`.
pub open spec fn parse_failed<T>(r: Result<T, GrmError>, text: Seq<char>) -> bool {
    match r {
        Ok(_) => false,
        Err(e) => e.is_parse_failure(text),
    }
}

} // verus!
