//! Where the managed repositories are kept.
//!
//! The root directory is looked for in several sources, one after the other.
//! Reading a source is left to the caller; what a source's answer means for
//! the search, and what the text of a source denotes, is decided here.

use crate::path::{parse_path, FsPath, PathModel};
use crate::ports::file_system::{normalize, normalized, FileSystemError};
use crate::text::concat;
use vstd::prelude::*;
use vstd::string::*;

verus! {

/// Why the configuration could not be read.
#[derive(Debug)]
pub enum ConfigError {
    Parse(String),
    Io(String),
    GitConfig(String),
    Env(String),
    Path(String),
    FileSystem(FileSystemError),
}

impl ConfigError {
    /// The text of `message`.
    pub open spec fn text(&self) -> Seq<char> {
        match self {
            ConfigError::Parse(m) => "Failed to parse config: "@ + m@,
            ConfigError::Io(m) => "Failed to read config: "@ + m@,
            ConfigError::GitConfig(m) => "Git config error: "@ + m@,
            ConfigError::Env(m) => "Environment variable error: "@ + m@,
            ConfigError::Path(m) => "Path error: "@ + m@,
            ConfigError::FileSystem(e) => "File system error: "@ + e.text(),
        }
    }

    /// The error as a line of text.
    pub fn message(&self) -> (r: String)
        ensures
            r@ == self.text(),
    {
        match self {
            ConfigError::Parse(m) => concat("Failed to parse config: ", m.as_str()),
            ConfigError::Io(m) => concat("Failed to read config: ", m.as_str()),
            ConfigError::GitConfig(m) => concat("Git config error: ", m.as_str()),
            ConfigError::Env(m) => concat("Environment variable error: ", m.as_str()),
            ConfigError::Path(m) => concat("Path error: ", m.as_str()),
            ConfigError::FileSystem(e) => concat("File system error: ", e.message().as_str()),
        }
    }
}

/// The configuration: the root directory under which every repository is kept.
#[derive(Debug)]
pub struct Config {
    pub root: FsPath,
}

impl Config {
    /// The root directory.
    pub fn root(&self) -> (r: &FsPath)
        ensures
            r == &self.root,
    {
        &self.root
    }

    /// What the answer of one source means for the search: a root ends it, an
    /// error ends it too, and a source that has nothing leaves it to the next.
    pub fn decide(outcome: Result<Option<FsPath>, ConfigError>) -> (r: Option<
        Result<Config, ConfigError>,
    >)
        ensures
            match outcome {
                Ok(Some(p)) => r matches Some(Ok(c)) && c.root == p,
                Ok(None) => r is None,
                Err(e) => r == Some(Err::<Config, ConfigError>(e)),
            },
    {
        match outcome {
            Ok(Some(root)) => Some(Ok(Config { root })),
            Ok(None) => None,
            Err(e) => Some(Err(e)),
        }
    }

    /// The root where no source names one: `grm` in the home directory.
    pub fn default_root(home: &FsPath) -> (r: FsPath)
        ensures
            r@ == home@.join(parse_path("grm"@)),
    {
        home.join_str("grm")
    }

    /// The root that the text of a source denotes. `~` is the home directory, and
    /// a relative path starts there. Without a home directory there is no root.
    pub fn root_from_text(text: &str, home: &Result<FsPath, FileSystemError>) -> (r: Result<
        FsPath,
        ConfigError,
    >)
        ensures
            match home {
                Ok(h) => if parse_path(text@) == PathModel::empty() {
                    r matches Err(ConfigError::FileSystem(FileSystemError::PathError(m))) && m@
                        == "Cannot normalize an empty path"@
                } else {
                    r matches Ok(p) && p@ == normalized(parse_path(text@), h@, h@)
                },
                Err(e) => r matches Err(ConfigError::FileSystem(f)) && f.text() == e.text(),
            },
    {
        match home {
            Ok(h) => {
                let path = FsPath::new(text);
                match normalize(&path, h, home) {
                    Ok(p) => Ok(p),
                    Err(e) => Err(ConfigError::FileSystem(e)),
                }
            },
            Err(e) => Err(ConfigError::FileSystem(e.clone())),
        }
    }
}

} // verus!
