//! A manager for a farm of git checkouts kept under one root directory.
//!
//! Every worktree lives at `{root}/{host}/{user}/{repo}+{branch}`. Files that
//! the worktrees of one repository share live once, under
//! `{root}/.shared/{host}/{user}/{repo}/`, and appear in each worktree as a
//! symbolic link.
//!
//! The library is written against three ports: a file system, git, and the
//! user. Everything it does is stated over models of these and proved:
//!
//! - `path`, `path_order` and `text` hold paths and texts;
//! - `repo_info` encodes a repository's identity in URLs and paths;
//! - `walk` and `repo_scanner` find repositories and worktrees;
//! - `shared_resource` shares, unshares, isolates and mounts files, and
//!   `sharing_laws` says what holds of these operations taken together;
//! - `usecases` holds the commands, `configs` and `utils` what they lean on;
//! - `memory_fs`, `scripted_git` and `scripted_user` stand in for the world
//!   where the library is tried out.

pub mod configs;
pub mod errors;
pub mod memory_fs;
pub mod path;
pub mod path_order;
pub mod ports;
pub mod repo_info;
pub mod repo_scanner;
pub mod scripted_git;
pub mod scripted_user;
pub mod shared_resource;
pub mod sharing_laws;
pub mod terminal;
pub mod text;
pub mod usecases;
pub mod utils;
pub mod walk;
