//! The commands: each takes what it needs of git, the file system and the
//! user, and does one thing for the caller.

pub mod clone_repository;
pub mod list_repositories;
pub mod remove_repository;
pub mod show_root;
pub mod world;
pub mod worktree;
