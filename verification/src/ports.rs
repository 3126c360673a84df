//! What the library needs from the world around it: a file system, git, and a user.

pub mod file_system;
pub mod git_repository;
pub mod user_interaction;
