//! The commands on the worktrees of one repository.

pub mod isolate_files;
pub mod remove_worktree;
pub mod share_files;
pub mod split_worktree;
pub mod unshare_files;
