//! Helpers that the commands are built from: reading URLs, building paths,
//! and making sense of what the user typed.

pub mod git;
pub mod git_url;
pub mod path;
pub mod prompt;
