//! Conventional commit messages for a team workflow: the team and issue come
//! from the branch name, and a commit is written only when something is staged
//! and the head is a branch.
use vstd::prelude::*;

pub mod branch;
pub mod commit;
pub mod config;
pub mod engine;
pub mod error;

pub use engine::check_staged_changes;
