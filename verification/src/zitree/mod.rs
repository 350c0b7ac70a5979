//! zitree: the earlier worktree plugin, its branch-name rules and its configuration.
pub mod config;
pub mod naming;
pub mod ui;
pub mod validation;
