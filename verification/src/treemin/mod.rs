//! treemin: git worktrees and the Zellij sessions that live in them.
pub mod commands;
pub mod config;
pub mod naming;
pub mod sessions;
pub mod state;
pub mod ui;
