//! Verified core of the zitree Zellij plugin workspace.
pub mod host_storage;
pub mod paths;
pub mod registry;
pub mod seshmin;
pub mod string_map;
pub mod text;
pub mod treemin;
pub mod ui;
pub mod zessionz;
pub mod zitree;
