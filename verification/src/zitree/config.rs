//! zitree configuration: the worktree directory name, from the Zellij KDL map.
use std::collections::BTreeMap;

use vstd::prelude::*;

use crate::string_map::lookup;
use crate::text::{chars_of, string_of, trim, trim_exec};

verus! {

/// The zitree plugin configuration.
#[derive(Clone)]
pub struct Config {
    pub worktree_dir_name: String,
}

/// The directory name that the KDL map `m` sets: its trimmed `worktree_dir_name`, unless that
/// is missing or blank, in which case `.worktrees`.
pub open spec fn kdl_dir_name(m: Map<Seq<char>, Seq<char>>) -> Seq<char> {
    let key = "worktree_dir_name"@;
    if m.contains_key(key) && trim(m[key]).len() > 0 {
        trim(m[key])
    } else {
        ".worktrees"@
    }
}

impl Config {
    /// The default configuration: worktrees under `.worktrees`.
    pub fn default() -> (res: Config)
        ensures
            res.worktree_dir_name@ == ".worktrees"@,
    {
        Config { worktree_dir_name: String::from_str(".worktrees") }
    }

    /// Reads the plugin configuration given in the Zellij KDL layout.
    pub fn from(configuration: BTreeMap<String, String>) -> (res: Config)
        ensures
            res.worktree_dir_name@ == kdl_dir_name(configuration.deep_view()),
    {
        let mut config = Config::default();
        if let Some(worktree_dir_name) = lookup(&configuration, "worktree_dir_name") {
            let trimmed = trim_exec(&chars_of(worktree_dir_name.as_str()));
            if trimmed.len() > 0 {
                config.worktree_dir_name = string_of(&trimmed);
            }
        }
        config
    }
}

} // verus!
