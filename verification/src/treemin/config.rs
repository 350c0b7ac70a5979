//! treemin configuration: defaults, the Zellij KDL map, the repository `.treemin.toml`
//! file, and the precedence rule between them.
use std::collections::BTreeMap;

use vstd::prelude::*;

use crate::string_map::lookup;
use crate::text::{chars_eq, chars_of, string_of, trim, trim_exec};

verus! {

/// How the directory of a new worktree is named.
#[derive(Clone, Copy, Debug, PartialEq, Eq, Structural)]
pub enum WorktreeNamingPattern {
    Branch,
    Hash,
    BranchHash,
}

/// The treemin plugin configuration.
#[derive(Clone, Debug, PartialEq, Eq)]
pub struct Config {
    pub worktree_dir_name: String,
    pub session_prefix: Option<String>,
    pub base_branch: Option<String>,
    pub remote: String,
    pub auto_fetch: bool,
    pub worktree_naming_pattern: WorktreeNamingPattern,
}

/// The mathematical value of a [`Config`].
pub struct ConfigView {
    pub worktree_dir_name: Seq<char>,
    pub session_prefix: Option<Seq<char>>,
    pub base_branch: Option<Seq<char>>,
    pub remote: Seq<char>,
    pub auto_fetch: bool,
    pub worktree_naming_pattern: WorktreeNamingPattern,
}

pub open spec fn opt_view(o: Option<String>) -> Option<Seq<char>> {
    match o {
        Some(s) => Some(s@),
        None => None,
    }
}

impl View for Config {
    type V = ConfigView;

    open spec fn view(&self) -> ConfigView {
        ConfigView {
            worktree_dir_name: self.worktree_dir_name@,
            session_prefix: opt_view(self.session_prefix),
            base_branch: opt_view(self.base_branch),
            remote: self.remote@,
            auto_fetch: self.auto_fetch,
            worktree_naming_pattern: self.worktree_naming_pattern,
        }
    }
}

/// The settings of a repository `.treemin.toml` file; a key that the file leaves out is `None`.
#[derive(Debug, Default)]
pub struct RepoConfig {
    pub worktree_dir_name: Option<String>,
    pub session_prefix: Option<String>,
    pub base_branch: Option<String>,
    pub remote: Option<String>,
    pub auto_fetch: Option<bool>,
    pub worktree_naming_pattern: Option<WorktreeNamingPattern>,
}

pub open spec fn default_config() -> ConfigView {
    ConfigView {
        worktree_dir_name: ".worktrees"@,
        session_prefix: None,
        base_branch: None,
        remote: "origin"@,
        auto_fetch: false,
        worktree_naming_pattern: WorktreeNamingPattern::Branch,
    }
}

/// `Some(trimmed)` when the trimmed text is not empty.
pub open spec fn trim_to_option_spec(s: Seq<char>) -> Option<Seq<char>> {
    if trim(s).len() == 0 {
        None
    } else {
        Some(trim(s))
    }
}

/// The naming pattern spelled by a (trimmed) value, if any.
pub open spec fn pattern_from_text(s: Seq<char>) -> Option<WorktreeNamingPattern> {
    let t = trim(s);
    if t == seq!['b', 'r', 'a', 'n', 'c', 'h'] {
        Some(WorktreeNamingPattern::Branch)
    } else if t == seq!['h', 'a', 's', 'h'] {
        Some(WorktreeNamingPattern::Hash)
    } else if t == seq!['b', 'r', 'a', 'n', 'c', 'h', '-', 'h', 'a', 's', 'h'] {
        Some(WorktreeNamingPattern::BranchHash)
    } else {
        None
    }
}

/// `s.trim().eq_ignore_ascii_case("true")`.
pub open spec fn is_true_text(s: Seq<char>) -> bool {
    let t = trim(s);
    t.len() == 4 && (t[0] == 't' || t[0] == 'T') && (t[1] == 'r' || t[1] == 'R') && (t[2] == 'u'
        || t[2] == 'U') && (t[3] == 'e' || t[3] == 'E')
}

/// The configuration that the Zellij KDL map `m` describes.
pub open spec fn kdl_config(m: Map<Seq<char>, Seq<char>>) -> ConfigView {
    let d = default_config();
    let dir_key = "worktree_dir_name"@;
    let prefix_key = "session_prefix"@;
    let base_key = "base_branch"@;
    let remote_key = "remote"@;
    let fetch_key = "auto_fetch"@;
    let pattern_key = "worktree_naming_pattern"@;
    ConfigView {
        worktree_dir_name: if m.contains_key(dir_key) && trim_to_option_spec(m[dir_key]) is Some {
            trim(m[dir_key])
        } else {
            d.worktree_dir_name
        },
        session_prefix: if m.contains_key(prefix_key) {
            trim_to_option_spec(m[prefix_key])
        } else {
            None
        },
        base_branch: if m.contains_key(base_key) {
            trim_to_option_spec(m[base_key])
        } else {
            None
        },
        remote: if m.contains_key(remote_key) && trim_to_option_spec(m[remote_key]) is Some {
            trim(m[remote_key])
        } else {
            d.remote
        },
        auto_fetch: m.contains_key(fetch_key) && is_true_text(m[fetch_key]),
        worktree_naming_pattern: if m.contains_key(pattern_key) && pattern_from_text(
            m[pattern_key],
        ) is Some {
            pattern_from_text(m[pattern_key])->0
        } else {
            d.worktree_naming_pattern
        },
    }
}

/// `apply_repo_config`: the keys present in the file override `base`, text values trimmed,
/// and a text value that trims to nothing leaves the directory name and the remote alone and
/// clears the prefix and the base branch.
pub open spec fn applied(base: ConfigView, r: RepoConfig) -> ConfigView {
    ConfigView {
        worktree_dir_name: match r.worktree_dir_name {
            Some(v) => if trim_to_option_spec(v@) is Some { trim(v@) } else { base.worktree_dir_name },
            None => base.worktree_dir_name,
        },
        session_prefix: match r.session_prefix {
            Some(v) => trim_to_option_spec(v@),
            None => base.session_prefix,
        },
        base_branch: match r.base_branch {
            Some(v) => trim_to_option_spec(v@),
            None => base.base_branch,
        },
        remote: match r.remote {
            Some(v) => if trim_to_option_spec(v@) is Some { trim(v@) } else { base.remote },
            None => base.remote,
        },
        auto_fetch: match r.auto_fetch {
            Some(b) => b,
            None => base.auto_fetch,
        },
        worktree_naming_pattern: match r.worktree_naming_pattern {
            Some(p) => p,
            None => base.worktree_naming_pattern,
        },
    }
}

pub fn clone_string(s: &String) -> (res: String)
    ensures
        res@ == s@,
{
    s.clone()
}

pub fn clone_opt_string(s: &Option<String>) -> (res: Option<String>)
    ensures
        opt_view(res) == opt_view(*s),
{
    match s {
        Some(v) => Some(v.clone()),
        None => None,
    }
}

/// `trim_to_option`: the trimmed text, or `None` when nothing is left.
pub fn trim_to_option(value: &str) -> (res: Option<String>)
    ensures
        opt_view(res) == trim_to_option_spec(value@),
{
    let v = chars_of(value);
    let t = trim_exec(&v);
    if t.len() == 0 {
        None
    } else {
        Some(string_of(&t))
    }
}

pub(crate) fn is_true_value(value: &str) -> (res: bool)
    ensures
        res == is_true_text(value@),
{
    let v = chars_of(value);
    let t = trim_exec(&v);
    if t.len() != 4 {
        return false;
    }
    (t[0] == 't' || t[0] == 'T') && (t[1] == 'r' || t[1] == 'R') && (t[2] == 'u' || t[2] == 'U')
        && (t[3] == 'e' || t[3] == 'E')
}

impl WorktreeNamingPattern {
    /// Parses `branch`, `hash` or `branch-hash`, ignoring surrounding whitespace.
    pub fn from_str(value: &str) -> (res: Option<WorktreeNamingPattern>)
        ensures
            res == pattern_from_text(value@),
    {
        let v = chars_of(value);
        let t = trim_exec(&v);
        let branch: [char; 6] = ['b', 'r', 'a', 'n', 'c', 'h'];
        let hash: [char; 4] = ['h', 'a', 's', 'h'];
        let branch_hash: [char; 11] = ['b', 'r', 'a', 'n', 'c', 'h', '-', 'h', 'a', 's', 'h'];
        if chars_eq(&t, &branch) {
            assert(branch@ == seq!['b', 'r', 'a', 'n', 'c', 'h']);
            Some(WorktreeNamingPattern::Branch)
        } else if chars_eq(&t, &hash) {
            assert(hash@ == seq!['h', 'a', 's', 'h']);
            assert(t@ != seq!['b', 'r', 'a', 'n', 'c', 'h']) by {
                assert(branch@ == seq!['b', 'r', 'a', 'n', 'c', 'h']);
            }
            Some(WorktreeNamingPattern::Hash)
        } else if chars_eq(&t, &branch_hash) {
            assert(branch_hash@ == seq!['b', 'r', 'a', 'n', 'c', 'h', '-', 'h', 'a', 's', 'h']);
            Some(WorktreeNamingPattern::BranchHash)
        } else {
            assert(branch@ == seq!['b', 'r', 'a', 'n', 'c', 'h']);
            assert(hash@ == seq!['h', 'a', 's', 'h']);
            assert(branch_hash@ == seq!['b', 'r', 'a', 'n', 'c', 'h', '-', 'h', 'a', 's', 'h']);
            None
        }
    }
}

impl Config {
    /// The default configuration: `.worktrees`, no prefix, no base branch, remote `origin`,
    /// no auto-fetch, branch naming.
    pub fn default() -> (res: Config)
        ensures
            res@ == default_config(),
    {
        Config {
            worktree_dir_name: String::from_str(".worktrees"),
            session_prefix: None,
            base_branch: None,
            remote: String::from_str("origin"),
            auto_fetch: false,
            worktree_naming_pattern: WorktreeNamingPattern::Branch,
        }
    }

    /// A field-by-field copy.
    pub fn duplicate(&self) -> (res: Config)
        ensures
            res@ == self@,
    {
        Config {
            worktree_dir_name: clone_string(&self.worktree_dir_name),
            session_prefix: clone_opt_string(&self.session_prefix),
            base_branch: clone_opt_string(&self.base_branch),
            remote: clone_string(&self.remote),
            auto_fetch: self.auto_fetch,
            worktree_naming_pattern: self.worktree_naming_pattern,
        }
    }

    /// Reads the plugin configuration given in the Zellij KDL layout.
    pub fn from_kdl(configuration: BTreeMap<String, String>) -> (res: Config)
        ensures
            res@ == kdl_config(configuration.deep_view()),
    {
        let mut config = Config::default();
        let ghost m = configuration.deep_view();

        if let Some(worktree_dir_name) = lookup(&configuration, "worktree_dir_name") {
            if let Some(v) = trim_to_option(worktree_dir_name.as_str()) {
                config.worktree_dir_name = v;
            }
        }
        if let Some(session_prefix) = lookup(&configuration, "session_prefix") {
            config.session_prefix = trim_to_option(session_prefix.as_str());
        }
        if let Some(base_branch) = lookup(&configuration, "base_branch") {
            config.base_branch = trim_to_option(base_branch.as_str());
        }
        if let Some(remote) = lookup(&configuration, "remote") {
            if let Some(v) = trim_to_option(remote.as_str()) {
                config.remote = v;
            }
        }
        if let Some(auto_fetch) = lookup(&configuration, "auto_fetch") {
            config.auto_fetch = is_true_value(auto_fetch.as_str());
        }
        if let Some(pattern) = lookup(&configuration, "worktree_naming_pattern") {
            if let Some(pattern) = WorktreeNamingPattern::from_str(pattern.as_str()) {
                config.worktree_naming_pattern = pattern;
            }
        }
        config
    }

    /// The configuration that a repository `.treemin.toml` file gives on its own: the
    /// defaults, with the keys that the file sets applied.
    pub fn from_repo_config(repo_config: RepoConfig) -> (res: Config)
        ensures
            res@ == applied(default_config(), repo_config),
    {
        let mut config = Config::default();
        config.apply_repo_config(repo_config);
        config
    }

    /// Merges the settings of a repository file over this configuration: every setting
    /// that the file gives wins, whether or not it equals the default, and every setting it
    /// leaves out (`None`) stays (repository config over KDL config over defaults).
    pub fn merge(&mut self, repo_config: RepoConfig)
        ensures
            final(self)@ == applied(old(self)@, repo_config),
    {
        self.apply_repo_config(repo_config);
    }

    /// Applies the keys present in a repository file.
    pub fn apply_repo_config(&mut self, repo_config: RepoConfig)
        ensures
            final(self)@ == applied(old(self)@, repo_config),
    {
        if let Some(v) = repo_config.worktree_dir_name {
            if let Some(t) = trim_to_option(v.as_str()) {
                self.worktree_dir_name = t;
            }
        }
        if let Some(v) = repo_config.session_prefix {
            self.session_prefix = trim_to_option(v.as_str());
        }
        if let Some(v) = repo_config.base_branch {
            self.base_branch = trim_to_option(v.as_str());
        }
        if let Some(v) = repo_config.remote {
            if let Some(t) = trim_to_option(v.as_str()) {
                self.remote = t;
            }
        }
        if let Some(b) = repo_config.auto_fetch {
            self.auto_fetch = b;
        }
        if let Some(p) = repo_config.worktree_naming_pattern {
            self.worktree_naming_pattern = p;
        }
    }
}

/// Repository configuration over KDL configuration over defaults. When the settings of a
/// repository file `r` are merged over the configuration read from the KDL map `m`: every
/// setting that the file gives wins, whether or not it equals the default (a blank directory
/// name or remote is ignored, a blank prefix or base branch clears it, text is trimmed);
/// every setting that the file leaves out keeps the KDL value; every setting that both leave
/// out keeps the default.
pub proof fn lemma_config_precedence(m: Map<Seq<char>, Seq<char>>, r: RepoConfig)
    ensures
        ({
            let d = default_config();
            let kdl = kdl_config(m);
            let out = applied(kdl, r);
            &&& (r.worktree_dir_name is Some && trim(r.worktree_dir_name->0@).len() > 0 ==> out.worktree_dir_name == trim(r.worktree_dir_name->0@))
            &&& (r.session_prefix matches Some(v) ==> out.session_prefix == trim_to_option_spec(v@))
            &&& (r.base_branch matches Some(v) ==> out.base_branch == trim_to_option_spec(v@))
            &&& (r.remote is Some && trim(r.remote->0@).len() > 0 ==> out.remote == trim(r.remote->0@))
            &&& (r.auto_fetch matches Some(b) ==> out.auto_fetch == b)
            &&& (r.worktree_naming_pattern matches Some(p) ==> out.worktree_naming_pattern == p)
            &&& r.worktree_dir_name is None ==> out.worktree_dir_name == kdl.worktree_dir_name
            &&& r.session_prefix is None ==> out.session_prefix == kdl.session_prefix
            &&& r.base_branch is None ==> out.base_branch == kdl.base_branch
            &&& r.remote is None ==> out.remote == kdl.remote
            &&& r.auto_fetch is None ==> out.auto_fetch == kdl.auto_fetch
            &&& r.worktree_naming_pattern is None ==> out.worktree_naming_pattern == kdl.worktree_naming_pattern
            &&& r.worktree_dir_name is None && !m.contains_key("worktree_dir_name"@) ==> out.worktree_dir_name
                == d.worktree_dir_name
            &&& r.session_prefix is None && !m.contains_key("session_prefix"@) ==> out.session_prefix
                == d.session_prefix
            &&& r.base_branch is None && !m.contains_key("base_branch"@) ==> out.base_branch == d.base_branch
            &&& r.remote is None && !m.contains_key("remote"@) ==> out.remote == d.remote
            &&& r.auto_fetch is None && !m.contains_key("auto_fetch"@) ==> out.auto_fetch == d.auto_fetch
            &&& r.worktree_naming_pattern is None && !m.contains_key("worktree_naming_pattern"@)
                ==> out.worktree_naming_pattern == d.worktree_naming_pattern
        }),
{
}

} // verus!
