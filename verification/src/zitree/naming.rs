//! Worktree directories and session names of the first zitree plugin: the whole 64-bit
//! djb2 hash of the branch stands in both.
use vstd::prelude::*;

use crate::text::{chars_of, extend_chars, string_of};
use crate::treemin::config::{Config, WorktreeNamingPattern};
use crate::treemin::naming::{
    dashed, dashed_chars, legacy_short_hash_chars, legacy_short_hash_spec, path_join, path_join_exec, sanitize_path, sanitize_path_chars,
    sanitize_session, sanitize_session_chars,
};

verus! {

/// The directory name of a branch's worktree under the given naming pattern (with the
/// hash, a single directory: the sanitized branch's `/` become `-`).
pub open spec fn worktree_name(pattern: WorktreeNamingPattern, branch: Seq<char>) -> Seq<char> {
    match pattern {
        WorktreeNamingPattern::Branch => sanitize_path(branch),
        WorktreeNamingPattern::Hash => legacy_short_hash_spec(branch),
        WorktreeNamingPattern::BranchHash => dashed(sanitize_path(branch)) + seq!['-'] + legacy_short_hash_spec(branch),
    }
}

/// `<repo_root>/<worktree_dir_name>/<worktree name>`.
pub fn worktree_path(repo_root: &str, config: &Config, branch: &str) -> (res: String)
    ensures
        res@ == path_join(
            path_join(repo_root@, config.worktree_dir_name@),
            worktree_name(config.worktree_naming_pattern, branch@),
        ),
{
    let b = chars_of(branch);
    let name = match config.worktree_naming_pattern {
        WorktreeNamingPattern::Branch => sanitize_path_chars(&b),
        WorktreeNamingPattern::Hash => legacy_short_hash_chars(branch),
        WorktreeNamingPattern::BranchHash => {
            let mut n = dashed_chars(&sanitize_path_chars(&b));
            n.push('-');
            extend_chars(&mut n, &legacy_short_hash_chars(branch));
            n
        },
    };
    let base = path_join_exec(&chars_of(repo_root), &chars_of(config.worktree_dir_name.as_str()));
    string_of(&path_join_exec(&base, &name))
}

/// `<repo>-<branch>-<hash>` from the sanitized repository name (`repo` when there is none)
/// and branch, behind the sanitized session prefix when one is configured.
pub open spec fn session_name_spec(repo_name: Option<Seq<char>>, branch: Seq<char>, prefix: Option<Seq<char>>) -> Seq<char> {
    let repo = match repo_name {
        Some(r) => r,
        None => "repo"@,
    };
    let base = sanitize_session(repo) + seq!['-'] + sanitize_session(branch) + seq!['-'] + legacy_short_hash_spec(branch);
    match prefix {
        Some(p) => sanitize_session(p) + seq!['-'] + base,
        None => base,
    }
}

/// The session name of a branch's worktree.
pub fn session_name(repo_name: Option<&str>, branch: &str, config: &Config) -> (res: String)
    ensures
        res@ == session_name_spec(
            match repo_name {
                Some(r) => Some(r@),
                None => None,
            },
            branch@,
            crate::treemin::config::opt_view(config.session_prefix),
        ),
{
    let repo = match repo_name {
        Some(r) => chars_of(r),
        None => chars_of("repo"),
    };
    let mut base = sanitize_session_chars(&repo);
    base.push('-');
    extend_chars(&mut base, &sanitize_session_chars(&chars_of(branch)));
    base.push('-');
    extend_chars(&mut base, &legacy_short_hash_chars(branch));
    match &config.session_prefix {
        Some(p) => {
            let mut out = sanitize_session_chars(&chars_of(p.as_str()));
            out.push('-');
            extend_chars(&mut out, &base);
            string_of(&out)
        },
        None => string_of(&base),
    }
}

} // verus!
