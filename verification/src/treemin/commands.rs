//! The commands that treemin runs through Zellij, the context it tags them with, and how it
//! reads their output: which action a result belongs to, the repository roots that
//! `git rev-parse` prints, and the worktrees that `git worktree list --porcelain` prints.
use std::collections::BTreeMap;

use vstd::prelude::*;

use crate::paths::{lossy_text, parent, parent_of, same_path, same_path_spec, utf8_lossy};
use crate::string_map::lookup;
use crate::text::{
    chars_of, extend_chars, has_prefix, split_str, split_str_exec, lines, lines_exec, slice_chars, starts_with, str_eq,
    string_of, trim, trim_exec, trimmed_nonblank,
};

verus! {

pub const CONTEXT_ACTION: &'static str = "action";
pub const CONTEXT_BRANCH: &'static str = "branch";
pub const CONTEXT_PATH: &'static str = "path";
pub const CONTEXT_SESSION: &'static str = "session";

pub const ACTION_DISCOVER_REPO: &'static str = "discover-repo";
pub const ACTION_LOAD_REPO_CONFIG: &'static str = "load-repo-config";
pub const ACTION_FETCH_REMOTE: &'static str = "fetch-remote";
pub const ACTION_CHECK_BRANCH: &'static str = "check-branch";
pub const ACTION_CREATE_WORKTREE: &'static str = "create-worktree";
pub const ACTION_CREATE_SESSION: &'static str = "create-session";
pub const ACTION_LIST_WORKTREES: &'static str = "list-worktrees";
pub const ACTION_DELETE_SESSION: &'static str = "delete-session";
pub const ACTION_DELETE_WORKTREE: &'static str = "delete-worktree";

/// The command that a result belongs to, with the context that came back with it.
#[derive(Clone, Debug, PartialEq, Eq)]
pub enum CommandAction {
    DiscoverRepo,
    LoadRepoConfig,
    FetchRemote { branch: String },
    CheckBranch { branch: String },
    CreateWorktree { branch: String },
    CreateSession { branch: String, path: String, session: String },
    ListWorktrees,
    DeleteSession { session: String },
    DeleteWorktree { path: String },
}

/// A [`CommandAction`] with its texts as character sequences.
pub enum ActionView {
    DiscoverRepo,
    LoadRepoConfig,
    FetchRemote { branch: Seq<char> },
    CheckBranch { branch: Seq<char> },
    CreateWorktree { branch: Seq<char> },
    CreateSession { branch: Seq<char>, path: Seq<char>, session: Seq<char> },
    ListWorktrees,
    DeleteSession { session: Seq<char> },
    DeleteWorktree { path: Seq<char> },
}

impl View for CommandAction {
    type V = ActionView;

    open spec fn view(&self) -> ActionView {
        match self {
            CommandAction::DiscoverRepo => ActionView::DiscoverRepo,
            CommandAction::LoadRepoConfig => ActionView::LoadRepoConfig,
            CommandAction::FetchRemote { branch } => ActionView::FetchRemote { branch: branch@ },
            CommandAction::CheckBranch { branch } => ActionView::CheckBranch { branch: branch@ },
            CommandAction::CreateWorktree { branch } => ActionView::CreateWorktree { branch: branch@ },
            CommandAction::CreateSession { branch, path, session } => ActionView::CreateSession {
                branch: branch@,
                path: path@,
                session: session@,
            },
            CommandAction::ListWorktrees => ActionView::ListWorktrees,
            CommandAction::DeleteSession { session } => ActionView::DeleteSession { session: session@ },
            CommandAction::DeleteWorktree { path } => ActionView::DeleteWorktree { path: path@ },
        }
    }
}

/// The action that a command context names, when the context holds every key that the
/// action needs; `None` for an unknown action or a missing key.
pub open spec fn parsed_action(m: Map<Seq<char>, Seq<char>>) -> Option<ActionView> {
    let has_branch = m.contains_key(CONTEXT_BRANCH@);
    let has_path = m.contains_key(CONTEXT_PATH@);
    let has_session = m.contains_key(CONTEXT_SESSION@);
    if !m.contains_key(CONTEXT_ACTION@) {
        None
    } else {
        let a = m[CONTEXT_ACTION@];
        if a == ACTION_DISCOVER_REPO@ {
            Some(ActionView::DiscoverRepo)
        } else if a == ACTION_LOAD_REPO_CONFIG@ {
            Some(ActionView::LoadRepoConfig)
        } else if a == ACTION_FETCH_REMOTE@ {
            if has_branch { Some(ActionView::FetchRemote { branch: m[CONTEXT_BRANCH@] }) } else { None }
        } else if a == ACTION_CHECK_BRANCH@ {
            if has_branch { Some(ActionView::CheckBranch { branch: m[CONTEXT_BRANCH@] }) } else { None }
        } else if a == ACTION_CREATE_WORKTREE@ {
            if has_branch { Some(ActionView::CreateWorktree { branch: m[CONTEXT_BRANCH@] }) } else { None }
        } else if a == ACTION_CREATE_SESSION@ {
            if has_branch && has_path && has_session {
                Some(ActionView::CreateSession {
                    branch: m[CONTEXT_BRANCH@],
                    path: m[CONTEXT_PATH@],
                    session: m[CONTEXT_SESSION@],
                })
            } else {
                None
            }
        } else if a == ACTION_LIST_WORKTREES@ {
            Some(ActionView::ListWorktrees)
        } else if a == ACTION_DELETE_SESSION@ {
            if has_session { Some(ActionView::DeleteSession { session: m[CONTEXT_SESSION@] }) } else { None }
        } else if a == ACTION_DELETE_WORKTREE@ {
            if has_path { Some(ActionView::DeleteWorktree { path: m[CONTEXT_PATH@] }) } else { None }
        } else {
            None
        }
    }
}

/// Which command a result belongs to, read from the context the command was run with.
pub fn parse_action(context: &BTreeMap<String, String>) -> (res: Option<CommandAction>)
    ensures
        match parsed_action(context.deep_view()) {
            Some(a) => res is Some && res->0@ == a,
            None => res is None,
        },
{
    let action = lookup(context, CONTEXT_ACTION)?;
    let a = action.as_str();
    if str_eq(a, ACTION_DISCOVER_REPO) {
        Some(CommandAction::DiscoverRepo)
    } else if str_eq(a, ACTION_LOAD_REPO_CONFIG) {
        Some(CommandAction::LoadRepoConfig)
    } else if str_eq(a, ACTION_FETCH_REMOTE) {
        let branch = lookup(context, CONTEXT_BRANCH)?;
        Some(CommandAction::FetchRemote { branch })
    } else if str_eq(a, ACTION_CHECK_BRANCH) {
        let branch = lookup(context, CONTEXT_BRANCH)?;
        Some(CommandAction::CheckBranch { branch })
    } else if str_eq(a, ACTION_CREATE_WORKTREE) {
        let branch = lookup(context, CONTEXT_BRANCH)?;
        Some(CommandAction::CreateWorktree { branch })
    } else if str_eq(a, ACTION_CREATE_SESSION) {
        let branch = lookup(context, CONTEXT_BRANCH)?;
        let path = lookup(context, CONTEXT_PATH)?;
        let session = lookup(context, CONTEXT_SESSION)?;
        Some(CommandAction::CreateSession { branch, path, session })
    } else if str_eq(a, ACTION_LIST_WORKTREES) {
        Some(CommandAction::ListWorktrees)
    } else if str_eq(a, ACTION_DELETE_SESSION) {
        let session = lookup(context, CONTEXT_SESSION)?;
        Some(CommandAction::DeleteSession { session })
    } else if str_eq(a, ACTION_DELETE_WORKTREE) {
        let path = lookup(context, CONTEXT_PATH)?;
        Some(CommandAction::DeleteWorktree { path })
    } else {
        None
    }
}

/// The message for a failed command: the prefix, then what it wrote to stderr, trimmed,
/// if anything.
pub open spec fn error_message(prefix: Seq<char>, stderr: Seq<char>) -> Seq<char> {
    if trim(stderr).len() == 0 {
        prefix
    } else {
        prefix + seq![' '] + trim(stderr)
    }
}

/// [`command_error`] on stderr already read as text.
pub fn command_error_text(prefix: &str, stderr: &str) -> (res: String)
    ensures
        res@ == error_message(prefix@, stderr@),
{
    let t = trim_exec(&chars_of(stderr));
    let mut out = chars_of(prefix);
    if t.len() > 0 {
        out.push(' ');
        extend_chars(&mut out, &t);
    }
    string_of(&out)
}

/// The message for a failed command whose stderr was `stderr`.
pub fn command_error(prefix: &str, stderr: &[u8]) -> (res: String)
    ensures
        res@ == error_message(prefix@, lossy_text(stderr@)),
{
    let text = utf8_lossy(stderr);
    command_error_text(prefix, text.as_str())
}

/// The trimmed lines that are not blank, as character vectors.
pub fn trimmed_nonblank_lines(s: &[char]) -> (res: Vec<Vec<char>>)
    ensures
        res@.map_values(|v: Vec<char>| v@) == trimmed_nonblank(lines(s@)),
{
    let ls = lines_exec(s);
    let ghost lv = lines(s@);
    let mut out: Vec<Vec<char>> = Vec::new();
    let mut i: usize = 0;
    assert(lv.take(0) =~= Seq::<Seq<char>>::empty());
    assert(out@.map_values(|v: Vec<char>| v@) =~= Seq::<Seq<char>>::empty());
    while i < ls.len()
        invariant
            i <= ls@.len() == lv.len(),
            lv == lines(s@),
            forall|k: int| 0 <= k < ls@.len() ==> #[trigger] ls@[k]@ == lv[k],
            out@.map_values(|v: Vec<char>| v@) == trimmed_nonblank(lv.take(i as int)),
        decreases ls@.len() - i,
    {
        assert(lv.take(i + 1).drop_last() == lv.take(i as int));
        assert(lv.take(i + 1).last() == lv[i as int]);
        let t = trim_exec(&ls[i]);
        if t.len() > 0 {
            let ghost before = out@;
            let ghost tv = t@;
            out.push(t);
            assert(out@.map_values(|v: Vec<char>| v@) =~= before.map_values(|v: Vec<char>| v@).push(tv));
        }
        i = i + 1;
    }
    assert(lv.take(ls@.len() as int) == lv);
    out
}

/// The roots that `git rev-parse --show-toplevel --git-common-dir` printed: the current
/// worktree (first non-blank line) and the repository, the parent of the common git
/// directory (second non-blank line).
pub open spec fn repo_roots(output: Seq<char>) -> Option<(Seq<char>, Seq<char>)> {
    let e = trimmed_nonblank(lines(output));
    if e.len() < 2 {
        None
    } else {
        match parent_of(e[1]) {
            Some(p) => Some((e[0], p)),
            None => None,
        }
    }
}

/// Reads the current worktree root and the repository root from `git rev-parse` output.
pub fn parse_repo_roots(output: &str) -> (res: Option<(String, String)>)
    ensures
        match repo_roots(output@) {
            Some((current, repo)) => res is Some && (res->0).0@ == current && (res->0).1@ == repo,
            None => res is None,
        },
{
    let e = trimmed_nonblank_lines(&chars_of(output));
    if e.len() < 2 {
        return None;
    }
    let current = string_of(&e[0]);
    let common_dir = string_of(&e[1]);
    match parent(common_dir.as_str()) {
        Some(repo) => Some((current, repo)),
        None => None,
    }
}

// ---------------------------------------------------------------------------
// `git worktree list --porcelain`
// ---------------------------------------------------------------------------
/// A worktree that git lists.
#[derive(Clone, Debug, PartialEq, Eq)]
pub struct WorktreeLocation {
    pub branch: String,
    pub path: String,
    pub is_current: bool,
}

/// A [`WorktreeLocation`] with its texts as character sequences.
pub struct LocationView {
    pub branch: Seq<char>,
    pub path: Seq<char>,
    pub is_current: bool,
}

impl View for WorktreeLocation {
    type V = LocationView;

    open spec fn view(&self) -> LocationView {
        LocationView { branch: self.branch@, path: self.path@, is_current: self.is_current }
    }
}

/// The trimmed rest of the last line that starts with `prefix`.
pub open spec fn last_value(ls: Seq<Seq<char>>, prefix: Seq<char>) -> Option<Seq<char>>
    decreases ls.len(),
{
    if ls.len() == 0 {
        None
    } else if starts_with(ls.last(), prefix) {
        Some(trim(ls.last().skip(prefix.len() as int)))
    } else {
        last_value(ls.drop_last(), prefix)
    }
}

pub open spec fn worktree_prefix() -> Seq<char> {
    "worktree "@
}

pub open spec fn branch_prefix() -> Seq<char> {
    "branch refs/heads/"@
}

/// Whether a listed path is the worktree that the plugin started in.
pub open spec fn is_current_path(current: Option<Seq<char>>, path: Seq<char>) -> bool {
    match current {
        Some(c) => same_path_spec(c, path),
        None => false,
    }
}

/// The worktree that one block of the listing describes, if it names both a path and a
/// branch (the last of each counts).
pub open spec fn block_location(block: Seq<char>, current: Option<Seq<char>>) -> Option<LocationView> {
    let ls = lines(block);
    match (last_value(ls, worktree_prefix()), last_value(ls, branch_prefix())) {
        (Some(path), Some(branch)) => Some(
            LocationView { branch, path, is_current: is_current_path(current, path) },
        ),
        _ => None,
    }
}

/// The worktrees of the blocks, in order, skipping blocks that name no path or no branch.
pub open spec fn block_locations(blocks: Seq<Seq<char>>, current: Option<Seq<char>>) -> Seq<LocationView>
    decreases blocks.len(),
{
    if blocks.len() == 0 {
        seq![]
    } else {
        match block_location(blocks.last(), current) {
            Some(l) => block_locations(blocks.drop_last(), current).push(l),
            None => block_locations(blocks.drop_last(), current),
        }
    }
}

/// The worktrees that `git worktree list --porcelain` printed, blocks being separated by a
/// blank line.
pub open spec fn worktree_locations(output: Seq<char>, current: Option<Seq<char>>) -> Seq<LocationView> {
    block_locations(split_str(output, seq!['\n', '\n']), current)
}

/// The trimmed rest of the last line of `ls` that starts with `prefix`.
fn last_value_exec(ls: &Vec<Vec<char>>, prefix: &[char]) -> (res: Option<Vec<char>>)
    ensures
        match last_value(ls@.map_values(|v: Vec<char>| v@), prefix@) {
            Some(v) => res is Some && res->0@ == v,
            None => res is None,
        },
{
    let ghost lv = ls@.map_values(|v: Vec<char>| v@);
    let mut i: usize = ls.len();
    assert(lv.take(lv.len() as int) == lv);
    while i > 0
        invariant
            i <= ls@.len(),
            lv == ls@.map_values(|v: Vec<char>| v@),
            last_value(lv, prefix@) == last_value(lv.take(i as int), prefix@),
        decreases i,
    {
        let ghost t = lv.take(i as int);
        assert(t.last() == ls@[i - 1]@);
        assert(t.drop_last() == lv.take(i - 1));
        if has_prefix(&ls[i - 1], prefix) {
            let rest = slice_chars(&ls[i - 1], prefix.len(), ls[i - 1].len());
            assert(rest@ == t.last().skip(prefix@.len() as int));
            return Some(trim_exec(&rest));
        }
        i = i - 1;
    }
    assert(lv.take(0) =~= Seq::<Seq<char>>::empty());
    None
}

fn parse_worktree_location_block(block: &[char], current_repo_root: Option<&str>) -> (res: Option<WorktreeLocation>)
    ensures
        match block_location(block@, match current_repo_root { Some(c) => Some(c@), None => None }) {
            Some(l) => res is Some && res->0@ == l,
            None => res is None,
        },
{
    let ls = lines_exec(block);
    let ghost lv = lines(block@);
    assert(ls@.map_values(|v: Vec<char>| v@) =~= lv);
    let wp: [char; 9] = ['w', 'o', 'r', 'k', 't', 'r', 'e', 'e', ' '];
    let bp: [char; 18] = ['b', 'r', 'a', 'n', 'c', 'h', ' ', 'r', 'e', 'f', 's', '/', 'h', 'e', 'a', 'd', 's', '/'];
    proof {
        reveal_strlit("worktree ");
        reveal_strlit("branch refs/heads/");
        assert(wp@ =~= worktree_prefix());
        assert(bp@ =~= branch_prefix());
    }
    let path = last_value_exec(&ls, &wp)?;
    let branch = last_value_exec(&ls, &bp)?;
    let path_text = string_of(&path);
    let is_current = match current_repo_root {
        Some(c) => same_path(c, path_text.as_str()),
        None => false,
    };
    Some(WorktreeLocation { branch: string_of(&branch), path: path_text, is_current })
}

/// Reads the worktrees that `git worktree list --porcelain` printed, marking the one that
/// is the same path as `current_repo_root`.
pub fn parse_worktree_locations(output: &str, current_repo_root: Option<&str>) -> (res: Vec<WorktreeLocation>)
    ensures
        res@.map_values(|l: WorktreeLocation| l@) == worktree_locations(
            output@,
            match current_repo_root { Some(c) => Some(c@), None => None },
        ),
{
    let ghost cur = match current_repo_root { Some(c) => Some(c@), None => None };
    let sep: [char; 2] = ['\n', '\n'];
    assert(sep@ =~= seq!['\n', '\n']);
    let blocks = split_str_exec(&chars_of(output), &sep);
    let ghost bv = split_str(output@, seq!['\n', '\n']);
    let mut res: Vec<WorktreeLocation> = Vec::new();
    let mut i: usize = 0;
    assert(bv.take(0) =~= Seq::<Seq<char>>::empty());
    assert(res@.map_values(|l: WorktreeLocation| l@) =~= Seq::<LocationView>::empty());
    while i < blocks.len()
        invariant
            i <= blocks@.len() == bv.len(),
            bv == split_str(output@, seq!['\n', '\n']),
            cur == match current_repo_root { Some(c) => Some(c@), None => None },
            blocks@.map_values(|v: Vec<char>| v@) == bv,
            res@.map_values(|l: WorktreeLocation| l@) == block_locations(bv.take(i as int), cur),
        decreases blocks@.len() - i,
    {
        assert(bv.take(i + 1).drop_last() == bv.take(i as int));
        assert(bv.take(i + 1).last() == bv[i as int]);
        assert(blocks@[i as int]@ == bv[i as int]);
        if let Some(l) = parse_worktree_location_block(&blocks[i], current_repo_root) {
            let ghost before = res@;
            let ghost lv = l@;
            res.push(l);
            assert(res@.map_values(|x: WorktreeLocation| x@) =~= before.map_values(|x: WorktreeLocation| x@).push(lv));
        }
        i = i + 1;
    }
    assert(bv.take(blocks@.len() as int) == bv);
    res
}

} // verus!
