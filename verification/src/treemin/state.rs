//! The decisions of the treemin plugin: from its state and an event (a permission answer,
//! a finished command, a key) to its next state and the effects the host is to carry out
//! (commands to run, sessions to switch to, registry entries to write).
use std::collections::BTreeMap;

use vstd::prelude::*;

use crate::registry::all_but;
use crate::paths::{file_name, file_name_of, lossy_text, same_path, same_path_spec, utf8_lossy};
use crate::text::{chars_of, extend_chars, is_control, str_eq, string_of, trim, trim_exec};
use crate::treemin::commands::{
    command_error, error_message, parse_action, parse_repo_roots, parse_worktree_locations,
    parsed_action, repo_roots, worktree_locations, ActionView, CommandAction, LocationView,
    WorktreeLocation,
};
use crate::treemin::config::{
    applied, default_config, kdl_config, opt_view, Config, ConfigView, RepoConfig,
};
use crate::treemin::naming::{path_join, session_name, session_name_spec, worktree_name, worktree_path};
use crate::treemin::sessions::{
    branches_of, build_worktree_sessions, entry_views, first_selectable_from,
    first_selectable_index, location_views, matching_live_spec, matching_worktree_live_session_name,
    next_selectable_index, next_selection, previous_selectable_index, previous_selection,
    selected_index_for_sessions, selection_for, selection_key, session_selection_key,
    lemma_first_selectable, lemma_keyed, lemma_last_selectable, selectable,
    worktree_sessions_spec, EntryView, WorktreeSessionEntry,
};
use crate::zitree::validation::{branch_problem, validate_branch_name};

verus! {

// ---------------------------------------------------------------------------
// State, events and effects
// ---------------------------------------------------------------------------
/// What the plugin shows in its status line.
#[derive(Clone, Debug, PartialEq, Eq)]
pub enum Status {
    Loading,
    Ready,
    Busy(String),
    Error(String),
    Success(String),
}

pub enum StatusView {
    Loading,
    Ready,
    Busy(Seq<char>),
    Error(Seq<char>),
    Success(Seq<char>),
}

impl View for Status {
    type V = StatusView;

    open spec fn view(&self) -> StatusView {
        match self {
            Status::Loading => StatusView::Loading,
            Status::Ready => StatusView::Ready,
            Status::Busy(m) => StatusView::Busy(m@),
            Status::Error(m) => StatusView::Error(m@),
            Status::Success(m) => StatusView::Success(m@),
        }
    }
}

/// A deletion under way: the session and the worktree it removes.
#[derive(Clone, Debug, PartialEq, Eq)]
pub struct PendingDelete {
    pub session_name: Option<String>,
    pub worktree_path: Option<String>,
}

pub struct PendingView {
    pub session_name: Option<Seq<char>>,
    pub worktree_path: Option<Seq<char>>,
}

impl View for PendingDelete {
    type V = PendingView;

    open spec fn view(&self) -> PendingView {
        PendingView { session_name: opt_view(self.session_name), worktree_path: opt_view(self.worktree_path) }
    }
}

/// What the host is asked to do.
#[derive(Clone, Debug, PartialEq, Eq)]
pub enum Effect {
    /// Run `git rev-parse` in the directory the plugin started in.
    DiscoverRepo,
    /// Read `.treemin.toml` in the repository root.
    LoadRepoConfig { repo_root: String },
    /// Parse the text of `.treemin.toml` and hand the result to `repo_config_parsed`.
    ParseRepoConfig { text: String },
    FetchRemote { repo_root: String, remote: String, branch: String },
    CheckBranch { repo_root: String, branch: String },
    /// Create a worktree on a new branch, from `base_branch` if there is one.
    CreateWorktree { repo_root: String, branch: String, path: String, base_branch: Option<String> },
    /// Create a worktree on an existing branch.
    CreateWorktreeExisting { repo_root: String, branch: String, path: String },
    ListWorktrees { repo_root: String },
    DeleteWorktree { repo_root: String, path: String },
    /// Start a session in the background in a worktree.
    CreateSession { branch: String, path: String, session: String },
    DeleteSession { repo_root: String, session: String },
    SwitchSession { session: String },
    /// Record the session in the managed-session registry.
    RegisterSession { session: String },
    /// Remove the session from the managed-session registry.
    UnregisterSession { session: String },
    HideSelf,
}

pub enum EffectView {
    DiscoverRepo,
    LoadRepoConfig { repo_root: Seq<char> },
    ParseRepoConfig { text: Seq<char> },
    FetchRemote { repo_root: Seq<char>, remote: Seq<char>, branch: Seq<char> },
    CheckBranch { repo_root: Seq<char>, branch: Seq<char> },
    CreateWorktree { repo_root: Seq<char>, branch: Seq<char>, path: Seq<char>, base_branch: Option<Seq<char>> },
    CreateWorktreeExisting { repo_root: Seq<char>, branch: Seq<char>, path: Seq<char> },
    ListWorktrees { repo_root: Seq<char> },
    DeleteWorktree { repo_root: Seq<char>, path: Seq<char> },
    CreateSession { branch: Seq<char>, path: Seq<char>, session: Seq<char> },
    DeleteSession { repo_root: Seq<char>, session: Seq<char> },
    SwitchSession { session: Seq<char> },
    RegisterSession { session: Seq<char> },
    UnregisterSession { session: Seq<char> },
    HideSelf,
}

impl View for Effect {
    type V = EffectView;

    open spec fn view(&self) -> EffectView {
        match self {
            Effect::DiscoverRepo => EffectView::DiscoverRepo,
            Effect::LoadRepoConfig { repo_root } => EffectView::LoadRepoConfig { repo_root: repo_root@ },
            Effect::ParseRepoConfig { text } => EffectView::ParseRepoConfig { text: text@ },
            Effect::FetchRemote { repo_root, remote, branch } => EffectView::FetchRemote {
                repo_root: repo_root@,
                remote: remote@,
                branch: branch@,
            },
            Effect::CheckBranch { repo_root, branch } => EffectView::CheckBranch { repo_root: repo_root@, branch: branch@ },
            Effect::CreateWorktree { repo_root, branch, path, base_branch } => EffectView::CreateWorktree {
                repo_root: repo_root@,
                branch: branch@,
                path: path@,
                base_branch: opt_view(*base_branch),
            },
            Effect::CreateWorktreeExisting { repo_root, branch, path } => EffectView::CreateWorktreeExisting {
                repo_root: repo_root@,
                branch: branch@,
                path: path@,
            },
            Effect::ListWorktrees { repo_root } => EffectView::ListWorktrees { repo_root: repo_root@ },
            Effect::DeleteWorktree { repo_root, path } => EffectView::DeleteWorktree { repo_root: repo_root@, path: path@ },
            Effect::CreateSession { branch, path, session } => EffectView::CreateSession {
                branch: branch@,
                path: path@,
                session: session@,
            },
            Effect::DeleteSession { repo_root, session } => EffectView::DeleteSession { repo_root: repo_root@, session: session@ },
            Effect::SwitchSession { session } => EffectView::SwitchSession { session: session@ },
            Effect::RegisterSession { session } => EffectView::RegisterSession { session: session@ },
            Effect::UnregisterSession { session } => EffectView::UnregisterSession { session: session@ },
            Effect::HideSelf => EffectView::HideSelf,
        }
    }
}

pub open spec fn effect_views(v: Seq<Effect>) -> Seq<EffectView> {
    v.map_values(|e: Effect| e@)
}

/// The key that a key event carries.
#[derive(Clone, Copy, Debug, PartialEq, Eq)]
pub enum BareKey {
    Enter,
    Up,
    Down,
    Backspace,
    Esc,
    Char(char),
    Other,
}

/// A key event: the key, whether Ctrl is held, and whether no modifier is held.
#[derive(Clone, Copy, Debug, PartialEq, Eq)]
pub struct KeyInput {
    pub bare_key: BareKey,
    pub ctrl: bool,
    pub no_modifiers: bool,
}

/// The state of the treemin plugin.
pub struct State {
    pub config: Config,
    pub kdl_config: Config,
    pub permissions_granted: bool,
    pub repo_root: Option<String>,
    pub current_worktree_root: Option<String>,
    pub repo_name: Option<String>,
    pub branch_input: String,
    pub known_worktrees: Vec<WorktreeLocation>,
    pub worktree_sessions: Vec<WorktreeSessionEntry>,
    pub live_session_names: Vec<String>,
    pub selected_index: Option<usize>,
    pub status: Status,
    pub config_loaded: bool,
    pub show_help: bool,
    pub pending_delete: Option<PendingDelete>,
}

/// A [`State`] as mathematical values.
pub struct StateView {
    pub config: ConfigView,
    pub kdl_config: ConfigView,
    pub permissions_granted: bool,
    pub repo_root: Option<Seq<char>>,
    pub current_worktree_root: Option<Seq<char>>,
    pub repo_name: Option<Seq<char>>,
    pub branch_input: Seq<char>,
    pub known: Seq<LocationView>,
    pub sessions: Seq<EntryView>,
    pub live: Seq<Seq<char>>,
    pub selected: Option<nat>,
    pub status: StatusView,
    pub config_loaded: bool,
    pub show_help: bool,
    pub pending: Option<PendingView>,
}

pub open spec fn opt_usize(o: Option<usize>) -> Option<nat> {
    match o {
        Some(i) => Some(i as nat),
        None => None,
    }
}

impl View for State {
    type V = StateView;

    open spec fn view(&self) -> StateView {
        StateView {
            config: self.config@,
            kdl_config: self.kdl_config@,
            permissions_granted: self.permissions_granted,
            repo_root: opt_view(self.repo_root),
            current_worktree_root: opt_view(self.current_worktree_root),
            repo_name: opt_view(self.repo_name),
            branch_input: self.branch_input@,
            known: location_views(self.known_worktrees@),
            sessions: entry_views(self.worktree_sessions@),
            live: self.live_session_names@.map_values(|s: String| s@),
            selected: opt_usize(self.selected_index),
            status: self.status@,
            config_loaded: self.config_loaded,
            show_help: self.show_help,
            pending: match self.pending_delete {
                Some(p) => Some(p@),
                None => None,
            },
        }
    }
}

// ---------------------------------------------------------------------------
// The transitions, as mathematical functions
// ---------------------------------------------------------------------------
pub open spec fn no_root_message() -> Seq<char> {
    "Repository root is not available yet."@
}

pub open spec fn with_status(s: StateView, st: StatusView) -> StateView {
    StateView { status: st, ..s }
}

pub open spec fn error_state(s: StateView, m: Seq<char>) -> (StateView, Seq<EffectView>) {
    (with_status(s, StatusView::Error(m)), seq![])
}

/// The key of the selected entry, if the selection is on an entry.
pub open spec fn selected_key(s: StateView) -> Option<Seq<char>> {
    match s.selected {
        Some(i) => if i < s.sessions.len() {
            Some(selection_key(s.sessions[i as int]))
        } else {
            None
        },
        None => None,
    }
}

/// The session list rebuilt from the known worktrees and live sessions, the selection
/// following `previous`.
pub open spec fn rebuilt(s: StateView, previous: Option<Seq<char>>) -> StateView {
    let sessions = worktree_sessions_spec(s.repo_root, s.repo_name, s.config.session_prefix, s.known, s.live);
    StateView { sessions, selected: selection_for(sessions, previous), ..s }
}

/// The branches of the known worktrees and `extra`, where it is not empty.
pub open spec fn siblings_with(known: Seq<LocationView>, extra: Seq<char>) -> Seq<Seq<char>> {
    if extra.len() > 0 {
        branches_of(known).push(extra)
    } else {
        branches_of(known)
    }
}

/// Where the worktree of `branch` goes.
pub open spec fn worktree_path_spec(root: Seq<char>, config: ConfigView, branch: Seq<char>) -> Seq<char> {
    path_join(path_join(root, config.worktree_dir_name), worktree_name(config.worktree_naming_pattern, branch))
}

pub open spec fn check_branch_step(s: StateView, branch: Seq<char>) -> (StateView, Seq<EffectView>) {
    match s.repo_root {
        None => error_state(s, no_root_message()),
        Some(r) => (
            with_status(s, StatusView::Busy("Checking branch `"@ + branch + "`..."@)),
            seq![EffectView::CheckBranch { repo_root: r, branch }],
        ),
    }
}

pub open spec fn create_worktree_step(s: StateView, branch: Seq<char>, exists: bool) -> (StateView, Seq<EffectView>)
    recommends
        s.repo_root is Some,
{
    let r = s.repo_root->0;
    let path = worktree_path_spec(r, s.config, branch);
    (
        with_status(s, StatusView::Busy("Creating worktree `"@ + path + "`..."@)),
        seq![
            if exists {
                EffectView::CreateWorktreeExisting { repo_root: r, branch, path }
            } else {
                EffectView::CreateWorktree { repo_root: r, branch, path, base_branch: s.config.base_branch }
            },
        ],
    )
}

pub open spec fn session_for_worktree_step(s: StateView, branch: Seq<char>, path: Seq<char>, session: Seq<char>) -> (StateView, Seq<EffectView>) {
    (
        with_status(s, StatusView::Busy("Creating session `"@ + session + "` in `"@ + path + "`..."@)),
        seq![EffectView::CreateSession { branch, path, session }],
    )
}

/// The first entry whose live session is `live`.
pub open spec fn live_position(sessions: Seq<EntryView>, live: Seq<char>, from: int) -> Option<nat>
    decreases sessions.len() - from,
{
    if from < 0 || from >= sessions.len() {
        None
    } else if sessions[from].live_session_name == Some(live) {
        Some(from as nat)
    } else {
        live_position(sessions, live, from + 1)
    }
}

/// The selection chosen for a rebuilt list is selectable.
pub proof fn lemma_selection_for(s: Seq<EntryView>, previous: Option<Seq<char>>)
    ensures
        selectable(s, selection_for(s, previous)),
{
    lemma_first_selectable(s, 0);
    if let Some(p) = previous {
        lemma_keyed(s, p, 0);
    }
}

/// The position found for a live session holds that live session.
pub proof fn lemma_live_position(s: Seq<EntryView>, live: Seq<char>, from: int)
    ensures
        live_position(s, live, from) matches Some(k) ==> from <= k < s.len() && s[k as int].live_session_name
            == Some(live),
    decreases s.len() - from,
{
    if from >= 0 && from < s.len() && s[from].live_session_name != Some(live) {
        lemma_live_position(s, live, from + 1);
    }
}

/// Selects the entry of session `live`, or adds one for it and selects that.
pub open spec fn add_or_select(s: StateView, branch: Seq<char>, path: Seq<char>, session: Seq<char>, live: Seq<char>) -> StateView {
    match live_position(s.sessions, live, 0) {
        Some(i) => StateView {
            selected: if s.sessions[i as int].is_current {
                first_selectable_from(s.sessions, 0)
            } else {
                Some(i)
            },
            ..s
        },
        None => StateView {
            sessions: s.sessions.push(
                EntryView {
                    branch,
                    path: Some(path),
                    session_name: session,
                    live_session_name: Some(live),
                    has_live_session: true,
                    is_current: false,
                },
            ),
            selected: Some(s.sessions.len()),
            ..s
        },
    }
}

pub open spec fn create_or_switch_step(s: StateView, branch: Seq<char>) -> (StateView, Seq<EffectView>)
    recommends
        s.repo_root is Some,
{
    let path = worktree_path_spec(s.repo_root->0, s.config, branch);
    let siblings = siblings_with(s.known, branch);
    let session = session_name_spec(s.repo_name, branch, siblings, false);
    match matching_live_spec(s.repo_name, branch, s.config.session_prefix, siblings, false, s.live) {
        Some(l) => (
            with_status(
                add_or_select(s, branch, path, session, l),
                StatusView::Success("Created worktree `"@ + path + "`. Switching to session `"@ + l + "`..."@),
            ),
            seq![EffectView::RegisterSession { session: l }, EffectView::SwitchSession { session: l }],
        ),
        None => session_for_worktree_step(s, branch, path, session),
    }
}

pub open spec fn refresh_step(s: StateView) -> (StateView, Seq<EffectView>) {
    match s.repo_root {
        None => error_state(s, no_root_message()),
        Some(r) => (
            with_status(s, StatusView::Busy("Loading worktree sessions..."@)),
            seq![EffectView::ListWorktrees { repo_root: r }],
        ),
    }
}

/// The configuration is settled: the repository file was read (or was missing).
pub open spec fn config_settled_step(s: StateView, config: ConfigView) -> (StateView, Seq<EffectView>) {
    refresh_step(StateView { config, config_loaded: true, ..s })
}

/// The worktree to delete along with a deleted session: the path of the first entry whose
/// live session it was, unless that entry is the current one or the repository itself.
pub open spec fn deleted_session_worktree(s: StateView, session: Seq<char>) -> Option<Seq<char>> {
    match live_position(s.sessions, session, 0) {
        Some(i) => {
            let e = s.sessions[i as int];
            let is_root = match (s.repo_root, e.path) {
                (None, None) => true,
                (Some(a), Some(b)) => same_path_spec(a, b),
                _ => false,
            };
            if e.is_current || is_root {
                None
            } else {
                e.path
            }
        },
        None => None,
    }
}

/// The known worktrees other than the one at `path`.
pub open spec fn worktrees_without(known: Seq<LocationView>, path: Seq<char>) -> Seq<LocationView>
    decreases known.len(),
{
    if known.len() == 0 {
        seq![]
    } else if same_path_spec(known.last().path, path) {
        worktrees_without(known.drop_last(), path)
    } else {
        worktrees_without(known.drop_last(), path).push(known.last())
    }
}

/// Whether a deletion is under way, which makes results of worktree creation stale.
pub open spec fn is_pending(s: StateView) -> bool {
    s.pending is Some
}

pub open spec fn discover_result_step(s: StateView, exit_ok: bool, out: Seq<char>, err: Seq<char>) -> (StateView, Seq<EffectView>) {
    if exit_ok {
        match repo_roots(out) {
            None => error_state(s, "Could not determine git repository root."@),
            Some((current, root)) => (
                StateView {
                    repo_name: file_name_of(root),
                    current_worktree_root: Some(current),
                    repo_root: Some(root),
                    status: StatusView::Busy("Loading repository configuration..."@),
                    ..s
                },
                seq![EffectView::LoadRepoConfig { repo_root: root }],
            ),
        }
    } else {
        error_state(s, error_message("Failed to discover repository root."@, err))
    }
}

pub open spec fn load_config_result_step(s: StateView, exit_ok: bool, out: Seq<char>) -> (StateView, Seq<EffectView>) {
    if exit_ok && trim(out).len() > 0 {
        (s, seq![EffectView::ParseRepoConfig { text: out }])
    } else {
        config_settled_step(s, s.kdl_config)
    }
}

pub open spec fn fetch_result_step(s: StateView, exit_ok: bool, err: Seq<char>, branch: Seq<char>) -> (StateView, Seq<EffectView>) {
    if is_pending(s) {
        (s, seq![])
    } else if exit_ok {
        check_branch_step(s, branch)
    } else {
        error_state(s, error_message("Failed to fetch from remote."@, err))
    }
}

pub open spec fn check_result_step(s: StateView, exit_ok: bool, branch: Seq<char>) -> (StateView, Seq<EffectView>) {
    if is_pending(s) {
        (s, seq![])
    } else {
        create_worktree_step(s, branch, exit_ok)
    }
}

pub open spec fn worktree_result_step(s: StateView, exit_ok: bool, err: Seq<char>, branch: Seq<char>) -> (StateView, Seq<EffectView>) {
    if is_pending(s) {
        (s, seq![])
    } else if exit_ok {
        create_or_switch_step(s, branch)
    } else {
        error_state(s, error_message("Failed to create worktree."@, err))
    }
}

pub open spec fn session_result_step(
    s: StateView,
    exit_ok: bool,
    err: Seq<char>,
    branch: Seq<char>,
    path: Seq<char>,
    session: Seq<char>,
) -> (StateView, Seq<EffectView>) {
    if is_pending(s) {
        (rebuilt(with_status(s, StatusView::Ready), selected_key(s)), seq![])
    } else if exit_ok {
        let live = if s.live.contains(session) { s.live } else { s.live.push(session) };
        (
            with_status(
                add_or_select(StateView { live, ..s }, branch, path, session, session),
                StatusView::Success("Created session `"@ + session + "` for worktree `"@ + path + "`. Switching..."@),
            ),
            seq![EffectView::RegisterSession { session }, EffectView::SwitchSession { session }],
        )
    } else {
        error_state(s, error_message("Failed to create session."@, err))
    }
}

pub open spec fn list_result_step(s: StateView, exit_ok: bool, out: Seq<char>, err: Seq<char>) -> (StateView, Seq<EffectView>) {
    if exit_ok {
        (
            with_status(
                rebuilt(StateView { known: worktree_locations(out, s.current_worktree_root), ..s }, selected_key(s)),
                StatusView::Ready,
            ),
            seq![],
        )
    } else {
        error_state(s, error_message("Failed to load worktree sessions."@, err))
    }
}

pub open spec fn delete_session_result_step(s: StateView, exit_ok: bool, err: Seq<char>, session: Seq<char>) -> (StateView, Seq<EffectView>) {
    if exit_ok {
        let target = deleted_session_worktree(s, session);
        let s1 = StateView { live: all_but(s.live, session), ..s };
        match (s.repo_root, target) {
            (Some(r), Some(p)) => (
                StateView {
                    pending: Some(PendingView { session_name: Some(session), worktree_path: Some(p) }),
                    status: StatusView::Busy("Deleting session `"@ + session + "` and worktree `"@ + p + "`..."@),
                    ..s1
                },
                seq![EffectView::UnregisterSession { session }, EffectView::DeleteWorktree { repo_root: r, path: p }],
            ),
            _ => (
                with_status(
                    rebuilt(
                        StateView { pending: Some(PendingView { session_name: Some(session), worktree_path: None }), ..s1 },
                        selected_key(s),
                    ),
                    StatusView::Ready,
                ),
                seq![EffectView::UnregisterSession { session }],
            ),
        }
    } else {
        error_state(StateView { pending: None, ..s }, error_message("Failed to delete session."@, err))
    }
}

pub open spec fn delete_worktree_result_step(s: StateView, exit_ok: bool, err: Seq<char>, path: Seq<char>) -> (StateView, Seq<EffectView>) {
    if exit_ok {
        (
            StateView {
                status: StatusView::Ready,
                pending: Some(PendingView { session_name: None, worktree_path: Some(path) }),
                ..rebuilt(StateView { known: worktrees_without(s.known, path), ..s }, selected_key(s))
            },
            seq![],
        )
    } else {
        error_state(StateView { pending: None, ..s }, error_message("Failed to delete worktree."@, err))
    }
}

/// What a finished command does to the state.
pub open spec fn command_result_step(
    s: StateView,
    exit_ok: bool,
    out: Seq<char>,
    err: Seq<char>,
    action: Option<ActionView>,
) -> (StateView, Seq<EffectView>) {
    match action {
        None => (s, seq![]),
        Some(ActionView::DiscoverRepo) => discover_result_step(s, exit_ok, out, err),
        Some(ActionView::LoadRepoConfig) => load_config_result_step(s, exit_ok, out),
        Some(ActionView::FetchRemote { branch }) => fetch_result_step(s, exit_ok, err, branch),
        Some(ActionView::CheckBranch { branch }) => check_result_step(s, exit_ok, branch),
        Some(ActionView::CreateWorktree { branch }) => worktree_result_step(s, exit_ok, err, branch),
        Some(ActionView::CreateSession { branch, path, session }) => session_result_step(s, exit_ok, err, branch, path, session),
        Some(ActionView::ListWorktrees) => list_result_step(s, exit_ok, out, err),
        Some(ActionView::DeleteSession { session }) => delete_session_result_step(s, exit_ok, err, session),
        Some(ActionView::DeleteWorktree { path }) => delete_worktree_result_step(s, exit_ok, err, path),
    }
}

/// Where a command result would need the repository root that the state lacks (the
/// original stops there).
pub open spec fn result_needs_root(s: StateView, exit_ok: bool, action: Option<ActionView>) -> bool {
    match action {
        Some(ActionView::CheckBranch { .. }) => !is_pending(s),
        Some(ActionView::CreateWorktree { .. }) => !is_pending(s) && exit_ok,
        _ => false,
    }
}

/// The rest of reading `.treemin.toml`, once its text was parsed: every setting the file
/// gives applied over the KDL settings, or the parse error.
pub open spec fn repo_config_step(s: StateView, parsed: Result<RepoConfig, String>) -> (StateView, Seq<EffectView>) {
    match parsed {
        Ok(rc) => config_settled_step(s, applied(s.kdl_config, rc)),
        Err(m) => (StateView { status: StatusView::Error(m@), config_loaded: true, ..s }, seq![]),
    }
}

/// The answer to the permission request; `sessions` is the live session list, where the
/// host could give it.
pub open spec fn permission_step(s: StateView, granted: bool, sessions: Option<Seq<Seq<char>>>) -> (StateView, Seq<EffectView>) {
    if granted {
        let s1 = StateView { permissions_granted: true, ..s };
        let s2 = match sessions {
            Some(names) => rebuilt(StateView { live: names, ..s1 }, selected_key(s1)),
            None => s1,
        };
        (with_status(s2, StatusView::Busy("Discovering repository root..."@)), seq![EffectView::DiscoverRepo])
    } else {
        error_state(
            StateView { permissions_granted: false, ..s },
            "Permission request was denied. Reload the plugin and grant access."@,
        )
    }
}

pub open spec fn no_selection_message() -> Seq<char> {
    "No selectable worktree sessions found for this repository."@
}

pub open spec fn no_sessions_message() -> Seq<char> {
    "No worktree sessions found for this repository."@
}

/// Enter with an empty branch input: go to the selected entry's session, creating it when
/// it is not live.
pub open spec fn switch_selected_step(s: StateView) -> (StateView, Seq<EffectView>) {
    match s.selected {
        None => error_state(s, no_selection_message()),
        Some(i) => if i >= s.sessions.len() {
            error_state(s, no_sessions_message())
        } else {
            let e = s.sessions[i as int];
            if !e.has_live_session {
                match e.path {
                    None => error_state(s, "No worktree path was found for `"@ + e.branch + "`."@),
                    Some(p) => session_for_worktree_step(s, e.branch, p, e.session_name),
                }
            } else {
                match e.live_session_name {
                    None => error_state(s, "No live Zellij session match was found for `"@ + e.branch + "`."@),
                    Some(l) => (
                        with_status(s, StatusView::Success("Switching to live session `"@ + l + "`..."@)),
                        seq![EffectView::SwitchSession { session: l }],
                    ),
                }
            }
        },
    }
}

/// Enter with a branch typed: validate it, then fetch first or check the branch.
pub open spec fn begin_create_step(s: StateView) -> (StateView, Seq<EffectView>) {
    let branch = trim(s.branch_input);
    match s.repo_root {
        None => error_state(s, no_root_message()),
        Some(r) => if !s.config_loaded {
            error_state(s, "Configuration is still loading."@)
        } else if branch.len() == 0 {
            error_state(s, "Enter a branch name first."@)
        } else {
            match branch_problem(branch) {
                Some(m) => error_state(s, m),
                None => if s.config.auto_fetch {
                    (
                        with_status(s, StatusView::Busy("Fetching from remote `"@ + s.config.remote + "`..."@)),
                        seq![EffectView::FetchRemote { repo_root: r, remote: s.config.remote, branch }],
                    )
                } else {
                    check_branch_step(s, branch)
                },
            }
        },
    }
}

/// Ctrl-d on the selected entry (the first one when none is selected): delete its live
/// session, or its worktree when it has no live session; never the current entry nor the
/// repository's own worktree.
pub open spec fn delete_selected_step(s: StateView) -> (StateView, Seq<EffectView>) {
    let i: nat = match s.selected {
        None => 0,
        Some(i) => i,
    };
    if i >= s.sessions.len() {
        error_state(s, no_sessions_message())
    } else {
        let e = s.sessions[i as int];
        if e.is_current {
            error_state(s, "Cannot delete the current session from inside itself."@)
        } else {
            match s.repo_root {
                None => error_state(s, no_root_message()),
                Some(r) => if !e.has_live_session {
                    match e.path {
                        None => error_state(s, "No worktree path was found for `"@ + e.branch + "`."@),
                        Some(p) => if same_path_spec(r, p) {
                            error_state(s, "Cannot delete the main repository worktree from treemin."@)
                        } else {
                            (
                                StateView {
                                    pending: Some(PendingView { session_name: None, worktree_path: Some(p) }),
                                    status: StatusView::Busy("Deleting worktree `"@ + p + "`..."@),
                                    ..s
                                },
                                seq![EffectView::DeleteWorktree { repo_root: r, path: p }],
                            )
                        },
                    }
                } else {
                    match e.live_session_name {
                        None => error_state(s, "No live Zellij session match was found for `"@ + e.branch + "`."@),
                        Some(l) => (
                            StateView {
                                pending: Some(PendingView { session_name: Some(l), worktree_path: None }),
                                status: StatusView::Busy("Deleting session `"@ + l + "`..."@),
                                ..s
                            },
                            seq![EffectView::DeleteSession { repo_root: r, session: l }],
                        ),
                    }
                },
            }
        }
    }
}

/// Up or Down: move the selection to the previous or next selectable entry.
pub open spec fn move_selection_step(s: StateView, up: bool) -> StateView {
    if s.sessions.len() == 0 {
        with_status(s, StatusView::Error(no_sessions_message()))
    } else {
        match s.selected {
            None => with_status(s, StatusView::Ready),
            Some(i) => {
                let next = if up { previous_selection(s.sessions, i) } else { next_selection(s.sessions, i) };
                StateView {
                    selected: if next is Some { next } else { s.selected },
                    status: StatusView::Ready,
                    ..s
                }
            },
        }
    }
}

pub open spec fn is_busy(s: StateView) -> bool {
    s.status is Busy
}

/// Ctrl+D: typed text is cleared first; with nothing typed, the selected session is
/// deleted.
pub open spec fn begin_delete_step(s: StateView) -> (StateView, Seq<EffectView>) {
    if s.branch_input.len() > 0 {
        (StateView { branch_input: seq![], status: StatusView::Ready, ..s }, seq![])
    } else {
        delete_selected_step(s)
    }
}

/// What a key does: the next state, the effects, and whether to render again.
pub open spec fn key_step(s: StateView, key: KeyInput) -> (StateView, Seq<EffectView>, bool) {
    if !s.permissions_granted {
        (s, seq![], false)
    } else {
        match key.bare_key {
            BareKey::Enter => if is_busy(s) {
                (s, seq![], false)
            } else {
                let s1 = StateView { pending: None, ..s };
                let r = if trim(s1.branch_input).len() == 0 { switch_selected_step(s1) } else { begin_create_step(s1) };
                (r.0, r.1, true)
            },
            BareKey::Up => if is_busy(s) { (s, seq![], false) } else { (move_selection_step(s, true), seq![], true) },
            BareKey::Down => if is_busy(s) { (s, seq![], false) } else { (move_selection_step(s, false), seq![], true) },
            BareKey::Backspace => if is_busy(s) {
                (s, seq![], false)
            } else {
                let input = if s.branch_input.len() > 0 { s.branch_input.drop_last() } else { s.branch_input };
                (StateView { branch_input: input, status: StatusView::Ready, ..s }, seq![], true)
            },
            BareKey::Char(c) => if c == 'd' && key.ctrl {
                if is_busy(s) {
                    (s, seq![], false)
                } else {
                    let r = begin_delete_step(s);
                    (r.0, r.1, true)
                }
            } else if c == 'h' && key.ctrl {
                (StateView { show_help: !s.show_help, ..s }, seq![], true)
            } else if is_busy(s) {
                (s, seq![], false)
            } else if key.no_modifiers && !is_control(c) {
                (StateView { branch_input: s.branch_input.push(c), status: StatusView::Ready, ..s }, seq![], true)
            } else {
                (s, seq![], false)
            },
            BareKey::Esc => if is_busy(s) {
                (s, seq![], false)
            } else if s.branch_input.len() == 0 {
                (s, seq![EffectView::HideSelf], false)
            } else {
                (StateView { branch_input: seq![], status: StatusView::Ready, ..s }, seq![], true)
            },
            BareKey::Other => (s, seq![], false),
        }
    }
}

/// The state right after loading, given the KDL configuration.
pub open spec fn loaded_state(s: StateView, m: Map<Seq<char>, Seq<char>>) -> StateView {
    StateView {
        kdl_config: kdl_config(m),
        config: kdl_config(m),
        config_loaded: false,
        status: StatusView::Loading,
        ..s
    }
}


// ---------------------------------------------------------------------------
// The transitions, carried out
// ---------------------------------------------------------------------------
fn text3(a: &str, b: &str, c: &str) -> (res: String)
    ensures
        res@ == a@ + b@ + c@,
{
    let mut out = chars_of(a);
    extend_chars(&mut out, &chars_of(b));
    extend_chars(&mut out, &chars_of(c));
    string_of(&out)
}

fn text5(a: &str, b: &str, c: &str, d: &str, e: &str) -> (res: String)
    ensures
        res@ == a@ + b@ + c@ + d@ + e@,
{
    let mut out = chars_of(a);
    extend_chars(&mut out, &chars_of(b));
    extend_chars(&mut out, &chars_of(c));
    extend_chars(&mut out, &chars_of(d));
    extend_chars(&mut out, &chars_of(e));
    string_of(&out)
}

fn opt_str(o: &Option<String>) -> (res: Option<&str>)
    ensures
        match res { Some(r) => Some(r@), None => None::<Seq<char>> } == opt_view(*o),
{
    match o {
        Some(s) => Some(s.as_str()),
        None => None,
    }
}

impl State {
    /// The state before anything was loaded.
    pub fn default() -> (res: State)
        ensures
            res@.config == default_config(),
            res@.kdl_config == default_config(),
            !res@.permissions_granted,
            res@.repo_root is None,
            res@.current_worktree_root is None,
            res@.repo_name is None,
            res@.branch_input.len() == 0,
            res@.known.len() == 0,
            res@.sessions.len() == 0,
            res@.live.len() == 0,
            res@.selected is None,
            res@.status == StatusView::Loading,
            !res@.config_loaded,
            !res@.show_help,
            res@.pending is None,
    {
        State {
            config: Config::default(),
            kdl_config: Config::default(),
            permissions_granted: false,
            repo_root: None,
            current_worktree_root: None,
            repo_name: None,
            branch_input: String::new(),
            known_worktrees: Vec::new(),
            worktree_sessions: Vec::new(),
            live_session_names: Vec::new(),
            selected_index: None,
            status: Status::Loading,
            config_loaded: false,
            show_help: false,
            pending_delete: None,
        }
    }

    /// Takes the KDL configuration that the plugin was loaded with.
    pub fn load(&mut self, configuration: BTreeMap<String, String>)
        ensures
            final(self)@ == loaded_state(old(self)@, configuration.deep_view()),
    {
        self.kdl_config = Config::from_kdl(configuration);
        self.config = self.kdl_config.duplicate();
        self.config_loaded = false;
        self.status = Status::Loading;
    }

    fn selected_session_key(&self) -> (res: Option<String>)
        ensures
            opt_view(res) == selected_key(self@),
    {
        match self.selected_index {
            Some(i) => if i < self.worktree_sessions.len() {
                Some(session_selection_key(&self.worktree_sessions[i]))
            } else {
                None
            },
            None => None,
        }
    }

    fn rebuild_worktree_sessions_with_selection(&mut self, previous_selection: Option<String>)
        ensures
            final(self)@ == rebuilt(old(self)@, opt_view(previous_selection)),
    {
        let sessions = build_worktree_sessions(
            opt_str(&self.repo_root),
            opt_str(&self.repo_name),
            &self.config,
            &self.known_worktrees,
            &self.live_session_names,
        );
        let prev = opt_str(&previous_selection);
        let selected = selected_index_for_sessions(&sessions, prev);
        let n = sessions.len();
        proof {
            assert(entry_views(sessions@).len() == n);
            match selection_for(entry_views(sessions@), opt_view(previous_selection)) {
                Some(k) => {
                    lemma_selection_for(entry_views(sessions@), opt_view(previous_selection));
                    assert(k < n);
                },
                None => {},
            }
            let sv = entry_views(sessions@);
            lemma_selection_for(sv, opt_view(previous_selection));
            assert(sv.len() == sessions@.len());
            let ps = match prev { Some(p) => Some(p@), None => None::<Seq<char>> };
            assert(ps == opt_view(previous_selection));
            assert(opt_usize(selected) == selection_for(sv, opt_view(previous_selection)));
        }
        self.worktree_sessions = sessions;
        self.selected_index = selected;
    }

    fn check_branch(&mut self, branch: String) -> (res: Vec<Effect>)
        ensures
            final(self)@ == check_branch_step(old(self)@, branch@).0,
            effect_views(res@) == check_branch_step(old(self)@, branch@).1,
    {
        match &self.repo_root {
            None => {
                self.status = Status::Error(String::from_str("Repository root is not available yet."));
                Vec::new()
            },
            Some(r) => {
                let repo_root = r.clone();
                self.status = Status::Busy(text3("Checking branch `", branch.as_str(), "`..."));
                let mut effects: Vec<Effect> = Vec::new();
                effects.push(Effect::CheckBranch { repo_root, branch });
                assert(effect_views(effects@) =~= check_branch_step(old(self)@, branch@).1);
                effects
            },
        }
    }

    fn create_worktree(&mut self, branch: String, branch_exists: bool) -> (res: Vec<Effect>)
        requires
            old(self)@.repo_root is Some,
        ensures
            final(self)@ == create_worktree_step(old(self)@, branch@, branch_exists).0,
            effect_views(res@) == create_worktree_step(old(self)@, branch@, branch_exists).1,
    {
        let repo_root = match &self.repo_root {
            Some(r) => r.clone(),
            None => String::new(),
        };
        let path = worktree_path(repo_root.as_str(), &self.config, branch.as_str());
        self.status = Status::Busy(text3("Creating worktree `", path.as_str(), "`..."));
        let effect = if branch_exists {
            Effect::CreateWorktreeExisting { repo_root, branch, path }
        } else {
            Effect::CreateWorktree { repo_root, branch, path, base_branch: self.config.base_branch.clone() }
        };
        let mut effects: Vec<Effect> = Vec::new();
        effects.push(effect);
        assert(effect_views(effects@) =~= create_worktree_step(old(self)@, branch@, branch_exists).1);
        effects
    }

    fn create_session_for_worktree(&mut self, branch: String, path: String, session: String) -> (res: Vec<Effect>)
        ensures
            final(self)@ == session_for_worktree_step(old(self)@, branch@, path@, session@).0,
            effect_views(res@) == session_for_worktree_step(old(self)@, branch@, path@, session@).1,
    {
        self.status = Status::Busy(text5("Creating session `", session.as_str(), "` in `", path.as_str(), "`..."));
        let mut effects: Vec<Effect> = Vec::new();
        effects.push(Effect::CreateSession { branch, path, session });
        assert(effect_views(effects@) =~= session_for_worktree_step(old(self)@, branch@, path@, session@).1);
        effects
    }

    fn live_position(&self, live: &str) -> (res: Option<usize>)
        ensures
            opt_usize(res) == live_position(self@.sessions, live@, 0),
    {
        let ghost s = self@.sessions;
        let mut i: usize = 0;
        while i < self.worktree_sessions.len()
            invariant
                i <= self.worktree_sessions@.len(),
                s == self@.sessions,
                live_position(s, live@, 0) == live_position(s, live@, i as int),
            decreases self.worktree_sessions@.len() - i,
        {
            assert(s[i as int] == self.worktree_sessions@[i as int]@);
            let matches = match &self.worktree_sessions[i].live_session_name {
                Some(l) => str_eq(l.as_str(), live),
                None => false,
            };
            if matches {
                return Some(i);
            }
            i = i + 1;
        }
        None
    }

    fn add_or_select_worktree_session(&mut self, branch: &str, path: &str, session: &str, live: &str)
        ensures
            final(self)@ == add_or_select(old(self)@, branch@, path@, session@, live@),
    {
        let n = self.worktree_sessions.len();
        proof {
            lemma_live_position(self@.sessions, live@, 0);
            lemma_first_selectable(self@.sessions, 0);
            assert(self@.sessions.len() == n);
        }
        match self.live_position(live) {
            Some(i) => {
                assert(self.worktree_sessions@[i as int]@ == self@.sessions[i as int]);
                if self.worktree_sessions[i].is_current {
                    let first = first_selectable_index(&self.worktree_sessions);
                    proof {
                        match first_selectable_from(self@.sessions, 0) {
                            Some(k) => assert(k < n),
                            None => {},
                        }
                    }
                    self.selected_index = first;
                } else {
                    self.selected_index = Some(i);
                }
            },
            None => {
                let ghost before = self.worktree_sessions@;
                let entry = WorktreeSessionEntry {
                    branch: String::from_str(branch),
                    path: Some(String::from_str(path)),
                    session_name: String::from_str(session),
                    live_session_name: Some(String::from_str(live)),
                    has_live_session: true,
                    is_current: false,
                };
                let ghost ev = entry@;
                self.worktree_sessions.push(entry);
                assert(entry_views(self.worktree_sessions@) =~= entry_views(before).push(ev));
                self.selected_index = Some(self.worktree_sessions.len() - 1);
            },
        }
    }

    fn siblings_with(&self, extra: &str) -> (res: Vec<String>)
        ensures
            res@.map_values(|b: String| b@) == siblings_with(self@.known, extra@),
    {
        let mut branches = crate::treemin::sessions::branches(&self.known_worktrees);
        if chars_of(extra).len() > 0 {
            let ghost before = branches@;
            branches.push(String::from_str(extra));
            assert(branches@.map_values(|b: String| b@) =~= before.map_values(|b: String| b@).push(extra@));
        }
        branches
    }

    pub fn create_or_switch_worktree_session(&mut self, branch: &str) -> (res: Vec<Effect>)
        requires
            old(self)@.repo_root is Some,
        ensures
            final(self)@ == create_or_switch_step(old(self)@, branch@).0,
            effect_views(res@) == create_or_switch_step(old(self)@, branch@).1,
    {
        let repo_root = match &self.repo_root {
            Some(r) => r.clone(),
            None => String::new(),
        };
        let path = worktree_path(repo_root.as_str(), &self.config, branch);
        let siblings = self.siblings_with(branch);
        let session = session_name(opt_str(&self.repo_name), branch, &siblings, false);
        let matched = matching_worktree_live_session_name(
            opt_str(&self.repo_name),
            branch,
            &self.config,
            &siblings,
            false,
            &self.live_session_names,
        );
        match matched {
            Some(live) => {
                self.add_or_select_worktree_session(branch, path.as_str(), session.as_str(), live.as_str());
                self.status = Status::Success(text5(
                    "Created worktree `",
                    path.as_str(),
                    "`. Switching to session `",
                    live.as_str(),
                    "`...",
                ));
                let mut effects: Vec<Effect> = Vec::new();
                effects.push(Effect::RegisterSession { session: live.clone() });
                effects.push(Effect::SwitchSession { session: live });
                assert(effect_views(effects@) =~= create_or_switch_step(old(self)@, branch@).1);
                effects
            },
            None => self.create_session_for_worktree(String::from_str(branch), path, session),
        }
    }

    fn refresh_worktree_sessions(&mut self) -> (res: Vec<Effect>)
        ensures
            final(self)@ == refresh_step(old(self)@).0,
            effect_views(res@) == refresh_step(old(self)@).1,
    {
        match &self.repo_root {
            None => {
                self.status = Status::Error(String::from_str("Repository root is not available yet."));
                Vec::new()
            },
            Some(r) => {
                let repo_root = r.clone();
                self.status = Status::Busy(String::from_str("Loading worktree sessions..."));
                let mut effects: Vec<Effect> = Vec::new();
                effects.push(Effect::ListWorktrees { repo_root });
                assert(effect_views(effects@) =~= refresh_step(old(self)@).1);
                effects
            },
        }
    }

    /// The configuration is settled: `config` holds, and the worktrees are listed next.
    fn config_settled(&mut self, config: Config) -> (res: Vec<Effect>)
        ensures
            final(self)@ == config_settled_step(old(self)@, config@).0,
            effect_views(res@) == config_settled_step(old(self)@, config@).1,
    {
        self.config = config;
        self.config_loaded = true;
        self.refresh_worktree_sessions()
    }

    /// Continues reading `.treemin.toml` once its text was parsed (see
    /// [`Effect::ParseRepoConfig`]).
    pub fn repo_config_parsed(&mut self, parsed: Result<RepoConfig, String>) -> (res: Vec<Effect>)
        ensures
            final(self)@ == repo_config_step(old(self)@, parsed).0,
            effect_views(res@) == repo_config_step(old(self)@, parsed).1,
    {
        match parsed {
            Ok(repo_config) => {
                let mut config = self.kdl_config.duplicate();
                config.merge(repo_config);
                self.config_settled(config)
            },
            Err(message) => {
                self.status = Status::Error(message);
                self.config_loaded = true;
                Vec::new()
            },
        }
    }

    /// The answer to the permission request; `live_sessions` is the live session list where
    /// the host could give it.
    pub fn permission_result(&mut self, granted: bool, live_sessions: Option<Vec<String>>) -> (res: Vec<Effect>)
        ensures
            final(self)@ == permission_step(
                old(self)@,
                granted,
                match live_sessions { Some(v) => Some(v@.map_values(|s: String| s@)), None => None },
            ).0,
            effect_views(res@) == permission_step(
                old(self)@,
                granted,
                match live_sessions { Some(v) => Some(v@.map_values(|s: String| s@)), None => None },
            ).1,
    {
        self.permissions_granted = granted;
        if granted {
            if let Some(names) = live_sessions {
                let previous = self.selected_session_key();
                self.live_session_names = names;
                self.rebuild_worktree_sessions_with_selection(previous);
            }
            self.status = Status::Busy(String::from_str("Discovering repository root..."));
            let mut effects: Vec<Effect> = Vec::new();
            effects.push(Effect::DiscoverRepo);
            assert(effect_views(effects@) =~= seq![EffectView::DiscoverRepo]);
            effects
        } else {
            self.status = Status::Error(
                String::from_str("Permission request was denied. Reload the plugin and grant access."),
            );
            Vec::new()
        }
    }

    /// What a finished command (its exit code, output and the context it was run with) does.
    /// Whether handing in this command result needs the repository root (the result of a
    /// branch check, or of a created worktree, outside a deletion); where the root is then
    /// missing, [`State::handle_run_command_result`] cannot be called.
    pub fn result_needs_repo_root(&self, exit_code: Option<i32>, context: &BTreeMap<String, String>) -> (res: bool)
        ensures
            res == result_needs_root(self@, exit_code == Some(0i32), parsed_action(context.deep_view())),
    {
        let pending = self.pending_delete.is_some();
        match parse_action(context) {
            Some(CommandAction::CheckBranch { .. }) => !pending,
            Some(CommandAction::CreateWorktree { .. }) => !pending && exit_code == Some(0i32),
            _ => false,
        }
    }

    pub fn handle_run_command_result(
        &mut self,
        exit_code: Option<i32>,
        stdout: &[u8],
        stderr: &[u8],
        context: &BTreeMap<String, String>,
    ) -> (res: Vec<Effect>)
        requires
            result_needs_root(old(self)@, exit_code == Some(0i32), parsed_action(context.deep_view()))
                ==> old(self)@.repo_root is Some,
        ensures
            final(self)@ == command_result_step(
                old(self)@,
                exit_code == Some(0i32),
                lossy_text(stdout@),
                lossy_text(stderr@),
                parsed_action(context.deep_view()),
            ).0,
            effect_views(res@) == command_result_step(
                old(self)@,
                exit_code == Some(0i32),
                lossy_text(stdout@),
                lossy_text(stderr@),
                parsed_action(context.deep_view()),
            ).1,
    {
        let action = match parse_action(context) {
            Some(a) => a,
            None => {
                return Vec::new();
            },
        };
        let exit_ok = match exit_code {
            Some(code) => code == 0,
            None => false,
        };
        match action {
            CommandAction::DiscoverRepo => self.on_discover_repo(exit_ok, stdout, stderr),
            CommandAction::LoadRepoConfig => self.on_load_repo_config(exit_ok, stdout),
            CommandAction::FetchRemote { branch } => self.on_fetch_remote(exit_ok, stderr, branch),
            CommandAction::CheckBranch { branch } => {
                if self.pending_delete.is_some() {
                    Vec::new()
                } else {
                    self.create_worktree(branch, exit_ok)
                }
            },
            CommandAction::CreateWorktree { branch } => self.on_create_worktree(exit_ok, stderr, branch),
            CommandAction::CreateSession { branch, path, session } => self.on_create_session(exit_ok, stderr, branch, path, session),
            CommandAction::ListWorktrees => self.on_list_worktrees(exit_ok, stdout, stderr),
            CommandAction::DeleteSession { session } => self.on_delete_session(exit_ok, stderr, session),
            CommandAction::DeleteWorktree { path } => self.on_delete_worktree(exit_ok, stderr, path),
        }
    }

    fn on_discover_repo(&mut self, exit_ok: bool, stdout: &[u8], stderr: &[u8]) -> (res: Vec<Effect>)
        ensures
            final(self)@ == discover_result_step(old(self)@, exit_ok, lossy_text(stdout@), lossy_text(stderr@)).0,
            effect_views(res@) == discover_result_step(old(self)@, exit_ok, lossy_text(stdout@), lossy_text(stderr@)).1,
    {
        if !exit_ok {
            self.status = Status::Error(command_error("Failed to discover repository root.", stderr));
            return Vec::new();
        }
        let output = utf8_lossy(stdout);
        match parse_repo_roots(output.as_str()) {
            None => {
                self.status = Status::Error(String::from_str("Could not determine git repository root."));
                Vec::new()
            },
            Some((current, root)) => {
                self.repo_name = file_name(root.as_str());
                self.current_worktree_root = Some(current);
                self.repo_root = Some(root.clone());
                self.status = Status::Busy(String::from_str("Loading repository configuration..."));
                let mut effects: Vec<Effect> = Vec::new();
                effects.push(Effect::LoadRepoConfig { repo_root: root });
                assert(effect_views(effects@) =~= discover_result_step(old(self)@, exit_ok, lossy_text(stdout@), lossy_text(stderr@)).1);
                effects
            },
        }
    }

    fn on_load_repo_config(&mut self, exit_ok: bool, stdout: &[u8]) -> (res: Vec<Effect>)
        ensures
            final(self)@ == load_config_result_step(old(self)@, exit_ok, lossy_text(stdout@)).0,
            effect_views(res@) == load_config_result_step(old(self)@, exit_ok, lossy_text(stdout@)).1,
    {
        if exit_ok {
            let text = utf8_lossy(stdout);
            if trim_exec(&chars_of(text.as_str())).len() > 0 {
                let mut effects: Vec<Effect> = Vec::new();
                let ghost tv = text@;
                effects.push(Effect::ParseRepoConfig { text });
                assert(effect_views(effects@) =~= seq![EffectView::ParseRepoConfig { text: tv }]);
                return effects;
            }
        }
        let config = self.kdl_config.duplicate();
        self.config_settled(config)
    }

    fn on_fetch_remote(&mut self, exit_ok: bool, stderr: &[u8], branch: String) -> (res: Vec<Effect>)
        ensures
            final(self)@ == fetch_result_step(old(self)@, exit_ok, lossy_text(stderr@), branch@).0,
            effect_views(res@) == fetch_result_step(old(self)@, exit_ok, lossy_text(stderr@), branch@).1,
    {
        if self.pending_delete.is_some() {
            Vec::new()
        } else if exit_ok {
            self.check_branch(branch)
        } else {
            self.status = Status::Error(command_error("Failed to fetch from remote.", stderr));
            Vec::new()
        }
    }

    fn on_create_worktree(&mut self, exit_ok: bool, stderr: &[u8], branch: String) -> (res: Vec<Effect>)
        requires
            !is_pending(old(self)@) && exit_ok ==> old(self)@.repo_root is Some,
        ensures
            final(self)@ == worktree_result_step(old(self)@, exit_ok, lossy_text(stderr@), branch@).0,
            effect_views(res@) == worktree_result_step(old(self)@, exit_ok, lossy_text(stderr@), branch@).1,
    {
        if self.pending_delete.is_some() {
            Vec::new()
        } else if exit_ok {
            self.create_or_switch_worktree_session(branch.as_str())
        } else {
            self.status = Status::Error(command_error("Failed to create worktree.", stderr));
            Vec::new()
        }
    }

    fn on_create_session(&mut self, exit_ok: bool, stderr: &[u8], branch: String, path: String, session: String) -> (res: Vec<Effect>)
        ensures
            final(self)@ == session_result_step(old(self)@, exit_ok, lossy_text(stderr@), branch@, path@, session@).0,
            effect_views(res@) == session_result_step(old(self)@, exit_ok, lossy_text(stderr@), branch@, path@, session@).1,
    {
        if self.pending_delete.is_some() {
            let previous = self.selected_session_key();
            self.status = Status::Ready;
            self.rebuild_worktree_sessions_with_selection(previous);
            return Vec::new();
        }
        if !exit_ok {
            self.status = Status::Error(command_error("Failed to create session.", stderr));
            return Vec::new();
        }
        if !crate::treemin::sessions::contains_string(&self.live_session_names, session.as_str()) {
            let ghost before = self.live_session_names@;
            self.live_session_names.push(session.clone());
            assert(self.live_session_names@.map_values(|x: String| x@) =~= before.map_values(|x: String| x@).push(
                session@,
            ));
        }
        self.add_or_select_worktree_session(branch.as_str(), path.as_str(), session.as_str(), session.as_str());
        self.status = Status::Success(text5("Created session `", session.as_str(), "` for worktree `", path.as_str(), "`. Switching..."));
        let mut effects: Vec<Effect> = Vec::new();
        let ghost sv = session@;
        effects.push(Effect::RegisterSession { session: session.clone() });
        effects.push(Effect::SwitchSession { session });
        assert(effect_views(effects@) =~= seq![EffectView::RegisterSession { session: sv }, EffectView::SwitchSession { session: sv }]);
        effects
    }

    fn on_list_worktrees(&mut self, exit_ok: bool, stdout: &[u8], stderr: &[u8]) -> (res: Vec<Effect>)
        ensures
            final(self)@ == list_result_step(old(self)@, exit_ok, lossy_text(stdout@), lossy_text(stderr@)).0,
            effect_views(res@) == list_result_step(old(self)@, exit_ok, lossy_text(stdout@), lossy_text(stderr@)).1,
    {
        if !exit_ok {
            self.status = Status::Error(command_error("Failed to load worktree sessions.", stderr));
            return Vec::new();
        }
        let previous = self.selected_session_key();
        let output = utf8_lossy(stdout);
        let known = parse_worktree_locations(output.as_str(), opt_str(&self.current_worktree_root));
        self.known_worktrees = known;
        self.rebuild_worktree_sessions_with_selection(previous);
        self.status = Status::Ready;
        Vec::new()
    }

    #[verifier::rlimit(40)]
    fn on_delete_session(&mut self, exit_ok: bool, stderr: &[u8], session: String) -> (res: Vec<Effect>)
        ensures
            final(self)@ == delete_session_result_step(old(self)@, exit_ok, lossy_text(stderr@), session@).0,
            effect_views(res@) == delete_session_result_step(old(self)@, exit_ok, lossy_text(stderr@), session@).1,
    {
        if !exit_ok {
            self.pending_delete = None;
            self.status = Status::Error(command_error("Failed to delete session.", stderr));
            return Vec::new();
        }
        let previous = self.selected_session_key();
        let target = self.deleted_session_worktree(session.as_str());
        self.remove_live_session(session.as_str());
        let mut effects: Vec<Effect> = Vec::new();
        let ghost sv = session@;
        effects.push(Effect::UnregisterSession { session: session.clone() });
        let root = self.repo_root.clone();
        match (root, target) {
            (Some(r), Some(p)) => {
                self.pending_delete = Some(PendingDelete { session_name: Some(session.clone()), worktree_path: Some(p.clone()) });
                self.status = Status::Busy(text5("Deleting session `", session.as_str(), "` and worktree `", p.as_str(), "`..."));
                let ghost rv = r@;
                let ghost pv = p@;
                effects.push(Effect::DeleteWorktree { repo_root: r, path: p });
                assert(effect_views(effects@) =~= seq![
                    EffectView::UnregisterSession { session: sv },
                    EffectView::DeleteWorktree { repo_root: rv, path: pv },
                ]);
            },
            _ => {
                self.pending_delete = Some(PendingDelete { session_name: Some(session), worktree_path: None });
                self.rebuild_worktree_sessions_with_selection(previous);
                self.status = Status::Ready;
                assert(effect_views(effects@) =~= seq![EffectView::UnregisterSession { session: sv }]);
            },
        }
        effects
    }

    fn on_delete_worktree(&mut self, exit_ok: bool, stderr: &[u8], path: String) -> (res: Vec<Effect>)
        ensures
            final(self)@ == delete_worktree_result_step(old(self)@, exit_ok, lossy_text(stderr@), path@).0,
            effect_views(res@) == delete_worktree_result_step(old(self)@, exit_ok, lossy_text(stderr@), path@).1,
    {
        if !exit_ok {
            self.pending_delete = None;
            self.status = Status::Error(command_error("Failed to delete worktree.", stderr));
            return Vec::new();
        }
        let previous = self.selected_session_key();
        self.remove_known_worktree(path.as_str());
        self.rebuild_worktree_sessions_with_selection(previous);
        self.status = Status::Ready;
        self.pending_delete = Some(PendingDelete { session_name: None, worktree_path: Some(path) });
        Vec::new()
    }

    fn deleted_session_worktree(&self, session: &str) -> (res: Option<String>)
        ensures
            opt_view(res) == deleted_session_worktree(self@, session@),
    {
        proof {
            lemma_live_position(self@.sessions, session@, 0);
        }
        match self.live_position(session) {
            None => None,
            Some(i) => {
                let e = &self.worktree_sessions[i];
                assert(e@ == self@.sessions[i as int]);
                let is_root = match (&self.repo_root, &e.path) {
                    (None, None) => true,
                    (Some(a), Some(b)) => same_path(a.as_str(), b.as_str()),
                    _ => false,
                };
                if e.is_current || is_root {
                    None
                } else {
                    e.path.clone()
                }
            },
        }
    }

    fn remove_live_session(&mut self, session: &str)
        ensures
            final(self)@ == (StateView { live: all_but(old(self)@.live, session@), ..old(self)@ }),
    {
        let ghost lv = self@.live;
        let mut kept: Vec<String> = Vec::new();
        let mut i: usize = 0;
        assert(lv.take(0) =~= Seq::<Seq<char>>::empty());
        assert(kept@.map_values(|x: String| x@) =~= Seq::<Seq<char>>::empty());
        while i < self.live_session_names.len()
            invariant
                i <= self.live_session_names@.len(),
                lv == self.live_session_names@.map_values(|x: String| x@),
                kept@.map_values(|x: String| x@) == all_but(lv.take(i as int), session@),
            decreases self.live_session_names@.len() - i,
        {
            assert(lv.take(i + 1).drop_last() == lv.take(i as int));
            assert(lv.take(i + 1).last() == self.live_session_names@[i as int]@);
            if !str_eq(self.live_session_names[i].as_str(), session) {
                let ghost before = kept@;
                let name = self.live_session_names[i].clone();
                kept.push(name);
                assert(kept@.map_values(|x: String| x@) =~= before.map_values(|x: String| x@).push(
                    self.live_session_names@[i as int]@,
                ));
            }
            i = i + 1;
        }
        assert(lv.take(lv.len() as int) == lv);
        self.live_session_names = kept;
    }

    fn remove_known_worktree(&mut self, path: &str)
        ensures
            final(self)@ == (StateView { known: worktrees_without(old(self)@.known, path@), ..old(self)@ }),
    {
        let ghost kv = self@.known;
        let mut kept: Vec<WorktreeLocation> = Vec::new();
        let mut i: usize = 0;
        assert(kv.take(0) =~= Seq::<LocationView>::empty());
        assert(location_views(kept@) =~= Seq::<LocationView>::empty());
        while i < self.known_worktrees.len()
            invariant
                i <= self.known_worktrees@.len(),
                kv == location_views(self.known_worktrees@),
                location_views(kept@) == worktrees_without(kv.take(i as int), path@),
            decreases self.known_worktrees@.len() - i,
        {
            assert(kv.take(i + 1).drop_last() == kv.take(i as int));
            assert(kv.take(i + 1).last() == self.known_worktrees@[i as int]@);
            if !same_path(self.known_worktrees[i].path.as_str(), path) {
                let ghost before = kept@;
                let w = WorktreeLocation {
                    branch: self.known_worktrees[i].branch.clone(),
                    path: self.known_worktrees[i].path.clone(),
                    is_current: self.known_worktrees[i].is_current,
                };
                kept.push(w);
                assert(location_views(kept@) =~= location_views(before).push(self.known_worktrees@[i as int]@));
            }
            i = i + 1;
        }
        assert(kv.take(kv.len() as int) == kv);
        self.known_worktrees = kept;
    }

    pub fn switch_selected_worktree_session(&mut self) -> (res: Vec<Effect>)
        ensures
            final(self)@ == switch_selected_step(old(self)@).0,
            effect_views(res@) == switch_selected_step(old(self)@).1,
    {
        let i = match self.selected_index {
            None => {
                self.status = Status::Error(String::from_str("No selectable worktree sessions found for this repository."));
                return Vec::new();
            },
            Some(i) => i,
        };
        if i >= self.worktree_sessions.len() {
            self.status = Status::Error(String::from_str("No worktree sessions found for this repository."));
            return Vec::new();
        }
        let entry = crate::treemin::sessions::clone_entry(&self.worktree_sessions[i]);
        assert(entry@ == old(self)@.sessions[i as int]);
        if !entry.has_live_session {
            match entry.path {
                None => {
                    self.status = Status::Error(text3("No worktree path was found for `", entry.branch.as_str(), "`."));
                    Vec::new()
                },
                Some(p) => self.create_session_for_worktree(entry.branch, p, entry.session_name),
            }
        } else {
            match entry.live_session_name {
                None => {
                    self.status = Status::Error(text3("No live Zellij session match was found for `", entry.branch.as_str(), "`."));
                    Vec::new()
                },
                Some(l) => {
                    self.status = Status::Success(text3("Switching to live session `", l.as_str(), "`..."));
                    let mut effects: Vec<Effect> = Vec::new();
                    let ghost lv = l@;
                    effects.push(Effect::SwitchSession { session: l });
                    assert(effect_views(effects@) =~= seq![EffectView::SwitchSession { session: lv }]);
                    effects
                },
            }
        }
    }

    fn begin_create_worktree(&mut self) -> (res: Vec<Effect>)
        ensures
            final(self)@ == begin_create_step(old(self)@).0,
            effect_views(res@) == begin_create_step(old(self)@).1,
    {
        let repo_root = match &self.repo_root {
            None => {
                self.status = Status::Error(String::from_str("Repository root is not available yet."));
                return Vec::new();
            },
            Some(r) => r.clone(),
        };
        if !self.config_loaded {
            self.status = Status::Error(String::from_str("Configuration is still loading."));
            return Vec::new();
        }
        let branch = string_of(&trim_exec(&chars_of(self.branch_input.as_str())));
        if chars_of(branch.as_str()).len() == 0 {
            self.status = Status::Error(String::from_str("Enter a branch name first."));
            return Vec::new();
        }
        if let Err(message) = validate_branch_name(branch.as_str()) {
            self.status = Status::Error(message);
            return Vec::new();
        }
        if self.config.auto_fetch {
            let remote = self.config.remote.clone();
            self.status = Status::Busy(text3("Fetching from remote `", remote.as_str(), "`..."));
            let mut effects: Vec<Effect> = Vec::new();
            let ghost (rv, mv, bv) = (repo_root@, remote@, branch@);
            effects.push(Effect::FetchRemote { repo_root, remote, branch });
            assert(effect_views(effects@) =~= seq![EffectView::FetchRemote { repo_root: rv, remote: mv, branch: bv }]);
            effects
        } else {
            self.check_branch(branch)
        }
    }

    pub fn delete_selected_worktree_session(&mut self) -> (res: Vec<Effect>)
        ensures
            final(self)@ == delete_selected_step(old(self)@).0,
            effect_views(res@) == delete_selected_step(old(self)@).1,
    {
        let i = match self.selected_index {
            None => 0,
            Some(i) => i,
        };
        if i >= self.worktree_sessions.len() {
            self.status = Status::Error(String::from_str("No worktree sessions found for this repository."));
            return Vec::new();
        }
        let entry = crate::treemin::sessions::clone_entry(&self.worktree_sessions[i]);
        assert(entry@ == old(self)@.sessions[i as int]);
        if entry.is_current {
            self.status = Status::Error(String::from_str("Cannot delete the current session from inside itself."));
            return Vec::new();
        }
        let repo_root = match &self.repo_root {
            None => {
                self.status = Status::Error(String::from_str("Repository root is not available yet."));
                return Vec::new();
            },
            Some(r) => r.clone(),
        };
        if !entry.has_live_session {
            let p = match entry.path {
                None => {
                    self.status = Status::Error(text3("No worktree path was found for `", entry.branch.as_str(), "`."));
                    return Vec::new();
                },
                Some(p) => p,
            };
            if same_path(repo_root.as_str(), p.as_str()) {
                self.status = Status::Error(String::from_str("Cannot delete the main repository worktree from treemin."));
                return Vec::new();
            }
            self.pending_delete = Some(PendingDelete { session_name: None, worktree_path: Some(p.clone()) });
            self.status = Status::Busy(text3("Deleting worktree `", p.as_str(), "`..."));
            let mut effects: Vec<Effect> = Vec::new();
            let ghost (rv, pv) = (repo_root@, p@);
            effects.push(Effect::DeleteWorktree { repo_root, path: p });
            assert(effect_views(effects@) =~= seq![EffectView::DeleteWorktree { repo_root: rv, path: pv }]);
            return effects;
        }
        match entry.live_session_name {
            None => {
                self.status = Status::Error(text3("No live Zellij session match was found for `", entry.branch.as_str(), "`."));
                Vec::new()
            },
            Some(l) => {
                self.pending_delete = Some(PendingDelete { session_name: Some(l.clone()), worktree_path: None });
                self.status = Status::Busy(text3("Deleting session `", l.as_str(), "`..."));
                let mut effects: Vec<Effect> = Vec::new();
                let ghost (rv, lv) = (repo_root@, l@);
                effects.push(Effect::DeleteSession { repo_root, session: l });
                assert(effect_views(effects@) =~= seq![EffectView::DeleteSession { repo_root: rv, session: lv }]);
                effects
            },
        }
    }

    pub fn move_selection(&mut self, up: bool)
        ensures
            final(self)@ == move_selection_step(old(self)@, up),
    {
        if self.worktree_sessions.len() == 0 {
            self.status = Status::Error(String::from_str("No worktree sessions found for this repository."));
            return;
        }
        let i = match self.selected_index {
            None => {
                self.status = Status::Ready;
                return;
            },
            Some(i) => i,
        };
        let n = self.worktree_sessions.len();
        let next = if up {
            previous_selectable_index(&self.worktree_sessions, i)
        } else {
            next_selectable_index(&self.worktree_sessions, i)
        };
        proof {
            let sv = old(self)@.sessions;
            assert(sv.len() == n);
            lemma_first_selectable(sv, 0);
            lemma_first_selectable(sv, i as int + 1);
            lemma_last_selectable(sv, if i <= sv.len() { i as int } else { sv.len() as int });
            let spec_next = if up { previous_selection(sv, i as nat) } else { next_selection(sv, i as nat) };
            match spec_next {
                Some(k) => assert(k < n),
                None => {},
            }
        }
        if next.is_some() {
            self.selected_index = next;
        }
        self.status = Status::Ready;
    }

    /// Ctrl+D: clears typed text, or deletes the selected session.
    pub fn begin_delete_action(&mut self) -> (res: Vec<Effect>)
        ensures
            final(self)@ == begin_delete_step(old(self)@).0,
            effect_views(res@) == begin_delete_step(old(self)@).1,
    {
        if chars_of(self.branch_input.as_str()).len() > 0 {
            self.branch_input = String::new();
            self.status = Status::Ready;
            assert(self.branch_input@ =~= seq![]);
            return Vec::new();
        }
        self.delete_selected_worktree_session()
    }

    /// What a key does; the result says whether to render again, and what the host is to do.
    pub fn handle_key(&mut self, key: KeyInput) -> (res: (bool, Vec<Effect>))
        ensures
            final(self)@ == key_step(old(self)@, key).0,
            effect_views(res.1@) == key_step(old(self)@, key).1,
            res.0 == key_step(old(self)@, key).2,
    {
        if !self.permissions_granted {
            return (false, Vec::new());
        }
        let busy = match &self.status {
            Status::Busy(_) => true,
            _ => false,
        };
        match key.bare_key {
            BareKey::Enter => {
                if busy {
                    return (false, Vec::new());
                }
                self.pending_delete = None;
                let empty = trim_exec(&chars_of(self.branch_input.as_str())).len() == 0;
                let effects = if empty {
                    self.switch_selected_worktree_session()
                } else {
                    self.begin_create_worktree()
                };
                (true, effects)
            },
            BareKey::Up => {
                if busy {
                    return (false, Vec::new());
                }
                self.move_selection(true);
                (true, Vec::new())
            },
            BareKey::Down => {
                if busy {
                    return (false, Vec::new());
                }
                self.move_selection(false);
                (true, Vec::new())
            },
            BareKey::Backspace => {
                if busy {
                    return (false, Vec::new());
                }
                let mut input = chars_of(self.branch_input.as_str());
                if input.len() > 0 {
                    input.pop();
                }
                self.branch_input = string_of(&input);
                self.status = Status::Ready;
                (true, Vec::new())
            },
            BareKey::Char(c) => {
                if c == 'd' && key.ctrl {
                    if busy {
                        return (false, Vec::new());
                    }
                    (true, self.begin_delete_action())
                } else if c == 'h' && key.ctrl {
                    self.show_help = !self.show_help;
                    (true, Vec::new())
                } else if busy {
                    (false, Vec::new())
                } else if key.no_modifiers && crate::zitree::validation::is_branch_char(c) {
                    let mut input = chars_of(self.branch_input.as_str());
                    input.push(c);
                    self.branch_input = string_of(&input);
                    self.status = Status::Ready;
                    (true, Vec::new())
                } else {
                    (false, Vec::new())
                }
            },
            BareKey::Esc => {
                if busy {
                    return (false, Vec::new());
                }
                if chars_of(self.branch_input.as_str()).len() == 0 {
                    let mut effects: Vec<Effect> = Vec::new();
                    effects.push(Effect::HideSelf);
                    assert(effect_views(effects@) =~= seq![EffectView::HideSelf]);
                    (false, effects)
                } else {
                    self.branch_input = String::new();
                    self.status = Status::Ready;
                    (true, Vec::new())
                }
            },
            BareKey::Other => (false, Vec::new()),
        }
    }
}

// ---------------------------------------------------------------------------
// Laws
// ---------------------------------------------------------------------------
/// The selection rests on an entry of the list that is not the current one, or nowhere.
pub open spec fn selection_ok(s: StateView) -> bool {
    selectable(s.sessions, s.selected)
}

proof fn lemma_rebuilt_ok(s: StateView, previous: Option<Seq<char>>)
    ensures
        selection_ok(rebuilt(s, previous)),
{
    let sessions = worktree_sessions_spec(s.repo_root, s.repo_name, s.config.session_prefix, s.known, s.live);
    lemma_selection_for(sessions, previous);
}

proof fn lemma_add_or_select_ok(s: StateView, branch: Seq<char>, path: Seq<char>, session: Seq<char>, live: Seq<char>)
    ensures
        selection_ok(add_or_select(s, branch, path, session, live)),
{
    lemma_live_position(s.sessions, live, 0);
    lemma_first_selectable(s.sessions, 0);
}

proof fn lemma_create_or_switch_ok(s: StateView, branch: Seq<char>)
    requires
        selection_ok(s),
    ensures
        selection_ok(create_or_switch_step(s, branch).0),
{
    let path = worktree_path_spec(s.repo_root->0, s.config, branch);
    let siblings = siblings_with(s.known, branch);
    let session = session_name_spec(s.repo_name, branch, siblings, false);
    match matching_live_spec(s.repo_name, branch, s.config.session_prefix, siblings, false, s.live) {
        Some(l) => lemma_add_or_select_ok(s, branch, path, session, l),
        None => {},
    }
}

/// Every finished command leaves the selection on a selectable entry, or nowhere.
pub proof fn lemma_command_result_keeps_selection(
    s: StateView,
    exit_ok: bool,
    out: Seq<char>,
    err: Seq<char>,
    action: Option<ActionView>,
)
    requires
        selection_ok(s),
    ensures
        selection_ok(command_result_step(s, exit_ok, out, err, action).0),
{
    match action {
        Some(ActionView::LoadRepoConfig) => {},
        Some(ActionView::CreateWorktree { branch }) => {
            if !is_pending(s) && exit_ok {
                lemma_create_or_switch_ok(s, branch);
            }
        },
        Some(ActionView::CreateSession { branch, path, session }) => {
            if is_pending(s) {
                lemma_rebuilt_ok(with_status(s, StatusView::Ready), selected_key(s));
            } else if exit_ok {
                let live = if s.live.contains(session) { s.live } else { s.live.push(session) };
                lemma_add_or_select_ok(StateView { live, ..s }, branch, path, session, session);
            }
        },
        Some(ActionView::ListWorktrees) => {
            if exit_ok {
                lemma_rebuilt_ok(StateView { known: worktree_locations(out, s.current_worktree_root), ..s }, selected_key(s));
            }
        },
        Some(ActionView::DeleteSession { session }) => {
            if exit_ok {
                let s1 = StateView { live: all_but(s.live, session), ..s };
                lemma_rebuilt_ok(
                    StateView { pending: Some(PendingView { session_name: Some(session), worktree_path: None }), ..s1 },
                    selected_key(s),
                );
            }
        },
        Some(ActionView::DeleteWorktree { path }) => {
            if exit_ok {
                lemma_rebuilt_ok(StateView { known: worktrees_without(s.known, path), ..s }, selected_key(s));
            }
        },
        _ => {},
    }
}

/// Every key leaves the selection on a selectable entry, or nowhere.
pub proof fn lemma_key_keeps_selection(s: StateView, key: KeyInput)
    requires
        selection_ok(s),
    ensures
        selection_ok(key_step(s, key).0),
{
    lemma_first_selectable(s.sessions, 0);
    if let Some(i) = s.selected {
        lemma_first_selectable(s.sessions, i as int + 1);
        lemma_last_selectable(s.sessions, if i <= s.sessions.len() { i as int } else { s.sessions.len() as int });
    }
}

/// The permission answer and the parsed repository file leave the selection on a
/// selectable entry, or nowhere.
pub proof fn lemma_other_events_keep_selection(s: StateView, granted: bool, sessions: Option<Seq<Seq<char>>>, parsed: Result<RepoConfig, String>)
    requires
        selection_ok(s),
    ensures
        selection_ok(permission_step(s, granted, sessions).0),
        selection_ok(repo_config_step(s, parsed).0),
{
    if granted {
        if let Some(names) = sessions {
            let s1 = StateView { permissions_granted: true, ..s };
            lemma_rebuilt_ok(StateView { live: names, ..s1 }, selected_key(s1));
        }
    }
}

/// While a command runs (the status is busy), keys do nothing but Ctrl-h, which toggles the
/// help.
pub proof fn lemma_busy_ignores_keys(s: StateView, key: KeyInput)
    requires
        is_busy(s),
        !(key.bare_key == BareKey::Char('h') && key.ctrl),
    ensures
        key_step(s, key).0 == s,
        key_step(s, key).1.len() == 0,
        !key_step(s, key).2,
{
}

/// Ctrl-d never deletes the current entry's session or worktree, nor the repository's own
/// worktree.
pub proof fn lemma_delete_spares_current_and_main(s: StateView)
    ensures
        delete_selected_step(s).1.len() > 0 ==> {
            let i: int = match s.selected {
                Some(i) => i as int,
                None => 0,
            };
            i < s.sessions.len() && !s.sessions[i].is_current
        },
        delete_selected_step(s).1.len() > 0 ==> match delete_selected_step(s).1[0] {
            EffectView::DeleteWorktree { repo_root, path } => !same_path_spec(repo_root, path),
            EffectView::DeleteSession { .. } => true,
            _ => false,
        },
{
}

/// While a deletion is under way, results of fetching, checking or creating a worktree are
/// ignored.
pub proof fn lemma_pending_ignores_creation(s: StateView, exit_ok: bool, out: Seq<char>, err: Seq<char>, branch: Seq<char>)
    requires
        is_pending(s),
    ensures
        command_result_step(s, exit_ok, out, err, Some(ActionView::FetchRemote { branch })) == (s, Seq::<EffectView>::empty()),
        command_result_step(s, exit_ok, out, err, Some(ActionView::CheckBranch { branch })) == (s, Seq::<EffectView>::empty()),
        command_result_step(s, exit_ok, out, err, Some(ActionView::CreateWorktree { branch })) == (s, Seq::<EffectView>::empty()),
{
}

/// Whether an effect starts or enters a session.
pub open spec fn enters_session(e: EffectView) -> bool {
    e is CreateSession || e is SwitchSession
}

/// A session for a new branch is entered only after `git worktree add` succeeded, and in the
/// worktree path that the configuration gives: typing a branch, fetching and checking the
/// branch start no session; a failed worktree creation reports an error and starts none; a
/// successful one starts a session in the expected path or switches to the live session that
/// matches it.
pub proof fn lemma_session_only_after_worktree_added(
    s: StateView,
    exit_ok: bool,
    out: Seq<char>,
    err: Seq<char>,
    branch: Seq<char>,
)
    ensures
        forall|i: int| 0 <= i < begin_create_step(s).1.len() ==> !enters_session(#[trigger] begin_create_step(s).1[i]),
        forall|i: int|
            0 <= i < command_result_step(s, exit_ok, out, err, Some(ActionView::FetchRemote { branch })).1.len()
                ==> !enters_session(#[trigger] command_result_step(s, exit_ok, out, err, Some(ActionView::FetchRemote { branch })).1[i]),
        forall|i: int|
            0 <= i < command_result_step(s, exit_ok, out, err, Some(ActionView::CheckBranch { branch })).1.len()
                ==> !enters_session(#[trigger] command_result_step(s, exit_ok, out, err, Some(ActionView::CheckBranch { branch })).1[i]),
        !is_pending(s) ==> command_result_step(s, false, out, err, Some(ActionView::CreateWorktree { branch })).1.len() == 0,
        !is_pending(s) ==> command_result_step(s, false, out, err, Some(ActionView::CreateWorktree { branch })).0.status is Error,
        !is_pending(s) && s.repo_root is Some ==> ({
            let e = command_result_step(s, true, out, err, Some(ActionView::CreateWorktree { branch })).1;
            &&& e.len() > 0
            &&& e.last() is SwitchSession || e.last() is CreateSession
            &&& e.last() is CreateSession ==> e.last()->CreateSession_path == worktree_path_spec(s.repo_root->0, s.config, branch)
                && e.last()->CreateSession_branch == branch
        }),
{
}

} // verus!
