use std::collections::BTreeMap;

use zitree::treemin::commands::WorktreeLocation;
use zitree::treemin::config::Config;
use zitree::treemin::naming::session_name_candidates;
use zitree::treemin::sessions::{build_worktree_sessions, selected_index_for_sessions, WorktreeSessionEntry};
use zitree::treemin::state::{BareKey, Effect, KeyInput, State, Status};

fn entry(branch: &str, path: &str, session: &str, live: Option<&str>, is_current: bool) -> WorktreeSessionEntry {
    WorktreeSessionEntry {
        branch: branch.to_string(),
        path: Some(path.to_string()),
        session_name: session.to_string(),
        live_session_name: live.map(str::to_string),
        has_live_session: live.is_some(),
        is_current,
    }
}

fn location(branch: &str, path: &str, is_current: bool) -> WorktreeLocation {
    WorktreeLocation { branch: branch.to_string(), path: path.to_string(), is_current }
}

fn main_and_feature() -> Vec<WorktreeSessionEntry> {
    vec![
        entry("main", "/tmp/repo", "repo", Some("repo"), true),
        entry("feature", "/tmp/repo/.worktrees/feature", "repo|feature", Some("repo|feature"), false),
    ]
}

#[test]
fn state_prefers_previous_selection_when_sessions_refresh() {
    let sessions = main_and_feature();

    let selected_index = selected_index_for_sessions(&sessions, Some("repo|feature"));

    assert_eq!(selected_index, Some(1));
}

#[test]
fn skips_current_session_when_picking_default_selection() {
    let sessions = main_and_feature();

    assert_eq!(selected_index_for_sessions(&sessions, None), Some(1));
}

#[test]
fn state_builds_sessions_from_live_sessions_and_known_worktrees() {
    let config = Config::default();
    let worktrees = vec![
        location("main", "/tmp/repo", true),
        location("feature/test", "/tmp/repo/.worktrees/feature", false),
    ];
    let sessions = build_worktree_sessions(
        Some("/tmp/repo"),
        Some("repo"),
        &config,
        &worktrees,
        &["repo".to_string(), "repo|feature-test".to_string()],
    );

    assert_eq!(sessions.len(), 2);
    assert_eq!(sessions[0].branch, "main");
    assert_eq!(sessions[0].path, Some("/tmp/repo".to_string()));
    assert_eq!(sessions[0].session_name, "repo");
    assert_eq!(sessions[0].live_session_name.as_deref(), Some("repo"));
    assert_eq!(sessions[1].branch, "feature/test");
    assert_eq!(sessions[1].path, Some("/tmp/repo/.worktrees/feature".to_string()));
    assert_eq!(sessions[1].live_session_name.as_deref(), Some("repo|feature-test"));
    assert_eq!(sessions[1].session_name, "repo|feature-test");
}

#[test]
fn current_worktree_session_sorts_first() {
    let config = Config::default();
    let sessions = build_worktree_sessions(
        Some("/tmp/repo"),
        Some("repo"),
        &config,
        &[
            location("zzz-current", "/tmp/repo/.worktrees/zzz-current", true),
            location("aaa-other", "/tmp/repo/.worktrees/aaa-other", false),
        ],
        &[],
    );

    assert_eq!(sessions[0].branch, "zzz-current");
    assert!(sessions[0].is_current);
    assert_eq!(sessions[1].branch, "aaa-other");
}

#[test]
fn next_and_previous_selection_skip_current_session() {
    let mut state = State::default();
    state.worktree_sessions = vec![
        entry("main", "/tmp/repo", "repo", Some("repo"), true),
        entry("feature-a", "/tmp/repo/.worktrees/feature-a", "repo|feature-a", Some("repo|feature-a"), false),
        entry("feature-b", "/tmp/repo/.worktrees/feature-b", "repo|feature-b", Some("repo|feature-b"), false),
    ];
    state.selected_index = Some(1);

    state.move_selection(true);
    assert_eq!(state.selected_index, Some(1));

    state.move_selection(false);
    assert_eq!(state.selected_index, Some(2));
}

#[test]
fn state_keeps_worktree_without_live_session_in_session_list() {
    let config = Config::default();
    let sessions = build_worktree_sessions(
        Some("/tmp/repo"),
        Some("repo"),
        &config,
        &[location("feature/test", "/tmp/repo/.worktrees/feature", false)],
        &[],
    );

    assert_eq!(sessions.len(), 1);
    assert_eq!(sessions[0].branch, "feature/test");
    assert_eq!(sessions[0].path, Some("/tmp/repo/.worktrees/feature".to_string()));
    assert_eq!(sessions[0].session_name, "repo|feature-test");
    assert_eq!(sessions[0].live_session_name, None);
    assert!(!sessions[0].has_live_session);
}

#[test]
fn state_ignores_live_session_when_worktree_is_missing() {
    let config = Config::default();
    let sessions = build_worktree_sessions(
        Some("/tmp/repo"),
        Some("repo"),
        &config,
        &[],
        &["repo|feature-test".to_string()],
    );

    assert!(sessions.is_empty());
}

#[test]
fn state_matches_plain_repo_name_session_for_main_worktree() {
    let config = Config::default();
    let sessions = build_worktree_sessions(
        Some("/tmp/repo"),
        Some("repo"),
        &config,
        &[location("main", "/tmp/repo", true)],
        &["repo".to_string()],
    );

    assert_eq!(sessions.len(), 1);
    assert_eq!(sessions[0].branch, "main");
    assert_eq!(sessions[0].session_name, "repo");
    assert_eq!(sessions[0].live_session_name.as_deref(), Some("repo"));
    assert!(sessions[0].has_live_session);
}

#[test]
fn state_does_not_match_plain_repo_name_session_for_linked_worktree() {
    let config = Config::default();
    let sessions = build_worktree_sessions(
        Some("/tmp/repo"),
        Some("repo"),
        &config,
        &[location("feature/test", "/tmp/repo/.worktrees/feature", false)],
        &["repo".to_string()],
    );

    assert_eq!(sessions.len(), 1);
    assert_eq!(sessions[0].branch, "feature/test");
    assert_eq!(sessions[0].session_name, "repo|feature-test");
    assert_eq!(sessions[0].live_session_name, None);
    assert!(!sessions[0].has_live_session);
}

#[test]
fn state_prefers_plain_repo_name_over_generated_session_name_for_main_worktree() {
    let config = Config::default();
    let sessions = build_worktree_sessions(
        Some("/tmp/repo"),
        Some("repo"),
        &config,
        &[location("main", "/tmp/repo", true)],
        &["repo".to_string(), "repo-main-17c9aaa7".to_string()],
    );

    assert_eq!(sessions.len(), 1);
    assert_eq!(sessions[0].session_name, "repo");
    assert_eq!(sessions[0].live_session_name.as_deref(), Some("repo"));
}

#[test]
fn state_create_worktree_session_switches_immediately_when_session_is_live() {
    let mut state = State::default();
    state.repo_root = Some("/tmp/repo".to_string());
    state.repo_name = Some("repo".to_string());
    state.live_session_names = vec!["repo|feature-test".to_string()];

    let effects = state.create_or_switch_worktree_session("feature/test");

    assert!(matches!(
        state.status,
        Status::Success(ref message)
            if message == "Created worktree `/tmp/repo/.worktrees/feature/test`. Switching to session `repo|feature-test`..."
    ));
    assert_eq!(state.worktree_sessions.len(), 1);
    assert_eq!(state.worktree_sessions[0].live_session_name.as_deref(), Some("repo|feature-test"));
    assert!(effects.iter().any(|effect| matches!(effect, Effect::SwitchSession { session } if session == "repo|feature-test")));
}

#[test]
fn state_create_worktree_session_switches_to_matching_legacy_session_for_hyphenated_repo() {
    let config = Config::default();
    let legacy_session_name = session_name_candidates(
        Some("repo-name"),
        "feature/test",
        &config,
        &["feature/test".to_string()],
        false,
    )
    .into_iter()
    .find(|candidate| candidate != "repo-name-feature-test")
    .expect("expected a secondary session name candidate");

    let mut state = State::default();
    state.config = config;
    state.repo_root = Some("/tmp/repo-name".to_string());
    state.repo_name = Some("repo-name".to_string());
    state.live_session_names = vec![legacy_session_name.clone()];

    state.create_or_switch_worktree_session("feature/test");

    assert!(matches!(
        state.status,
        Status::Success(ref message)
            if message == &format!(
                "Created worktree `/tmp/repo-name/.worktrees/feature/test`. Switching to session `{legacy_session_name}`..."
            )
    ));
    assert_eq!(state.worktree_sessions.len(), 1);
    assert_eq!(state.worktree_sessions[0].session_name, "repo-name|feature-test");
    assert_eq!(
        state.worktree_sessions[0].live_session_name.as_deref(),
        Some(legacy_session_name.as_str())
    );
}

#[test]
fn state_create_worktree_session_requests_background_creation_when_missing() {
    let mut state = State::default();
    state.repo_root = Some("/tmp/repo".to_string());
    state.repo_name = Some("repo".to_string());

    state.create_or_switch_worktree_session("feature/test");

    assert!(matches!(
        state.status,
        Status::Busy(ref message)
            if message == "Creating session `repo|feature-test` in `/tmp/repo/.worktrees/feature/test`..."
    ));
    assert!(state.worktree_sessions.is_empty());
}

#[test]
fn state_switch_selected_worktree_session_creates_missing_session() {
    let mut state = State::default();
    state.worktree_sessions = vec![entry("feature/test", "/tmp/repo/.worktrees/feature", "repo|feature-test", None, false)];
    state.selected_index = Some(0);

    state.switch_selected_worktree_session();

    assert!(matches!(
        state.status,
        Status::Busy(ref message)
            if message == "Creating session `repo|feature-test` in `/tmp/repo/.worktrees/feature`..."
    ));
}

#[test]
fn state_delete_action_clears_branch_input_before_deleting_session() {
    let mut state = State::default();
    state.branch_input = "feature/test".to_string();
    state.status = Status::Success("old status".to_string());

    state.begin_delete_action();

    assert!(state.branch_input.is_empty());
    assert!(matches!(state.status, Status::Ready));
}

#[test]
fn state_refuses_to_delete_current_session() {
    let mut state = State::default();
    state.worktree_sessions = vec![entry("main", "/tmp/repo", "repo", Some("repo"), true)];

    state.delete_selected_worktree_session();

    assert!(matches!(
        state.status,
        Status::Error(ref message) if message == "Cannot delete the current session from inside itself."
    ));
}

#[test]
fn state_refuses_to_delete_session_without_live_match() {
    let mut state = State::default();
    state.repo_root = Some("/tmp/repo".to_string());
    state.worktree_sessions = vec![entry("feature/test", "/tmp/repo/.worktrees/feature", "repo|feature-test", None, false)];

    state.delete_selected_worktree_session();

    assert!(matches!(
        state.status,
        Status::Busy(ref message) if message == "Deleting worktree `/tmp/repo/.worktrees/feature`..."
    ));
}

#[test]
fn refuses_to_delete_main_worktree_without_live_session() {
    let mut state = State::default();
    state.repo_root = Some("/tmp/repo".to_string());
    state.worktree_sessions = vec![entry("main", "/tmp/repo", "repo", None, false)];

    state.delete_selected_worktree_session();

    assert!(matches!(
        state.status,
        Status::Error(ref message)
            if message == "Cannot delete the main repository worktree from treemin."
    ));
}

#[test]
fn deleting_linked_session_also_deletes_worktree() {
    let mut state = State::default();
    state.repo_root = Some("/tmp/repo".to_string());
    state.worktree_sessions = vec![entry(
        "feature/test",
        "/tmp/repo/.worktrees/feature",
        "repo|feature-test",
        Some("repo|feature-test"),
        false,
    )];
    state.live_session_names = vec!["repo|feature-test".to_string()];

    state.handle_run_command_result(
        Some(0),
        &[],
        &[],
        &BTreeMap::from([
            ("action".to_string(), "delete-session".to_string()),
            ("session".to_string(), "repo|feature-test".to_string()),
        ]),
    );

    assert!(matches!(
        state.status,
        Status::Busy(ref message)
            if message == "Deleting session `repo|feature-test` and worktree `/tmp/repo/.worktrees/feature`..."
    ));
    assert!(state.live_session_names.is_empty());
}

#[test]
fn keys_need_permission_and_esc_closes_when_input_is_empty() {
    let mut state = State::default();
    let esc = KeyInput { bare_key: BareKey::Esc, ctrl: false, no_modifiers: true };

    let (handled, effects) = state.handle_key(esc);
    assert!(!handled);
    assert!(effects.is_empty());

    state.permissions_granted = true;
    state.status = Status::Ready;
    let (handled, effects) = state.handle_key(esc);
    assert!(!handled);
    assert!(matches!(effects.as_slice(), [Effect::HideSelf]));

    state.handle_key(KeyInput { bare_key: BareKey::Char('x'), ctrl: false, no_modifiers: true });
    assert_eq!(state.branch_input, "x");
    let (handled, _) = state.handle_key(esc);
    assert!(handled);
    assert_eq!(state.branch_input, "");
}

#[test]
fn session_starts_only_after_worktree_was_added() {
    let context = BTreeMap::from([
        ("action".to_string(), "create-worktree".to_string()),
        ("branch".to_string(), "feature/x".to_string()),
    ]);

    let mut failed = State::default();
    failed.repo_root = Some("/tmp/repo".to_string());
    failed.repo_name = Some("repo".to_string());
    let effects = failed.handle_run_command_result(Some(128), &[], b"already checked out", &context);
    assert!(effects.is_empty());
    assert!(matches!(failed.status, Status::Error(_)));

    let mut added = State::default();
    added.repo_root = Some("/tmp/repo".to_string());
    added.repo_name = Some("repo".to_string());
    let effects = added.handle_run_command_result(Some(0), &[], &[], &context);
    assert_eq!(effects.len(), 1);
    match &effects[0] {
        Effect::CreateSession { branch, path, session } => {
            assert_eq!(branch, "feature/x");
            assert_eq!(path, "/tmp/repo/.worktrees/feature/x");
            assert_eq!(session, "repo|feature-x");
        }
        other => panic!("unexpected effect {:?}", other),
    }
}
