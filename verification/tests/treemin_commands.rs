use std::collections::BTreeMap;

use zitree::treemin::commands::{
    command_error, parse_action, parse_repo_roots, parse_worktree_locations, CommandAction, ACTION_CREATE_SESSION,
    ACTION_DELETE_WORKTREE, ACTION_DISCOVER_REPO, ACTION_FETCH_REMOTE, CONTEXT_ACTION, CONTEXT_BRANCH, CONTEXT_PATH,
    CONTEXT_SESSION,
};

const LISTING: &str = "worktree /tmp/repo\nHEAD abc123\nbranch refs/heads/main\n\nworktree /tmp/repo/.worktrees/feature\nHEAD def456\nbranch refs/heads/feature/test\n";

#[test]
fn git_parses_current_and_shared_repo_roots_for_linked_worktree() {
    let roots = parse_repo_roots("/tmp/repo/.worktrees/feature\n/tmp/repo/.git\n");

    assert_eq!(roots, Some(("/tmp/repo/.worktrees/feature".to_string(), "/tmp/repo".to_string())));
}

#[test]
fn commands_parses_current_and_shared_repo_roots_for_linked_worktree() {
    let roots = parse_repo_roots("/tmp/repo/.worktrees/feature\n/tmp/repo/.git\n");

    assert_eq!(roots, Some(("/tmp/repo/.worktrees/feature".to_string(), "/tmp/repo".to_string())));
}

#[test]
fn git_parses_current_and_shared_repo_roots_for_main_worktree() {
    let roots = parse_repo_roots("/tmp/repo\n/tmp/repo/.git\n");

    assert_eq!(roots, Some(("/tmp/repo".to_string(), "/tmp/repo".to_string())));
}

#[test]
fn commands_parses_current_and_shared_repo_roots_for_main_worktree() {
    let roots = parse_repo_roots("/tmp/repo\n/tmp/repo/.git\n");

    assert_eq!(roots, Some(("/tmp/repo".to_string(), "/tmp/repo".to_string())));
}

#[test]
fn git_parses_main_and_linked_worktrees_into_locations() {
    let worktrees = parse_worktree_locations(LISTING, Some("/tmp/repo"));

    assert_eq!(worktrees.len(), 2);
    assert_eq!(worktrees[0].branch, "main");
    assert_eq!(worktrees[0].path, "/tmp/repo");
    assert!(worktrees[0].is_current);

    assert_eq!(worktrees[1].branch, "feature/test");
    assert_eq!(worktrees[1].path, "/tmp/repo/.worktrees/feature");
    assert!(!worktrees[1].is_current);
}

#[test]
fn commands_parses_main_and_linked_worktrees_into_locations() {
    let worktrees = parse_worktree_locations(LISTING, Some("/tmp/repo"));

    assert_eq!(worktrees.len(), 2);
    assert_eq!(worktrees[0].branch, "main");
    assert_eq!(worktrees[0].path, "/tmp/repo");
    assert!(worktrees[0].is_current);

    assert_eq!(worktrees[1].branch, "feature/test");
    assert_eq!(worktrees[1].path, "/tmp/repo/.worktrees/feature");
    assert!(!worktrees[1].is_current);
}

#[test]
fn git_marks_linked_worktree_as_current_when_started_inside_it() {
    let worktrees = parse_worktree_locations(LISTING, Some("/tmp/repo/.worktrees/feature"));

    assert!(!worktrees[0].is_current);
    assert!(worktrees[1].is_current);
}

#[test]
fn commands_marks_linked_worktree_as_current_when_started_inside_it() {
    let worktrees = parse_worktree_locations(LISTING, Some("/tmp/repo/.worktrees/feature"));

    assert!(!worktrees[0].is_current);
    assert!(worktrees[1].is_current);
}

#[test]
fn mod_parses_discover_repo_action() {
    let context = BTreeMap::from([(CONTEXT_ACTION.to_string(), ACTION_DISCOVER_REPO.to_string())]);

    assert_eq!(parse_action(&context), Some(CommandAction::DiscoverRepo));
}

#[test]
fn commands_parses_discover_repo_action() {
    let context = BTreeMap::from([(CONTEXT_ACTION.to_string(), ACTION_DISCOVER_REPO.to_string())]);

    assert_eq!(parse_action(&context), Some(CommandAction::DiscoverRepo));
}

#[test]
fn mod_parses_fetch_remote_action_with_branch() {
    let context = BTreeMap::from([
        (CONTEXT_ACTION.to_string(), ACTION_FETCH_REMOTE.to_string()),
        (CONTEXT_BRANCH.to_string(), "feature/test".to_string()),
    ]);

    assert_eq!(
        parse_action(&context),
        Some(CommandAction::FetchRemote { branch: "feature/test".to_string() })
    );
}

#[test]
fn commands_parses_fetch_remote_action_with_branch() {
    let context = BTreeMap::from([
        (CONTEXT_ACTION.to_string(), ACTION_FETCH_REMOTE.to_string()),
        (CONTEXT_BRANCH.to_string(), "feature/test".to_string()),
    ]);

    assert_eq!(
        parse_action(&context),
        Some(CommandAction::FetchRemote { branch: "feature/test".to_string() })
    );
}

#[test]
fn mod_parses_create_session_action_with_all_context() {
    let context = BTreeMap::from([
        (CONTEXT_ACTION.to_string(), ACTION_CREATE_SESSION.to_string()),
        (CONTEXT_BRANCH.to_string(), "main".to_string()),
        (CONTEXT_PATH.to_string(), "/tmp/repo".to_string()),
        (CONTEXT_SESSION.to_string(), "repo-main".to_string()),
    ]);

    assert_eq!(
        parse_action(&context),
        Some(CommandAction::CreateSession {
            branch: "main".to_string(),
            path: "/tmp/repo".to_string(),
            session: "repo-main".to_string()
        })
    );
}

#[test]
fn commands_parses_create_session_action_with_all_context() {
    let context = BTreeMap::from([
        (CONTEXT_ACTION.to_string(), ACTION_CREATE_SESSION.to_string()),
        (CONTEXT_BRANCH.to_string(), "main".to_string()),
        (CONTEXT_PATH.to_string(), "/tmp/repo".to_string()),
        (CONTEXT_SESSION.to_string(), "repo-main".to_string()),
    ]);

    assert_eq!(
        parse_action(&context),
        Some(CommandAction::CreateSession {
            branch: "main".to_string(),
            path: "/tmp/repo".to_string(),
            session: "repo-main".to_string()
        })
    );
}

#[test]
fn parses_delete_worktree_action_with_path() {
    let context = BTreeMap::from([
        (CONTEXT_ACTION.to_string(), ACTION_DELETE_WORKTREE.to_string()),
        (CONTEXT_PATH.to_string(), "/tmp/repo/.worktrees/feature".to_string()),
    ]);

    assert_eq!(
        parse_action(&context),
        Some(CommandAction::DeleteWorktree { path: "/tmp/repo/.worktrees/feature".to_string() })
    );
}

#[test]
fn incomplete_or_unknown_context_has_no_action() {
    let missing_branch = BTreeMap::from([(CONTEXT_ACTION.to_string(), ACTION_FETCH_REMOTE.to_string())]);
    let unknown = BTreeMap::from([(CONTEXT_ACTION.to_string(), "launch-rockets".to_string())]);

    assert_eq!(parse_action(&missing_branch), None);
    assert_eq!(parse_action(&unknown), None);
    assert_eq!(parse_action(&BTreeMap::new()), None);
}

#[test]
fn command_errors_append_trimmed_stderr() {
    assert_eq!(command_error("Failed.", b"  boom\n"), "Failed. boom");
    assert_eq!(command_error("Failed.", b"   "), "Failed.");
}

#[test]
fn repo_roots_need_two_lines() {
    assert_eq!(parse_repo_roots("/tmp/repo\n"), None);
    assert_eq!(parse_repo_roots(""), None);
}
