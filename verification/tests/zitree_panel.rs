use zitree::treemin::config::{Config, WorktreeNamingPattern};
use zitree::treemin::sessions::WorktreeSessionEntry;
use zitree::treemin::state::Status;
use zitree::ui::style::visible_width;
use zitree::zitree::naming::{session_name, worktree_path};
use zitree::zitree::ui::render;

#[test]
fn session_names_carry_the_full_branch_hash() {
    let config = Config::default();

    assert_eq!(session_name(Some("treemin"), "test/tree", &config), "treemin-test-tree-377d9d1970c7d84");
    assert_eq!(session_name(None, "main", &config), "repo-main-17c9a7f6a");

    let mut prefixed = Config::default();
    prefixed.session_prefix = Some("wt x".to_string());
    assert_eq!(session_name(Some("repo"), "main", &prefixed), "wt-x-repo-main-17c9a7f6a");
}

#[test]
fn zitree_worktree_paths_use_the_full_hash() {
    let mut config = Config::default();
    assert_eq!(worktree_path("/tmp/repo", &config, "feature/x y"), "/tmp/repo/.worktrees/feature/x-y");

    config.worktree_naming_pattern = WorktreeNamingPattern::Hash;
    assert_eq!(worktree_path("/tmp/repo", &config, "main"), "/tmp/repo/.worktrees/17c9a7f6a");

    config.worktree_naming_pattern = WorktreeNamingPattern::BranchHash;
    assert_eq!(worktree_path("/tmp/repo", &config, "main"), "/tmp/repo/.worktrees/main-17c9a7f6a");
    let mut hashed = Config::default();
    hashed.worktree_naming_pattern = WorktreeNamingPattern::Hash;
    let hash_path = worktree_path("/h", &hashed, "feature/x");
    let hash = &hash_path["/h/.worktrees/".len()..];
    assert_eq!(worktree_path("/tmp/repo", &config, "feature/x"), format!("/tmp/repo/.worktrees/feature-x-{}", hash));
}

#[test]
fn panel_shows_title_then_status() {
    let config = Config::default();
    let lines = render(&Status::Busy("Working".to_string()), None, None, &config, "", &[], 0, 40);

    assert_eq!(lines.len(), 7);
    assert!(lines[1].contains("zitree"));
    assert_eq!(lines[3], "");
    assert!(lines[5].contains("Working"));
    assert!(lines.iter().filter(|line| !line.is_empty()).all(|line| visible_width(line) == visible_width(&lines[0])));
}

#[test]
fn ready_panel_lists_sessions_and_marks_selection() {
    let config = Config::default();
    let sessions = vec![
        WorktreeSessionEntry {
            branch: "main".to_string(),
            path: Some("/tmp/repo".to_string()),
            session_name: "repo".to_string(),
            live_session_name: None,
            has_live_session: false,
            is_current: true,
        },
        WorktreeSessionEntry {
            branch: "feature".to_string(),
            path: Some("/tmp/repo/.worktrees/feature".to_string()),
            session_name: "repo-feature".to_string(),
            live_session_name: None,
            has_live_session: false,
            is_current: false,
        },
    ];
    let lines = render(&Status::Ready, Some("/tmp/repo"), Some("repo"), &config, "", &sessions, 1, 80);

    assert!(lines.iter().any(|line| line.contains("repo-worktree-00001505-<branch>-<hash>")));
    let feature = lines.iter().find(|line| line.contains("[repo-feature]")).unwrap();
    assert!(feature.contains("→"));
    assert!(feature.contains("feature"));
    let main = lines.iter().find(|line| line.contains("[repo]")).unwrap();
    assert!(main.contains("★ current"));
    assert!(lines.iter().any(|line| line.contains("[Delete]") && line.contains("delete session")));
}
