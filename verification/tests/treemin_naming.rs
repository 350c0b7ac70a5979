use zitree::treemin::config::Config;
use zitree::treemin::naming::{
    sanitize_path_segment, sanitize_session_segment, session_name, session_name_candidates,
    worktree_path, MAX_SESSION_NAME_LEN,
};

#[test]
fn keeps_short_session_names_unchanged() {
    assert_eq!(
        session_name(Some("repo"), "feature/test", &["feature/test".to_string()], false),
        "repo|feature-test"
    );
}

#[test]
fn shortens_long_branch_only_session_names_to_safe_length() {
    let session = session_name(
        Some("repo"),
        "feature/with-a-very-long-branch-name-that-would-also-overflow",
        &["feature/with-a-very-long-branch-name-that-would-also-overflow".to_string()],
        false,
    );

    assert!(session.len() <= MAX_SESSION_NAME_LEN);
    assert!(session.starts_with("repo|feature-with-a-ver"));
}

#[test]
fn adds_numeric_suffix_when_branch_only_name_collides() {
    let branches = vec!["feature/test".to_string(), "feature-test".to_string()];

    assert_eq!(
        session_name(Some("repo"), "feature/test", &branches, false),
        "repo|feature-test"
    );
    assert_eq!(
        session_name(Some("repo"), "feature-test", &branches, false),
        "repo|feature-test.2"
    );
}

#[test]
fn collision_suffix_skips_taken_natural_branch_name() {
    let branches = vec![
        "feature/test".to_string(),
        "feature-test".to_string(),
        "feature-test.2".to_string(),
    ];

    assert_eq!(
        session_name(Some("repo"), "feature-test.2", &branches, false),
        "repo|feature-test.2"
    );
    assert_eq!(
        session_name(Some("repo"), "feature-test", &branches, false),
        "repo|feature-test.3"
    );
}

#[test]
fn includes_branch_only_and_legacy_session_name_variants() {
    let config = Config::default();

    let candidates = session_name_candidates(
        Some("treemin"),
        "test/tree",
        &config,
        &["test/tree".to_string()],
        false,
    );

    assert_eq!(candidates.first().map(String::as_str), Some("treemin|test-tree"));
    assert!(candidates.iter().any(|candidate| candidate == "treemin-test-tree"));
    assert!(candidates.iter().any(|candidate| candidate == "treemin-test-tree-377d9d196e84c82"));
    assert!(candidates
        .iter()
        .any(|candidate| candidate == "z-2dfa96-t-a4b6eb-96e84c82"));
}

#[test]
fn uses_repo_name_for_main_worktree_session() {
    let config = Config::default();
    let candidates = session_name_candidates(
        Some("repo"),
        "main",
        &config,
        &["main".to_string()],
        true,
    );

    assert_eq!(candidates.first().map(String::as_str), Some("repo"));
    assert!(candidates.iter().any(|candidate| candidate == "repo-main-17c9aaa7"));
}

#[test]
fn legacy_candidates_follow_the_generated_name() {
    let config = Config::default();
    let candidates = session_name_candidates(
        Some("treemin"),
        "test/tree",
        &config,
        &["test/tree".to_string()],
        false,
    );

    assert_eq!(
        candidates,
        vec![
            "treemin|test-tree".to_string(),
            "treemin-test-tree".to_string(),
            "treemin-t-96e84-96e84c82".to_string(),
            "treemin-test-tree-96e84c82".to_string(),
            "t-f-t-96-377d9d196e84c82".to_string(),
            "treemin-test-tree-377d9d196e84c82".to_string(),
            "z-2dfa96-t-a4b6eb-96e84c82".to_string(),
        ]
    );
}

#[test]
fn sanitizes_segments() {
    assert_eq!(sanitize_session_segment("  feature//x  "), "feature-x");
    assert_eq!(sanitize_session_segment("///"), "worktree");
    assert_eq!(sanitize_session_segment("a|b"), "a|b");
    assert_eq!(sanitize_path_segment("feature//x y"), "feature/x-y");
    assert_eq!(sanitize_path_segment("a|b/"), "a-b");
}

#[test]
fn worktree_paths_follow_the_naming_pattern() {
    let mut config = Config::default();
    assert_eq!(
        worktree_path("/tmp/repo", &config, "feature/test"),
        "/tmp/repo/.worktrees/feature/test"
    );
    config.worktree_naming_pattern = zitree::treemin::config::WorktreeNamingPattern::Hash;
    assert_eq!(worktree_path("/tmp/repo", &config, "feature/test"), "/tmp/repo/.worktrees/f843e6a0");
    config.worktree_naming_pattern = zitree::treemin::config::WorktreeNamingPattern::BranchHash;
    config.worktree_dir_name = "/abs".to_string();
    assert_eq!(worktree_path("/tmp/repo", &config, "feature/test"), "/abs/feature-test-f843e6a0");
}

#[test]
fn hundreds_of_colliding_siblings_get_distinct_names() {
    let branches: Vec<String> = (0..30).map(|i| format!("x{}", "/".repeat(i + 1))).collect();
    let names: std::collections::BTreeSet<String> = branches
        .iter()
        .map(|b| session_name(None, b, &branches, false))
        .collect();
    assert_eq!(names.len(), 30);
}

#[test]
fn colliding_siblings_all_get_distinct_short_names() {
    let branches: Vec<String> = ["feature/x", "feature-x", "feature x", "feature--x", "feature//x"]
        .iter()
        .map(|b| b.to_string())
        .collect();
    let mut names: Vec<String> = branches
        .iter()
        .map(|b| session_name(Some("a-rather-long-repository-name"), b, &branches, false))
        .collect();
    for name in &names {
        assert!(name.len() <= 24);
        assert!(name.is_ascii());
    }
    names.sort();
    names.dedup();
    assert_eq!(names.len(), branches.len());
}

#[test]
fn branch_hash_worktree_is_one_directory() {
    let mut config = Config::default();
    config.worktree_naming_pattern = zitree::treemin::config::WorktreeNamingPattern::BranchHash;
    let path = worktree_path("/tmp/repo", &config, "feature/xyz");
    assert!(path.starts_with("/tmp/repo/.worktrees/feature-xyz-"));
    let name = &path["/tmp/repo/.worktrees/".len()..];
    assert!(!name.contains('/'));
    assert_eq!(name.len(), "feature-xyz-".len() + 8);
}

#[test]
fn sanitizing_twice_changes_nothing() {
    for input in ["  feature//x  ", "--a--b--", "", "ü/ö", "a|b.c_d", "---"] {
        let once = sanitize_session_segment(input);
        assert!(!once.is_empty());
        assert!(!once.starts_with('-') && !once.ends_with('-'));
        assert!(!once.contains("--"));
        assert_eq!(sanitize_session_segment(&once), once);
    }
}

#[test]
fn sibling_order_and_repeats_do_not_change_names() {
    let a = vec!["feature/test".to_string(), "feature-test".to_string(), "main".to_string()];
    let b = vec!["main".to_string(), "feature-test".to_string(), "feature/test".to_string(), "main".to_string()];
    for branch in ["feature/test", "feature-test", "other"] {
        assert_eq!(session_name(Some("repo"), branch, &a, false), session_name(Some("repo"), branch, &b, false));
        let config = Config::default();
        assert_eq!(
            session_name_candidates(Some("repo"), branch, &config, &a, false),
            session_name_candidates(Some("repo"), branch, &config, &b, false)
        );
    }
}

#[test]
fn candidates_are_distinct_and_start_with_the_session_name() {
    let config = Config::default();
    let siblings = vec!["x".to_string()];
    let c = session_name_candidates(Some("repo"), "x", &config, &siblings, false);
    assert_eq!(c[0], session_name(Some("repo"), "x", &siblings, false));
    let mut sorted = c.clone();
    sorted.sort();
    sorted.dedup();
    assert_eq!(sorted.len(), c.len());
    assert!(c.contains(&"repo-x".to_string()));
}
