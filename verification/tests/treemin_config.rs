use std::collections::BTreeMap;

use zitree::treemin::config::{Config, RepoConfig, WorktreeNamingPattern};

#[test]
fn default_config_matches_existing_behavior() {
    let config = Config::default();

    assert_eq!(config.worktree_dir_name, ".worktrees");
    assert_eq!(config.session_prefix, None);
    assert_eq!(config.base_branch, None);
    assert_eq!(config.remote, "origin");
    assert!(!config.auto_fetch);
    assert_eq!(config.worktree_naming_pattern, WorktreeNamingPattern::Branch);
}

#[test]
fn kdl_config_parses_known_fields() {
    let mut kdl = BTreeMap::new();
    kdl.insert("worktree_dir_name".to_string(), "trees".to_string());
    kdl.insert("session_prefix".to_string(), "wt".to_string());
    kdl.insert("base_branch".to_string(), "main".to_string());
    kdl.insert("remote".to_string(), "upstream".to_string());
    kdl.insert("auto_fetch".to_string(), "true".to_string());
    kdl.insert(
        "worktree_naming_pattern".to_string(),
        "branch-hash".to_string(),
    );

    let config = Config::from_kdl(kdl);

    assert_eq!(config.worktree_dir_name, "trees");
    assert_eq!(config.session_prefix, Some("wt".to_string()));
    assert_eq!(config.base_branch, Some("main".to_string()));
    assert_eq!(config.remote, "upstream");
    assert!(config.auto_fetch);
    assert_eq!(config.worktree_naming_pattern, WorktreeNamingPattern::BranchHash);
}

#[test]
fn test_default_config() {
    let config = Config::default();
    assert_eq!(config.worktree_dir_name, ".worktrees");
    assert_eq!(config.remote, "origin");
    assert_eq!(config.auto_fetch, false);
    assert_eq!(config.worktree_naming_pattern, WorktreeNamingPattern::Branch);
    assert!(config.session_prefix.is_none());
    assert!(config.base_branch.is_none());
}

#[test]
fn test_from_kdl_basic() {
    let mut kdl = BTreeMap::new();
    kdl.insert("worktree_dir_name".to_string(), "trees".to_string());
    kdl.insert("session_prefix".to_string(), "wt".to_string());

    let config = Config::from_kdl(kdl);
    assert_eq!(config.worktree_dir_name, "trees");
    assert_eq!(config.session_prefix, Some("wt".to_string()));
}

#[test]
fn test_from_kdl_all_options() {
    let mut kdl = BTreeMap::new();
    kdl.insert("worktree_dir_name".to_string(), ".worktrees".to_string());
    kdl.insert("session_prefix".to_string(), "dev".to_string());
    kdl.insert("base_branch".to_string(), "main".to_string());
    kdl.insert("remote".to_string(), "upstream".to_string());
    kdl.insert("auto_fetch".to_string(), "true".to_string());
    kdl.insert("worktree_naming_pattern".to_string(), "branch-hash".to_string());

    let config = Config::from_kdl(kdl);
    assert_eq!(config.worktree_dir_name, ".worktrees");
    assert_eq!(config.session_prefix, Some("dev".to_string()));
    assert_eq!(config.base_branch, Some("main".to_string()));
    assert_eq!(config.remote, "upstream");
    assert_eq!(config.auto_fetch, true);
    assert_eq!(config.worktree_naming_pattern, WorktreeNamingPattern::BranchHash);
}

#[test]
fn test_empty_strings_ignored() {
    let mut kdl = BTreeMap::new();
    kdl.insert("worktree_dir_name".to_string(), "  ".to_string());
    kdl.insert("session_prefix".to_string(), "".to_string());

    let config = Config::from_kdl(kdl);
    assert_eq!(config.worktree_dir_name, ".worktrees");
    assert!(config.session_prefix.is_none());
}

#[test]
fn kdl_values_are_trimmed_and_case_insensitive() {
    let mut kdl = BTreeMap::new();
    kdl.insert("auto_fetch".to_string(), " TRUE ".to_string());
    kdl.insert("worktree_naming_pattern".to_string(), "bogus".to_string());
    kdl.insert("remote".to_string(), "  up  ".to_string());
    let config = Config::from_kdl(kdl);
    assert!(config.auto_fetch);
    assert_eq!(config.worktree_naming_pattern, WorktreeNamingPattern::Branch);
    assert_eq!(config.remote, "up");
}

#[test]
fn merge_keeps_kdl_values_that_the_repo_leaves_out() {
    let mut kdl = BTreeMap::new();
    kdl.insert("worktree_dir_name".to_string(), "kdl-trees".to_string());
    kdl.insert("session_prefix".to_string(), "kdl".to_string());
    let mut config = Config::from_kdl(kdl);
    config.merge(RepoConfig {
        worktree_dir_name: Some("repo-trees".to_string()),
        session_prefix: None,
        base_branch: Some("main".to_string()),
        remote: None,
        auto_fetch: None,
        worktree_naming_pattern: None,
    });
    assert_eq!(config.worktree_dir_name, "repo-trees");
    assert_eq!(config.session_prefix, Some("kdl".to_string()));
    assert_eq!(config.base_branch, Some("main".to_string()));
}

#[test]
fn repo_file_over_kdl_over_defaults() {
    let mut kdl = BTreeMap::new();
    kdl.insert("worktree_dir_name".to_string(), "kdl-trees".to_string());
    kdl.insert("session_prefix".to_string(), "kdl".to_string());
    kdl.insert("remote".to_string(), "upstream".to_string());
    let mut config = Config::from_kdl(kdl);
    config.merge(RepoConfig {
        worktree_dir_name: Some("  repo-trees ".to_string()),
        session_prefix: None,
        base_branch: Some("main".to_string()),
        remote: Some("origin".to_string()),
        auto_fetch: Some(true),
        worktree_naming_pattern: Some(WorktreeNamingPattern::Hash),
    });
    assert_eq!(config.worktree_dir_name, "repo-trees");
    assert_eq!(config.session_prefix, Some("kdl".to_string()));
    assert_eq!(config.base_branch, Some("main".to_string()));
    // A repository setting wins even where it equals the default.
    assert_eq!(config.remote, "origin");
    assert!(config.auto_fetch);
    assert_eq!(config.worktree_naming_pattern, WorktreeNamingPattern::Hash);
}

#[test]
fn repo_file_setting_to_default_overrides_kdl() {
    let mut kdl = BTreeMap::new();
    kdl.insert("remote".to_string(), "upstream".to_string());
    kdl.insert("auto_fetch".to_string(), "true".to_string());
    let mut config = Config::from_kdl(kdl);
    config.merge(RepoConfig {
        worktree_dir_name: None,
        session_prefix: None,
        base_branch: None,
        remote: Some("origin".to_string()),
        auto_fetch: Some(false),
        worktree_naming_pattern: None,
    });
    assert_eq!(config.remote, "origin");
    assert!(!config.auto_fetch);
    assert_eq!(config.worktree_dir_name, ".worktrees");
}
