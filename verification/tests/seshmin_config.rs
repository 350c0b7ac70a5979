use std::collections::BTreeMap;

use zitree::seshmin::config::Config;

#[test]
fn defaults_match_expected_behavior() {
    let config = Config::default();

    assert_eq!(config.default_layout, None);
    assert_eq!(config.session_separator, ".");
    assert!(!config.show_resurrectable_sessions);
    assert!(config.base_paths.is_empty());
    assert!(config.search_directories.is_empty());
    assert!(config.ignored_directories.is_empty());
}

#[test]
fn parses_kdl_values() {
    let config = Config::from_kdl(BTreeMap::from([
        ("default_layout".to_string(), "dev".to_string()),
        ("session_separator".to_string(), "_".to_string()),
        ("show_resurrectable_sessions".to_string(), "true".to_string()),
        ("base_paths".to_string(), "/home/user/projects| /tmp/work ".to_string()),
        ("search_directories".to_string(), "/home/user/projects| /tmp/work ".to_string()),
        (
            "ignored_directories".to_string(),
            "/home/user/projects/archive| /tmp/scratch ".to_string(),
        ),
    ]));

    assert_eq!(config.default_layout.as_deref(), Some("dev"));
    assert_eq!(config.session_separator, "_");
    assert!(config.show_resurrectable_sessions);
    assert_eq!(config.base_paths, vec!["/home/user/projects", "/tmp/work"]);
    assert_eq!(config.search_directories, vec!["/home/user/projects", "/tmp/work"]);
    assert_eq!(config.ignored_directories, vec!["/home/user/projects/archive", "/tmp/scratch"]);
}

#[test]
fn blank_values_fall_back_to_defaults() {
    let config = Config::from_kdl(BTreeMap::from([
        ("default_layout".to_string(), "   ".to_string()),
        ("session_separator".to_string(), " ".to_string()),
        ("show_resurrectable_sessions".to_string(), "yes".to_string()),
        ("base_paths".to_string(), " | |".to_string()),
    ]));

    assert_eq!(config.default_layout, None);
    assert_eq!(config.session_separator, ".");
    assert!(!config.show_resurrectable_sessions);
    assert!(config.base_paths.is_empty());
}
