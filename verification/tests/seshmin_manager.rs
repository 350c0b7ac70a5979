use zitree::seshmin::manager::{LayoutRef, LiveSession, ResurrectableSession, SessionDeletion, SessionManager};

fn dead(name: &str) -> ResurrectableSession {
    ResurrectableSession { name: name.to_string(), secs: 1, nanos: 0 }
}

#[test]
fn manager_increments_conflicting_session_names() {
    let mut manager = SessionManager::default();
    manager.update_resurrectable_sessions(vec![dead("api"), dead("api.2")]);

    assert_eq!(manager.generate_incremented_name("api", ".", 24), "api.3");
}

#[test]
fn incremented_names_respect_max_length() {
    let mut manager = SessionManager::new();
    manager.update_resurrectable_sessions(vec![dead("abcdefghijklmnopqrst.2")]);

    let name = manager.generate_incremented_name("abcdefghijklmnopqrstuvwx", ".", 24);

    assert_eq!(name, "abcdefghijklmnopqrst.3");
    assert!(name.len() <= 24);
}

#[test]
fn finds_exact_resurrectable_session_name() {
    let mut manager = SessionManager::new();
    manager.update_resurrectable_sessions(vec![dead("api"), dead("api.2")]);

    assert_eq!(manager.resurrectable_session_name("api"), Some("api".to_string()));
    assert_eq!(manager.resurrectable_session_name("missing"), None);
}

#[test]
fn free_names_are_kept_and_live_names_count_as_taken() {
    let mut manager = SessionManager::new();
    assert_eq!(manager.generate_incremented_name("web", ".", 24), "web");
    manager.update_sessions(vec![LiveSession {
        name: "web".to_string(),
        is_current_session: false,
        available_layouts: Vec::new(),
    }]);
    assert_eq!(manager.generate_incremented_name("web", "-", 24), "web-2");
}

#[test]
fn current_session_and_layouts() {
    let mut manager = SessionManager::new();
    manager.update_sessions(vec![
        LiveSession { name: "a".to_string(), is_current_session: false, available_layouts: Vec::new() },
        LiveSession {
            name: "b".to_string(),
            is_current_session: true,
            available_layouts: vec![LayoutRef { name: "dev".to_string(), id: 3 }],
        },
    ]);

    assert_eq!(manager.current_session_name(), Some("b".to_string()));
    assert_eq!(manager.current_layouts(), vec![LayoutRef { name: "dev".to_string(), id: 3 }]);
    assert!(matches!(manager.delete_session("a"), SessionDeletion::Kill(ref n) if n == "a"));
}

#[test]
fn retained_sessions_drop_the_excluded_names() {
    let mut manager = SessionManager::new();
    manager.update_sessions(vec![
        LiveSession { name: "keep".to_string(), is_current_session: false, available_layouts: Vec::new() },
        LiveSession { name: "drop".to_string(), is_current_session: false, available_layouts: Vec::new() },
    ]);
    manager.update_resurrectable_sessions(vec![dead("drop"), dead("old")]);
    let excluded = vec!["drop".to_string()];

    manager.retain_sessions(&excluded);
    manager.retain_resurrectable_sessions(&excluded);

    assert_eq!(manager.sessions().len(), 1);
    assert_eq!(manager.sessions()[0].name, "keep");
    assert_eq!(manager.resurrectable_sessions().len(), 1);
    assert_eq!(manager.resurrectable_sessions()[0].name, "old");
    assert!(matches!(manager.delete_session("old"), SessionDeletion::DeleteDead(ref n) if n == "old"));
}

#[test]
fn a_free_short_name_is_found_among_many_sessions() {
    let mut manager = SessionManager::default();
    let mut taken = vec![dead("project-with-a-long-name")];
    for i in 2..200 {
        taken.push(dead(&format!("project-with-a-long-na.{}", i)));
    }
    manager.update_resurrectable_sessions(taken);
    let name = manager.generate_incremented_name("project-with-a-long-name", ".", 24);
    assert!(name.len() <= 24);
    assert!(!manager.resurrectable_sessions().iter().any(|s| s.name == name));
    assert!(!name.ends_with("overflow"));
}
