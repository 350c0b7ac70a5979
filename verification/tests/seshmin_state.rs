use zitree::host_storage::{StorageError, StorageErrorKind};
use zitree::registry::test_treemin_registry;
use zitree::seshmin::item::SessionItem;
use zitree::seshmin::manager::{LiveSession, ResurrectableSession};
use zitree::seshmin::state::{ActiveScreen, Effect, ItemFilter, State, Status};
use zitree::seshmin::zoxide::ZoxideDirectory;
use zitree::treemin::state::{BareKey, KeyInput};

fn directory(ranking: u64, path: &str, session_name: &str) -> ZoxideDirectory {
    ZoxideDirectory {
        ranking,
        directory: path.to_string(),
        session_name: session_name.to_string(),
    }
}

fn live(name: &str, is_current_session: bool) -> LiveSession {
    LiveSession {
        name: name.to_string(),
        is_current_session,
        available_layouts: Vec::new(),
    }
}

fn dead(name: &str) -> ResurrectableSession {
    ResurrectableSession {
        name: name.to_string(),
        secs: 1,
        nanos: 0,
    }
}

fn plain(bare_key: BareKey) -> KeyInput {
    KeyInput { bare_key, ctrl: false, no_modifiers: true }
}

fn ctrl(bare_key: BareKey) -> KeyInput {
    KeyInput { bare_key, ctrl: true, no_modifiers: false }
}

fn position(items: &[SessionItem], pred: impl Fn(&SessionItem) -> bool) -> usize {
    items.iter().position(pred).unwrap()
}

#[test]
fn state_enter_opens_layout_picker_only_without_default_layout() {
    let mut state = State::default();
    state.directories = vec![directory(1, "/tmp/repo", "repo")];

    state.handle_enter_on_main();

    assert!(state.draft_session.is_some());
    assert_eq!(state.active_screen, ActiveScreen::NewSession);
}

#[test]
fn state_enter_skips_layout_picker_when_default_layout_is_set() {
    let mut state = State::default();
    state.config.default_layout = Some("dev".to_string());
    state.directories = vec![directory(1, "/tmp/repo", "repo")];

    state.handle_enter_on_main();

    assert!(state.draft_session.is_none());
    assert_eq!(state.active_screen, ActiveScreen::Main);
}

#[test]
fn state_delete_requires_selected_session_not_directory() {
    let mut state = State::default();
    state.directories = vec![directory(1, "/tmp/repo", "repo")];

    state.delete_selected_item();

    assert!(matches!(
        state.status,
        Status::Error(ref message)
            if message == "Select a live or resurrectable session to delete it."
    ));
}

#[test]
fn state_delete_refuses_current_session() {
    let mut state = State::default();
    state.directories = vec![directory(1, "/tmp/repo", "repo")];
    state.session_manager.update_sessions(vec![live("repo", true)]);

    state.delete_selected_item();

    assert!(matches!(
        state.status,
        Status::Error(ref message)
            if message == "Cannot delete the current session from inside itself."
    ));
}

#[test]
fn state_current_session_is_shown_but_not_selected() {
    let mut state = State::default();
    state.directories = vec![directory(2, "/tmp/repo", "repo")];
    state
        .session_manager
        .update_sessions(vec![live("repo", true), live("other-live", false)]);

    let items = state.display_items();

    assert!(items.iter().any(|item| matches!(
        item,
        SessionItem::ExistingSession { name, is_current: true, .. } if name == "repo"
    )));

    state.clamp_selection();

    assert!(matches!(
        state.selected_item(),
        Some(SessionItem::ExistingSession { name, is_current: false, .. }) if name == "other-live"
    ));

    assert!(matches!(
        state.display_items().first(),
        Some(SessionItem::ExistingSession { name, is_current: true, .. }) if name == "repo"
    ));
}

#[test]
fn state_current_session_only_list_has_no_selectable_item() {
    let mut state = State::default();
    state.session_manager.update_sessions(vec![live("repo", true)]);

    state.clamp_selection();

    assert!(state.selected_item().is_none());
    assert!(state.display_items().iter().any(|item| matches!(
        item,
        SessionItem::ExistingSession { name, is_current: true, .. } if name == "repo"
    )));
}

#[test]
fn state_shows_sessions_even_without_matching_directory() {
    let mut state = State::default();
    state.config.show_resurrectable_sessions = true;
    state.session_manager.update_sessions(vec![live("loose-live", false)]);
    state.session_manager.update_resurrectable_sessions(vec![dead("loose-dead")]);

    let items = state.display_items();

    assert!(items.iter().any(|item| matches!(
        item,
        SessionItem::ExistingSession { name, .. } if name == "loose-live"
    )));
    assert!(items.iter().any(|item| matches!(
        item,
        SessionItem::ResurrectableSession { name, .. } if name == "loose-dead"
    )));
}

#[test]
fn state_active_sessions_sort_before_other_items() {
    let mut state = State::default();
    state.config.show_resurrectable_sessions = true;
    state.directories = vec![
        directory(2, "/tmp/repo", "repo"),
        directory(1, "/tmp/other", "other"),
    ];
    state
        .session_manager
        .update_sessions(vec![live("loose-live", false), live("repo", false)]);
    state
        .session_manager
        .update_resurrectable_sessions(vec![dead("loose-dead"), dead("other")]);

    let items = state.display_items();
    let loose_live_index = position(&items, |item| {
        matches!(item, SessionItem::ExistingSession { name, .. } if name == "loose-live")
    });
    let loose_dead_index = position(&items, |item| {
        matches!(item, SessionItem::ResurrectableSession { name, .. } if name == "loose-dead")
    });
    let repo_index = position(&items, |item| {
        matches!(item, SessionItem::ExistingSession { name, .. } if name == "repo")
    });
    let other_index = position(&items, |item| {
        matches!(item, SessionItem::ResurrectableSession { name, .. } if name == "other")
    });

    assert!(repo_index < loose_live_index);
    assert!(loose_live_index < other_index);
    assert!(other_index < loose_dead_index);
}

#[test]
fn state_non_active_items_sort_by_zoxide_ranking() {
    let mut state = State::default();
    state.config.show_resurrectable_sessions = true;
    state.directories = vec![
        directory(9, "/tmp/high", "high"),
        directory(3, "/tmp/mid", "mid"),
        directory(1, "/tmp/low", "low"),
    ];
    state
        .session_manager
        .update_resurrectable_sessions(vec![dead("mid"), dead("loose")]);

    let items = state.display_items();
    let high_index = position(&items, |item| {
        matches!(item, SessionItem::Directory { session_name, .. } if session_name == "high")
    });
    let mid_index = position(&items, |item| {
        matches!(item, SessionItem::ResurrectableSession { name, .. } if name == "mid")
    });
    let low_index = position(&items, |item| {
        matches!(item, SessionItem::Directory { session_name, .. } if session_name == "low")
    });
    let loose_index = position(&items, |item| {
        matches!(item, SessionItem::ResurrectableSession { name, .. } if name == "loose")
    });

    assert!(high_index < mid_index);
    assert!(mid_index < low_index);
    assert!(low_index < loose_index);
}

#[test]
fn state_zoxide_only_filter_keeps_only_directory_backed_items() {
    let mut state = State::default();
    state.config.show_resurrectable_sessions = true;
    state.directories = vec![directory(2, "/tmp/repo", "repo")];
    state
        .session_manager
        .update_sessions(vec![live("repo", false), live("loose-live", false)]);
    state
        .session_manager
        .update_resurrectable_sessions(vec![dead("repo.2"), dead("loose-dead")]);
    state.item_filter = ItemFilter::ZoxideOnly;

    let items = state.display_items();

    assert!(!items.is_empty());
    assert!(items.iter().all(SessionItem::is_zoxide_item));
}

#[test]
fn state_non_zoxide_filter_hides_directory_backed_items() {
    let mut state = State::default();
    state.config.show_resurrectable_sessions = true;
    state.directories = vec![directory(2, "/tmp/repo", "repo")];
    state
        .session_manager
        .update_sessions(vec![live("repo", false), live("loose-live", false)]);
    state
        .session_manager
        .update_resurrectable_sessions(vec![dead("repo.2"), dead("loose-dead")]);
    state.item_filter = ItemFilter::NonZoxideOnly;

    let items = state.display_items();

    assert!(!items.is_empty());
    assert!(items.iter().all(|item| !item.is_zoxide_item()));
}

#[test]
fn state_filters_out_treemin_managed_sessions() {
    let registry = test_treemin_registry("/tmp/seshmin-registry-test");
    let missing = Err(StorageError {
        kind: StorageErrorKind::NotFound,
        message: "no such file".to_string(),
    });
    let contents = registry.add(missing, "repo-feature-a").unwrap();

    let mut state = State::default();
    state.config.show_resurrectable_sessions = true;
    state
        .session_manager
        .update_sessions(vec![live("repo-feature-a", false), live("plain-session", false)]);
    state
        .session_manager
        .update_resurrectable_sessions(vec![dead("repo-feature-a"), dead("plain-dead")]);

    let managed_sessions = registry.list(Ok(contents)).unwrap();
    state.filter_managed_sessions(&managed_sessions);

    let items = state.display_items();

    assert!(!items.iter().any(|item| matches!(
        item,
        SessionItem::ExistingSession { name, .. } if name == "repo-feature-a"
    )));
    assert!(!items.iter().any(|item| matches!(
        item,
        SessionItem::ResurrectableSession { name, .. } if name == "repo-feature-a"
    )));
    assert!(items.iter().any(|item| matches!(
        item,
        SessionItem::ExistingSession { name, .. } if name == "plain-session"
    )));
    assert!(items.iter().any(|item| matches!(
        item,
        SessionItem::ResurrectableSession { name, .. } if name == "plain-dead"
    )));
}

#[test]
fn state_directory_session_prefers_exact_resurrectable_match() {
    let mut state = State::default();
    state
        .session_manager
        .update_resurrectable_sessions(vec![dead("repo"), dead("repo.2")]);

    state.create_directory_session("/tmp/repo".to_string(), "repo".to_string(), true);

    assert!(matches!(state.status, Status::Loading));
}

#[test]
fn state_esc_clears_error_state() {
    let mut state = State::default();
    state.status = Status::Error("boom".to_string());
    state.sessions_loaded = true;
    state.directories_loaded = true;

    let (handled, _) = state.handle_key(plain(BareKey::Esc));

    assert!(handled);
    assert!(matches!(state.status, Status::Ready));
}

#[test]
fn state_waits_for_sessions_and_directories_before_ready() {
    let mut state = State::default();

    state.directories_loaded = true;
    state.sync_status();
    assert!(matches!(state.status, Status::Busy(ref message) if message == "Loading sessions..."));

    state.directories_loaded = false;
    state.sessions_loaded = true;
    state.sync_status();
    assert!(
        matches!(state.status, Status::Busy(ref message) if message == "Loading zoxide directories...")
    );

    state.directories_loaded = true;
    state.sync_status();
    assert!(matches!(state.status, Status::Ready));
}

#[test]
fn tests_enter_opens_layout_picker_only_without_default_layout() {
    let mut state = State::default();
    state.directories = vec![directory(1, "/tmp/repo", "repo")];

    state.handle_enter_on_main();

    assert!(state.draft_session.is_some());
    assert_eq!(state.active_screen, ActiveScreen::NewSession);
}

#[test]
fn tests_enter_skips_layout_picker_when_default_layout_is_set() {
    let mut state = State::default();
    state.config.default_layout = Some("dev".to_string());
    state.directories = vec![directory(1, "/tmp/repo", "repo")];

    state.handle_enter_on_main();

    assert!(state.draft_session.is_none());
    assert_eq!(state.active_screen, ActiveScreen::Main);
}

#[test]
fn tests_delete_requires_selected_session_not_directory() {
    let mut state = State::default();
    state.directories = vec![directory(1, "/tmp/repo", "repo")];

    state.delete_selected_item();

    assert!(matches!(
        state.status,
        Status::Error(ref message)
            if message == "Select a live or resurrectable session to delete it."
    ));
}

#[test]
fn tests_delete_refuses_current_session() {
    let mut state = State::default();
    state.directories = vec![directory(1, "/tmp/repo", "repo")];
    state.session_manager.update_sessions(vec![live("repo", true)]);

    state.delete_selected_item();

    assert!(matches!(
        state.status,
        Status::Error(ref message)
            if message == "Cannot delete the current session from inside itself."
    ));
}

#[test]
fn tests_current_session_is_shown_but_not_selected() {
    let mut state = State::default();
    state.directories = vec![directory(2, "/tmp/repo", "repo")];
    state
        .session_manager
        .update_sessions(vec![live("repo", true), live("other-live", false)]);

    let items = state.display_items();

    assert!(items.iter().any(|item| matches!(
        item,
        SessionItem::ExistingSession { name, is_current: true, .. } if name == "repo"
    )));

    state.clamp_selection();

    assert!(matches!(
        state.selected_item(),
        Some(SessionItem::ExistingSession { name, is_current: false, .. }) if name == "other-live"
    ));

    assert!(matches!(
        state.display_items().first(),
        Some(SessionItem::ExistingSession { name, is_current: true, .. }) if name == "repo"
    ));
}

#[test]
fn tests_current_session_only_list_has_no_selectable_item() {
    let mut state = State::default();
    state.session_manager.update_sessions(vec![live("repo", true)]);

    state.clamp_selection();

    assert!(state.selected_item().is_none());
    assert!(state.display_items().iter().any(|item| matches!(
        item,
        SessionItem::ExistingSession { name, is_current: true, .. } if name == "repo"
    )));
}

#[test]
fn tests_shows_sessions_even_without_matching_directory() {
    let mut state = State::default();
    state.config.show_resurrectable_sessions = true;
    state.session_manager.update_sessions(vec![live("loose-live", false)]);
    state.session_manager.update_resurrectable_sessions(vec![dead("loose-dead")]);

    let items = state.display_items();

    assert!(items.iter().any(|item| matches!(
        item,
        SessionItem::ExistingSession { name, .. } if name == "loose-live"
    )));
    assert!(items.iter().any(|item| matches!(
        item,
        SessionItem::ResurrectableSession { name, .. } if name == "loose-dead"
    )));
}

#[test]
fn tests_active_sessions_sort_before_other_items() {
    let mut state = State::default();
    state.config.show_resurrectable_sessions = true;
    state.directories = vec![
        directory(2, "/tmp/repo", "repo"),
        directory(1, "/tmp/other", "other"),
    ];
    state
        .session_manager
        .update_sessions(vec![live("loose-live", false), live("repo", false)]);
    state
        .session_manager
        .update_resurrectable_sessions(vec![dead("loose-dead"), dead("other")]);

    let items = state.display_items();
    let loose_live_index = position(&items, |item| {
        matches!(item, SessionItem::ExistingSession { name, .. } if name == "loose-live")
    });
    let loose_dead_index = position(&items, |item| {
        matches!(item, SessionItem::ResurrectableSession { name, .. } if name == "loose-dead")
    });
    let repo_index = position(&items, |item| {
        matches!(item, SessionItem::ExistingSession { name, .. } if name == "repo")
    });
    let other_index = position(&items, |item| {
        matches!(item, SessionItem::ResurrectableSession { name, .. } if name == "other")
    });

    assert!(repo_index < loose_live_index);
    assert!(loose_live_index < other_index);
    assert!(other_index < loose_dead_index);
}

#[test]
fn tests_non_active_items_sort_by_zoxide_ranking() {
    let mut state = State::default();
    state.config.show_resurrectable_sessions = true;
    state.directories = vec![
        directory(9, "/tmp/high", "high"),
        directory(3, "/tmp/mid", "mid"),
        directory(1, "/tmp/low", "low"),
    ];
    state
        .session_manager
        .update_resurrectable_sessions(vec![dead("mid"), dead("loose")]);

    let items = state.display_items();
    let high_index = position(&items, |item| {
        matches!(item, SessionItem::Directory { session_name, .. } if session_name == "high")
    });
    let mid_index = position(&items, |item| {
        matches!(item, SessionItem::ResurrectableSession { name, .. } if name == "mid")
    });
    let low_index = position(&items, |item| {
        matches!(item, SessionItem::Directory { session_name, .. } if session_name == "low")
    });
    let loose_index = position(&items, |item| {
        matches!(item, SessionItem::ResurrectableSession { name, .. } if name == "loose")
    });

    assert!(high_index < mid_index);
    assert!(mid_index < low_index);
    assert!(low_index < loose_index);
}

#[test]
fn tests_zoxide_only_filter_keeps_only_directory_backed_items() {
    let mut state = State::default();
    state.config.show_resurrectable_sessions = true;
    state.directories = vec![directory(2, "/tmp/repo", "repo")];
    state
        .session_manager
        .update_sessions(vec![live("repo", false), live("loose-live", false)]);
    state
        .session_manager
        .update_resurrectable_sessions(vec![dead("repo.2"), dead("loose-dead")]);
    state.item_filter = ItemFilter::ZoxideOnly;

    let items = state.display_items();

    assert!(!items.is_empty());
    assert!(items.iter().all(SessionItem::is_zoxide_item));
}

#[test]
fn tests_non_zoxide_filter_hides_directory_backed_items() {
    let mut state = State::default();
    state.config.show_resurrectable_sessions = true;
    state.directories = vec![directory(2, "/tmp/repo", "repo")];
    state
        .session_manager
        .update_sessions(vec![live("repo", false), live("loose-live", false)]);
    state
        .session_manager
        .update_resurrectable_sessions(vec![dead("repo.2"), dead("loose-dead")]);
    state.item_filter = ItemFilter::NonZoxideOnly;

    let items = state.display_items();

    assert!(!items.is_empty());
    assert!(items.iter().all(|item| !item.is_zoxide_item()));
}

#[test]
fn tests_filters_out_treemin_managed_sessions() {
    let registry = test_treemin_registry("/tmp/seshmin-registry-test");
    let missing = Err(StorageError {
        kind: StorageErrorKind::NotFound,
        message: "no such file".to_string(),
    });
    let contents = registry.add(missing, "repo-feature-a").unwrap();

    let mut state = State::default();
    state.config.show_resurrectable_sessions = true;
    state
        .session_manager
        .update_sessions(vec![live("repo-feature-a", false), live("plain-session", false)]);
    state
        .session_manager
        .update_resurrectable_sessions(vec![dead("repo-feature-a"), dead("plain-dead")]);

    let managed_sessions = registry.list(Ok(contents)).unwrap();
    state.filter_managed_sessions(&managed_sessions);

    let items = state.display_items();

    assert!(!items.iter().any(|item| matches!(
        item,
        SessionItem::ExistingSession { name, .. } if name == "repo-feature-a"
    )));
    assert!(!items.iter().any(|item| matches!(
        item,
        SessionItem::ResurrectableSession { name, .. } if name == "repo-feature-a"
    )));
    assert!(items.iter().any(|item| matches!(
        item,
        SessionItem::ExistingSession { name, .. } if name == "plain-session"
    )));
    assert!(items.iter().any(|item| matches!(
        item,
        SessionItem::ResurrectableSession { name, .. } if name == "plain-dead"
    )));
}

#[test]
fn tests_directory_session_prefers_exact_resurrectable_match() {
    let mut state = State::default();
    state
        .session_manager
        .update_resurrectable_sessions(vec![dead("repo"), dead("repo.2")]);

    state.create_directory_session("/tmp/repo".to_string(), "repo".to_string(), true);

    assert!(matches!(state.status, Status::Loading));
}

#[test]
fn tests_esc_clears_error_state() {
    let mut state = State::default();
    state.status = Status::Error("boom".to_string());
    state.sessions_loaded = true;
    state.directories_loaded = true;

    let (handled, _) = state.handle_key(plain(BareKey::Esc));

    assert!(handled);
    assert!(matches!(state.status, Status::Ready));
}

#[test]
fn tests_waits_for_sessions_and_directories_before_ready() {
    let mut state = State::default();

    state.directories_loaded = true;
    state.sync_status();
    assert!(matches!(state.status, Status::Busy(ref message) if message == "Loading sessions..."));

    state.directories_loaded = false;
    state.sessions_loaded = true;
    state.sync_status();
    assert!(
        matches!(state.status, Status::Busy(ref message) if message == "Loading zoxide directories...")
    );

    state.directories_loaded = true;
    state.sync_status();
    assert!(matches!(state.status, Status::Ready));
}

#[test]
fn directory_session_effects_start_and_hide() {
    let mut state = State::default();
    state.config.default_layout = Some("dev".to_string());
    state.session_manager.update_sessions(vec![live("repo", false)]);

    let effects = state.create_directory_session("/tmp/repo".to_string(), "repo".to_string(), true);

    assert_eq!(effects.len(), 2);
    assert!(matches!(
        &effects[0],
        Effect::SwitchSessionWithCwd { session, cwd } if session == "repo.2" && cwd == "/tmp/repo"
    ));
    assert!(matches!(effects[1], Effect::HideSelf));
}

#[test]
fn keys_are_ignored_while_loading() {
    let mut state = State::default();

    let (handled, effects) = state.handle_key(plain(BareKey::Char('x')));

    assert!(!handled);
    assert!(effects.is_empty());
    assert_eq!(state.search_term(), "");
}

#[test]
fn typing_searches_and_esc_clears() {
    let mut state = State::default();
    state.status = Status::Ready;
    state.directories = vec![directory(3, "/tmp/alpha", "alpha"), directory(2, "/tmp/beta", "beta")];

    state.handle_key(plain(BareKey::Char('b')));
    state.handle_key(plain(BareKey::Char('e')));

    assert_eq!(state.search_term(), "be");
    let items = state.display_items();
    assert!(matches!(
        items.first(),
        Some(SessionItem::Directory { session_name, .. }) if session_name == "beta"
    ));

    let (handled, effects) = state.handle_key(plain(BareKey::Esc));
    assert!(handled);
    assert!(effects.is_empty());
    assert_eq!(state.search_term(), "");

    let (handled, effects) = state.handle_key(plain(BareKey::Esc));
    assert!(!handled);
    assert!(matches!(effects.as_slice(), [Effect::HideSelf]));
}

#[test]
fn ctrl_f_cycles_filters() {
    let mut state = State::default();
    state.status = Status::Ready;

    state.handle_key(ctrl(BareKey::Char('f')));
    assert_eq!(state.item_filter, ItemFilter::ZoxideOnly);
    assert_eq!(state.item_filter.label(), "zoxide only");
    state.handle_key(ctrl(BareKey::Char('f')));
    assert_eq!(state.item_filter, ItemFilter::NonZoxideOnly);
    state.handle_key(ctrl(BareKey::Char('f')));
    assert_eq!(state.item_filter, ItemFilter::All);
}

#[test]
fn moving_skips_the_current_session_and_wraps() {
    let mut state = State::default();
    state.status = Status::Ready;
    state
        .session_manager
        .update_sessions(vec![live("current", true), live("a", false), live("b", false)]);
    state.clamp_selection();
    assert_eq!(state.selected_index, 1);

    state.handle_key(plain(BareKey::Down));
    assert_eq!(state.selected_index, 2);
    state.handle_key(plain(BareKey::Down));
    assert_eq!(state.selected_index, 1);
    state.handle_key(plain(BareKey::Up));
    assert_eq!(state.selected_index, 2);
}

#[test]
fn permission_answers() {
    let mut state = State::default();
    let effects = state.permission_result(true);
    assert!(matches!(effects.as_slice(), [Effect::QueryZoxide]));
    assert!(matches!(state.status, Status::Busy(ref m) if m == "Loading zoxide directories..."));

    let effects = state.permission_result(false);
    assert!(effects.is_empty());
    assert!(matches!(
        state.status,
        Status::Error(ref m) if m == "Permission request was denied. Reload the plugin and grant access."
    ));
}

#[test]
fn zoxide_failure_reports_stderr_or_a_hint() {
    let mut context = std::collections::BTreeMap::new();
    context.insert("zoxide_query".to_string(), "true".to_string());
    let mut state = State::default();

    let listing = state.handle_run_command_result(Some(1), &Vec::new(), &b"  boom \n".to_vec(), &context);
    assert!(listing.is_none());
    assert!(matches!(state.status, Status::Error(ref m) if m == "Failed to run zoxide. boom"));

    state.handle_run_command_result(None, &Vec::new(), &Vec::new(), &context);
    assert!(matches!(
        state.status,
        Status::Error(ref m) if m == "Failed to run zoxide. Is zoxide installed and on PATH?"
    ));

    let listing = state
        .handle_run_command_result(Some(0), &b"4 /tmp/a\n".to_vec(), &Vec::new(), &context)
        .unwrap();
    assert_eq!(listing, vec![("4".to_string(), "/tmp/a".to_string())]);

    let other = std::collections::BTreeMap::new();
    assert!(state.handle_run_command_result(Some(1), &Vec::new(), &Vec::new(), &other).is_none());
}

#[test]
fn loading_directories_and_sessions_makes_the_plugin_ready() {
    let mut state = State::default();
    assert!(state.load_directories(&vec![(5, "/tmp/repo".to_string())]));
    assert!(matches!(state.status, Status::Busy(ref m) if m == "Loading sessions..."));
    assert_eq!(state.directory_count(), 1);

    state.session_update(vec![live("repo.2", false)], Vec::new(), &Vec::new());
    assert!(matches!(state.status, Status::Ready));
    assert_eq!(state.session_count(), 1);
    assert!(matches!(
        state.display_items().first(),
        Some(SessionItem::ExistingSession { name, is_directory_session: true, .. }) if name == "repo.2"
    ));
}

#[test]
fn draft_form_creates_session_with_chosen_layout() {
    let mut state = State::default();
    state.status = Status::Ready;
    state.session_manager.update_sessions(vec![LiveSession {
        name: "main".to_string(),
        is_current_session: true,
        available_layouts: vec![zitree::seshmin::manager::LayoutRef { name: "dev".to_string(), id: 7 }],
    }]);
    state.directories = vec![directory(1, "/tmp/repo", "repo")];
    state.clamp_selection();
    state.handle_key(plain(BareKey::Enter));
    assert_eq!(state.active_screen, ActiveScreen::NewSession);
    assert_eq!(state.draft_session.as_ref().unwrap().layout_count(), 1);

    state.handle_key(plain(BareKey::Down));
    let (_, effects) = state.handle_key(plain(BareKey::Enter));
    assert!(matches!(
        &effects[0],
        Effect::SwitchSessionWithLayout { session, layout, cwd }
            if session == "repo" && layout.id == 7 && cwd == "/tmp/repo"
    ));
    assert!(matches!(effects[1], Effect::HideSelf));
}
