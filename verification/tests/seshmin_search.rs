use zitree::seshmin::item::SessionItem;
use zitree::seshmin::search::{search_text, SearchEngine};

fn dir(path: &str, session: &str, rank: u64) -> SessionItem {
    SessionItem::Directory { path: path.to_string(), session_name: session.to_string(), zoxide_ranking: rank }
}

fn items() -> Vec<SessionItem> {
    vec![
        dir("/home/user/projects/api", "api", 10),
        dir("/home/user/projects/web", "web", 9),
        dir("/srv/apps/apiary", "apiary", 8),
        SessionItem::ExistingSession {
            name: "api.2".to_string(),
            directory: "/home/user/projects/api".to_string(),
            is_current: true,
            is_directory_session: true,
            zoxide_ranking: Some(10),
        },
    ]
}

#[test]
fn search_shows_only_matching_entries_best_first() {
    let items = items();
    let mut search = SearchEngine::new();
    for c in "api".chars() {
        search.add_char(c, &items);
    }
    assert_eq!(search.search_term(), "api");
    let results = search.results();
    assert!(!results.is_empty());
    assert!(results.iter().all(|r| !matches!(&r.item, SessionItem::Directory { session_name, .. } if session_name == "web")));
    for pair in results.windows(2) {
        assert!(pair[0].score >= pair[1].score);
    }
    // The current session is listed but never selected.
    if let Some(i) = search.selected_index() {
        assert!(!matches!(&results[i].item, SessionItem::ExistingSession { is_current: true, .. }));
    }
}

#[test]
fn search_with_empty_term_shows_nothing() {
    let items = items();
    let mut search = SearchEngine::new();
    search.add_char('a', &items);
    search.backspace(&items);
    assert_eq!(search.search_term(), "");
    assert!(search.results().is_empty());
    assert_eq!(search.selected_index(), None);
}

#[test]
fn search_text_joins_the_fields() {
    assert_eq!(search_text(&dir("/tmp/repo", "repo", 1)), "/tmp/repo repo");
    let live = SessionItem::ExistingSession {
        name: "dev".to_string(),
        directory: "/tmp/dev".to_string(),
        is_current: true,
        is_directory_session: true,
        zoxide_ranking: Some(1),
    };
    assert_eq!(search_text(&live), "dev /tmp/dev current");
}

#[test]
fn default_search_is_empty() {
    let search = SearchEngine::default();
    assert_eq!(search.search_term(), "");
    assert!(search.results().is_empty());
    assert_eq!(search.selected_index(), None);
}
