use zitree::zessionz::config::Config;
use zitree::seshmin::zoxide::zoxide_lines;
use zitree::ui::style::visible_width;
use zitree::zessionz::item::SessionItem;
use zitree::zessionz::ui::{render_item_line, truncate, visible_layout_slice, visible_range};
use zitree::zessionz::zoxide::{generate_session_name, parse_directories, MAX_SESSION_NAME_LEN};

fn rank_key(score: f64) -> u64 {
    let bits = score.to_bits();
    if bits >> 63 == 1 {
        !bits
    } else {
        bits | (1 << 63)
    }
}

fn entries_of(output: &str) -> Vec<(u64, String)> {
    zoxide_lines(output)
        .into_iter()
        .filter_map(|(score, path)| score.parse::<f64>().ok().map(|s| (rank_key(s), path)))
        .collect()
}

#[test]
fn zessionz_strips_base_path_when_generating_names() {
    let config = Config {
        base_paths: vec!["/home/user/projects".to_string()],
        ..Config::default()
    };

    let directories = parse_directories(
        &entries_of("10 /home/user/projects/client/app\n9 /home/user/projects/admin/app\n"),
        &config,
    )
    .unwrap();

    assert_eq!(directories[0].session_name, "client.app");
    assert_eq!(directories[1].session_name, "admin.app");
}

#[test]
fn zessionz_keeps_nested_directories_contextual() {
    let config = Config::default();

    let directories = parse_directories(
        &entries_of("10 /home/user/projects/api\n9 /home/user/projects/api/backend\n"),
        &config,
    )
    .unwrap();

    assert_eq!(directories[0].session_name, "api");
    assert_eq!(directories[1].session_name, "api.backend");
}

#[test]
fn zessionz_names_fit_and_root_is_named() {
    let config = Config::default();
    let all = vec!["/".to_string(), "/a/very-long-directory-name-here/and-another-long-one".to_string()];

    assert_eq!(generate_session_name("/", &all, &config), Some("root".to_string()));
    let long = generate_session_name(&all[1], &all, &config).unwrap();
    assert!(long.len() <= MAX_SESSION_NAME_LEN);
}

#[test]
fn truncates_with_an_ellipsis() {
    assert_eq!(truncate("abcdef", 10), "abcdef");
    assert_eq!(truncate("abcdef", 4), "abc…");
    assert_eq!(truncate("abcdef", 1), "a");
    assert_eq!(truncate("abcdef", 0), "");
}

#[test]
fn item_lines_show_marker_icon_and_details() {
    let item = SessionItem::Directory {
        path: "/home/user/projects/app".to_string(),
        session_name: "app".to_string(),
    };
    let line = render_item_line(&item, false, 20);
    assert!(line.starts_with("  "));
    assert!(line.contains("/home/use…"));
    assert!(line.contains("[app]"));

    let live = SessionItem::ExistingSession {
        name: "api".to_string(),
        directory: "/tmp/api".to_string(),
        is_current: true,
    };
    let line = render_item_line(&live, true, 40);
    assert!(line.contains("→"));
    assert!(line.contains("★ current"));
    assert_eq!(visible_width(&line), "→ ● api (/tmp/api) ★ current".chars().count());
    assert!(live.is_existing_session());
    assert_eq!(live.label(), "api");
}

#[test]
fn visible_range_keeps_selection_in_view() {
    assert_eq!(visible_range(0, 0, 10), (0, 0));
    assert_eq!(visible_range(10, 0, 4), (0, 4));
    assert_eq!(visible_range(10, 5, 4), (3, 4));
    assert_eq!(visible_range(10, 9, 4), (6, 4));
    assert_eq!(visible_range(2, 1, 1), (0, 2));
}

#[test]
fn layout_slice_starts_with_no_layout() {
    let names = vec!["dev".to_string(), "ops".to_string()];
    let rows = visible_layout_slice(&names, 1, 10, 3);
    assert_eq!(
        rows,
        vec![
            (0, "No layout".to_string(), false),
            (1, "dev".to_string(), true),
            (2, "ops".to_string(), false),
        ]
    );
}
