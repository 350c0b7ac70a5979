use zitree::seshmin::config::Config;
use zitree::seshmin::zoxide::{parse_directories, zoxide_lines, ZoxideDirectory, MAX_SESSION_NAME_LEN};

/// The rank key of a zoxide score: the order of the keys is the order of the scores.
fn rank_key(score: f64) -> u64 {
    let bits = score.to_bits();
    if bits >> 63 == 1 {
        !bits
    } else {
        bits | (1 << 63)
    }
}

/// The listing's lines whose score reads as a number, with their rank keys.
fn directories_of(output: &str, config: &Config) -> Vec<ZoxideDirectory> {
    let entries = zoxide_lines(output)
        .into_iter()
        .filter_map(|(score, path)| score.parse::<f64>().ok().map(|s| (rank_key(s), path)))
        .collect::<Vec<_>>();
    parse_directories(&entries, config)
}

#[test]
fn mod_strips_base_path_when_generating_names() {
    let config = Config {
        base_paths: vec!["/home/user/projects".to_string()],
        ..Config::default()
    };

    let directories = directories_of(
        "10 /home/user/projects/client/app\n9 /home/user/projects/admin/app\n",
        &config,
    );

    assert_eq!(directories[0].session_name, "app");
    assert_eq!(directories[1].session_name, "admin.app");
}

#[test]
fn mod_keeps_nested_directories_contextual() {
    let config = Config::default();

    let directories = directories_of(
        "10 /home/user/projects/api\n9 /home/user/projects/api/backend\n",
        &config,
    );

    assert_eq!(directories[0].session_name, "api");
    assert_eq!(directories[1].session_name, "backend");
}

#[test]
fn filters_ignored_directories_and_descendants() {
    let config = Config {
        ignored_directories: vec!["/home/user/projects/archive".to_string()],
        ..Config::default()
    };

    let directories = directories_of(
        "10 /home/user/projects/app\n9 /home/user/projects/archive\n8 /home/user/projects/archive/old\n",
        &config,
    );

    assert_eq!(directories.len(), 1);
    assert_eq!(directories[0].directory, "/home/user/projects/app");
}

#[test]
fn filters_to_search_directories_and_descendants() {
    let config = Config {
        search_directories: vec!["/home/user/projects".to_string()],
        ..Config::default()
    };

    let directories = directories_of(
        "10 /home/user/projects/app\n9 /home/user/projects/api/backend\n8 /home/user/other\n",
        &config,
    );

    assert_eq!(directories.len(), 2);
    assert_eq!(directories[0].directory, "/home/user/projects/app");
    assert_eq!(directories[1].directory, "/home/user/projects/api/backend");
}

#[test]
fn generated_names_stay_within_socket_safe_limit() {
    let config = Config::default();

    let directories = directories_of(
        "10 /home/user/projects/this-is-a-very-long-directory-name/backend/service-api\n",
        &config,
    );

    assert!(directories[0].session_name.len() <= MAX_SESSION_NAME_LEN);
}

#[test]
fn directories_sort_by_rank_after_naming() {
    let config = Config::default();

    let directories = directories_of("1 /a/app\n5 /b/app\n  \nbogus\n", &config);

    assert_eq!(directories.len(), 2);
    assert_eq!(directories[0].directory, "/b/app");
    assert_eq!(directories[0].session_name, "b.app");
    assert_eq!(directories[1].directory, "/a/app");
    assert_eq!(directories[1].session_name, "app");
}

#[test]
fn zoxide_lines_split_score_from_path() {
    let lines = zoxide_lines("  12.5 /home/me/dir with space \n\nnoscore\n");

    assert_eq!(lines, vec![("12.5".to_string(), "/home/me/dir with space".to_string())]);
}
