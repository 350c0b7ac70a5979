use zitree::seshmin::session::{matching_directory, validate_session_name};
use zitree::seshmin::zoxide::{ZoxideDirectory, MAX_SESSION_NAME_LEN};

fn repo_directory() -> Vec<ZoxideDirectory> {
    vec![ZoxideDirectory {
        ranking: 1,
        directory: "/tmp/repo".to_string(),
        session_name: "repo".to_string(),
    }]
}

#[test]
fn validation_validates_session_names() {
    assert!(validate_session_name("dev").is_ok());
    assert!(validate_session_name("").is_err());
    assert!(validate_session_name("dev/test").is_err());
    assert!(validate_session_name(&"a".repeat(MAX_SESSION_NAME_LEN)).is_ok());
    assert!(validate_session_name(&"a".repeat(MAX_SESSION_NAME_LEN + 1)).is_err());
}

#[test]
fn state_validates_session_names() {
    assert!(validate_session_name("dev").is_ok());
    assert!(validate_session_name("").is_err());
    assert!(validate_session_name("dev/test").is_err());
    assert!(validate_session_name(&"a".repeat(MAX_SESSION_NAME_LEN)).is_ok());
    assert!(validate_session_name(&"a".repeat(MAX_SESSION_NAME_LEN + 1)).is_err());
}

#[test]
fn session_name_errors_say_what_is_wrong() {
    assert_eq!(validate_session_name("").unwrap_err(), "Session name cannot be empty.");
    assert_eq!(validate_session_name("a/b").unwrap_err(), "Session name cannot contain '/'.");
    assert_eq!(
        validate_session_name(&"é".repeat(13)).unwrap_err(),
        "Session name must be at most 24 bytes."
    );
    assert!(validate_session_name(&"é".repeat(12)).is_ok());
}

#[test]
fn state_matches_incremented_session_names() {
    let directories = repo_directory();

    assert!(matching_directory("repo.3", &directories, ".").is_some());
    assert!(matching_directory("repo-x", &directories, ".").is_none());
}

#[test]
fn tests_matches_incremented_session_names() {
    let directories = repo_directory();

    assert!(matching_directory("repo.3", &directories, ".").is_some());
    assert!(matching_directory("repo-x", &directories, ".").is_none());
}

#[test]
fn matching_needs_digits_after_the_separator() {
    let directories = repo_directory();

    assert_eq!(matching_directory("repo", &directories, "."), Some(0));
    assert_eq!(matching_directory("repo.", &directories, "."), None);
    assert_eq!(matching_directory("repo.2a", &directories, "."), None);
    assert_eq!(matching_directory("repo_12", &directories, "_"), Some(0));
}
