use zitree::host_storage::{StorageError, StorageErrorKind};
use zitree::registry::test_treemin_registry;

fn missing() -> Result<String, StorageError> {
    Err(StorageError { kind: StorageErrorKind::NotFound, message: "no such file".to_string() })
}

#[test]
fn registry_add_lists_sorted_names_and_remove_restores() {
    let registry = test_treemin_registry("/tmp/registry-law-test");
    let one = registry.add(missing(), "repo|b").unwrap();
    let two = registry.add(Ok(one.clone()), "repo|a").unwrap();
    assert_eq!(two, "repo|a\nrepo|b\n");
    assert_eq!(registry.list(Ok(two.clone())).unwrap(), vec!["repo|a".to_string(), "repo|b".to_string()]);
    // Adding twice is adding once.
    assert_eq!(registry.add(Ok(two.clone()), "repo|a").unwrap(), two);
    // Removing what was added gives back the earlier names.
    let back = registry.remove(Ok(two), "repo|a").unwrap();
    assert_eq!(registry.list(Ok(back)).unwrap(), vec!["repo|b".to_string()]);
}

#[test]
fn registry_read_errors_other_than_missing_are_returned() {
    let registry = test_treemin_registry("/tmp/registry-law-test");
    let denied = Err(StorageError { kind: StorageErrorKind::Other, message: "denied".to_string() });
    assert!(registry.add(denied, "x").is_err());
    assert!(registry.list(missing()).unwrap().is_empty());
}
