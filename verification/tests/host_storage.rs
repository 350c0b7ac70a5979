use zitree::host_storage::{HostStorage, StorageErrorKind};

#[test]
fn builds_namespace_under_host_root() {
    let storage = HostStorage::new("treemin").unwrap();

    assert_eq!(storage.root(), "/tmp/treemin");
}

#[test]
fn rejects_absolute_namespace() {
    let error = HostStorage::new("/tmp/nope").unwrap_err();

    assert_eq!(error.kind(), StorageErrorKind::InvalidInput);
}

#[test]
fn rejects_parent_directory_escape() {
    let error = HostStorage::new("../escape").unwrap_err();

    assert_eq!(error.kind(), StorageErrorKind::InvalidInput);
}

#[test]
fn joins_relative_paths_under_namespace() {
    let storage = HostStorage::with_host_root("/tmp/host", "seshmin").unwrap();

    assert_eq!(
        storage.path("state/cache.json").unwrap(),
        "/tmp/host/seshmin/state/cache.json".to_string()
    );
}

#[test]
fn rejects_relative_paths_that_escape_namespace() {
    let storage = HostStorage::with_host_root("/tmp/host", "seshmin").unwrap();
    let error = storage.path("../cache.json").unwrap_err();

    assert_eq!(error.kind(), StorageErrorKind::InvalidInput);
}

#[test]
fn rejects_empty_and_absolute_relative_paths() {
    let storage = HostStorage::with_host_root("/tmp/host", "seshmin").unwrap();

    assert_eq!(storage.path("").unwrap_err().kind(), StorageErrorKind::InvalidInput);
    assert_eq!(storage.path("/etc/passwd").unwrap_err().kind(), StorageErrorKind::InvalidInput);
    assert_eq!(storage.path("a/./b").unwrap(), "/tmp/host/seshmin/a/./b".to_string());
}

#[test]
fn host_root_trailing_slash_is_joined_once() {
    let storage = HostStorage::with_host_root("/tmp/host/", "ns").unwrap();

    assert_eq!(storage.root(), "/tmp/host/ns");
}
