use sedx::error_helpers::{
    dir_create_error, is_not_found, is_permission_denied, not_found_error, permission_error, IoErrorKind, IoFailure,
};

fn failure(kind: IoErrorKind, message: &str) -> IoFailure {
    IoFailure { kind, message: message.to_string() }
}

#[test]
fn test_is_permission_denied() {
    let perm_err = failure(IoErrorKind::PermissionDenied, "access denied");
    assert!(is_permission_denied(&perm_err));

    let not_found_err = failure(IoErrorKind::NotFound, "not found");
    assert!(!is_permission_denied(&not_found_err));
}

#[test]
fn test_is_not_found() {
    let not_found_err = failure(IoErrorKind::NotFound, "not found");
    assert!(is_not_found(&not_found_err));

    let perm_err = failure(IoErrorKind::PermissionDenied, "access denied");
    assert!(!is_not_found(&perm_err));
}

#[test]
fn test_permission_error_formatting() {
    let path = "/tmp/test.txt";
    let msg = permission_error(path, "reading");
    assert!(msg.contains("Permission denied"));
    assert!(msg.contains("reading"));
    assert!(msg.contains("/tmp/test.txt"));
    assert!(msg.contains("Possible fixes"));
}

#[test]
fn test_not_found_error_formatting() {
    let path = "/home/user/file.txt";
    let msg = not_found_error(path, "processing file");
    assert!(msg.contains("File not found"));
    assert!(msg.contains("/home/user/file.txt"));
    assert!(msg.contains("processing file"));
    assert!(msg.contains("Possible fixes"));
}

#[test]
fn permission_error_names_the_parent_directory() {
    let msg = permission_error("/tmp/dir/test.txt", "writing");
    assert!(msg.starts_with("Permission denied when writing '/tmp/dir/test.txt'\n\nPossible fixes:\n"));
    assert!(msg.contains("chmod u+w '/tmp/dir'"));
}

#[test]
fn permission_error_without_parent_uses_dot() {
    let msg = permission_error("/", "reading");
    assert!(msg.contains("chmod u+w '.'"));
}

#[test]
fn dir_create_error_explains_each_cause() {
    let denied = dir_create_error("/srv/backups", &failure(IoErrorKind::PermissionDenied, "denied"));
    assert!(denied.starts_with("Failed to create directory: '/srv/backups'\n\nCause: Permission denied"));
    assert!(denied.contains("ls -la '/srv'"));
    assert!(denied.contains("mkdir -p '/srv/backups'"));

    let missing = dir_create_error("/srv/backups", &failure(IoErrorKind::NotFound, "missing"));
    assert!(missing.contains("Cause: Parent directory does not exist"));
    assert!(missing.contains("mkdir -p '/srv'"));

    let other = dir_create_error("/srv/backups", &failure(IoErrorKind::Other, "disk on fire"));
    assert_eq!(other, "Failed to create directory: '/srv/backups'\n\nUnderlying error: disk on fire");
}
