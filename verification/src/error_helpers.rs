//! Error messages that say what went wrong with a file and how to fix it.
use vstd::prelude::*;
use crate::text::{push_str, str_to_string};

verus! {

broadcast use vstd::string::group_string_axioms;

/// The kinds of I/O failure the messages tell apart.
#[derive(Debug, Clone, Copy, PartialEq, Eq, Structural)]
pub enum IoErrorKind {
    PermissionDenied,
    NotFound,
    Other,
}

/// An I/O failure: its kind and its message.
#[derive(Debug, Clone)]
pub struct IoFailure {
    pub kind: IoErrorKind,
    pub message: String,
}

/// The parent directory of a path, as `std::path::Path::parent` gives it.
pub uninterp spec fn path_parent(path: Seq<char>) -> Option<Seq<char>>;

/// `Path::new(path).parent()`, shown as text. What the parent is depends
/// on the path alone; it is named by `path_parent`, not stated.
#[verifier::external_body]
fn parent_of(path: &str) -> (r: Option<String>)
    ensures
        match r {
            Some(p) => path_parent(path@) == Some(p@),
            None => path_parent(path@) is None,
        },
{
    match std::path::Path::new(path).parent() {
        Some(p) => Some(p.display().to_string()),
        None => None,
    }
}

/// The parent directory of a path, or "." when it has none.
pub open spec fn parent_or_dot(path: Seq<char>) -> Seq<char> {
    match path_parent(path) {
        Some(p) => p,
        None => "."@,
    }
}

fn parent_or_dot_exec(path: &str) -> (r: String)
    ensures
        r@ == parent_or_dot(path@),
{
    match parent_of(path) {
        Some(p) => p,
        None => str_to_string("."),
    }
}

/// Whether a failure is a permission denial.
pub fn is_permission_denied(err: &IoFailure) -> (b: bool)
    ensures
        b == (err.kind == IoErrorKind::PermissionDenied),
{
    err.kind == IoErrorKind::PermissionDenied
}

/// Whether a failure is a missing file or directory.
pub fn is_not_found(err: &IoFailure) -> (b: bool)
    ensures
        b == (err.kind == IoErrorKind::NotFound),
{
    err.kind == IoErrorKind::NotFound
}

/// The message for a permission denied while `operation` on `path`.
pub open spec fn permission_text(path: Seq<char>, operation: Seq<char>) -> Seq<char> {
    "Permission denied when "@ + operation + " '"@ + path + "'\n\nPossible fixes:\n1. Check file permissions: ls -l '"@
        + path + "'\n2. If directory: Ensure write access with: chmod u+w '"@ + parent_or_dot(path)
        + "'\n3. If owned by another user: Try with sudo (not recommended)\n4. For backup operations: Use --no-backup to skip backup creation"@
}

/// A message for a permission denied while `operation` (such as
/// "reading") on `path`, with possible fixes.
pub fn permission_error(path: &str, operation: &str) -> (s: String)
    ensures
        s@ == permission_text(path@, operation@),
{
    let parent_dir = parent_or_dot_exec(path);
    let mut s = str_to_string("Permission denied when ");
    push_str(&mut s, operation);
    push_str(&mut s, " '");
    push_str(&mut s, path);
    push_str(&mut s, "'\n\nPossible fixes:\n1. Check file permissions: ls -l '");
    push_str(&mut s, path);
    push_str(&mut s, "'\n2. If directory: Ensure write access with: chmod u+w '");
    push_str(&mut s, parent_dir.as_str());
    push_str(
        &mut s,
        "'\n3. If owned by another user: Try with sudo (not recommended)\n4. For backup operations: Use --no-backup to skip backup creation",
    );
    s
}

/// The message for a missing `path`, met while doing `context`.
pub open spec fn not_found_text(path: Seq<char>, context: Seq<char>) -> Seq<char> {
    "File not found: '"@ + path + "'\n\nContext: "@ + context
        + "\n\nPossible fixes:\n1. Check the file path is correct\n2. Use an absolute path if the relative path is ambiguous\n3. Create the file first if it doesn't exist: touch '"@
        + path + "'\n4. Check if the file exists in a different directory"@
}

/// A message for a missing `path`, met while doing `context`, with
/// possible fixes.
pub fn not_found_error(path: &str, context: &str) -> (s: String)
    ensures
        s@ == not_found_text(path@, context@),
{
    let mut s = str_to_string("File not found: '");
    push_str(&mut s, path);
    push_str(&mut s, "'\n\nContext: ");
    push_str(&mut s, context);
    push_str(
        &mut s,
        "\n\nPossible fixes:\n1. Check the file path is correct\n2. Use an absolute path if the relative path is ambiguous\n3. Create the file first if it doesn't exist: touch '",
    );
    push_str(&mut s, path);
    push_str(&mut s, "'\n4. Check if the file exists in a different directory");
    s
}

/// The message for a directory that could not be created: the cause and
/// fixes for a permission denial or a missing parent, else the failure's
/// own message.
pub open spec fn dir_create_text(path: Seq<char>, err: IoFailure) -> Seq<char> {
    let base = "Failed to create directory: '"@ + path + "'"@;
    if err.kind == IoErrorKind::PermissionDenied {
        base + "\n\nCause: Permission denied\n\nPossible fixes:\n1. Ensure parent directory exists: ls -la '"@ + parent_or_dot(path)
            + "'\n2. Check write permissions on parent directory\n3. Try creating manually: mkdir -p '"@ + path
            + "'\n4. Use --backup-dir to specify a different location"@
    } else if err.kind == IoErrorKind::NotFound {
        base + "\n\nCause: Parent directory does not exist\n\nPossible fixes:\n1. Create parent directory first: mkdir -p '"@
            + parent_or_dot(path) + "'\n2. Use an absolute path for the backup directory"@
    } else {
        base + "\n\nUnderlying error: "@ + err.message@
    }
}

/// A message for a directory `path` that could not be created.
pub fn dir_create_error(path: &str, underlying_err: &IoFailure) -> (s: String)
    ensures
        s@ == dir_create_text(path@, *underlying_err),
{
    let mut s = str_to_string("Failed to create directory: '");
    push_str(&mut s, path);
    push_str(&mut s, "'");
    if is_permission_denied(underlying_err) {
        let parent = parent_or_dot_exec(path);
        push_str(&mut s, "\n\nCause: Permission denied\n\nPossible fixes:\n1. Ensure parent directory exists: ls -la '");
        push_str(&mut s, parent.as_str());
        push_str(&mut s, "'\n2. Check write permissions on parent directory\n3. Try creating manually: mkdir -p '");
        push_str(&mut s, path);
        push_str(&mut s, "'\n4. Use --backup-dir to specify a different location");
    } else if is_not_found(underlying_err) {
        let parent = parent_or_dot_exec(path);
        push_str(&mut s, "\n\nCause: Parent directory does not exist\n\nPossible fixes:\n1. Create parent directory first: mkdir -p '");
        push_str(&mut s, parent.as_str());
        push_str(&mut s, "'\n2. Use an absolute path for the backup directory");
    } else {
        push_str(&mut s, "\n\nUnderlying error: ");
        push_str(&mut s, underlying_err.message.as_str());
    }
    s
}

} // verus!
