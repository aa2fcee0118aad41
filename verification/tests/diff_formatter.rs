use sedx::diff_formatter::DiffFormatter;
use sedx::file_processor::{ChangeType, FileChange, FileDiff, LineChange};

fn create_test_diff(file_path: &str, all_lines: Vec<(usize, String, ChangeType)>, changes: Vec<LineChange>) -> FileDiff {
    FileDiff { file_path: file_path.to_string(), changes, all_lines, printed_lines: Vec::new(), is_streaming: false }
}

fn create_test_line_change(line_number: usize, content: &str, change_type: ChangeType) -> LineChange {
    LineChange { line_number, change_type, content: content.to_string(), old_content: None }
}

#[test]
fn test_format_diff_with_context_single_change() {
    let all_lines = vec![
        (1, "line 1".to_string(), ChangeType::Unchanged),
        (2, "modified line".to_string(), ChangeType::Modified),
        (3, "line 3".to_string(), ChangeType::Unchanged),
    ];
    let changes = vec![create_test_line_change(2, "modified line", ChangeType::Modified)];
    let diff = create_test_diff("test.txt", all_lines, changes);
    let result = DiffFormatter::format_diff_plain(&diff, 0);
    assert!(result.contains("test.txt"));
    assert!(result.contains("modified line"));
    assert!(result.contains("Total:"));
    assert!(result.contains("1 modified"));
}

#[test]
fn test_format_diff_with_context_multiple_changes() {
    let all_lines = vec![
        (1, "line 1".to_string(), ChangeType::Unchanged),
        (2, "modified line 1".to_string(), ChangeType::Modified),
        (3, "line 3".to_string(), ChangeType::Unchanged),
        (4, "added line".to_string(), ChangeType::Added),
        (5, "line 5".to_string(), ChangeType::Unchanged),
        (6, "deleted line".to_string(), ChangeType::Deleted),
    ];
    let changes = vec![
        create_test_line_change(2, "modified line 1", ChangeType::Modified),
        create_test_line_change(4, "added line", ChangeType::Added),
        create_test_line_change(6, "deleted line", ChangeType::Deleted),
    ];
    let diff = create_test_diff("test.txt", all_lines, changes);
    let result = DiffFormatter::format_diff_plain(&diff, 0);
    assert!(result.contains("modified"));
    assert!(result.contains("added"));
    assert!(result.contains("deleted"));
    assert!(result.contains("Total: 3 changes"));
}

#[test]
fn test_format_diff_with_context_with_context_lines() {
    let all_lines = vec![
        (1, "context before".to_string(), ChangeType::Unchanged),
        (2, "context before 2".to_string(), ChangeType::Unchanged),
        (3, "modified line".to_string(), ChangeType::Modified),
        (4, "context after".to_string(), ChangeType::Unchanged),
        (5, "context after 2".to_string(), ChangeType::Unchanged),
    ];
    let changes = vec![create_test_line_change(3, "modified line", ChangeType::Modified)];
    let diff = create_test_diff("test.txt", all_lines, changes);
    let result = DiffFormatter::format_diff_plain(&diff, 2);
    assert!(result.contains("context before"));
    assert!(result.contains("context after"));
    assert!(result.contains("modified line"));
}

#[test]
fn test_format_diff_with_context_empty_changes() {
    let all_lines = vec![(1, "line 1".to_string(), ChangeType::Unchanged), (2, "line 2".to_string(), ChangeType::Unchanged)];
    let diff = create_test_diff("test.txt", all_lines, vec![]);
    let result = DiffFormatter::format_diff_plain(&diff, 0);
    assert!(result.contains("test.txt"));
    assert!(result.contains("Total: 0 changes"));
}

#[test]
fn test_format_diff_with_context_distant_changes() {
    let all_lines = vec![
        (1, "line 1".to_string(), ChangeType::Unchanged),
        (2, "modified 1".to_string(), ChangeType::Modified),
        (3, "line 3".to_string(), ChangeType::Unchanged),
        (4, "line 4".to_string(), ChangeType::Unchanged),
        (5, "line 5".to_string(), ChangeType::Unchanged),
        (6, "line 6".to_string(), ChangeType::Unchanged),
        (7, "modified 2".to_string(), ChangeType::Modified),
        (8, "line 8".to_string(), ChangeType::Unchanged),
    ];
    let changes = vec![
        create_test_line_change(2, "modified 1", ChangeType::Modified),
        create_test_line_change(7, "modified 2", ChangeType::Modified),
    ];
    let diff = create_test_diff("test.txt", all_lines, changes);
    let result = DiffFormatter::format_diff_plain(&diff, 1);
    assert!(result.contains("..."));
}

#[test]
fn test_format_diff_with_context_streaming_mode() {
    let changes = vec![
        create_test_line_change(1, "modified line 1", ChangeType::Modified),
        create_test_line_change(5, "modified line 2", ChangeType::Modified),
    ];
    let diff = FileDiff {
        file_path: "test.txt".to_string(),
        changes,
        all_lines: vec![],
        printed_lines: vec![],
        is_streaming: true,
    };
    let result = DiffFormatter::format_diff_plain(&diff, 2);
    assert!(result.contains("modified line 1"));
    assert!(result.contains("modified line 2"));
    assert!(result.contains("Total:"));
}

#[test]
fn test_format_diff_with_context_printed_lines_mode() {
    let diff = FileDiff {
        file_path: "test.txt".to_string(),
        changes: vec![],
        all_lines: vec![],
        printed_lines: vec!["printed line 1".to_string(), "printed line 2".to_string()],
        is_streaming: false,
    };
    let result = DiffFormatter::format_diff_plain(&diff, 0);
    assert!(result.contains("printed line 1"));
    assert!(result.contains("printed line 2"));
    assert!(!result.contains("Total:"));
}

#[test]
fn test_format_dry_run_header_basic() {
    let result = DiffFormatter::format_dry_run_header_plain("s/foo/bar/");
    assert!(result.contains("Dry run"));
    assert!(result.contains("s/foo/bar/"));
    assert!(result.ends_with("\n\n"));
}

#[test]
fn test_format_dry_run_header_complex_expression() {
    let result = DiffFormatter::format_dry_run_header_plain("1,10{s/foo/bar/; s/baz/qux/}");
    assert!(result.contains("Dry run"));
    assert!(result.contains("1,10{s/foo/bar/; s/baz/qux/}"));
}

#[test]
fn test_format_dry_run_header_with_special_chars() {
    let result = DiffFormatter::format_dry_run_header_plain("s/.*\n\t//g");
    assert!(result.contains("Dry run"));
    assert!(result.contains("s/.*\n\t//g"));
}

#[test]
fn test_filter_lines_with_context_no_context() {
    let all_lines = vec![
        (1, "line 1".to_string(), ChangeType::Unchanged),
        (2, "modified".to_string(), ChangeType::Modified),
        (3, "line 3".to_string(), ChangeType::Unchanged),
    ];
    let result = DiffFormatter::filter_lines_with_context(&all_lines, 0);
    assert_eq!(result.len(), 1);
    assert_eq!(result[0].0, 2);
    assert_eq!(result[0].1, "modified");
    assert_eq!(result[0].2, ChangeType::Modified);
}

#[test]
fn test_filter_lines_with_context_empty_input() {
    let all_lines = vec![];
    let result = DiffFormatter::filter_lines_with_context(&all_lines, 2);
    assert_eq!(result.len(), 0);
}

#[test]
fn test_filter_lines_with_context_no_changes() {
    let all_lines = vec![
        (1, "line 1".to_string(), ChangeType::Unchanged),
        (2, "line 2".to_string(), ChangeType::Unchanged),
        (3, "line 3".to_string(), ChangeType::Unchanged),
    ];
    let result = DiffFormatter::filter_lines_with_context(&all_lines, 2);
    assert_eq!(result.len(), 0);
}

#[test]
fn test_filter_lines_with_context_groups_nearby_changes() {
    let all_lines = vec![
        (1, "line 1".to_string(), ChangeType::Unchanged),
        (2, "modified 1".to_string(), ChangeType::Modified),
        (3, "line 3".to_string(), ChangeType::Unchanged),
        (4, "modified 2".to_string(), ChangeType::Modified),
        (5, "line 5".to_string(), ChangeType::Unchanged),
    ];
    let result = DiffFormatter::filter_lines_with_context(&all_lines, 1);
    assert!(result.len() > 2);
}

#[test]
fn test_filter_lines_with_context_adds_ellipsis_for_distant_groups() {
    let all_lines = vec![
        (1, "line 1".to_string(), ChangeType::Modified),
        (2, "line 2".to_string(), ChangeType::Unchanged),
        (3, "line 3".to_string(), ChangeType::Unchanged),
        (4, "line 4".to_string(), ChangeType::Unchanged),
        (5, "line 5".to_string(), ChangeType::Unchanged),
        (6, "line 6".to_string(), ChangeType::Modified),
    ];
    let result = DiffFormatter::filter_lines_with_context(&all_lines, 1);
    let has_ellipsis = result.iter().any(|(_, content, _)| content == "...");
    assert!(has_ellipsis, "Expected '...' placeholder in result for distant groups");
}

#[test]
fn test_format_changes_streaming() {
    let changes = vec![
        LineChange { line_number: 1, content: "modified 1".to_string(), change_type: ChangeType::Modified, old_content: None },
        LineChange { line_number: 5, content: "modified 2".to_string(), change_type: ChangeType::Added, old_content: None },
    ];
    let result = DiffFormatter::format_changes_streaming(&changes, 2);
    assert_eq!(result.len(), 2);
    assert_eq!(result[0].0, 1);
    assert_eq!(result[0].1, "modified 1");
    assert_eq!(result[0].2, ChangeType::Modified);
    assert_eq!(result[1].0, 5);
    assert_eq!(result[1].1, "modified 2");
    assert_eq!(result[1].2, ChangeType::Added);
}

#[test]
fn test_format_changes_streaming_empty() {
    let changes = vec![];
    let result = DiffFormatter::format_changes_streaming(&changes, 2);
    assert_eq!(result.len(), 0);
}

#[test]
fn test_change_type_enum_unchanged() {
    let ct = ChangeType::Unchanged;
    let ct_clone = ct.clone();
    assert_eq!(ct, ct_clone);
}

#[test]
fn test_change_type_enum_modified() {
    let ct = ChangeType::Modified;
    let ct_clone = ct.clone();
    assert_eq!(ct, ct_clone);
    assert_ne!(ct, ChangeType::Unchanged);
}

#[test]
fn test_change_type_enum_added() {
    let ct = ChangeType::Added;
    assert_ne!(ct, ChangeType::Modified);
    assert_ne!(ct, ChangeType::Unchanged);
}

#[test]
fn test_change_type_enum_deleted() {
    let ct = ChangeType::Deleted;
    assert_ne!(ct, ChangeType::Added);
    assert_ne!(ct, ChangeType::Modified);
    assert_ne!(ct, ChangeType::Unchanged);
}

#[test]
fn test_line_change_creation() {
    let line_change = LineChange {
        line_number: 42,
        content: "test content".to_string(),
        change_type: ChangeType::Modified,
        old_content: Some("old content".to_string()),
    };
    assert_eq!(line_change.line_number, 42);
    assert_eq!(line_change.content, "test content");
    assert_eq!(line_change.change_type, ChangeType::Modified);
    assert_eq!(line_change.old_content, Some("old content".to_string()));
}

#[test]
fn test_line_change_clone() {
    let line_change =
        LineChange { line_number: 1, content: "content".to_string(), change_type: ChangeType::Added, old_content: None };
    let cloned = line_change.clone();
    assert_eq!(cloned.line_number, line_change.line_number);
    assert_eq!(cloned.content, line_change.content);
    assert_eq!(cloned.change_type, line_change.change_type);
}

#[test]
fn test_file_diff_all_change_types() {
    let all_lines = vec![
        (1, "unchanged".to_string(), ChangeType::Unchanged),
        (2, "modified".to_string(), ChangeType::Modified),
        (3, "added".to_string(), ChangeType::Added),
        (4, "deleted".to_string(), ChangeType::Deleted),
    ];
    let changes = vec![
        create_test_line_change(2, "modified", ChangeType::Modified),
        create_test_line_change(3, "added", ChangeType::Added),
        create_test_line_change(4, "deleted", ChangeType::Deleted),
    ];
    let diff = create_test_diff("test.txt", all_lines, changes);
    let result = DiffFormatter::format_diff_plain(&diff, 0);
    assert!(result.contains("modified"));
    assert!(result.contains("added"));
    assert!(result.contains("deleted"));
    assert!(result.contains("Total: 3 changes"));
}

#[test]
fn test_format_diff_indicators() {
    let all_lines = vec![
        (1, "unchanged".to_string(), ChangeType::Unchanged),
        (2, "modified".to_string(), ChangeType::Modified),
        (3, "added".to_string(), ChangeType::Added),
        (4, "deleted".to_string(), ChangeType::Deleted),
    ];
    let changes = vec![
        create_test_line_change(2, "modified", ChangeType::Modified),
        create_test_line_change(3, "added", ChangeType::Added),
        create_test_line_change(4, "deleted", ChangeType::Deleted),
    ];
    let diff = create_test_diff("test.txt", all_lines, changes);
    let result = DiffFormatter::format_diff_plain(&diff, 0);
    assert!(result.contains("L2:"), "Should contain L2 for modified line");
    assert!(result.contains("L3:"), "Should contain L3 for added line");
    assert!(result.contains("L4:"), "Should contain L4 for deleted line");
    assert!(result.contains("modified"));
    assert!(result.contains("added"));
    assert!(result.contains("deleted"));
}

#[test]
fn test_filter_lines_with_context_boundary_conditions() {
    let all_lines = vec![
        (1, "first modified".to_string(), ChangeType::Modified),
        (2, "line 2".to_string(), ChangeType::Unchanged),
        (3, "line 3".to_string(), ChangeType::Unchanged),
        (4, "last modified".to_string(), ChangeType::Modified),
    ];
    let result = DiffFormatter::filter_lines_with_context(&all_lines, 1);
    assert!(!result.is_empty());
    assert_eq!(result[0].0, 1);
    assert_eq!(result[result.len() - 1].0, 4);
}

#[test]
fn test_filter_lines_with_context_single_change() {
    let all_lines = vec![
        (1, "line 1".to_string(), ChangeType::Unchanged),
        (2, "modified".to_string(), ChangeType::Modified),
        (3, "line 3".to_string(), ChangeType::Unchanged),
    ];
    let result = DiffFormatter::filter_lines_with_context(&all_lines, 1);
    assert!(!result.is_empty());
    let has_modified = result.iter().any(|(_, content, ct)| content == "modified" && *ct == ChangeType::Modified);
    assert!(has_modified);
}

#[test]
fn test_filter_lines_with_context_large_context_size() {
    let all_lines = vec![
        (1, "line 1".to_string(), ChangeType::Unchanged),
        (2, "line 2".to_string(), ChangeType::Unchanged),
        (3, "modified".to_string(), ChangeType::Modified),
        (4, "line 4".to_string(), ChangeType::Unchanged),
        (5, "line 5".to_string(), ChangeType::Unchanged),
    ];
    let result = DiffFormatter::filter_lines_with_context(&all_lines, 10);
    assert!(result.len() >= 3);
}

fn change(line_number: usize, old: &str, new: &str) -> FileChange {
    FileChange { line_number, old_content: old.to_string(), new_content: new.to_string() }
}

#[test]
fn test_format_execute_result_single_file() {
    let files_changes = vec![("test.txt".to_string(), vec![change(1, "old", "new")])];
    let result = DiffFormatter::format_execute_result_plain("s/old/new/", "backup-123", &files_changes);
    assert!(result.contains("Applied"));
    assert!(result.contains("s/old/new/"));
    assert!(result.contains("backup-123"));
    assert!(result.contains("test.txt"));
    assert!(result.contains("Rollback with: sedx rollback backup-123"));
}

#[test]
fn test_format_execute_result_multiple_files() {
    let files_changes = vec![
        ("file1.txt".to_string(), vec![change(1, "old", "new")]),
        ("file2.txt".to_string(), vec![change(1, "foo", "bar"), change(2, "baz", "qux")]),
    ];
    let result = DiffFormatter::format_execute_result_plain("s/foo/bar/", "backup-456", &files_changes);
    assert!(result.contains("file1.txt"));
    assert!(result.contains("1 changes"));
    assert!(result.contains("file2.txt"));
    assert!(result.contains("2 changes"));
    assert!(result.contains("Rollback with: sedx rollback backup-456"));
}

#[test]
fn test_format_execute_result_no_changes() {
    let files_changes = vec![("test.txt".to_string(), vec![])];
    let result = DiffFormatter::format_execute_result_plain("s/nochange/", "backup-789", &files_changes);
    assert!(result.contains("Applied"));
    assert!(result.contains("backup-789"));
    assert!(result.contains("Rollback with:"));
    assert!(!result.contains("Changes made:"));
}

#[test]
fn test_format_preview_with_changes() {
    let files_changes = vec![("test.txt".to_string(), vec![change(1, "old", "new")])];
    let result = DiffFormatter::format_preview_plain("s/old/new/", &files_changes);
    assert!(result.contains("Preview"));
    assert!(result.contains("s/old/new/"));
    assert!(result.contains("test.txt"));
    assert!(result.contains("old"));
    assert!(result.contains("new"));
    assert!(result.contains("Apply with: sedx"));
}

#[test]
fn test_format_preview_no_changes() {
    let files_changes = vec![("test.txt".to_string(), vec![])];
    let result = DiffFormatter::format_preview_plain("s/nochange/", &files_changes);
    assert!(result.contains("No changes would be made"));
    assert!(!result.contains("Apply with:"));
}

#[test]
fn test_preview_single_file_pluralization() {
    let files_changes = vec![("test.txt".to_string(), vec![change(1, "old", "new")])];
    let result = DiffFormatter::format_preview_plain("s/old/new/", &files_changes);
    assert!(result.contains("1 file"));
}

#[test]
fn test_preview_multiple_files_pluralization() {
    let files_changes = vec![
        ("file1.txt".to_string(), vec![change(1, "old", "new")]),
        ("file2.txt".to_string(), vec![change(1, "old", "new")]),
    ];
    let result = DiffFormatter::format_preview_plain("s/old/new/", &files_changes);
    assert!(result.contains("2 files"));
}

#[test]
fn preview_and_report_are_rendered_exactly() {
    let files_changes = vec![
        ("a.txt".to_string(), vec![change(3, "x", "y")]),
        ("b.txt".to_string(), vec![]),
    ];
    assert_eq!(
        DiffFormatter::format_preview_plain("s/x/y/", &files_changes),
        "Preview: s/x/y/\n\na.txt\n  Line 3: - x\n  Line 3: + y\n\nTotal: 1 changes across 1 file\n\nApply with: sedx 's/x/y/'\n"
    );
    assert_eq!(
        DiffFormatter::format_execute_result_plain("s/x/y/", "id-1", &files_changes),
        "Applied: s/x/y/\nBackup ID: id-1\n\nChanges made:\n  a.txt: 1 changes\n\nRollback with: sedx rollback id-1\n"
    );
}

#[test]
fn summary_parts_name_only_the_kinds_that_occur() {
    let (word, kinds) = DiffFormatter::summary_parts(1, 0, 0);
    assert_eq!(word, "change");
    assert_eq!(kinds, vec![(1, ChangeType::Modified, "modified")]);
    let (word, kinds) = DiffFormatter::summary_parts(2, 0, 3);
    assert_eq!(word, "changes");
    assert_eq!(kinds, vec![(2, ChangeType::Modified, "modified"), (3, ChangeType::Deleted, "deleted")]);
    let (word, kinds) = DiffFormatter::summary_parts(0, 0, 0);
    assert_eq!(word, "changes");
    assert!(kinds.is_empty());
    let (_, kinds) = DiffFormatter::summary_parts(0, 4, 0);
    assert_eq!(kinds, vec![(4, ChangeType::Added, "added")]);
}
