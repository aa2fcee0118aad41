use sedx::cli::RegexFlavor;
use sedx::diff_formatter::DiffFormatter;
use sedx::file_processor::{ChangeType, FileDiff, LineChange};
use sedx::parser::Parser;
use sedx::plan::{can_use_streaming, commands_can_modify_files, find_by_prefix, show_plan, use_streaming};

fn parse(script: &str) -> Vec<sedx::command::Command> {
    Parser::new(RegexFlavor::PCRE).parse(script).unwrap()
}

#[test]
fn streaming_is_chosen_for_simple_scripts_only() {
    assert!(can_use_streaming(&parse("s/a/b/;2d;3p;h;G;x")));
    assert!(can_use_streaming(&parse("5i\\text")));
    assert!(!can_use_streaming(&parse("/x/i\\text")));
    assert!(can_use_streaming(&parse("3c\\text")));
    assert!(!can_use_streaming(&parse("3,4c\\text")));
    assert!(!can_use_streaming(&parse("n")));
    assert!(can_use_streaming(&parse("2,3{s/a/b/}")));
    assert!(!can_use_streaming(&parse("{=}")));
}

#[test]
fn printing_scripts_do_not_modify_files() {
    assert!(!commands_can_modify_files(&parse("p;=;n")));
    assert!(!commands_can_modify_files(&parse("{p}")));
    assert!(commands_can_modify_files(&parse("p;s/a/b/")));
    assert!(commands_can_modify_files(&parse("{p;d}")));
    assert!(!commands_can_modify_files(&[]));
}

#[test]
fn streaming_threshold_follows_configuration() {
    assert!(use_streaming(true, false, true, false, 0, None));
    assert!(!use_streaming(true, true, true, true, u64::MAX, None));
    assert!(!use_streaming(false, false, true, true, u64::MAX, None));
    assert!(use_streaming(true, false, false, false, 100 * 1024 * 1024, None));
    assert!(!use_streaming(true, false, false, false, 100 * 1024 * 1024 - 1, None));
    assert!(use_streaming(true, false, false, false, 10 * 1024 * 1024, Some(10)));
    assert!(use_streaming(true, false, false, true, 0, Some(10)));
}

#[test]
fn show_plan_cases() {
    let dry = show_plan(true, false, true);
    assert!(dry.header && dry.diffs_first && dry.stop && !dry.nothing_to_apply && !dry.confirm && !dry.diffs_after);
    let none = show_plan(false, false, false);
    assert!(!none.header && none.diffs_first && none.stop && none.nothing_to_apply);
    let apply = show_plan(false, false, true);
    assert!(!apply.header && !apply.diffs_first && !apply.stop && apply.diffs_after && !apply.confirm);
    let ask = show_plan(false, true, true);
    assert!(ask.header && ask.diffs_first && !ask.stop && ask.confirm && !ask.diffs_after);
}

#[test]
fn backups_are_found_by_id_prefix() {
    let ids = vec!["20240101-1".to_string(), "20240102-2".to_string(), "20240102-3".to_string()];
    assert_eq!(find_by_prefix(&ids, "20240102"), Some(1));
    assert_eq!(find_by_prefix(&ids, "2024"), Some(0));
    assert_eq!(find_by_prefix(&ids, "2025"), None);
    assert_eq!(find_by_prefix(&ids, ""), Some(0));
    assert_eq!(find_by_prefix(&Vec::new(), "x"), None);
}

const U: ChangeType = ChangeType::Unchanged;
const M: ChangeType = ChangeType::Modified;
const A: ChangeType = ChangeType::Added;

fn listing(kinds: &[ChangeType]) -> Vec<(usize, String, ChangeType)> {
    kinds.iter().enumerate().map(|(i, k)| (i + 1, format!("line {}", i + 1), *k)).collect()
}

#[test]
fn context_filter_shows_lines_around_changes() {
    let lines = listing(&[U, U, U, M, U, U, U, U, U, U, A, U]);
    let shown: Vec<usize> = DiffFormatter::filter_lines_with_context(&lines, 1).iter().map(|e| e.0).collect();
    assert_eq!(shown, vec![3, 4, 5, 0, 10, 11, 12]);
    let wide: Vec<usize> = DiffFormatter::filter_lines_with_context(&lines, 3).iter().map(|e| e.0).collect();
    assert_eq!(wide, vec![1, 2, 3, 4, 5, 6, 7, 8, 9, 10, 11, 12]);
    let only: Vec<usize> = DiffFormatter::filter_lines_with_context(&lines, 0).iter().map(|e| e.0).collect();
    assert_eq!(only, vec![4, 11]);
    assert!(DiffFormatter::filter_lines_with_context(&listing(&[U, U]), 2).is_empty());
}

#[test]
fn short_gaps_are_left_out_without_a_marker() {
    // Changes at 1 and 5 with one line of context: line 3 is left out, one
    // line, which is no more than the context, so no "..." is shown.
    let lines = listing(&[M, U, U, U, M]);
    let shown: Vec<(usize, String)> =
        DiffFormatter::filter_lines_with_context(&lines, 1).into_iter().map(|e| (e.0, e.1)).collect();
    assert_eq!(shown.iter().map(|e| e.0).collect::<Vec<_>>(), vec![1, 2, 4, 5]);
}

#[test]
fn plain_diff_lists_lines_and_summary() {
    let diff = FileDiff {
        file_path: "a.txt".to_string(),
        changes: vec![LineChange {
            line_number: 2,
            change_type: ChangeType::Modified,
            content: "B".to_string(),
            old_content: Some("b".to_string()),
        }],
        all_lines: vec![
            (1, "a".to_string(), ChangeType::Unchanged),
            (2, "B".to_string(), ChangeType::Modified),
            (3, "c".to_string(), ChangeType::Unchanged),
        ],
        printed_lines: Vec::new(),
        is_streaming: false,
    };
    assert_eq!(
        DiffFormatter::format_diff_plain(&diff, 2),
        "a.txt\nL1: = a\nL2: ~ B\nL3: = c\n\nTotal: 1 changes (1 modified, 0 added, 0 deleted)\n"
    );
    assert_eq!(DiffFormatter::change_counts(&diff.changes), (1, 0, 0));
}

#[test]
fn plain_diff_of_printed_lines_shows_them_alone() {
    let diff = FileDiff {
        file_path: "p.txt".to_string(),
        changes: Vec::new(),
        all_lines: Vec::new(),
        printed_lines: vec!["x".to_string(), "y".to_string()],
        is_streaming: false,
    };
    assert_eq!(DiffFormatter::format_diff_plain(&diff, 2), "p.txt\nx\ny\n");
}

#[test]
fn streamed_diff_shows_its_changes() {
    let diff = FileDiff {
        file_path: "s.txt".to_string(),
        changes: vec![LineChange { line_number: 7, change_type: ChangeType::Deleted, content: "gone".to_string(), old_content: None }],
        all_lines: Vec::new(),
        printed_lines: Vec::new(),
        is_streaming: true,
    };
    assert_eq!(
        DiffFormatter::format_diff_plain(&diff, 2),
        "s.txt\nL7: - gone\n\nTotal: 1 changes (0 modified, 0 added, 1 deleted)\n"
    );
    assert_eq!(DiffFormatter::format_dry_run_header_plain("s/a/b/"), "Dry run: s/a/b/\n\n");
}

#[test]
fn a_group_modifies_files_only_through_its_body() {
    assert!(!commands_can_modify_files(&parse("{p;=}")));
    assert!(commands_can_modify_files(&parse("{p;s/a/b/}")));
    assert!(!commands_can_modify_files(&parse("p;n;q")));
    assert!(commands_can_modify_files(&parse("p;d")));
}
