use sedx::cli::RegexFlavor;
use sedx::file_processor::in_memory::ProcessError;
use sedx::file_processor::{ChangeType, FileProcessor};
use sedx::parser::Parser;

fn processor(script: &str) -> FileProcessor {
    FileProcessor::with_regex_flavor(Parser::new(RegexFlavor::PCRE).parse(script).unwrap(), RegexFlavor::PCRE)
}

fn lines(v: &[&str]) -> Vec<String> {
    v.iter().map(|s| s.to_string()).collect()
}

fn run(script: &str, input: &[&str]) -> Vec<String> {
    processor(script).apply_cycle_based(lines(input)).unwrap()
}

#[test]
fn empty_script_outputs_the_input() {
    assert_eq!(run("", &["a", "b", "c"]), lines(&["a", "b", "c"]));
}

#[test]
fn quiet_mode_without_print_outputs_nothing() {
    let mut fp = processor("");
    fp.set_no_default_output(true);
    assert!(fp.apply_cycle_based(lines(&["a", "b"])).unwrap().is_empty());
}

#[test]
fn print_duplicates_selected_lines() {
    assert_eq!(run("2p", &["a", "b", "c"]), lines(&["a", "b", "b", "c"]));
}

#[test]
fn delete_range_and_last_line() {
    assert_eq!(run("2,3d", &["1", "2", "3", "4"]), lines(&["1", "4"]));
    assert_eq!(run("$d", &["1", "2", "3"]), lines(&["1", "2"]));
}

#[test]
fn quit_prints_then_stops_and_quit_silently_does_not_print() {
    assert_eq!(run("2q", &["1", "2", "3"]), lines(&["1", "2"]));
    assert_eq!(run("2Q", &["1", "2", "3"]), lines(&["1"]));
}

#[test]
fn join_all_lines_with_a_loop() {
    assert_eq!(run(":a;N;$!ba;s/\\n/,/g", &["a", "b", "c"]), lines(&["a,b,c"]));
}

#[test]
fn test_branch_on_substitution() {
    assert_eq!(run("s/x/y/;ta;s/$/!/;:a", &["x", "z"]), lines(&["y", "z!"]));
}

#[test]
fn delete_first_line_of_pattern_space_restarts_the_cycle() {
    assert_eq!(run("N;P;D", &["1", "2", "3"]), lines(&["1", "2", "3"]));
}

#[test]
fn hold_then_get_append_carries_a_line_forward() {
    assert_eq!(run("h;n;G", &["a", "b"]), lines(&["a", "b\na"]));
}

#[test]
fn line_number_and_file_name_are_output() {
    assert_eq!(run("=", &["x"]), lines(&["1", "x"]));
    assert_eq!(run("F", &["x"]), lines(&["(stdin)", "x"]));
}

#[test]
fn read_file_appends_provided_content() {
    let mut fp = processor("1r extra.txt");
    fp.provide_file("extra.txt".to_string(), lines(&["E1", "E2"]));
    assert_eq!(fp.apply_cycle_based(lines(&["a", "b"])).unwrap(), lines(&["a", "E1", "E2", "b"]));
}

#[test]
fn read_line_appends_one_line_at_a_time_to_the_pattern_space() {
    let mut fp = processor("R extra.txt");
    fp.provide_file("extra.txt".to_string(), lines(&["E1"]));
    assert_eq!(fp.apply_cycle_based(lines(&["a", "b"])).unwrap(), lines(&["a\nE1", "b"]));
}

#[test]
fn write_file_collects_lines() {
    let mut fp = processor("/b/w out.txt");
    assert_eq!(fp.apply_cycle_based(lines(&["a", "b", "c"])).unwrap(), lines(&["a", "b", "c"]));
    let writes = fp.take_pending_writes();
    assert_eq!(writes, vec![("out.txt".to_string(), "b".to_string())]);
    assert!(fp.take_pending_writes().is_empty());
}

#[test]
fn undefined_label_is_an_error() {
    assert!(matches!(processor("b nowhere").apply_cycle_based(lines(&["a"])), Err(ProcessError::UndefinedLabel(_))));
}

#[test]
fn unsafe_file_name_is_refused() {
    assert!(matches!(processor("w ../x").apply_cycle_based(lines(&["a"])), Err(ProcessError::UnsafePath(_))));
}

#[test]
fn printed_lines_and_hold_space_are_kept() {
    let mut fp = processor("h;p");
    fp.apply_cycle_based(lines(&["a", "b"])).unwrap();
    assert_eq!(fp.printed_lines(), &lines(&["a", "b"]));
    assert_eq!(fp.hold_space(), "b");
}

#[test]
fn diff_of_a_run_pairs_changes() {
    let mut fp = processor("s/b/B/;/c/d");
    let diff = fp.process_lines_with_context("notes.txt", lines(&["a", "b", "c"])).unwrap();
    assert_eq!(diff.file_path, "notes.txt");
    assert!(!diff.is_streaming);
    let changes: Vec<_> = diff.changes.iter().map(|c| (c.line_number, c.change_type, c.content.clone())).collect();
    assert_eq!(changes, vec![(2, ChangeType::Modified, "B".to_string()), (3, ChangeType::Deleted, "c".to_string())]);
    assert_eq!(diff.changes[0].old_content.as_deref(), Some("b"));
    assert_eq!(
        diff.all_lines,
        vec![
            (1, "a".to_string(), ChangeType::Unchanged),
            (2, "B".to_string(), ChangeType::Modified),
            (3, "c".to_string(), ChangeType::Deleted),
        ]
    );
}

#[test]
fn failed_run_gives_no_diff() {
    let mut fp = processor("s/(/x/");
    assert!(matches!(fp.process_lines_with_context("f", lines(&["a"])), Err(ProcessError::Regex(_))));
}
